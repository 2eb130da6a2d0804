//! The different kinds of elements a buffer can hold.

use crate::error::TchError;
use vstd::prelude::*;

verus! {

/// The closed enumeration of element kinds the transport understands.
#[derive(Debug, Clone, Copy, PartialEq, Eq, Structural)]
pub enum Kind {
    Uint8,
    Int8,
    Int16,
    Int,
    Int64,
    Half,
    Float,
    Double,
    ComplexHalf,
    ComplexFloat,
    ComplexDouble,
    Bool,
    QInt8,
    QUInt8,
    QInt32,
    BFloat16,
    QUInt4x2,
    QUInt2x4,
    Bits1x8,
    Bits2x4,
    Bits4x2,
    Bits8,
    Bits16,
    Float8e5m2,
    Float8e4m3fn,
    Float8e5m2fnuz,
    Float8e4m3fnuz,
    UInt16,
    UInt32,
    UInt64,
    UInt1,
    UInt2,
    UInt3,
    UInt4,
    UInt5,
    UInt6,
    UInt7,
}

/// The scalar-type code the transport assigns to each kind.
pub open spec fn kind_code(k: Kind) -> int {
    match k {
        Kind::Uint8 => 0,
        Kind::Int8 => 1,
        Kind::Int16 => 2,
        Kind::Int => 3,
        Kind::Int64 => 4,
        Kind::Half => 5,
        Kind::Float => 6,
        Kind::Double => 7,
        Kind::ComplexHalf => 8,
        Kind::ComplexFloat => 9,
        Kind::ComplexDouble => 10,
        Kind::Bool => 11,
        Kind::QInt8 => 12,
        Kind::QUInt8 => 13,
        Kind::QInt32 => 14,
        Kind::BFloat16 => 15,
        Kind::QUInt4x2 => 16,
        Kind::QUInt2x4 => 17,
        Kind::Bits1x8 => 18,
        Kind::Bits2x4 => 19,
        Kind::Bits4x2 => 20,
        Kind::Bits8 => 21,
        Kind::Bits16 => 22,
        Kind::Float8e5m2 => 23,
        Kind::Float8e4m3fn => 24,
        Kind::Float8e5m2fnuz => 25,
        Kind::Float8e4m3fnuz => 26,
        Kind::UInt16 => 27,
        Kind::UInt32 => 28,
        Kind::UInt64 => 29,
        Kind::UInt1 => 30,
        Kind::UInt2 => 31,
        Kind::UInt3 => 32,
        Kind::UInt4 => 33,
        Kind::UInt5 => 34,
        Kind::UInt6 => 35,
        Kind::UInt7 => 36,
    }
}

/// The kind a scalar-type code names, for codes `0` through `36`.
pub open spec fn kind_of_code(v: int) -> Kind {
    if v == 0 {
        Kind::Uint8
    } else if v == 1 {
        Kind::Int8
    } else if v == 2 {
        Kind::Int16
    } else if v == 3 {
        Kind::Int
    } else if v == 4 {
        Kind::Int64
    } else if v == 5 {
        Kind::Half
    } else if v == 6 {
        Kind::Float
    } else if v == 7 {
        Kind::Double
    } else if v == 8 {
        Kind::ComplexHalf
    } else if v == 9 {
        Kind::ComplexFloat
    } else if v == 10 {
        Kind::ComplexDouble
    } else if v == 11 {
        Kind::Bool
    } else if v == 12 {
        Kind::QInt8
    } else if v == 13 {
        Kind::QUInt8
    } else if v == 14 {
        Kind::QInt32
    } else if v == 15 {
        Kind::BFloat16
    } else if v == 16 {
        Kind::QUInt4x2
    } else if v == 17 {
        Kind::QUInt2x4
    } else if v == 18 {
        Kind::Bits1x8
    } else if v == 19 {
        Kind::Bits2x4
    } else if v == 20 {
        Kind::Bits4x2
    } else if v == 21 {
        Kind::Bits8
    } else if v == 22 {
        Kind::Bits16
    } else if v == 23 {
        Kind::Float8e5m2
    } else if v == 24 {
        Kind::Float8e4m3fn
    } else if v == 25 {
        Kind::Float8e5m2fnuz
    } else if v == 26 {
        Kind::Float8e4m3fnuz
    } else if v == 27 {
        Kind::UInt16
    } else if v == 28 {
        Kind::UInt32
    } else if v == 29 {
        Kind::UInt64
    } else if v == 30 {
        Kind::UInt1
    } else if v == 31 {
        Kind::UInt2
    } else if v == 32 {
        Kind::UInt3
    } else if v == 33 {
        Kind::UInt4
    } else if v == 34 {
        Kind::UInt5
    } else if v == 35 {
        Kind::UInt6
    } else {
        Kind::UInt7
    }
}

/// How many bytes one element of each kind occupies.
pub open spec fn kind_size(k: Kind) -> int {
    match k {
        Kind::Uint8 => 1,
        Kind::Int8 => 1,
        Kind::Int16 => 2,
        Kind::Int => 4,
        Kind::Int64 => 8,
        Kind::Half => 2,
        Kind::Float => 4,
        Kind::Double => 8,
        Kind::ComplexHalf => 4,
        Kind::ComplexFloat => 8,
        Kind::ComplexDouble => 16,
        Kind::Bool => 1,
        Kind::QInt8 => 1,
        Kind::QUInt8 => 1,
        Kind::QInt32 => 4,
        Kind::BFloat16 => 2,
        Kind::QUInt4x2 => 1,
        Kind::QUInt2x4 => 1,
        Kind::Bits1x8 => 1,
        Kind::Bits2x4 => 1,
        Kind::Bits4x2 => 1,
        Kind::Bits8 => 1,
        Kind::Bits16 => 2,
        Kind::Float8e5m2 => 1,
        Kind::Float8e4m3fn => 1,
        Kind::Float8e5m2fnuz => 1,
        Kind::Float8e4m3fnuz => 1,
        Kind::UInt16 => 2,
        Kind::UInt32 => 4,
        Kind::UInt64 => 8,
        Kind::UInt1 => 1,
        Kind::UInt2 => 1,
        Kind::UInt3 => 1,
        Kind::UInt4 => 1,
        Kind::UInt5 => 1,
        Kind::UInt6 => 1,
        Kind::UInt7 => 1,
    }
}

impl Kind {
    /// The scalar-type code of this kind, exactly `kind_code`.
    pub fn c_int(self) -> (r: i32)
        ensures
            r == kind_code(self),
    {
        match self {
            Kind::Uint8 => 0,
            Kind::Int8 => 1,
            Kind::Int16 => 2,
            Kind::Int => 3,
            Kind::Int64 => 4,
            Kind::Half => 5,
            Kind::Float => 6,
            Kind::Double => 7,
            Kind::ComplexHalf => 8,
            Kind::ComplexFloat => 9,
            Kind::ComplexDouble => 10,
            Kind::Bool => 11,
            Kind::QInt8 => 12,
            Kind::QUInt8 => 13,
            Kind::QInt32 => 14,
            Kind::BFloat16 => 15,
            Kind::QUInt4x2 => 16,
            Kind::QUInt2x4 => 17,
            Kind::Bits1x8 => 18,
            Kind::Bits2x4 => 19,
            Kind::Bits4x2 => 20,
            Kind::Bits8 => 21,
            Kind::Bits16 => 22,
            Kind::Float8e5m2 => 23,
            Kind::Float8e4m3fn => 24,
            Kind::Float8e5m2fnuz => 25,
            Kind::Float8e4m3fnuz => 26,
            Kind::UInt16 => 27,
            Kind::UInt32 => 28,
            Kind::UInt64 => 29,
            Kind::UInt1 => 30,
            Kind::UInt2 => 31,
            Kind::UInt3 => 32,
            Kind::UInt4 => 33,
            Kind::UInt5 => 34,
            Kind::UInt6 => 35,
            Kind::UInt7 => 36,
        }
    }

    /// Decodes a scalar-type code: `Ok` exactly for the codes `0` through
    /// `36`, and the kind returned carries that code; any other value yields
    /// `UnknownKind`.
    pub fn from_c_int(v: i32) -> (r: Result<Kind, TchError>)
        ensures
            0 <= v <= 36 ==> r == Ok::<Kind, TchError>(kind_of_code(v as int)),
            !(0 <= v <= 36) ==> r == Err::<Kind, TchError>(TchError::UnknownKind(v)),
            r matches Ok(k) ==> kind_code(k) == v,
    {
        match v {
            0 => Ok(Kind::Uint8),
            1 => Ok(Kind::Int8),
            2 => Ok(Kind::Int16),
            3 => Ok(Kind::Int),
            4 => Ok(Kind::Int64),
            5 => Ok(Kind::Half),
            6 => Ok(Kind::Float),
            7 => Ok(Kind::Double),
            8 => Ok(Kind::ComplexHalf),
            9 => Ok(Kind::ComplexFloat),
            10 => Ok(Kind::ComplexDouble),
            11 => Ok(Kind::Bool),
            12 => Ok(Kind::QInt8),
            13 => Ok(Kind::QUInt8),
            14 => Ok(Kind::QInt32),
            15 => Ok(Kind::BFloat16),
            16 => Ok(Kind::QUInt4x2),
            17 => Ok(Kind::QUInt2x4),
            18 => Ok(Kind::Bits1x8),
            19 => Ok(Kind::Bits2x4),
            20 => Ok(Kind::Bits4x2),
            21 => Ok(Kind::Bits8),
            22 => Ok(Kind::Bits16),
            23 => Ok(Kind::Float8e5m2),
            24 => Ok(Kind::Float8e4m3fn),
            25 => Ok(Kind::Float8e5m2fnuz),
            26 => Ok(Kind::Float8e4m3fnuz),
            27 => Ok(Kind::UInt16),
            28 => Ok(Kind::UInt32),
            29 => Ok(Kind::UInt64),
            30 => Ok(Kind::UInt1),
            31 => Ok(Kind::UInt2),
            32 => Ok(Kind::UInt3),
            33 => Ok(Kind::UInt4),
            34 => Ok(Kind::UInt5),
            35 => Ok(Kind::UInt6),
            36 => Ok(Kind::UInt7),
            _ => Err(TchError::UnknownKind(v)),
        }
    }

    /// How many bytes one element occupies, exactly `kind_size`.
    pub fn elt_size_in_bytes(self) -> (r: usize)
        ensures
            r == kind_size(self),
    {
        match self {
            Kind::Uint8 => 1,
            Kind::Int8 => 1,
            Kind::Int16 => 2,
            Kind::Int => 4,
            Kind::Int64 => 8,
            Kind::Half => 2,
            Kind::Float => 4,
            Kind::Double => 8,
            Kind::ComplexHalf => 4,
            Kind::ComplexFloat => 8,
            Kind::ComplexDouble => 16,
            Kind::Bool => 1,
            Kind::QInt8 => 1,
            Kind::QUInt8 => 1,
            Kind::QInt32 => 4,
            Kind::BFloat16 => 2,
            Kind::QUInt4x2 => 1,
            Kind::QUInt2x4 => 1,
            Kind::Bits1x8 => 1,
            Kind::Bits2x4 => 1,
            Kind::Bits4x2 => 1,
            Kind::Bits8 => 1,
            Kind::Bits16 => 2,
            Kind::Float8e5m2 => 1,
            Kind::Float8e4m3fn => 1,
            Kind::Float8e5m2fnuz => 1,
            Kind::Float8e4m3fnuz => 1,
            Kind::UInt16 => 2,
            Kind::UInt32 => 4,
            Kind::UInt64 => 8,
            Kind::UInt1 => 1,
            Kind::UInt2 => 1,
            Kind::UInt3 => 1,
            Kind::UInt4 => 1,
            Kind::UInt5 => 1,
            Kind::UInt6 => 1,
            Kind::UInt7 => 1,
        }
    }
}

/// Element types a buffer can be built from: each names its kind and its
/// zero value.
pub trait Element: Clone {
    /// The element kind a buffer of this type carries.
    const KIND: Kind;

    /// The zero of this type, used to fill fresh buffers.
    const ZERO: Self;
}

impl Element for u8 {
    const KIND: Kind = Kind::Uint8;

    const ZERO: u8 = 0;
}

impl Element for i8 {
    const KIND: Kind = Kind::Int8;

    const ZERO: i8 = 0;
}

impl Element for i16 {
    const KIND: Kind = Kind::Int16;

    const ZERO: i16 = 0;
}

impl Element for i32 {
    const KIND: Kind = Kind::Int;

    const ZERO: i32 = 0;
}

impl Element for i64 {
    const KIND: Kind = Kind::Int64;

    const ZERO: i64 = 0;
}

impl Element for bool {
    const KIND: Kind = Kind::Bool;

    const ZERO: bool = false;
}

} // verus!
