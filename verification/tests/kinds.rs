//! Element kinds: transport codes, decoding, and element sizes.

use tch_comm::device::Device;
use tch_comm::error::TchError;
use tch_comm::wrappers::kind::{Element, Kind};

const ALL_KINDS: [Kind; 37] = [
    Kind::Uint8,
    Kind::Int8,
    Kind::Int16,
    Kind::Int,
    Kind::Int64,
    Kind::Half,
    Kind::Float,
    Kind::Double,
    Kind::ComplexHalf,
    Kind::ComplexFloat,
    Kind::ComplexDouble,
    Kind::Bool,
    Kind::QInt8,
    Kind::QUInt8,
    Kind::QInt32,
    Kind::BFloat16,
    Kind::QUInt4x2,
    Kind::QUInt2x4,
    Kind::Bits1x8,
    Kind::Bits2x4,
    Kind::Bits4x2,
    Kind::Bits8,
    Kind::Bits16,
    Kind::Float8e5m2,
    Kind::Float8e4m3fn,
    Kind::Float8e5m2fnuz,
    Kind::Float8e4m3fnuz,
    Kind::UInt16,
    Kind::UInt32,
    Kind::UInt64,
    Kind::UInt1,
    Kind::UInt2,
    Kind::UInt3,
    Kind::UInt4,
    Kind::UInt5,
    Kind::UInt6,
    Kind::UInt7,
];

#[test]
fn codes_are_dense_and_roundtrip() {
    for (i, k) in ALL_KINDS.iter().enumerate() {
        assert_eq!(k.c_int(), i as i32);
        assert_eq!(Kind::from_c_int(i as i32), Ok(*k));
    }
}

#[test]
fn unknown_codes_are_rejected() {
    assert_eq!(Kind::from_c_int(37), Err(TchError::UnknownKind(37)));
    assert_eq!(Kind::from_c_int(-1), Err(TchError::UnknownKind(-1)));
    assert_eq!(Kind::from_c_int(99), Err(TchError::UnknownKind(99)));
}

#[test]
fn element_sizes() {
    assert_eq!(Kind::Uint8.elt_size_in_bytes(), 1);
    assert_eq!(Kind::Int16.elt_size_in_bytes(), 2);
    assert_eq!(Kind::Int.elt_size_in_bytes(), 4);
    assert_eq!(Kind::Int64.elt_size_in_bytes(), 8);
    assert_eq!(Kind::Half.elt_size_in_bytes(), 2);
    assert_eq!(Kind::Float.elt_size_in_bytes(), 4);
    assert_eq!(Kind::Double.elt_size_in_bytes(), 8);
    assert_eq!(Kind::ComplexDouble.elt_size_in_bytes(), 16);
    assert_eq!(Kind::Bool.elt_size_in_bytes(), 1);
    assert_eq!(Kind::BFloat16.elt_size_in_bytes(), 2);
    assert_eq!(Kind::UInt64.elt_size_in_bytes(), 8);
}

#[test]
fn element_types_name_their_kind() {
    assert_eq!(<u8 as Element>::KIND, Kind::Uint8);
    assert_eq!(<i8 as Element>::KIND, Kind::Int8);
    assert_eq!(<i16 as Element>::KIND, Kind::Int16);
    assert_eq!(<i32 as Element>::KIND, Kind::Int);
    assert_eq!(<i64 as Element>::KIND, Kind::Int64);
    assert_eq!(<bool as Element>::KIND, Kind::Bool);
    assert_eq!(<u8 as Element>::ZERO, 0);
    assert_eq!(<i64 as Element>::ZERO, 0);
    assert_eq!(<bool as Element>::ZERO, false);
}

#[test]
fn device_codes() {
    assert_eq!(Device::Cpu.c_int(), -1);
    assert_eq!(Device::Cuda(0).c_int(), 0);
    assert_eq!(Device::Cuda(3).c_int(), 3);
}

#[test]
fn error_descriptions_are_nonempty() {
    assert!(!TchError::GroupFormationFailed.describe().is_empty());
    assert!(!TchError::UnknownKind(7).describe().is_empty());
}
