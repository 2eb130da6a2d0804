//! The buffer handle the collective layer operates on.

use crate::device::Device;
use crate::wrappers::kind::Kind;
use vstd::prelude::*;

verus! {

/// A numeric buffer: an element kind, a device placement, and the element
/// values themselves, held as plain integers. The collective layer reads the
/// kind and the device for validation only and combines the values.
#[derive(Debug)]
pub struct Buffer {
    pub kind: Kind,
    pub device: Device,
    pub data: Vec<i64>,
}

impl View for Buffer {
    type V = Seq<i64>;

    open spec fn view(&self) -> Seq<i64> {
        self.data@
    }
}

/// Copies the values of a vector, element for element.
pub fn copy_values(v: &Vec<i64>) -> (r: Vec<i64>)
    ensures
        r@ == v@,
{
    let mut out: Vec<i64> = Vec::new();
    let mut i: usize = 0;
    while i < v.len()
        invariant
            i <= v@.len(),
            out@ == v@.take(i as int),
        decreases v@.len() - i,
    {
        out.push(v[i]);
        proof {
            assert(out@ =~= v@.take(i + 1 as int));
        }
        i = i + 1;
    }
    proof {
        assert(out@ =~= v@);
    }
    out
}

impl Buffer {
    /// A buffer with the given kind, placement, and values.
    pub fn new(kind: Kind, device: Device, data: Vec<i64>) -> (r: Buffer)
        ensures
            r.kind == kind,
            r.device == device,
            r@ == data@,
    {
        Buffer { kind, device, data }
    }

    /// How many elements the buffer holds.
    pub fn numel(&self) -> (r: usize)
        ensures
            r == self@.len(),
    {
        self.data.len()
    }

    /// A second handle on the same values: kind, placement, and every
    /// element carry over unchanged.
    pub fn shallow_clone(&self) -> (r: Buffer)
        ensures
            r.kind == self.kind,
            r.device == self.device,
            r@ == self@,
    {
        Buffer { kind: self.kind, device: self.device, data: copy_values(&self.data) }
    }
}

} // verus!
