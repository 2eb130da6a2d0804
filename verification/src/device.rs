//! Device placement for buffers and process groups.

use vstd::prelude::*;

verus! {

/// Where a buffer lives. Every buffer handed to a group's collectives must be
/// placed on the device the group was bound to at construction.
#[derive(Debug, Clone, Copy, PartialEq, Eq, Structural)]
pub enum Device {
    Cpu,
    Cuda(usize),
}

/// The integer code the transport uses for a device: `-1` for the host, the
/// ordinal for an accelerator.
pub open spec fn device_code(d: Device) -> int {
    match d {
        Device::Cpu => -1,
        Device::Cuda(i) => i as int,
    }
}

impl Device {
    /// The transport's device code, as `device_code` states it.
    pub fn c_int(self) -> (r: i64)
        requires
            device_code(self) <= i64::MAX,
        ensures
            r == device_code(self),
    {
        match self {
            Device::Cpu => -1,
            Device::Cuda(i) => i as i64,
        }
    }
}

} // verus!
