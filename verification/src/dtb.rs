//! Hardware description handed over by the boot environment.
//!
//! The boot collaborator parses the device-tree blob; the kernel consumes
//! only the resulting list of usable physical memory ranges, and of those
//! only the first.
use vstd::prelude::*;

verus! {

/// What a device-tree node can describe, as far as the kernel cares.
pub enum DeviceType {
    /// A range of usable physical memory.
    Memory,
}

/// The memory ranges the hardware description reported, each as
/// `(start, one past end)` physical addresses.
pub struct DeviceTree {
    /// The usable memory ranges, in discovery order.
    pub memory: Vec<(u64, u64)>,
}

impl DeviceTree {
    /// Wraps an already-parsed list of memory ranges.
    pub fn new(memory: Vec<(u64, u64)>) -> (r: Self)
        ensures
            r.memory@ == memory@,
    {
        DeviceTree { memory }
    }
}

} // verus!
