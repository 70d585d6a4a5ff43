//! The kernel-level switch context: deliberately two words.
//!
//! A task switch saves and restores only the return address and the stack
//! pointer; the calling convention preserves every other live kernel
//! register across the compiled switch routine. The user-level register file
//! lives in the trap context instead, and the two must not be conflated.
use vstd::prelude::*;

verus! {

/// The two words the kernel saves across a task switch.
#[derive(Clone, Copy, PartialEq, Eq, Structural, Debug)]
pub struct TaskContext {
    /// Saved return address; the runtime points it at its trap-return path.
    pub ra: u64,
    /// Saved kernel stack pointer.
    pub sp: u64,
}

impl TaskContext {
    /// A context that enters the trap-return path on the given kernel stack.
    /// The concrete return address is hardware-specific; the model keeps it
    /// zero and the runtime installs its own before switching.
    pub fn new(user_kernel_sp: u64) -> (r: Self)
        ensures
            r.sp == user_kernel_sp,
            r.ra == 0,
    {
        TaskContext { ra: 0, sp: user_kernel_sp }
    }
}

} // verus!
