//! The full user-level execution snapshot saved and restored across the
//! privilege boundary.
//!
//! In the machine this record lives in the dedicated trap-context page of
//! each task's address space; the model holds it beside the task's other
//! kernel-visible state and records that page's physical frame separately.
use vstd::prelude::*;

verus! {

/// Index of the stack-pointer slot in the register file.
pub const REG_SP: usize = 2;

/// Index of the first argument / return-value slot.
pub const REG_A0: usize = 10;

/// Index of the second argument slot.
pub const REG_A1: usize = 11;

/// Index of the third argument slot.
pub const REG_A2: usize = 12;

/// Index of the syscall-number slot.
pub const REG_A7: usize = 17;

/// The saved user state plus the kernel-side values needed to re-enter the
/// kernel from user mode.
pub struct TrapContext {
    /// The 32 general-purpose register slots.
    pub x: Vec<u64>,
    /// Saved privilege/status register; bit 8 clear means user mode.
    pub sstatus: u64,
    /// Saved program counter.
    pub sepc: u64,
    /// The kernel address space's paging token.
    pub kernel_satp: u64,
    /// Top of the owning task's kernel stack.
    pub kernel_sp: u64,
    /// Address of the kernel's trap handler entry.
    pub trap_handler: u64,
}

impl TrapContext {
    /// Exactly 32 register slots.
    pub open spec fn wf(self) -> bool {
        self.x@.len() == 32
    }

    /// The initial snapshot of a task about to run for the first time: all
    /// registers zero but the stack pointer, the program counter at the
    /// entry point, and user privilege selected.
    pub fn app_init_context(
        entry: u64,
        user_sp: u64,
        kernel_satp: u64,
        kernel_sp: u64,
        trap_handler: u64,
    ) -> (r: Self)
        ensures
            r.wf(),
            r.sepc == entry,
            r.x@[REG_SP as int] == user_sp,
            forall|i: int| 0 <= i < 32 && i != REG_SP ==> r.x@[i] == 0,
            r.sstatus == 0,
            r.kernel_satp == kernel_satp,
            r.kernel_sp == kernel_sp,
            r.trap_handler == trap_handler,
    {
        let mut x: Vec<u64> = Vec::new();
        let mut i: usize = 0;
        while i < 32
            invariant
                i <= 32,
                x@.len() == i,
                forall|j: int| 0 <= j < i ==> x@[j] == 0,
            decreases 32 - i,
        {
            x.push(0);
            i = i + 1;
        }
        x[REG_SP] = user_sp;
        TrapContext { x, sstatus: 0, sepc: entry, kernel_satp, kernel_sp, trap_handler }
    }
}

} // verus!
