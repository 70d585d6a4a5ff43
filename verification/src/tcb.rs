//! The task control block: one user program's kernel-visible state.
use vstd::prelude::*;

use crate::address::{kernel_stack_position, PhysAddr, PhysPageNumber, VirtAddr, KERNEL_STACK_SIZE,
    PAGE_SIZE_BYTES, TRAMPOLINE, TRAP_CONTEXT, VA_SPACE, VPN_SPACE};
use crate::frame_allocator::{FrameAllocator, StackFrameAllocator};
use crate::kernel_mm::KernelMemoryManager;
use crate::memory_structure::{set_owns_frame, MemorySet, MemoryStructureError};
use crate::page_table::allocator_within;
use crate::phys_mem::PhysFrames;
use crate::task_context::TaskContext;
use crate::trap_context::TrapContext;

verus! {

/// Failure to bring a task up.
pub enum TaskError {
    /// Building the task's address space failed.
    FailedToInitializeMemory(MemoryStructureError),
}

/// The life-cycle state of a task. `Exited` is terminal and reachable only
/// from `Running`.
#[derive(Clone, Copy, PartialEq, Eq, Structural, Debug)]
pub enum TaskStatus {
    /// Eligible to be scheduled.
    Ready,
    /// Currently executing on the hardware thread.
    Running,
    /// Terminated; never scheduled again.
    Exited,
}

/// One task: status, the two-word switch context, its private address
/// space, its saved user state, and bookkeeping.
pub struct TaskControlBlock {
    /// Life-cycle state.
    pub task_status: TaskStatus,
    /// Saved kernel-level return address and stack pointer.
    pub task_cx: TaskContext,
    /// The task's private address space.
    pub memory_set: MemorySet,
    /// The task's saved user register file and re-entry values. In the
    /// machine it occupies the page recorded in `task_cx_ppn`.
    pub trap_cx: TrapContext,
    /// Physical page of the task's trap-context page.
    pub task_cx_ppn: PhysPageNumber,
    /// Initial user stack pointer: the top of the task's user memory.
    pub base_size: u64,
}

impl TaskControlBlock {
    /// A usable task: its address space is well formed and its saved user
    /// state has the full register file.
    pub open spec fn wf(self, mem: PhysFrames, a: StackFrameAllocator) -> bool {
        &&& self.memory_set.wf(mem, a)
        &&& self.trap_cx.wf()
    }

    /// Builds one task from its program image: a fresh address space loaded
    /// from the image, a kernel stack mapped in the kernel's space, and an
    /// initial user snapshot entering the image's entry point. A malformed
    /// image is always refused.
    pub fn new(
        app_id: u64,
        elf_data: &[u8],
        strampoline: PhysAddr,
        kernel_mm: &mut KernelMemoryManager,
        a: &mut StackFrameAllocator,
        mem: &mut PhysFrames,
    ) -> (r: Result<Self, TaskError>)
        requires
            old(kernel_mm).wf(*old(mem), *old(a)),
            old(a).wf(),
            allocator_within(*old(a), *old(mem)),
            strampoline.0 < crate::address::PA_SPACE,
            elf_data@.len() + PAGE_SIZE_BYTES <= usize::MAX,
            old(kernel_mm).stacks_mapped <= app_id < crate::kernel_mm::MAX_KERNEL_STACKS,
        ensures
            final(a).wf(),
            allocator_within(*final(a), *final(mem)),
            final(a).floor == old(a).floor,
            final(a).end == old(a).end,
            final(mem).base == old(mem).base,
            final(mem).len() == old(mem).len(),
            forall|q: int| old(a).live().contains(q) ==> final(a).live().contains(q),
            forall|q: int|
                old(mem).in_range(q) && old(a).live().contains(q) && !final(kernel_mm).kset().page_table.nodes@.contains(q) ==> final(mem).page(q) == old(mem).page(q),
            forall|p: int|
                old(kernel_mm).kset().page_table.nodes@.contains(p) ==> final(kernel_mm).kset().page_table.nodes@.contains(p),
            forall|p: int|
                final(kernel_mm).kset().page_table.nodes@.contains(p) ==> old(kernel_mm).kset().page_table.nodes@.contains(p) || !old(a).live().contains(p),
            final(kernel_mm).wf(*final(mem), *final(a)),
            old(kernel_mm).stacks_mapped <= final(kernel_mm).stacks_mapped <= app_id + 1,
            forall|j: int|
                0 <= j < old(kernel_mm).kset().area_count() ==> final(kernel_mm).kset().area(j)
                    == old(kernel_mm).kset().area(j),
            old(kernel_mm).kset().area_count() <= final(kernel_mm).kset().area_count() <= old(kernel_mm).kset().area_count() + 1,
            final(kernel_mm).kset().area_count() == old(kernel_mm).kset().area_count() + 1
                ==> final(kernel_mm).kset().area(
                old(kernel_mm).kset().area_count(),
            ).start() == crate::kernel_mm::spec_stack_bottom_vpn(app_id as int) && final(kernel_mm).kset().area(old(kernel_mm).kset().area_count()).end()
                == crate::kernel_mm::spec_stack_bottom_vpn(app_id as int)
                + crate::kernel_mm::STACK_PAGES,
            old(a).exhausted() ==> final(a).exhausted(),
            !crate::elf_image::spec_elf_wf(elf_data@) ==> r is Err,
            // a task is refused only for a malformed or unplaceable image,
            // overlapping or unplaced segments, a dry allocator, or a kernel
            // layout that reaches the stack slot
            r is Err ==> !crate::elf_image::spec_elf_wf(elf_data@) || (exists|h: int|
                0 <= h < crate::elf_image::read_le(elf_data@, 56, 2) && (
                #[trigger] crate::elf_image::spec_segment(elf_data@, h)).p_type
                    == crate::elf_image::PT_LOAD && !crate::memory_structure::spec_load_placeable(
                    elf_data@,
                    h,
                )) || !crate::memory_structure::spec_loads_disjoint(elf_data@)
                || !crate::memory_structure::spec_stack_fits(elf_data@) || final(a).exhausted()
                || crate::kernel_mm::spec_stack_slot_conflict(
                old(kernel_mm).kset(),
                app_id as int,
            ),
            match r {
                Ok(tcb) => {
                    &&& tcb.wf(*final(mem), *final(a))
                    &&& tcb.task_status is Ready
                    &&& tcb.trap_cx.sepc == crate::elf_image::read_le(elf_data@, 24, 8)
                    &&& tcb.trap_cx.x@[crate::trap_context::REG_SP as int] == tcb.base_size
                    // the switch context enters on the task's kernel stack,
                    // the saved satp selects the kernel space, and the base
                    // size is the user stack pointer
                    &&& tcb.task_cx.sp == TRAMPOLINE - app_id * (KERNEL_STACK_SIZE
                        + PAGE_SIZE_BYTES)
                    &&& tcb.trap_cx.kernel_sp == tcb.task_cx.sp
                    &&& tcb.trap_cx.kernel_satp == 8 * 0x1000_0000_0000_0000u64 + final(kernel_mm).kset().page_table.root_ppn.0
                    &&& tcb.base_size == tcb.memory_set.area(tcb.memory_set.area_count() - 2).end()
                        * (PAGE_SIZE_BYTES as int)
                    &&& forall|p: int|
                        tcb.memory_set.page_table.nodes@.contains(p) ==> !old(a).live().contains(
                            p,
                        )
                    &&& forall|p: int|
                        set_owns_frame(tcb.memory_set, p) ==> !old(a).live().contains(p)
                    &&& forall|p: int|
                        tcb.memory_set.page_table.nodes@.contains(p) ==> !final(kernel_mm).kset().page_table.nodes@.contains(p)
                    &&& forall|p: int|
                        set_owns_frame(tcb.memory_set, p) ==> !final(kernel_mm).kset().page_table.nodes@.contains(p)
                },
                Err(_) => true,
            },
    {
        let ghost a0 = *a;
        let ghost m0 = *mem;
        let (memory_set, user_sp, entry) = match crate::memory_structure::new_elf_memory_set(
            app_id,
            elf_data,
            strampoline,
            a,
            mem,
        ) {
            Ok(t) => t,
            Err(e) => {
                proof {
                    lemma_kernel_set_survives_elf(old(kernel_mm).kset(), a0, *a, m0, *mem);
                }
                return Err(TaskError::FailedToInitializeMemory(e));
            },
        };
        proof {
            lemma_kernel_set_survives_elf(old(kernel_mm).kset(), a0, *a, m0, *mem);
            assert(memory_set.area(memory_set.area_count() - 1).vpn_start.0 == VPN_SPACE - 2);
            assert(memory_set.area(memory_set.area_count() - 1).vpn_end.0 == VPN_SPACE - 1);
        }
        let task_cx_ppn = match memory_set.translate(VirtAddr(TRAP_CONTEXT), mem) {
            Ok(p) => p,
            Err(e) => {
                proof {
                    // the trap-context page was mapped a moment ago
                    let ta = memory_set.area(memory_set.area_count() - 1);
                    assert(ta.vpn_start.0 == VPN_SPACE - 2);
                    assert(ta.vpn_end.0 == VPN_SPACE - 1);
                    assert(ta.holds_vpn(VPN_SPACE as int - 2));
                    crate::elf_image::lemma_read_le_bound(elf_data@, 56, 2);
                    crate::elf_image::lemma_num_loads_bounds(
                        elf_data@,
                        crate::elf_image::read_le(elf_data@, 56, 2),
                    );
                    assert(memory_set.area_count() >= 2);
                    assert(memory_set.in_some_area(VPN_SPACE as int - 2)) by {
                        assert(memory_set.area(memory_set.area_count() - 1).holds_vpn(
                            VPN_SPACE as int - 2,
                        ));
                    }
                    assert(memory_set.page_table.mapped(*mem, VPN_SPACE as int - 2));
                    assert((TRAP_CONTEXT % VA_SPACE) as int / PAGE_SIZE_BYTES as int
                        == VPN_SPACE as int - 2);
                    assert(false);
                }
                return Err(TaskError::FailedToInitializeMemory(e));
            },
        };
        proof {
            vstd::arithmetic::mul::lemma_mul_inequality(
                app_id as int,
                crate::kernel_mm::MAX_KERNEL_STACKS as int,
                (KERNEL_STACK_SIZE + PAGE_SIZE_BYTES) as int,
            );
        }
        let kernel_stack_range = kernel_stack_position(app_id);
        let kernel_stack_top = kernel_stack_range.end.0;
        let ghost a1 = *a;
        let ghost m1 = *mem;
        let ghost task_set1 = memory_set;
        match kernel_mm.map_stack_for_process_syscall(app_id, a, mem) {
            Ok(()) => {},
            Err(e) => {
                return Err(TaskError::FailedToInitializeMemory(e));
            },
        }
        proof {
            // the kernel-space growth left the fresh task space untouched
            assert forall|q: int|
                m1.in_range(q) && a1.live().contains(q) && !kernel_mm.kset().page_table.nodes@.contains(
                    q,
                ) implies mem.page(q) == m1.page(q) by {}
            lemma_task_set_survives_kernel_push(
                task_set1,
                old(kernel_mm).kset().page_table.nodes@,
                kernel_mm.kset().page_table.nodes@,
                a0,
                a1,
                *a,
                m1,
                *mem,
            );
        }
        proof {
            assert forall|p: int|
                task_set1.page_table.nodes@.contains(p) implies !kernel_mm.kset().page_table.nodes@.contains(
                p,
            ) by {
                assert(a1.live().contains(p));
                assert(!a0.live().contains(p));
                if kernel_mm.kset().page_table.nodes@.contains(p) {
                    assert(old(kernel_mm).kset().page_table.nodes@.contains(p) || !a1.live().contains(
                        p,
                    ));
                    assert(a0.live().contains(p));
                }
            }
            assert forall|p: int|
                set_owns_frame(task_set1, p) implies !kernel_mm.kset().page_table.nodes@.contains(
                p,
            ) by {
                let (i, k) = choose|i: int, k: int|
                    0 <= i < task_set1.area_count() && 0 <= k < task_set1.area(i).frames@.len()
                        && #[trigger] task_set1.area(i).fppn(k) == p;
                assert(task_set1.area(i).frames_wf(m1, a1, task_set1.page_table.nodes@));
                assert(a1.live().contains(p));
                assert(!a0.live().contains(p));
                if kernel_mm.kset().page_table.nodes@.contains(p) {
                    assert(old(kernel_mm).kset().page_table.nodes@.contains(p) || !a1.live().contains(
                        p,
                    ));
                    assert(a0.live().contains(p));
                }
            }
        }
        let kernel_token = kernel_mm.token(mem);
        let trap_cx = TrapContext::app_init_context(
            entry,
            user_sp,
            kernel_token,
            kernel_stack_top,
            0,
        );
        Ok(
            TaskControlBlock {
                task_status: TaskStatus::Ready,
                task_cx: TaskContext::new(kernel_stack_top),
                memory_set,
                trap_cx,
                task_cx_ppn,
                base_size: user_sp,
            },
        )
    }

    /// Marks the task eligible to run again; only the running task yields
    /// or is preempted, so Exited stays terminal.
    pub fn suspend(&mut self)
        requires
            old(self).task_status is Running,
        ensures
            final(self).task_status is Ready,
            final(self).task_cx == old(self).task_cx,
            final(self).memory_set == old(self).memory_set,
            final(self).trap_cx == old(self).trap_cx,
            final(self).task_cx_ppn == old(self).task_cx_ppn,
            final(self).base_size == old(self).base_size,
    {
        self.task_status = TaskStatus::Ready;
    }

    /// Marks the task as the one currently executing.
    pub fn set_run(&mut self)
        ensures
            final(self).task_status is Running,
            final(self).task_cx == old(self).task_cx,
            final(self).memory_set == old(self).memory_set,
            final(self).trap_cx == old(self).trap_cx,
            final(self).task_cx_ppn == old(self).task_cx_ppn,
            final(self).base_size == old(self).base_size,
    {
        self.task_status = TaskStatus::Running;
    }

    /// Marks the task terminated; it is never scheduled again.
    pub fn set_exit(&mut self)
        ensures
            final(self).task_status is Exited,
            final(self).task_cx == old(self).task_cx,
            final(self).memory_set == old(self).memory_set,
            final(self).trap_cx == old(self).trap_cx,
            final(self).task_cx_ppn == old(self).task_cx_ppn,
            final(self).base_size == old(self).base_size,
    {
        self.task_status = TaskStatus::Exited;
    }

    /// The task's life-cycle state.
    pub fn status(&self) -> (r: TaskStatus)
        ensures
            r == self.task_status,
    {
        self.task_status
    }

    /// The paging-register image of the task's address space.
    pub fn satp_token(&self, mem: &PhysFrames) -> (r: u64)
        requires
            self.memory_set.page_table.wf(*mem),
        ensures
            r == 8 * 0x1000_0000_0000_0000u64 + self.memory_set.page_table.root_ppn.0,
    {
        self.memory_set.token(mem)
    }

    /// The task's saved user state.
    pub fn get_trap_context(&self) -> (r: &TrapContext)
        ensures
            r == &self.trap_cx,
    {
        &self.trap_cx
    }
}

/// The kernel's address space survives loading a program image: the loader
/// touches no page the allocator had already handed out, and everything the
/// kernel set owns is such a page.
proof fn lemma_kernel_set_survives_elf(
    s: MemorySet,
    a0: StackFrameAllocator,
    a1: StackFrameAllocator,
    m0: PhysFrames,
    m1: PhysFrames,
)
    requires
        s.wf(m0, a0),
        a0.wf(),
        a1.wf(),
        allocator_within(a0, m0),
        m1.wf(),
        m1.base == m0.base,
        m1.len() == m0.len(),
        forall|q: int| a0.live().contains(q) ==> a1.live().contains(q),
        forall|q: int|
            m0.in_range(q) && a0.live().contains(q) ==> m1.page(q) == m0.page(q),
    ensures
        s.wf(m1, a1),
{
    assert forall|q: int| s.page_table.nodes@.contains(q) implies m1.page(q) == m0.page(q) by {
        assert(a0.live().contains(q));
        assert(m0.in_range(q));
    }
    assert forall|q: int| set_owns_frame(s, q) implies m1.page(q) == m0.page(q) by {
        let (i, k) = choose|i: int, k: int|
            0 <= i < s.area_count() && 0 <= k < s.area(i).frames@.len() && #[trigger] s.area(
                i,
            ).fppn(k) == q;
        assert(s.area(i).frames_wf(m0, a0, s.page_table.nodes@));
        assert(a0.live().contains(q));
        assert(m0.in_range(q));
    }
    crate::memory_structure::lemma_set_untouched(s, a0, a1, m0, m1);
}

/// A task's fresh address space survives the kernel set growing a stack:
/// everything the task set owns is live and is not a kernel page-table
/// node, so the push left its pages alone.
proof fn lemma_task_set_survives_kernel_push(
    s: MemorySet,
    kn0: Set<int>,
    kn1: Set<int>,
    a_orig: StackFrameAllocator,
    a0: StackFrameAllocator,
    a1: StackFrameAllocator,
    m0: PhysFrames,
    m1: PhysFrames,
)
    requires
        s.wf(m0, a0),
        a0.wf(),
        a1.wf(),
        allocator_within(a0, m0),
        m1.wf(),
        m1.base == m0.base,
        m1.len() == m0.len(),
        forall|q: int| a0.live().contains(q) ==> a1.live().contains(q),
        forall|q: int|
            m0.in_range(q) && a0.live().contains(q) && !kn1.contains(q) ==> m1.page(q) == m0.page(
                q,
            ),
        forall|p: int| kn1.contains(p) ==> kn0.contains(p) || !a0.live().contains(p),
        // kernel nodes predate the task's pages, which the boot state had free
        forall|p: int| kn0.contains(p) ==> a_orig.live().contains(p),
        forall|p: int| s.page_table.nodes@.contains(p) ==> !a_orig.live().contains(p),
        forall|p: int| set_owns_frame(s, p) ==> !a_orig.live().contains(p),
    ensures
        s.wf(m1, a1),
{
    assert forall|q: int| s.page_table.nodes@.contains(q) implies m1.page(q) == m0.page(q) by {
        assert(a0.live().contains(q));
        assert(!kn1.contains(q));
        assert(m0.in_range(q));
    }
    assert forall|q: int| set_owns_frame(s, q) implies m1.page(q) == m0.page(q) by {
        let (i, k) = choose|i: int, k: int|
            0 <= i < s.area_count() && 0 <= k < s.area(i).frames@.len() && #[trigger] s.area(
                i,
            ).fppn(k) == q;
        assert(s.area(i).frames_wf(m0, a0, s.page_table.nodes@));
        assert(a0.live().contains(q));
        assert(!kn1.contains(q));
        assert(m0.in_range(q));
    }
    crate::memory_structure::lemma_set_untouched(s, a0, a1, m0, m1);
}

} // verus!
