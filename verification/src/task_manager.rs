//! The scheduler: owner of every task control block.
//!
//! Scheduling is deterministic: "run next" scans task ids in ascending order
//! and selects the first Ready task; when none is Ready the machine is to
//! shut down cleanly. Tasks whose program image cannot be loaded are skipped
//! at construction and never occupy a slot.
use vstd::prelude::*;

use crate::address::{PhysAddr, KERNEL_STACK_SIZE, PAGE_SIZE_BYTES, TRAMPOLINE};
use crate::frame_allocator::{FrameAllocator, StackFrameAllocator};
use crate::kernel_mm::KernelMemoryManager;
use crate::page_table::allocator_within;
use crate::phys_mem::PhysFrames;
use crate::tcb::{TaskControlBlock, TaskStatus};
use crate::trap_context::TrapContext;

verus! {

/// Most tasks the fixed table can hold.
pub const MAX_TASK_NUM: u64 = 64;

/// Owner of the task table and of the currently running task id.
pub struct TaskManager {
    /// Number of slots: one per embedded program.
    pub num: u64,
    /// Id of the task currently (or most recently) running.
    pub current_id: u64,
    /// One slot per program; `None` where construction was skipped.
    pub control_blocks: Vec<Option<TaskControlBlock>>,
}

impl TaskManager {
    /// The status of slot `i`, for slots that hold a task.
    pub open spec fn status_of(self, i: int) -> TaskStatus {
        self.control_blocks@[i]->Some_0.task_status
    }

    /// Whether slot `i` holds a Ready task.
    pub open spec fn ready_at(self, i: int) -> bool {
        &&& 0 <= i < self.control_blocks@.len()
        &&& self.control_blocks@[i] is Some
        &&& self.status_of(i) is Ready
    }

    /// Table shape and per-task well-formedness.
    pub open spec fn wf(self, mem: PhysFrames, a: StackFrameAllocator) -> bool {
        &&& self.control_blocks@.len() == self.num
        &&& forall|i: int|
            0 <= i < self.num && self.control_blocks@[i] is Some ==> (
            #[trigger] self.control_blocks@[i]->Some_0).wf(mem, a)
    }

    /// Builds the task table: one task per program image, skipping any whose
    /// construction fails; every task that exists starts Ready, and the
    /// current id starts at zero.
    pub fn new(
        apps: &Vec<Vec<u8>>,
        strampoline: PhysAddr,
        kernel_mm: &mut KernelMemoryManager,
        a: &mut StackFrameAllocator,
        mem: &mut PhysFrames,
    ) -> (r: TaskManager)
        requires
            old(kernel_mm).wf(*old(mem), *old(a)),
            old(kernel_mm).stacks_mapped == 0,
            old(a).wf(),
            allocator_within(*old(a), *old(mem)),
            strampoline.0 < crate::address::PA_SPACE,
            apps@.len() <= MAX_TASK_NUM,
            forall|i: int|
                0 <= i < apps@.len() ==> (#[trigger] apps@[i])@.len() + PAGE_SIZE_BYTES
                    <= usize::MAX,
        ensures
            final(a).wf(),
            allocator_within(*final(a), *final(mem)),
            final(mem).base == old(mem).base,
            final(mem).len() == old(mem).len(),
            final(kernel_mm).wf(*final(mem), *final(a)),
            // the boot-time kernel areas survive task construction as a
            // fixed prefix; stack areas are appended after them
            final(kernel_mm).kset().area_count() >= old(kernel_mm).kset().area_count(),
            forall|j: int|
                0 <= j < old(kernel_mm).kset().area_count()
                    ==> #[trigger] final(kernel_mm).kset().area(j) == old(kernel_mm).kset().area(
                    j,
                ),
            r.num == apps@.len(),
            r.current_id == 0,
            r.wf(*final(mem), *final(a)),
            forall|i: int|
                0 <= i < r.num && r.control_blocks@[i] is Some ==> r.status_of(i) is Ready,
            // a slot stays empty only for a cause: a malformed or
            // unplaceable image, memory run dry, or a kernel layout that
            // reaches that task's stack slot
            forall|i: int|
                0 <= i < r.num && r.control_blocks@[i] is None ==> !crate::elf_image::spec_elf_wf(
                    (#[trigger] apps@[i])@,
                ) || (exists|h: int|
                    0 <= h < crate::elf_image::read_le(apps@[i]@, 56, 2) && (
                    #[trigger] crate::elf_image::spec_segment(apps@[i]@, h)).p_type
                        == crate::elf_image::PT_LOAD
                        && !crate::memory_structure::spec_load_placeable(apps@[i]@, h))
                    || !crate::memory_structure::spec_loads_disjoint(apps@[i]@)
                    || !crate::memory_structure::spec_stack_fits(apps@[i]@)
                    || final(a).exhausted() || crate::kernel_mm::spec_stack_slot_conflict(
                    old(kernel_mm).kset(),
                    i,
                ),
    {
        let ghost a_orig = *old(a);
        let ghost m_orig = *old(mem);
        let ghost boot_kset = old(kernel_mm).kset();
        let ghost boot_count = old(kernel_mm).kset().area_count();
        let app_num = apps.len();
        let mut control_blocks: Vec<Option<TaskControlBlock>> = Vec::new();
        let mut i: usize = 0;
        while i < app_num
            invariant
                app_num == apps@.len(),
                app_num <= MAX_TASK_NUM,
                MAX_TASK_NUM == crate::kernel_mm::MAX_KERNEL_STACKS,
                boot_kset == old(kernel_mm).kset(),
                boot_count == boot_kset.area_count(),
                i <= app_num,
                control_blocks@.len() == i,
                a.wf(),
                allocator_within(*a, *mem),
                mem.base == old(mem).base,
                mem.len() == old(mem).len(),
                strampoline.0 < crate::address::PA_SPACE,
                forall|j: int|
                    0 <= j < apps@.len() ==> (#[trigger] apps@[j])@.len() + PAGE_SIZE_BYTES
                        <= usize::MAX,
                kernel_mm.wf(*mem, *a),
                kernel_mm.stacks_mapped <= i,
                // the boot areas are a fixed prefix; anything after them is
                // a stack area strictly above the next slot
                forall|j: int|
                    0 <= j < boot_count ==> #[trigger] kernel_mm.kset().area(j) == boot_kset.area(
                        j,
                    ),
                kernel_mm.kset().area_count() >= boot_count,
                forall|j: int|
                    boot_count <= j < kernel_mm.kset().area_count()
                        ==> (#[trigger] kernel_mm.kset().area(j)).start()
                        > crate::kernel_mm::spec_stack_bottom_vpn(i as int)
                        + crate::kernel_mm::STACK_PAGES,
                forall|j: int|
                    0 <= j < i && control_blocks@[j] is Some ==> (
                    #[trigger] control_blocks@[j]->Some_0).wf(*mem, *a)
                        && control_blocks@[j]->Some_0.task_status is Ready,
                forall|j: int, p: int|
                    0 <= j < i && control_blocks@[j] is Some && (
                    #[trigger] control_blocks@[j]->Some_0.memory_set.page_table.nodes@.contains(
                        p,
                    )) ==> !kernel_mm.kset().page_table.nodes@.contains(p),
                forall|j: int, p: int|
                    0 <= j < i && control_blocks@[j] is Some
                        && #[trigger] crate::memory_structure::set_owns_frame(
                        control_blocks@[j]->Some_0.memory_set,
                        p,
                    ) ==> !kernel_mm.kset().page_table.nodes@.contains(p),
                forall|j: int|
                    0 <= j < i && control_blocks@[j] is None ==> !crate::elf_image::spec_elf_wf(
                        (#[trigger] apps@[j])@,
                    ) || (exists|h: int|
                        0 <= h < crate::elf_image::read_le(apps@[j]@, 56, 2) && (
                        #[trigger] crate::elf_image::spec_segment(apps@[j]@, h)).p_type
                            == crate::elf_image::PT_LOAD
                            && !crate::memory_structure::spec_load_placeable(apps@[j]@, h))
                        || !crate::memory_structure::spec_loads_disjoint(apps@[j]@)
                        || !crate::memory_structure::spec_stack_fits(apps@[j]@)
                        || a.exhausted() || crate::kernel_mm::spec_stack_slot_conflict(
                        boot_kset,
                        j,
                    ),
            decreases app_num - i,
        {
            let ghost a_pre = *a;
            let ghost m_pre = *mem;
            let ghost blocks_pre = control_blocks@;
            let ghost km_pre = *kernel_mm;
            match TaskControlBlock::new(i as u64, &apps[i], strampoline, kernel_mm, a, mem) {
                Ok(tcb) => {
                    control_blocks.push(Some(tcb));
                },
                Err(_) => {
                    control_blocks.push(None);
                },
            }
            proof {
                let kn1 = kernel_mm.kset().page_table.nodes@;
                // a failed slot's cause transfers from the mid-boot kernel
                // set to the boot set: any conflicting area in it is either
                // a boot area or a stack area, and stack areas sit above
                if control_blocks@[i as int] is None {
                    if crate::kernel_mm::spec_stack_slot_conflict(km_pre.kset(), i as int) {
                        let jj = choose|jj: int|
                            0 <= jj < km_pre.kset().area_count() && (#[trigger] km_pre.kset().area(
                                jj,
                            )).start() <= crate::kernel_mm::spec_stack_bottom_vpn(i as int)
                                + crate::kernel_mm::STACK_PAGES
                                && crate::kernel_mm::spec_stack_bottom_vpn(i as int)
                                < km_pre.kset().area(jj).end();
                        if jj >= boot_count {
                            assert(km_pre.kset().area(jj).start()
                                > crate::kernel_mm::spec_stack_bottom_vpn(i as int)
                                + crate::kernel_mm::STACK_PAGES);
                        } else {
                            assert(boot_kset.area(jj) == km_pre.kset().area(jj));
                            assert(crate::kernel_mm::spec_stack_slot_conflict(
                                boot_kset,
                                i as int,
                            ));
                        }
                    }
                }
                // the stack-zone bound moves down by one slot
                assert forall|j: int|
                    boot_count <= j < kernel_mm.kset().area_count() implies (
                #[trigger] kernel_mm.kset().area(j)).start()
                    > crate::kernel_mm::spec_stack_bottom_vpn(i as int + 1)
                    + crate::kernel_mm::STACK_PAGES by {
                    if j < km_pre.kset().area_count() {
                        assert(kernel_mm.kset().area(j) == km_pre.kset().area(j));
                    } else {
                        assert(kernel_mm.kset().area(j).start()
                            == crate::kernel_mm::spec_stack_bottom_vpn(i as int));
                    }
                }
                // earlier tasks survive the construction just attempted
                assert forall|j: int, p: int|
                    0 <= j < i && control_blocks@[j] is Some && (
                    #[trigger] control_blocks@[j]->Some_0.memory_set.page_table.nodes@.contains(
                        p,
                    )) implies !kn1.contains(p) by {
                    assert(control_blocks@[j] == blocks_pre[j]);
                    let ts = blocks_pre[j]->Some_0.memory_set;
                    assert(ts.page_table.nodes_live(a_pre));
                    assert(a_pre.live().contains(p));
                }
                assert forall|j: int, p: int|
                    0 <= j < i && control_blocks@[j] is Some
                        && #[trigger] crate::memory_structure::set_owns_frame(
                        control_blocks@[j]->Some_0.memory_set,
                        p,
                    ) implies !kn1.contains(p) by {
                    assert(control_blocks@[j] == blocks_pre[j]);
                    let ts = blocks_pre[j]->Some_0.memory_set;
                    let (ai, k) = choose|ai: int, k: int|
                        0 <= ai < ts.area_count() && 0 <= k < ts.area(ai).frames@.len()
                            && #[trigger] ts.area(ai).fppn(k) == p;
                    assert(ts.area(ai).frames_wf(m_pre, a_pre, ts.page_table.nodes@));
                    assert(a_pre.live().contains(p));
                }
                assert forall|j: int|
                    0 <= j < i && control_blocks@[j] is Some implies (
                    #[trigger] control_blocks@[j]->Some_0).wf(*mem, *a)
                    && control_blocks@[j]->Some_0.task_status is Ready by {
                    assert(control_blocks@[j] == blocks_pre[j]);
                    let tcb = blocks_pre[j]->Some_0;
                    assert(tcb.wf(m_pre, a_pre));
                    assert(forall|p: int|
                        tcb.memory_set.page_table.nodes@.contains(p) ==> !kn1.contains(p));
                    assert(forall|p: int|
                        crate::memory_structure::set_owns_frame(tcb.memory_set, p)
                            ==> !kn1.contains(p));
                    lemma_existing_task_preserved(tcb, a_orig, a_pre, *a, m_pre, *mem, kn1);
                }
            }
            i = i + 1;
        }
        TaskManager { num: app_num as u64, current_id: 0, control_blocks }
    }

    /// The first Ready task in ascending id order, if any: the selection is
    /// deterministic, and an Exited task is never chosen.
    pub fn find_next_app(&self) -> (r: Option<u64>)
        requires
            self.control_blocks@.len() == self.num,
        ensures
            match r {
                Some(t) => self.ready_at(t as int) && forall|j: int|
                    0 <= j < t ==> !self.ready_at(j),
                None => forall|j: int| 0 <= j < self.num ==> !self.ready_at(j),
            },
    {
        let n = self.control_blocks.len();
        let mut i: usize = 0;
        while i < n
            invariant
                n == self.control_blocks@.len(),
                i <= n,
                forall|j: int| 0 <= j < i ==> !self.ready_at(j),
            decreases n - i,
        {
            match &self.control_blocks[i] {
                Some(tcb) => {
                    let st = tcb.status();
                    match st {
                        TaskStatus::Ready => {
                            return Some(i as u64);
                        },
                        _ => {},
                    }
                },
                None => {},
            }
            i = i + 1;
        }
        None
    }

    /// Selects the first Ready task, marks it Running and makes it current;
    /// reports nothing when no task is Ready, which asks for a clean
    /// shutdown rather than a crash.
    pub fn run_next_app(&mut self) -> (r: Option<u64>)
        requires
            old(self).control_blocks@.len() == old(self).num,
        ensures
            final(self).num == old(self).num,
            final(self).control_blocks@.len() == old(self).num,
            match r {
                Some(t) => {
                    &&& old(self).ready_at(t as int)
                    &&& forall|j: int| 0 <= j < t ==> !old(self).ready_at(j)
                    &&& final(self).current_id == t
                    &&& final(self).control_blocks@[t as int] is Some
                    &&& final(self).status_of(t as int) is Running
                    &&& forall|j: int|
                        0 <= j < old(self).num && j != t
                            ==> final(self).control_blocks@[j] == old(self).control_blocks@[j]
                    &&& final(self).control_blocks@[t as int]->Some_0.task_cx == old(self).control_blocks@[t as int]->Some_0.task_cx
                    &&& final(self).control_blocks@[t as int]->Some_0.memory_set == old(self).control_blocks@[t as int]->Some_0.memory_set
                    &&& final(self).control_blocks@[t as int]->Some_0.trap_cx == old(self).control_blocks@[t as int]->Some_0.trap_cx
                    &&& final(self).control_blocks@[t as int]->Some_0.task_cx_ppn == old(self).control_blocks@[t as int]->Some_0.task_cx_ppn
                    &&& final(self).control_blocks@[t as int]->Some_0.base_size == old(self).control_blocks@[t as int]->Some_0.base_size
                },
                None => {
                    &&& forall|j: int| 0 <= j < old(self).num ==> !old(self).ready_at(j)
                    &&& *final(self) == *old(self)
                },
            },
    {
        let next = self.find_next_app();
        match next {
            Some(t) => {
                self.current_id = t;
                let idx = self.current_index();
                let slot = &mut self.control_blocks[idx];
                match slot {
                    Some(tcb) => {
                        tcb.set_run();
                    },
                    None => {},
                }
                Some(t)
            },
            None => None,
        }
    }


    /// The current id as a table index.
    fn current_index(&self) -> (i: usize)
        requires
            self.current_id < self.control_blocks@.len(),
        ensures
            i == self.current_id,
            i < self.control_blocks@.len(),
    {
        let n = self.control_blocks.len();
        let c = self.current_id;
        assert(c < n as u64);
        c as usize
    }

    /// Id of the current task.
    pub fn get_current_app_id(&self) -> (r: u64)
        ensures
            r == self.current_id,
    {
        self.current_id
    }

    /// The saved user state of the current task, when it has a slot.
    pub fn get_current_trap_context(&self) -> (r: Option<&TrapContext>)
        requires
            self.current_id < self.control_blocks@.len(),
        ensures
            self.control_blocks@[self.current_id as int] is Some ==> r == Some(
                &self.control_blocks@[self.current_id as int]->Some_0.trap_cx,
            ),
            self.control_blocks@[self.current_id as int] is None ==> r is None,
    {
        let idx = self.current_index();
        match &self.control_blocks[idx] {
            Some(tcb) => Some(tcb.get_trap_context()),
            None => None,
        }
    }

    /// The paging token of the current task's address space.
    pub fn get_current_satp_token(&self, mem: &PhysFrames) -> (r: u64)
        requires
            self.current_id < self.control_blocks@.len(),
            self.control_blocks@[self.current_id as int] is Some,
            self.control_blocks@[self.current_id as int]->Some_0.memory_set.page_table.wf(*mem),
        ensures
            r == 8 * 0x1000_0000_0000_0000u64 + self.control_blocks@[self.current_id as int]
                ->Some_0.memory_set.page_table.root_ppn.0,
    {
        let idx = self.current_index();
        match &self.control_blocks[idx] {
            Some(tcb) => tcb.satp_token(mem),
            None => 0,
        }
    }

    /// The kernel stack pointer saved in the current task's switch context.
    pub fn get_current_kernel_sp(&self) -> (r: u64)
        requires
            self.current_id < self.control_blocks@.len(),
            self.control_blocks@[self.current_id as int] is Some,
        ensures
            r == self.control_blocks@[self.current_id as int]->Some_0.task_cx.sp,
    {
        let idx = self.current_index();
        match &self.control_blocks[idx] {
            Some(tcb) => tcb.task_cx.sp,
            None => 0,
        }
    }

    /// Transitions the current task Running -> Ready; Exited is terminal
    /// and cannot be revived this way.
    pub fn suspend(&mut self)
        requires
            old(self).current_id < old(self).control_blocks@.len(),
            old(self).control_blocks@[old(self).current_id as int] is Some,
            old(self).status_of(old(self).current_id as int) is Running,
        ensures
            final(self).num == old(self).num,
            final(self).current_id == old(self).current_id,
            final(self).control_blocks@.len() == old(self).control_blocks@.len(),
            final(self).control_blocks@[old(self).current_id as int] is Some,
            final(self).status_of(old(self).current_id as int) is Ready,
            forall|j: int|
                0 <= j < old(self).control_blocks@.len() && j != old(self).current_id
                    ==> final(self).control_blocks@[j] == old(self).control_blocks@[j],
            final(self).control_blocks@[old(self).current_id as int]->Some_0.memory_set == old(self).control_blocks@[old(self).current_id as int]->Some_0.memory_set,
            final(self).control_blocks@[old(self).current_id as int]->Some_0.trap_cx == old(self).control_blocks@[old(self).current_id as int]->Some_0.trap_cx,
            final(self).control_blocks@[old(self).current_id as int]->Some_0.task_cx == old(self).control_blocks@[old(self).current_id as int]->Some_0.task_cx,
            final(self).control_blocks@[old(self).current_id as int]->Some_0.task_cx_ppn == old(self).control_blocks@[old(self).current_id as int]->Some_0.task_cx_ppn,
            final(self).control_blocks@[old(self).current_id as int]->Some_0.base_size == old(self).control_blocks@[old(self).current_id as int]->Some_0.base_size,
    {
        let idx = self.current_index();
        let slot = &mut self.control_blocks[idx];
        match slot {
            Some(tcb) => {
                tcb.suspend();
            },
            None => {},
        }
    }

    /// Transitions the current task Running -> Exited; the terminal state.
    pub fn set_exit(&mut self)
        requires
            old(self).current_id < old(self).control_blocks@.len(),
            old(self).control_blocks@[old(self).current_id as int] is Some,
        ensures
            final(self).num == old(self).num,
            final(self).current_id == old(self).current_id,
            final(self).control_blocks@.len() == old(self).control_blocks@.len(),
            final(self).control_blocks@[old(self).current_id as int] is Some,
            final(self).status_of(old(self).current_id as int) is Exited,
            forall|j: int|
                0 <= j < old(self).control_blocks@.len() && j != old(self).current_id
                    ==> final(self).control_blocks@[j] == old(self).control_blocks@[j],
            final(self).control_blocks@[old(self).current_id as int]->Some_0.memory_set == old(self).control_blocks@[old(self).current_id as int]->Some_0.memory_set,
            final(self).control_blocks@[old(self).current_id as int]->Some_0.trap_cx == old(self).control_blocks@[old(self).current_id as int]->Some_0.trap_cx,
            final(self).control_blocks@[old(self).current_id as int]->Some_0.task_cx == old(self).control_blocks@[old(self).current_id as int]->Some_0.task_cx,
            final(self).control_blocks@[old(self).current_id as int]->Some_0.task_cx_ppn == old(self).control_blocks@[old(self).current_id as int]->Some_0.task_cx_ppn,
            final(self).control_blocks@[old(self).current_id as int]->Some_0.base_size == old(self).control_blocks@[old(self).current_id as int]->Some_0.base_size,
    {
        let idx = self.current_index();
        let slot = &mut self.control_blocks[idx];
        match slot {
            Some(tcb) => {
                tcb.set_exit();
            },
            None => {},
        }
    }

    /// Voluntary yield: the current task goes back to Ready and the first
    /// Ready task (possibly the same one) is selected to run.
    pub fn suspend_and_run_next(&mut self) -> (r: Option<u64>)
        requires
            old(self).current_id < old(self).control_blocks@.len(),
            old(self).control_blocks@[old(self).current_id as int] is Some,
            old(self).status_of(old(self).current_id as int) is Running,
            old(self).control_blocks@.len() == old(self).num,
        ensures
            final(self).num == old(self).num,
            final(self).control_blocks@.len() == old(self).num,
            r is Some,
            r matches Some(t) ==> final(self).current_id == t && final(self).status_of(t as int)
                is Running && final(self).control_blocks@[t as int] is Some,
            r matches Some(t) ==> forall|j: int|
                0 <= j < t ==> !(#[trigger] old(self).ready_at(j)),
            r matches Some(t) ==> t <= old(self).current_id,
            r matches Some(t) ==> t == old(self).current_id || final(self).status_of(
                old(self).current_id as int,
            ) is Ready,
            forall|j: int|
                0 <= j < old(self).num ==> (#[trigger] final(self).control_blocks@[j]) is Some
                    == old(self).control_blocks@[j] is Some,
            forall|j: int|
                0 <= j < old(self).num && final(self).control_blocks@[j] is Some ==> (
                #[trigger] final(self).control_blocks@[j])->Some_0.memory_set == old(self).control_blocks@[j]->Some_0.memory_set && final(self).control_blocks@[j]->Some_0.trap_cx == old(self).control_blocks@[j]->Some_0.trap_cx,
    {
        let ghost pre = *self;
        self.suspend();
        let ghost mid = *self;
        let r = self.run_next_app();
        proof {
            assert(mid.ready_at(pre.current_id as int));
            match r {
                None => {
                    assert(!mid.ready_at(pre.current_id as int));
                },
                Some(t) => {
                    assert forall|j: int| 0 <= j < t implies !pre.ready_at(j) && j
                        != pre.current_id by {
                        assert(!mid.ready_at(j));
                        if j == pre.current_id {
                            assert(mid.ready_at(j));
                        } else {
                            assert(mid.control_blocks@[j] == pre.control_blocks@[j]);
                        }
                    }
                    if t != pre.current_id {
                        assert(self.control_blocks@[pre.current_id as int] == mid.control_blocks@[
                            pre.current_id as int]);
                    }
                },
            }
        }
        r
    }
}

/// An existing task survives a later task's construction: its pages were
/// live before that construction began, and construction writes only to
/// fresh pages and to kernel page-table nodes, which predate every task.
proof fn lemma_existing_task_preserved(
    tcb: TaskControlBlock,
    a_orig: StackFrameAllocator,
    a0: StackFrameAllocator,
    a1: StackFrameAllocator,
    m0: PhysFrames,
    m1: PhysFrames,
    kn1: Set<int>,
)
    requires
        tcb.wf(m0, a0),
        a0.wf(),
        a1.wf(),
        allocator_within(a0, m0),
        m1.wf(),
        m1.base == m0.base,
        m1.len() == m0.len(),
        forall|q: int| a0.live().contains(q) ==> a1.live().contains(q),
        forall|q: int|
            m0.in_range(q) && a0.live().contains(q) && !kn1.contains(q) ==> m1.page(q) == m0.page(
                q,
            ),
        forall|p: int| tcb.memory_set.page_table.nodes@.contains(p) ==> !kn1.contains(p),
        forall|p: int|
            crate::memory_structure::set_owns_frame(tcb.memory_set, p) ==> !kn1.contains(p),
    ensures
        tcb.wf(m1, a1),
{
    let s = tcb.memory_set;
    assert forall|q: int| s.page_table.nodes@.contains(q) implies m1.page(q) == m0.page(q) by {
        assert(a0.live().contains(q));
        assert(!kn1.contains(q));
        assert(m0.in_range(q));
    }
    assert forall|q: int|
        crate::memory_structure::set_owns_frame(s, q) implies m1.page(q) == m0.page(q) by {
        let (i, k) = choose|i: int, k: int|
            0 <= i < s.area_count() && 0 <= k < s.area(i).frames@.len() && #[trigger] s.area(
                i,
            ).fppn(k) == q;
        assert(s.area(i).frames_wf(m0, a0, s.page_table.nodes@));
        assert(a0.live().contains(q));
        assert(!kn1.contains(q));
        assert(m0.in_range(q));
    }
    crate::memory_structure::lemma_set_untouched(s, a0, a1, m0, m1);
}

} // verus!
