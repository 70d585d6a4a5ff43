//! Trap dispatch: the de/multiplexer between user code and the kernel.
//!
//! The hardware reports a cause; the dispatcher services a syscall, kills the
//! task on a fatal exception, or preempts on the timer tick, and in every
//! case says which task runs next or that the machine shuts down. A fault
//! the kernel cannot attribute to the current task is fatal to the kernel
//! itself. The low-level save/restore transfer stays outside the library;
//! the dispatcher works on the saved state.
use vstd::prelude::*;

use crate::frame_allocator::{FrameAllocator, StackFrameAllocator};
use crate::kernel_mm::KernelMemoryManager;
use crate::page_table::allocator_within;
use crate::phys_mem::PhysFrames;
use crate::syscall::{
    sys_exit, sys_get_time, sys_write, sys_write_spec, sys_yield, SYSCALL_EXIT, SYSCALL_GET_TIME,
    SYSCALL_WRITE, SYSCALL_YIELD,
};
use crate::task_manager::TaskManager;
use crate::trap_context::{REG_A0, REG_A1, REG_A2, REG_A7};

verus! {

/// The synchronous exception causes the hardware can report.
#[derive(Clone, Copy, PartialEq, Eq, Structural, Debug)]
pub enum ExceptionKind {
    /// Instruction address misaligned.
    InstructionMisaligned,
    /// Instruction access fault.
    InstructionFault,
    /// Illegal instruction.
    IllegalInstruction,
    /// Breakpoint; not an error the kernel reports.
    Breakpoint,
    /// Load address misaligned.
    LoadMisaligned,
    /// Load access fault.
    LoadFault,
    /// Store address misaligned.
    StoreMisaligned,
    /// Store access fault.
    StoreFault,
    /// Environment call from user mode: a syscall.
    UserEnvCall,
    /// Environment call from supervisor mode.
    SupervisorEnvCall,
    /// Environment call from machine mode.
    MachineEnvCall,
    /// Instruction page fault.
    InstructionPageFault,
    /// Load page fault.
    LoadPageFault,
    /// Store page fault.
    StorePageFault,
}

impl ExceptionKind {
    /// The report text for an exception that kills the current task; the
    /// causes the kernel does not treat as task-fatal yield nothing.
    pub fn try_get(&self) -> (r: Result<&'static str, ()>)
        ensures
            r is Ok <==> self.spec_task_fatal(),
    {
        match self {
            ExceptionKind::InstructionMisaligned => Ok("InstructionMisaligned"),
            ExceptionKind::InstructionFault => Ok("InstructionFault"),
            ExceptionKind::IllegalInstruction => Ok("IllegalInstruction"),
            ExceptionKind::Breakpoint => Err(()),
            ExceptionKind::LoadMisaligned => Ok("LoadMisaligned"),
            ExceptionKind::LoadFault => Ok("LoadFault"),
            ExceptionKind::StoreMisaligned => Ok("StoreMisaligned"),
            ExceptionKind::StoreFault => Ok("StoreFault"),
            ExceptionKind::UserEnvCall => Err(()),
            ExceptionKind::SupervisorEnvCall => Err(()),
            ExceptionKind::MachineEnvCall => Err(()),
            ExceptionKind::InstructionPageFault => Ok("InstructionPageFault"),
            ExceptionKind::LoadPageFault => Ok("LoadPageFault"),
            ExceptionKind::StorePageFault => Ok("StorePageFault"),
        }
    }

    /// Whether this exception kills the current task when user code raises
    /// it: everything except syscalls, breakpoints and nested environment
    /// calls.
    pub open spec fn spec_task_fatal(self) -> bool {
        match self {
            ExceptionKind::Breakpoint => false,
            ExceptionKind::UserEnvCall => false,
            ExceptionKind::SupervisorEnvCall => false,
            ExceptionKind::MachineEnvCall => false,
            _ => true,
        }
    }
}

/// The asynchronous interrupt causes.
#[derive(Clone, Copy, PartialEq, Eq, Structural, Debug)]
pub enum InterruptKind {
    /// The supervisor timer: the preemption tick.
    SupervisorTimer,
    /// Any other interrupt; the kernel does not handle it.
    Other,
}

/// A hardware-reported trap cause.
pub enum TrapCause {
    /// A synchronous exception.
    Exception(ExceptionKind),
    /// An asynchronous interrupt.
    Interrupt(InterruptKind),
}

/// What the trap path does after dispatch.
#[derive(Clone, Copy, PartialEq, Eq, Structural, Debug)]
pub enum TrapOutcome {
    /// Resume user mode in the given task, via the restore path.
    RunNext(u64),
    /// No task is Ready: power off cleanly.
    Shutdown,
    /// The kernel cannot continue: power off with a failure flag.
    KernelFault,
}

/// The whole machine state the kernel owns: physical memory, the frame
/// allocator, the kernel's address space and the task table.
pub struct Kernel {
    /// The physical page arena.
    pub phys: PhysFrames,
    /// The physical frame allocator.
    pub allocator: StackFrameAllocator,
    /// The kernel's own address space.
    pub kernel_mm: KernelMemoryManager,
    /// The scheduler and task table.
    pub tasks: TaskManager,
}

impl Kernel {
    /// Everything hangs together: allocator over the arena, the kernel's
    /// space present and well formed, and every task's space well formed.
    pub open spec fn wf(self) -> bool {
        &&& self.allocator.wf()
        &&& allocator_within(self.allocator, self.phys)
        &&& self.kernel_mm.memory_set is Some
        &&& self.kernel_mm.kset().wf(self.phys, self.allocator)
        &&& self.tasks.wf(self.phys, self.allocator)
    }

    /// Whether the current task id has a live slot.
    pub open spec fn current_ok(self) -> bool {
        &&& self.tasks.current_id < self.tasks.control_blocks@.len()
        &&& self.tasks.control_blocks@[self.tasks.current_id as int] is Some
    }

    /// The current task's saved user state.
    pub open spec fn cur_cx(self) -> crate::trap_context::TrapContext {
        self.tasks.control_blocks@[self.tasks.current_id as int]->Some_0.trap_cx
    }

    /// The root of the current task's address space.
    pub open spec fn cur_root(self) -> int {
        self.tasks.control_blocks@[self.tasks.current_id as int]->Some_0.memory_set.page_table.root()
    }
}

/// Dispatches one trap from user mode and decides what runs next. Returns
/// the outcome together with the bytes a serviced `write` sends to the
/// console; every other path emits nothing.
#[verifier::rlimit(100)]
pub fn trap_handler(k: &mut Kernel, cause: TrapCause, _stval: u64, now_us: u64) -> (r: (
    TrapOutcome,
    Vec<u8>,
))
    requires
        old(k).wf(),
        old(k).current_ok(),
        old(k).tasks.status_of(old(k).tasks.current_id as int) is Running,
        old(k).cur_cx().sepc + 4 <= u64::MAX,
        now_us <= i64::MAX,
    ensures
        final(k).wf(),
        final(k).phys == old(k).phys,
        final(k).allocator == old(k).allocator,
        final(k).kernel_mm == old(k).kernel_mm,
        final(k).tasks.num == old(k).tasks.num,
        final(k).tasks.control_blocks@.len() == old(k).tasks.control_blocks@.len(),
        match cause {
            TrapCause::Interrupt(InterruptKind::SupervisorTimer) => {
                &&& r.1@.len() == 0
                &&& r.0 != TrapOutcome::KernelFault
                &&& (r.0 is Shutdown ==> forall|j: int|
                    0 <= j < final(k).tasks.num ==> !final(k).tasks.ready_at(j))
                &&& (r.0 matches TrapOutcome::RunNext(t) ==> final(k).tasks.status_of(
                    t as int,
                ) is Running && final(k).tasks.current_id == t
                    // the preempted task went Running -> Ready, and the least
                    // Ready id won
                    && (t == old(k).tasks.current_id || final(k).tasks.status_of(
                    old(k).tasks.current_id as int,
                ) is Ready) && t <= old(k).tasks.current_id && (forall|j: int|
                    0 <= j < t ==> !(#[trigger] old(k).tasks.ready_at(j))))
            },
            TrapCause::Interrupt(InterruptKind::Other) => r.0 == TrapOutcome::KernelFault
                && r.1@.len() == 0,
            TrapCause::Exception(e) => {
                if e is UserEnvCall {
                    let cx = old(k).cur_cx();
                    let id = cx.x@[REG_A7 as int];
                    if id == SYSCALL_WRITE {
                        &&& sys_write_spec(
                            old(k).phys,
                            old(k).cur_root(),
                            cx.x@[REG_A0 as int],
                            cx.x@[REG_A1 as int],
                            cx.x@[REG_A2 as int],
                            final(k).cur_cx().x@[REG_A0 as int] as i64,
                            r.1@,
                        )
                        &&& r.0 == TrapOutcome::RunNext(old(k).tasks.current_id)
                        &&& final(k).cur_cx().sepc == cx.sepc + 4
                    } else if id == SYSCALL_EXIT {
                        &&& r.1@.len() == 0
                        &&& final(k).tasks.control_blocks@[old(k).tasks.current_id as int] is Some
                        &&& final(k).tasks.control_blocks@[old(k).tasks.current_id as int]->Some_0.task_status is Exited
                        &&& r.0 != TrapOutcome::KernelFault
                        &&& (r.0 is Shutdown ==> forall|j: int|
                            0 <= j < final(k).tasks.num ==> !final(k).tasks.ready_at(j))
                        &&& (r.0 matches TrapOutcome::RunNext(t) ==> final(k).tasks.status_of(
                            t as int,
                        ) is Running && t != old(k).tasks.current_id && (forall|j: int|
                            0 <= j < t ==> !(#[trigger] old(k).tasks.ready_at(j)) || j == old(
                                k,
                            ).tasks.current_id))
                    } else if id == SYSCALL_YIELD {
                        &&& r.1@.len() == 0
                        &&& r.0 != TrapOutcome::KernelFault
                        &&& !(r.0 is Shutdown)
                        &&& (r.0 matches TrapOutcome::RunNext(t) ==> final(k).tasks.status_of(
                            t as int,
                        ) is Running && t <= old(k).tasks.current_id && (forall|j: int|
                            0 <= j < t ==> !(#[trigger] old(k).tasks.ready_at(j))) && (t == old(
                            k,
                        ).tasks.current_id || final(k).tasks.status_of(
                            old(k).tasks.current_id as int,
                        ) is Ready))
                        &&& final(k).tasks.control_blocks@[old(k).tasks.current_id as int] is Some
                        &&& final(k).tasks.control_blocks@[old(k).tasks.current_id as int]->Some_0.trap_cx.sepc == cx.sepc + 4
                    } else if id == SYSCALL_GET_TIME {
                        &&& r.1@.len() == 0
                        &&& r.0 == TrapOutcome::RunNext(old(k).tasks.current_id)
                        &&& final(k).cur_cx().x@[REG_A0 as int] == now_us
                        &&& final(k).cur_cx().sepc == cx.sepc + 4
                    } else {
                        &&& r.1@.len() == 0
                        &&& r.0 == TrapOutcome::RunNext(old(k).tasks.current_id)
                        &&& final(k).cur_cx().x@[REG_A0 as int] == (-1i64) as u64
                        &&& final(k).cur_cx().sepc == cx.sepc + 4
                    }
                } else if e.spec_task_fatal() {
                    // fault isolation: the offending task exits, the kernel
                    // goes on to run whoever is Ready
                    &&& r.1@.len() == 0
                    &&& final(k).tasks.control_blocks@[old(k).tasks.current_id as int] is Some
                    &&& final(k).tasks.control_blocks@[old(k).tasks.current_id as int]->Some_0.task_status is Exited
                    &&& r.0 != TrapOutcome::KernelFault
                    &&& (r.0 is Shutdown ==> forall|j: int|
                        0 <= j < final(k).tasks.num ==> !final(k).tasks.ready_at(j))
                    &&& (r.0 matches TrapOutcome::RunNext(t) ==> final(k).tasks.status_of(
                        t as int,
                    ) is Running && t != old(k).tasks.current_id && (forall|j: int|
                        0 <= j < t ==> !(#[trigger] old(k).tasks.ready_at(j))))
                } else {
                    // breakpoints and nested environment calls are excluded
                    // from the fatal-report path: the task simply resumes
                    &&& r.0 == TrapOutcome::RunNext(old(k).tasks.current_id)
                    &&& r.1@.len() == 0
                    &&& *final(k) == *old(k)
                }
            },
        },
{
    let ghost k0 = *k;
    match cause {
        TrapCause::Interrupt(ik) => {
            match ik {
                InterruptKind::SupervisorTimer => {
                    let next = k.tasks.suspend_and_run_next();
                    proof {
                        lemma_tasks_wf_after_status_change(k0, *k);
                        match next {
                            Some(t) => {
                                assert(forall|j: int|
                                    0 <= j < t ==> !(#[trigger] k0.tasks.ready_at(j)));
                            },
                            None => {},
                        }
                    }
                    match next {
                        Some(t) => (TrapOutcome::RunNext(t), Vec::new()),
                        None => (TrapOutcome::Shutdown, Vec::new()),
                    }
                },
                InterruptKind::Other => (TrapOutcome::KernelFault, Vec::new()),
            }
        },
        TrapCause::Exception(e) => {
            match e {
                ExceptionKind::UserEnvCall => syscall_entry(k, now_us),
                _ => {
                    match e.try_get() {
                        Ok(_msg) => {
                            k.tasks.set_exit();
                            let ghost k1 = *k;
                            proof {
                                lemma_tasks_wf_after_status_change(k0, *k);
                            }
                            let next = k.tasks.run_next_app();
                            proof {
                                lemma_tasks_wf_after_status_change(k1, *k);
                                match next {
                                    Some(t) => {
                                        assert forall|j: int| 0 <= j < t implies !(
                                        #[trigger] k0.tasks.ready_at(j)) by {
                                            assert(!k1.tasks.ready_at(j));
                                            if j != k0.tasks.current_id {
                                                assert(k1.tasks.control_blocks@[j]
                                                    == k0.tasks.control_blocks@[j]);
                                            }
                                        }
                                    },
                                    None => {},
                                }
                            }
                            match next {
                                Some(t) => (TrapOutcome::RunNext(t), Vec::new()),
                                None => (TrapOutcome::Shutdown, Vec::new()),
                            }
                        },
                        Err(()) => (TrapOutcome::RunNext(k.tasks.get_current_app_id()), Vec::new()),
                    }
                },
            }
        },
    }
}

/// Services an environment call from user mode: advances the saved program
/// counter past the call instruction, dispatches on the id in the seventh
/// argument register, and either stores the signed result or transfers to
/// the scheduler for `exit` and `yield`.
#[verifier::rlimit(100)]
fn syscall_entry(k: &mut Kernel, now_us: u64) -> (r: (TrapOutcome, Vec<u8>))
    requires
        old(k).wf(),
        old(k).current_ok(),
        old(k).tasks.status_of(old(k).tasks.current_id as int) is Running,
        old(k).cur_cx().sepc + 4 <= u64::MAX,
        now_us <= i64::MAX,
    ensures
        final(k).wf(),
        final(k).phys == old(k).phys,
        final(k).allocator == old(k).allocator,
        final(k).kernel_mm == old(k).kernel_mm,
        final(k).tasks.num == old(k).tasks.num,
        final(k).tasks.control_blocks@.len() == old(k).tasks.control_blocks@.len(),
        ({
            let cx = old(k).cur_cx();
            let id = cx.x@[REG_A7 as int];
            if id == SYSCALL_WRITE {
                &&& sys_write_spec(
                    old(k).phys,
                    old(k).cur_root(),
                    cx.x@[REG_A0 as int],
                    cx.x@[REG_A1 as int],
                    cx.x@[REG_A2 as int],
                    final(k).cur_cx().x@[REG_A0 as int] as i64,
                    r.1@,
                )
                &&& r.0 == TrapOutcome::RunNext(old(k).tasks.current_id)
                &&& final(k).cur_cx().sepc == cx.sepc + 4
            } else if id == SYSCALL_EXIT {
                &&& r.1@.len() == 0
                &&& final(k).tasks.control_blocks@[old(k).tasks.current_id as int] is Some
                &&& final(k).tasks.control_blocks@[old(k).tasks.current_id as int]->Some_0.task_status is Exited
                &&& r.0 != TrapOutcome::KernelFault
                &&& (r.0 is Shutdown ==> forall|j: int|
                    0 <= j < final(k).tasks.num ==> !final(k).tasks.ready_at(j))
                &&& (r.0 matches TrapOutcome::RunNext(t) ==> final(k).tasks.status_of(
                    t as int,
                ) is Running && t != old(k).tasks.current_id && (forall|j: int|
                    0 <= j < t ==> !(#[trigger] old(k).tasks.ready_at(j)) || j == old(
                        k,
                    ).tasks.current_id))
            } else if id == SYSCALL_YIELD {
                &&& r.1@.len() == 0
                &&& r.0 != TrapOutcome::KernelFault
                &&& !(r.0 is Shutdown)
                &&& (r.0 matches TrapOutcome::RunNext(t) ==> final(k).tasks.status_of(
                    t as int,
                ) is Running && t <= old(k).tasks.current_id && (forall|j: int|
                    0 <= j < t ==> !(#[trigger] old(k).tasks.ready_at(j))) && (t == old(
                    k,
                ).tasks.current_id || final(k).tasks.status_of(
                    old(k).tasks.current_id as int,
                ) is Ready))
                &&& final(k).tasks.control_blocks@[old(k).tasks.current_id as int] is Some
                &&& final(k).tasks.control_blocks@[old(k).tasks.current_id as int]->Some_0.trap_cx.sepc == cx.sepc + 4
            } else if id == SYSCALL_GET_TIME {
                &&& r.1@.len() == 0
                &&& r.0 == TrapOutcome::RunNext(old(k).tasks.current_id)
                &&& final(k).cur_cx().x@[REG_A0 as int] == now_us
                &&& final(k).cur_cx().sepc == cx.sepc + 4
            } else {
                &&& r.1@.len() == 0
                &&& r.0 == TrapOutcome::RunNext(old(k).tasks.current_id)
                &&& final(k).cur_cx().x@[REG_A0 as int] == (-1i64) as u64
                &&& final(k).cur_cx().sepc == cx.sepc + 4
            }
        }),
{
    let ghost k0 = *k;
    let cur = k.tasks.get_current_app_id();
    let (a0, a1, a2, a7, old_sepc) = read_current_registers(&k.tasks);
    let id = a7;
    if id == SYSCALL_EXIT {
        write_back(&mut k.tasks, old_sepc + 4, None);
        proof {
            lemma_tasks_wf_after_status_change(k0, *k);
        }
        let ghost k1 = *k;
        let next = sys_exit(a0 as i32, &mut k.tasks);
        proof {
            lemma_tasks_wf_after_status_change(k1, *k);
            match next {
                Some(t) => {
                    assert forall|j: int| 0 <= j < t implies !(#[trigger] k0.tasks.ready_at(j))
                        || j == k0.tasks.current_id by {
                        if j != k1.tasks.current_id {
                            assert(k1.tasks.control_blocks@[j] == k0.tasks.control_blocks@[j]);
                            assert(!k1.tasks.ready_at(j));
                        }
                    }
                },
                None => {},
            }
        }
        match next {
            Some(t) => (TrapOutcome::RunNext(t), Vec::new()),
            None => (TrapOutcome::Shutdown, Vec::new()),
        }
    } else if id == SYSCALL_YIELD {
        write_back(&mut k.tasks, old_sepc + 4, None);
        proof {
            lemma_tasks_wf_after_status_change(k0, *k);
        }
        let ghost k1 = *k;
        let next = sys_yield(&mut k.tasks);
        proof {
            lemma_tasks_wf_after_status_change(k1, *k);
            match next {
                Some(t) => {
                    assert forall|j: int| 0 <= j < t implies !(
                    #[trigger] k0.tasks.ready_at(j)) by {
                        assert(!k1.tasks.ready_at(j));
                        assert(j != k1.tasks.current_id);
                        assert(k1.tasks.control_blocks@[j] == k0.tasks.control_blocks@[j]);
                    }
                },
                None => {},
            }
        }
        match next {
            Some(t) => (TrapOutcome::RunNext(t), Vec::new()),
            None => (TrapOutcome::Shutdown, Vec::new()),
        }
    } else if id == SYSCALL_WRITE {
        let token = k.tasks.get_current_satp_token(&k.phys);
        proof {
            assert(crate::page_table::spec_token_root(token) == old(k).cur_root()) by {
                crate::page_table::lemma_token_root(
                    old(k).tasks.control_blocks@[old(k).tasks.current_id as int]->Some_0.memory_set.page_table.root_ppn.0,
                );
            }
        }
        let (v, out) = sys_write(a0, a1, a2, token, &k.phys);
        write_back(&mut k.tasks, old_sepc + 4, Some(v as u64));
        proof {
            lemma_tasks_wf_after_status_change(k0, *k);
            assert(sys_write_spec(
                old(k).phys,
                old(k).cur_root(),
                old(k).cur_cx().x@[REG_A0 as int],
                old(k).cur_cx().x@[REG_A1 as int],
                old(k).cur_cx().x@[REG_A2 as int],
                v,
                out@,
            ));
            assert(k.cur_cx().x@[REG_A0 as int] == v as u64);
            assert((v as u64) as i64 == v) by {
                if v >= 0 {
                    assert(v <= i64::MAX);
                } else {
                    assert(v == -1);
                    assert(((-1i64) as u64) as i64 == -1i64) by (bit_vector);
                }
            }
            assert(k.cur_cx().sepc == old(k).cur_cx().sepc + 4);
        }
        (TrapOutcome::RunNext(cur), out)
    } else if id == SYSCALL_GET_TIME {
        let v = sys_get_time(now_us);
        write_back(&mut k.tasks, old_sepc + 4, Some(v as u64));
        proof {
            lemma_tasks_wf_after_status_change(k0, *k);
        }
        (TrapOutcome::RunNext(cur), Vec::new())
    } else {
        write_back(&mut k.tasks, old_sepc + 4, Some((-1i64) as u64));
        proof {
            lemma_tasks_wf_after_status_change(k0, *k);
        }
        (TrapOutcome::RunNext(cur), Vec::new())
    }
}

/// Reads the current task's argument registers, syscall id, and saved
/// program counter.
fn read_current_registers(tasks: &TaskManager) -> (r: (u64, u64, u64, u64, u64))
    requires
        tasks.current_id < tasks.control_blocks@.len(),
        tasks.control_blocks@[tasks.current_id as int] is Some,
        tasks.control_blocks@[tasks.current_id as int]->Some_0.trap_cx.wf(),
    ensures
        ({
            let cx = tasks.control_blocks@[tasks.current_id as int]->Some_0.trap_cx;
            r == (
                cx.x@[REG_A0 as int],
                cx.x@[REG_A1 as int],
                cx.x@[REG_A2 as int],
                cx.x@[REG_A7 as int],
                cx.sepc,
            )
        }),
{
    match tasks.get_current_trap_context() {
        Some(cx) => (cx.x[REG_A0], cx.x[REG_A1], cx.x[REG_A2], cx.x[REG_A7], cx.sepc),
        None => (0, 0, 0, 0, 0),
    }
}

/// Writes the advanced program counter and, when given, the return value
/// into the current task's saved state; everything else stays put.
fn write_back(tasks: &mut TaskManager, new_sepc: u64, ret: Option<u64>)
    requires
        old(tasks).current_id < old(tasks).control_blocks@.len(),
        old(tasks).control_blocks@[old(tasks).current_id as int] is Some,
        old(tasks).control_blocks@[old(tasks).current_id as int]->Some_0.trap_cx.wf(),
    ensures
        final(tasks).num == old(tasks).num,
        final(tasks).current_id == old(tasks).current_id,
        final(tasks).control_blocks@.len() == old(tasks).control_blocks@.len(),
        forall|j: int|
            0 <= j < old(tasks).control_blocks@.len() && j != old(tasks).current_id
                ==> final(tasks).control_blocks@[j] == old(tasks).control_blocks@[j],
        final(tasks).control_blocks@[old(tasks).current_id as int] is Some,
        ({
            let pre = old(tasks).control_blocks@[old(tasks).current_id as int]->Some_0;
            let post = final(tasks).control_blocks@[old(tasks).current_id as int]->Some_0;
            &&& post.task_status == pre.task_status
            &&& post.memory_set == pre.memory_set
            &&& post.task_cx == pre.task_cx
            &&& post.task_cx_ppn == pre.task_cx_ppn
            &&& post.base_size == pre.base_size
            &&& post.trap_cx.wf()
            &&& post.trap_cx.sepc == new_sepc
            &&& post.trap_cx.sstatus == pre.trap_cx.sstatus
            &&& post.trap_cx.kernel_satp == pre.trap_cx.kernel_satp
            &&& post.trap_cx.kernel_sp == pre.trap_cx.kernel_sp
            &&& post.trap_cx.trap_handler == pre.trap_cx.trap_handler
            &&& (match ret {
                Some(v) => post.trap_cx.x@ =~= pre.trap_cx.x@.update(REG_A0 as int, v),
                None => post.trap_cx.x@ == pre.trap_cx.x@,
            })
        }),
{
    let n = tasks.control_blocks.len();
    let c = tasks.current_id;
    assert(c < n as u64);
    let idx = c as usize;
    let slot = &mut tasks.control_blocks[idx];
    match slot {
        Some(tcb) => {
            tcb.trap_cx.sepc = new_sepc;
            match ret {
                Some(v) => {
                    tcb.trap_cx.x[REG_A0] = v;
                },
                None => {},
            }
        },
        None => {},
    }
}

/// A status-only change to the task table keeps the whole kernel well
/// formed: no task's address space moved.
proof fn lemma_tasks_wf_after_status_change(k0: Kernel, k1: Kernel)
    requires
        k0.wf(),
        k1.phys == k0.phys,
        k1.allocator == k0.allocator,
        k1.kernel_mm == k0.kernel_mm,
        k1.tasks.control_blocks@.len() == k0.tasks.control_blocks@.len(),
        k1.tasks.num == k0.tasks.num,
        forall|j: int|
            0 <= j < k0.tasks.control_blocks@.len() ==> (#[trigger] k1.tasks.control_blocks@[j])
                is Some == k0.tasks.control_blocks@[j] is Some,
        forall|j: int|
            0 <= j < k0.tasks.control_blocks@.len() && k1.tasks.control_blocks@[j] is Some ==> (
            #[trigger] k1.tasks.control_blocks@[j])->Some_0.memory_set
                == k0.tasks.control_blocks@[j]->Some_0.memory_set
                && k1.tasks.control_blocks@[j]->Some_0.trap_cx.wf(),
    ensures
        k1.wf(),
{
    assert forall|i: int|
        0 <= i < k1.tasks.num && k1.tasks.control_blocks@[i] is Some implies (
    #[trigger] k1.tasks.control_blocks@[i]->Some_0).wf(k1.phys, k1.allocator) by {
        assert(k0.tasks.control_blocks@[i]->Some_0.wf(k0.phys, k0.allocator));
    }
}


impl Kernel {
    /// Boots the machine model: memory initialisation from the hardware
    /// description and kernel layout, then one task per program image.
    /// Every task that could be built starts Ready.
    pub fn boot(
        device_tree: &crate::dtb::DeviceTree,
        layout: &crate::kernel_mm::KernelLayout,
        apps: &Vec<Vec<u8>>,
    ) -> (r: Result<Kernel, crate::memory_structure::MemoryStructureError>)
        requires
            layout.wf(),
            device_tree.memory@.len() > 0,
            device_tree.memory@[0].1 == layout.mem_end,
            apps@.len() <= crate::task_manager::MAX_TASK_NUM,
            forall|i: int|
                0 <= i < apps@.len() ==> (#[trigger] apps@[i])@.len()
                    + crate::address::PAGE_SIZE_BYTES <= usize::MAX,
        ensures
            match r {
                Ok(k) => {
                    &&& k.wf()
                    &&& k.tasks.num == apps@.len()
                    &&& k.tasks.current_id == 0
                    &&& forall|i: int|
                        0 <= i < k.tasks.num && k.tasks.control_blocks@[i] is Some
                            ==> k.tasks.status_of(i) is Ready
                    // the kernel space begins with the five identity
                    // segments of the layout; stack areas follow them
                    &&& k.kernel_mm.kset().area_count() >= 5
                    &&& crate::kernel_mm::spec_kernel_area(
                        k.kernel_mm.kset(),
                        0,
                        layout.stext,
                        layout.etext,
                        crate::memory_structure::PERM_R | crate::memory_structure::PERM_X,
                    )
                    &&& crate::kernel_mm::spec_kernel_area(
                        k.kernel_mm.kset(),
                        1,
                        layout.srodata,
                        layout.erodata,
                        crate::memory_structure::PERM_R,
                    )
                    &&& crate::kernel_mm::spec_kernel_area(
                        k.kernel_mm.kset(),
                        2,
                        layout.sdata,
                        layout.edata,
                        crate::memory_structure::PERM_R | crate::memory_structure::PERM_W,
                    )
                    &&& crate::kernel_mm::spec_kernel_area(
                        k.kernel_mm.kset(),
                        3,
                        layout.sbss,
                        layout.ebss,
                        crate::memory_structure::PERM_R | crate::memory_structure::PERM_W,
                    )
                    &&& crate::kernel_mm::spec_kernel_area(
                        k.kernel_mm.kset(),
                        4,
                        layout.ekernel,
                        layout.mem_end,
                        crate::memory_structure::PERM_R | crate::memory_structure::PERM_W,
                    )
                },
                Err(e) => {
                    // boot fails only when the usable memory above the
                    // kernel image cannot hold the kernel space
                    e matches crate::memory_structure::MemoryStructureError::OutOfMemory || e
                        matches crate::memory_structure::MemoryStructureError::PageTableFailure(
                        crate::page_table::PageTableError::FrameUnavailable,
                    )
                },
            },
    {
        let (mut allocator, mut phys, mut kernel_mm) = match crate::kernel_mm::init(
            device_tree,
            layout,
        ) {
            Ok(t) => t,
            Err((_drained, e)) => {
                return Err(e);
            },
        };
        let tasks = TaskManager::new(
            apps,
            crate::address::PhysAddr(layout.strampoline),
            &mut kernel_mm,
            &mut allocator,
            &mut phys,
        );
        Ok(Kernel { phys, allocator, kernel_mm, tasks })
    }
}


} // verus!
