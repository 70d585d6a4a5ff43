//! System-call dispatch: the register-passed id selects the service, and the
//! signed result goes back in the return-value register slot.
//!
//! `write` is the one call with real work: it reads the user buffer through
//! the caller's own address space, page run by page run, refuses the whole
//! request when any run is not valid UTF-8, and otherwise hands the bytes to
//! the console and returns how many it emitted.
use vstd::prelude::*;

use crate::address::{PAGE_SIZE_BYTES, VA_SPACE};
use crate::page_table::{
    leaf_entry, run_hi, run_lo, span_pages, spec_token_root, vbyte, walk_ok, walk_wf, PageTable,
};
use crate::phys_mem::PhysFrames;
use crate::task_manager::TaskManager;

verus! {

/// File descriptor of the console.
pub const STDOUT_FD: u64 = 1;

/// Syscall number of `write`.
pub const SYSCALL_WRITE: u64 = 64;

/// Syscall number of `exit`.
pub const SYSCALL_EXIT: u64 = 93;

/// Syscall number of `yield`.
pub const SYSCALL_YIELD: u64 = 124;

/// Syscall number of `get_time`.
pub const SYSCALL_GET_TIME: u64 = 169;

/// The services the kernel offers.
#[derive(Clone, Copy, PartialEq, Eq, Structural, Debug)]
pub enum SyscallType {
    /// Write bytes to a file descriptor.
    SysWrite,
    /// Terminate the calling task.
    SysExit,
    /// Give up the rest of the time slice.
    SysYield,
    /// Read the microsecond clock.
    SysGetTime,
}

impl SyscallType {
    /// The service a syscall number selects, if any; an unknown id selects
    /// nothing and the caller answers -1 rather than faulting.
    pub fn from_number(id: u64) -> (r: Option<Self>)
        ensures
            id == SYSCALL_WRITE ==> r == Some(SyscallType::SysWrite),
            id == SYSCALL_EXIT ==> r == Some(SyscallType::SysExit),
            id == SYSCALL_YIELD ==> r == Some(SyscallType::SysYield),
            id == SYSCALL_GET_TIME ==> r == Some(SyscallType::SysGetTime),
            id != SYSCALL_WRITE && id != SYSCALL_EXIT && id != SYSCALL_YIELD && id
                != SYSCALL_GET_TIME ==> r is None,
    {
        if id == SYSCALL_WRITE {
            Some(SyscallType::SysWrite)
        } else if id == SYSCALL_EXIT {
            Some(SyscallType::SysExit)
        } else if id == SYSCALL_YIELD {
            Some(SyscallType::SysYield)
        } else if id == SYSCALL_GET_TIME {
            Some(SyscallType::SysGetTime)
        } else {
            None
        }
    }
}

/// What servicing one syscall asks the trap path to do next.
#[derive(Clone, Copy, PartialEq, Eq, Structural, Debug)]
pub enum SyscallOutcome {
    /// Store the value in the return-value slot and resume the caller.
    Return(i64),
    /// Terminate the caller with the given code and schedule the next task.
    Exit(i32),
    /// Put the caller back in the Ready queue and schedule the next task.
    Yield,
}

/// Whether `bytes` form valid UTF-8; the exact predicate is the standard
/// library's.
pub uninterp spec fn utf8_valid(bytes: Seq<u8>) -> bool;

/// Relies on `core::str::from_utf8`: it succeeds exactly on valid UTF-8,
/// a property of the bytes alone.
#[verifier::external_body]
fn check_utf8(b: &Vec<u8>) -> (r: bool)
    ensures
        r == utf8_valid(b@),
{
    core::str::from_utf8(b.as_slice()).is_ok()
}

/// The bytes of run `c` of the span, as the address space maps them.
pub open spec fn run_bytes(mem: PhysFrames, root: int, va: int, len: int, c: int) -> Seq<u8> {
    Seq::new(
        (run_hi(va, len, c) - run_lo(va, c)) as nat,
        |j: int| vbyte(mem, root, run_lo(va, c) + j),
    )
}

/// All runs of the span, in order.
pub open spec fn runs_concat(mem: PhysFrames, root: int, va: int, len: int, c: int) -> Seq<u8>
    decreases c,
{
    if c <= 0 {
        Seq::empty()
    } else {
        runs_concat(mem, root, va, len, c - 1) + run_bytes(mem, root, va, len, c - 1)
    }
}

/// Whether the whole span can be read: nothing to wrap, and every page of it
/// mapped to a data frame.
pub open spec fn span_readable(mem: PhysFrames, root: int, va: int, len: int) -> bool {
    &&& va + len > 0
    &&& forall|c: int|
        0 <= c < span_pages(va, len) ==> #[trigger] walk_ok(
            mem,
            root,
            va / (PAGE_SIZE_BYTES as int) + c,
        ) && mem.is_data(leaf_entry(mem, root, va / (PAGE_SIZE_BYTES as int) + c).spec_ppn())
}

/// What `write` returns and emits for a request, given the caller's address
/// space: bytes to the console exactly when the descriptor is the console's,
/// the span lies in user space, every page of it is readable, and every run
/// is valid UTF-8 on its own; the result is then the number of bytes
/// emitted, and -1 with nothing emitted otherwise.
pub open spec fn sys_write_spec(
    mem: PhysFrames,
    root: int,
    fd: u64,
    buf: u64,
    len: u64,
    ret: i64,
    out: Seq<u8>,
) -> bool {
    let va = buf as int;
    let n = len as int;
    if fd == STDOUT_FD && buf + len + PAGE_SIZE_BYTES <= VA_SPACE && span_readable(
        mem,
        root,
        va,
        n,
    ) && (forall|c: int|
        0 <= c < span_pages(va, n) ==> utf8_valid(#[trigger] run_bytes(mem, root, va, n, c))) {
        &&& out == runs_concat(mem, root, va, n, span_pages(va, n))
        &&& ret == out.len()
    } else {
        &&& ret == -1
        &&& out.len() == 0
    }
}

/// Services `write`: returns the signed result and the bytes the console is
/// to receive.
pub fn sys_write(fd: u64, buf: u64, len: u64, token: u64, mem: &PhysFrames) -> (r: (i64, Vec<u8>))
    requires
        walk_wf(*mem, spec_token_root(token)),
    ensures
        sys_write_spec(*mem, spec_token_root(token), fd, buf, len, r.0, r.1@),
{
    let ghost root = spec_token_root(token);
    let ghost va = buf as int;
    let ghost n = len as int;
    if fd != STDOUT_FD {
        return (-1, Vec::new());
    }
    if buf > VA_SPACE - PAGE_SIZE_BYTES || len > VA_SPACE - PAGE_SIZE_BYTES - buf {
        return (-1, Vec::new());
    }
    let chunks = match PageTable::translate_byte_buffer(token, buf, len, mem) {
        Ok(chunks) => chunks,
        Err(_) => {
            proof {
                if span_readable(*mem, root, va, n) {
                    assert(false);
                }
            }
            return (-1, Vec::new());
        },
    };
    let m = chunks.len();
    proof {
        assert forall|x: int| 0 <= x < m implies (#[trigger] chunks@[x])@ =~= run_bytes(
            *mem,
            root,
            va,
            n,
            x,
        ) by {
            assert(chunks@[x]@.len() == run_hi(va, n, x) - run_lo(va, x));
            assert forall|j: int| 0 <= j < chunks@[x]@.len() implies chunks@[x]@[j] == vbyte(
                *mem,
                root,
                run_lo(va, x) + j,
            ) by {}
        }
        if n > 0 {
            vstd::arithmetic::div_mod::lemma_div_is_ordered(
                va + n - 1,
                VA_SPACE as int - PAGE_SIZE_BYTES as int,
                PAGE_SIZE_BYTES as int,
            );
            vstd::arithmetic::div_mod::lemma_fundamental_div_mod_converse(
                VA_SPACE as int - PAGE_SIZE_BYTES as int,
                PAGE_SIZE_BYTES as int,
                0x800_0000int - 1,
                0,
            );
            vstd::arithmetic::div_mod::lemma_div_is_ordered(
                0,
                va,
                PAGE_SIZE_BYTES as int,
            );
        }
        assert(m <= 0x800_0000);
    }
    let mut out: Vec<u8> = Vec::new();
    let mut c: usize = 0;
    while c < m
        invariant
            root == spec_token_root(token),
            va == buf as int,
            n == len as int,
            0 <= va,
            0 <= n,
            va + n + PAGE_SIZE_BYTES <= VA_SPACE,
            fd == STDOUT_FD,
            walk_wf(*mem, root),
            span_readable(*mem, root, va, n),
            m == chunks@.len(),
            m == span_pages(va, n),
            0 < va + n,
            c <= m,
            forall|x: int|
                0 <= x < m ==> (#[trigger] chunks@[x])@ =~= run_bytes(*mem, root, va, n, x),
            forall|x: int|
                0 <= x < c ==> utf8_valid(#[trigger] run_bytes(*mem, root, va, n, x)),
            out@ == runs_concat(*mem, root, va, n, c as int),
            out@.len() <= c * (PAGE_SIZE_BYTES as int),
            m <= 0x800_0000,
        decreases m - c,
    {
        let good = check_utf8(&chunks[c]);
        if !good {
            proof {
                assert(!utf8_valid(run_bytes(*mem, root, va, n, c as int)));
            }
            return (-1, Vec::new());
        }
        let ghost out_pre = out@;
        append_bytes(&mut out, &chunks[c]);
        proof {
            assert(out@ == out_pre + chunks@[c as int]@);
            assert(out@ == runs_concat(*mem, root, va, n, c as int + 1));
            crate::page_table::lemma_run_bounds(va, n, c as int);
            assert(chunks@[c as int]@.len() <= PAGE_SIZE_BYTES) by {
                let p = PAGE_SIZE_BYTES as int;
                let sv = va / p;
                vstd::arithmetic::mul::lemma_mul_is_distributive_add(p, sv + c, 1);
                vstd::arithmetic::mul::lemma_mul_is_commutative(p, sv + c as int);
                vstd::arithmetic::mul::lemma_mul_is_commutative(p, sv + c + 1);
            }
        }
        c = c + 1;
    }
    let total = out.len();
    proof {
        assert(out@.len() <= 0x800_0000int * (PAGE_SIZE_BYTES as int)) by {
            vstd::arithmetic::mul::lemma_mul_inequality(
                m as int,
                0x800_0000,
                PAGE_SIZE_BYTES as int,
            );
        }
    }
    (total as i64, out)
}

/// Appends every byte of `src` to `dst`.
fn append_bytes(dst: &mut Vec<u8>, src: &Vec<u8>)
    ensures
        final(dst)@ == old(dst)@ + src@,
{
    let n = src.len();
    let mut i: usize = 0;
    while i < n
        invariant
            i <= n,
            n == src@.len(),
            dst@ == old(dst)@ + src@.subrange(0, i as int),
        decreases n - i,
    {
        dst.push(src[i]);
        proof {
            assert(dst@ =~= old(dst)@ + src@.subrange(0, i as int + 1));
        }
        i = i + 1;
    }
    proof {
        assert(src@.subrange(0, n as int) =~= src@);
    }
}

/// Reads the microsecond clock value handed in by the timer: the call
/// returns it unchanged as a signed value.
pub fn sys_get_time(now_us: u64) -> (r: i64)
    requires
        now_us <= i64::MAX,
    ensures
        r == now_us,
{
    now_us as i64
}


/// Dispatches one system call by its register-passed id: `write` may emit
/// console bytes and yields its signed result; `exit` and `yield` transfer
/// to the scheduler; `get_time` returns the clock; an unknown id returns -1
/// rather than faulting.
pub fn syscall(id: u64, args: [u64; 3], token: u64, mem: &PhysFrames, now_us: u64) -> (r: (
    SyscallOutcome,
    Vec<u8>,
))
    requires
        walk_wf(*mem, spec_token_root(token)),
        now_us <= i64::MAX,
    ensures
        id == SYSCALL_WRITE ==> (r.0 matches SyscallOutcome::Return(v) && sys_write_spec(
            *mem,
            spec_token_root(token),
            args@[0],
            args@[1],
            args@[2],
            v,
            r.1@,
        )),
        id == SYSCALL_EXIT ==> r.0 == SyscallOutcome::Exit(args@[0] as i32) && r.1@.len() == 0,
        id == SYSCALL_YIELD ==> r.0 is Yield && r.1@.len() == 0,
        id == SYSCALL_GET_TIME ==> r.0 == SyscallOutcome::Return(now_us as i64) && r.1@.len()
            == 0,
        id != SYSCALL_WRITE && id != SYSCALL_EXIT && id != SYSCALL_YIELD && id
            != SYSCALL_GET_TIME ==> r.0 == SyscallOutcome::Return(-1i64) && r.1@.len() == 0,
{
    match SyscallType::from_number(id) {
        Some(SyscallType::SysWrite) => {
            let (v, out) = sys_write(args[0], args[1], args[2], token, mem);
            (SyscallOutcome::Return(v), out)
        },
        Some(SyscallType::SysExit) => (SyscallOutcome::Exit(args[0] as i32), Vec::new()),
        Some(SyscallType::SysYield) => (SyscallOutcome::Yield, Vec::new()),
        Some(SyscallType::SysGetTime) => (SyscallOutcome::Return(sys_get_time(now_us)), Vec::new()),
        None => (SyscallOutcome::Return(-1i64), Vec::new()),
    }
}



/// Services `exit`: the calling task becomes Exited — the terminal state —
/// and the first Ready task is selected, or none when the machine should
/// shut down. The exit code is reported by the runtime; the state machine
/// only consumes it.
pub fn sys_exit(xstate: i32, tm: &mut TaskManager) -> (r: Option<u64>)
    requires
        old(tm).current_id < old(tm).control_blocks@.len(),
        old(tm).control_blocks@[old(tm).current_id as int] is Some,
        old(tm).control_blocks@.len() == old(tm).num,
    ensures
        final(tm).num == old(tm).num,
        final(tm).control_blocks@.len() == old(tm).num,
        final(tm).control_blocks@[old(tm).current_id as int] is Some,
        final(tm).control_blocks@[old(tm).current_id as int]->Some_0.task_status is Exited,
        r is None ==> forall|j: int| 0 <= j < final(tm).num ==> !final(tm).ready_at(j),
        r matches Some(t) ==> final(tm).current_id == t && final(tm).status_of(t as int)
            is Running && t != old(tm).current_id && t < final(tm).control_blocks@.len(),
        r matches Some(t) ==> forall|j: int|
            0 <= j < t ==> !(#[trigger] old(tm).ready_at(j)) || j == old(tm).current_id,
        forall|j: int|
            0 <= j < old(tm).num ==> (#[trigger] final(tm).control_blocks@[j]) is Some == old(tm).control_blocks@[j] is Some,
        forall|j: int|
            0 <= j < old(tm).num && final(tm).control_blocks@[j] is Some ==> (#[trigger] final(tm).control_blocks@[j])->Some_0.memory_set == old(tm).control_blocks@[j]->Some_0.memory_set
                && final(tm).control_blocks@[j]->Some_0.trap_cx == old(tm).control_blocks@[j]->Some_0.trap_cx,
    {
    let ghost pre = *tm;
    tm.set_exit();
    let ghost mid = *tm;
    let r = tm.run_next_app();
    proof {
        match r {
            Some(t) => {
                assert(mid.ready_at(t as int));
                assert(!(mid.control_blocks@[pre.current_id as int]->Some_0.task_status
                    is Ready));
                assert forall|j: int| 0 <= j < t implies !(#[trigger] pre.ready_at(j)) || j
                    == pre.current_id by {
                    assert(!mid.ready_at(j));
                    if j != pre.current_id {
                        assert(mid.control_blocks@[j] == pre.control_blocks@[j]);
                    }
                }
            },
            None => {},
        }
    }
    r
}

/// Services `yield`: the calling task goes back to Ready and the first
/// Ready task — possibly the caller again — is selected to run.
pub fn sys_yield(tm: &mut TaskManager) -> (r: Option<u64>)
    requires
        old(tm).current_id < old(tm).control_blocks@.len(),
        old(tm).control_blocks@[old(tm).current_id as int] is Some,
        old(tm).status_of(old(tm).current_id as int) is Running,
        old(tm).control_blocks@.len() == old(tm).num,
    ensures
        final(tm).num == old(tm).num,
        final(tm).control_blocks@.len() == old(tm).num,
        r is Some,
        r matches Some(t) ==> final(tm).current_id == t && final(tm).status_of(t as int)
            is Running && t < final(tm).control_blocks@.len() && final(tm).control_blocks@[t as int] is Some,
        r matches Some(t) ==> forall|j: int|
            0 <= j < t ==> !(#[trigger] old(tm).ready_at(j)),
        r matches Some(t) ==> t <= old(tm).current_id,
        r matches Some(t) ==> t == old(tm).current_id || final(tm).status_of(
            old(tm).current_id as int,
        ) is Ready,
        forall|j: int|
            0 <= j < old(tm).num ==> (#[trigger] final(tm).control_blocks@[j]) is Some == old(tm).control_blocks@[j] is Some,
        forall|j: int|
            0 <= j < old(tm).num && final(tm).control_blocks@[j] is Some ==> (#[trigger] final(tm).control_blocks@[j])->Some_0.memory_set == old(tm).control_blocks@[j]->Some_0.memory_set
                && final(tm).control_blocks@[j]->Some_0.trap_cx == old(tm).control_blocks@[j]->Some_0.trap_cx,
{
    let ghost pre = *tm;
    let r = tm.suspend_and_run_next();
    proof {
        match r {
            Some(t) => {
                assert(forall|j: int|
                    0 <= j < t ==> !(#[trigger] pre.ready_at(j)) && j != pre.current_id);
            },
            None => {},
        }
    }
    r
}


} // verus!
