//! Scheduling order, syscall dispatch and fault isolation, driven through a
//! booted kernel model.
use rvcore::address::{PAGE_SIZE_BYTES, TRAMPOLINE};
use rvcore::dtb::DeviceTree;
use rvcore::elf_image::parse_elf;
use rvcore::logging::{level_to_color_code, level_to_str, LogLevel};
use rvcore::kernel_mm::KernelLayout;
use rvcore::syscall::{SyscallType, SYSCALL_EXIT, SYSCALL_WRITE, SYSCALL_YIELD};
use rvcore::tcb::TaskStatus;
use rvcore::trap::{ExceptionKind, InterruptKind, Kernel, TrapCause, TrapOutcome, trap_handler};
use rvcore::trap_context::{REG_A0, REG_A1, REG_A2, REG_A7};

fn write_le(b: &mut Vec<u8>, off: usize, n: usize, v: u64) {
    let mut x = v;
    for i in 0..n {
        b[off + i] = (x & 0xff) as u8;
        x >>= 8;
    }
}

fn make_elf(entry: u64, vaddr: u64, file_bytes: &[u8], memsz: u64) -> Vec<u8> {
    let data_off: usize = 64 + 56;
    let mut b = vec![0u8; data_off];
    b[0] = 0x7f;
    b[1] = b'E';
    b[2] = b'L';
    b[3] = b'F';
    b[4] = 2;
    b[5] = 1;
    write_le(&mut b, 24, 8, entry);
    write_le(&mut b, 32, 8, 64);
    write_le(&mut b, 54, 2, 56);
    write_le(&mut b, 56, 2, 1);
    write_le(&mut b, 64, 4, 1);
    write_le(&mut b, 64 + 4, 4, 7);
    write_le(&mut b, 64 + 8, 8, data_off as u64);
    write_le(&mut b, 64 + 16, 8, vaddr);
    write_le(&mut b, 64 + 32, 8, file_bytes.len() as u64);
    write_le(&mut b, 64 + 40, 8, memsz);
    b.extend_from_slice(file_bytes);
    b
}

fn test_layout() -> KernelLayout {
    KernelLayout {
        stext: 0x1000,
        etext: 0x2000,
        srodata: 0x2000,
        erodata: 0x3000,
        sdata: 0x3000,
        edata: 0x4000,
        sbss: 0x4000,
        ebss: 0x5000,
        ekernel: 0x5000,
        mem_end: 0x5000 + 1024 * PAGE_SIZE_BYTES,
        strampoline: 0x1000,
    }
}

fn boot_with(images: Vec<Vec<u8>>) -> Kernel {
    let layout = test_layout();
    let dt = DeviceTree::new(vec![(0, layout.mem_end)]);
    Kernel::boot(&dt, &layout, &images).unwrap()
}

fn set_current_syscall(k: &mut Kernel, id: u64, a0: u64, a1: u64, a2: u64) {
    let cur = k.tasks.current_id as usize;
    let tcb = k.tasks.control_blocks[cur].as_mut().unwrap();
    tcb.trap_cx.x[REG_A7] = id;
    tcb.trap_cx.x[REG_A0] = a0;
    tcb.trap_cx.x[REG_A1] = a1;
    tcb.trap_cx.x[REG_A2] = a2;
}

fn current_a0(k: &Kernel) -> u64 {
    let cur = k.tasks.current_id as usize;
    k.tasks.control_blocks[cur].as_ref().unwrap().trap_cx.x[REG_A0]
}

#[test]
fn boot_builds_one_ready_task_per_image() {
    let k = boot_with(vec![
        make_elf(0x10000, 0x10000, b"a", 0x1000),
        make_elf(0x10000, 0x10000, b"b", 0x1000),
    ]);
    assert_eq!(k.tasks.num, 2);
    for i in 0..2 {
        let tcb = k.tasks.control_blocks[i].as_ref().unwrap();
        assert_eq!(tcb.status(), TaskStatus::Ready);
        assert_eq!(tcb.trap_cx.sepc, 0x10000);
    }
}

#[test]
fn scheduler_selects_first_ready_in_ascending_order() {
    let mut k = boot_with(vec![
        make_elf(0x10000, 0x10000, b"a", 0x1000),
        make_elf(0x10000, 0x10000, b"b", 0x1000),
        make_elf(0x10000, 0x10000, b"c", 0x1000),
    ]);
    // run task 0, then let it exit
    assert_eq!(k.tasks.run_next_app(), Some(0));
    k.tasks.set_exit();
    // with {0: Exited, 1: Ready, 2: Ready} the next pick is 1, not 2
    assert_eq!(k.tasks.run_next_app(), Some(1));
    k.tasks.set_exit();
    assert_eq!(k.tasks.run_next_app(), Some(2));
    k.tasks.set_exit();
    // nothing Ready is left: the machine shuts down instead of re-running 0
    assert_eq!(k.tasks.run_next_app(), None);
}

#[test]
fn write_to_console_emits_exactly_the_buffer() {
    // place "hi" at the start of the task's loaded segment
    let mut k = boot_with(vec![make_elf(0x10000, 0x10000, b"hi", 0x1000)]);
    assert_eq!(k.tasks.run_next_app(), Some(0));
    set_current_syscall(&mut k, SYSCALL_WRITE, 1, 0x10000, 2);
    let (outcome, console) = trap_handler(
        &mut k,
        TrapCause::Exception(ExceptionKind::UserEnvCall),
        0,
        0,
    );
    assert_eq!(outcome, TrapOutcome::RunNext(0));
    assert_eq!(console, b"hi".to_vec());
    assert_eq!(current_a0(&k), 2);
}

#[test]
fn write_to_bad_descriptor_emits_nothing_and_returns_minus_one() {
    let mut k = boot_with(vec![make_elf(0x10000, 0x10000, b"hi", 0x1000)]);
    assert_eq!(k.tasks.run_next_app(), Some(0));
    set_current_syscall(&mut k, SYSCALL_WRITE, 99, 0x10000, 2);
    let (outcome, console) = trap_handler(
        &mut k,
        TrapCause::Exception(ExceptionKind::UserEnvCall),
        0,
        0,
    );
    assert_eq!(outcome, TrapOutcome::RunNext(0));
    assert!(console.is_empty());
    assert_eq!(current_a0(&k) as i64, -1);
}

#[test]
fn write_of_unmapped_buffer_returns_minus_one() {
    let mut k = boot_with(vec![make_elf(0x10000, 0x10000, b"hi", 0x1000)]);
    assert_eq!(k.tasks.run_next_app(), Some(0));
    set_current_syscall(&mut k, SYSCALL_WRITE, 1, 0x9000_0000, 2);
    let (_, console) = trap_handler(
        &mut k,
        TrapCause::Exception(ExceptionKind::UserEnvCall),
        0,
        0,
    );
    assert!(console.is_empty());
    assert_eq!(current_a0(&k) as i64, -1);
}

#[test]
fn write_of_invalid_utf8_returns_minus_one() {
    let mut k = boot_with(vec![make_elf(0x10000, 0x10000, &[0xFF, 0xFE], 0x1000)]);
    assert_eq!(k.tasks.run_next_app(), Some(0));
    set_current_syscall(&mut k, SYSCALL_WRITE, 1, 0x10000, 2);
    let (_, console) = trap_handler(
        &mut k,
        TrapCause::Exception(ExceptionKind::UserEnvCall),
        0,
        0,
    );
    assert!(console.is_empty());
    assert_eq!(current_a0(&k) as i64, -1);
}

#[test]
fn unknown_syscall_id_returns_minus_one() {
    let mut k = boot_with(vec![make_elf(0x10000, 0x10000, b"a", 0x1000)]);
    assert_eq!(k.tasks.run_next_app(), Some(0));
    set_current_syscall(&mut k, 999, 0, 0, 0);
    let (outcome, console) = trap_handler(
        &mut k,
        TrapCause::Exception(ExceptionKind::UserEnvCall),
        0,
        0,
    );
    assert_eq!(outcome, TrapOutcome::RunNext(0));
    assert!(console.is_empty());
    assert_eq!(current_a0(&k) as i64, -1);
}

#[test]
fn get_time_returns_the_clock_value() {
    let mut k = boot_with(vec![make_elf(0x10000, 0x10000, b"a", 0x1000)]);
    assert_eq!(k.tasks.run_next_app(), Some(0));
    set_current_syscall(&mut k, rvcore::syscall::SYSCALL_GET_TIME, 0, 0, 0);
    let (_, _) = trap_handler(
        &mut k,
        TrapCause::Exception(ExceptionKind::UserEnvCall),
        0,
        123456,
    );
    assert_eq!(current_a0(&k), 123456);
}

#[test]
fn exit_syscall_terminates_the_task_and_schedules_the_next() {
    let mut k = boot_with(vec![
        make_elf(0x10000, 0x10000, b"a", 0x1000),
        make_elf(0x10000, 0x10000, b"b", 0x1000),
    ]);
    assert_eq!(k.tasks.run_next_app(), Some(0));
    set_current_syscall(&mut k, SYSCALL_EXIT, 0, 0, 0);
    let (outcome, _) = trap_handler(
        &mut k,
        TrapCause::Exception(ExceptionKind::UserEnvCall),
        0,
        0,
    );
    assert_eq!(outcome, TrapOutcome::RunNext(1));
    assert_eq!(
        k.tasks.control_blocks[0].as_ref().unwrap().status(),
        TaskStatus::Exited
    );
}

#[test]
fn yield_keeps_the_task_ready_and_reschedules() {
    let mut k = boot_with(vec![make_elf(0x10000, 0x10000, b"a", 0x1000)]);
    assert_eq!(k.tasks.run_next_app(), Some(0));
    set_current_syscall(&mut k, SYSCALL_YIELD, 0, 0, 0);
    let (outcome, _) = trap_handler(
        &mut k,
        TrapCause::Exception(ExceptionKind::UserEnvCall),
        0,
        0,
    );
    // the only task yields and is immediately selected again
    assert_eq!(outcome, TrapOutcome::RunNext(0));
    assert_eq!(
        k.tasks.control_blocks[0].as_ref().unwrap().status(),
        TaskStatus::Running
    );
}

#[test]
fn timer_tick_preempts_and_reschedules() {
    let mut k = boot_with(vec![
        make_elf(0x10000, 0x10000, b"a", 0x1000),
        make_elf(0x10000, 0x10000, b"b", 0x1000),
    ]);
    assert_eq!(k.tasks.run_next_app(), Some(0));
    let (outcome, console) = trap_handler(
        &mut k,
        TrapCause::Interrupt(InterruptKind::SupervisorTimer),
        0,
        0,
    );
    // ascending order: the preempted task 0 is Ready again and selected first
    assert_eq!(outcome, TrapOutcome::RunNext(0));
    assert!(console.is_empty());
}

#[test]
fn fault_kills_only_the_offending_task() {
    let mut k = boot_with(vec![
        make_elf(0x10000, 0x10000, b"a", 0x1000),
        make_elf(0x10000, 0x10000, b"hi", 0x1000),
    ]);
    assert_eq!(k.tasks.run_next_app(), Some(0));
    // the running task dereferences an unmapped address
    let (outcome, _) = trap_handler(
        &mut k,
        TrapCause::Exception(ExceptionKind::StorePageFault),
        0,
        0,
    );
    // the kernel does not halt: the next Ready task runs
    assert_eq!(outcome, TrapOutcome::RunNext(1));
    assert_eq!(
        k.tasks.control_blocks[0].as_ref().unwrap().status(),
        TaskStatus::Exited
    );
    // and that task still completes its work
    set_current_syscall(&mut k, SYSCALL_WRITE, 1, 0x10000, 2);
    let (outcome2, console) = trap_handler(
        &mut k,
        TrapCause::Exception(ExceptionKind::UserEnvCall),
        0,
        0,
    );
    assert_eq!(outcome2, TrapOutcome::RunNext(1));
    assert_eq!(console, b"hi".to_vec());
    set_current_syscall(&mut k, SYSCALL_EXIT, 0, 0, 0);
    let (outcome3, _) = trap_handler(
        &mut k,
        TrapCause::Exception(ExceptionKind::UserEnvCall),
        0,
        0,
    );
    assert_eq!(outcome3, TrapOutcome::Shutdown);
}

#[test]
fn unhandled_interrupts_are_fatal_but_breakpoints_resume() {
    let mut k = boot_with(vec![make_elf(0x10000, 0x10000, b"a", 0x1000)]);
    assert_eq!(k.tasks.run_next_app(), Some(0));
    // an interrupt the kernel does not handle cannot be attributed: fatal
    let (outcome, _) = trap_handler(&mut k, TrapCause::Interrupt(InterruptKind::Other), 0, 0);
    assert_eq!(outcome, TrapOutcome::KernelFault);
    // breakpoints and nested environment calls are not errors: the task
    // simply resumes, its state untouched
    for cause in [
        ExceptionKind::Breakpoint,
        ExceptionKind::SupervisorEnvCall,
        ExceptionKind::MachineEnvCall,
    ] {
        let (outcome2, console) = trap_handler(&mut k, TrapCause::Exception(cause), 0, 0);
        assert_eq!(outcome2, TrapOutcome::RunNext(0));
        assert!(console.is_empty());
    }
    assert_eq!(
        k.tasks.control_blocks[0].as_ref().unwrap().status(),
        TaskStatus::Running
    );
}

#[test]
fn syscall_numbers_map_to_services() {
    assert_eq!(SyscallType::from_number(64), Some(SyscallType::SysWrite));
    assert_eq!(SyscallType::from_number(93), Some(SyscallType::SysExit));
    assert_eq!(SyscallType::from_number(124), Some(SyscallType::SysYield));
    assert_eq!(SyscallType::from_number(169), Some(SyscallType::SysGetTime));
    assert_eq!(SyscallType::from_number(0), None);
    assert_eq!(SyscallType::from_number(1000), None);
}

#[test]
fn exception_reports_cover_the_task_fatal_causes() {
    assert_eq!(
        ExceptionKind::StorePageFault.try_get(),
        Ok("StorePageFault")
    );
    assert_eq!(
        ExceptionKind::IllegalInstruction.try_get(),
        Ok("IllegalInstruction")
    );
    assert_eq!(ExceptionKind::Breakpoint.try_get(), Err(()));
    assert_eq!(ExceptionKind::UserEnvCall.try_get(), Err(()));
    assert_eq!(ExceptionKind::SupervisorEnvCall.try_get(), Err(()));
}

#[test]
fn trap_context_page_sits_below_the_trampoline() {
    assert_eq!(rvcore::address::TRAP_CONTEXT, TRAMPOLINE - PAGE_SIZE_BYTES);
}

#[test]
fn exit_and_yield_services_drive_the_scheduler() {
    let mut k = boot_with(vec![
        make_elf(0x10000, 0x10000, b"a", 0x1000),
        make_elf(0x10000, 0x10000, b"b", 0x1000),
    ]);
    assert_eq!(k.tasks.run_next_app(), Some(0));
    // a voluntary yield comes straight back to the lowest Ready id
    assert_eq!(rvcore::syscall::sys_yield(&mut k.tasks), Some(0));
    // exiting hands the processor to the next task
    assert_eq!(rvcore::syscall::sys_exit(0, &mut k.tasks), Some(1));
    assert_eq!(
        k.tasks.control_blocks[0].as_ref().unwrap().status(),
        TaskStatus::Exited
    );
    // the last exit leaves nothing to run
    assert_eq!(rvcore::syscall::sys_exit(0, &mut k.tasks), None);
}

#[test]
fn clock_value_passes_through_get_time() {
    assert_eq!(rvcore::syscall::sys_get_time(0), 0);
    assert_eq!(rvcore::syscall::sys_get_time(987654321), 987654321);
}

#[test]
fn log_levels_map_to_colours_and_tags() {
    assert_eq!(level_to_color_code(LogLevel::Error), 91);
    assert_eq!(level_to_color_code(LogLevel::Warn), 93);
    assert_eq!(level_to_color_code(LogLevel::Info), 94);
    assert_eq!(level_to_color_code(LogLevel::Debug), 95);
    assert_eq!(level_to_color_code(LogLevel::Trace), 96);
    assert_eq!(level_to_str(LogLevel::Error), "E");
    assert_eq!(level_to_str(LogLevel::Trace), "T");
}

#[test]
fn elf_parser_reads_header_fields_exactly() {
    let elf = make_elf(0xABCD, 0x30000, b"xyz", 0x2000);
    let info = match parse_elf(&elf) {
        Ok(info) => info,
        Err(_) => panic!("well-formed image refused"),
    };
    assert_eq!(info.entry, 0xABCD);
    assert_eq!(info.segments.len(), 1);
    let seg = info.segments[0];
    assert_eq!(seg.p_type, 1);
    assert_eq!(seg.p_vaddr, 0x30000);
    assert_eq!(seg.p_filesz, 3);
    assert_eq!(seg.p_memsz, 0x2000);
    // a truncated image is refused
    assert!(parse_elf(&elf[..60]).is_err());
    // a file span past the image's end is refused
    let mut bad = make_elf(0xABCD, 0x30000, b"xyz", 0x2000);
    let len = bad.len();
    bad[64 + 32] = (len as u8) + 10;
    assert!(parse_elf(&bad).is_err());
}

#[test]
fn kernel_memory_manager_reports_identity_and_token() {
    let k = boot_with(vec![make_elf(0x10000, 0x10000, b"a", 0x1000)]);
    // addresses below the kernel image's end are identity-mapped
    assert!(k.kernel_mm.is_identical_address(0x4FFF));
    assert!(!k.kernel_mm.is_identical_address(0x5000));
    assert!(!k.kernel_mm.virtual_enabled());
    // the kernel token selects the paging mode above its root
    assert_eq!(k.kernel_mm.token(&k.phys) >> 60, 8);
    // a span inside the identity-mapped free area translates to itself
    let mut it = k
        .kernel_mm
        .translate_byte_buffer(0x6000, 8, &k.phys)
        .unwrap();
    let (pa, len) = it.next(&k.phys).unwrap();
    assert_eq!(pa.0, 0x6000);
    assert_eq!(len, 8);
}

#[test]
fn write_spanning_a_page_boundary_emits_every_byte() {
    // the last byte of the buffer lands exactly on a page boundary; the
    // write still emits and counts every byte
    let data = vec![b'a'; 0x1001];
    let mut k = boot_with(vec![make_elf(0x10000, 0x10000, &data, 0x2000)]);
    assert_eq!(k.tasks.run_next_app(), Some(0));
    set_current_syscall(&mut k, SYSCALL_WRITE, 1, 0x10FFE, 3);
    let (outcome, console) = trap_handler(
        &mut k,
        TrapCause::Exception(ExceptionKind::UserEnvCall),
        0,
        0,
    );
    assert_eq!(outcome, TrapOutcome::RunNext(0));
    assert_eq!(console, vec![b'a'; 3]);
    assert_eq!(current_a0(&k), 3);
}
