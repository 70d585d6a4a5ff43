//! Frame allocation, page-table round trips, area overlap and ELF loading.
use rvcore::address::{PhysAddr, PhysPageNumber, VirtAddr, VirtPageNumber};
use rvcore::frame_allocator::{FrameAllocator, StackFrameAllocator};
use rvcore::memory_structure::{
    new_elf_memory_set, MemoryArea, MemoryAreaPermissions, MemoryAreaType, MemorySet,
    MemoryStructureError, PERM_R, PERM_U, PERM_W,
};
use rvcore::page_table::{PTEFlags, PageTable, PageTableEntry, PageTableError, PTE_R, PTE_V, PTE_W};
use rvcore::phys_mem::PhysFrames;
use rvcore::syscall::{syscall, SyscallOutcome};

fn arena(base: u64, pages: usize) -> (StackFrameAllocator, PhysFrames) {
    let mem = PhysFrames::new(base, pages);
    let mut a = StackFrameAllocator::new();
    a.init(PhysPageNumber(base), PhysPageNumber(base + pages as u64));
    (a, mem)
}

fn write_le(b: &mut Vec<u8>, off: usize, n: usize, v: u64) {
    let mut x = v;
    for i in 0..n {
        b[off + i] = (x & 0xff) as u8;
        x >>= 8;
    }
}

fn make_elf(entry: u64, vaddr: u64, file_bytes: &[u8], memsz: u64) -> Vec<u8> {
    let data_off: usize = 64 + 56;
    let mut b = vec![0u8; data_off];
    b[0] = 0x7f;
    b[1] = b'E';
    b[2] = b'L';
    b[3] = b'F';
    b[4] = 2;
    b[5] = 1;
    write_le(&mut b, 24, 8, entry);
    write_le(&mut b, 32, 8, 64);
    write_le(&mut b, 54, 2, 56);
    write_le(&mut b, 56, 2, 1);
    write_le(&mut b, 64, 4, 1);
    write_le(&mut b, 64 + 4, 4, 7);
    write_le(&mut b, 64 + 8, 8, data_off as u64);
    write_le(&mut b, 64 + 16, 8, vaddr);
    write_le(&mut b, 64 + 32, 8, file_bytes.len() as u64);
    write_le(&mut b, 64 + 40, 8, memsz);
    b.extend_from_slice(file_bytes);
    b
}

#[test]
fn frame_alloc_returns_distinct_pages() {
    let (mut a, _mem) = arena(0x100, 8);
    let p1 = a.alloc_frame().unwrap();
    let p2 = a.alloc_frame().unwrap();
    let p3 = a.alloc_frame().unwrap();
    assert_ne!(p1.0, p2.0);
    assert_ne!(p2.0, p3.0);
    assert_ne!(p1.0, p3.0);
}

#[test]
fn frame_alloc_prefers_most_recently_freed() {
    let (mut a, _mem) = arena(0x100, 8);
    let p1 = a.alloc_frame().unwrap();
    let p2 = a.alloc_frame().unwrap();
    assert!(a.checked_dealloc(p1));
    assert!(a.checked_dealloc(p2));
    // stack discipline: the last page freed comes back first
    assert_eq!(a.alloc_frame().unwrap().0, p2.0);
    assert_eq!(a.alloc_frame().unwrap().0, p1.0);
}

#[test]
fn frame_dealloc_rejects_never_allocated_and_double_free() {
    let (mut a, _mem) = arena(0x100, 8);
    let p1 = a.alloc_frame().unwrap();
    // never handed out by the bump pointer
    assert!(!a.checked_dealloc(PhysPageNumber(0x105)));
    // outside the range entirely
    assert!(!a.checked_dealloc(PhysPageNumber(0x50)));
    assert!(a.checked_dealloc(p1));
    // already recycled
    assert!(!a.checked_dealloc(p1));
}

#[test]
fn frame_alloc_exhaustion_returns_nothing() {
    let (mut a, _mem) = arena(0x100, 2);
    assert!(a.alloc_frame().is_some());
    assert!(a.alloc_frame().is_some());
    assert!(a.alloc_frame().is_none());
}

#[test]
fn pte_packs_page_number_and_flags() {
    let e = PageTableEntry::new(PhysPageNumber(0x123), PTEFlags(PTE_V | PTE_R | PTE_W));
    assert_eq!(e.ppn().0, 0x123);
    assert_eq!(e.flags().0, PTE_V | PTE_R | PTE_W);
    assert!(e.is_valid());
    assert!(!PageTableEntry::empty().is_valid());
}

#[test]
fn map_then_translate_round_trip() {
    let (mut a, mut mem) = arena(0x100, 64);
    let mut pt = PageTable::new(&mut a, &mut mem).unwrap();
    let vpn = VirtPageNumber(0x42);
    let ppn = PhysPageNumber(0x77);
    let flags = PTEFlags(PTE_R | PTE_W);
    pt.map(vpn, ppn, flags, &mut a, &mut mem).unwrap();
    let entry = pt.translate(vpn, &mem).unwrap();
    assert_eq!(entry.ppn().0, 0x77);
    assert_eq!(entry.flags().0, PTE_R | PTE_W | PTE_V);
    assert!(entry.is_valid());
}

#[test]
fn unmap_then_translate_fails() {
    let (mut a, mut mem) = arena(0x100, 64);
    let mut pt = PageTable::new(&mut a, &mut mem).unwrap();
    let vpn = VirtPageNumber(0x42);
    pt.map(vpn, PhysPageNumber(0x77), PTEFlags(PTE_R), &mut a, &mut mem).unwrap();
    pt.unmap(vpn, &mut mem).unwrap();
    assert!(matches!(
        pt.translate(vpn, &mem),
        Err(PageTableError::NoMapExists(v)) if v.0 == 0x42
    ));
}

#[test]
fn double_map_is_refused() {
    let (mut a, mut mem) = arena(0x100, 64);
    let mut pt = PageTable::new(&mut a, &mut mem).unwrap();
    let vpn = VirtPageNumber(0x42);
    pt.map(vpn, PhysPageNumber(0x77), PTEFlags(PTE_R), &mut a, &mut mem).unwrap();
    assert!(matches!(
        pt.map(vpn, PhysPageNumber(0x78), PTEFlags(PTE_R), &mut a, &mut mem),
        Err(PageTableError::MapAlreadyExists(v)) if v.0 == 0x42
    ));
    // the first mapping is untouched
    assert_eq!(pt.translate(vpn, &mem).unwrap().ppn().0, 0x77);
}

#[test]
fn unmap_of_absent_mapping_is_refused() {
    let (mut a, mut mem) = arena(0x100, 64);
    let mut pt = PageTable::new(&mut a, &mut mem).unwrap();
    assert!(matches!(
        pt.unmap(VirtPageNumber(0x9), &mut mem),
        Err(PageTableError::NoMapExists(_))
    ));
}

#[test]
fn area_rejects_empty_and_inverted_ranges() {
    assert!(matches!(
        MemoryArea::new(
            VirtAddr(0x3000),
            VirtAddr(0),
            MemoryAreaType::Framed,
            MemoryAreaPermissions(PERM_R)
        ),
        Err(MemoryStructureError::InvalidMemoryArea(_, _))
    ));
    assert!(matches!(
        MemoryArea::new(
            VirtAddr(0x5000),
            VirtAddr(0x3000),
            MemoryAreaType::Framed,
            MemoryAreaPermissions(PERM_R)
        ),
        Err(MemoryStructureError::InvalidMemoryArea(_, _))
    ));
}

#[test]
fn push_rejects_overlap_and_leaves_set_unchanged() {
    let (mut a, mut mem) = arena(0x100, 128);
    let mut set = MemorySet::new(&mut a, &mut mem).unwrap();
    let first = MemoryArea::new(
        VirtAddr(0x1000),
        VirtAddr(0x5000),
        MemoryAreaType::Framed,
        MemoryAreaPermissions(PERM_R | PERM_W),
    )
    .unwrap();
    set.push(first, None, &mut a, &mut mem).unwrap();
    assert_eq!(set.areas.len(), 1);
    let overlapping = MemoryArea::new(
        VirtAddr(0x3000),
        VirtAddr(0x8000),
        MemoryAreaType::Framed,
        MemoryAreaPermissions(PERM_R),
    )
    .unwrap();
    assert!(matches!(
        set.push(overlapping, None, &mut a, &mut mem),
        Err(MemoryStructureError::OverlappedMemoryArea)
    ));
    assert_eq!(set.areas.len(), 1);
    // the first area's pages are still mapped as they were
    assert!(set.translate(VirtAddr(0x1000), &mem).is_ok());
}

#[test]
fn push_boundary_touch_below_is_rejected_above_is_accepted() {
    let (mut a, mut mem) = arena(0x100, 128);
    let mut set = MemorySet::new(&mut a, &mut mem).unwrap();
    let middle = MemoryArea::new(
        VirtAddr(0x4000),
        VirtAddr(0x6000),
        MemoryAreaType::Framed,
        MemoryAreaPermissions(PERM_R),
    )
    .unwrap();
    set.push(middle, None, &mut a, &mut mem).unwrap();
    // a new area ending exactly where the existing one begins is flagged
    let below = MemoryArea::new(
        VirtAddr(0x2000),
        VirtAddr(0x4000),
        MemoryAreaType::Framed,
        MemoryAreaPermissions(PERM_R),
    )
    .unwrap();
    assert!(matches!(
        set.push(below, None, &mut a, &mut mem),
        Err(MemoryStructureError::OverlappedMemoryArea)
    ));
    // a new area beginning exactly where the existing one ends is accepted
    let above = MemoryArea::new(
        VirtAddr(0x6000),
        VirtAddr(0x8000),
        MemoryAreaType::Framed,
        MemoryAreaPermissions(PERM_R),
    )
    .unwrap();
    assert!(set.push(above, None, &mut a, &mut mem).is_ok());
    assert_eq!(set.areas.len(), 2);
}

#[test]
fn push_rejects_data_longer_than_the_area() {
    let (mut a, mut mem) = arena(0x100, 128);
    let mut set = MemorySet::new(&mut a, &mut mem).unwrap();
    let one_page = MemoryArea::new(
        VirtAddr(0x1000),
        VirtAddr(0x2000),
        MemoryAreaType::Framed,
        MemoryAreaPermissions(PERM_R),
    )
    .unwrap();
    let too_long = vec![1u8; 5000];
    assert!(matches!(
        set.push(one_page, Some(&too_long), &mut a, &mut mem),
        Err(MemoryStructureError::DataTooLong)
    ));
}

#[test]
fn push_copies_data_and_zero_fills_the_tail() {
    let (mut a, mut mem) = arena(0x100, 128);
    let mut set = MemorySet::new(&mut a, &mut mem).unwrap();
    let area = MemoryArea::new(
        VirtAddr(0x1000),
        VirtAddr(0x3000),
        MemoryAreaType::Framed,
        MemoryAreaPermissions(PERM_R | PERM_W),
    )
    .unwrap();
    let data = vec![0xAB; 10];
    set.push(area, Some(&data), &mut a, &mut mem).unwrap();
    let ppn = set.translate(VirtAddr(0x1000), &mem).unwrap();
    let bytes = mem.read_bytes(ppn, 0, 16);
    assert_eq!(&bytes[..10], &data[..]);
    assert_eq!(&bytes[10..], &[0u8; 6]);
    // the second page is entirely zero
    let ppn2 = set.translate(VirtAddr(0x2000), &mem).unwrap();
    assert_eq!(mem.read_bytes(ppn2, 0, 4096), vec![0u8; 4096]);
}

#[test]
fn byte_buffer_is_bounds_checked_against_one_area() {
    let (mut a, mut mem) = arena(0x100, 128);
    let mut set = MemorySet::new(&mut a, &mut mem).unwrap();
    let area = MemoryArea::new(
        VirtAddr(0x1000),
        VirtAddr(0x3000),
        MemoryAreaType::Framed,
        MemoryAreaPermissions(PERM_R),
    )
    .unwrap();
    set.push(area, None, &mut a, &mut mem).unwrap();
    assert!(set.translate_byte_buffer(VirtAddr(0x1800), 0x800, &mem).is_ok());
    assert!(matches!(
        set.translate_byte_buffer(VirtAddr(0x2800), 0x1000, &mem),
        Err(MemoryStructureError::CrossMemoryAreaNotAllowed)
    ));
    assert!(matches!(
        set.translate_byte_buffer(VirtAddr(0x9000), 4, &mem),
        Err(MemoryStructureError::PageTableFailure(PageTableError::NoMapExists(_)))
    ));
}

#[test]
fn address_iterator_yields_per_page_runs() {
    let (mut a, mut mem) = arena(0x100, 128);
    let mut set = MemorySet::new(&mut a, &mut mem).unwrap();
    let area = MemoryArea::new(
        VirtAddr(0x1000),
        VirtAddr(0x4000),
        MemoryAreaType::Framed,
        MemoryAreaPermissions(PERM_R),
    )
    .unwrap();
    set.push(area, None, &mut a, &mut mem).unwrap();
    let mut it = set.translate_byte_buffer(VirtAddr(0x1F00), 0x300, &mem).unwrap();
    let (pa1, l1) = it.next(&mem).unwrap();
    let (pa2, l2) = it.next(&mem).unwrap();
    assert!(it.next(&mem).is_none());
    // first run: up to the page boundary; second: the rest
    assert_eq!(l1, 0x100);
    assert_eq!(l2, 0x200);
    assert_eq!(pa1.0 % 4096, 0xF00);
    assert_eq!(pa2.0 % 4096, 0);
}

#[test]
fn elf_load_copies_file_bytes_and_zero_fills() {
    let (mut a, mut mem) = arena(0x100, 256);
    let file = b"hello";
    let elf = make_elf(0x10000, 0x10000, file, 0x1800);
    let (set, usp, entry) =
        new_elf_memory_set(0, &elf, PhysAddr(0x1000), &mut a, &mut mem).unwrap();
    assert_eq!(entry, 0x10000);
    // bytes [0, F) are the file's, [F, M) are zero
    let ppn = set.translate(VirtAddr(0x10000), &mem).unwrap();
    let page = mem.read_bytes(ppn, 0, 4096);
    assert_eq!(&page[..5], b"hello");
    assert!(page[5..].iter().all(|&b| b == 0));
    let ppn2 = set.translate(VirtAddr(0x11000), &mem).unwrap();
    assert!(mem.read_bytes(ppn2, 0, 4096).iter().all(|&b| b == 0));
    // the user stack sits above the highest mapped page
    assert_eq!(usp, 0x12000 + rvcore::address::USER_STACK_SIZE);
    // the trap-context page is mapped at its reserved address
    assert!(set.translate(VirtAddr(rvcore::address::TRAP_CONTEXT), &mem).is_ok());
}

#[test]
fn elf_with_bad_magic_is_refused() {
    let (mut a, mut mem) = arena(0x100, 64);
    let mut elf = make_elf(0x10000, 0x10000, b"hi", 0x1000);
    elf[1] = b'X';
    assert!(matches!(
        new_elf_memory_set(0, &elf, PhysAddr(0x1000), &mut a, &mut mem),
        Err(MemoryStructureError::BadElf)
    ));
}

#[test]
fn address_conversions_follow_the_page_arithmetic() {
    assert_eq!(VirtAddr(0x12345).vpn().0, 0x12);
    assert_eq!(VirtAddr(0x12345).next_vpn().0, 0x13);
    assert_eq!(VirtAddr(0x12000).next_vpn().0, 0x12);
    assert_eq!(PhysAddr(0x5678).ppn().0, 0x5);
    assert_eq!(PhysPageNumber(0x5).start_addr().0, 0x5000);
    assert_eq!(PhysPageNumber(0x5).end_addr().0, 0x5FFF);
    assert_eq!(VirtPageNumber(0x5).start_addr().0, 0x5000);
    assert_eq!(VirtPageNumber(0x5).end_addr().0, 0x6000);
    let idx = VirtPageNumber((3 << 18) | (5 << 9) | 7).indexes();
    assert_eq!(idx, [3, 5, 7]);
}

#[test]
fn kernel_stack_positions_step_down_with_a_guard_page() {
    let r0 = rvcore::address::kernel_stack_position(0);
    let r1 = rvcore::address::kernel_stack_position(1);
    assert_eq!(r0.end.0, rvcore::address::TRAMPOLINE);
    assert_eq!(r0.end.0 - r0.start.0, rvcore::address::KERNEL_STACK_SIZE);
    assert_eq!(
        r0.start.0 - r1.end.0,
        rvcore::address::PAGE_SIZE_BYTES
    );
}

#[test]
fn token_encodes_the_paging_mode_and_root() {
    let (mut a, mut mem) = arena(0x100, 64);
    let pt = PageTable::new(&mut a, &mut mem).unwrap();
    let token = pt.token();
    assert_eq!(token >> 60, 8);
    assert_eq!(token & 0xFFF_FFFF_FFFF, pt.root_ppn());
    let reread = PageTable::from_token(token);
    assert_eq!(reread.root_ppn(), pt.root_ppn());
}

#[test]
fn area_unmap_clears_mappings_and_recycles_frames() {
    let (mut a, mut mem) = arena(0x100, 64);
    let mut pt = PageTable::new(&mut a, &mut mem).unwrap();
    let mut area = MemoryArea::new(
        VirtAddr(0x1000),
        VirtAddr(0x3000),
        MemoryAreaType::Framed,
        MemoryAreaPermissions(PERM_R | PERM_W),
    )
    .unwrap();
    area.map(&mut pt, &mut a, &mut mem).unwrap();
    assert!(pt.translate(VirtPageNumber(1), &mem).is_ok());
    let owned = area.frames[0].ppn();
    area.unmap(&mut pt, &mut a, &mut mem).unwrap();
    assert!(pt.translate(VirtPageNumber(1), &mem).is_err());
    assert!(pt.translate(VirtPageNumber(2), &mem).is_err());
    // the returned frame is free again: it cannot be returned twice
    assert!(!a.checked_dealloc(owned));
}

#[test]
fn address_iterator_counts_remaining_pages() {
    let (mut a, mut mem) = arena(0x100, 64);
    let pt = PageTable::new(&mut a, &mut mem).unwrap();
    let it = rvcore::memory_structure::AddressIterator::new(
        VirtAddr(0x1F00),
        VirtAddr(0x2200),
        &pt,
    );
    assert_eq!(it.len(), 2);
}

#[test]
fn whole_span_reads_back_through_the_token() {
    let (mut a, mut mem) = arena(0x100, 128);
    let mut set = MemorySet::new(&mut a, &mut mem).unwrap();
    let area = MemoryArea::new(
        VirtAddr(0x1000),
        VirtAddr(0x3000),
        MemoryAreaType::Framed,
        MemoryAreaPermissions(PERM_R | PERM_W | PERM_U),
    )
    .unwrap();
    let data: Vec<u8> = (0..255).collect();
    set.push(area, Some(&data), &mut a, &mut mem).unwrap();
    let token = set.token(&mem);
    let chunks = PageTable::translate_byte_buffer(token, 0x1000, 255, &mem).unwrap();
    let flat: Vec<u8> = chunks.into_iter().flatten().collect();
    assert_eq!(flat, data);
    // a span crossing into unmapped pages is refused
    assert!(PageTable::translate_byte_buffer(token, 0x2800, 0x1000, &mem).is_err());
    // a zero-length read of address zero reports the wrap
    assert!(matches!(
        PageTable::translate_byte_buffer(token, 0, 0, &mem),
        Err(PageTableError::AddressOverflow)
    ));
}

#[test]
fn syscall_dispatcher_routes_by_id() {
    let (mut a, mut mem) = arena(0x100, 128);
    let mut set = MemorySet::new(&mut a, &mut mem).unwrap();
    let area = MemoryArea::new(
        VirtAddr(0x1000),
        VirtAddr(0x2000),
        MemoryAreaType::Framed,
        MemoryAreaPermissions(PERM_R | PERM_W | PERM_U),
    )
    .unwrap();
    set.push(area, Some(b"ok"), &mut a, &mut mem).unwrap();
    let token = set.token(&mem);
    let (out, console) = syscall(64, [1, 0x1000, 2], token, &mem, 0);
    assert_eq!(out, SyscallOutcome::Return(2));
    assert_eq!(console, b"ok".to_vec());
    let (out, console) = syscall(169, [0, 0, 0], token, &mem, 42);
    assert_eq!(out, SyscallOutcome::Return(42));
    assert!(console.is_empty());
    let (out, _) = syscall(93, [7, 0, 0], token, &mem, 0);
    assert_eq!(out, SyscallOutcome::Exit(7));
    let (out, _) = syscall(124, [0, 0, 0], token, &mem, 0);
    assert_eq!(out, SyscallOutcome::Yield);
    let (out, _) = syscall(7, [0, 0, 0], token, &mem, 0);
    assert_eq!(out, SyscallOutcome::Return(-1));
}

#[test]
fn map_trampoline_second_call_reports_already_mapped() {
    let (mut a, mut mem) = arena(0x100, 64);
    let mut set = MemorySet::new(&mut a, &mut mem).unwrap();
    set.map_trampoline(PhysAddr(0x1000), &mut a, &mut mem).unwrap();
    assert!(matches!(
        set.map_trampoline(PhysAddr(0x1000), &mut a, &mut mem),
        Err(MemoryStructureError::PageTableFailure(PageTableError::MapAlreadyExists(_)))
    ));
}

#[test]
fn span_ending_on_a_page_boundary_keeps_its_final_run() {
    let (mut a, mut mem) = arena(0x100, 128);
    let mut set = MemorySet::new(&mut a, &mut mem).unwrap();
    let area = MemoryArea::new(
        VirtAddr(0x1000),
        VirtAddr(0x3000),
        MemoryAreaType::Framed,
        MemoryAreaPermissions(PERM_R | PERM_W | PERM_U),
    )
    .unwrap();
    let data: Vec<u8> = vec![b'a'; 0x1001];
    set.push(area, Some(&data), &mut a, &mut mem).unwrap();
    let token = set.token(&mem);
    // three bytes whose last lands exactly on a page boundary: one run per
    // page touched, the final one-byte run included
    let chunks = PageTable::translate_byte_buffer(token, 0x1FFE, 3, &mem).unwrap();
    assert_eq!(chunks.len(), 2);
    let flat: Vec<u8> = chunks.into_iter().flatten().collect();
    assert_eq!(flat, vec![b'a'; 3]);
    // the console write emits and counts all three bytes
    let (out, console) = syscall(64, [1, 0x1FFE, 3], token, &mem, 0);
    assert_eq!(out, SyscallOutcome::Return(3));
    assert_eq!(console, vec![b'a'; 3]);
}
