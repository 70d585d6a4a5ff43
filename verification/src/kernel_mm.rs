//! The kernel's own address space and its one-time construction.
//!
//! The kernel identity-maps its code, data and the free memory it allocates
//! frames from, maps the trampoline page, and later adds one kernel stack per
//! task below the trampoline. The linker-provided segment boundaries arrive
//! as a plain layout record.
use vstd::prelude::*;

use crate::address::{
    kernel_stack_position, PhysAddr, VirtAddr, KERNEL_STACK_SIZE, PAGE_SIZE_BYTES, PA_SPACE,
    TRAMPOLINE, VA_SPACE, VPN_SPACE,
};
use crate::dtb::DeviceTree;
use crate::frame_allocator::{FrameAllocator, StackFrameAllocator};
use crate::memory_structure::{
    lemma_fresh_nodes_step, set_owns_frame, MemoryArea, MemoryAreaPermissions, MemoryAreaType,
    MemorySet, MemoryStructureError, AddressIterator, PERM_R, PERM_W, PERM_X,
};
use crate::page_table::allocator_within;
use crate::phys_mem::PhysFrames;

verus! {

/// The linker- and firmware-provided boundaries of the kernel image and of
/// usable memory, all page-aligned.
pub struct KernelLayout {
    /// Start of the kernel's code.
    pub stext: u64,
    /// End of the code, start boundary of read-only data.
    pub etext: u64,
    /// Start of read-only data.
    pub srodata: u64,
    /// End of read-only data.
    pub erodata: u64,
    /// Start of initialised data.
    pub sdata: u64,
    /// End of initialised data.
    pub edata: u64,
    /// Start of zero-initialised data and boot stack.
    pub sbss: u64,
    /// End of zero-initialised data.
    pub ebss: u64,
    /// End of the kernel image: usable memory starts here.
    pub ekernel: u64,
    /// One past the last usable physical address.
    pub mem_end: u64,
    /// Physical address of the trap-transfer code page.
    pub strampoline: u64,
}

impl KernelLayout {
    /// Aligned, ordered, and inside the identity-mappable space.
    pub open spec fn wf(self) -> bool {
        &&& self.stext % PAGE_SIZE_BYTES == 0
        &&& self.etext % PAGE_SIZE_BYTES == 0
        &&& self.srodata % PAGE_SIZE_BYTES == 0
        &&& self.erodata % PAGE_SIZE_BYTES == 0
        &&& self.sdata % PAGE_SIZE_BYTES == 0
        &&& self.edata % PAGE_SIZE_BYTES == 0
        &&& self.sbss % PAGE_SIZE_BYTES == 0
        &&& self.ebss % PAGE_SIZE_BYTES == 0
        &&& self.ekernel % PAGE_SIZE_BYTES == 0
        &&& self.mem_end % PAGE_SIZE_BYTES == 0
        &&& 0 < self.stext < self.etext <= self.srodata < self.erodata <= self.sdata < self.edata
            <= self.sbss < self.ebss <= self.ekernel < self.mem_end
        &&& self.mem_end + PAGE_SIZE_BYTES <= VA_SPACE
        &&& self.strampoline < PA_SPACE
    }
}


/// Whether area `k` of the kernel set identity-maps `[s, e)` with the given
/// permissions.
pub open spec fn spec_kernel_area(set: MemorySet, k: int, s: u64, e: u64, perms: u8) -> bool {
    &&& 0 <= k < set.area_count()
    &&& set.area(k).vpn_start.0 == s / PAGE_SIZE_BYTES
    &&& set.area(k).vpn_end.0 == e / PAGE_SIZE_BYTES
    &&& set.area(k).map_type is Identical
    &&& set.area(k).map_permissions.0 == perms
}

/// Builds the kernel's address space: the trampoline page plus identity
/// mappings of code (read/execute), read-only data, data, zeroed data with
/// the boot stack, and the remaining usable memory (each read/write).
pub fn new_kernel_memory_set(l: &KernelLayout, a: &mut StackFrameAllocator, mem: &mut PhysFrames)
    -> (r: Result<MemorySet, MemoryStructureError>)
    requires
        l.wf(),
        old(a).wf(),
        allocator_within(*old(a), *old(mem)),
    ensures
        final(a).wf(),
        allocator_within(*final(a), *final(mem)),
        final(a).floor == old(a).floor,
        final(a).end == old(a).end,
        final(mem).base == old(mem).base,
        final(mem).len() == old(mem).len(),
        forall|q: int| old(a).live().contains(q) ==> final(a).live().contains(q),
        forall|q: int|
            old(mem).in_range(q) && old(a).live().contains(q) ==> final(mem).page(q) == old(mem).page(q),
        match r {
            Ok(set) => {
                &&& set.wf(*final(mem), *final(a))
                &&& forall|p: int|
                    set.page_table.nodes@.contains(p) ==> !old(a).live().contains(p)
                &&& forall|p: int| set_owns_frame(set, p) ==> !old(a).live().contains(p)
                &&& set.extra@ =~= Set::<int>::empty().insert(
                    (TRAMPOLINE % VA_SPACE) as int / PAGE_SIZE_BYTES as int,
                )
                // the five identity segments, in order: code, read-only
                // data, data, zeroed data with the boot stack, free memory
                &&& set.area_count() == 5
                &&& spec_kernel_area(set, 0, l.stext, l.etext, PERM_R | PERM_X)
                &&& spec_kernel_area(set, 1, l.srodata, l.erodata, PERM_R)
                &&& spec_kernel_area(set, 2, l.sdata, l.edata, PERM_R | PERM_W)
                &&& spec_kernel_area(set, 3, l.sbss, l.ebss, PERM_R | PERM_W)
                &&& spec_kernel_area(set, 4, l.ekernel, l.mem_end, PERM_R | PERM_W)
                // the trampoline page maps the trap-transfer code, R|X
                &&& set.page_table.mapped(*final(mem), VPN_SPACE as int - 1)
                &&& set.page_table.leaf(*final(mem), VPN_SPACE as int - 1).spec_ppn()
                    == l.strampoline as int / PAGE_SIZE_BYTES as int
                &&& set.page_table.leaf(*final(mem), VPN_SPACE as int - 1).spec_flags() == (
                crate::page_table::PTE_R | crate::page_table::PTE_X | crate::page_table::PTE_V)
            },
            Err(e) => {
                // the ordered, aligned layout cannot overlap itself, so a
                // refusal means the allocator ran dry
                &&& (e matches MemoryStructureError::OutOfMemory || e
                    matches MemoryStructureError::PageTableFailure(
                    crate::page_table::PageTableError::FrameUnavailable,
                ))
                &&& final(a).exhausted()
            },
        },
{
    let mut set = match MemorySet::new(a, mem) {
        Ok(set) => set,
        Err(e) => {
            return Err(e);
        },
    };
    match set.map_trampoline(PhysAddr(l.strampoline), a, mem) {
        Ok(()) => {
            proof {
                assert((TRAMPOLINE % VA_SPACE) as int / PAGE_SIZE_BYTES as int == VPN_SPACE as int
                    - 1);
            }
        },
        Err(e) => {
            return Err(MemoryStructureError::PageTableFailure(
                crate::page_table::PageTableError::FrameUnavailable,
            ));
        },
    }
    let ghost a_orig = *old(a);
    let ghost m_orig = *old(mem);
    let text = match MemoryArea::new(
        VirtAddr(l.stext),
        VirtAddr(l.etext),
        MemoryAreaType::Identical,
        MemoryAreaPermissions(PERM_R | PERM_X),
    ) {
        Ok(area) => area,
        Err(e) => {
            proof {
                lemma_aligned_area_vpns(l.stext, l.etext);
                lemma_aligned_nonempty(l.stext, l.etext);
                assert(false);
            }
            return Err(MemoryStructureError::OutOfMemory);
        },
    };
    let ghost tg0 = text;
    match push_kernel_area(&mut set, text, a, mem, Ghost(a_orig), Ghost(m_orig)) {
        Ok(()) => {
            proof {
                lemma_aligned_area_vpns(l.stext, l.etext);
                assert(spec_kernel_area(set, 0, l.stext, l.etext, PERM_R | PERM_X));
                lemma_end_below_trampoline(l.etext);
                assert(!tg0.holds_vpn(VPN_SPACE as int - 1));
                assert(set.page_table.mapped(*mem, VPN_SPACE as int - 1));
            }
        },
        Err(e) => {
            proof {
                if e is OverlappedMemoryArea {
                    assert(false);
                }
            }
            return Err(e);
        },
    }
    let rodata = match MemoryArea::new(
        VirtAddr(l.srodata),
        VirtAddr(l.erodata),
        MemoryAreaType::Identical,
        MemoryAreaPermissions(PERM_R),
    ) {
        Ok(area) => area,
        Err(e) => {
            proof {
                lemma_aligned_area_vpns(l.srodata, l.erodata);
                lemma_aligned_nonempty(l.srodata, l.erodata);
                assert(false);
            }
            return Err(MemoryStructureError::OutOfMemory);
        },
    };
    let ghost tg1 = rodata;
    match push_kernel_area(&mut set, rodata, a, mem, Ghost(a_orig), Ghost(m_orig)) {
        Ok(()) => {
            proof {
                lemma_aligned_area_vpns(l.srodata, l.erodata);
                assert(spec_kernel_area(set, 0, l.stext, l.etext, PERM_R | PERM_X));
                assert(spec_kernel_area(set, 1, l.srodata, l.erodata, PERM_R));
                lemma_end_below_trampoline(l.erodata);
                assert(!tg1.holds_vpn(VPN_SPACE as int - 1));
                assert(set.page_table.mapped(*mem, VPN_SPACE as int - 1));
            }
        },
        Err(e) => {
            proof {
                if e is OverlappedMemoryArea {
                    lemma_aligned_area_vpns(l.srodata, l.erodata);
                    vstd::arithmetic::div_mod::lemma_div_is_ordered(
                        l.etext as int,
                        l.srodata as int,
                        PAGE_SIZE_BYTES as int,
                    );
                    assert(false);
                }
            }
            return Err(e);
        },
    }
    let data = match MemoryArea::new(
        VirtAddr(l.sdata),
        VirtAddr(l.edata),
        MemoryAreaType::Identical,
        MemoryAreaPermissions(PERM_R | PERM_W),
    ) {
        Ok(area) => area,
        Err(e) => {
            proof {
                lemma_aligned_area_vpns(l.sdata, l.edata);
                lemma_aligned_nonempty(l.sdata, l.edata);
                assert(false);
            }
            return Err(MemoryStructureError::OutOfMemory);
        },
    };
    let ghost tg2 = data;
    match push_kernel_area(&mut set, data, a, mem, Ghost(a_orig), Ghost(m_orig)) {
        Ok(()) => {
            proof {
                lemma_aligned_area_vpns(l.sdata, l.edata);
                assert(spec_kernel_area(set, 0, l.stext, l.etext, PERM_R | PERM_X));
                assert(spec_kernel_area(set, 1, l.srodata, l.erodata, PERM_R));
                assert(spec_kernel_area(set, 2, l.sdata, l.edata, PERM_R | PERM_W));
                lemma_end_below_trampoline(l.edata);
                assert(!tg2.holds_vpn(VPN_SPACE as int - 1));
                assert(set.page_table.mapped(*mem, VPN_SPACE as int - 1));
            }
        },
        Err(e) => {
            proof {
                if e is OverlappedMemoryArea {
                    lemma_aligned_area_vpns(l.sdata, l.edata);
                    vstd::arithmetic::div_mod::lemma_div_is_ordered(
                        l.etext as int,
                        l.sdata as int,
                        PAGE_SIZE_BYTES as int,
                    );
                    vstd::arithmetic::div_mod::lemma_div_is_ordered(
                        l.erodata as int,
                        l.sdata as int,
                        PAGE_SIZE_BYTES as int,
                    );
                    assert(false);
                }
            }
            return Err(e);
        },
    }
    let bss = match MemoryArea::new(
        VirtAddr(l.sbss),
        VirtAddr(l.ebss),
        MemoryAreaType::Identical,
        MemoryAreaPermissions(PERM_R | PERM_W),
    ) {
        Ok(area) => area,
        Err(e) => {
            proof {
                lemma_aligned_area_vpns(l.sbss, l.ebss);
                lemma_aligned_nonempty(l.sbss, l.ebss);
                assert(false);
            }
            return Err(MemoryStructureError::OutOfMemory);
        },
    };
    let ghost tg3 = bss;
    match push_kernel_area(&mut set, bss, a, mem, Ghost(a_orig), Ghost(m_orig)) {
        Ok(()) => {
            proof {
                lemma_aligned_area_vpns(l.sbss, l.ebss);
                assert(spec_kernel_area(set, 0, l.stext, l.etext, PERM_R | PERM_X));
                assert(spec_kernel_area(set, 1, l.srodata, l.erodata, PERM_R));
                assert(spec_kernel_area(set, 2, l.sdata, l.edata, PERM_R | PERM_W));
                assert(spec_kernel_area(set, 3, l.sbss, l.ebss, PERM_R | PERM_W));
                lemma_end_below_trampoline(l.ebss);
                assert(!tg3.holds_vpn(VPN_SPACE as int - 1));
                assert(set.page_table.mapped(*mem, VPN_SPACE as int - 1));
            }
        },
        Err(e) => {
            proof {
                if e is OverlappedMemoryArea {
                    lemma_aligned_area_vpns(l.sbss, l.ebss);
                    vstd::arithmetic::div_mod::lemma_div_is_ordered(
                        l.etext as int,
                        l.sbss as int,
                        PAGE_SIZE_BYTES as int,
                    );
                    vstd::arithmetic::div_mod::lemma_div_is_ordered(
                        l.erodata as int,
                        l.sbss as int,
                        PAGE_SIZE_BYTES as int,
                    );
                    vstd::arithmetic::div_mod::lemma_div_is_ordered(
                        l.edata as int,
                        l.sbss as int,
                        PAGE_SIZE_BYTES as int,
                    );
                    assert(false);
                }
            }
            return Err(e);
        },
    }
    let rest = match MemoryArea::new(
        VirtAddr(l.ekernel),
        VirtAddr(l.mem_end),
        MemoryAreaType::Identical,
        MemoryAreaPermissions(PERM_R | PERM_W),
    ) {
        Ok(area) => area,
        Err(e) => {
            proof {
                lemma_aligned_area_vpns(l.ekernel, l.mem_end);
                lemma_aligned_nonempty(l.ekernel, l.mem_end);
                assert(false);
            }
            return Err(MemoryStructureError::OutOfMemory);
        },
    };
    let ghost tg4 = rest;
    match push_kernel_area(&mut set, rest, a, mem, Ghost(a_orig), Ghost(m_orig)) {
        Ok(()) => {
            proof {
                lemma_aligned_area_vpns(l.ekernel, l.mem_end);
                assert(spec_kernel_area(set, 0, l.stext, l.etext, PERM_R | PERM_X));
                assert(spec_kernel_area(set, 1, l.srodata, l.erodata, PERM_R));
                assert(spec_kernel_area(set, 2, l.sdata, l.edata, PERM_R | PERM_W));
                assert(spec_kernel_area(set, 3, l.sbss, l.ebss, PERM_R | PERM_W));
                assert(spec_kernel_area(set, 4, l.ekernel, l.mem_end, PERM_R | PERM_W));
                lemma_end_below_trampoline(l.mem_end);
                assert(!tg4.holds_vpn(VPN_SPACE as int - 1));
                assert(set.page_table.mapped(*mem, VPN_SPACE as int - 1));
            }
        },
        Err(e) => {
            proof {
                if e is OverlappedMemoryArea {
                    lemma_aligned_area_vpns(l.ekernel, l.mem_end);
                    vstd::arithmetic::div_mod::lemma_div_is_ordered(
                        l.etext as int,
                        l.ekernel as int,
                        PAGE_SIZE_BYTES as int,
                    );
                    vstd::arithmetic::div_mod::lemma_div_is_ordered(
                        l.erodata as int,
                        l.ekernel as int,
                        PAGE_SIZE_BYTES as int,
                    );
                    vstd::arithmetic::div_mod::lemma_div_is_ordered(
                        l.edata as int,
                        l.ekernel as int,
                        PAGE_SIZE_BYTES as int,
                    );
                    vstd::arithmetic::div_mod::lemma_div_is_ordered(
                        l.ebss as int,
                        l.ekernel as int,
                        PAGE_SIZE_BYTES as int,
                    );
                    assert(false);
                }
            }
            return Err(e);
        },
    }
    Ok(set)
}


/// An aligned, in-space boundary pair rounds to exactly its page indices.
proof fn lemma_aligned_area_vpns(sv: u64, ev: u64)
    requires
        sv % PAGE_SIZE_BYTES == 0,
        ev % PAGE_SIZE_BYTES == 0,
        0 < ev < VA_SPACE,
        sv < VA_SPACE,
    ensures
        (sv % VA_SPACE) as int / PAGE_SIZE_BYTES as int == sv as int / PAGE_SIZE_BYTES as int,
        ((ev - 1) + (PAGE_SIZE_BYTES as int - 1)) % (VA_SPACE as int) / (PAGE_SIZE_BYTES as int)
            == ev as int / PAGE_SIZE_BYTES as int,
{
    let p = PAGE_SIZE_BYTES as int;
    vstd::arithmetic::div_mod::lemma_small_mod(sv as nat, VA_SPACE as nat);
    vstd::arithmetic::div_mod::lemma_small_mod((ev - 1 + (PAGE_SIZE_BYTES - 1)) as nat, VA_SPACE as nat);
    let q = ev as int / p;
    vstd::arithmetic::div_mod::lemma_fundamental_div_mod(ev as int, p);
    vstd::arithmetic::div_mod::lemma_fundamental_div_mod_converse(
        ev as int + (p - 2),
        p,
        q,
        p - 2,
    );
}

/// Aligned, ordered boundaries round to a non-empty page range.
proof fn lemma_aligned_nonempty(sv: u64, ev: u64)
    requires
        sv % PAGE_SIZE_BYTES == 0,
        ev % PAGE_SIZE_BYTES == 0,
        sv < ev,
        ev < VA_SPACE,
    ensures
        (sv as int / PAGE_SIZE_BYTES as int) < (ev as int / PAGE_SIZE_BYTES as int),
{
    let p = PAGE_SIZE_BYTES as int;
    vstd::arithmetic::div_mod::lemma_fundamental_div_mod(ev as int, p);
    vstd::arithmetic::div_mod::lemma_fundamental_div_mod_converse(
        ev as int - p,
        p,
        ev as int / p - 1,
        0,
    );
    vstd::arithmetic::div_mod::lemma_div_is_ordered(sv as int, ev as int - p, p);
}

/// A boundary at least one page below the top of the space rounds to a page
/// index below the trampoline's.
proof fn lemma_end_below_trampoline(ev: u64)
    requires
        ev + PAGE_SIZE_BYTES <= VA_SPACE,
    ensures
        ev as int / PAGE_SIZE_BYTES as int <= VPN_SPACE as int - 1,
{
    vstd::arithmetic::div_mod::lemma_div_is_ordered(
        ev as int,
        VA_SPACE as int - PAGE_SIZE_BYTES as int,
        PAGE_SIZE_BYTES as int,
    );
    vstd::arithmetic::div_mod::lemma_fundamental_div_mod_converse(
        VA_SPACE as int - PAGE_SIZE_BYTES as int,
        PAGE_SIZE_BYTES as int,
        VPN_SPACE as int - 1,
        0,
    );
}

/// The invariant the kernel-space builder threads through its pushes: the
/// set is well formed, everything it owns is unknown to the boot-time
/// allocator state, the trampoline is the one extra mapping, and the pages
/// that state had handed out keep their images.
pub open spec fn kernel_build_inv(
    set: MemorySet,
    a: StackFrameAllocator,
    mem: PhysFrames,
    a_orig: StackFrameAllocator,
    m_orig: PhysFrames,
) -> bool {
    &&& set.wf(mem, a)
    &&& a.wf()
    &&& allocator_within(a, mem)
    &&& a.floor == a_orig.floor
    &&& a.end == a_orig.end
    &&& mem.base == m_orig.base
    &&& mem.len() == m_orig.len()
    &&& forall|q: int| a_orig.live().contains(q) ==> a.live().contains(q)
    &&& forall|p: int| set.page_table.nodes@.contains(p) ==> !a_orig.live().contains(p)
    &&& forall|p: int| set_owns_frame(set, p) ==> !a_orig.live().contains(p)
    &&& forall|q: int|
        m_orig.in_range(q) && a_orig.live().contains(q) ==> mem.page(q) == m_orig.page(q)
    &&& set.extra@ =~= Set::<int>::empty().insert(
        (TRAMPOLINE % VA_SPACE) as int / PAGE_SIZE_BYTES as int,
    )
}

/// Pushes one identity area of the kernel space, carrying the builder's
/// invariant across the push.
fn push_kernel_area(
    set: &mut MemorySet,
    area: MemoryArea,
    a: &mut StackFrameAllocator,
    mem: &mut PhysFrames,
    Ghost(a_orig): Ghost<StackFrameAllocator>,
    Ghost(m_orig): Ghost<PhysFrames>,
) -> (r: Result<(), MemoryStructureError>)
    requires
        kernel_build_inv(*old(set), *old(a), *old(mem), a_orig, m_orig),
        area.range_wf(),
        area.frames@.len() == 0,
        area.map_type is Identical,
        area.end() < VPN_SPACE,
    ensures
        final(a).wf(),
        allocator_within(*final(a), *final(mem)),
        final(a).floor == a_orig.floor,
        final(a).end == a_orig.end,
        final(mem).base == m_orig.base,
        final(mem).len() == m_orig.len(),
        forall|q: int| a_orig.live().contains(q) ==> final(a).live().contains(q),
        forall|q: int|
            m_orig.in_range(q) && a_orig.live().contains(q) ==> final(mem).page(q) == m_orig.page(
                q,
            ),
        match r {
            Ok(()) => kernel_build_inv(*final(set), *final(a), *final(mem), a_orig, m_orig)
                && final(set).area_count() == old(set).area_count() + 1 && (forall|j: int|
                0 <= j < old(set).area_count() ==> final(set).area(j) == old(set).area(j)) && ({
                let na = final(set).area(old(set).area_count());
                &&& na.vpn_start == area.vpn_start
                &&& na.vpn_end == area.vpn_end
                &&& na.map_type == area.map_type
                &&& na.map_permissions == area.map_permissions
            }) && (forall|w: int|
                0 <= w < VPN_SPACE && !area.holds_vpn(w) ==> final(set).page_table.mapped(
                    *final(mem),
                    w,
                ) == old(set).page_table.mapped(*old(mem), w)) && (forall|w: int|
                0 <= w < VPN_SPACE && !area.holds_vpn(w) && old(set).page_table.mapped(
                    *old(mem),
                    w,
                ) ==> final(set).page_table.leaf(*final(mem), w) == old(set).page_table.leaf(
                    *old(mem),
                    w,
                )),
            Err(e) => {
                // an overlap is reported as such, everything untouched; any
                // other failure means the allocator ran dry
                &&& (e matches MemoryStructureError::OutOfMemory || e
                    matches MemoryStructureError::PageTableFailure(
                    crate::page_table::PageTableError::FrameUnavailable,
                ) || e matches MemoryStructureError::OverlappedMemoryArea)
                &&& (e matches MemoryStructureError::OverlappedMemoryArea ==> (exists|i: int|
                    0 <= i < old(set).area_count() && (#[trigger] old(set).area(i)).spec_overlaps(
                        area,
                    )) && *final(set) == *old(set))
                &&& (!(e matches MemoryStructureError::OverlappedMemoryArea)
                    ==> final(a).exhausted())
            },
        },
{
    let ghost set_pre = *set;
    let ghost a_pre = *a;
    let ghost m_pre = *mem;
    let res = set.push(area, None, a, mem);
    proof {
        lemma_fresh_nodes_step(
            set_pre.page_table.nodes@,
            set.page_table.nodes@,
            a_orig,
            a_pre,
            m_orig,
            m_pre,
            *mem,
        );
        assert forall|p: int| set_owns_frame(*set, p) implies !a_orig.live().contains(p) by {
            let (i, kk) = choose|i: int, kk: int|
                0 <= i < set.area_count() && 0 <= kk < set.area(i).frames@.len()
                    && #[trigger] set.area(i).fppn(kk) == p;
            if i < set_pre.area_count() {
                assert(set.area(i) == set_pre.area(i));
                assert(set_owns_frame(set_pre, p)) by {
                    assert(set_pre.area(i).fppn(kk) == p);
                }
            } else {
                assert(!a_pre.live().contains(set.area(i).fppn(kk)));
            }
        }
    }
    match res {
        Ok(()) => {
            proof {
                assert forall|w: int| set.extra@.contains(w) implies Set::<int>::empty().insert(
                    (TRAMPOLINE % VA_SPACE) as int / PAGE_SIZE_BYTES as int,
                ).contains(w) by {
                    assert(set_pre.extra@.contains(w));
                }
                assert forall|w: int|
                    Set::<int>::empty().insert(
                        (TRAMPOLINE % VA_SPACE) as int / PAGE_SIZE_BYTES as int,
                    ).contains(w) implies set.extra@.contains(w) by {
                    assert(set_pre.extra@.contains(w));
                }
            }
            Ok(())
        },
        Err(MemoryStructureError::OverlappedMemoryArea) => Err(
            MemoryStructureError::OverlappedMemoryArea,
        ),
        Err(MemoryStructureError::OutOfMemory) => Err(MemoryStructureError::OutOfMemory),
        Err(_) => Err(
            MemoryStructureError::PageTableFailure(
                crate::page_table::PageTableError::FrameUnavailable,
            ),
        ),
    }
}


/// The kernel's address-space singleton: set once at boot, then grown by one
/// kernel stack per task.
pub struct KernelMemoryManager {
    /// The kernel's memory set, present once `init` has run.
    pub memory_set: Option<MemorySet>,
    /// Whether paging has been switched on; nothing sets this yet and it
    /// stays `false`.
    pub virtual_enabled: bool,
    /// End of the kernel image: everything below is identity-mapped.
    pub ekernel: u64,
    /// How many kernel-stack slots have been consumed, successfully or not:
    /// slot ids below this are never offered again.
    pub stacks_mapped: u64,
}

/// Most kernel stacks the space below the trampoline is laid out for.
pub const MAX_KERNEL_STACKS: u64 = 64;

/// Pages one kernel stack occupies.
pub const STACK_PAGES: u64 = 64;

/// First page number of stack slot `id`: the slots step down from the
/// trampoline, one guard page apart.
pub open spec fn spec_stack_bottom_vpn(id: int) -> int {
    VPN_SPACE as int - 1 - id * (STACK_PAGES as int + 1) - STACK_PAGES as int
}

impl KernelMemoryManager {
    /// The kernel set, once initialised.
    pub open spec fn kset(self) -> MemorySet {
        self.memory_set->Some_0
    }

    /// Initialised, with a well-formed kernel set whose one extra mapping is
    /// the trampoline.
    pub open spec fn wf(self, mem: PhysFrames, a: StackFrameAllocator) -> bool {
        &&& self.memory_set is Some
        &&& self.kset().wf(mem, a)
        &&& self.stacks_mapped <= MAX_KERNEL_STACKS
        // the pages mapped outside any area are the trampoline and, after a
        // failed stack installation, parts of already-consumed stack slots
        &&& forall|w: int|
            self.kset().extra@.contains(w) ==> w == VPN_SPACE - 1 || (self.stacks_mapped > 0
                && w >= spec_stack_bottom_vpn(self.stacks_mapped as int - 1))
    }

    /// A manager with no address space yet.
    pub fn new() -> (r: Self)
        ensures
            r.memory_set is None,
            r.virtual_enabled == false,
            r.stacks_mapped == 0,
    {
        KernelMemoryManager { memory_set: None, virtual_enabled: false, ekernel: 0, stacks_mapped: 0 }
    }

    /// Whether paging has been switched on.
    pub fn virtual_enabled(&self) -> (r: bool)
        ensures
            r == self.virtual_enabled,
    {
        self.virtual_enabled
    }

    /// Whether `address` lies in the identity-mapped kernel image.
    pub fn is_identical_address(&self, address: u64) -> (r: bool)
        ensures
            r == (address < self.ekernel),
    {
        address < self.ekernel
    }

    /// Builds and installs the kernel's address space.
    pub fn init(&mut self, l: &KernelLayout, a: &mut StackFrameAllocator, mem: &mut PhysFrames)
        -> (r: Result<(), MemoryStructureError>)
        requires
            old(self).memory_set is None,
            l.wf(),
            old(a).wf(),
            allocator_within(*old(a), *old(mem)),
        ensures
            final(a).wf(),
            allocator_within(*final(a), *final(mem)),
            final(a).floor == old(a).floor,
            final(a).end == old(a).end,
            final(mem).base == old(mem).base,
            final(mem).len() == old(mem).len(),
            forall|q: int| old(a).live().contains(q) ==> final(a).live().contains(q),
            forall|q: int|
                old(mem).in_range(q) && old(a).live().contains(q) ==> final(mem).page(q) == old(mem).page(q),
            match r {
                Ok(()) => {
                    &&& final(self).wf(*final(mem), *final(a))
                    &&& final(self).ekernel == l.ekernel
                    &&& final(self).stacks_mapped == 0
                    &&& final(self).virtual_enabled == old(self).virtual_enabled
                    &&& forall|p: int|
                        final(self).kset().page_table.nodes@.contains(p) ==> !old(a).live().contains(p)
                    &&& forall|p: int|
                        set_owns_frame(final(self).kset(), p) ==> !old(a).live().contains(p)
                    // the installed space holds exactly the five identity
                    // segments of the layout, plus the trampoline page
                    &&& final(self).kset().area_count() == 5
                    &&& spec_kernel_area(final(self).kset(), 0, l.stext, l.etext, PERM_R | PERM_X)
                    &&& spec_kernel_area(final(self).kset(), 1, l.srodata, l.erodata, PERM_R)
                    &&& spec_kernel_area(final(self).kset(), 2, l.sdata, l.edata, PERM_R | PERM_W)
                    &&& spec_kernel_area(final(self).kset(), 3, l.sbss, l.ebss, PERM_R | PERM_W)
                    &&& spec_kernel_area(
                        final(self).kset(),
                        4,
                        l.ekernel,
                        l.mem_end,
                        PERM_R | PERM_W,
                    )
                    &&& final(self).kset().extra@ =~= Set::<int>::empty().insert(
                        VPN_SPACE as int - 1,
                    )
                    &&& final(self).kset().page_table.mapped(*final(mem), VPN_SPACE as int - 1)
                    &&& final(self).kset().page_table.leaf(
                        *final(mem),
                        VPN_SPACE as int - 1,
                    ).spec_ppn() == l.strampoline as int / PAGE_SIZE_BYTES as int
                    &&& final(self).kset().page_table.leaf(
                        *final(mem),
                        VPN_SPACE as int - 1,
                    ).spec_flags() == (crate::page_table::PTE_R | crate::page_table::PTE_X
                        | crate::page_table::PTE_V)
                },
                Err(e) => {
                    // building the space fails only for want of frames
                    &&& (e matches MemoryStructureError::OutOfMemory || e
                        matches MemoryStructureError::PageTableFailure(
                        crate::page_table::PageTableError::FrameUnavailable,
                    ))
                    &&& final(a).exhausted()
                    &&& *final(self) == *old(self)
                },
            },
    {
        let set = match new_kernel_memory_set(l, a, mem) {
            Ok(set) => set,
            Err(e) => {
                return Err(e);
            },
        };
        proof {
            assert((TRAMPOLINE % VA_SPACE) as int / PAGE_SIZE_BYTES as int == VPN_SPACE as int
                - 1);
        }
        self.memory_set = Some(set);
        self.ekernel = l.ekernel;
        self.stacks_mapped = 0;
        Ok(())
    }

    /// The paging-register image of the kernel's address space.
    pub fn token(&self, mem: &PhysFrames) -> (r: u64)
        requires
            self.memory_set is Some,
            self.kset().page_table.wf(*mem),
        ensures
            r == 8 * 0x1000_0000_0000_0000u64 + self.kset().page_table.root_ppn.0,
    {
        match &self.memory_set {
            Some(set) => set.token(mem),
            None => 0,
        }
    }

    /// Translates a byte span of kernel virtual memory, bounds-checked
    /// against the area containing its start.
    pub fn translate_byte_buffer<'a>(&'a self, va: u64, len: u64, mem: &PhysFrames) -> (r: Result<
        AddressIterator<'a>,
        MemoryStructureError,
    >)
        requires
            self.memory_set is Some,
            self.kset().page_table.wf(*mem),
            forall|i: int|
                0 <= i < self.kset().area_count() ==> (#[trigger] self.kset().area(
                    i,
                )).range_wf(),
            va + len <= u64::MAX,
        ensures
            ({
                let w = (va % VA_SPACE) as int / PAGE_SIZE_BYTES as int;
                match r {
                    Ok(it) => {
                        &&& exists|i: int|
                            0 <= i < self.kset().area_count() && (#[trigger] self.kset().area(
                                i,
                            )).holds_vpn(w) && va + len <= self.kset().area(i).end() * (
                            PAGE_SIZE_BYTES as int)
                        &&& it.start_va.0 == va
                        &&& it.end_va.0 == va + len
                        &&& it.page_table == &self.kset().page_table
                    },
                    Err(MemoryStructureError::CrossMemoryAreaNotAllowed) => exists|i: int|
                        0 <= i < self.kset().area_count() && (#[trigger] self.kset().area(
                            i,
                        )).holds_vpn(w) && va + len > self.kset().area(i).end() * (
                        PAGE_SIZE_BYTES as int),
                    Err(MemoryStructureError::PageTableFailure(
                        crate::page_table::PageTableError::NoMapExists(_),
                    )) => !self.kset().in_some_area(w),
                    Err(_) => false,
                }
            }),
    {
        match &self.memory_set {
            Some(set) => set.translate_byte_buffer(VirtAddr(va), len, mem),
            None => {
                proof {
                    assert(false);
                }
                Err(
                    MemoryStructureError::PageTableFailure(
                        crate::page_table::PageTableError::NoMapExists(
                            crate::address::VirtPageNumber(0),
                        ),
                    ),
                )
            },
        }
    }

    /// Maps the kernel stack of slot `id`, a frame-backed read/write area
    /// just below the trampoline with one guard page per earlier slot. The
    /// slot is consumed either way: on failure its partly installed range is
    /// absorbed and never offered again, so the space stays well formed.
    #[verifier::rlimit(100)]
    pub fn map_stack_for_process_syscall(
        &mut self,
        id: u64,
        a: &mut StackFrameAllocator,
        mem: &mut PhysFrames,
    ) -> (r: Result<(), MemoryStructureError>)
        requires
            old(self).wf(*old(mem), *old(a)),
            old(a).wf(),
            allocator_within(*old(a), *old(mem)),
            old(self).stacks_mapped <= id < MAX_KERNEL_STACKS,
        ensures
            final(a).wf(),
            allocator_within(*final(a), *final(mem)),
            final(a).floor == old(a).floor,
            final(a).end == old(a).end,
            final(mem).base == old(mem).base,
            final(mem).len() == old(mem).len(),
            final(self).ekernel == old(self).ekernel,
            final(self).virtual_enabled == old(self).virtual_enabled,
            final(self).stacks_mapped == id + 1,
            final(self).wf(*final(mem), *final(a)),
            forall|q: int| old(a).live().contains(q) ==> final(a).live().contains(q),
            old(a).exhausted() ==> final(a).exhausted(),
            forall|q: int|
                old(mem).in_range(q) && old(a).live().contains(q) && !final(self).kset().page_table.nodes@.contains(q) ==> final(mem).page(q) == old(mem).page(q),
            forall|p: int|
                old(self).kset().page_table.nodes@.contains(p) ==> final(self).kset().page_table.nodes@.contains(p),
            forall|p: int|
                final(self).kset().page_table.nodes@.contains(p) ==> old(self).kset().page_table.nodes@.contains(p) || !old(a).live().contains(p),
            match r {
                Ok(()) => {
                    // the kernel space gained the slot's stack area
                    &&& final(self).kset().area_count() == old(self).kset().area_count() + 1
                    &&& forall|j: int|
                        0 <= j < old(self).kset().area_count() ==> final(self).kset().area(j)
                            == old(self).kset().area(j)
                    &&& ({
                        let na = final(self).kset().area(old(self).kset().area_count());
                        &&& na.vpn_start.0 == spec_stack_bottom_vpn(id as int)
                        &&& na.vpn_end.0 == spec_stack_bottom_vpn(id as int) + STACK_PAGES
                        &&& na.map_type is Framed
                        &&& na.map_permissions.0 == (PERM_R | PERM_W)
                    })
                },
                Err(e) => {
                    &&& (e matches MemoryStructureError::OutOfMemory || e
                        matches MemoryStructureError::PageTableFailure(
                        crate::page_table::PageTableError::FrameUnavailable,
                    ) || e matches MemoryStructureError::OverlappedMemoryArea)
                    // only a dry allocator or a layout that reaches the
                    // stack zone refuses a slot
                    &&& (e matches MemoryStructureError::OverlappedMemoryArea
                        ==> spec_stack_slot_conflict(old(self).kset(), id as int))
                    &&& (!(e matches MemoryStructureError::OverlappedMemoryArea) ==> final(a).exhausted())
                    &&& final(self).kset().areas@ == old(self).kset().areas@
                },
            },
    {
        let ghost pre = *self;
        let stack_range = kernel_stack_position(id);
        let area = match MemoryArea::new(
            stack_range.start,
            stack_range.end,
            MemoryAreaType::Framed,
            MemoryAreaPermissions(PERM_R | PERM_W),
        ) {
            Ok(area) => area,
            Err(e) => {
                proof {
                    lemma_stack_slot_arith(id as int);
                    assert(false);
                }
                return Err(e);
            },
        };
        proof {
            lemma_stack_slot_arith(id as int);
            assert(area.vpn_start.0 == spec_stack_bottom_vpn(id as int));
            assert(area.vpn_end.0 == spec_stack_bottom_vpn(id as int) + STACK_PAGES);
        }
        let ghost area_snapshot = area;
        let res = match &mut self.memory_set {
            Some(set) => set.push(area, None, a, mem),
            None => Err(MemoryStructureError::OutOfMemory),
        };
        self.stacks_mapped = id + 1;
        proof {
            // the consumed slot's pages all lie at or above its floor, so
            // the extra-page bound moves down with the slot counter
            assert forall|w: int| self.kset().extra@.contains(w) implies w == VPN_SPACE - 1 || (
            self.stacks_mapped > 0 && w >= spec_stack_bottom_vpn(
                self.stacks_mapped as int - 1,
            )) by {
                if !pre.kset().extra@.contains(w) {
                    assert(area_snapshot.holds_vpn(w));
                } else {
                    if w != VPN_SPACE - 1 {
                        assert(pre.stacks_mapped > 0);
                        assert(w >= spec_stack_bottom_vpn(pre.stacks_mapped as int - 1));
                    }
                }
            }
        }
        match res {
            Ok(()) => Ok(()),
            Err(e) => {
                proof {
                    match &e {
                        MemoryStructureError::OverlappedMemoryArea => {
                            let j = choose|j: int|
                                0 <= j < pre.kset().area_count() && (#[trigger] pre.kset().area(
                                    j,
                                )).spec_overlaps(area_snapshot);
                            assert(spec_stack_slot_conflict(pre.kset(), id as int));
                        },
                        _ => {},
                    }
                }
                Err(e)
            },
        }
    }
}

/// Whether an existing kernel area reaches into stack slot `id`'s range,
/// which makes the slot unusable.
pub open spec fn spec_stack_slot_conflict(kset: MemorySet, id: int) -> bool {
    exists|j: int|
        0 <= j < kset.area_count() && (#[trigger] kset.area(j)).start() <= spec_stack_bottom_vpn(
            id,
        ) + STACK_PAGES && spec_stack_bottom_vpn(id) < kset.area(j).end()
}

/// Arithmetic of stack slot `id`: the virtual range `kernel_stack_position`
/// assigns rounds to exactly the slot's page range below the trampoline.
proof fn lemma_stack_slot_arith(id: int)
    requires
        0 <= id < MAX_KERNEL_STACKS,
    ensures
        ({
            let top = TRAMPOLINE as int - id * (KERNEL_STACK_SIZE as int + PAGE_SIZE_BYTES as int);
            let bottom = top - KERNEL_STACK_SIZE as int;
            &&& (bottom % (VA_SPACE as int)) / (PAGE_SIZE_BYTES as int) == spec_stack_bottom_vpn(
                id,
            )
            &&& ((top - 1) + (PAGE_SIZE_BYTES as int - 1)) % (VA_SPACE as int) / (
            PAGE_SIZE_BYTES as int) == spec_stack_bottom_vpn(id) + STACK_PAGES as int
            &&& spec_stack_bottom_vpn(id) + STACK_PAGES < VPN_SPACE
            &&& 0 < spec_stack_bottom_vpn(id)
        }),
{
    let p = PAGE_SIZE_BYTES as int;
    let va = VA_SPACE as int;
    let top = TRAMPOLINE as int - id * (KERNEL_STACK_SIZE as int + p);
    let bottom = top - KERNEL_STACK_SIZE as int;
    let x = id * (KERNEL_STACK_SIZE as int + p);
    assert(0 <= x <= 63 * (KERNEL_STACK_SIZE as int + p)) by {
        vstd::arithmetic::mul::lemma_mul_inequality(id, 63, KERNEL_STACK_SIZE as int + p);
        vstd::arithmetic::mul::lemma_mul_nonnegative(id, KERNEL_STACK_SIZE as int + p);
    }
    let floor = spec_stack_bottom_vpn(id);
    assert(floor == VPN_SPACE - 1 - id * (STACK_PAGES as int + 1) - STACK_PAGES as int);
    assert(x == id * (STACK_PAGES as int + 1) * p) by (nonlinear_arith)
        requires
            x == id * (KERNEL_STACK_SIZE as int + p),
            KERNEL_STACK_SIZE as int == STACK_PAGES as int * p,
            p == PAGE_SIZE_BYTES as int,
    ;
    // bottom modulo the 39-bit space, then divided by the page size
    vstd::arithmetic::div_mod::lemma_fundamental_div_mod_converse(
        bottom,
        va,
        0x1FF_FFFF,
        va - p - x - KERNEL_STACK_SIZE as int,
    );
    assert(va - p - x - KERNEL_STACK_SIZE as int == floor * p) by (nonlinear_arith)
        requires
            x == id * (STACK_PAGES as int + 1) * p,
            floor == VPN_SPACE - 1 - id * (STACK_PAGES as int + 1) - STACK_PAGES as int,
            va == VPN_SPACE as int * p,
            p == PAGE_SIZE_BYTES as int,
            KERNEL_STACK_SIZE as int == STACK_PAGES as int * p,
    ;
    vstd::arithmetic::div_mod::lemma_fundamental_div_mod_converse(floor * p, p, floor, 0);
    // the exclusive end rounds to the slot floor plus the stack pages
    vstd::arithmetic::div_mod::lemma_fundamental_div_mod_converse(
        (top - 1) + (p - 1),
        va,
        0x1FF_FFFF,
        va - 2 - x,
    );
    assert(va - 2 - x == (floor + STACK_PAGES as int) * p + (p - 2)) by (nonlinear_arith)
        requires
            x == id * (STACK_PAGES as int + 1) * p,
            floor == VPN_SPACE - 1 - id * (STACK_PAGES as int + 1) - STACK_PAGES as int,
            va == VPN_SPACE as int * p,
            p == PAGE_SIZE_BYTES as int,
    ;
    vstd::arithmetic::div_mod::lemma_fundamental_div_mod_converse(
        (floor + STACK_PAGES as int) * p + (p - 2),
        p,
        floor + STACK_PAGES as int,
        p - 2,
    );
}

/// A multiple of `p` is divisible by `p`.
proof fn lemma_mul_mod_zero(x: int, y: int, p: int)
    requires
        0 < p,
        y % p == 0,
    ensures
        (x * y) % p == 0,
{
    let k = y / p;
    vstd::arithmetic::div_mod::lemma_fundamental_div_mod(y, p);
    assert(y == p * k);
    assert(x * (p * k) == (x * k) * p) by (nonlinear_arith);
    vstd::arithmetic::div_mod::lemma_mod_multiples_basic(x * k, p);
}



/// Boot-time memory initialisation: reads the usable-memory range the
/// hardware description reported (only the first range is consumed), builds
/// the frame arena and allocator over the memory above the kernel image,
/// and constructs the kernel's address space. On failure the drained
/// allocator comes back with the error: the pool over the usable pages ran
/// dry while building the kernel space.
pub fn init(device_tree: &DeviceTree, l: &KernelLayout) -> (r: Result<
    (StackFrameAllocator, PhysFrames, KernelMemoryManager),
    (StackFrameAllocator, MemoryStructureError),
>)
    requires
        l.wf(),
        device_tree.memory@.len() > 0,
        device_tree.memory@[0].1 == l.mem_end,
    ensures
        match r {
            Ok((a, mem, km)) => {
                &&& a.wf()
                &&& allocator_within(a, mem)
                &&& km.wf(mem, a)
                &&& km.ekernel == l.ekernel
                &&& km.stacks_mapped == 0
                // the allocator and arena cover exactly the usable pages
                // above the kernel image
                &&& a.floor == l.ekernel / PAGE_SIZE_BYTES
                &&& a.end == l.mem_end / PAGE_SIZE_BYTES
                &&& mem.base == l.ekernel / PAGE_SIZE_BYTES
                &&& mem.len() == l.mem_end / PAGE_SIZE_BYTES - l.ekernel / PAGE_SIZE_BYTES
                // the kernel set holds the five identity segments of the
                // layout plus the trampoline page
                &&& km.kset().area_count() == 5
                &&& spec_kernel_area(km.kset(), 0, l.stext, l.etext, PERM_R | PERM_X)
                &&& spec_kernel_area(km.kset(), 1, l.srodata, l.erodata, PERM_R)
                &&& spec_kernel_area(km.kset(), 2, l.sdata, l.edata, PERM_R | PERM_W)
                &&& spec_kernel_area(km.kset(), 3, l.sbss, l.ebss, PERM_R | PERM_W)
                &&& spec_kernel_area(km.kset(), 4, l.ekernel, l.mem_end, PERM_R | PERM_W)
                &&& km.kset().page_table.mapped(mem, VPN_SPACE as int - 1)
                &&& km.kset().page_table.leaf(mem, VPN_SPACE as int - 1).spec_ppn()
                    == l.strampoline as int / PAGE_SIZE_BYTES as int
                &&& km.kset().page_table.leaf(mem, VPN_SPACE as int - 1).spec_flags() == (
                crate::page_table::PTE_R | crate::page_table::PTE_X | crate::page_table::PTE_V)
            },
            Err((a, e)) => {
                &&& (e matches MemoryStructureError::OutOfMemory || e
                    matches MemoryStructureError::PageTableFailure(
                    crate::page_table::PageTableError::FrameUnavailable,
                ))
                &&& a.exhausted()
                &&& a.floor == l.ekernel / PAGE_SIZE_BYTES
                &&& a.end == l.mem_end / PAGE_SIZE_BYTES
            },
        },
{
    let (_region_start, region_end) = (device_tree.memory[0].0, device_tree.memory[0].1);
    let base_ppn = l.ekernel / PAGE_SIZE_BYTES;
    let end_ppn = region_end / PAGE_SIZE_BYTES;
    proof {
        vstd::arithmetic::div_mod::lemma_div_is_ordered(
            l.ekernel as int,
            region_end as int,
            PAGE_SIZE_BYTES as int,
        );
        vstd::arithmetic::div_mod::lemma_div_is_ordered(
            region_end as int,
            VA_SPACE as int,
            PAGE_SIZE_BYTES as int,
        );
    }
    let num_pages = (end_ppn - base_ppn) as usize;
    let mut mem = PhysFrames::new(base_ppn, num_pages);
    let mut a = StackFrameAllocator::new();
    a.init(
        crate::address::PhysPageNumber(base_ppn),
        crate::address::PhysPageNumber(end_ppn),
    );
    let mut km = KernelMemoryManager::new();
    match km.init(l, &mut a, &mut mem) {
        Ok(()) => Ok((a, mem, km)),
        Err(e) => Err((a, e)),
    }
}


} // verus!
