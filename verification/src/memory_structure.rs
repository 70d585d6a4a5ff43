//! Memory areas and memory sets: the address-space layer above the page table.
//!
//! A memory area is one contiguous virtual page range with a mapping kind and
//! permissions; a memory set is the collection of non-overlapping areas plus
//! the page table they are mapped in. Area overlap is judged by one exact
//! half-open test, deliberately asymmetric: it also flags one of the two
//! boundary-touch cases, so adjoining areas must be inserted low before high.
use vstd::prelude::*;

use crate::address::{
    PhysAddr, PhysPageNumber, VirtAddr, VirtPageNumber, PAGE_SIZE_BYTES, PPN_SPACE, TRAMPOLINE,
    TRAP_CONTEXT, USER_STACK_SIZE, VA_SPACE, VPN_SPACE,
};
use crate::frame_allocator::{Frame, FrameAllocator, StackFrameAllocator};
use crate::page_table::{
    allocator_within, walk_wf, PTEFlags, PageTable, PageTableEntry, PageTableError, PTE_V,
};
use crate::phys_mem::PhysFrames;

verus! {

/// Readable permission bit of a memory area.
pub const PERM_R: u8 = 2;

/// Writable permission bit.
pub const PERM_W: u8 = 4;

/// Executable permission bit.
pub const PERM_X: u8 = 8;

/// User-accessible permission bit.
pub const PERM_U: u8 = 16;

/// Permission byte of a memory area; its bits coincide with the page-table
/// entry's R/W/X/U flags.
#[derive(Clone, Copy, PartialEq, Eq, Structural, Debug)]
pub struct MemoryAreaPermissions(pub u8);

impl MemoryAreaPermissions {
    /// Raw permission byte.
    pub fn bits(&self) -> (r: u8)
        ensures
            r == self.0,
    {
        self.0
    }

    /// The permissions of `self` and `other` together.
    pub fn union(&self, other: MemoryAreaPermissions) -> (r: MemoryAreaPermissions)
        ensures
            r.0 == self.0 | other.0,
    {
        MemoryAreaPermissions(self.0 | other.0)
    }
}

/// How an area's pages find their physical frames.
pub enum MemoryAreaType {
    /// Physical page number equals virtual page number.
    Identical,
    /// Every page is backed by a freshly allocated frame the area owns.
    Framed,
}

/// Failure of an address-space operation.
#[derive(Debug)]
pub enum MemoryStructureError {
    /// A page-table operation failed.
    PageTableFailure(PageTableError),
    /// The frame allocator is exhausted.
    OutOfMemory,
    /// The new area's page range overlaps an area already in the set.
    OverlappedMemoryArea,
    /// The area's page range is empty or inverted; carries the range.
    InvalidMemoryArea(VirtPageNumber, VirtPageNumber),
    /// The program image cannot be parsed.
    BadElf,
    /// Initial data spans more pages than the area owns frames for.
    DataTooLong,
    /// An address was not aligned as required.
    AddressNotAligned,
    /// A byte span leaves the area containing its start.
    CrossMemoryAreaNotAllowed,
}

/// A named, permissioned contiguous virtual page range.
pub struct MemoryArea {
    /// First page number of the range.
    pub vpn_start: VirtPageNumber,
    /// One past the last page number of the range.
    pub vpn_end: VirtPageNumber,
    /// Identity-mapped or frame-backed.
    pub map_type: MemoryAreaType,
    /// Permissions for every page of the range.
    pub map_permissions: MemoryAreaPermissions,
    /// The owned frames of a mapped Framed area; entry `i` backs page
    /// `vpn_start + i`.
    pub frames: Vec<Frame>,
}

impl MemoryArea {
    /// First page number as a mathematical integer.
    pub open spec fn start(self) -> int {
        self.vpn_start.0 as int
    }

    /// One past the last page number, as a mathematical integer.
    pub open spec fn end(self) -> int {
        self.vpn_end.0 as int
    }

    /// Whether `w` lies in the area's half-open page range.
    pub open spec fn holds_vpn(self, w: int) -> bool {
        self.start() <= w < self.end()
    }

    /// The exact overlap test, boundary-touch behaviour included: `other`
    /// ending exactly where `self` begins counts as overlap, the converse
    /// does not.
    pub open spec fn spec_overlaps(self, other: MemoryArea) -> bool {
        self.start() <= other.end() && other.start() < self.end()
    }

    /// A well-formed, non-empty range inside the 27-bit page-number space.
    pub open spec fn range_wf(self) -> bool {
        0 <= self.start() < self.end() <= VPN_SPACE
    }

    /// Creates an unmapped area covering `[start_va, end_va)` rounded to whole
    /// pages. Fails with `InvalidMemoryArea` exactly when the rounded page
    /// range is empty or inverted.
    pub fn new(
        start_va: VirtAddr,
        end_va: VirtAddr,
        map_type: MemoryAreaType,
        map_permissions: MemoryAreaPermissions,
    ) -> (r: Result<Self, MemoryStructureError>)
        requires
            end_va.0 == 0 || end_va.0 - 1 <= u64::MAX - (PAGE_SIZE_BYTES - 1),
        ensures
            match r {
                Ok(a) => {
                    &&& a.vpn_start.0 == (start_va.0 % VA_SPACE) / PAGE_SIZE_BYTES
                    &&& a.vpn_end.0 == (((end_va.0 - 1) + (PAGE_SIZE_BYTES - 1)) % (
                    VA_SPACE as int)) / (PAGE_SIZE_BYTES as int)
                    &&& end_va.0 != 0
                    &&& a.start() < a.end()
                    &&& a.range_wf()
                    &&& a.frames@.len() == 0
                    &&& a.map_type == map_type
                    &&& a.map_permissions == map_permissions
                },
                Err(MemoryStructureError::InvalidMemoryArea(s, e)) => {
                    end_va.0 == 0 || (s.0 == (start_va.0 % VA_SPACE) / PAGE_SIZE_BYTES && e.0 == ((
                    (end_va.0 - 1) + (PAGE_SIZE_BYTES - 1)) % (VA_SPACE as int)) / (
                    PAGE_SIZE_BYTES as int) && s.0 >= e.0)
                },
                Err(_) => false,
            },
    {
        let start_ppn = start_va.vpn();
        if end_va.0 == 0 {
            return Err(MemoryStructureError::InvalidMemoryArea(start_ppn, start_ppn));
        }
        let end_ppn = VirtAddr(end_va.0 - 1).next_vpn();
        if start_ppn.0 >= end_ppn.0 {
            return Err(MemoryStructureError::InvalidMemoryArea(start_ppn, end_ppn));
        }
        Ok(
            MemoryArea {
                vpn_start: start_ppn,
                vpn_end: end_ppn,
                map_type,
                map_permissions,
                frames: Vec::new(),
            },
        )
    }

    /// The overlap test between this area and `other`.
    pub fn has_overlap_with(&self, other: &MemoryArea) -> (r: bool)
        ensures
            r == self.spec_overlaps(*other),
    {
        self.vpn_start.0 <= other.vpn_end.0 && other.vpn_start.0 < self.vpn_end.0
    }
}


impl MemoryArea {
    /// The flag byte installed in this area's leaf entries.
    pub open spec fn leaf_flags(self) -> u8 {
        self.map_permissions.0 | PTE_V
    }

    /// Page number of frame `i` of the area.
    pub open spec fn fppn(self, i: int) -> int {
        self.frames@[i].ppn.0 as int
    }

    /// The physical page that backs area page `w` once the area is mapped.
    pub open spec fn backing(self, w: int) -> int {
        match self.map_type {
            MemoryAreaType::Identical => w,
            MemoryAreaType::Framed => self.fppn(w - self.start()),
        }
    }

    /// Whether the area owns physical page `q`.
    pub open spec fn owns_page(self, q: int) -> bool {
        self.map_type matches MemoryAreaType::Framed && exists|i: int|
            0 <= i < self.frames@.len() && #[trigger] self.fppn(i) == q
    }

    /// Frame bookkeeping of a mapped area: an Identical area owns no frames;
    /// a Framed area owns one distinct installed data page per range page,
    /// each live and none of them a page-table node of `nodes`.
    pub open spec fn frames_wf(
        self,
        mem: PhysFrames,
        a: StackFrameAllocator,
        nodes: Set<int>,
    ) -> bool {
        match self.map_type {
            MemoryAreaType::Identical => self.frames@.len() == 0,
            MemoryAreaType::Framed => {
                &&& self.frames@.len() == self.end() - self.start()
                &&& forall|i: int|
                    0 <= i < self.frames@.len() ==> mem.is_data(#[trigger] self.fppn(i))
                &&& forall|i: int|
                    0 <= i < self.frames@.len() ==> a.live().contains(#[trigger] self.fppn(i))
                &&& forall|i: int|
                    0 <= i < self.frames@.len() ==> !nodes.contains(#[trigger] self.fppn(i))
                &&& forall|i: int, j: int|
                    0 <= i < j < self.frames@.len() ==> self.fppn(i) != self.fppn(j)
            },
        }
    }

    /// The mapped view a well-placed area contributes: each of its pages is
    /// mapped to its backing page with the area's flags.
    pub open spec fn mapped_in(self, pt: PageTable, mem: PhysFrames) -> bool {
        forall|w: int|
            self.holds_vpn(w) ==> #[trigger] pt.mapped(mem, w) && pt.leaf(mem, w).spec_ppn()
                == self.backing(w) && pt.leaf(mem, w).spec_flags() == self.leaf_flags()
    }

    /// Structural bookkeeping shared by the mapping operations' outcomes.
    pub open spec fn map_step(
        pt0: PageTable,
        pt1: PageTable,
        a0: StackFrameAllocator,
        a1: StackFrameAllocator,
        m0: PhysFrames,
        m1: PhysFrames,
    ) -> bool {
        &&& pt1.root_ppn == pt0.root_ppn
        &&& pt1.wf(m1)
        &&& pt1.nodes_live(a1)
        &&& a1.wf()
        &&& allocator_within(a1, m1)
        &&& a1.floor == a0.floor
        &&& a1.end == a0.end
        &&& m1.base == m0.base
        &&& m1.len() == m0.len()
        &&& forall|p: int| pt0.nodes@.contains(p) ==> pt1.nodes@.contains(p)
        &&& forall|p: int| pt1.nodes@.contains(p) ==> pt0.nodes@.contains(p) || !a0.live().contains(p)
        &&& forall|q: int| a0.live().contains(q) ==> a1.live().contains(q)
        &&& forall|q: int|
            m0.in_range(q) && a0.live().contains(q) && !pt1.nodes@.contains(q) ==> m1.page(q)
                == m0.page(q)
    }

    /// Maps one page of the area: a Framed page gets a fresh zero-filled
    /// frame the area then owns; an Identical page maps to itself.
    fn map_one(
        &mut self,
        page_table: &mut PageTable,
        vpn: VirtPageNumber,
        a: &mut StackFrameAllocator,
        mem: &mut PhysFrames,
    ) -> (r: Result<(), MemoryStructureError>)
        requires
            vpn.0 < VPN_SPACE,
            old(page_table).wf(*old(mem)),
            old(page_table).nodes_live(*old(a)),
            old(a).wf(),
            allocator_within(*old(a), *old(mem)),
        ensures
            old(a).exhausted() ==> final(a).exhausted(),
            final(self).vpn_start == old(self).vpn_start,
            final(self).vpn_end == old(self).vpn_end,
            final(self).map_type == old(self).map_type,
            final(self).map_permissions == old(self).map_permissions,
            Self::map_step(
                *old(page_table),
                *final(page_table),
                *old(a),
                *final(a),
                *old(mem),
                *final(mem),
            ),
            forall|i: int|
                old(self).frames@.len() <= i < final(self).frames@.len() ==> !old(a).live().contains(#[trigger] final(self).fppn(i)),
            match r {
                Ok(()) => {
                    &&& !old(page_table).mapped(*old(mem), vpn.0 as int)
                    &&& final(page_table).mapped(*final(mem), vpn.0 as int)
                    &&& final(page_table).leaf(*final(mem), vpn.0 as int).spec_flags() == old(self).leaf_flags()
                    &&& forall|w: int|
                        0 <= w < VPN_SPACE && w != vpn.0 ==> final(page_table).mapped(
                            *final(mem),
                            w,
                        ) == old(page_table).mapped(*old(mem), w)
                    &&& forall|w: int|
                        0 <= w < VPN_SPACE && w != vpn.0 && old(page_table).mapped(*old(mem), w)
                            ==> final(page_table).leaf(*final(mem), w) == old(page_table).leaf(
                            *old(mem),
                            w,
                        )
                    &&& match old(self).map_type {
                        MemoryAreaType::Identical => {
                            &&& final(self).frames@ == old(self).frames@
                            &&& final(page_table).leaf(*final(mem), vpn.0 as int).spec_ppn()
                                == vpn.0
                        },
                        MemoryAreaType::Framed => {
                            &&& final(self).frames@.len() == old(self).frames@.len() + 1
                            &&& forall|i: int|
                                0 <= i < old(self).frames@.len() ==> final(self).frames@[i] == old(self).frames@[i]
                            &&& final(page_table).leaf(*final(mem), vpn.0 as int).spec_ppn()
                                == final(self).fppn(final(self).frames@.len() - 1)
                            &&& !old(a).live().contains(
                                final(self).fppn(final(self).frames@.len() - 1),
                            )
                            &&& final(a).live().contains(
                                final(self).fppn(final(self).frames@.len() - 1),
                            )
                            &&& !final(page_table).nodes@.contains(
                                final(self).fppn(final(self).frames@.len() - 1),
                            )
                            &&& final(mem).is_data(final(self).fppn(final(self).frames@.len() - 1))
                            &&& final(mem).data(final(self).fppn(final(self).frames@.len() - 1))
                                =~= Seq::new(PAGE_SIZE_BYTES as nat, |i: int| 0u8)
                        },
                    }
                },
                Err(MemoryStructureError::OutOfMemory) => {
                    &&& final(a).exhausted()
                    &&& final(self).frames@ == old(self).frames@
                    &&& forall|w: int|
                        final(page_table).mapped(*final(mem), w) == old(page_table).mapped(
                            *old(mem),
                            w,
                        )
                    &&& forall|w: int|
                        old(page_table).mapped(*old(mem), w) ==> final(page_table).leaf(
                            *final(mem),
                            w,
                        ) == old(page_table).leaf(*old(mem), w)
                },
                Err(MemoryStructureError::PageTableFailure(pe)) => {
                    &&& match pe {
                        PageTableError::FrameUnavailable => final(a).exhausted(),
                        PageTableError::MapAlreadyExists(v) => v == vpn && old(page_table).mapped(
                            *old(mem),
                            vpn.0 as int,
                        ),
                        _ => false,
                    }
                    &&& forall|w: int|
                        final(page_table).mapped(*final(mem), w) == old(page_table).mapped(
                            *old(mem),
                            w,
                        )
                    &&& forall|w: int|
                        old(page_table).mapped(*old(mem), w) ==> final(page_table).leaf(
                            *final(mem),
                            w,
                        ) == old(page_table).leaf(*old(mem), w)
                    &&& forall|i: int|
                        0 <= i < old(self).frames@.len() ==> final(self).frames@[i] == old(self).frames@[i]
                    &&& final(self).frames@.len() <= old(self).frames@.len() + 1
                },
                Err(_) => false,
            },
    {
        let ghost pt0 = *page_table;
        let ghost a0 = *a;
        let ghost m0 = *mem;
        let framed = match &self.map_type {
            MemoryAreaType::Framed => true,
            MemoryAreaType::Identical => false,
        };
        let ppn: PhysPageNumber;
        if framed {
            let p = match a.alloc_frame() {
                None => {
                    proof {
                        assert(a.recycled@ == a0.recycled@);
                        assert(a.current == a0.current);
                        assert(a.exhausted());
                    }
                    return Err(MemoryStructureError::OutOfMemory);
                },
                Some(p) => p,
            };
            mem.install_data(p);
            proof {
                assert forall|q: int| pt0.nodes@.contains(q) implies mem.page(q) == m0.page(
                    q,
                ) by {
                    assert(a0.live().contains(q));
                    assert(m0.in_range(q));
                    assert(q != p.0 as int);
                }
                crate::page_table::lemma_walk_preserved(pt0, m0, *mem);
            }
            self.frames.push(Frame::new(p));
            ppn = p;
        } else {
            ppn = PhysPageNumber(vpn.0);
        }
        let ghost a1 = *a;
        let ghost m1 = *mem;
        let flags = match PTEFlags::from_bits(self.map_permissions.bits()) {
            Some(f) => f,
            None => {
                proof {
                    // every byte is a legal flag combination
                    assert(false);
                }
                return Err(MemoryStructureError::OutOfMemory);
            },
        };
        let res = page_table.map(vpn, ppn, flags, a, mem);
        match res {
            Ok(()) => {
                proof {
                    if framed {
                        let f = self.fppn(self.frames@.len() - 1);
                        assert(f == ppn.0 as int);
                        assert(mem.is_data(f)) by {
                            assert(!page_table.nodes@.contains(f));
                            assert(m1.in_range(f));
                            assert(a1.live().contains(f));
                            assert(mem.page(f) == m1.page(f));
                        }
                    }
                }
                Ok(())
            },
            Err(e) => {
                proof {
                    assert(forall|w: int|
                        page_table.mapped(*mem, w) == pt0.mapped(m1, w) && (pt0.mapped(m1, w)
                            ==> page_table.leaf(*mem, w) == pt0.leaf(m1, w)));
                    assert(forall|w: int| pt0.mapped(m1, w) == pt0.mapped(m0, w));
                    match e {
                        PageTableError::FrameUnavailable => {
                            assert(a.exhausted());
                        },
                        _ => {},
                    }
                }
                Err(MemoryStructureError::PageTableFailure(e))
            },
        }
    }
}



impl MemoryArea {
    /// Maps every page of the range, in ascending order. On success each page
    /// `w` of the range is mapped to its backing page with the area's flags
    /// and every other mapping is untouched; a Framed area then owns one
    /// fresh zero-filled frame per page.
    #[verifier::rlimit(100)]
    pub fn map(
        &mut self,
        page_table: &mut PageTable,
        a: &mut StackFrameAllocator,
        mem: &mut PhysFrames,
    ) -> (r: Result<(), MemoryStructureError>)
        requires
            old(self).range_wf(),
            old(self).frames@.len() == 0,
            old(page_table).wf(*old(mem)),
            old(page_table).nodes_live(*old(a)),
            old(a).wf(),
            allocator_within(*old(a), *old(mem)),
            forall|w: int|
                old(self).holds_vpn(w) ==> !old(page_table).mapped(*old(mem), w),
        ensures
            old(a).exhausted() ==> final(a).exhausted(),
            final(self).vpn_start == old(self).vpn_start,
            final(self).vpn_end == old(self).vpn_end,
            final(self).map_type == old(self).map_type,
            final(self).map_permissions == old(self).map_permissions,
            Self::map_step(
                *old(page_table),
                *final(page_table),
                *old(a),
                *final(a),
                *old(mem),
                *final(mem),
            ),
            forall|w: int|
                0 <= w < VPN_SPACE && !old(self).holds_vpn(w) ==> final(page_table).mapped(
                    *final(mem),
                    w,
                ) == old(page_table).mapped(*old(mem), w),
            forall|w: int|
                0 <= w < VPN_SPACE && !old(self).holds_vpn(w) && old(page_table).mapped(
                    *old(mem),
                    w,
                ) ==> final(page_table).leaf(*final(mem), w) == old(page_table).leaf(*old(mem), w),
            forall|i: int|
                0 <= i < final(self).frames@.len() ==> !old(a).live().contains(
                    #[trigger] final(self).fppn(i),
                ),
            match r {
                Ok(()) => {
                    &&& final(self).frames_wf(*final(mem), *final(a), final(page_table).nodes@)
                    &&& final(self).mapped_in(*final(page_table), *final(mem))
                    &&& forall|i: int|
                        0 <= i < final(self).frames@.len() ==> final(mem).data(
                            #[trigger] final(self).fppn(i),
                        ) =~= Seq::new(PAGE_SIZE_BYTES as nat, |j: int| 0u8)
                },
                Err(e) => {
                    // failure only when the allocator really ran dry
                    &&& (e matches MemoryStructureError::OutOfMemory || e
                        matches MemoryStructureError::PageTableFailure(
                        PageTableError::FrameUnavailable,
                    ))
                    &&& final(a).exhausted()
                },
            },
    {
        let ghost pt0 = *page_table;
        let ghost a0 = *a;
        let ghost m0 = *mem;
        let ghost area0 = *self;
        let start = self.vpn_start.0;
        let end = self.vpn_end.0;
        let mut k: u64 = 0;
        while k < end - start
            invariant
                area0 == *old(self),
                pt0 == *old(page_table),
                a0 == *old(a),
                m0 == *old(mem),
                start == area0.vpn_start.0,
                end == area0.vpn_end.0,
                0 <= k <= end - start,
                area0.range_wf(),
                self.vpn_start == area0.vpn_start,
                self.vpn_end == area0.vpn_end,
                self.map_type == area0.map_type,
                self.map_permissions == area0.map_permissions,
                pt0.wf(m0),
                pt0.nodes_live(a0),
                a0.wf(),
                allocator_within(a0, m0),
                a0.exhausted() ==> a.exhausted(),
                forall|w: int| area0.holds_vpn(w) ==> !pt0.mapped(m0, w),
                MemoryArea::map_step(pt0, *page_table, a0, *a, m0, *mem),
                // pages outside the prefix keep their old mapping
                forall|w: int|
                    0 <= w < VPN_SPACE && !(start <= w < start + k) ==> page_table.mapped(
                        *mem,
                        w,
                    ) == pt0.mapped(m0, w),
                forall|w: int|
                    0 <= w < VPN_SPACE && !(start <= w < start + k) && pt0.mapped(m0, w)
                        ==> page_table.leaf(*mem, w) == pt0.leaf(m0, w),
                // the prefix is mapped
                forall|w: int|
                    start <= w < start + k ==> #[trigger] page_table.mapped(*mem, w)
                        && page_table.leaf(*mem, w).spec_ppn() == self.backing(w)
                        && page_table.leaf(*mem, w).spec_flags() == area0.leaf_flags(),
                // frame bookkeeping of the prefix
                (self.map_type matches MemoryAreaType::Identical ==> self.frames@.len() == 0),
                (self.map_type matches MemoryAreaType::Framed ==> self.frames@.len() == k),
                forall|i: int|
                    0 <= i < self.frames@.len() ==> (#[trigger] self.fppn(i)) < PPN_SPACE
                        && mem.is_data(self.fppn(i)) && a.live().contains(self.fppn(i))
                        && !page_table.nodes@.contains(self.fppn(i)) && !a0.live().contains(
                        self.fppn(i),
                    ) && mem.data(self.fppn(i)) =~= Seq::new(PAGE_SIZE_BYTES as nat, |j: int| 0u8),
                forall|i: int, j: int|
                    0 <= i < j < self.frames@.len() ==> self.fppn(i) != self.fppn(j),
            decreases end - start - k,
        {
            let ghost pt_pre = *page_table;
            let ghost a_pre = *a;
            let ghost m_pre = *mem;
            let ghost area_pre = *self;
            let vpn = VirtPageNumber(start + k);
            let res = self.map_one(page_table, vpn, a, mem);
            match res {
                Ok(()) => {},
                Err(e) => {
                    proof {
                        assert forall|i: int| 0 <= i < self.frames@.len() implies !a0.live().contains(
                            #[trigger] self.fppn(i),
                        ) by {
                            if i < area_pre.frames@.len() {
                                assert(self.fppn(i) == area_pre.fppn(i));
                                assert(!a0.live().contains(area_pre.fppn(i)));
                            } else {
                                assert(!a_pre.live().contains(self.fppn(i)));
                            }
                        }
                        match &e {
                            MemoryStructureError::PageTableFailure(pe) => {
                                match pe {
                                    PageTableError::MapAlreadyExists(_) => {
                                        assert(0 <= vpn.0 < VPN_SPACE);
                                        assert(!(start <= vpn.0 < start + k));
                                        assert(pt_pre.mapped(m_pre, vpn.0 as int) == pt0.mapped(
                                            m0,
                                            vpn.0 as int,
                                        ));
                                        assert(area0.holds_vpn(vpn.0 as int));
                                        assert(!pt0.mapped(m0, vpn.0 as int));
                                        assert(!pt_pre.mapped(m_pre, vpn.0 as int));
                                    },
                                    _ => {},
                                }
                            },
                            _ => {},
                        }
                    }
                    return Err(e);
                },
            }
            proof {
                let v = vpn.0 as int;
                assert forall|w: int|
                    0 <= w < VPN_SPACE && !(start <= w < start + k + 1) implies page_table.mapped(
                    *mem,
                    w,
                ) == pt0.mapped(m0, w) && (pt0.mapped(m0, w) ==> page_table.leaf(*mem, w)
                    == pt0.leaf(m0, w)) by {
                    assert(page_table.mapped(*mem, w) == pt_pre.mapped(m_pre, w));
                }
                if self.map_type is Framed {
                    let n = self.frames@.len() as int;
                    assert(self.fppn(n - 1) == page_table.leaf(*mem, v).spec_ppn());
                    assert forall|i: int|
                        0 <= i < n implies (#[trigger] self.fppn(i)) < PPN_SPACE && mem.is_data(
                        self.fppn(i),
                    ) && a.live().contains(self.fppn(i)) && !page_table.nodes@.contains(
                        self.fppn(i),
                    ) && !a0.live().contains(self.fppn(i)) && mem.data(self.fppn(i)) =~= Seq::new(
                        PAGE_SIZE_BYTES as nat,
                        |j: int| 0u8,
                    ) by {
                        if i < n - 1 {
                            assert(self.fppn(i) == area_pre.fppn(i));
                            assert(m_pre.in_range(area_pre.fppn(i)));
                            assert(a_pre.live().contains(area_pre.fppn(i)));
                            assert(mem.page(area_pre.fppn(i)) == m_pre.page(area_pre.fppn(i)));
                        } else {
                            assert(mem.is_data(self.fppn(i)));
                        }
                    }
                    assert forall|i: int, j: int|
                        0 <= i < j < n implies self.fppn(i) != self.fppn(j) by {
                        if j < n - 1 {
                            assert(self.fppn(i) == area_pre.fppn(i));
                            assert(self.fppn(j) == area_pre.fppn(j));
                        } else {
                            assert(self.fppn(i) == area_pre.fppn(i));
                            assert(a_pre.live().contains(area_pre.fppn(i)));
                            assert(!a_pre.live().contains(self.fppn(n - 1)));
                        }
                    }
                }
                // the freshly mapped page
                assert(page_table.mapped(*mem, v));
                assert(page_table.leaf(*mem, v).spec_flags() == area0.leaf_flags());
                assert(page_table.leaf(*mem, v).spec_ppn() == self.backing(v));
                // earlier prefix pages keep their mapping and backing
                assert forall|w: int|
                    start <= w < start + k + 1 implies #[trigger] page_table.mapped(*mem, w) by {
                    if w < start + k {
                        assert(page_table.mapped(*mem, w) == pt_pre.mapped(m_pre, w));
                    }
                }
                assert forall|w: int|
                    start <= w < start + k + 1 implies #[trigger] page_table.leaf(
                    *mem,
                    w,
                ).spec_ppn() == self.backing(w) by {
                    if w < start + k {
                        assert(page_table.mapped(*mem, w) == pt_pre.mapped(m_pre, w));
                        assert(pt_pre.leaf(m_pre, w) == page_table.leaf(*mem, w));
                        assert(self.backing(w) == area_pre.backing(w));
                    } else {
                        assert(page_table.leaf(*mem, v).spec_ppn() == self.backing(v));
                    }
                }
                assert forall|w: int|
                    start <= w < start + k + 1 implies #[trigger] page_table.leaf(
                    *mem,
                    w,
                ).spec_flags() == area0.leaf_flags() by {
                    if w < start + k {
                        assert(page_table.mapped(*mem, w) == pt_pre.mapped(m_pre, w));
                        assert(pt_pre.leaf(m_pre, w) == page_table.leaf(*mem, w));
                    }
                }
            }
            k = k + 1;
        }
        proof {
            assert(forall|w: int|
                area0.holds_vpn(w) ==> start <= w < start + (end - start));
        }
        Ok(())
    }
}



/// The byte an area initialised with `data` holds at offset `idx` of its
/// range: the supplied byte inside the data, zero beyond it.
pub open spec fn init_byte(data: Seq<u8>, idx: int) -> u8 {
    if 0 <= idx < data.len() {
        data[idx]
    } else {
        0u8
    }
}

/// One address space: a page table plus the non-overlapping areas mapped in
/// it. `extra` records page numbers mapped outside any area — the trampoline,
/// and the remains of an area whose installation failed halfway.
pub struct MemorySet {
    /// The three-level page table of this address space.
    pub page_table: PageTable,
    /// The areas, in insertion order.
    pub areas: Vec<MemoryArea>,
    /// Page numbers mapped outside any area.
    pub extra: Ghost<Set<int>>,
}

impl MemorySet {
    /// The area at position `i`.
    pub open spec fn area(self, i: int) -> MemoryArea {
        self.areas@[i]
    }

    /// How many areas the set holds.
    pub open spec fn area_count(self) -> int {
        self.areas@.len() as int
    }

    /// Whether page number `w` lies in some area of the set.
    pub open spec fn in_some_area(self, w: int) -> bool {
        exists|i: int| 0 <= i < self.area_count() && #[trigger] self.area(i).holds_vpn(w)
    }

    /// Well-formedness of the whole address space against arena and
    /// allocator: the page table walks correctly, every area is mapped as it
    /// says with its frames accounted for, no two areas overlap, and a page
    /// is mapped exactly when an area or `extra` covers it.
    pub open spec fn wf(self, mem: PhysFrames, a: StackFrameAllocator) -> bool {
        &&& self.page_table.wf(mem)
        &&& self.page_table.nodes_live(a)
        &&& forall|i: int|
            0 <= i < self.area_count() ==> (#[trigger] self.area(i)).range_wf() && self.area(
                i,
            ).frames_wf(mem, a, self.page_table.nodes@) && self.area(i).mapped_in(
                self.page_table,
                mem,
            )
        &&& forall|i: int, j: int|
            0 <= i < j < self.area_count() ==> !(#[trigger] self.area(i)).spec_overlaps(
                #[trigger] self.area(j),
            )
        &&& forall|w: int|
            0 <= w < VPN_SPACE ==> (#[trigger] self.page_table.mapped(mem, w) <==> (
            self.in_some_area(w) || self.extra@.contains(w)))
    }

    /// Creates an address space with no areas and nothing mapped.
    pub fn new(a: &mut StackFrameAllocator, mem: &mut PhysFrames) -> (r: Result<
        Self,
        MemoryStructureError,
    >)
        requires
            old(a).wf(),
            allocator_within(*old(a), *old(mem)),
        ensures
            old(a).exhausted() ==> final(a).exhausted(),
            final(a).wf(),
            allocator_within(*final(a), *final(mem)),
            final(a).floor == old(a).floor,
            final(a).end == old(a).end,
            final(mem).base == old(mem).base,
            final(mem).len() == old(mem).len(),
            forall|q: int| old(a).live().contains(q) ==> final(a).live().contains(q),
            match r {
                Ok(set) => {
                    &&& set.wf(*final(mem), *final(a))
                    &&& set.area_count() == 0
                    &&& set.extra@ =~= Set::<int>::empty()
                    &&& forall|w: int| !set.page_table.mapped(*final(mem), w)
                    &&& !old(a).live().contains(set.page_table.root())
                    &&& final(a).live() =~= old(a).live().insert(set.page_table.root())
                    &&& set.page_table.nodes@ =~= Set::<int>::empty().insert(
                        set.page_table.root(),
                    )
                    &&& forall|q: int|
                        old(mem).in_range(q) && q != set.page_table.root() ==> final(mem).page(q)
                            == old(mem).page(q)
                },
                Err(e) => {
                    &&& e matches MemoryStructureError::PageTableFailure(
                        PageTableError::FrameUnavailable,
                    )
                    &&& final(a).live() =~= old(a).live()
                    &&& *final(mem) == *old(mem)
                    &&& final(a).exhausted()
                },
            },
    {
        let page_table = match PageTable::new(a, mem) {
            Ok(pt) => pt,
            Err(e) => {
                return Err(MemoryStructureError::PageTableFailure(e));
            },
        };
        let set = MemorySet { page_table, areas: Vec::new(), extra: Ghost(Set::empty()) };
        Ok(set)
    }

    /// The paging-register image of this address space.
    pub fn token(&self, mem: &PhysFrames) -> (r: u64)
        requires
            self.page_table.wf(*mem),
        ensures
            r == 8 * 0x1000_0000_0000_0000u64 + self.page_table.root_ppn.0,
            crate::page_table::spec_token_root(r) == self.page_table.root(),
    {
        proof {
            assert(mem.in_range(self.page_table.root()));
        }
        self.page_table.token()
    }

    /// Maps the shared trampoline page, at the highest virtual page, onto the
    /// physical page holding the trap-transfer code.
    pub fn map_trampoline(
        &mut self,
        strampoline: crate::address::PhysAddr,
        a: &mut StackFrameAllocator,
        mem: &mut PhysFrames,
    ) -> (r: Result<(), MemoryStructureError>)
        requires
            strampoline.0 < crate::address::PA_SPACE,
            old(self).wf(*old(mem), *old(a)),
            old(a).wf(),
            allocator_within(*old(a), *old(mem)),
        ensures
            old(self).page_table.mapped(
                *old(mem),
                (TRAMPOLINE % VA_SPACE) as int / PAGE_SIZE_BYTES as int,
            ) ==> r is Err,
            old(a).exhausted() ==> final(a).exhausted(),
            final(a).wf(),
            allocator_within(*final(a), *final(mem)),
            final(a).floor == old(a).floor,
            final(a).end == old(a).end,
            final(mem).base == old(mem).base,
            final(mem).len() == old(mem).len(),
            forall|q: int| old(a).live().contains(q) ==> final(a).live().contains(q),
            final(self).areas@ == old(self).areas@,
            forall|q: int|
                old(mem).in_range(q) && old(a).live().contains(q) && !final(self).page_table.nodes@.contains(q) ==> final(mem).page(q) == old(mem).page(q),
            forall|p: int|
                old(self).page_table.nodes@.contains(p) ==> final(self).page_table.nodes@.contains(
                    p,
                ),
            forall|p: int|
                final(self).page_table.nodes@.contains(p) ==> old(self).page_table.nodes@.contains(p) || !old(a).live().contains(p),
            match r {
                Ok(()) => {
                    &&& !old(self).page_table.mapped(
                        *old(mem),
                        (TRAMPOLINE % VA_SPACE) as int / PAGE_SIZE_BYTES as int,
                    )
                    &&& final(self).wf(*final(mem), *final(a))
                    &&& final(self).extra@ =~= old(self).extra@.insert(
                        (TRAMPOLINE % VA_SPACE) as int / PAGE_SIZE_BYTES as int,
                    )
                    // the trampoline page maps the trap-transfer code,
                    // readable and executable
                    &&& final(self).page_table.mapped(
                        *final(mem),
                        (TRAMPOLINE % VA_SPACE) as int / PAGE_SIZE_BYTES as int,
                    )
                    &&& final(self).page_table.leaf(
                        *final(mem),
                        (TRAMPOLINE % VA_SPACE) as int / PAGE_SIZE_BYTES as int,
                    ).spec_ppn() == strampoline.0 as int / PAGE_SIZE_BYTES as int
                    &&& final(self).page_table.leaf(
                        *final(mem),
                        (TRAMPOLINE % VA_SPACE) as int / PAGE_SIZE_BYTES as int,
                    ).spec_flags() == (crate::page_table::PTE_R | crate::page_table::PTE_X
                        | crate::page_table::PTE_V)
                    &&& forall|w: int|
                        0 <= w < VPN_SPACE && w != (TRAMPOLINE % VA_SPACE) as int
                            / PAGE_SIZE_BYTES as int ==> final(self).page_table.mapped(
                            *final(mem),
                            w,
                        ) == old(self).page_table.mapped(*old(mem), w)
                    &&& forall|w: int|
                        0 <= w < VPN_SPACE && w != (TRAMPOLINE % VA_SPACE) as int
                            / PAGE_SIZE_BYTES as int && old(self).page_table.mapped(*old(mem), w)
                            ==> final(self).page_table.leaf(*final(mem), w) == old(self).page_table.leaf(*old(mem), w)
                },
                Err(e) => {
                    &&& final(self).wf(*final(mem), *final(a))
                    &&& final(self).extra@ == old(self).extra@
                    &&& forall|w: int|
                        final(self).page_table.mapped(*final(mem), w) == old(self).page_table.mapped(*old(mem), w)
                    // frames only run dry on a first mapping; a second
                    // mapping of the trampoline is refused with the typed
                    // already-mapped error
                    &&& (e matches MemoryStructureError::PageTableFailure(pe) && (pe
                        matches PageTableError::FrameUnavailable || (pe
                        matches PageTableError::MapAlreadyExists(v) && v.0 as int == (TRAMPOLINE
                        % VA_SPACE) as int / PAGE_SIZE_BYTES as int)))
                    &&& (e matches MemoryStructureError::PageTableFailure(
                        PageTableError::FrameUnavailable,
                    ) ==> final(a).exhausted() && !old(self).page_table.mapped(
                        *old(mem),
                        (TRAMPOLINE % VA_SPACE) as int / PAGE_SIZE_BYTES as int,
                    ))
                    &&& (e matches MemoryStructureError::PageTableFailure(
                        PageTableError::MapAlreadyExists(_),
                    ) ==> old(self).page_table.mapped(
                        *old(mem),
                        (TRAMPOLINE % VA_SPACE) as int / PAGE_SIZE_BYTES as int,
                    ) && (forall|w: int|
                        0 <= w < VPN_SPACE && old(self).page_table.mapped(*old(mem), w)
                            ==> final(self).page_table.leaf(*final(mem), w)
                            == old(self).page_table.leaf(*old(mem), w)))
                },
            },
    {
        let ghost set0 = *self;
        let ghost a0 = *a;
        let ghost m0 = *mem;
        let tramp_vpn = VirtAddr(TRAMPOLINE).vpn();
        let target = strampoline.ppn();
        proof {
            assert(target.0 < PPN_SPACE) by {
                assert(strampoline.0 / PAGE_SIZE_BYTES < PPN_SPACE) by {
                    vstd::arithmetic::div_mod::lemma_div_is_ordered(
                        strampoline.0 as int,
                        crate::address::PA_SPACE as int - 1,
                        PAGE_SIZE_BYTES as int,
                    );
                }
            }
            assert(tramp_vpn.0 < VPN_SPACE);
        }
        let res = self.page_table.map(
            tramp_vpn,
            target,
            PTEFlags(crate::page_table::PTE_R | crate::page_table::PTE_X),
            a,
            mem,
        );
        match res {
            Ok(()) => {
                proof {
                    self.extra@ = set0.extra@.insert(tramp_vpn.0 as int);
                }
                proof {
                    lemma_set_wf_after_pt_step(set0, *self, a0, *a, m0, *mem);
                    assert forall|w: int| 0 <= w < VPN_SPACE implies (
                        #[trigger] self.page_table.mapped(*mem, w) <==> (self.in_some_area(w)
                            || self.extra@.contains(w))) by {
                        if w == tramp_vpn.0 as int {
                        } else {
                            assert(self.page_table.mapped(*mem, w) == set0.page_table.mapped(
                                m0,
                                w,
                            ));
                            lemma_same_areas_cover(set0, *self, w);
                        }
                    }
                }
                Ok(())
            },
            Err(e) => {
                proof {
                    lemma_set_wf_after_pt_step(set0, *self, a0, *a, m0, *mem);
                    assert forall|w: int| 0 <= w < VPN_SPACE implies (
                        #[trigger] self.page_table.mapped(*mem, w) <==> (self.in_some_area(w)
                            || self.extra@.contains(w))) by {
                        assert(self.page_table.mapped(*mem, w) == set0.page_table.mapped(m0, w));
                        lemma_same_areas_cover(set0, *self, w);
                    }
                }
                Err(MemoryStructureError::PageTableFailure(e))
            },
        }
    }
}


/// Two sets with the same area list cover the same page numbers.
pub proof fn lemma_same_areas_cover(s0: MemorySet, s1: MemorySet, w: int)
    requires
        s1.areas@ == s0.areas@,
    ensures
        s1.in_some_area(w) == s0.in_some_area(w),
{
    if s1.in_some_area(w) {
        let i = choose|i: int| 0 <= i < s1.area_count() && #[trigger] s1.area(i).holds_vpn(w);
        assert(s0.area(i).holds_vpn(w));
    }
    if s0.in_some_area(w) {
        let i = choose|i: int| 0 <= i < s0.area_count() && #[trigger] s0.area(i).holds_vpn(w);
        assert(s1.area(i).holds_vpn(w));
    }
}


/// A memory set none of whose own pages changed keeps its well-formedness:
/// the page table still walks the same way, every area keeps its frames,
/// and the view is unchanged.
#[verifier::rlimit(100)]
pub proof fn lemma_set_untouched(
    s: MemorySet,
    a0: StackFrameAllocator,
    a1: StackFrameAllocator,
    m0: PhysFrames,
    m1: PhysFrames,
)
    requires
        s.wf(m0, a0),
        a1.wf(),
        m1.wf(),
        m1.base == m0.base,
        m1.len() == m0.len(),
        forall|q: int| a0.live().contains(q) ==> a1.live().contains(q),
        forall|q: int| s.page_table.nodes@.contains(q) ==> m1.page(q) == m0.page(q),
        forall|q: int| set_owns_frame(s, q) ==> m1.page(q) == m0.page(q),
    ensures
        s.wf(m1, a1),
        forall|w: int| s.page_table.mapped(m1, w) == s.page_table.mapped(m0, w),
        forall|w: int|
            s.page_table.mapped(m0, w) ==> s.page_table.leaf(m1, w) == s.page_table.leaf(m0, w),
{
    crate::page_table::lemma_walk_preserved(s.page_table, m0, m1);
    assert forall|i: int|
        0 <= i < s.area_count() implies (#[trigger] s.area(i)).frames_wf(
        m1,
        a1,
        s.page_table.nodes@,
    ) by {
        let ar = s.area(i);
        assert(ar.frames_wf(m0, a0, s.page_table.nodes@));
        if ar.map_type is Framed {
            assert forall|k: int| 0 <= k < ar.frames@.len() implies m1.is_data(
                #[trigger] ar.fppn(k),
            ) && a1.live().contains(ar.fppn(k)) by {
                assert(set_owns_frame(s, ar.fppn(k))) by {
                    assert(s.area(i).fppn(k) == ar.fppn(k));
                }
                assert(m1.page(ar.fppn(k)) == m0.page(ar.fppn(k)));
                assert(a0.live().contains(ar.fppn(k)));
            }
        }
    }
    assert forall|i: int|
        0 <= i < s.area_count() implies (#[trigger] s.area(i)).mapped_in(s.page_table, m1) by {
        let ar = s.area(i);
        assert(ar.mapped_in(s.page_table, m0));
        assert forall|w: int| #[trigger] ar.holds_vpn(w) implies s.page_table.mapped(m1, w)
            && s.page_table.leaf(m1, w).spec_ppn() == ar.backing(w) && s.page_table.leaf(
            m1,
            w,
        ).spec_flags() == ar.leaf_flags() by {
            assert(s.page_table.mapped(m0, w));
            assert(s.page_table.leaf(m1, w) == s.page_table.leaf(m0, w));
        }
    }
    assert forall|w: int| 0 <= w < VPN_SPACE implies (#[trigger] s.page_table.mapped(m1, w) <==> (
    s.in_some_area(w) || s.extra@.contains(w))) by {
        assert(s.page_table.mapped(m1, w) == s.page_table.mapped(m0, w));
    }
}

/// After a page-table step that touched no live non-node page, every area of
/// the set keeps its range bookkeeping and its mapping.
pub proof fn lemma_set_wf_after_pt_step(
    s0: MemorySet,
    s1: MemorySet,
    a0: StackFrameAllocator,
    a1: StackFrameAllocator,
    m0: PhysFrames,
    m1: PhysFrames,
)
    requires
        s0.wf(m0, a0),
        s1.areas@ == s0.areas@,
        s1.page_table.root_ppn == s0.page_table.root_ppn,
        s1.page_table.wf(m1),
        s1.page_table.nodes_live(a1),
        a1.wf(),
        m1.base == m0.base,
        m1.len() == m0.len(),
        forall|p: int| s0.page_table.nodes@.contains(p) ==> s1.page_table.nodes@.contains(p),
        forall|p: int|
            s1.page_table.nodes@.contains(p) ==> s0.page_table.nodes@.contains(p)
                || !a0.live().contains(p),
        forall|q: int| a0.live().contains(q) ==> a1.live().contains(q),
        forall|q: int|
            m0.in_range(q) && a0.live().contains(q) && !s1.page_table.nodes@.contains(q)
                ==> m1.page(q) == m0.page(q),
        forall|w: int|
            0 <= w < VPN_SPACE && s0.page_table.mapped(m0, w) && (s0.in_some_area(w)) ==> (
            s1.page_table.mapped(m1, w) && s1.page_table.leaf(m1, w) == s0.page_table.leaf(m0, w)),
    ensures
        forall|i: int|
            0 <= i < s1.area_count() ==> (#[trigger] s1.area(i)).range_wf() && s1.area(
                i,
            ).frames_wf(m1, a1, s1.page_table.nodes@) && s1.area(i).mapped_in(s1.page_table, m1),
        forall|i: int, j: int|
            0 <= i < j < s1.area_count() ==> !(#[trigger] s1.area(i)).spec_overlaps(
                #[trigger] s1.area(j),
            ),
{
    assert forall|i: int| 0 <= i < s1.area_count() implies (#[trigger] s1.area(i)).range_wf() by {
        assert(s1.area(i) == s0.area(i));
        assert(s0.area(i).range_wf());
    }
    assert forall|i: int|
        0 <= i < s1.area_count() implies (#[trigger] s1.area(i)).frames_wf(
        m1,
        a1,
        s1.page_table.nodes@,
    ) by {
        let ar = s0.area(i);
        assert(s1.area(i) == ar);
        assert(ar.frames_wf(m0, a0, s0.page_table.nodes@));
        if ar.map_type is Framed {
            assert forall|k: int| 0 <= k < ar.frames@.len() implies m1.is_data(
                #[trigger] ar.fppn(k),
            ) && a1.live().contains(ar.fppn(k)) && !s1.page_table.nodes@.contains(ar.fppn(k)) by {
                assert(a0.live().contains(ar.fppn(k)));
                assert(m0.in_range(ar.fppn(k)));
                assert(!s0.page_table.nodes@.contains(ar.fppn(k)));
                assert(!s1.page_table.nodes@.contains(ar.fppn(k)));
                assert(m1.page(ar.fppn(k)) == m0.page(ar.fppn(k)));
            }
        }
    }
    assert forall|i: int|
        0 <= i < s1.area_count() implies (#[trigger] s1.area(i)).mapped_in(
        s1.page_table,
        m1,
    ) by {
        let ar = s0.area(i);
        assert(s1.area(i) == ar);
        assert(ar.range_wf());
        assert forall|w: int| ar.holds_vpn(w) implies #[trigger] s1.page_table.mapped(m1, w)
            && s1.page_table.leaf(m1, w).spec_ppn() == ar.backing(w) && s1.page_table.leaf(
            m1,
            w,
        ).spec_flags() == ar.leaf_flags() by {
            assert(s0.in_some_area(w)) by {
                assert(s0.area(i).holds_vpn(w));
            }
            assert(s0.page_table.mapped(m0, w));
            assert(s1.page_table.leaf(m1, w) == s0.page_table.leaf(m0, w));
        }
    }
    assert forall|i: int, j: int| 0 <= i < j < s1.area_count() implies !(
    #[trigger] s1.area(i)).spec_overlaps(#[trigger] s1.area(j)) by {
        assert(s1.area(i) == s0.area(i));
        assert(s1.area(j) == s0.area(j));
    }
}



impl MemorySet {
    /// Pushes a fresh area into the address space: rejects it untouched when
    /// it overlaps an existing area, otherwise maps every page and copies the
    /// optional initial bytes in, page by page, the tail of each page and
    /// every page past the data staying zero.
    pub fn push(
        &mut self,
        area: MemoryArea,
        data: Option<&[u8]>,
        a: &mut StackFrameAllocator,
        mem: &mut PhysFrames,
    ) -> (r: Result<(), MemoryStructureError>)
        requires
            old(self).wf(*old(mem), *old(a)),
            old(a).wf(),
            allocator_within(*old(a), *old(mem)),
            area.range_wf(),
            area.frames@.len() == 0,
            forall|w: int| old(self).extra@.contains(w) ==> !area.holds_vpn(w),
            data matches Some(d) ==> d@.len() + PAGE_SIZE_BYTES <= usize::MAX,
        ensures
            old(a).exhausted() ==> final(a).exhausted(),
            final(a).wf(),
            allocator_within(*final(a), *final(mem)),
            final(a).floor == old(a).floor,
            final(a).end == old(a).end,
            final(mem).base == old(mem).base,
            final(mem).len() == old(mem).len(),
            forall|q: int| old(a).live().contains(q) ==> final(a).live().contains(q),
            final(self).wf(*final(mem), *final(a)),
            forall|q: int|
                old(mem).in_range(q) && old(a).live().contains(q) && !final(self).page_table.nodes@.contains(q) ==> final(mem).page(q) == old(mem).page(q),
            forall|p: int|
                old(self).page_table.nodes@.contains(p) ==> final(self).page_table.nodes@.contains(
                    p,
                ),
            forall|p: int|
                final(self).page_table.nodes@.contains(p) ==> old(self).page_table.nodes@.contains(p) || !old(a).live().contains(p),
            match r {
                Ok(()) => {
                    &&& forall|i: int|
                        0 <= i < old(self).area_count() ==> !(#[trigger] old(self).area(
                            i,
                        )).spec_overlaps(area)
                    &&& final(self).area_count() == old(self).area_count() + 1
                    &&& forall|i: int|
                        0 <= i < old(self).area_count() ==> final(self).area(i) == old(self).area(
                            i,
                        )
                    &&& final(self).extra@ == old(self).extra@
                    &&& {
                        let na = final(self).area(old(self).area_count());
                        &&& na.vpn_start == area.vpn_start
                        &&& na.vpn_end == area.vpn_end
                        &&& na.map_type == area.map_type
                        &&& na.map_permissions == area.map_permissions
                        &&& forall|i: int|
                            0 <= i < na.frames@.len() ==> !old(a).live().contains(
                                #[trigger] na.fppn(i),
                            )
                        &&& forall|i: int, off: int|
                            0 <= i < na.frames@.len() && 0 <= off < PAGE_SIZE_BYTES ==> #[trigger] final(mem).data(na.fppn(i))[off] == init_byte(
                                spec_init_data(data),
                                i * (PAGE_SIZE_BYTES as int) + off,
                            )
                    }
                    &&& forall|w: int|
                        0 <= w < VPN_SPACE && !area.holds_vpn(w) ==> final(self).page_table.mapped(*final(mem), w) == old(self).page_table.mapped(
                            *old(mem),
                            w,
                        )
                    &&& forall|w: int|
                        0 <= w < VPN_SPACE && !area.holds_vpn(w) && old(self).page_table.mapped(
                            *old(mem),
                            w,
                        ) ==> final(self).page_table.leaf(*final(mem), w) == old(self).page_table.leaf(*old(mem), w)
                },
                Err(MemoryStructureError::OverlappedMemoryArea) => {
                    &&& exists|i: int|
                        0 <= i < old(self).area_count() && (#[trigger] old(self).area(
                            i,
                        )).spec_overlaps(area)
                    &&& *final(self) == *old(self)
                    &&& *final(mem) == *old(mem)
                    &&& *final(a) == *old(a)
                },
                Err(MemoryStructureError::DataTooLong) => {
                    &&& final(self).areas@ == old(self).areas@
                    &&& data matches Some(d) && (spec_data_pages(d@.len() as int)
                        > if area.map_type is Framed {
                        area.end() - area.start()
                    } else {
                        0
                    })
                    &&& forall|i: int|
                        0 <= i < old(self).area_count() ==> !(#[trigger] old(self).area(
                            i,
                        )).spec_overlaps(area)
                },
                Err(e) => {
                    // installation can only fail for want of frames, and only
                    // on an area the overlap check had already admitted; the
                    // half-installed range is absorbed into `extra`
                    &&& (e matches MemoryStructureError::OutOfMemory || e
                        matches MemoryStructureError::PageTableFailure(
                        PageTableError::FrameUnavailable,
                    ))
                    &&& final(a).exhausted()
                    &&& final(self).areas@ == old(self).areas@
                    &&& forall|w: int|
                        final(self).extra@.contains(w) ==> old(self).extra@.contains(w)
                            || area.holds_vpn(w)
                    &&& forall|i: int|
                        0 <= i < old(self).area_count() ==> !(#[trigger] old(self).area(
                            i,
                        )).spec_overlaps(area)
                },
            },
    {
        let ghost set0 = *self;
        let ghost a0 = *a;
        let ghost m0 = *mem;
        let ghost dataseq = spec_init_data(data);
        // reject overlap before touching anything
        let n = self.areas.len();
        let mut i: usize = 0;
        while i < n
            invariant
                *self == *old(self),
                *a == *old(a),
                *mem == *old(mem),
                a.wf(),
                allocator_within(*a, *mem),
                old(self).wf(*old(mem), *old(a)),
                n == self.areas@.len(),
                i <= n,
                forall|j: int| 0 <= j < i ==> !(#[trigger] self.area(j)).spec_overlaps(area),
            decreases n - i,
        {
            if self.areas[i].has_overlap_with(&area) {
                proof {
                    assert((*old(self)).area(i as int).spec_overlaps(area));
                }
                return Err(MemoryStructureError::OverlappedMemoryArea);
            }
            i = i + 1;
        }
        proof {
            // the new range is disjoint from every existing area
            assert forall|w: int, j: int|
                area.holds_vpn(w) && 0 <= j < set0.area_count() implies !(#[trigger] set0.area(
                j,
            ).holds_vpn(w)) by {
                assert(!set0.area(j).spec_overlaps(area));
            }
            assert forall|w: int| area.holds_vpn(w) implies !set0.page_table.mapped(m0, w) by {
                assert(!set0.in_some_area(w));
                assert(!set0.extra@.contains(w));
            }
        }
        let mut ar = area;
        let map_res = ar.map(&mut self.page_table, a, mem);
        let ghost a1 = *a;
        let ghost m1 = *mem;
        let ghost ar1 = ar;
        match map_res {
            Ok(()) => {},
            Err(e) => {
                proof {
                    self.extra@ = set0.extra@.union(
                        Set::new(|w: int| area.holds_vpn(w) && self.page_table.mapped(*mem, w)),
                    );
                    lemma_push_failed_wf(set0, *self, area, a0, *a, m0, *mem);
                }
                return Err(e);
            },
        }
        let ghost mid_self = *self;
        if let Some(d) = data {
            let dlen = d.len();
            let data_pages: usize = (dlen + (PAGE_SIZE_BYTES as usize - 1)) / (
            PAGE_SIZE_BYTES as usize);
            proof {
                vstd::arithmetic::div_mod::lemma_fundamental_div_mod(
                    dlen as int + (PAGE_SIZE_BYTES as int - 1),
                    PAGE_SIZE_BYTES as int,
                );
                assert(data_pages == spec_data_pages(dlen as int));
            }
            if data_pages > ar.frames.len() {
                proof {
                    self.extra@ = set0.extra@.union(
                        Set::new(|w: int| area.holds_vpn(w) && self.page_table.mapped(*mem, w)),
                    );
                    lemma_push_failed_wf(set0, *self, area, a0, *a, m0, *mem);
                    if ar.map_type is Framed {
                        assert(ar.frames@.len() == area.end() - area.start());
                    } else {
                        assert(ar.frames@.len() == 0);
                    }
                }
                return Err(MemoryStructureError::DataTooLong);
            }
            let mut k: usize = 0;
            while k < data_pages
                invariant
                    *self == mid_self,
                    *a == a1,
                    dlen + PAGE_SIZE_BYTES <= usize::MAX,
                    area.range_wf(),
                    k <= data_pages,
                    data_pages <= ar.frames@.len(),
                    dlen == d@.len(),
                    dataseq == d@,
                    data_pages * (PAGE_SIZE_BYTES as int) >= dlen,
                    data_pages == spec_data_pages(dlen as int),
                    ar == ar1,
                    ar.frames_wf(m1, a1, self.page_table.nodes@),
                    mem.base == m1.base,
                    mem.len() == m1.len(),
                    forall|q: int|
                        m1.in_range(q) && !ar.owns_page(q) ==> mem.page(q) == m1.page(q),
                    forall|j: int, off: int|
                        0 <= j < k && 0 <= off < PAGE_SIZE_BYTES ==> #[trigger] mem.data(
                            ar.fppn(j),
                        )[off] == init_byte(dataseq, j * (PAGE_SIZE_BYTES as int) + off),
                    forall|j: int|
                        k <= j < ar.frames@.len() ==> mem.data(#[trigger] ar.fppn(j)) =~= Seq::new(
                            PAGE_SIZE_BYTES as nat,
                            |x: int| 0u8,
                        ),
                    forall|j: int|
                        0 <= j < ar.frames@.len() ==> mem.is_data(#[trigger] ar.fppn(j)),
                decreases data_pages - k,
            {
                proof {
                    assert(k * (PAGE_SIZE_BYTES as int) < dlen) by {
                        assert(k as int <= data_pages - 1);
                        vstd::arithmetic::mul::lemma_mul_inequality(
                            k as int,
                            data_pages - 1,
                            PAGE_SIZE_BYTES as int,
                        );
                        assert((data_pages - 1) * (PAGE_SIZE_BYTES as int) < dlen) by {
                            vstd::arithmetic::div_mod::lemma_fundamental_div_mod(
                                dlen as int + (PAGE_SIZE_BYTES as int - 1),
                                PAGE_SIZE_BYTES as int,
                            );
                        }
                    }
                }
                let start: usize = k * (PAGE_SIZE_BYTES as usize);
                let stop: usize = if start + (PAGE_SIZE_BYTES as usize) <= dlen {
                    start + (PAGE_SIZE_BYTES as usize)
                } else {
                    dlen
                };
                let ghost mem_pre = *mem;
                let fr_ppn = self.area_frame_ppn(&ar, k);
                mem.write_data_prefix(fr_ppn, d, start, stop);
                proof {
                    assert forall|j: int, off: int|
                        0 <= j < k + 1 && 0 <= off < PAGE_SIZE_BYTES implies #[trigger] mem.data(
                        ar.fppn(j),
                    )[off] == init_byte(dataseq, j * (PAGE_SIZE_BYTES as int) + off) by {
                        if j < k {
                            assert(ar.fppn(j) != ar.fppn(k as int));
                            assert(mem.page(ar.fppn(j)) == mem_pre.page(ar.fppn(j)));
                            assert(mem_pre.data(ar.fppn(j))[off] == init_byte(
                                dataseq,
                                j * (PAGE_SIZE_BYTES as int) + off,
                            ));
                        } else {
                            assert(mem.data(ar.fppn(k as int)) =~= d@.subrange(
                                start as int,
                                stop as int,
                            ) + mem_pre.data(ar.fppn(k as int)).skip(stop - start));
                            if off < stop - start {
                                assert(mem.data(ar.fppn(j))[off] == d@[start + off]);
                            } else {
                                assert(mem.data(ar.fppn(j))[off] == mem_pre.data(
                                    ar.fppn(k as int),
                                )[off]);
                                assert(mem_pre.data(ar.fppn(k as int))[off] == 0u8);
                                assert(start + off >= dlen);
                            }
                        }
                    }
                    assert forall|j: int|
                        k + 1 <= j < ar.frames@.len() implies mem.data(#[trigger] ar.fppn(j))
                        =~= Seq::new(PAGE_SIZE_BYTES as nat, |x: int| 0u8) by {
                        assert(ar.fppn(j) != ar.fppn(k as int));
                        assert(mem.page(ar.fppn(j)) == mem_pre.page(ar.fppn(j)));
                    }
                    assert forall|q: int|
                        m1.in_range(q) && !ar.owns_page(q) implies mem.page(q) == m1.page(q) by {
                        assert(ar.fppn(k as int) != q);
                        assert(mem.page(q) == mem_pre.page(q));
                    }
                    assert forall|j: int|
                        0 <= j < ar.frames@.len() implies mem.is_data(#[trigger] ar.fppn(j)) by {
                        if j != k {
                            assert(mem.page(ar.fppn(j)) == mem_pre.page(ar.fppn(j)));
                        }
                    }
                }
                k = k + 1;
            }
        }
        let ghost m2 = *mem;
        proof {
            // the data writes touched only the new area's own pages
            assert forall|q: int| self.page_table.nodes@.contains(q) implies m2.page(q) == m1.page(
                q,
            ) by {
                if ar1.owns_page(q) {
                    let j = choose|j: int|
                        0 <= j < ar1.frames@.len() && #[trigger] ar1.fppn(j) == q;
                    assert(!self.page_table.nodes@.contains(ar1.fppn(j)));
                }
                assert(!ar1.owns_page(q));
                assert(a1.live().contains(q));
                assert(a1.floor <= q < a1.current);
                assert(m1.in_range(q));
            }
            crate::page_table::lemma_walk_preserved(self.page_table, m1, m2);
        }
        self.areas.push(ar);
        proof {
            lemma_push_ok_wf(set0, *self, area, a0, *a, m0, m1, m2);
        }
        Ok(())
    }

    /// The page number of frame `k` of `ar`; a bounds-checked read kept out
    /// of the copy loop's borrow of the arena.
    fn area_frame_ppn(&self, ar: &MemoryArea, k: usize) -> (r: PhysPageNumber)
        requires
            k < ar.frames@.len(),
        ensures
            r.0 as int == ar.fppn(k as int),
    {
        ar.frames[k].ppn()
    }
}

/// The bytes an area is initialised with: the supplied slice, or nothing.
pub open spec fn spec_init_data(data: Option<&[u8]>) -> Seq<u8> {
    match data {
        Some(d) => d@,
        None => Seq::empty(),
    }
}

/// Number of whole pages the initial data occupies.
pub open spec fn spec_data_pages(len: int) -> int {
    (len + (PAGE_SIZE_BYTES as int - 1)) / (PAGE_SIZE_BYTES as int)
}

/// When installing a new area fails partway, absorbing whatever of its range
/// got mapped into `extra` restores the set's well-formedness.
proof fn lemma_push_failed_wf(
    s0: MemorySet,
    s1: MemorySet,
    area: MemoryArea,
    a0: StackFrameAllocator,
    a1: StackFrameAllocator,
    m0: PhysFrames,
    m1: PhysFrames,
)
    requires
        s0.wf(m0, a0),
        a1.wf(),
        s1.areas@ == s0.areas@,
        MemoryArea::map_step(s0.page_table, s1.page_table, a0, a1, m0, m1),
        forall|w: int|
            0 <= w < VPN_SPACE && !area.holds_vpn(w) ==> s1.page_table.mapped(m1, w)
                == s0.page_table.mapped(m0, w),
        forall|w: int|
            0 <= w < VPN_SPACE && !area.holds_vpn(w) && s0.page_table.mapped(m0, w)
                ==> s1.page_table.leaf(m1, w) == s0.page_table.leaf(m0, w),
        forall|w: int, j: int|
            area.holds_vpn(w) && 0 <= j < s0.area_count() ==> !(#[trigger] s0.area(j).holds_vpn(
                w,
            )),
        forall|w: int| s0.extra@.contains(w) ==> !area.holds_vpn(w),
        s1.extra@ =~= s0.extra@.union(
            Set::new(|w: int| area.holds_vpn(w) && s1.page_table.mapped(m1, w)),
        ),
    ensures
        s1.wf(m1, a1),
{
    lemma_set_wf_after_pt_step(s0, s1, a0, a1, m0, m1);
    assert forall|w: int| 0 <= w < VPN_SPACE implies (#[trigger] s1.page_table.mapped(m1, w) <==> (
    s1.in_some_area(w) || s1.extra@.contains(w))) by {
        lemma_same_areas_cover(s0, s1, w);
        if area.holds_vpn(w) {
            assert(!s0.in_some_area(w)) by {
                if s0.in_some_area(w) {
                    let j = choose|j: int|
                        0 <= j < s0.area_count() && #[trigger] s0.area(j).holds_vpn(w);
                    assert(!s0.area(j).holds_vpn(w));
                }
            }
            assert(!s0.extra@.contains(w));
        } else {
            assert(s1.page_table.mapped(m1, w) == s0.page_table.mapped(m0, w));
        }
    }
}

/// After an area is fully mapped, its bytes written, and the area recorded,
/// the grown set is well formed.
proof fn lemma_push_ok_wf(
    s0: MemorySet,
    s1: MemorySet,
    area: MemoryArea,
    a0: StackFrameAllocator,
    a1: StackFrameAllocator,
    m0: PhysFrames,
    m1: PhysFrames,
    m2: PhysFrames,
)
    requires
        s0.wf(m0, a0),
        a1.wf(),
        s1.areas@ == s0.areas@.push(s1.area(s0.area_count())),
        s1.extra@ == s0.extra@,
        MemoryArea::map_step(s0.page_table, s1.page_table, a0, a1, m0, m1),
        s1.page_table.wf(m2),
        m2.base == m1.base,
        m2.len() == m1.len(),
        forall|w: int|
            s1.page_table.mapped(m2, w) == s1.page_table.mapped(m1, w),
        forall|w: int|
            s1.page_table.mapped(m1, w) ==> s1.page_table.leaf(m2, w) == s1.page_table.leaf(
                m1,
                w,
            ),
        forall|q: int|
            m1.in_range(q) && !s1.area(s0.area_count()).owns_page(q) ==> m2.page(q) == m1.page(q),
        // what the mapping step established for the new area
        s1.area(s0.area_count()).vpn_start == area.vpn_start,
        s1.area(s0.area_count()).vpn_end == area.vpn_end,
        s1.area(s0.area_count()).map_type == area.map_type,
        area.range_wf(),
        s1.area(s0.area_count()).frames_wf(m1, a1, s1.page_table.nodes@),
        s1.area(s0.area_count()).mapped_in(s1.page_table, m1),
        forall|i: int|
            0 <= i < s1.area(s0.area_count()).frames@.len() ==> m2.is_data(
                #[trigger] s1.area(s0.area_count()).fppn(i),
            ),
        forall|i: int|
            0 <= i < s1.area(s0.area_count()).frames@.len() ==> !a0.live().contains(
                #[trigger] s1.area(s0.area_count()).fppn(i),
            ),
        // view facts from the mapping step
        forall|w: int|
            0 <= w < VPN_SPACE && !area.holds_vpn(w) ==> s1.page_table.mapped(m1, w)
                == s0.page_table.mapped(m0, w),
        forall|w: int|
            0 <= w < VPN_SPACE && !area.holds_vpn(w) && s0.page_table.mapped(m0, w)
                ==> s1.page_table.leaf(m1, w) == s0.page_table.leaf(m0, w),
        forall|w: int, j: int|
            area.holds_vpn(w) && 0 <= j < s0.area_count() ==> !(#[trigger] s0.area(j).holds_vpn(
                w,
            )),
        forall|i: int| 0 <= i < s0.area_count() ==> !(#[trigger] s0.area(i)).spec_overlaps(area),
    ensures
        s1.wf(m2, a1),
{
    let cnt = s0.area_count();
    let na = s1.area(cnt);
    let ghost s_mid = MemorySet { page_table: s1.page_table, areas: s0.areas, extra: s0.extra };
    assert(s_mid.areas@ == s0.areas@);
    assert forall|i: int| 0 <= i < s_mid.area_count() implies s_mid.area(i) == s0.area(i) by {}
    assert forall|q: int|
        m0.in_range(q) && a0.live().contains(q) && !s_mid.page_table.nodes@.contains(
        q,
    ) implies m2.page(q) == m0.page(q) by {
        assert(m1.page(q) == m0.page(q));
        assert(!na.owns_page(q)) by {
            if na.owns_page(q) {
                let j = choose|j: int| 0 <= j < na.frames@.len() && #[trigger] na.fppn(j) == q;
                assert(!a0.live().contains(na.fppn(j)));
            }
        }
        assert(m2.page(q) == m1.page(q));
    }
    // the old areas survive into m2
    lemma_set_wf_after_pt_step(s0, s_mid, a0, a1, m0, m2);
    // each clause of wf for the grown set
    assert forall|i: int| 0 <= i < s1.area_count() implies (#[trigger] s1.area(i)).range_wf() by {
        if i < cnt {
            assert(s1.area(i) == s0.area(i));
        } else {
            assert(s1.area(i) == na);
        }
    }
    assert forall|i: int|
        0 <= i < s1.area_count() implies (#[trigger] s1.area(i)).frames_wf(
        m2,
        a1,
        s1.page_table.nodes@,
    ) by {
        if i < cnt {
            assert(s1.area(i) == s0.area(i));
            assert(s_mid.area(i) == s0.area(i));
            assert(s_mid.area(i).frames_wf(m2, a1, s_mid.page_table.nodes@));
        } else {
            assert(s1.area(i) == na);
            assert(na.frames_wf(m1, a1, s1.page_table.nodes@));
            if na.map_type is Framed {
                assert forall|k: int| 0 <= k < na.frames@.len() implies m2.is_data(
                    #[trigger] na.fppn(k),
                ) by {}
            }
        }
    }
    assert forall|i: int|
        0 <= i < s1.area_count() implies (#[trigger] s1.area(i)).mapped_in(
        s1.page_table,
        m2,
    ) by {
        if i < cnt {
            assert(s1.area(i) == s0.area(i));
            assert(s_mid.area(i) == s0.area(i));
            assert(s_mid.area(i).mapped_in(s_mid.page_table, m2));
        } else {
            assert(s1.area(i) == na);
            assert forall|w: int| na.holds_vpn(w) implies #[trigger] s1.page_table.mapped(m2, w)
                && s1.page_table.leaf(m2, w).spec_ppn() == na.backing(w) && s1.page_table.leaf(
                m2,
                w,
            ).spec_flags() == na.leaf_flags() by {
                assert(s1.page_table.mapped(m1, w));
                assert(s1.page_table.leaf(m2, w) == s1.page_table.leaf(m1, w));
            }
        }
    }
    assert forall|i: int, j: int|
        0 <= i < j < s1.area_count() implies !(#[trigger] s1.area(i)).spec_overlaps(
        #[trigger] s1.area(j),
    ) by {
        if j < cnt {
            assert(s1.area(i) == s0.area(i));
            assert(s1.area(j) == s0.area(j));
        } else {
            assert(s1.area(i) == s0.area(i));
            assert(s1.area(j) == na);
            assert(!s0.area(i).spec_overlaps(area));
        }
    }
    assert forall|w: int| 0 <= w < VPN_SPACE implies (#[trigger] s1.page_table.mapped(m2, w) <==> (
    s1.in_some_area(w) || s1.extra@.contains(w))) by {
        if area.holds_vpn(w) {
            assert(na.holds_vpn(w));
            assert(s1.page_table.mapped(m1, w));
            assert(s1.in_some_area(w)) by {
                assert(s1.area(cnt).holds_vpn(w));
            }
        } else {
            assert(s1.page_table.mapped(m2, w) == s0.page_table.mapped(m0, w));
            assert(s1.in_some_area(w) == s0.in_some_area(w)) by {
                if s1.in_some_area(w) {
                    let i = choose|i: int|
                        0 <= i < s1.area_count() && #[trigger] s1.area(i).holds_vpn(w);
                    if i < cnt {
                        assert(s0.area(i).holds_vpn(w));
                    } else {
                        assert(na.holds_vpn(w));
                    }
                }
                if s0.in_some_area(w) {
                    let i = choose|i: int|
                        0 <= i < s0.area_count() && #[trigger] s0.area(i).holds_vpn(w);
                    assert(s1.area(i).holds_vpn(w));
                }
            }
        }
    }
}



impl MemorySet {
    /// Translates a virtual address to the physical page number backing its
    /// page: succeeds exactly when the page is mapped.
    pub fn translate(&self, va: VirtAddr, mem: &PhysFrames) -> (r: Result<
        PhysPageNumber,
        MemoryStructureError,
    >)
        requires
            self.page_table.wf(*mem),
        ensures
            match r {
                Ok(p) => self.page_table.mapped(
                    *mem,
                    (va.0 % VA_SPACE) as int / PAGE_SIZE_BYTES as int,
                ) && p.0 == self.page_table.leaf(
                    *mem,
                    (va.0 % VA_SPACE) as int / PAGE_SIZE_BYTES as int,
                ).spec_ppn(),
                Err(e) => !self.page_table.mapped(
                    *mem,
                    (va.0 % VA_SPACE) as int / PAGE_SIZE_BYTES as int,
                ) && e matches MemoryStructureError::PageTableFailure(
                    PageTableError::NoMapExists(_),
                ),
            },
    {
        let vpn = va.vpn();
        match self.page_table.translate(vpn, mem) {
            Ok(entry) => Ok(entry.ppn()),
            Err(e) => Err(MemoryStructureError::PageTableFailure(e)),
        }
    }

    /// Checks that the byte span `[va, va + len)` stays inside the one area
    /// containing its first page, and hands back an iterator over the
    /// physical runs it touches. Fails with `CrossMemoryAreaNotAllowed`
    /// exactly when the span leaves that area, and reports an unmapped start
    /// page as such.
    pub fn translate_byte_buffer<'a>(&'a self, va: VirtAddr, len: u64, mem: &PhysFrames) -> (r:
        Result<AddressIterator<'a>, MemoryStructureError>)
        requires
            self.page_table.wf(*mem),
            va.0 + len <= u64::MAX,
            forall|i: int| 0 <= i < self.area_count() ==> (#[trigger] self.area(i)).range_wf(),
        ensures
            ({
                let w = (va.0 % VA_SPACE) as int / PAGE_SIZE_BYTES as int;
                match r {
                    Ok(it) => {
                        &&& exists|i: int|
                            0 <= i < self.area_count() && (#[trigger] self.area(i)).holds_vpn(w)
                                && va.0 + len <= self.area(i).end() * (PAGE_SIZE_BYTES as int)
                        &&& it.start_va == va
                        &&& it.end_va.0 == va.0 + len
                        &&& it.page_table == &self.page_table
                    },
                    Err(MemoryStructureError::CrossMemoryAreaNotAllowed) => exists|i: int|
                        0 <= i < self.area_count() && (#[trigger] self.area(i)).holds_vpn(w)
                            && va.0 + len > self.area(i).end() * (PAGE_SIZE_BYTES as int),
                    Err(MemoryStructureError::PageTableFailure(PageTableError::NoMapExists(
                        _,
                    ))) => !self.in_some_area(w),
                    Err(_) => false,
                }
            }),
    {
        let vpn = va.vpn();
        let n = self.areas.len();
        let mut i: usize = 0;
        while i < n
            invariant
                n == self.areas@.len(),
                i <= n,
                va.0 + len <= u64::MAX,
                forall|j: int| 0 <= j < n ==> (#[trigger] self.area(j)).range_wf(),
                vpn.0 == (va.0 % VA_SPACE) / PAGE_SIZE_BYTES,
                forall|j: int| 0 <= j < i ==> !(#[trigger] self.area(j)).holds_vpn(vpn.0 as int),
            decreases n - i,
        {
            let area = &self.areas[i];
            if area.vpn_start.0 <= vpn.0 && vpn.0 < area.vpn_end.0 {
                proof {
                    assert(self.area(i as int).holds_vpn(vpn.0 as int));
                    assert(self.area(i as int).range_wf());
                    assert(area.vpn_end.0 <= VPN_SPACE);
                }
                let area_end_addr = area.vpn_end.0 * PAGE_SIZE_BYTES;
                if va.0 + len > area_end_addr {
                    return Err(MemoryStructureError::CrossMemoryAreaNotAllowed);
                } else {
                    return Ok(
                        AddressIterator {
                            start_va: va,
                            end_va: VirtAddr(va.0 + len),
                            page_table: &self.page_table,
                        },
                    );
                }
            }
            i = i + 1;
        }
        Err(
            MemoryStructureError::PageTableFailure(
                PageTableError::NoMapExists(vpn),
            ),
        )
    }
}

/// Walks a byte span page by page, yielding one physical run per page: the
/// run's physical start address and its length up to the page boundary or
/// the end of the span.
pub struct AddressIterator<'a> {
    /// Start of the remaining span.
    pub start_va: VirtAddr,
    /// One past the end of the span.
    pub end_va: VirtAddr,
    /// The page table the span is translated through.
    pub page_table: &'a PageTable,
}

impl<'a> AddressIterator<'a> {
    /// Wraps a span and the table to translate it through.
    pub fn new(start_va: VirtAddr, end_va: VirtAddr, page_table: &'a PageTable) -> (r: Self)
        ensures
            r.start_va == start_va,
            r.end_va == end_va,
            r.page_table == page_table,
    {
        AddressIterator { start_va, end_va, page_table }
    }

    /// How many pages the remaining span still touches.
    pub fn len(&self) -> (r: u64)
        requires
            self.start_va.0 <= self.end_va.0 < VA_SPACE,
        ensures
            r == (self.end_va.0 as int / PAGE_SIZE_BYTES as int) + 1 - (self.start_va.0 as int
                / PAGE_SIZE_BYTES as int),
    {
        proof {
            vstd::arithmetic::div_mod::lemma_div_is_ordered(
                self.start_va.0 as int,
                self.end_va.0 as int,
                PAGE_SIZE_BYTES as int,
            );
        }
        (self.end_va.0 / PAGE_SIZE_BYTES - self.start_va.0 / PAGE_SIZE_BYTES) + 1
    }

    /// The next physical run, advancing past it; nothing once the span is
    /// exhausted or when the next page is unmapped.
    pub fn next(&mut self, mem: &PhysFrames) -> (r: Option<(PhysAddr, u64)>)
        requires
            walk_wf(*mem, old(self).page_table.root()),
            old(self).start_va.0 <= old(self).end_va.0 < VA_SPACE,
        ensures
            final(self).end_va == old(self).end_va,
            final(self).page_table == old(self).page_table,
            ({
                let s = old(self).start_va.0 as int;
                let e = old(self).end_va.0 as int;
                let w = s / PAGE_SIZE_BYTES as int;
                let page_end = (w + 1) * (PAGE_SIZE_BYTES as int);
                match r {
                    None => (s >= e || !old(self).page_table.mapped(*mem, w)) && *final(self)
                        == *old(self),
                    Some((pa, rl)) => {
                        &&& s < e
                        &&& old(self).page_table.mapped(*mem, w)
                        &&& pa.0 == old(self).page_table.leaf(*mem, w).spec_ppn() * (
                        PAGE_SIZE_BYTES as int) + (s % PAGE_SIZE_BYTES as int)
                        &&& rl == (if e >= page_end {
                            page_end
                        } else {
                            e
                        }) - s
                        &&& final(self).start_va.0 == (if e >= page_end {
                            page_end
                        } else {
                            e
                        })
                    },
                }
            }),
    {
        if self.start_va.0 >= self.end_va.0 {
            return None;
        }
        let vpn = self.start_va.vpn();
        proof {
            vstd::arithmetic::div_mod::lemma_small_mod(
                self.start_va.0 as nat,
                VA_SPACE as nat,
            );
        }
        let offset = self.start_va.0 % PAGE_SIZE_BYTES;
        let entry = match self.page_table.translate(vpn, mem) {
            Ok(entry) => entry,
            Err(_) => {
                return None;
            },
        };
        let ppn = entry.ppn();
        proof {
            assert(ppn.0 < PPN_SPACE);
            assert(ppn.0 as int * PAGE_SIZE_BYTES as int + offset <= u64::MAX) by {
                assert(ppn.0 <= PPN_SPACE - 1);
                vstd::arithmetic::mul::lemma_mul_inequality(
                    ppn.0 as int,
                    PPN_SPACE as int - 1,
                    PAGE_SIZE_BYTES as int,
                );
            }
            vstd::arithmetic::div_mod::lemma_fundamental_div_mod(
                self.start_va.0 as int,
                PAGE_SIZE_BYTES as int,
            );
        }
        let start_pa = PhysAddr(ppn.0 * PAGE_SIZE_BYTES + offset);
        let page_end = (vpn.0 + 1) * PAGE_SIZE_BYTES;
        let old_start = self.start_va.0;
        if self.end_va.0 >= page_end {
            self.start_va = VirtAddr(page_end);
            Some((start_pa, page_end - old_start))
        } else {
            self.start_va = self.end_va;
            Some((start_pa, self.end_va.0 - old_start))
        }
    }
}



impl MemoryArea {
    /// Returns one page's frame to the allocator (Framed areas) and clears
    /// its mapping. The caller owns the bookkeeping that makes this legal:
    /// the page must be mapped and, for a Framed area, its frame live.
    pub fn unmap_one(
        &self,
        page_table: &mut PageTable,
        vpn: VirtPageNumber,
        a: &mut StackFrameAllocator,
        mem: &mut PhysFrames,
    ) -> (r: Result<(), MemoryStructureError>)
        requires
            vpn.0 < VPN_SPACE,
            old(page_table).wf(*old(mem)),
            old(a).wf(),
            self.map_type matches MemoryAreaType::Framed ==> self.holds_vpn(vpn.0 as int)
                && self.frames@.len() == self.end() - self.start() && old(a).can_dealloc(
                self.fppn(vpn.0 - self.start()),
            ),
            old(page_table).mapped(*old(mem), vpn.0 as int),
        ensures
            r is Ok,
            *final(page_table) == *old(page_table),
            final(page_table).wf(*final(mem)),
            final(a).wf(),
            final(mem).base == old(mem).base,
            final(mem).len() == old(mem).len(),
            !final(page_table).mapped(*final(mem), vpn.0 as int),
            forall|w: int|
                0 <= w < VPN_SPACE && w != vpn.0 ==> final(page_table).mapped(*final(mem), w)
                    == old(page_table).mapped(*old(mem), w),
            forall|w: int|
                0 <= w < VPN_SPACE && w != vpn.0 && old(page_table).mapped(*old(mem), w)
                    ==> final(page_table).leaf(*final(mem), w) == old(page_table).leaf(
                    *old(mem),
                    w,
                ),
            forall|q: int|
                old(mem).in_range(q) && !old(page_table).nodes@.contains(q) ==> final(mem).page(q)
                    == old(mem).page(q),
            self.map_type matches MemoryAreaType::Framed ==> final(a).live() =~= old(
                a,
            ).live().remove(self.fppn(vpn.0 - self.start())),
            self.map_type matches MemoryAreaType::Identical ==> final(a).live() =~= old(
                a,
            ).live(),
    {
        let framed = match &self.map_type {
            MemoryAreaType::Framed => true,
            MemoryAreaType::Identical => false,
        };
        if framed {
            let idx = (vpn.0 - self.vpn_start.0) as usize;
            let frame_ppn = self.frames[idx].ppn();
            a.dealloc(frame_ppn);
        }
        match page_table.unmap(vpn, mem) {
            Ok(()) => Ok(()),
            Err(e) => Err(MemoryStructureError::PageTableFailure(e)),
        }
    }

    /// Returns every frame of the area and clears the whole range's
    /// mappings, leaving every other mapping untouched.
    pub fn unmap(
        &self,
        page_table: &mut PageTable,
        a: &mut StackFrameAllocator,
        mem: &mut PhysFrames,
    ) -> (r: Result<(), MemoryStructureError>)
        requires
            self.range_wf(),
            old(page_table).wf(*old(mem)),
            old(a).wf(),
            self.frames_wf(*old(mem), *old(a), old(page_table).nodes@),
            forall|w: int| self.holds_vpn(w) ==> old(page_table).mapped(*old(mem), w),
            self.map_type matches MemoryAreaType::Framed ==> forall|i: int|
                0 <= i < self.frames@.len() ==> old(a).can_dealloc(#[trigger] self.fppn(i)),
        ensures
            r is Ok,
            *final(page_table) == *old(page_table),
            final(page_table).wf(*final(mem)),
            final(a).wf(),
            final(mem).base == old(mem).base,
            final(mem).len() == old(mem).len(),
            forall|w: int| self.holds_vpn(w) ==> !final(page_table).mapped(*final(mem), w),
            forall|w: int|
                0 <= w < VPN_SPACE && !self.holds_vpn(w) ==> final(page_table).mapped(
                    *final(mem),
                    w,
                ) == old(page_table).mapped(*old(mem), w),
            forall|q: int|
                old(mem).in_range(q) && !old(page_table).nodes@.contains(q) ==> final(mem).page(q)
                    == old(mem).page(q),
            // exactly the area's own frames go back to the allocator
            forall|q: int|
                final(a).live().contains(q) <==> old(a).live().contains(q) && !(
                self.map_type matches MemoryAreaType::Framed && exists|x: int|
                    0 <= x < self.end() - self.start() && #[trigger] self.fppn(x) == q),
    {
        let ghost pt0 = *page_table;
        let ghost a0 = *a;
        let ghost m0 = *mem;
        let start = self.vpn_start.0;
        let end = self.vpn_end.0;
        let mut k: u64 = 0;
        while k < end - start
            invariant
                pt0 == *old(page_table),
                a0 == *old(a),
                m0 == *old(mem),
                start == self.vpn_start.0,
                end == self.vpn_end.0,
                self.range_wf(),
                0 <= k <= end - start,
                *page_table == pt0,
                page_table.wf(*mem),
                a.wf(),
                mem.base == m0.base,
                mem.len() == m0.len(),
                pt0.wf(m0),
                self.frames_wf(m0, a0, pt0.nodes@),
                forall|w: int| self.holds_vpn(w) ==> pt0.mapped(m0, w),
                (self.map_type matches MemoryAreaType::Framed ==> forall|i: int|
                    0 <= i < self.frames@.len() ==> a0.can_dealloc(#[trigger] self.fppn(i))),
                forall|w: int|
                    start <= w < start + k ==> !page_table.mapped(*mem, w),
                forall|w: int|
                    0 <= w < VPN_SPACE && !(start <= w < start + k) ==> page_table.mapped(*mem, w)
                        == pt0.mapped(m0, w),
                forall|q: int|
                    m0.in_range(q) && !pt0.nodes@.contains(q) ==> mem.page(q) == m0.page(q),
                forall|q: int|
                    a.live().contains(q) <==> a0.live().contains(q) && !(
                    self.map_type matches MemoryAreaType::Framed && exists|x: int|
                        0 <= x < k && #[trigger] self.fppn(x) == q),
                (self.map_type matches MemoryAreaType::Framed ==> forall|i: int|
                    k <= i < self.frames@.len() ==> a.can_dealloc(#[trigger] self.fppn(i))),
            decreases end - start - k,
        {
            let vpn = VirtPageNumber(start + k);
            let ghost a_pre = *a;
            proof {
                assert(0 <= vpn.0 < VPN_SPACE);
                assert(!(start <= vpn.0 < start + k));
                assert(page_table.mapped(*mem, vpn.0 as int) == pt0.mapped(m0, vpn.0 as int));
                assert(self.holds_vpn(vpn.0 as int));
                if self.map_type is Framed {
                    assert(a.can_dealloc(self.fppn(vpn.0 - self.start())));
                }
            }
            let res = self.unmap_one(page_table, vpn, a, mem);
            proof {
                if self.map_type is Framed {
                    assert forall|i: int|
                        k + 1 <= i < self.frames@.len() implies a.can_dealloc(
                        #[trigger] self.fppn(i),
                    ) by {
                        assert(a_pre.can_dealloc(self.fppn(i)));
                        assert(a_pre.live().contains(self.fppn(i)));
                        assert(self.fppn(i) != self.fppn(k as int));
                        assert(a.live().contains(self.fppn(i)));
                        assert(a.can_dealloc(self.fppn(i)));
                    }
                }
            }
            k = k + 1;
        }
        Ok(())
    }
}




/// Freshness propagates through one mutating step: if a structure's node
/// pages were all unknown to the allocator state `a_orig`, and the step
/// created nodes only from pages the intermediate allocator had free, the
/// grown node set is still unknown to `a_orig`, and every page `a_orig` had
/// handed out keeps its image.
pub proof fn lemma_fresh_nodes_step(
    n0: Set<int>,
    n1: Set<int>,
    a_orig: StackFrameAllocator,
    a0: StackFrameAllocator,
    m_orig: PhysFrames,
    m0: PhysFrames,
    m1: PhysFrames,
)
    requires
        forall|p: int| n0.contains(p) ==> !a_orig.live().contains(p),
        forall|q: int|
            m_orig.in_range(q) && a_orig.live().contains(q) ==> m0.page(q) == m_orig.page(q),
        m0.base == m_orig.base,
        m0.len() == m_orig.len(),
        m1.base == m0.base,
        m1.len() == m0.len(),
        forall|q: int| a_orig.live().contains(q) ==> a0.live().contains(q),
        forall|p: int| n1.contains(p) ==> n0.contains(p) || !a0.live().contains(p),
        forall|q: int|
            m0.in_range(q) && a0.live().contains(q) && !n1.contains(q) ==> m1.page(q) == m0.page(
                q,
            ),
    ensures
        forall|p: int| n1.contains(p) ==> !a_orig.live().contains(p),
        forall|q: int|
            m_orig.in_range(q) && a_orig.live().contains(q) ==> m1.page(q) == m_orig.page(q),
{
    assert forall|p: int| n1.contains(p) implies !a_orig.live().contains(p) by {
        if n0.contains(p) {
        } else {
            assert(!a0.live().contains(p));
        }
    }
    assert forall|q: int|
        m_orig.in_range(q) && a_orig.live().contains(q) implies m1.page(q) == m_orig.page(q) by {
        assert(a0.live().contains(q));
        assert(!n1.contains(q));
        assert(m0.in_range(q));
    }
}


/// The user-mode permission byte a loadable segment's flags select: always
/// user-accessible, with execute, read and write taken from the header's
/// X, R and W bits.
pub open spec fn spec_seg_perms(p_flags: u64) -> u8 {
    let with_x = if p_flags % 2 == 1 {
        PERM_U | PERM_X
    } else {
        PERM_U
    };
    let with_r = if (p_flags / 4) % 2 == 1 {
        with_x | PERM_R
    } else {
        with_x
    };
    if (p_flags / 2) % 2 == 1 {
        with_r | PERM_W
    } else {
        with_r
    }
}

/// First page number of the area a loadable header selects.
pub open spec fn spec_seg_vpn_start(b: Seq<u8>, h: int) -> int {
    (crate::elf_image::spec_segment(b, h).p_vaddr % VA_SPACE) as int / (PAGE_SIZE_BYTES as int)
}

/// One past the last page number of that area.
pub open spec fn spec_seg_vpn_end(b: Seq<u8>, h: int) -> int {
    let seg = crate::elf_image::spec_segment(b, h);
    ((seg.p_vaddr + seg.p_memsz - 1) + (PAGE_SIZE_BYTES as int - 1)) % (VA_SPACE as int) / (
    PAGE_SIZE_BYTES as int)
}

/// Whether loadable header `h` can be placed: its memory span computes
/// without wrapping, rounds to a non-empty page range below the
/// trap-context page, and its file bytes fit in that range.
pub open spec fn spec_load_placeable(b: Seq<u8>, h: int) -> bool {
    let seg = crate::elf_image::spec_segment(b, h);
    &&& seg.p_memsz <= u64::MAX - seg.p_vaddr
    &&& seg.p_vaddr + seg.p_memsz > 0
    &&& seg.p_vaddr + seg.p_memsz <= VA_SPACE - PAGE_SIZE_BYTES
    &&& spec_seg_vpn_start(b, h) < spec_seg_vpn_end(b, h)
    &&& spec_seg_vpn_end(b, h) < VPN_SPACE - 1
    &&& spec_data_pages(seg.p_filesz as int) <= spec_seg_vpn_end(b, h) - spec_seg_vpn_start(b, h)
}

/// Whether no two loadable headers select overlapping page ranges, by the
/// exact insertion-order overlap test.
pub open spec fn spec_loads_disjoint(b: Seq<u8>) -> bool {
    forall|h1: int, h2: int|
        0 <= h1 < h2 < crate::elf_image::read_le(b, 56, 2) && (
        #[trigger] crate::elf_image::spec_segment(b, h1)).p_type == crate::elf_image::PT_LOAD && (
        #[trigger] crate::elf_image::spec_segment(b, h2)).p_type == crate::elf_image::PT_LOAD
            ==> !(spec_seg_vpn_start(b, h1) <= spec_seg_vpn_end(b, h2) && spec_seg_vpn_start(
            b,
            h2,
        ) < spec_seg_vpn_end(b, h1))
}

/// The end of the highest loadable span among the first `upto` headers;
/// zero when there is none.
pub open spec fn spec_max_end(b: Seq<u8>, upto: int) -> int
    decreases upto,
{
    if upto <= 0 {
        0
    } else {
        let prev = spec_max_end(b, upto - 1);
        let seg = crate::elf_image::spec_segment(b, upto - 1);
        if seg.p_type == crate::elf_image::PT_LOAD && seg.p_vaddr + seg.p_memsz > prev {
            seg.p_vaddr + seg.p_memsz
        } else {
            prev
        }
    }
}

/// Whether the fixed-size user stack fits between the highest loaded page
/// and the trap-context page.
pub open spec fn spec_stack_fits(b: Seq<u8>) -> bool {
    let n = crate::elf_image::read_le(b, 56, 2);
    (spec_max_end(b, n) % (VA_SPACE as int)) / (PAGE_SIZE_BYTES as int) + 1 < VPN_SPACE - 1 - ((
    USER_STACK_SIZE / PAGE_SIZE_BYTES) as int + 1)
}

/// Every index below the load count has a loadable header carrying it.
proof fn lemma_load_index_inverse(b: Seq<u8>, m: int, j: int)
    requires
        0 <= j < crate::elf_image::num_loads(b, m),
    ensures
        exists|h: int|
            0 <= h < m && (#[trigger] crate::elf_image::spec_segment(b, h)).p_type
                == crate::elf_image::PT_LOAD && crate::elf_image::num_loads(b, h) == j,
    decreases m,
{
    crate::elf_image::lemma_num_loads_bounds(b, if m >= 0 {
        m
    } else {
        0
    });
    if m > 0 {
        if j < crate::elf_image::num_loads(b, m - 1) {
            lemma_load_index_inverse(b, m - 1, j);
            let h = choose|h: int|
                0 <= h < m - 1 && (#[trigger] crate::elf_image::spec_segment(b, h)).p_type
                    == crate::elf_image::PT_LOAD && crate::elf_image::num_loads(b, h) == j;
            assert(0 <= h < m && crate::elf_image::spec_segment(b, h).p_type
                == crate::elf_image::PT_LOAD && crate::elf_image::num_loads(b, h) == j);
        } else {
            crate::elf_image::lemma_num_loads_bounds(b, m - 1);
            assert(crate::elf_image::spec_segment(b, m - 1).p_type == crate::elf_image::PT_LOAD
                && crate::elf_image::num_loads(b, m - 1) == j);
        }
    }
}

/// Whether `q` is one of the frames some area of `set` owns.
pub open spec fn set_owns_frame(set: MemorySet, q: int) -> bool {
    exists|i: int, k: int|
        0 <= i < set.area_count() && 0 <= k < set.area(i).frames@.len() && #[trigger] set.area(
            i,
        ).fppn(k) == q
}

/// What it means for area `k` of `set` to carry program header `h` of the
/// image `b`: it spans the header's memory span, is frame-backed and
/// user-accessible with the header's access bits, and its pages hold the
/// header's file bytes followed by zeroes.
pub open spec fn area_loads_segment(
    set: MemorySet,
    mem: PhysFrames,
    b: Seq<u8>,
    h: int,
    k: int,
) -> bool {
    let seg = crate::elf_image::spec_segment(b, h);
    let ar = set.area(k);
    &&& 0 <= k < set.area_count()
    &&& ar.vpn_start.0 == spec_seg_vpn_start(b, h)
    &&& ar.vpn_end.0 == spec_seg_vpn_end(b, h)
    &&& ar.map_type is Framed
    &&& ar.map_permissions.0 == spec_seg_perms(seg.p_flags)
    &&& forall|i: int, off: int|
        0 <= i < ar.frames@.len() && 0 <= off < PAGE_SIZE_BYTES ==> #[trigger] mem.data(
            ar.fppn(i),
        )[off] == init_byte(crate::elf_image::seg_bytes(b, h), i * (PAGE_SIZE_BYTES as int) + off)
}

/// Builds a fresh address space from an ELF image: one frame-backed area per
/// loadable segment holding its file bytes zero-padded to its memory size, a
/// user stack just above the highest loaded page, and the trap-context page
/// below the trampoline. Returns the set, the initial stack pointer and the
/// entry point. A malformed image is always refused.
#[verifier::rlimit(100)]
pub fn new_elf_memory_set(
    process_index: u64,
    elf_raw: &[u8],
    strampoline: PhysAddr,
    a: &mut StackFrameAllocator,
    mem: &mut PhysFrames,
) -> (r: Result<(MemorySet, u64, u64), MemoryStructureError>)
    requires
        old(a).wf(),
        allocator_within(*old(a), *old(mem)),
        strampoline.0 < crate::address::PA_SPACE,
        elf_raw@.len() + PAGE_SIZE_BYTES <= usize::MAX,
    ensures
            old(a).exhausted() ==> final(a).exhausted(),
        final(a).wf(),
        allocator_within(*final(a), *final(mem)),
        final(a).floor == old(a).floor,
        final(a).end == old(a).end,
        final(mem).base == old(mem).base,
        final(mem).len() == old(mem).len(),
        forall|q: int| old(a).live().contains(q) ==> final(a).live().contains(q),
        forall|q: int|
            old(mem).in_range(q) && old(a).live().contains(q) ==> final(mem).page(q) == old(
                mem,
            ).page(q),
        !crate::elf_image::spec_elf_wf(elf_raw@) ==> r matches Err(MemoryStructureError::BadElf),
        match r {
            Ok((set, usp, entry)) => {
                &&& set.wf(*final(mem), *final(a))
                &&& forall|p: int|
                    set.page_table.nodes@.contains(p) ==> !old(a).live().contains(p)
                &&& forall|p: int| set_owns_frame(set, p) ==> !old(a).live().contains(p)
                &&& crate::elf_image::spec_elf_wf(elf_raw@)
                &&& entry == crate::elf_image::read_le(elf_raw@, 24, 8)
                &&& forall|h: int|
                    0 <= h < crate::elf_image::read_le(elf_raw@, 56, 2)
                        && #[trigger] crate::elf_image::spec_segment(elf_raw@, h).p_type
                        == crate::elf_image::PT_LOAD ==> area_loads_segment(
                        set,
                        *final(mem),
                        elf_raw@,
                        h,
                        crate::elf_image::num_loads(elf_raw@, h),
                    )
                &&& set.area_count() == crate::elf_image::num_loads(
                    elf_raw@,
                    crate::elf_image::read_le(elf_raw@, 56, 2),
                ) + 2
                &&& usp == set.area(set.area_count() - 2).end() * (PAGE_SIZE_BYTES as int)
                // the user stack sits just above the highest loaded page,
                // frame-backed, read/write and user-accessible
                &&& set.area(set.area_count() - 2).vpn_start.0 == spec_max_end(
                    elf_raw@,
                    crate::elf_image::read_le(elf_raw@, 56, 2),
                ) / (PAGE_SIZE_BYTES as int) + 1
                &&& set.area(set.area_count() - 2).vpn_end.0 == set.area(
                    set.area_count() - 2,
                ).vpn_start.0 + USER_STACK_SIZE / PAGE_SIZE_BYTES
                &&& set.area(set.area_count() - 2).map_type is Framed
                &&& set.area(set.area_count() - 2).map_permissions.0 == (PERM_R | PERM_W | PERM_U)
                // the trap-context page sits directly below the trampoline,
                // frame-backed and not user-accessible
                &&& set.area(set.area_count() - 1).vpn_start.0 == VPN_SPACE - 2
                &&& set.area(set.area_count() - 1).vpn_end.0 == VPN_SPACE - 1
                &&& set.area(set.area_count() - 1).map_type is Framed
                &&& set.area(set.area_count() - 1).map_permissions.0 == (PERM_R | PERM_W | PERM_X)
                // the trampoline page maps the trap-transfer code, R|X
                &&& set.page_table.mapped(*final(mem), VPN_SPACE as int - 1)
                &&& set.page_table.leaf(*final(mem), VPN_SPACE as int - 1).spec_ppn()
                    == strampoline.0 as int / PAGE_SIZE_BYTES as int
                &&& set.page_table.leaf(*final(mem), VPN_SPACE as int - 1).spec_flags() == (
                crate::page_table::PTE_R | crate::page_table::PTE_X | crate::page_table::PTE_V)
            },
            // every refusal is tied to its cause: a malformed or unplaceable
            // image, overlapping segments, or a dry allocator
            Err(MemoryStructureError::BadElf) => !crate::elf_image::spec_elf_wf(elf_raw@) || (
            exists|h: int|
                0 <= h < crate::elf_image::read_le(elf_raw@, 56, 2) && (
                #[trigger] crate::elf_image::spec_segment(elf_raw@, h)).p_type
                    == crate::elf_image::PT_LOAD && !spec_load_placeable(elf_raw@, h))
                || !spec_stack_fits(elf_raw@),
            Err(MemoryStructureError::InvalidMemoryArea(_, _)) => exists|h: int|
                0 <= h < crate::elf_image::read_le(elf_raw@, 56, 2) && (
                #[trigger] crate::elf_image::spec_segment(elf_raw@, h)).p_type
                    == crate::elf_image::PT_LOAD && !spec_load_placeable(elf_raw@, h),
            Err(MemoryStructureError::DataTooLong) => exists|h: int|
                0 <= h < crate::elf_image::read_le(elf_raw@, 56, 2) && (
                #[trigger] crate::elf_image::spec_segment(elf_raw@, h)).p_type
                    == crate::elf_image::PT_LOAD && !spec_load_placeable(elf_raw@, h),
            Err(MemoryStructureError::OverlappedMemoryArea) => !spec_loads_disjoint(elf_raw@),
            Err(MemoryStructureError::OutOfMemory) => final(a).exhausted(),
            Err(MemoryStructureError::PageTableFailure(_)) => final(a).exhausted(),
            Err(_) => false,
        },
{
    let info = match crate::elf_image::parse_elf(elf_raw) {
        Ok(info) => info,
        Err(_) => {
            return Err(MemoryStructureError::BadElf);
        },
    };
    let mut set = match MemorySet::new(a, mem) {
        Ok(set) => set,
        Err(e) => {
            return Err(e);
        },
    };
    match set.map_trampoline(strampoline, a, mem) {
        Ok(()) => {},
        Err(e) => {
            return Err(e);
        },
    }
    let ghost b = elf_raw@;
    let ghost tramp = (TRAMPOLINE % VA_SPACE) as int / (PAGE_SIZE_BYTES as int);
    let mut max_end_va: u64 = 0;
    let n = info.segments.len();
    let mut h: usize = 0;
    while h < n
        invariant
            a.wf(),
            allocator_within(*a, *mem),
            a.floor == old(a).floor,
            a.end == old(a).end,
            mem.base == old(mem).base,
            mem.len() == old(mem).len(),
            forall|q: int| old(a).live().contains(q) ==> a.live().contains(q),
            old(a).exhausted() ==> a.exhausted(),
            b == elf_raw@,
            elf_raw@.len() + PAGE_SIZE_BYTES <= usize::MAX,
            crate::elf_image::spec_elf_wf(b),
            n == info.segments@.len(),
            n == crate::elf_image::read_le(b, 56, 2),
            forall|j: int|
                0 <= j < n ==> #[trigger] info.segments@[j] == crate::elf_image::spec_segment(
                    b,
                    j,
                ),
            h <= n,
            set.wf(*mem, *a),
            forall|p: int| set.page_table.nodes@.contains(p) ==> !old(a).live().contains(p),
            forall|p: int| set_owns_frame(set, p) ==> !old(a).live().contains(p),
            forall|q: int|
                old(mem).in_range(q) && old(a).live().contains(q) ==> mem.page(q) == old(
                    mem,
                ).page(q),
            set.extra@ =~= Set::<int>::empty().insert(tramp),
            tramp == VPN_SPACE - 1,
            strampoline.0 < crate::address::PA_SPACE,
            max_end_va == spec_max_end(b, h as int),
            max_end_va <= VA_SPACE - PAGE_SIZE_BYTES,
            forall|j: int|
                0 <= j < set.area_count() ==> (#[trigger] set.area(j)).end() <= max_end_va as int
                    / PAGE_SIZE_BYTES as int + 1,
            set.page_table.mapped(*mem, tramp),
            set.page_table.leaf(*mem, tramp).spec_ppn() == strampoline.0 as int
                / PAGE_SIZE_BYTES as int,
            set.page_table.leaf(*mem, tramp).spec_flags() == (crate::page_table::PTE_R
                | crate::page_table::PTE_X | crate::page_table::PTE_V),
            set.area_count() == crate::elf_image::num_loads(b, h as int),
            forall|j: int|
                0 <= j < h && #[trigger] crate::elf_image::spec_segment(b, j).p_type
                    == crate::elf_image::PT_LOAD ==> area_loads_segment(
                    set,
                    *mem,
                    b,
                    j,
                    crate::elf_image::num_loads(b, j),
                ),
        decreases n - h,
    {
        let seg = info.segments[h];
        let ghost set_pre = set;
        let ghost a_pre = *a;
        let ghost m_pre = *mem;
        let ghost m_pre_max = max_end_va;
        if seg.p_type == crate::elf_image::PT_LOAD {
            proof {
                assert(seg == crate::elf_image::spec_segment(b, h as int));
            }
            if seg.p_memsz > u64::MAX - seg.p_vaddr {
                proof {
                    assert(!spec_load_placeable(b, h as int));
                }
                return Err(MemoryStructureError::BadElf);
            }
            let start_va = VirtAddr(seg.p_vaddr);
            let end_raw = seg.p_vaddr + seg.p_memsz;
            if end_raw > VA_SPACE - PAGE_SIZE_BYTES {
                proof {
                    assert(!spec_load_placeable(b, h as int));
                }
                return Err(MemoryStructureError::BadElf);
            }
            let end_va = VirtAddr(end_raw);
            let perm = seg_permissions(seg.p_flags);
            let area = match MemoryArea::new(start_va, end_va, MemoryAreaType::Framed, perm) {
                Ok(area) => area,
                Err(e) => {
                    proof {
                        assert(!spec_load_placeable(b, h as int));
                    }
                    return Err(e);
                },
            };
            proof {
                assert(area.vpn_start.0 == spec_seg_vpn_start(b, h as int));
                assert(area.vpn_end.0 == spec_seg_vpn_end(b, h as int));
            }
            if area.vpn_end.0 >= VPN_SPACE - 1 {
                proof {
                    assert(!spec_load_placeable(b, h as int));
                }
                return Err(MemoryStructureError::BadElf);
            }
            if max_end_va < end_raw {
                max_end_va = end_raw;
            }
            proof {
                assert(max_end_va == spec_max_end(b, h as int + 1));
                assert(end_raw >= 1);
                lemma_span_end_bound(end_raw as int, max_end_va as int);
                vstd::arithmetic::div_mod::lemma_small_mod(
                    (end_raw - 1 + (PAGE_SIZE_BYTES - 1)) as nat,
                    VA_SPACE as nat,
                );
                assert(area.end() <= max_end_va as int / PAGE_SIZE_BYTES as int + 1);
            }
            let seg_img = slice_range(elf_raw, seg.p_offset as usize, seg.p_filesz as usize);
            let ghost area_snapshot = area;
            match set.push(area, Some(seg_img.as_slice()), a, mem) {
                Ok(()) => {},
                Err(e) => {
                    proof {
                        match &e {
                            MemoryStructureError::OverlappedMemoryArea => {
                                let i = choose|i: int|
                                    0 <= i < set_pre.area_count() && (#[trigger] set_pre.area(
                                        i,
                                    )).spec_overlaps(area_snapshot);
                                lemma_load_index_inverse(b, h as int, i);
                                let h1 = choose|h1: int|
                                    0 <= h1 < h && (
                                    #[trigger] crate::elf_image::spec_segment(b, h1)).p_type
                                        == crate::elf_image::PT_LOAD
                                        && crate::elf_image::num_loads(b, h1) == i;
                                assert(area_loads_segment(set_pre, m_pre, b, h1, i));
                                assert(set_pre.area(i).vpn_start.0 == spec_seg_vpn_start(b, h1));
                                assert(set_pre.area(i).vpn_end.0 == spec_seg_vpn_end(b, h1));
                                assert(!spec_loads_disjoint(b));
                            },
                            MemoryStructureError::DataTooLong => {
                                assert(seg_img@.len() == seg.p_filesz);
                                assert(!spec_load_placeable(b, h as int));
                            },
                            _ => {},
                        }
                    }
                    return Err(e);
                },
            }
            proof {
                lemma_fresh_nodes_step(
                    set_pre.page_table.nodes@,
                    set.page_table.nodes@,
                    *old(a),
                    a_pre,
                    *old(mem),
                    m_pre,
                    *mem,
                );
                assert forall|p: int| set_owns_frame(set, p) implies !old(a).live().contains(
                    p,
                ) by {
                    let (i, kk) = choose|i: int, kk: int|
                        0 <= i < set.area_count() && 0 <= kk < set.area(i).frames@.len()
                            && #[trigger] set.area(i).fppn(kk) == p;
                    if i < set_pre.area_count() {
                        assert(set.area(i) == set_pre.area(i));
                        assert(set_owns_frame(set_pre, p)) by {
                            assert(set_pre.area(i).fppn(kk) == p);
                        }
                    } else {
                        assert(!a_pre.live().contains(set.area(i).fppn(kk)));
                    }
                }
                let k = set_pre.area_count();
                assert(set.area_count() == k + 1);
                assert(crate::elf_image::num_loads(b, h as int + 1) == crate::elf_image::num_loads(
                    b,
                    h as int,
                ) + 1);
                assert(seg_img@ =~= crate::elf_image::seg_bytes(b, h as int));
                assert(area_loads_segment(set, *mem, b, h as int, k)) by {
                    let na = set.area(k);
                    assert(na.vpn_start == area_snapshot.vpn_start);
                    assert(na.vpn_end == area_snapshot.vpn_end);
                    assert(na.map_permissions == area_snapshot.map_permissions);
                    assert(area_snapshot.vpn_end.0 == spec_seg_vpn_end(b, h as int));
                    assert(area_snapshot.map_permissions.0 == spec_seg_perms(
                        crate::elf_image::spec_segment(b, h as int).p_flags,
                    ));
                }
                assert(!area_snapshot.holds_vpn(tramp));
                assert(set.page_table.mapped(*mem, tramp) == set_pre.page_table.mapped(
                    m_pre,
                    tramp,
                ));
                assert(set.page_table.leaf(*mem, tramp) == set_pre.page_table.leaf(m_pre, tramp));
                assert forall|j: int|
                    0 <= j < set.area_count() implies (#[trigger] set.area(j)).end()
                    <= max_end_va as int / PAGE_SIZE_BYTES as int + 1 by {
                    if j < set_pre.area_count() {
                        assert(set.area(j) == set_pre.area(j));
                        vstd::arithmetic::div_mod::lemma_div_is_ordered(
                            m_pre_max as int,
                            max_end_va as int,
                            PAGE_SIZE_BYTES as int,
                        );
                    } else {
                        assert(set.area(j).vpn_end == area_snapshot.vpn_end);
                    }
                }
                assert forall|j: int|
                    0 <= j < h + 1 && #[trigger] crate::elf_image::spec_segment(b, j).p_type
                        == crate::elf_image::PT_LOAD implies area_loads_segment(
                    set,
                    *mem,
                    b,
                    j,
                    crate::elf_image::num_loads(b, j),
                ) by {
                    if j < h {
                        lemma_loaded_area_preserved(set_pre, set, a_pre, m_pre, *mem, b, j);
                    }
                }
            }
        } else {
            proof {
                assert(crate::elf_image::num_loads(b, h as int + 1) == crate::elf_image::num_loads(
                    b,
                    h as int,
                ));
                assert(spec_max_end(b, h as int + 1) == spec_max_end(b, h as int));
            }
        }
        h = h + 1;
    }
    let usp = match place_stack_and_trap(
        &mut set,
        max_end_va,
        a,
        mem,
        Ghost(b),
        Ghost(strampoline),
        Ghost(*old(a)),
        Ghost(*old(mem)),
    ) {
        Ok(usp) => usp,
        Err(e) => {
            return Err(e);
        },
    };
    Ok((set, usp, info.entry))
}


/// Builds the user permission byte a loadable header's flags select.
fn seg_permissions(p_flags: u64) -> (r: MemoryAreaPermissions)
    ensures
        r.0 == spec_seg_perms(p_flags),
{
    let mut perm = MemoryAreaPermissions(PERM_U);
    if p_flags % 2 == 1 {
        perm = perm.union(MemoryAreaPermissions(PERM_X));
    }
    if (p_flags / 4) % 2 == 1 {
        perm = perm.union(MemoryAreaPermissions(PERM_R));
    }
    if (p_flags / 2) % 2 == 1 {
        perm = perm.union(MemoryAreaPermissions(PERM_W));
    }
    perm
}


/// A span ending at or below `m` rounds up to a page boundary no higher
/// than one past `m`'s page.
proof fn lemma_span_end_bound(e: int, m: int)
    requires
        1 <= e <= m,
    ensures
        (e - 1 + (PAGE_SIZE_BYTES as int - 1)) / (PAGE_SIZE_BYTES as int) <= m / (
        PAGE_SIZE_BYTES as int) + 1,
{
    let pg = PAGE_SIZE_BYTES as int;
    vstd::arithmetic::div_mod::lemma_div_is_ordered(e + (pg - 2), m + (pg - 2), pg);
    let q = m / pg;
    let r = m % pg;
    vstd::arithmetic::div_mod::lemma_fundamental_div_mod(m, pg);
    if r < 2 {
        vstd::arithmetic::div_mod::lemma_fundamental_div_mod_converse(
            m + (pg - 2),
            pg,
            q,
            r + (pg - 2),
        );
    } else {
        vstd::arithmetic::div_mod::lemma_fundamental_div_mod_converse(
            m + (pg - 2),
            pg,
            q + 1,
            r - 2,
        );
    }
}


/// Arithmetic of the stack area's bounds: starting one page above the
/// highest loaded page and spanning exactly the fixed stack size, the area's
/// end boundary is the stack pointer's page.
proof fn lemma_stack_area_arith(
    sa: MemoryArea,
    sbv: int,
    bottom: int,
    top: int,
    maxe: int,
    smax: int,
)
    requires
        maxe == smax,
        0 <= maxe <= VA_SPACE - PAGE_SIZE_BYTES,
        sbv == (maxe % (VA_SPACE as int)) / (PAGE_SIZE_BYTES as int),
        bottom == (sbv + 1) * (PAGE_SIZE_BYTES as int),
        top == bottom + USER_STACK_SIZE,
        top < VA_SPACE,
        sa.vpn_start.0 == (bottom % (VA_SPACE as int)) / (PAGE_SIZE_BYTES as int),
        sa.vpn_end.0 == ((top - 1) + (PAGE_SIZE_BYTES as int - 1)) % (VA_SPACE as int) / (
        PAGE_SIZE_BYTES as int),
    ensures
        top == sa.end() * (PAGE_SIZE_BYTES as int),
        sa.vpn_start.0 == smax / (PAGE_SIZE_BYTES as int) + 1,
        sa.vpn_end.0 == sa.vpn_start.0 + USER_STACK_SIZE / PAGE_SIZE_BYTES,
{
    let p = PAGE_SIZE_BYTES as int;
    vstd::arithmetic::div_mod::lemma_small_mod(maxe as nat, VA_SPACE as nat);
    vstd::arithmetic::div_mod::lemma_small_mod(bottom as nat, VA_SPACE as nat);
    vstd::arithmetic::div_mod::lemma_fundamental_div_mod_converse(bottom, p, sbv + 1, 0);
    assert(t_div(top, p) == sbv + 1 + USER_STACK_SIZE as int / p) by {
        vstd::arithmetic::div_mod::lemma_fundamental_div_mod_converse(
            top,
            p,
            sbv + 1 + USER_STACK_SIZE as int / p,
            0,
        );
    }
    vstd::arithmetic::div_mod::lemma_small_mod((top + p - 1) as nat, VA_SPACE as nat);
    vstd::arithmetic::div_mod::lemma_fundamental_div_mod_converse(
        top + p - 1,
        p,
        top / p,
        p - 1,
    );
    vstd::arithmetic::mul::lemma_mul_is_commutative(p, top / p);
}

/// Quotient shorthand for the lemma above.
spec fn t_div(x: int, d: int) -> int {
    x / d
}


/// Places the fixed-size user stack one page above the highest loaded page
/// and the trap-context page below the trampoline, completing the address
/// space; returns the initial user stack pointer. Fails only for want of
/// frames or because the stack does not fit below the trampoline.
#[verifier::rlimit(100)]
fn place_stack_and_trap(
    set: &mut MemorySet,
    max_end_va: u64,
    a: &mut StackFrameAllocator,
    mem: &mut PhysFrames,
    Ghost(b): Ghost<Seq<u8>>,
    Ghost(strampoline): Ghost<PhysAddr>,
    Ghost(a_orig): Ghost<StackFrameAllocator>,
    Ghost(m_orig): Ghost<PhysFrames>,
) -> (r: Result<u64, MemoryStructureError>)
    requires
        old(a).wf(),
        allocator_within(*old(a), *old(mem)),
        old(a).floor == a_orig.floor,
        old(a).end == a_orig.end,
        old(mem).base == m_orig.base,
        old(mem).len() == m_orig.len(),
        forall|q: int| a_orig.live().contains(q) ==> old(a).live().contains(q),
        a_orig.exhausted() ==> old(a).exhausted(),
        forall|q: int|
            m_orig.in_range(q) && a_orig.live().contains(q) ==> old(mem).page(q) == m_orig.page(
                q,
            ),
        old(set).wf(*old(mem), *old(a)),
        forall|p: int| old(set).page_table.nodes@.contains(p) ==> !a_orig.live().contains(p),
        forall|p: int| set_owns_frame(*old(set), p) ==> !a_orig.live().contains(p),
        old(set).extra@ =~= Set::<int>::empty().insert(VPN_SPACE as int - 1),
        strampoline.0 < crate::address::PA_SPACE,
        max_end_va == spec_max_end(b, crate::elf_image::read_le(b, 56, 2)),
        max_end_va <= VA_SPACE - PAGE_SIZE_BYTES,
        forall|j: int|
            0 <= j < old(set).area_count() ==> (#[trigger] old(set).area(j)).end()
                <= max_end_va as int / PAGE_SIZE_BYTES as int + 1,
        old(set).page_table.mapped(*old(mem), VPN_SPACE as int - 1),
        old(set).page_table.leaf(*old(mem), VPN_SPACE as int - 1).spec_ppn() == strampoline.0 as int
            / PAGE_SIZE_BYTES as int,
        old(set).page_table.leaf(*old(mem), VPN_SPACE as int - 1).spec_flags() == (
        crate::page_table::PTE_R | crate::page_table::PTE_X | crate::page_table::PTE_V),
        old(set).area_count() == crate::elf_image::num_loads(
            b,
            crate::elf_image::read_le(b, 56, 2),
        ),
        forall|hh: int|
            0 <= hh < crate::elf_image::read_le(b, 56, 2)
                && #[trigger] crate::elf_image::spec_segment(b, hh).p_type
                == crate::elf_image::PT_LOAD ==> area_loads_segment(
                *old(set),
                *old(mem),
                b,
                hh,
                crate::elf_image::num_loads(b, hh),
            ),
    ensures
        final(a).wf(),
        allocator_within(*final(a), *final(mem)),
        final(a).floor == a_orig.floor,
        final(a).end == a_orig.end,
        final(mem).base == m_orig.base,
        final(mem).len() == m_orig.len(),
        forall|q: int| a_orig.live().contains(q) ==> final(a).live().contains(q),
        a_orig.exhausted() ==> final(a).exhausted(),
        forall|q: int|
            m_orig.in_range(q) && a_orig.live().contains(q) ==> final(mem).page(q) == m_orig.page(
                q,
            ),
        match r {
            Ok(usp) => {
                let set1 = *final(set);
                let n = crate::elf_image::read_le(b, 56, 2);
                &&& set1.wf(*final(mem), *final(a))
                &&& forall|p: int|
                    set1.page_table.nodes@.contains(p) ==> !a_orig.live().contains(p)
                &&& forall|p: int| set_owns_frame(set1, p) ==> !a_orig.live().contains(p)
                &&& forall|hh: int|
                    0 <= hh < n && #[trigger] crate::elf_image::spec_segment(b, hh).p_type
                        == crate::elf_image::PT_LOAD ==> area_loads_segment(
                        set1,
                        *final(mem),
                        b,
                        hh,
                        crate::elf_image::num_loads(b, hh),
                    )
                &&& set1.area_count() == crate::elf_image::num_loads(b, n) + 2
                &&& usp == set1.area(set1.area_count() - 2).end() * (PAGE_SIZE_BYTES as int)
                &&& set1.area(set1.area_count() - 2).vpn_start.0 == spec_max_end(b, n) / (
                PAGE_SIZE_BYTES as int) + 1
                &&& set1.area(set1.area_count() - 2).vpn_end.0 == set1.area(
                    set1.area_count() - 2,
                ).vpn_start.0 + USER_STACK_SIZE / PAGE_SIZE_BYTES
                &&& set1.area(set1.area_count() - 2).map_type is Framed
                &&& set1.area(set1.area_count() - 2).map_permissions.0 == (PERM_R | PERM_W
                    | PERM_U)
                &&& set1.area(set1.area_count() - 1).vpn_start.0 == VPN_SPACE - 2
                &&& set1.area(set1.area_count() - 1).vpn_end.0 == VPN_SPACE - 1
                &&& set1.area(set1.area_count() - 1).map_type is Framed
                &&& set1.area(set1.area_count() - 1).map_permissions.0 == (PERM_R | PERM_W
                    | PERM_X)
                &&& set1.page_table.mapped(*final(mem), VPN_SPACE as int - 1)
                &&& set1.page_table.leaf(*final(mem), VPN_SPACE as int - 1).spec_ppn()
                    == strampoline.0 as int / PAGE_SIZE_BYTES as int
                &&& set1.page_table.leaf(*final(mem), VPN_SPACE as int - 1).spec_flags() == (
                crate::page_table::PTE_R | crate::page_table::PTE_X | crate::page_table::PTE_V)
            },
            Err(MemoryStructureError::BadElf) => !spec_stack_fits(b),
            Err(MemoryStructureError::OutOfMemory) => final(a).exhausted(),
            Err(MemoryStructureError::PageTableFailure(_)) => final(a).exhausted(),
            Err(_) => false,
        },
{
    let ghost tramp = VPN_SPACE as int - 1;
    let ghost n = crate::elf_image::read_le(b, 56, 2);
    // the user stack sits just above the highest loaded page
    let stack_bottom_vpn = VirtAddr(max_end_va).vpn();
    if stack_bottom_vpn.0 + 1 >= VPN_SPACE - 1 - (USER_STACK_SIZE / PAGE_SIZE_BYTES + 1) {
        return Err(MemoryStructureError::BadElf);
    }
    let user_stack_bottom = (stack_bottom_vpn.0 + 1) * PAGE_SIZE_BYTES;
    let user_stack_top = user_stack_bottom + USER_STACK_SIZE;
    let stack_area = match MemoryArea::new(
        VirtAddr(user_stack_bottom),
        VirtAddr(user_stack_top),
        MemoryAreaType::Framed,
        MemoryAreaPermissions(PERM_R | PERM_W | PERM_U),
    ) {
        Ok(area) => area,
        Err(e) => {
            proof {
                assert(false);
            }
            return Err(e);
        },
    };
    let ghost stack_snapshot = stack_area;
    proof {
        lemma_stack_area_arith(
            stack_area,
            stack_bottom_vpn.0 as int,
            user_stack_bottom as int,
            user_stack_top as int,
            max_end_va as int,
            spec_max_end(b, n),
        );
        assert(stack_area.end() < VPN_SPACE);
        assert forall|j: int|
            0 <= j < set.area_count() implies !(#[trigger] set.area(j)).spec_overlaps(
            stack_area,
        ) by {
            assert(set.area(j).end() <= max_end_va as int / PAGE_SIZE_BYTES as int + 1);
            vstd::arithmetic::div_mod::lemma_small_mod(max_end_va as nat, VA_SPACE as nat);
        }
    }
    let ghost loads = set.areas.len() as int;
    match push_tail_area(
        set,
        stack_area,
        a,
        mem,
        Ghost(a_orig),
        Ghost(m_orig),
        Ghost(b),
        Ghost(strampoline),
    ) {
        Ok(()) => {},
        Err(e) => {
            return Err(e);
        },
    }
    let trap_area = match MemoryArea::new(
        VirtAddr(TRAP_CONTEXT),
        VirtAddr(TRAMPOLINE),
        MemoryAreaType::Framed,
        MemoryAreaPermissions(PERM_R | PERM_W | PERM_X),
    ) {
        Ok(area) => area,
        Err(e) => {
            proof {
                assert(false);
            }
            return Err(e);
        },
    };
    proof {
        assert(trap_area.vpn_end.0 == VPN_SPACE - 1);
        assert(trap_area.vpn_start.0 == VPN_SPACE - 2);
        assert forall|j: int|
            0 <= j < set.area_count() implies !(#[trigger] set.area(j)).spec_overlaps(
            trap_area,
        ) by {
            if j < loads {
                vstd::arithmetic::div_mod::lemma_small_mod(max_end_va as nat, VA_SPACE as nat);
                assert(set.area(j).end() <= stack_bottom_vpn.0 + 1);
                assert(stack_bottom_vpn.0 + 1 < VPN_SPACE - 1 - (USER_STACK_SIZE
                    / PAGE_SIZE_BYTES + 1));
            } else {
                assert(set.area(j).vpn_end == stack_snapshot.vpn_end);
                assert(set.area(j).end() == stack_snapshot.vpn_start.0 + USER_STACK_SIZE
                    / PAGE_SIZE_BYTES);
            }
        }
    }
    match push_tail_area(
        set,
        trap_area,
        a,
        mem,
        Ghost(a_orig),
        Ghost(m_orig),
        Ghost(b),
        Ghost(strampoline),
    ) {
        Ok(()) => {},
        Err(e) => {
            return Err(e);
        },
    }
    proof {
        let sa = set.area(set.area_count() - 2);
        assert(sa.vpn_start == stack_snapshot.vpn_start);
        assert(sa.vpn_end == stack_snapshot.vpn_end);
        assert(sa.map_type == stack_snapshot.map_type);
        assert(sa.map_permissions == stack_snapshot.map_permissions);
        assert(user_stack_top == sa.end() * (PAGE_SIZE_BYTES as int));
    }
    Ok(user_stack_top)
}


/// The bookkeeping the program-image builder carries between pushes: the
/// set is well formed, everything it owns was free at the anchor state,
/// every loaded segment's area still carries its bytes, the trampoline
/// stays mapped, and pages the anchor state had handed out are untouched.
pub open spec fn elf_tail_inv(
    set: MemorySet,
    a: StackFrameAllocator,
    mem: PhysFrames,
    a_orig: StackFrameAllocator,
    m_orig: PhysFrames,
    b: Seq<u8>,
    strampoline: PhysAddr,
) -> bool {
    &&& set.wf(mem, a)
    &&& a.wf()
    &&& allocator_within(a, mem)
    &&& a.floor == a_orig.floor
    &&& a.end == a_orig.end
    &&& mem.base == m_orig.base
    &&& mem.len() == m_orig.len()
    &&& forall|q: int| a_orig.live().contains(q) ==> a.live().contains(q)
    &&& (a_orig.exhausted() ==> a.exhausted())
    &&& forall|q: int|
        m_orig.in_range(q) && a_orig.live().contains(q) ==> mem.page(q) == m_orig.page(q)
    &&& forall|p: int| set.page_table.nodes@.contains(p) ==> !a_orig.live().contains(p)
    &&& forall|p: int| set_owns_frame(set, p) ==> !a_orig.live().contains(p)
    &&& set.extra@ =~= Set::<int>::empty().insert(VPN_SPACE as int - 1)
    &&& set.page_table.mapped(mem, VPN_SPACE as int - 1)
    &&& set.page_table.leaf(mem, VPN_SPACE as int - 1).spec_ppn() == strampoline.0 as int
        / PAGE_SIZE_BYTES as int
    &&& set.page_table.leaf(mem, VPN_SPACE as int - 1).spec_flags() == (crate::page_table::PTE_R
        | crate::page_table::PTE_X | crate::page_table::PTE_V)
    &&& forall|hh: int|
        0 <= hh < crate::elf_image::read_le(b, 56, 2)
            && #[trigger] crate::elf_image::spec_segment(b, hh).p_type
            == crate::elf_image::PT_LOAD ==> area_loads_segment(
            set,
            mem,
            b,
            hh,
            crate::elf_image::num_loads(b, hh),
        )
}

/// Pushes one of the builder's closing areas (the stack or the trap-context
/// page), carrying the builder's bookkeeping across the push.
fn push_tail_area(
    set: &mut MemorySet,
    area: MemoryArea,
    a: &mut StackFrameAllocator,
    mem: &mut PhysFrames,
    Ghost(a_orig): Ghost<StackFrameAllocator>,
    Ghost(m_orig): Ghost<PhysFrames>,
    Ghost(b): Ghost<Seq<u8>>,
    Ghost(strampoline): Ghost<PhysAddr>,
) -> (r: Result<(), MemoryStructureError>)
    requires
        elf_tail_inv(*old(set), *old(a), *old(mem), a_orig, m_orig, b, strampoline),
        area.range_wf(),
        area.frames@.len() == 0,
        area.end() < VPN_SPACE,
        forall|j: int|
            0 <= j < old(set).area_count() ==> !(#[trigger] old(set).area(j)).spec_overlaps(area),
    ensures
        final(a).wf(),
        allocator_within(*final(a), *final(mem)),
        final(a).floor == a_orig.floor,
        final(a).end == a_orig.end,
        final(mem).base == m_orig.base,
        final(mem).len() == m_orig.len(),
        forall|q: int| a_orig.live().contains(q) ==> final(a).live().contains(q),
        a_orig.exhausted() ==> final(a).exhausted(),
        forall|q: int|
            m_orig.in_range(q) && a_orig.live().contains(q) ==> final(mem).page(q) == m_orig.page(
                q,
            ),
        match r {
            Ok(()) => {
                &&& elf_tail_inv(*final(set), *final(a), *final(mem), a_orig, m_orig, b, strampoline)
                &&& final(set).area_count() == old(set).area_count() + 1
                &&& forall|j: int|
                    0 <= j < old(set).area_count() ==> final(set).area(j) == old(set).area(j)
                &&& ({
                    let na = final(set).area(old(set).area_count());
                    &&& na.vpn_start == area.vpn_start
                    &&& na.vpn_end == area.vpn_end
                    &&& na.map_type == area.map_type
                    &&& na.map_permissions == area.map_permissions
                })
            },
            Err(e) => {
                &&& (e matches MemoryStructureError::OutOfMemory || e
                    matches MemoryStructureError::PageTableFailure(
                    PageTableError::FrameUnavailable,
                ))
                &&& final(a).exhausted()
            },
        },
{
    let ghost set_pre = *set;
    let ghost a_pre = *a;
    let ghost m_pre = *mem;
    proof {
        assert(!area.holds_vpn(VPN_SPACE as int - 1));
    }
    let res = set.push(area, None, a, mem);
    match res {
        Ok(()) => {
            proof {
                lemma_fresh_nodes_step(
                    set_pre.page_table.nodes@,
                    set.page_table.nodes@,
                    a_orig,
                    a_pre,
                    m_orig,
                    m_pre,
                    *mem,
                );
                assert forall|p: int| set_owns_frame(*set, p) implies !a_orig.live().contains(
                    p,
                ) by {
                    let (i, kk) = choose|i: int, kk: int|
                        0 <= i < set.area_count() && 0 <= kk < set.area(i).frames@.len()
                            && #[trigger] set.area(i).fppn(kk) == p;
                    if i < set_pre.area_count() {
                        assert(set.area(i) == set_pre.area(i));
                        assert(set_owns_frame(set_pre, p)) by {
                            assert(set_pre.area(i).fppn(kk) == p);
                        }
                    } else {
                        assert(!a_pre.live().contains(set.area(i).fppn(kk)));
                    }
                }
                assert forall|hh: int|
                    0 <= hh < crate::elf_image::read_le(b, 56, 2)
                        && #[trigger] crate::elf_image::spec_segment(b, hh).p_type
                        == crate::elf_image::PT_LOAD implies area_loads_segment(
                    *set,
                    *mem,
                    b,
                    hh,
                    crate::elf_image::num_loads(b, hh),
                ) by {
                    lemma_loaded_area_preserved(set_pre, *set, a_pre, m_pre, *mem, b, hh);
                }
                assert(set.page_table.mapped(*mem, VPN_SPACE as int - 1) == set_pre.page_table.mapped(
                    m_pre,
                    VPN_SPACE as int - 1,
                ));
                assert(set.page_table.leaf(*mem, VPN_SPACE as int - 1) == set_pre.page_table.leaf(
                    m_pre,
                    VPN_SPACE as int - 1,
                ));
                assert forall|w: int| set.extra@.contains(w) implies Set::<int>::empty().insert(
                    VPN_SPACE as int - 1,
                ).contains(w) by {
                    assert(set_pre.extra@.contains(w));
                }
                assert forall|w: int|
                    Set::<int>::empty().insert(VPN_SPACE as int - 1).contains(w) implies set.extra@.contains(
                    w,
                ) by {
                    assert(set_pre.extra@.contains(w));
                }
            }
            Ok(())
        },
        Err(e) => {
            proof {
                match &e {
                    MemoryStructureError::OverlappedMemoryArea => {
                        assert(false);
                    },
                    MemoryStructureError::DataTooLong => {
                        assert(false);
                    },
                    _ => {},
                }
            }
            Err(e)
        },
    }
}

/// Copies the byte range `[off, off + len)` of `b`.
fn slice_range(b: &[u8], off: usize, len: usize) -> (r: Vec<u8>)
    requires
        off + len <= b@.len(),
    ensures
        r@ =~= b@.subrange(off as int, off + len),
{
    let blen = b.len();
    let mut out: Vec<u8> = Vec::new();
    let mut i: usize = 0;
    while i < len
        invariant
            i <= len,
            off + len <= blen,
            blen == b@.len(),
            out@.len() == i,
            forall|j: int| 0 <= j < i ==> out@[j] == b@[off + j],
        decreases len - i,
    {
        out.push(b[off + i]);
        i = i + 1;
    }
    out
}

/// A loaded area's identity and bytes survive a later push: its frames are
/// live and are neither new page-table nodes nor the new area's frames.
proof fn lemma_loaded_area_preserved(
    s0: MemorySet,
    s1: MemorySet,
    a0: StackFrameAllocator,
    m0: PhysFrames,
    m1: PhysFrames,
    b: Seq<u8>,
    h: int,
)
    requires
        0 <= h,
        s0.wf(m0, a0),
        a0.wf(),
        area_loads_segment(s0, m0, b, h, crate::elf_image::num_loads(b, h)),
        s1.area_count() > s0.area_count(),
        forall|i: int| 0 <= i < s0.area_count() ==> s1.area(i) == s0.area(i),
        forall|q: int|
            m0.in_range(q) && a0.live().contains(q) && !s1.page_table.nodes@.contains(q)
                ==> m1.page(q) == m0.page(q),
        forall|p: int|
            s1.page_table.nodes@.contains(p) ==> s0.page_table.nodes@.contains(p)
                || !a0.live().contains(p),
    ensures
        area_loads_segment(s1, m1, b, h, crate::elf_image::num_loads(b, h)),
{
    let k = crate::elf_image::num_loads(b, h);
    let ar = s0.area(k);
    assert(0 <= k < s0.area_count()) by {
        crate::elf_image::lemma_num_loads_bounds(b, h);
    }
    assert(s1.area(k) == ar);
    assert(ar.frames_wf(m0, a0, s0.page_table.nodes@));
    assert forall|i: int, off: int|
        0 <= i < ar.frames@.len() && 0 <= off < PAGE_SIZE_BYTES implies #[trigger] m1.data(
        ar.fppn(i),
    )[off] == init_byte(
        crate::elf_image::seg_bytes(b, h),
        i * (PAGE_SIZE_BYTES as int) + off,
    ) by {
        assert(a0.live().contains(ar.fppn(i)));
        assert(m0.in_range(ar.fppn(i)));
        assert(!s0.page_table.nodes@.contains(ar.fppn(i)));
        assert(!s1.page_table.nodes@.contains(ar.fppn(i)));
        assert(m1.page(ar.fppn(i)) == m0.page(ar.fppn(i)));
        assert(m0.data(ar.fppn(i))[off] == init_byte(
            crate::elf_image::seg_bytes(b, h),
            i * (PAGE_SIZE_BYTES as int) + off,
        ));
    }
}


} // verus!
