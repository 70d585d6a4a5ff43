//! Sv39 page-table entries and the three-level page table.
//!
//! A page-table entry packs a 44-bit physical page number above an 8-bit flag
//! field; the packing is stated with `*`, `/` and `%` by powers of two. The
//! table itself is a radix tree of frames held in the physical-page arena.
use vstd::prelude::*;

use crate::address::{spec_index0, spec_index1, spec_index2, PhysPageNumber, VirtAddr,
    VirtPageNumber, PAGE_SIZE_BYTES, PPN_SPACE, VA_SPACE, VPN_SPACE};
use crate::frame_allocator::{Frame, FrameAllocator, StackFrameAllocator};
use crate::phys_mem::PhysFrames;

verus! {

/// Valid bit of a page-table entry.
pub const PTE_V: u8 = 1;

/// Readable bit.
pub const PTE_R: u8 = 2;

/// Writable bit.
pub const PTE_W: u8 = 4;

/// Executable bit.
pub const PTE_X: u8 = 8;

/// User-accessible bit.
pub const PTE_U: u8 = 16;

/// Global-mapping bit.
pub const PTE_G: u8 = 32;

/// Accessed bit.
pub const PTE_A: u8 = 64;

/// Dirty bit.
pub const PTE_D: u8 = 128;

/// Permission/validity flag byte of a page-table entry.
#[derive(Clone, Copy, PartialEq, Eq, Structural, Debug)]
pub struct PTEFlags(pub u8);

impl PTEFlags {
    /// Raw flag byte.
    pub fn bits(&self) -> (r: u8)
        ensures
            r == self.0,
    {
        self.0
    }

    /// Flags from a raw byte; every byte is a legal combination.
    pub fn from_bits(bits: u8) -> (r: Option<PTEFlags>)
        ensures
            r == Some(PTEFlags(bits)),
    {
        Some(PTEFlags(bits))
    }

    /// Whether every flag of `other` is also set in `self`.
    pub fn contains(&self, other: PTEFlags) -> (r: bool)
        ensures
            r == (self.0 & other.0 == other.0),
    {
        self.0 & other.0 == other.0
    }

    /// The flags of `self` and `other` together.
    pub fn union(&self, other: PTEFlags) -> (r: PTEFlags)
        ensures
            r.0 == self.0 | other.0,
    {
        PTEFlags(self.0 | other.0)
    }
}

/// Failure of a page-table operation.
#[derive(Clone, Copy, PartialEq, Eq, Structural, Debug)]
pub enum PageTableError {
    /// The frame allocator is exhausted.
    FrameUnavailable,
    /// `map` found an existing valid mapping for the page number.
    MapAlreadyExists(VirtPageNumber),
    /// `unmap` or `translate` found no valid mapping for the page number.
    NoMapExists(VirtPageNumber),
    /// A byte span wrapped around the top of the address space.
    AddressOverflow,
}

/// One Sv39 page-table entry: physical page number times 1024 plus flags.
#[derive(Clone, Copy, PartialEq, Eq, Structural, Debug)]
pub struct PageTableEntry(pub u64);

impl PageTableEntry {
    /// Physical page number packed in this entry.
    pub open spec fn spec_ppn(self) -> int {
        (self.0 as int / 1024) % (PPN_SPACE as int)
    }

    /// Flag byte packed in this entry.
    pub open spec fn spec_flags(self) -> u8 {
        (self.0 % 256) as u8
    }

    /// Whether the Valid bit is set.
    pub open spec fn spec_is_valid(self) -> bool {
        self.0 % 2 == 1
    }

    /// Packs a page number and flags into one entry.
    pub fn new(ppn: PhysPageNumber, flags: PTEFlags) -> (r: Self)
        requires
            ppn.0 < PPN_SPACE,
        ensures
            r.0 == ppn.0 * 1024 + flags.0,
            r.spec_ppn() == ppn.0,
            r.spec_flags() == flags.0,
    {
        let r = PageTableEntry(ppn.0 * 1024 + flags.0 as u64);
        proof {
            vstd::arithmetic::div_mod::lemma_fundamental_div_mod_converse(
                r.0 as int,
                1024,
                ppn.0 as int,
                flags.0 as int,
            );
            vstd::arithmetic::div_mod::lemma_small_mod(ppn.0 as nat, PPN_SPACE as nat);
            vstd::arithmetic::div_mod::lemma_fundamental_div_mod_converse(
                r.0 as int,
                256,
                ppn.0 as int * 4,
                flags.0 as int,
            );
        }
        r
    }

    /// The physical page number of this entry.
    pub fn ppn(&self) -> (r: PhysPageNumber)
        ensures
            r.0 == self.spec_ppn(),
    {
        PhysPageNumber((self.0 / 1024) % PPN_SPACE)
    }

    /// The flag byte of this entry.
    pub fn flags(&self) -> (r: PTEFlags)
        ensures
            r.0 == self.spec_flags(),
    {
        PTEFlags((self.0 % 256) as u8)
    }

    /// Whether this entry is a valid mapping.
    pub fn is_valid(&self) -> (r: bool)
        ensures
            r == self.spec_is_valid(),
    {
        let f = self.flags();
        let r = f.contains(PTEFlags(PTE_V));
        proof {
            let x = self.0;
            assert(((x % 256) as u8 & 1u8 == 1u8) == (x % 2 == 1)) by (bit_vector);
        }
        r
    }

    /// The all-zero, unmapped entry.
    pub fn empty() -> (r: Self)
        ensures
            r.0 == 0,
            !r.spec_is_valid(),
    {
        PageTableEntry(0)
    }
}


/// Whether the allocator's whole range lies inside the arena, so that every
/// page it hands out has an image there.
pub open spec fn allocator_within(a: StackFrameAllocator, mem: PhysFrames) -> bool {
    &&& mem.wf()
    &&& mem.base <= a.floor
    &&& a.end <= mem.base + mem.len()
}

/// Entry `i0` of the root node of the table rooted at `root`.
pub open spec fn l1_entry(mem: PhysFrames, root: int, i0: int) -> PageTableEntry {
    mem.table(root)[i0]
}

/// Whether the walk continues below root entry `i0`.
pub open spec fn l1_ok(mem: PhysFrames, root: int, i0: int) -> bool {
    l1_entry(mem, root, i0).spec_is_valid()
}

/// Page number of the middle-level node below root entry `i0`.
pub open spec fn l1_node(mem: PhysFrames, root: int, i0: int) -> int {
    l1_entry(mem, root, i0).spec_ppn()
}

/// Entry `i1` of the middle-level node below root entry `i0`.
pub open spec fn l2_entry(mem: PhysFrames, root: int, i0: int, i1: int) -> PageTableEntry {
    mem.table(l1_node(mem, root, i0))[i1]
}

/// Whether the walk continues below entry `(i0, i1)`.
pub open spec fn l2_ok(mem: PhysFrames, root: int, i0: int, i1: int) -> bool {
    l2_entry(mem, root, i0, i1).spec_is_valid()
}

/// Page number of the leaf-level node below entry `(i0, i1)`.
pub open spec fn l2_node(mem: PhysFrames, root: int, i0: int, i1: int) -> int {
    l2_entry(mem, root, i0, i1).spec_ppn()
}

/// The leaf entry the walk reaches for `vpn`, assuming the chain exists.
pub open spec fn leaf_entry(mem: PhysFrames, root: int, vpn: int) -> PageTableEntry {
    mem.table(l2_node(mem, root, spec_index0(vpn), spec_index1(vpn)))[spec_index2(vpn)]
}

/// Whether the full three-level chain for `vpn` exists and ends in a valid leaf.
pub open spec fn walk_ok(mem: PhysFrames, root: int, vpn: int) -> bool {
    &&& l1_ok(mem, root, spec_index0(vpn))
    &&& l2_ok(mem, root, spec_index0(vpn), spec_index1(vpn))
    &&& leaf_entry(mem, root, vpn).spec_is_valid()
}

/// Read-correctness of the radix tree rooted at `root`: every node the walk
/// can reach is an installed table, and no node stands in two places, so a
/// write through one chain cannot be read back through another.
pub open spec fn walk_wf(mem: PhysFrames, root: int) -> bool {
    &&& mem.wf()
    &&& mem.is_table(root)
    &&& forall|i0: int|
        0 <= i0 < 512 && l1_ok(mem, root, i0) ==> mem.is_table(#[trigger] l1_node(mem, root, i0))
            && l1_node(mem, root, i0) != root
    &&& forall|i0: int, i1: int|
        0 <= i0 < 512 && 0 <= i1 < 512 && l1_ok(mem, root, i0) && l2_ok(mem, root, i0, i1)
            ==> mem.is_table(#[trigger] l2_node(mem, root, i0, i1)) && l2_node(mem, root, i0, i1)
            != root
    &&& forall|i0: int, j0: int|
        0 <= i0 < 512 && 0 <= j0 < 512 && l1_ok(mem, root, i0) && l1_ok(mem, root, j0)
            && #[trigger] l1_node(mem, root, i0) == #[trigger] l1_node(mem, root, j0) ==> i0 == j0
    &&& forall|i0: int, i1: int, j0: int|
        0 <= i0 < 512 && 0 <= i1 < 512 && 0 <= j0 < 512 && l1_ok(mem, root, i0) && l2_ok(
            mem,
            root,
            i0,
            i1,
        ) && l1_ok(mem, root, j0) ==> #[trigger] l2_node(mem, root, i0, i1)
            != #[trigger] l1_node(mem, root, j0)
    &&& forall|i0: int, i1: int, j0: int, j1: int|
        0 <= i0 < 512 && 0 <= i1 < 512 && 0 <= j0 < 512 && 0 <= j1 < 512 && l1_ok(mem, root, i0)
            && l2_ok(mem, root, i0, i1) && l1_ok(mem, root, j0) && l2_ok(mem, root, j0, j1)
            && #[trigger] l2_node(mem, root, i0, i1) == #[trigger] l2_node(mem, root, j0, j1)
            ==> i0 == j0 && i1 == j1
}

/// The three-level page table of one address space: the root frame plus every
/// intermediate frame it allocated, with a ghost record of their page numbers.
pub struct PageTable {
    /// Page number of the root node.
    pub root_ppn: PhysPageNumber,
    /// The frames owned by this table, the root first.
    pub frames: Vec<Frame>,
    /// Page numbers this table may write: the root and every node it created.
    pub nodes: Ghost<Set<int>>,
}

impl PageTable {
    /// The root page number as a mathematical integer.
    pub open spec fn root(self) -> int {
        self.root_ppn.0 as int
    }

    /// Well-formedness against the arena: the walk is read-correct and every
    /// reachable node is recorded in `nodes`.
    pub open spec fn wf(self, mem: PhysFrames) -> bool {
        &&& walk_wf(mem, self.root())
        &&& self.nodes@.contains(self.root())
        &&& forall|i0: int|
            0 <= i0 < 512 && l1_ok(mem, self.root(), i0) ==> self.nodes@.contains(
                #[trigger] l1_node(mem, self.root(), i0),
            )
        &&& forall|i0: int, i1: int|
            0 <= i0 < 512 && 0 <= i1 < 512 && l1_ok(mem, self.root(), i0) && l2_ok(
                mem,
                self.root(),
                i0,
                i1,
            ) ==> self.nodes@.contains(#[trigger] l2_node(mem, self.root(), i0, i1))
    }

    /// Every recorded node is a live page of the allocator.
    pub open spec fn nodes_live(self, a: StackFrameAllocator) -> bool {
        forall|p: int| self.nodes@.contains(p) ==> #[trigger] a.live().contains(p)
    }

    /// Whether the table maps `vpn`.
    pub open spec fn mapped(self, mem: PhysFrames, vpn: int) -> bool {
        walk_ok(mem, self.root(), vpn)
    }

    /// The leaf entry for `vpn`; meaningful when `mapped`.
    pub open spec fn leaf(self, mem: PhysFrames, vpn: int) -> PageTableEntry {
        leaf_entry(mem, self.root(), vpn)
    }

    /// Creates a table whose root is a fresh zero-filled frame: it maps nothing.
    pub fn new(a: &mut StackFrameAllocator, mem: &mut PhysFrames) -> (r: Result<
        Self,
        PageTableError,
    >)
        requires
            old(a).wf(),
            allocator_within(*old(a), *old(mem)),
        ensures
            old(a).exhausted() ==> final(a).exhausted(),
            final(a).wf(),
            allocator_within(*final(a), *final(mem)),
            final(a).floor == old(a).floor,
            final(a).end == old(a).end,
            final(mem).base == old(mem).base,
            final(mem).len() == old(mem).len(),
            match r {
                Ok(pt) => {
                    &&& pt.wf(*final(mem))
                    &&& pt.nodes@ =~= Set::<int>::empty().insert(pt.root())
                    &&& !old(a).live().contains(pt.root())
                    &&& final(a).live() =~= old(a).live().insert(pt.root())
                    &&& forall|vpn: int| !pt.mapped(*final(mem), vpn)
                    &&& forall|q: int|
                        old(mem).in_range(q) && q != pt.root() ==> final(mem).page(q) == old(mem).page(q)
                },
                Err(e) => {
                    &&& e == PageTableError::FrameUnavailable
                    &&& final(a).live() =~= old(a).live()
                    &&& *final(mem) == *old(mem)
                    &&& final(a).exhausted()
                },
            },
    {
        let ghost a0 = *a;
        match a.alloc_frame() {
            None => {
                proof {
                    assert(a.recycled@ == a0.recycled@);
                    assert(a.current == a0.current);
                    assert(a.exhausted());
                }
                Err(PageTableError::FrameUnavailable)
            },
            Some(root_ppn) => {
                mem.install_table(root_ppn);
                let mut frames: Vec<Frame> = Vec::new();
                frames.push(Frame::new(root_ppn));
                let pt = PageTable {
                    root_ppn,
                    frames,
                    nodes: Ghost(Set::<int>::empty().insert(root_ppn.0 as int)),
                };
                proof {
                    assert forall|vpn: int| !pt.mapped(*mem, vpn) by {
                        assert(mem.table(pt.root())[spec_index0(vpn)] == PageTableEntry(0));
                    }
                }
                Ok(pt)
            },
        }
    }

    /// The root page number, as installed in the paging register's PPN field.
    pub fn root_ppn(&self) -> (r: u64)
        ensures
            r == self.root_ppn.0,
    {
        self.root_ppn.0
    }

    /// The paging-register image for this table: mode 8 (Sv39) above the root.
    pub fn token(&self) -> (r: u64)
        requires
            self.root_ppn.0 < PPN_SPACE,
        ensures
            r == 8 * 0x1000_0000_0000_0000u64 + self.root_ppn.0,
            spec_token_root(r) == self.root(),
    {
        proof {
            vstd::arithmetic::div_mod::lemma_fundamental_div_mod_converse(
                (8 * 0x1000_0000_0000_0000u64 + self.root_ppn.0) as int,
                PPN_SPACE as int,
                0x8_0000int,
                self.root_ppn.0 as int,
            );
        }
        8 * 0x1000_0000_0000_0000u64 + self.root_ppn.0
    }

    /// Rebuilds a read-side handle from a paging-register image: the table
    /// whose root is the token's low 44 bits. It owns no frames; it serves
    /// translation of an address space known only by its token.
    pub fn from_token(token: u64) -> (r: Self)
        ensures
            r.root() == spec_token_root(token),
            r.frames@.len() == 0,
    {
        PageTable {
            root_ppn: PhysPageNumber(token % PPN_SPACE),
            frames: Vec::new(),
            nodes: Ghost(Set::<int>::empty()),
        }
    }

    /// Looks up the leaf entry for `vpn` without changing anything: the valid
    /// leaf when the table maps `vpn`, and `NoMapExists` exactly otherwise.
    pub fn translate(&self, vpn: VirtPageNumber, mem: &PhysFrames) -> (r: Result<
        PageTableEntry,
        PageTableError,
    >)
        requires
            walk_wf(*mem, self.root()),
        ensures
            match r {
                Ok(e) => self.mapped(*mem, vpn.0 as int) && e == self.leaf(*mem, vpn.0 as int),
                Err(e) => !self.mapped(*mem, vpn.0 as int) && e == PageTableError::NoMapExists(
                    vpn,
                ),
            },
    {
        let ghost v = vpn.0 as int;
        let idx = vpn.indexes();
        proof {
            assert(0 <= spec_index0(v) < 512);
            assert(0 <= spec_index1(v) < 512);
            assert(0 <= spec_index2(v) < 512);
        }
        let e0 = mem.read_pte(self.root_ppn, idx[0]);
        proof {
            assert(e0 == l1_entry(*mem, self.root(), spec_index0(v)));
        }
        if !e0.is_valid() {
            return Err(PageTableError::NoMapExists(vpn));
        }
        let n1 = e0.ppn();
        proof {
            assert(l1_ok(*mem, self.root(), spec_index0(v)));
            assert(n1.0 == l1_node(*mem, self.root(), spec_index0(v)));
            assert(mem.is_table(l1_node(*mem, self.root(), spec_index0(v))));
        }
        let e1 = mem.read_pte(n1, idx[1]);
        proof {
            assert(e1 == l2_entry(*mem, self.root(), spec_index0(v), spec_index1(v)));
        }
        if !e1.is_valid() {
            return Err(PageTableError::NoMapExists(vpn));
        }
        let n2 = e1.ppn();
        proof {
            assert(l2_ok(*mem, self.root(), spec_index0(v), spec_index1(v)));
            assert(n2.0 == l2_node(*mem, self.root(), spec_index0(v), spec_index1(v)));
            assert(mem.is_table(l2_node(*mem, self.root(), spec_index0(v), spec_index1(v))));
        }
        let e2 = mem.read_pte(n2, idx[2]);
        proof {
            assert(e2 == leaf_entry(*mem, self.root(), v));
        }
        if !e2.is_valid() {
            return Err(PageTableError::NoMapExists(vpn));
        }
        Ok(e2)
    }
}


/// The token of a root page number decodes back to it.
pub proof fn lemma_token_root(root: u64)
    requires
        root < PPN_SPACE,
    ensures
        spec_token_root((8 * 0x1000_0000_0000_0000 + root) as u64) == root,
{
    vstd::arithmetic::div_mod::lemma_fundamental_div_mod_converse(
        (8 * 0x1000_0000_0000_0000u64 + root) as int,
        PPN_SPACE as int,
        0x8_0000int,
        root as int,
    );
}

/// The root page number encoded in a paging-register token: its low 44 bits.
pub open spec fn spec_token_root(token: u64) -> int {
    token as int % PPN_SPACE as int
}



/// Two virtual page numbers in the 27-bit space with the same three radix
/// indices are the same page number.
pub proof fn lemma_indices_injective(v: int, w: int)
    requires
        0 <= v < VPN_SPACE,
        0 <= w < VPN_SPACE,
        spec_index0(v) == spec_index0(w),
        spec_index1(v) == spec_index1(w),
        spec_index2(v) == spec_index2(w),
    ensures
        v == w,
{
    lemma_vpn_decompose(v);
    lemma_vpn_decompose(w);
}

/// A virtual page number is its three radix indices re-assembled.
pub proof fn lemma_vpn_decompose(v: int)
    requires
        0 <= v < VPN_SPACE,
    ensures
        v == spec_index0(v) * (512 * 512) + spec_index1(v) * 512 + spec_index2(v),
{
    let q1 = v / 512;
    let r1 = v % 512;
    vstd::arithmetic::div_mod::lemma_fundamental_div_mod(v, 512);
    assert(v == 512 * q1 + r1);
    assert(q1 >= 0) by {
        vstd::arithmetic::div_mod::lemma_div_pos_is_pos(v, 512);
    }
    let q2 = q1 / 512;
    let r2 = q1 % 512;
    vstd::arithmetic::div_mod::lemma_fundamental_div_mod(q1, 512);
    assert(q1 == 512 * q2 + r2);
    vstd::arithmetic::div_mod::lemma_div_denominator(v, 512, 512);
    assert(q2 == v / (512int * 512));
    assert(q2 < 512) by {
        vstd::arithmetic::div_mod::lemma_div_is_ordered(v, VPN_SPACE as int - 1, 512int * 512);
    }
    assert(q2 >= 0) by {
        vstd::arithmetic::div_mod::lemma_div_pos_is_pos(q1, 512);
    }
    vstd::arithmetic::div_mod::lemma_small_mod(q2 as nat, 512nat);
    assert(spec_index0(v) == q2);
    assert(spec_index1(v) == r2);
    assert(spec_index2(v) == r1);
    assert(v == 512 * (512 * q2 + r2) + r1);
    assert(512int * (512 * q2 + r2) == (512int * 512) * q2 + 512 * r2) by (nonlinear_arith);
    assert((512int * 512) * q2 == q2 * (512int * 512)) by (nonlinear_arith);
}

/// A structure whose recorded node pages are untouched keeps its whole walk:
/// well-formedness, every mapping, and every leaf entry.
pub proof fn lemma_walk_preserved(pt: PageTable, mem1: PhysFrames, mem2: PhysFrames)
    requires
        pt.wf(mem1),
        mem2.wf(),
        mem2.base == mem1.base,
        mem2.len() == mem1.len(),
        forall|q: int| pt.nodes@.contains(q) ==> mem2.page(q) == mem1.page(q),
    ensures
        pt.wf(mem2),
        forall|i0: int|
            0 <= i0 < 512 ==> l1_entry(mem2, pt.root(), i0) == l1_entry(mem1, pt.root(), i0),
        forall|i0: int, i1: int|
            0 <= i0 < 512 && 0 <= i1 < 512 && l1_ok(mem1, pt.root(), i0) ==> l2_entry(
                mem2,
                pt.root(),
                i0,
                i1,
            ) == l2_entry(mem1, pt.root(), i0, i1),
        forall|w: int| walk_ok(mem2, pt.root(), w) == walk_ok(mem1, pt.root(), w),
        forall|w: int|
            walk_ok(mem1, pt.root(), w) ==> leaf_entry(mem2, pt.root(), w) == leaf_entry(
                mem1,
                pt.root(),
                w,
            ),
{
    let root = pt.root();
    assert(mem2.page(root) == mem1.page(root));
    assert forall|i0: int| 0 <= i0 < 512 implies l1_entry(mem2, root, i0) == l1_entry(
        mem1,
        root,
        i0,
    ) by {
        assert(mem2.table(root) == mem1.table(root));
    }
    assert forall|i0: int, i1: int|
        0 <= i0 < 512 && 0 <= i1 < 512 && l1_ok(mem1, root, i0) implies l2_entry(mem2, root, i0, i1)
        == l2_entry(mem1, root, i0, i1) by {
        assert(pt.nodes@.contains(l1_node(mem1, root, i0)));
        assert(mem2.page(l1_node(mem1, root, i0)) == mem1.page(l1_node(mem1, root, i0)));
    }
    assert forall|i0: int, i1: int, i2: int|
        0 <= i0 < 512 && 0 <= i1 < 512 && 0 <= i2 < 512 && l1_ok(mem1, root, i0) && l2_ok(
        mem1,
        root,
        i0,
        i1,
    ) implies mem2.table(l2_node(mem1, root, i0, i1))[i2] == mem1.table(
        l2_node(mem1, root, i0, i1),
    )[i2] by {
        assert(pt.nodes@.contains(l2_node(mem1, root, i0, i1)));
    }
    assert forall|i0: int|
        0 <= i0 < 512 && l1_ok(mem2, root, i0) implies mem2.is_table(
        #[trigger] l1_node(mem2, root, i0),
    ) && l1_node(mem2, root, i0) != root && pt.nodes@.contains(l1_node(mem2, root, i0)) by {
        assert(l1_entry(mem2, root, i0) == l1_entry(mem1, root, i0));
        assert(l1_ok(mem1, root, i0));
        assert(pt.nodes@.contains(l1_node(mem1, root, i0)));
        assert(mem2.page(l1_node(mem1, root, i0)) == mem1.page(l1_node(mem1, root, i0)));
    }
    assert forall|i0: int, i1: int|
        0 <= i0 < 512 && 0 <= i1 < 512 && l1_ok(mem2, root, i0) && l2_ok(mem2, root, i0, i1)
        implies mem2.is_table(#[trigger] l2_node(mem2, root, i0, i1)) && l2_node(mem2, root, i0, i1)
        != root && pt.nodes@.contains(l2_node(mem2, root, i0, i1)) by {
        assert(l1_ok(mem1, root, i0));
        assert(l2_entry(mem2, root, i0, i1) == l2_entry(mem1, root, i0, i1));
        assert(l2_ok(mem1, root, i0, i1));
        assert(pt.nodes@.contains(l2_node(mem1, root, i0, i1)));
        assert(mem2.page(l2_node(mem1, root, i0, i1)) == mem1.page(l2_node(mem1, root, i0, i1)));
    }
    assert(walk_wf(mem2, root)) by {
        assert(mem2.is_table(root));
        assert forall|i0: int, j0: int|
            0 <= i0 < 512 && 0 <= j0 < 512 && l1_ok(mem2, root, i0) && l1_ok(mem2, root, j0)
                && #[trigger] l1_node(mem2, root, i0) == #[trigger] l1_node(mem2, root, j0)
            implies i0 == j0 by {
            assert(mem2.table(root) == mem1.table(root));
            assert(l1_ok(mem1, root, i0));
            assert(l1_ok(mem1, root, j0));
            assert(l1_node(mem1, root, i0) == l1_node(mem2, root, i0));
            assert(l1_node(mem1, root, j0) == l1_node(mem2, root, j0));
        }
        assert forall|i0: int, i1: int, j0: int|
            0 <= i0 < 512 && 0 <= i1 < 512 && 0 <= j0 < 512 && l1_ok(mem2, root, i0) && l2_ok(
            mem2,
            root,
            i0,
            i1,
        ) && l1_ok(mem2, root, j0) implies #[trigger] l2_node(mem2, root, i0, i1)
            != #[trigger] l1_node(mem2, root, j0) by {
            assert(mem2.table(root) == mem1.table(root));
            assert(l1_ok(mem1, root, i0));
            assert(pt.nodes@.contains(l1_node(mem1, root, i0)));
            assert(mem2.page(l1_node(mem1, root, i0)) == mem1.page(l1_node(mem1, root, i0)));
            assert(l2_entry(mem2, root, i0, i1) == l2_entry(mem1, root, i0, i1));
            assert(l2_ok(mem1, root, i0, i1));
            assert(l2_node(mem1, root, i0, i1) == l2_node(mem2, root, i0, i1));
            assert(l1_ok(mem1, root, j0));
            assert(l1_node(mem1, root, j0) == l1_node(mem2, root, j0));
        }
        assert forall|i0: int, i1: int, j0: int, j1: int|
            0 <= i0 < 512 && 0 <= i1 < 512 && 0 <= j0 < 512 && 0 <= j1 < 512 && l1_ok(
            mem2,
            root,
            i0,
        ) && l2_ok(mem2, root, i0, i1) && l1_ok(mem2, root, j0) && l2_ok(mem2, root, j0, j1)
            && #[trigger] l2_node(mem2, root, i0, i1) == #[trigger] l2_node(mem2, root, j0, j1)
            implies i0 == j0 && i1 == j1 by {
            assert(mem2.table(root) == mem1.table(root));
            assert(l1_ok(mem1, root, i0));
            assert(l1_ok(mem1, root, j0));
            assert(pt.nodes@.contains(l1_node(mem1, root, i0)));
            assert(mem2.page(l1_node(mem1, root, i0)) == mem1.page(l1_node(mem1, root, i0)));
            assert(pt.nodes@.contains(l1_node(mem1, root, j0)));
            assert(mem2.page(l1_node(mem1, root, j0)) == mem1.page(l1_node(mem1, root, j0)));
            assert(l2_entry(mem2, root, i0, i1) == l2_entry(mem1, root, i0, i1));
            assert(l2_entry(mem2, root, j0, j1) == l2_entry(mem1, root, j0, j1));
            assert(l2_ok(mem1, root, i0, i1));
            assert(l2_ok(mem1, root, j0, j1));
            assert(l2_node(mem1, root, i0, i1) == l2_node(mem2, root, i0, i1));
            assert(l2_node(mem1, root, j0, j1) == l2_node(mem2, root, j0, j1));
        }
    }
    assert forall|w: int| walk_ok(mem2, root, w) == walk_ok(mem1, root, w) && (walk_ok(
        mem1,
        root,
        w,
    ) ==> leaf_entry(mem2, root, w) == leaf_entry(mem1, root, w)) by {
        let i0 = spec_index0(w);
        let i1 = spec_index1(w);
        let i2 = spec_index2(w);
        assert(0 <= i0 < 512 && 0 <= i1 < 512 && 0 <= i2 < 512);
        assert(l1_entry(mem2, root, i0) == l1_entry(mem1, root, i0));
        if l1_ok(mem1, root, i0) {
            assert(l2_entry(mem2, root, i0, i1) == l2_entry(mem1, root, i0, i1));
            if l2_ok(mem1, root, i0, i1) {
                assert(mem2.table(l2_node(mem1, root, i0, i1))[i2] == mem1.table(
                    l2_node(mem1, root, i0, i1),
                )[i2]);
            }
        }
    }
}



impl PageTable {
    /// Shared shape of the mutating walk steps' contract: structure intact,
    /// bookkeeping grown only by fresh frames, every mapping kept, and no
    /// page outside this table's nodes touched.
    pub open spec fn struct_frame(
        pre_pt: PageTable,
        post_pt: PageTable,
        pre_a: StackFrameAllocator,
        post_a: StackFrameAllocator,
        pre_m: PhysFrames,
        post_m: PhysFrames,
    ) -> bool {
        &&& post_pt.root_ppn == pre_pt.root_ppn
        &&& post_pt.wf(post_m)
        &&& post_pt.nodes_live(post_a)
        &&& post_a.wf()
        &&& allocator_within(post_a, post_m)
        &&& post_a.floor == pre_a.floor
        &&& post_a.end == pre_a.end
        &&& post_m.base == pre_m.base
        &&& post_m.len() == pre_m.len()
        &&& forall|p: int| pre_pt.nodes@.contains(p) ==> post_pt.nodes@.contains(p)
        &&& forall|p: int|
            post_pt.nodes@.contains(p) ==> pre_pt.nodes@.contains(p) || (!pre_a.live().contains(p)
                && post_a.live().contains(p))
        &&& forall|q: int| pre_a.live().contains(q) ==> post_a.live().contains(q)
        &&& forall|q: int|
            post_a.live().contains(q) ==> pre_a.live().contains(q) || post_pt.nodes@.contains(q)
        &&& forall|q: int|
            pre_m.in_range(q) && !post_pt.nodes@.contains(q) ==> post_m.page(q) == pre_m.page(q)
    }

    /// `struct_frame` together with full preservation of the mapping view.
    pub open spec fn step_frame(
        pre_pt: PageTable,
        post_pt: PageTable,
        pre_a: StackFrameAllocator,
        post_a: StackFrameAllocator,
        pre_m: PhysFrames,
        post_m: PhysFrames,
    ) -> bool {
        &&& Self::struct_frame(pre_pt, post_pt, pre_a, post_a, pre_m, post_m)
        &&& forall|w: int| walk_ok(post_m, post_pt.root(), w) == walk_ok(pre_m, pre_pt.root(), w)
        &&& forall|w: int|
            walk_ok(pre_m, pre_pt.root(), w) ==> leaf_entry(post_m, post_pt.root(), w)
                == leaf_entry(pre_m, pre_pt.root(), w)
    }

    /// Walks to — or creates — the middle-level node below root entry `i0`.
    fn ensure_l1(
        &mut self,
        i0: usize,
        a: &mut StackFrameAllocator,
        mem: &mut PhysFrames,
    ) -> (r: Result<PhysPageNumber, PageTableError>)
        requires
            i0 < 512,
            old(self).wf(*old(mem)),
            old(self).nodes_live(*old(a)),
            old(a).wf(),
            allocator_within(*old(a), *old(mem)),
        ensures
            old(a).exhausted() ==> final(a).exhausted(),
            match r {
                Ok(n1) => {
                    &&& Self::step_frame(
                        *old(self),
                        *final(self),
                        *old(a),
                        *final(a),
                        *old(mem),
                        *final(mem),
                    )
                    &&& l1_ok(*final(mem), old(self).root(), i0 as int)
                    &&& n1.0 == l1_node(*final(mem), old(self).root(), i0 as int)
                    &&& !l1_ok(*old(mem), old(self).root(), i0 as int) ==> l1_entry(
                        *final(mem),
                        old(self).root(),
                        i0 as int,
                    ).spec_flags() == PTE_V
                    &&& forall|i1: int|
                        0 <= i1 < 512 ==> l2_entry(
                            *final(mem),
                            old(self).root(),
                            i0 as int,
                            i1,
                        ) == if l1_ok(*old(mem), old(self).root(), i0 as int) {
                            l2_entry(*old(mem), old(self).root(), i0 as int, i1)
                        } else {
                            PageTableEntry(0)
                        }
                },
                Err(e) => {
                    &&& e == PageTableError::FrameUnavailable
                    &&& *final(self) == *old(self)
                    &&& *final(mem) == *old(mem)
                    &&& final(a).live() =~= old(a).live()
                    &&& final(a).wf()
                    &&& final(a).floor == old(a).floor
                    &&& final(a).end == old(a).end
                    &&& final(a).exhausted()
                    &&& !l1_ok(*old(mem), old(self).root(), i0 as int)
                },
            },
    {
        let ghost m0 = *mem;
        let ghost a0 = *a;
        let ghost pt0 = *self;
        let ghost root = self.root();
        let e0 = mem.read_pte(self.root_ppn, i0);
        if e0.is_valid() {
            let n1 = e0.ppn();
            proof {
                assert(l1_ok(m0, root, i0 as int));
                assert(n1.0 == l1_node(m0, root, i0 as int));
                assert(mem.is_table(n1.0 as int));
            }
            return Ok(n1);
        }
        match a.alloc_frame() {
            None => {
                proof {
                    assert(a.recycled@ == a0.recycled@);
                    assert(a.current == a0.current);
                    assert(a0.recycled@.len() == 0 && a0.current == a0.end);
                    assert(a.exhausted());
                }
                Err(PageTableError::FrameUnavailable)
            },
            Some(p) => {
                proof {
                    assert(!pt0.nodes@.contains(p.0 as int));
                    assert(mem.in_range(p.0 as int));
                }
                mem.install_table(p);
                let ghost m1 = *mem;
                let e = PageTableEntry::new(p, PTEFlags(PTE_V));
                proof {
                    vstd::arithmetic::div_mod::lemma_fundamental_div_mod_converse(
                        e.0 as int,
                        2,
                        p.0 as int * 512,
                        1,
                    );
                    assert(e.spec_is_valid());
                }
                mem.write_pte(self.root_ppn, i0, e);
                self.frames.push(Frame::new(p));
                proof {
                    self.nodes@ = pt0.nodes@.insert(p.0 as int);
                }
                let ghost m2 = *mem;
                let ghost pp = p.0 as int;
                proof {
                    lemma_create_l1(pt0, *self, a0, *a, m0, m1, m2, i0 as int, pp, e);
                }
                Ok(p)
            },
        }
    }
}

/// After installing a fresh zero table `pp` and pointing root entry `i0` at
/// it, the table is well formed again, nothing else moved, and no mapping
/// changed.
proof fn lemma_create_l1(
    pt0: PageTable,
    pt2: PageTable,
    a0: StackFrameAllocator,
    a2: StackFrameAllocator,
    m0: PhysFrames,
    m1: PhysFrames,
    m2: PhysFrames,
    i0: int,
    pp: int,
    e: PageTableEntry,
)
    requires
        0 <= i0 < 512,
        pt0.wf(m0),
        pt0.nodes_live(a0),
        a0.wf(),
        allocator_within(a0, m0),
        !l1_ok(m0, pt0.root(), i0),
        // the fresh frame
        !a0.live().contains(pp),
        a2.wf(),
        a2.live() =~= a0.live().insert(pp),
        a2.floor == a0.floor,
        a2.end == a0.end,
        m0.in_range(pp),
        // install_table step
        m1.base == m0.base,
        m1.len() == m0.len(),
        m1.is_table(pp),
        m1.table(pp) =~= Seq::new(512nat, |i: int| PageTableEntry(0)),
        forall|q: int| m0.in_range(q) && q != pp ==> m1.page(q) == m0.page(q),
        // write_pte step
        e.spec_ppn() == pp,
        e.spec_is_valid(),
        m2.base == m1.base,
        m2.len() == m1.len(),
        m2.is_table(pt0.root()),
        m2.table(pt0.root()) =~= m1.table(pt0.root()).update(i0, e),
        forall|q: int| m1.in_range(q) && q != pt0.root() ==> m2.page(q) == m1.page(q),
        // the new table value
        pt2.root_ppn == pt0.root_ppn,
        pt2.nodes@ =~= pt0.nodes@.insert(pp),
    ensures
        PageTable::step_frame(pt0, pt2, a0, a2, m0, m2),
        l1_ok(m2, pt0.root(), i0),
        pp == l1_node(m2, pt0.root(), i0),
        forall|i1: int| 0 <= i1 < 512 ==> l2_entry(m2, pt0.root(), i0, i1) == PageTableEntry(0),
{
    let root = pt0.root();
    assert(pp != root);
    assert(m1.table(root) == m0.table(root));
    // entries of the root after the write
    assert forall|j0: int| 0 <= j0 < 512 && j0 != i0 implies l1_entry(m2, root, j0) == l1_entry(
        m0,
        root,
        j0,
    ) by {
        assert(m2.table(root)[j0] == m1.table(root)[j0]);
    }
    assert(l1_entry(m2, root, i0) == e);
    assert(l1_ok(m2, root, i0));
    assert(l1_node(m2, root, i0) == pp);
    // pages other than root and pp are untouched
    assert forall|q: int| m0.in_range(q) && q != pp && q != root implies m2.page(q) == m0.page(
        q,
    ) by {
        assert(m1.page(q) == m0.page(q));
    }
    assert(m2.page(pp) == m1.page(pp));
    assert(m2.is_table(pp));
    assert(m2.table(pp) =~= Seq::new(512nat, |i: int| PageTableEntry(0)));
    // the new node's entries are all invalid
    assert forall|i1: int| 0 <= i1 < 512 implies l2_entry(m2, root, i0, i1) == PageTableEntry(
        0,
    ) by {
        assert(m2.table(pp)[i1] == PageTableEntry(0));
    }
    // surviving level-1 nodes keep their pages
    assert forall|j0: int|
        0 <= j0 < 512 && j0 != i0 && l1_ok(m0, root, j0) implies m2.page(
        l1_node(m0, root, j0),
    ) == m0.page(l1_node(m0, root, j0)) && pt0.nodes@.contains(l1_node(m0, root, j0)) && l1_node(
        m0,
        root,
        j0,
    ) != pp by {
        assert(pt0.nodes@.contains(l1_node(m0, root, j0)));
        assert(a0.live().contains(l1_node(m0, root, j0)));
    }
    // level-2 entries under surviving nodes are unchanged
    assert forall|j0: int, j1: int|
        0 <= j0 < 512 && 0 <= j1 < 512 && j0 != i0 && l1_ok(m0, root, j0) implies l2_entry(
        m2,
        root,
        j0,
        j1,
    ) == l2_entry(m0, root, j0, j1) && l1_ok(m2, root, j0) && l1_node(m2, root, j0) == l1_node(
        m0,
        root,
        j0,
    ) by {
        assert(l1_entry(m2, root, j0) == l1_entry(m0, root, j0));
        assert(m2.page(l1_node(m0, root, j0)) == m0.page(l1_node(m0, root, j0)));
    }
    // surviving leaf nodes keep their pages
    assert forall|j0: int, j1: int|
        0 <= j0 < 512 && 0 <= j1 < 512 && j0 != i0 && l1_ok(m0, root, j0) && l2_ok(
        m0,
        root,
        j0,
        j1,
    ) implies m2.page(l2_node(m0, root, j0, j1)) == m0.page(l2_node(m0, root, j0, j1))
        && pt0.nodes@.contains(l2_node(m0, root, j0, j1)) && l2_node(m0, root, j0, j1) != pp by {
        assert(pt0.nodes@.contains(l2_node(m0, root, j0, j1)));
        assert(a0.live().contains(l2_node(m0, root, j0, j1)));
    }
    // well-formedness of the new walk
    assert(walk_wf(m2, root)) by {
        assert forall|j0: int|
            0 <= j0 < 512 && l1_ok(m2, root, j0) implies m2.is_table(
            #[trigger] l1_node(m2, root, j0),
        ) && l1_node(m2, root, j0) != root by {
            if j0 == i0 {
                assert(l1_node(m2, root, i0) == pp);
            } else {
                assert(l1_entry(m2, root, j0) == l1_entry(m0, root, j0));
                assert(m2.page(l1_node(m0, root, j0)) == m0.page(l1_node(m0, root, j0)));
            }
        }
        assert forall|j0: int, j1: int|
            0 <= j0 < 512 && 0 <= j1 < 512 && l1_ok(m2, root, j0) && l2_ok(m2, root, j0, j1)
            implies m2.is_table(#[trigger] l2_node(m2, root, j0, j1)) && l2_node(m2, root, j0, j1)
            != root by {
            if j0 == i0 {
                assert(l2_entry(m2, root, i0, j1) == PageTableEntry(0));
                assert(!l2_ok(m2, root, i0, j1));
            } else {
                assert(l2_entry(m2, root, j0, j1) == l2_entry(m0, root, j0, j1));
                assert(l2_ok(m0, root, j0, j1));
                assert(m2.page(l2_node(m0, root, j0, j1)) == m0.page(l2_node(m0, root, j0, j1)));
            }
        }
        assert forall|j0: int, k0: int|
            0 <= j0 < 512 && 0 <= k0 < 512 && l1_ok(m2, root, j0) && l1_ok(m2, root, k0)
                && #[trigger] l1_node(m2, root, j0) == #[trigger] l1_node(m2, root, k0)
            implies j0 == k0 by {
            if j0 != k0 {
                if j0 == i0 {
                    assert(l1_node(m2, root, k0) == l1_node(m0, root, k0));
                    assert(l1_node(m0, root, k0) != pp);
                } else if k0 == i0 {
                    assert(l1_node(m2, root, j0) == l1_node(m0, root, j0));
                    assert(l1_node(m0, root, j0) != pp);
                } else {
                    assert(l1_node(m2, root, j0) == l1_node(m0, root, j0));
                    assert(l1_node(m2, root, k0) == l1_node(m0, root, k0));
                    assert(l1_ok(m0, root, j0));
                    assert(l1_ok(m0, root, k0));
                }
            }
        }
        assert forall|j0: int, j1: int, k0: int|
            0 <= j0 < 512 && 0 <= j1 < 512 && 0 <= k0 < 512 && l1_ok(m2, root, j0) && l2_ok(
            m2,
            root,
            j0,
            j1,
        ) && l1_ok(m2, root, k0) implies #[trigger] l2_node(m2, root, j0, j1)
            != #[trigger] l1_node(m2, root, k0) by {
            assert(j0 != i0);
            assert(l2_node(m2, root, j0, j1) == l2_node(m0, root, j0, j1));
            assert(l2_ok(m0, root, j0, j1));
            if k0 == i0 {
                assert(l1_node(m2, root, i0) == pp);
                assert(l2_node(m0, root, j0, j1) != pp);
            } else {
                assert(l1_node(m2, root, k0) == l1_node(m0, root, k0));
                assert(l1_ok(m0, root, k0));
            }
        }
        assert forall|j0: int, j1: int, k0: int, k1: int|
            0 <= j0 < 512 && 0 <= j1 < 512 && 0 <= k0 < 512 && 0 <= k1 < 512 && l1_ok(
            m2,
            root,
            j0,
        ) && l2_ok(m2, root, j0, j1) && l1_ok(m2, root, k0) && l2_ok(m2, root, k0, k1)
            && #[trigger] l2_node(m2, root, j0, j1) == #[trigger] l2_node(m2, root, k0, k1)
            implies j0 == k0 && j1 == k1 by {
            assert(j0 != i0);
            assert(k0 != i0);
            assert(l2_node(m2, root, j0, j1) == l2_node(m0, root, j0, j1));
            assert(l2_node(m2, root, k0, k1) == l2_node(m0, root, k0, k1));
            assert(l2_ok(m0, root, j0, j1));
            assert(l2_ok(m0, root, k0, k1));
        }
    }
    // nodes recorded
    assert(pt2.wf(m2)) by {
        assert forall|j0: int|
            0 <= j0 < 512 && l1_ok(m2, root, j0) implies pt2.nodes@.contains(
            #[trigger] l1_node(m2, root, j0),
        ) by {
            if j0 == i0 {
                assert(l1_node(m2, root, i0) == pp);
            } else {
                assert(l1_node(m2, root, j0) == l1_node(m0, root, j0));
                assert(pt0.nodes@.contains(l1_node(m0, root, j0)));
            }
        }
        assert forall|j0: int, j1: int|
            0 <= j0 < 512 && 0 <= j1 < 512 && l1_ok(m2, root, j0) && l2_ok(m2, root, j0, j1)
            implies pt2.nodes@.contains(#[trigger] l2_node(m2, root, j0, j1)) by {
            assert(j0 != i0);
            assert(l2_node(m2, root, j0, j1) == l2_node(m0, root, j0, j1));
            assert(pt0.nodes@.contains(l2_node(m0, root, j0, j1)));
        }
    }
    // mappings unchanged
    assert forall|w: int| walk_ok(m2, root, w) == walk_ok(m0, root, w) && (walk_ok(m0, root, w)
        ==> leaf_entry(m2, root, w) == leaf_entry(m0, root, w)) by {
        let x0 = spec_index0(w);
        let x1 = spec_index1(w);
        let x2 = spec_index2(w);
        assert(0 <= x0 < 512 && 0 <= x1 < 512 && 0 <= x2 < 512);
        if x0 == i0 {
            assert(!l1_ok(m0, root, i0));
            assert(l2_entry(m2, root, i0, x1) == PageTableEntry(0));
            assert(!walk_ok(m2, root, w));
            assert(!walk_ok(m0, root, w));
        } else {
            assert(l1_entry(m2, root, x0) == l1_entry(m0, root, x0));
            if l1_ok(m0, root, x0) {
                assert(l2_entry(m2, root, x0, x1) == l2_entry(m0, root, x0, x1));
                if l2_ok(m0, root, x0, x1) {
                    assert(m2.page(l2_node(m0, root, x0, x1)) == m0.page(
                        l2_node(m0, root, x0, x1),
                    ));
                    assert(leaf_entry(m2, root, w) == leaf_entry(m0, root, w));
                }
            }
        }
    }
    // liveness of the recorded nodes
    assert forall|q: int| pt2.nodes@.contains(q) implies a2.live().contains(q) by {
        if q != pp {
            assert(pt0.nodes@.contains(q));
            assert(a0.live().contains(q));
        }
    }
}



impl PageTable {
    /// Walks to — or creates — the leaf-level node below entry `(i0, i1)`.
    fn ensure_l2(
        &mut self,
        i0: usize,
        i1: usize,
        a: &mut StackFrameAllocator,
        mem: &mut PhysFrames,
    ) -> (r: Result<PhysPageNumber, PageTableError>)
        requires
            i0 < 512,
            i1 < 512,
            old(self).wf(*old(mem)),
            old(self).nodes_live(*old(a)),
            old(a).wf(),
            allocator_within(*old(a), *old(mem)),
            l1_ok(*old(mem), old(self).root(), i0 as int),
        ensures
            old(a).exhausted() ==> final(a).exhausted(),
            match r {
                Ok(n2) => {
                    &&& Self::step_frame(
                        *old(self),
                        *final(self),
                        *old(a),
                        *final(a),
                        *old(mem),
                        *final(mem),
                    )
                    &&& l1_ok(*final(mem), old(self).root(), i0 as int)
                    &&& l2_ok(*final(mem), old(self).root(), i0 as int, i1 as int)
                    &&& n2.0 == l2_node(*final(mem), old(self).root(), i0 as int, i1 as int)
                    &&& l1_entry(*final(mem), old(self).root(), i0 as int) == l1_entry(
                        *old(mem),
                        old(self).root(),
                        i0 as int,
                    )
                    &&& !l2_ok(*old(mem), old(self).root(), i0 as int, i1 as int) ==> l2_entry(
                        *final(mem),
                        old(self).root(),
                        i0 as int,
                        i1 as int,
                    ).spec_flags() == PTE_V
                    &&& forall|i2: int|
                        0 <= i2 < 512 ==> final(mem).table(n2.0 as int)[i2] == if l2_ok(
                            *old(mem),
                            old(self).root(),
                            i0 as int,
                            i1 as int,
                        ) {
                            old(mem).table(
                                l2_node(*old(mem), old(self).root(), i0 as int, i1 as int),
                            )[i2]
                        } else {
                            PageTableEntry(0)
                        }
                },
                Err(e) => {
                    &&& e == PageTableError::FrameUnavailable
                    &&& *final(self) == *old(self)
                    &&& *final(mem) == *old(mem)
                    &&& final(a).live() =~= old(a).live()
                    &&& final(a).wf()
                    &&& final(a).floor == old(a).floor
                    &&& final(a).end == old(a).end
                    &&& final(a).exhausted()
                    &&& !l2_ok(*old(mem), old(self).root(), i0 as int, i1 as int)
                },
            },
    {
        let ghost m0 = *mem;
        let ghost a0 = *a;
        let ghost pt0 = *self;
        let ghost root = self.root();
        let e0 = mem.read_pte(self.root_ppn, i0);
        let n1 = e0.ppn();
        proof {
            assert(e0 == l1_entry(m0, root, i0 as int));
            assert(n1.0 == l1_node(m0, root, i0 as int));
            assert(mem.is_table(n1.0 as int));
        }
        let e1 = mem.read_pte(n1, i1);
        proof {
            assert(e1 == l2_entry(m0, root, i0 as int, i1 as int));
        }
        if e1.is_valid() {
            let n2 = e1.ppn();
            proof {
                assert(l2_ok(m0, root, i0 as int, i1 as int));
                assert(n2.0 == l2_node(m0, root, i0 as int, i1 as int));
                assert(mem.is_table(n2.0 as int));
            }
            return Ok(n2);
        }
        match a.alloc_frame() {
            None => {
                proof {
                    assert(a.recycled@ == a0.recycled@);
                    assert(a.current == a0.current);
                    assert(a.exhausted());
                }
                Err(PageTableError::FrameUnavailable)
            },
            Some(p) => {
                proof {
                    assert(!pt0.nodes@.contains(p.0 as int));
                    assert(mem.in_range(p.0 as int));
                    assert(pt0.nodes@.contains(n1.0 as int));
                    assert(n1.0 != p.0);
                }
                mem.install_table(p);
                let ghost m1 = *mem;
                let e = PageTableEntry::new(p, PTEFlags(PTE_V));
                proof {
                    vstd::arithmetic::div_mod::lemma_fundamental_div_mod_converse(
                        e.0 as int,
                        2,
                        p.0 as int * 512,
                        1,
                    );
                    assert(e.spec_is_valid());
                    assert(m1.is_table(n1.0 as int)) by {
                        assert(m1.page(n1.0 as int) == m0.page(n1.0 as int));
                    }
                }
                mem.write_pte(n1, i1, e);
                self.frames.push(Frame::new(p));
                proof {
                    self.nodes@ = pt0.nodes@.insert(p.0 as int);
                }
                let ghost m2 = *mem;
                let ghost pp = p.0 as int;
                proof {
                    lemma_create_l2(
                        pt0,
                        *self,
                        a0,
                        *a,
                        m0,
                        m1,
                        m2,
                        i0 as int,
                        i1 as int,
                        pp,
                        e,
                    );
                }
                Ok(p)
            },
        }
    }
}

/// After installing a fresh zero table `pp` and pointing entry `(i0, i1)` at
/// it, the table is well formed again, nothing else moved, and no mapping
/// changed.
proof fn lemma_create_l2(
    pt0: PageTable,
    pt2: PageTable,
    a0: StackFrameAllocator,
    a2: StackFrameAllocator,
    m0: PhysFrames,
    m1: PhysFrames,
    m2: PhysFrames,
    i0: int,
    i1: int,
    pp: int,
    e: PageTableEntry,
)
    requires
        0 <= i0 < 512,
        0 <= i1 < 512,
        pt0.wf(m0),
        pt0.nodes_live(a0),
        a0.wf(),
        allocator_within(a0, m0),
        l1_ok(m0, pt0.root(), i0),
        !l2_ok(m0, pt0.root(), i0, i1),
        // the fresh frame
        !a0.live().contains(pp),
        a2.wf(),
        a2.live() =~= a0.live().insert(pp),
        a2.floor == a0.floor,
        a2.end == a0.end,
        m0.in_range(pp),
        // install_table step
        m1.base == m0.base,
        m1.len() == m0.len(),
        m1.is_table(pp),
        m1.table(pp) =~= Seq::new(512nat, |i: int| PageTableEntry(0)),
        forall|q: int| m0.in_range(q) && q != pp ==> m1.page(q) == m0.page(q),
        // write_pte step at the middle-level node
        e.spec_ppn() == pp,
        e.spec_is_valid(),
        m2.base == m1.base,
        m2.len() == m1.len(),
        m2.is_table(l1_node(m0, pt0.root(), i0)),
        m2.table(l1_node(m0, pt0.root(), i0)) =~= m1.table(l1_node(m0, pt0.root(), i0)).update(
            i1,
            e,
        ),
        forall|q: int|
            m1.in_range(q) && q != l1_node(m0, pt0.root(), i0) ==> m2.page(q) == m1.page(q),
        // the new table value
        pt2.root_ppn == pt0.root_ppn,
        pt2.nodes@ =~= pt0.nodes@.insert(pp),
    ensures
        PageTable::step_frame(pt0, pt2, a0, a2, m0, m2),
        l1_ok(m2, pt0.root(), i0),
        l2_ok(m2, pt0.root(), i0, i1),
        pp == l2_node(m2, pt0.root(), i0, i1),
        forall|i2: int| 0 <= i2 < 512 ==> m2.table(pp)[i2] == PageTableEntry(0),
{
    let root = pt0.root();
    let n1 = l1_node(m0, root, i0);
    assert(pt0.nodes@.contains(n1));
    assert(a0.live().contains(n1));
    assert(pp != root);
    assert(pp != n1);
    assert(n1 != root);
    // pages other than n1 and pp are untouched
    assert forall|q: int| m0.in_range(q) && q != pp && q != n1 implies m2.page(q) == m0.page(
        q,
    ) by {
        assert(m1.page(q) == m0.page(q));
    }
    assert(m2.page(root) == m0.page(root));
    assert(m2.table(root) == m0.table(root));
    // level-1 entries unchanged
    assert forall|j0: int| 0 <= j0 < 512 implies l1_entry(m2, root, j0) == l1_entry(
        m0,
        root,
        j0,
    ) by {
        assert(m2.table(root) == m0.table(root));
    }
    // the written middle-level node
    assert(m1.table(n1) == m0.table(n1));
    assert forall|j1: int| 0 <= j1 < 512 && j1 != i1 implies l2_entry(m2, root, i0, j1)
        == l2_entry(m0, root, i0, j1) by {
        assert(l1_node(m2, root, i0) == n1);
        assert(m2.table(n1)[j1] == m1.table(n1)[j1]);
    }
    assert(l1_node(m2, root, i0) == n1);
    assert(l2_entry(m2, root, i0, i1) == e);
    assert(l2_ok(m2, root, i0, i1));
    assert(l2_node(m2, root, i0, i1) == pp);
    assert(m2.page(pp) == m1.page(pp));
    assert(m2.is_table(pp));
    assert forall|i2: int| 0 <= i2 < 512 implies m2.table(pp)[i2] == PageTableEntry(0) by {}
    // other middle-level nodes keep their pages and entries
    assert forall|j0: int|
        0 <= j0 < 512 && j0 != i0 && l1_ok(m0, root, j0) implies l1_node(m0, root, j0) != n1
        && l1_node(m0, root, j0) != pp && m2.page(l1_node(m0, root, j0)) == m0.page(
        l1_node(m0, root, j0),
    ) by {
        assert(pt0.nodes@.contains(l1_node(m0, root, j0)));
        assert(a0.live().contains(l1_node(m0, root, j0)));
    }
    assert forall|j0: int, j1: int|
        0 <= j0 < 512 && 0 <= j1 < 512 && j0 != i0 && l1_ok(m0, root, j0) implies l2_entry(
        m2,
        root,
        j0,
        j1,
    ) == l2_entry(m0, root, j0, j1) by {
        assert(l1_node(m2, root, j0) == l1_node(m0, root, j0));
        assert(m2.page(l1_node(m0, root, j0)) == m0.page(l1_node(m0, root, j0)));
    }
    // surviving leaf nodes keep their pages
    assert forall|j0: int, j1: int|
        0 <= j0 < 512 && 0 <= j1 < 512 && l1_ok(m0, root, j0) && l2_ok(m0, root, j0, j1)
        implies l2_node(m0, root, j0, j1) != pp && l2_node(m0, root, j0, j1) != n1 && m2.page(
        l2_node(m0, root, j0, j1),
    ) == m0.page(l2_node(m0, root, j0, j1)) by {
        assert(pt0.nodes@.contains(l2_node(m0, root, j0, j1)));
        assert(a0.live().contains(l2_node(m0, root, j0, j1)));
    }
    // well-formedness of the new walk
    assert(walk_wf(m2, root)) by {
        assert forall|j0: int|
            0 <= j0 < 512 && l1_ok(m2, root, j0) implies m2.is_table(
            #[trigger] l1_node(m2, root, j0),
        ) && l1_node(m2, root, j0) != root by {
            assert(l1_entry(m2, root, j0) == l1_entry(m0, root, j0));
            if j0 == i0 {
                assert(l1_node(m2, root, i0) == n1);
            } else {
                assert(m2.page(l1_node(m0, root, j0)) == m0.page(l1_node(m0, root, j0)));
            }
        }
        assert forall|j0: int, j1: int|
            0 <= j0 < 512 && 0 <= j1 < 512 && l1_ok(m2, root, j0) && l2_ok(m2, root, j0, j1)
            implies m2.is_table(#[trigger] l2_node(m2, root, j0, j1)) && l2_node(m2, root, j0, j1)
            != root by {
            if j0 == i0 && j1 == i1 {
                assert(l2_node(m2, root, i0, i1) == pp);
            } else if j0 == i0 {
                assert(l2_entry(m2, root, i0, j1) == l2_entry(m0, root, i0, j1));
                assert(l2_ok(m0, root, i0, j1));
                assert(m2.page(l2_node(m0, root, i0, j1)) == m0.page(l2_node(m0, root, i0, j1)));
            } else {
                assert(l2_entry(m2, root, j0, j1) == l2_entry(m0, root, j0, j1));
                assert(l2_ok(m0, root, j0, j1));
                assert(m2.page(l2_node(m0, root, j0, j1)) == m0.page(l2_node(m0, root, j0, j1)));
            }
        }
        assert forall|j0: int, k0: int|
            0 <= j0 < 512 && 0 <= k0 < 512 && l1_ok(m2, root, j0) && l1_ok(m2, root, k0)
                && #[trigger] l1_node(m2, root, j0) == #[trigger] l1_node(m2, root, k0)
            implies j0 == k0 by {
            assert(l1_entry(m2, root, j0) == l1_entry(m0, root, j0));
            assert(l1_entry(m2, root, k0) == l1_entry(m0, root, k0));
            assert(l1_ok(m0, root, j0));
            assert(l1_ok(m0, root, k0));
            assert(l1_node(m0, root, j0) == l1_node(m2, root, j0));
            assert(l1_node(m0, root, k0) == l1_node(m2, root, k0));
        }
        assert forall|j0: int, j1: int, k0: int|
            0 <= j0 < 512 && 0 <= j1 < 512 && 0 <= k0 < 512 && l1_ok(m2, root, j0) && l2_ok(
            m2,
            root,
            j0,
            j1,
        ) && l1_ok(m2, root, k0) implies #[trigger] l2_node(m2, root, j0, j1)
            != #[trigger] l1_node(m2, root, k0) by {
            assert(l1_entry(m2, root, k0) == l1_entry(m0, root, k0));
            assert(l1_ok(m0, root, k0));
            if j0 == i0 && j1 == i1 {
                assert(l2_node(m2, root, i0, i1) == pp);
                assert(pt0.nodes@.contains(l1_node(m0, root, k0)));
                assert(a0.live().contains(l1_node(m0, root, k0)));
            } else if j0 == i0 {
                assert(l2_entry(m2, root, i0, j1) == l2_entry(m0, root, i0, j1));
                assert(l2_ok(m0, root, i0, j1));
            } else {
                assert(l2_entry(m2, root, j0, j1) == l2_entry(m0, root, j0, j1));
                assert(l2_ok(m0, root, j0, j1));
            }
        }
        assert forall|j0: int, j1: int, k0: int, k1: int|
            0 <= j0 < 512 && 0 <= j1 < 512 && 0 <= k0 < 512 && 0 <= k1 < 512 && l1_ok(
            m2,
            root,
            j0,
        ) && l2_ok(m2, root, j0, j1) && l1_ok(m2, root, k0) && l2_ok(m2, root, k0, k1)
            && #[trigger] l2_node(m2, root, j0, j1) == #[trigger] l2_node(m2, root, k0, k1)
            implies j0 == k0 && j1 == k1 by {
            let fresh_j = j0 == i0 && j1 == i1;
            let fresh_k = k0 == i0 && k1 == i1;
            if fresh_j && fresh_k {
            } else if fresh_j {
                assert(l2_node(m2, root, j0, j1) == pp);
                if k0 == i0 {
                    assert(l2_entry(m2, root, i0, k1) == l2_entry(m0, root, i0, k1));
                } else {
                    assert(l2_entry(m2, root, k0, k1) == l2_entry(m0, root, k0, k1));
                }
                assert(l2_ok(m0, root, k0, k1));
                assert(pt0.nodes@.contains(l2_node(m0, root, k0, k1)));
                assert(a0.live().contains(l2_node(m0, root, k0, k1)));
                assert(l2_node(m2, root, k0, k1) == l2_node(m0, root, k0, k1));
            } else if fresh_k {
                assert(l2_node(m2, root, k0, k1) == pp);
                if j0 == i0 {
                    assert(l2_entry(m2, root, i0, j1) == l2_entry(m0, root, i0, j1));
                } else {
                    assert(l2_entry(m2, root, j0, j1) == l2_entry(m0, root, j0, j1));
                }
                assert(l2_ok(m0, root, j0, j1));
                assert(pt0.nodes@.contains(l2_node(m0, root, j0, j1)));
                assert(a0.live().contains(l2_node(m0, root, j0, j1)));
                assert(l2_node(m2, root, j0, j1) == l2_node(m0, root, j0, j1));
            } else {
                if j0 == i0 {
                    assert(l2_entry(m2, root, i0, j1) == l2_entry(m0, root, i0, j1));
                } else {
                    assert(l2_entry(m2, root, j0, j1) == l2_entry(m0, root, j0, j1));
                }
                if k0 == i0 {
                    assert(l2_entry(m2, root, i0, k1) == l2_entry(m0, root, i0, k1));
                } else {
                    assert(l2_entry(m2, root, k0, k1) == l2_entry(m0, root, k0, k1));
                }
                assert(l2_ok(m0, root, j0, j1));
                assert(l2_ok(m0, root, k0, k1));
                assert(l2_node(m2, root, j0, j1) == l2_node(m0, root, j0, j1));
                assert(l2_node(m2, root, k0, k1) == l2_node(m0, root, k0, k1));
            }
        }
    }
    // nodes recorded
    assert(pt2.wf(m2)) by {
        assert forall|j0: int|
            0 <= j0 < 512 && l1_ok(m2, root, j0) implies pt2.nodes@.contains(
            #[trigger] l1_node(m2, root, j0),
        ) by {
            assert(l1_entry(m2, root, j0) == l1_entry(m0, root, j0));
            assert(pt0.nodes@.contains(l1_node(m0, root, j0)));
        }
        assert forall|j0: int, j1: int|
            0 <= j0 < 512 && 0 <= j1 < 512 && l1_ok(m2, root, j0) && l2_ok(m2, root, j0, j1)
            implies pt2.nodes@.contains(#[trigger] l2_node(m2, root, j0, j1)) by {
            if j0 == i0 && j1 == i1 {
                assert(l2_node(m2, root, i0, i1) == pp);
            } else if j0 == i0 {
                assert(l2_entry(m2, root, i0, j1) == l2_entry(m0, root, i0, j1));
                assert(pt0.nodes@.contains(l2_node(m0, root, i0, j1)));
            } else {
                assert(l2_entry(m2, root, j0, j1) == l2_entry(m0, root, j0, j1));
                assert(pt0.nodes@.contains(l2_node(m0, root, j0, j1)));
            }
        }
    }
    // mappings unchanged
    assert forall|w: int| walk_ok(m2, root, w) == walk_ok(m0, root, w) && (walk_ok(m0, root, w)
        ==> leaf_entry(m2, root, w) == leaf_entry(m0, root, w)) by {
        let x0 = spec_index0(w);
        let x1 = spec_index1(w);
        let x2 = spec_index2(w);
        assert(0 <= x0 < 512 && 0 <= x1 < 512 && 0 <= x2 < 512);
        assert(l1_entry(m2, root, x0) == l1_entry(m0, root, x0));
        if x0 == i0 && x1 == i1 {
            assert(!l2_ok(m0, root, i0, i1));
            assert(!walk_ok(m0, root, w));
            assert(l2_node(m2, root, i0, i1) == pp);
            assert(m2.table(pp)[x2] == PageTableEntry(0));
            assert(!walk_ok(m2, root, w));
        } else if l1_ok(m0, root, x0) {
            if x0 == i0 {
                assert(l2_entry(m2, root, i0, x1) == l2_entry(m0, root, i0, x1));
            } else {
                assert(l2_entry(m2, root, x0, x1) == l2_entry(m0, root, x0, x1));
            }
            if l2_ok(m0, root, x0, x1) {
                assert(m2.page(l2_node(m0, root, x0, x1)) == m0.page(l2_node(m0, root, x0, x1)));
            }
        }
    }
    // liveness of the recorded nodes
    assert forall|q: int| pt2.nodes@.contains(q) implies a2.live().contains(q) by {
        if q != pp {
            assert(pt0.nodes@.contains(q));
            assert(a0.live().contains(q));
        }
    }
}



/// Two structural steps of one table compose.
proof fn lemma_step_trans(
    pt0: PageTable,
    pt1: PageTable,
    pt2: PageTable,
    a0: StackFrameAllocator,
    a1: StackFrameAllocator,
    a2: StackFrameAllocator,
    m0: PhysFrames,
    m1: PhysFrames,
    m2: PhysFrames,
)
    requires
        PageTable::step_frame(pt0, pt1, a0, a1, m0, m1),
        PageTable::step_frame(pt1, pt2, a1, a2, m1, m2),
    ensures
        PageTable::step_frame(pt0, pt2, a0, a2, m0, m2),
{
    assert forall|q: int|
        m0.in_range(q) && !pt2.nodes@.contains(q) implies m2.page(q) == m0.page(q) by {
        assert(!pt1.nodes@.contains(q));
    }
}

/// Writing the leaf entry for `vpn` changes that one mapping and no other.
proof fn lemma_write_leaf(
    pt: PageTable,
    mb: PhysFrames,
    mc: PhysFrames,
    vpn: int,
    new_e: PageTableEntry,
)
    requires
        pt.wf(mb),
        0 <= vpn < VPN_SPACE,
        l1_ok(mb, pt.root(), spec_index0(vpn)),
        l2_ok(mb, pt.root(), spec_index0(vpn), spec_index1(vpn)),
        mc.base == mb.base,
        mc.len() == mb.len(),
        mc.is_table(l2_node(mb, pt.root(), spec_index0(vpn), spec_index1(vpn))),
        mc.table(l2_node(mb, pt.root(), spec_index0(vpn), spec_index1(vpn))) =~= mb.table(
            l2_node(mb, pt.root(), spec_index0(vpn), spec_index1(vpn)),
        ).update(spec_index2(vpn), new_e),
        forall|q: int|
            mb.in_range(q) && q != l2_node(mb, pt.root(), spec_index0(vpn), spec_index1(vpn))
                ==> mc.page(q) == mb.page(q),
    ensures
        pt.wf(mc),
        leaf_entry(mc, pt.root(), vpn) == new_e,
        walk_ok(mc, pt.root(), vpn) == new_e.spec_is_valid(),
        forall|j0: int|
            0 <= j0 < 512 ==> #[trigger] l1_entry(mc, pt.root(), j0) == l1_entry(
                mb,
                pt.root(),
                j0,
            ),
        forall|j0: int, j1: int|
            0 <= j0 < 512 && 0 <= j1 < 512 && l1_ok(mb, pt.root(), j0) ==> #[trigger] l2_entry(
                mc,
                pt.root(),
                j0,
                j1,
            ) == l2_entry(mb, pt.root(), j0, j1),
        forall|q: int|
            mb.in_range(q) && !pt.nodes@.contains(q) ==> mc.page(q) == mb.page(q),
        forall|w: int|
            0 <= w < VPN_SPACE && w != vpn ==> walk_ok(mc, pt.root(), w) == walk_ok(
                mb,
                pt.root(),
                w,
            ),
        forall|w: int|
            0 <= w < VPN_SPACE && w != vpn && walk_ok(mb, pt.root(), w) ==> leaf_entry(
                mc,
                pt.root(),
                w,
            ) == leaf_entry(mb, pt.root(), w),
{
    let root = pt.root();
    let i0 = spec_index0(vpn);
    let i1 = spec_index1(vpn);
    let i2 = spec_index2(vpn);
    let n2 = l2_node(mb, root, i0, i1);
    assert(0 <= i0 < 512 && 0 <= i1 < 512 && 0 <= i2 < 512);
    assert(pt.nodes@.contains(n2));
    assert(n2 != root);
    assert(mc.page(root) == mb.page(root));
    assert(mc.table(root) == mb.table(root));
    assert forall|j0: int| 0 <= j0 < 512 implies l1_entry(mc, root, j0) == l1_entry(
        mb,
        root,
        j0,
    ) by {
        assert(mc.table(root) == mb.table(root));
    }
    // middle-level nodes are untouched
    assert forall|j0: int|
        0 <= j0 < 512 && l1_ok(mb, root, j0) implies l1_node(mb, root, j0) != n2 && mc.page(
        l1_node(mb, root, j0),
    ) == mb.page(l1_node(mb, root, j0)) by {
        assert(l2_node(mb, root, i0, i1) != l1_node(mb, root, j0));
    }
    assert forall|j0: int, j1: int|
        0 <= j0 < 512 && 0 <= j1 < 512 && l1_ok(mb, root, j0) implies l2_entry(mc, root, j0, j1)
        == l2_entry(mb, root, j0, j1) by {
        assert(mc.page(l1_node(mb, root, j0)) == mb.page(l1_node(mb, root, j0)));
    }
    // other leaf nodes are untouched
    assert forall|j0: int, j1: int|
        0 <= j0 < 512 && 0 <= j1 < 512 && l1_ok(mb, root, j0) && l2_ok(mb, root, j0, j1) && !(j0
        == i0 && j1 == i1) implies l2_node(mb, root, j0, j1) != n2 && mc.page(
        l2_node(mb, root, j0, j1),
    ) == mb.page(l2_node(mb, root, j0, j1)) by {
    }
    // well-formedness carries over: the valid chains are identical
    assert(walk_wf(mc, root)) by {
        assert forall|j0: int|
            0 <= j0 < 512 && l1_ok(mc, root, j0) implies mc.is_table(
            #[trigger] l1_node(mc, root, j0),
        ) && l1_node(mc, root, j0) != root by {
            assert(l1_entry(mc, root, j0) == l1_entry(mb, root, j0));
            assert(mc.page(l1_node(mb, root, j0)) == mb.page(l1_node(mb, root, j0)));
        }
        assert forall|j0: int, j1: int|
            0 <= j0 < 512 && 0 <= j1 < 512 && l1_ok(mc, root, j0) && l2_ok(mc, root, j0, j1)
            implies mc.is_table(#[trigger] l2_node(mc, root, j0, j1)) && l2_node(mc, root, j0, j1)
            != root by {
            assert(l1_ok(mb, root, j0));
            assert(l2_entry(mc, root, j0, j1) == l2_entry(mb, root, j0, j1));
            assert(l2_ok(mb, root, j0, j1));
            if j0 == i0 && j1 == i1 {
                assert(l2_node(mc, root, j0, j1) == n2);
                assert(mc.is_table(n2));
            } else {
                assert(mc.page(l2_node(mb, root, j0, j1)) == mb.page(l2_node(mb, root, j0, j1)));
            }
        }
        assert forall|j0: int, k0: int|
            0 <= j0 < 512 && 0 <= k0 < 512 && l1_ok(mc, root, j0) && l1_ok(mc, root, k0)
                && #[trigger] l1_node(mc, root, j0) == #[trigger] l1_node(mc, root, k0)
            implies j0 == k0 by {
            assert(l1_entry(mc, root, j0) == l1_entry(mb, root, j0));
            assert(l1_entry(mc, root, k0) == l1_entry(mb, root, k0));
            assert(l1_ok(mb, root, j0));
            assert(l1_ok(mb, root, k0));
            assert(l1_node(mb, root, j0) == l1_node(mc, root, j0));
            assert(l1_node(mb, root, k0) == l1_node(mc, root, k0));
        }
        assert forall|j0: int, j1: int, k0: int|
            0 <= j0 < 512 && 0 <= j1 < 512 && 0 <= k0 < 512 && l1_ok(mc, root, j0) && l2_ok(
            mc,
            root,
            j0,
            j1,
        ) && l1_ok(mc, root, k0) implies #[trigger] l2_node(mc, root, j0, j1)
            != #[trigger] l1_node(mc, root, k0) by {
            assert(l1_ok(mb, root, j0));
            assert(l1_ok(mb, root, k0));
            assert(l2_entry(mc, root, j0, j1) == l2_entry(mb, root, j0, j1));
            assert(l2_ok(mb, root, j0, j1));
            assert(l2_node(mb, root, j0, j1) == l2_node(mc, root, j0, j1));
            assert(l1_node(mb, root, k0) == l1_node(mc, root, k0));
        }
        assert forall|j0: int, j1: int, k0: int, k1: int|
            0 <= j0 < 512 && 0 <= j1 < 512 && 0 <= k0 < 512 && 0 <= k1 < 512 && l1_ok(
            mc,
            root,
            j0,
        ) && l2_ok(mc, root, j0, j1) && l1_ok(mc, root, k0) && l2_ok(mc, root, k0, k1)
            && #[trigger] l2_node(mc, root, j0, j1) == #[trigger] l2_node(mc, root, k0, k1)
            implies j0 == k0 && j1 == k1 by {
            assert(l1_ok(mb, root, j0));
            assert(l1_ok(mb, root, k0));
            assert(l2_entry(mc, root, j0, j1) == l2_entry(mb, root, j0, j1));
            assert(l2_entry(mc, root, k0, k1) == l2_entry(mb, root, k0, k1));
            assert(l2_ok(mb, root, j0, j1));
            assert(l2_ok(mb, root, k0, k1));
            assert(l2_node(mb, root, j0, j1) == l2_node(mc, root, j0, j1));
            assert(l2_node(mb, root, k0, k1) == l2_node(mc, root, k0, k1));
        }
    }
    assert(pt.wf(mc)) by {
        assert forall|j0: int|
            0 <= j0 < 512 && l1_ok(mc, root, j0) implies pt.nodes@.contains(
            #[trigger] l1_node(mc, root, j0),
        ) by {
            assert(l1_entry(mc, root, j0) == l1_entry(mb, root, j0));
            assert(l1_ok(mb, root, j0));
            assert(l1_node(mb, root, j0) == l1_node(mc, root, j0));
            assert(pt.nodes@.contains(l1_node(mb, root, j0)));
        }
        assert forall|j0: int, j1: int|
            0 <= j0 < 512 && 0 <= j1 < 512 && l1_ok(mc, root, j0) && l2_ok(mc, root, j0, j1)
            implies pt.nodes@.contains(#[trigger] l2_node(mc, root, j0, j1)) by {
            assert(l1_ok(mb, root, j0));
            assert(l2_entry(mc, root, j0, j1) == l2_entry(mb, root, j0, j1));
            assert(l2_ok(mb, root, j0, j1));
            assert(l2_node(mb, root, j0, j1) == l2_node(mc, root, j0, j1));
            assert(pt.nodes@.contains(l2_node(mb, root, j0, j1)));
        }
    }
    // the changed mapping
    assert(l1_entry(mc, root, i0) == l1_entry(mb, root, i0));
    assert(l2_entry(mc, root, i0, i1) == l2_entry(mb, root, i0, i1));
    assert(l2_node(mc, root, i0, i1) == n2);
    assert(leaf_entry(mc, root, vpn) == mc.table(n2)[i2]);
    assert(mc.table(n2)[i2] == new_e);
    // every other mapping
    assert forall|w: int| 0 <= w < VPN_SPACE && w != vpn implies walk_ok(mc, root, w) == walk_ok(
        mb,
        root,
        w,
    ) && (walk_ok(mb, root, w) ==> leaf_entry(mc, root, w) == leaf_entry(mb, root, w)) by {
        let x0 = spec_index0(w);
        let x1 = spec_index1(w);
        let x2 = spec_index2(w);
        assert(0 <= x0 < 512 && 0 <= x1 < 512 && 0 <= x2 < 512);
        assert(l1_entry(mc, root, x0) == l1_entry(mb, root, x0));
        if l1_ok(mb, root, x0) {
            assert(l2_entry(mc, root, x0, x1) == l2_entry(mb, root, x0, x1));
            if l2_ok(mb, root, x0, x1) {
                if x0 == i0 && x1 == i1 {
                    assert(l2_node(mb, root, x0, x1) == n2);
                    if x2 == i2 {
                        lemma_indices_injective(vpn, w);
                        assert(false);
                    }
                    assert(mc.table(n2)[x2] == mb.table(n2)[x2]);
                } else {
                    assert(mc.page(l2_node(mb, root, x0, x1)) == mb.page(
                        l2_node(mb, root, x0, x1),
                    ));
                }
            }
        }
    }
}



impl PageTable {
    /// Installs a valid leaf mapping `vpn -> ppn` with `flags | V`. Fails with
    /// `MapAlreadyExists` exactly when `vpn` is already mapped, and with
    /// `FrameUnavailable` when an intermediate node cannot be allocated; in
    /// both cases every existing mapping is untouched.
    pub fn map(
        &mut self,
        vpn: VirtPageNumber,
        ppn: PhysPageNumber,
        flags: PTEFlags,
        a: &mut StackFrameAllocator,
        mem: &mut PhysFrames,
    ) -> (r: Result<(), PageTableError>)
        requires
            vpn.0 < VPN_SPACE,
            ppn.0 < PPN_SPACE,
            old(self).wf(*old(mem)),
            old(self).nodes_live(*old(a)),
            old(a).wf(),
            allocator_within(*old(a), *old(mem)),
        ensures
            old(a).exhausted() ==> final(a).exhausted(),
            Self::struct_frame(
                *old(self),
                *final(self),
                *old(a),
                *final(a),
                *old(mem),
                *final(mem),
            ),
            match r {
                Ok(()) => {
                    &&& !old(self).mapped(*old(mem), vpn.0 as int)
                    &&& final(self).mapped(*final(mem), vpn.0 as int)
                    &&& final(self).leaf(*final(mem), vpn.0 as int).spec_ppn() == ppn.0
                    &&& final(self).leaf(*final(mem), vpn.0 as int).spec_flags() == (flags.0
                        | PTE_V)
                    // intermediate entries created on the walk are Valid-only
                    &&& !l1_ok(*old(mem), old(self).root(), spec_index0(vpn.0 as int))
                        ==> l1_entry(
                        *final(mem),
                        old(self).root(),
                        spec_index0(vpn.0 as int),
                    ).spec_flags() == PTE_V
                    &&& !(l1_ok(*old(mem), old(self).root(), spec_index0(vpn.0 as int)) && l2_ok(
                        *old(mem),
                        old(self).root(),
                        spec_index0(vpn.0 as int),
                        spec_index1(vpn.0 as int),
                    )) ==> l2_entry(
                        *final(mem),
                        old(self).root(),
                        spec_index0(vpn.0 as int),
                        spec_index1(vpn.0 as int),
                    ).spec_flags() == PTE_V
                    &&& forall|w: int|
                        0 <= w < VPN_SPACE && w != vpn.0 ==> final(self).mapped(*final(mem), w)
                            == old(self).mapped(*old(mem), w)
                    &&& forall|w: int|
                        0 <= w < VPN_SPACE && w != vpn.0 && old(self).mapped(*old(mem), w)
                            ==> final(self).leaf(*final(mem), w) == old(self).leaf(*old(mem), w)
                },
                Err(PageTableError::MapAlreadyExists(v)) => {
                    &&& v == vpn
                    &&& old(self).mapped(*old(mem), vpn.0 as int)
                    &&& forall|w: int|
                        final(self).mapped(*final(mem), w) == old(self).mapped(*old(mem), w)
                    &&& forall|w: int|
                        old(self).mapped(*old(mem), w) ==> final(self).leaf(*final(mem), w) == old(self).leaf(*old(mem), w)
                },
                Err(PageTableError::FrameUnavailable) => {
                    &&& forall|w: int|
                        final(self).mapped(*final(mem), w) == old(self).mapped(*old(mem), w)
                    &&& forall|w: int|
                        old(self).mapped(*old(mem), w) ==> final(self).leaf(*final(mem), w) == old(self).leaf(*old(mem), w)
                    // a missing intermediate frame means the allocator really
                    // ran dry, and only an unmapped page takes this path
                    &&& final(a).exhausted()
                    &&& !old(self).mapped(*old(mem), vpn.0 as int)
                },
                Err(_) => false,
            },
    {
        let ghost pt0 = *self;
        let ghost a0 = *a;
        let ghost m0 = *mem;
        let ghost root = self.root();
        let ghost v = vpn.0 as int;
        let idx = vpn.indexes();
        let n1 = match self.ensure_l1(idx[0], a, mem) {
            Ok(n1) => n1,
            Err(e) => {
                return Err(e);
            },
        };
        let ghost pta = *self;
        let ghost aa = *a;
        let ghost ma = *mem;
        let n2 = match self.ensure_l2(idx[0], idx[1], a, mem) {
            Ok(n2) => n2,
            Err(e) => {
                proof {
                    assert(forall|w: int|
                        walk_ok(ma, root, w) == walk_ok(m0, root, w) && (walk_ok(m0, root, w)
                            ==> leaf_entry(ma, root, w) == leaf_entry(m0, root, w)));
                }
                return Err(e);
            },
        };
        let ghost ptb = *self;
        let ghost ab = *a;
        let ghost mb = *mem;
        proof {
            lemma_step_trans(pt0, pta, ptb, a0, aa, ab, m0, ma, mb);
            assert(n2.0 == l2_node(mb, root, spec_index0(v), spec_index1(v)));
            assert(mem.is_table(n2.0 as int));
        }
        let e2 = mem.read_pte(n2, idx[2]);
        proof {
            assert(e2 == leaf_entry(mb, root, v));
            assert(walk_ok(mb, root, v) == e2.spec_is_valid());
        }
        if e2.is_valid() {
            proof {
                assert(walk_ok(m0, root, v));
            }
            return Err(PageTableError::MapAlreadyExists(vpn));
        }
        let new_e = PageTableEntry::new(ppn, flags.union(PTEFlags(PTE_V)));
        proof {
            let f = flags.0;
            assert((f | 1u8) % 2 == 1) by (bit_vector);
            let g = (f | 1u8) as int;
            vstd::arithmetic::div_mod::lemma_fundamental_div_mod(g, 2);
            vstd::arithmetic::div_mod::lemma_fundamental_div_mod_converse(
                new_e.0 as int,
                2,
                ppn.0 as int * 512 + g / 2,
                1,
            );
            assert(new_e.spec_is_valid());
        }
        mem.write_pte(n2, idx[2], new_e);
        proof {
            lemma_write_leaf(ptb, mb, *mem, v, new_e);
            assert(Self::struct_frame(pt0, *self, a0, *a, m0, *mem)) by {
                assert forall|q: int|
                    m0.in_range(q) && !self.nodes@.contains(q) implies mem.page(q) == m0.page(
                    q,
                ) by {
                    assert(!ptb.nodes@.contains(q));
                    assert(mb.page(q) == m0.page(q));
                    assert(mb.in_range(q));
                }
            }
            assert(!walk_ok(m0, root, v)) by {
                assert(walk_ok(mb, root, v) == e2.spec_is_valid());
            }
            assert(walk_ok(*mem, root, v)) by {
                assert(new_e.spec_is_valid());
            }
            assert forall|w: int| 0 <= w < VPN_SPACE && w != v implies walk_ok(*mem, root, w)
                == walk_ok(m0, root, w) && (walk_ok(m0, root, w) ==> leaf_entry(*mem, root, w)
                == leaf_entry(mb, root, w) && leaf_entry(mb, root, w) == leaf_entry(
                m0,
                root,
                w,
            )) by {
                assert(walk_ok(*mem, root, w) == walk_ok(mb, root, w));
                assert(walk_ok(mb, root, w) == walk_ok(m0, root, w));
            }
        }
        Ok(())
    }

    /// Clears the leaf mapping for `vpn`. Fails with `NoMapExists` exactly
    /// when `vpn` is not mapped; every other mapping is untouched, and the
    /// table keeps its intermediate nodes.
    pub fn unmap(&mut self, vpn: VirtPageNumber, mem: &mut PhysFrames) -> (r: Result<
        (),
        PageTableError,
    >)
        requires
            vpn.0 < VPN_SPACE,
            old(self).wf(*old(mem)),
        ensures
            *final(self) == *old(self),
            final(self).wf(*final(mem)),
            final(mem).base == old(mem).base,
            final(mem).len() == old(mem).len(),
            forall|q: int|
                old(mem).in_range(q) && !old(self).nodes@.contains(q) ==> final(mem).page(q)
                    == old(mem).page(q),
            match r {
                Ok(()) => {
                    &&& old(self).mapped(*old(mem), vpn.0 as int)
                    &&& !final(self).mapped(*final(mem), vpn.0 as int)
                    &&& forall|w: int|
                        0 <= w < VPN_SPACE && w != vpn.0 ==> final(self).mapped(*final(mem), w)
                            == old(self).mapped(*old(mem), w)
                    &&& forall|w: int|
                        0 <= w < VPN_SPACE && w != vpn.0 && old(self).mapped(*old(mem), w)
                            ==> final(self).leaf(*final(mem), w) == old(self).leaf(*old(mem), w)
                },
                Err(e) => {
                    &&& e == PageTableError::NoMapExists(vpn)
                    &&& !old(self).mapped(*old(mem), vpn.0 as int)
                    &&& *final(mem) == *old(mem)
                },
            },
    {
        let ghost m0 = *mem;
        let ghost root = self.root();
        let ghost v = vpn.0 as int;
        let idx = vpn.indexes();
        let e0 = mem.read_pte(self.root_ppn, idx[0]);
        if !e0.is_valid() {
            return Err(PageTableError::NoMapExists(vpn));
        }
        let n1 = e0.ppn();
        proof {
            assert(l1_ok(m0, root, spec_index0(v)));
            assert(n1.0 == l1_node(m0, root, spec_index0(v)));
            assert(mem.is_table(n1.0 as int));
        }
        let e1 = mem.read_pte(n1, idx[1]);
        if !e1.is_valid() {
            return Err(PageTableError::NoMapExists(vpn));
        }
        let n2 = e1.ppn();
        proof {
            assert(l2_ok(m0, root, spec_index0(v), spec_index1(v)));
            assert(n2.0 == l2_node(m0, root, spec_index0(v), spec_index1(v)));
            assert(mem.is_table(n2.0 as int));
        }
        let e2 = mem.read_pte(n2, idx[2]);
        proof {
            assert(e2 == leaf_entry(m0, root, v));
        }
        if !e2.is_valid() {
            return Err(PageTableError::NoMapExists(vpn));
        }
        let zero = PageTableEntry::empty();
        mem.write_pte(n2, idx[2], zero);
        proof {
            lemma_write_leaf(*self, m0, *mem, v, zero);
        }
        Ok(())
    }
}



/// The byte at virtual address `addr` as seen through the table rooted at
/// `root`: byte `addr % 4096` of the data page its page maps to.
pub open spec fn vbyte(mem: PhysFrames, root: int, addr: int) -> u8 {
    mem.data(leaf_entry(mem, root, addr / (PAGE_SIZE_BYTES as int)).spec_ppn())[addr % (
    PAGE_SIZE_BYTES as int)]
}

/// First byte of run `c` of the span `[va, va + len)`: the span's start for
/// the first run, a page boundary after it.
pub open spec fn run_lo(va: int, c: int) -> int {
    if c == 0 {
        va
    } else {
        (va / (PAGE_SIZE_BYTES as int) + c) * (PAGE_SIZE_BYTES as int)
    }
}

/// One past the last byte of run `c`: the next page boundary, or the span's
/// end inside the last page.
pub open spec fn run_hi(va: int, len: int, c: int) -> int {
    let page_end = (va / (PAGE_SIZE_BYTES as int) + c + 1) * (PAGE_SIZE_BYTES as int);
    if page_end <= va + len {
        page_end
    } else {
        va + len
    }
}

/// Number of pages the span `[va, va + len)` touches, one run each: the
/// page of the last byte minus the page of the first, inclusive; an empty
/// span touches none.
pub open spec fn span_pages(va: int, len: int) -> int {
    if len == 0 {
        0
    } else {
        (va + len - 1) / (PAGE_SIZE_BYTES as int) - va / (PAGE_SIZE_BYTES as int) + 1
    }
}

impl PageTable {
    /// Reads the byte span `[va, va + len)` of the address space known only
    /// by its paging-register token, one chunk per page touched. Succeeds
    /// exactly when the span does not wrap to zero and every page of it is
    /// mapped to a data frame of the arena; a mapped page whose frame lies
    /// outside the arena cannot be read back and is reported as unmapped.
    pub fn translate_byte_buffer(token: u64, va: u64, len: u64, mem: &PhysFrames) -> (r: Result<
        Vec<Vec<u8>>,
        PageTableError,
    >)
        requires
            walk_wf(*mem, spec_token_root(token)),
            va + len + PAGE_SIZE_BYTES <= VA_SPACE,
        ensures
            ({
                let root = spec_token_root(token);
                let sv = va as int / (PAGE_SIZE_BYTES as int);
                match r {
                    Ok(chunks) => {
                        &&& va + len > 0
                        &&& chunks@.len() == span_pages(va as int, len as int)
                        &&& forall|c: int|
                            0 <= c < chunks@.len() ==> #[trigger] walk_ok(*mem, root, sv + c)
                                && mem.is_data(
                                leaf_entry(*mem, root, sv + c).spec_ppn(),
                            )
                        &&& forall|c: int|
                            0 <= c < chunks@.len() ==> (#[trigger] chunks@[c])@.len() == run_hi(
                                va as int,
                                len as int,
                                c,
                            ) - run_lo(va as int, c)
                        &&& forall|c: int, j: int|
                            0 <= c < chunks@.len() && 0 <= j < chunks@[c]@.len()
                                ==> #[trigger] chunks@[c]@[j] == vbyte(
                                *mem,
                                root,
                                run_lo(va as int, c) + j,
                            )
                    },
                    Err(PageTableError::AddressOverflow) => va == 0 && len == 0,
                    Err(PageTableError::NoMapExists(v)) => {
                        &&& va + len > 0
                        &&& exists|c: int|
                            0 <= c < span_pages(va as int, len as int) && !(#[trigger] walk_ok(
                                *mem,
                                root,
                                sv + c,
                            ) && mem.is_data(leaf_entry(*mem, root, sv + c).spec_ppn()))
                    },
                    Err(_) => false,
                }
            }),
    {
        let page_table = PageTable::from_token(token);
        let ghost root = spec_token_root(token);
        if va + len == 0 {
            return Err(PageTableError::AddressOverflow);
        }
        let start_vpn = VirtAddr(va).vpn();
        proof {
            vstd::arithmetic::div_mod::lemma_small_mod(va as nat, VA_SPACE as nat);
        }
        let pages: u64 = if len == 0 {
            0
        } else {
            proof {
                vstd::arithmetic::div_mod::lemma_div_is_ordered(
                    va as int,
                    va as int + len as int - 1,
                    PAGE_SIZE_BYTES as int,
                );
                vstd::arithmetic::div_mod::lemma_div_is_ordered(
                    va as int + len as int - 1,
                    VA_SPACE as int - PAGE_SIZE_BYTES as int,
                    PAGE_SIZE_BYTES as int,
                );
                vstd::arithmetic::div_mod::lemma_fundamental_div_mod_converse(
                    VA_SPACE as int - PAGE_SIZE_BYTES as int,
                    PAGE_SIZE_BYTES as int,
                    VPN_SPACE as int - 1,
                    0,
                );
            }
            (va + len - 1) / PAGE_SIZE_BYTES - va / PAGE_SIZE_BYTES + 1
        };
        let mut chunks: Vec<Vec<u8>> = Vec::new();
        let mut c: u64 = 0;
        while c < pages
            invariant
                root == spec_token_root(token),
                walk_wf(*mem, root),
                page_table.root() == root,
                va + len <= VA_SPACE,
                va + len > 0,
                start_vpn.0 == va / PAGE_SIZE_BYTES,
                pages == span_pages(va as int, len as int),
                start_vpn.0 + pages < VPN_SPACE + 1,
                c <= pages,
                chunks@.len() == c,
                forall|x: int|
                    0 <= x < c ==> #[trigger] walk_ok(*mem, root, start_vpn.0 + x) && mem.is_data(
                        leaf_entry(*mem, root, start_vpn.0 + x).spec_ppn(),
                    ),
                forall|x: int|
                    0 <= x < c ==> (#[trigger] chunks@[x])@.len() == run_hi(
                        va as int,
                        len as int,
                        x,
                    ) - run_lo(va as int, x),
                forall|x: int, j: int|
                    0 <= x < c && 0 <= j < chunks@[x]@.len() ==> #[trigger] chunks@[x]@[j]
                        == vbyte(*mem, root, run_lo(va as int, x) + j),
            decreases pages - c,
        {
            let current = VirtPageNumber(start_vpn.0 + c);
            let entry = match page_table.translate(current, mem) {
                Ok(entry) => entry,
                Err(_) => {
                    proof {
                        let cc = c as int;
                        let sv = va as int / (PAGE_SIZE_BYTES as int);
                        assert(!walk_ok(*mem, root, sv + cc));
                        assert(0 <= cc < span_pages(va as int, len as int));
                    }
                    return Err(PageTableError::NoMapExists(current));
                },
            };
            let ppn = entry.ppn();
            if !mem.is_data_page(ppn) {
                proof {
                    let cc = c as int;
                    let sv = va as int / (PAGE_SIZE_BYTES as int);
                    assert(walk_ok(*mem, root, sv + cc));
                    assert(!mem.is_data(leaf_entry(*mem, root, sv + cc).spec_ppn()));
                    assert(0 <= cc < span_pages(va as int, len as int));
                }
                return Err(PageTableError::NoMapExists(current));
            }
            let page_start = current.0 * PAGE_SIZE_BYTES;
            let lo = if c == 0 {
                va
            } else {
                page_start
            };
            let page_end = page_start + PAGE_SIZE_BYTES;
            let hi = if page_end <= va + len {
                page_end
            } else {
                va + len
            };
            proof {
                lemma_run_bounds(va as int, len as int, c as int);
                assert(lo == run_lo(va as int, c as int));
                assert(hi == run_hi(va as int, len as int, c as int));
            }
            let chunk = mem.read_bytes(ppn, (lo - page_start) as usize, (hi - lo) as usize);
            proof {
                let ghost cc = c as int;
                assert forall|j: int| 0 <= j < chunk@.len() implies chunk@[j] == vbyte(
                    *mem,
                    root,
                    run_lo(va as int, cc) + j,
                ) by {
                    let addr = run_lo(va as int, cc) + j;
                    vstd::arithmetic::div_mod::lemma_fundamental_div_mod_converse(
                        addr,
                        PAGE_SIZE_BYTES as int,
                        start_vpn.0 as int + cc,
                        addr - (start_vpn.0 as int + cc) * (PAGE_SIZE_BYTES as int),
                    );
                    assert(chunk@[j] == mem.data(ppn.0 as int)[(lo - page_start) + j]);
                }
            }
            chunks.push(chunk);
            c = c + 1;
        }
        Ok(chunks)
    }
}

/// The bounds of run `c` of a span: it lies inside page `va/4096 + c`, is
/// non-empty for every page the span touches, and starts at the page start
/// except in the first run.
pub proof fn lemma_run_bounds(va: int, len: int, c: int)
    requires
        0 <= va,
        0 <= len,
        0 < va + len,
        0 <= c < span_pages(va, len),
    ensures
        (va / (PAGE_SIZE_BYTES as int) + c) * (PAGE_SIZE_BYTES as int) <= run_lo(va, c) <= run_hi(
            va,
            len,
            c,
        ) <= (va / (PAGE_SIZE_BYTES as int) + c + 1) * (PAGE_SIZE_BYTES as int),
        run_hi(va, len, c) <= va + len,
        c > 0 ==> run_lo(va, c) == (va / (PAGE_SIZE_BYTES as int) + c) * (PAGE_SIZE_BYTES as int),
{
    let p = PAGE_SIZE_BYTES as int;
    let sv = va / p;
    vstd::arithmetic::div_mod::lemma_fundamental_div_mod(va, p);
    vstd::arithmetic::div_mod::lemma_fundamental_div_mod(va + len - 1, p);
    let ev = (va + len - 1) / p;
    assert(span_pages(va, len) == ev - sv + 1);
    vstd::arithmetic::mul::lemma_mul_is_distributive_add(p, sv, c);
    vstd::arithmetic::mul::lemma_mul_is_distributive_add(p, sv + c, 1);
    vstd::arithmetic::mul::lemma_mul_is_commutative(p, sv + c);
    vstd::arithmetic::mul::lemma_mul_is_commutative(p, sv + c + 1);
    vstd::arithmetic::mul::lemma_mul_is_commutative(p, sv);
    if c == 0 {
        assert((sv + c) * p <= run_lo(va, c)) by {
            assert(sv * p <= va);
        }
        assert(va < (sv + 1) * p) by {
            vstd::arithmetic::mul::lemma_mul_is_distributive_add(p, sv, 1);
            vstd::arithmetic::mul::lemma_mul_is_commutative(p, sv + 1);
            assert(p * sv + p * 1 == sv * p + p);
            assert(va < sv * p + p);
        }
        assert(run_lo(va, c) <= run_hi(va, len, c));
    } else {
        // the run's page start lies inside the span
        assert(sv + c <= ev);
        vstd::arithmetic::mul::lemma_mul_inequality(sv + c, ev, p);
        assert(ev * p <= va + len - 1) by {
            vstd::arithmetic::mul::lemma_mul_is_commutative(p, ev);
        }
        assert((sv + c) * p <= va + len);
        assert(run_lo(va, c) == (sv + c) * p);
        assert(run_lo(va, c) <= run_hi(va, len, c));
    }
    assert(run_hi(va, len, c) <= (sv + c + 1) * p);
    assert(run_hi(va, len, c) <= va + len);
}



/// Mapping round-trip, first half: `map`'s contract says a successful
/// `map(vpn, ppn, flags)` makes the walk resolve `vpn` to a valid leaf
/// packing exactly that page number and `flags | V`; `translate`'s contract
/// returns the resolved leaf whenever the walk succeeds. So translating a
/// freshly mapped page returns what was mapped, and every other page's
/// resolution is exactly what it was before the map.
pub proof fn lemma_map_then_translate(
    pre: PageTable,
    post: PageTable,
    m_pre: PhysFrames,
    m_post: PhysFrames,
    vpn: VirtPageNumber,
    ppn: PhysPageNumber,
    flags: PTEFlags,
)
    requires
        vpn.0 < VPN_SPACE,
        ppn.0 < PPN_SPACE,
        // the state transition `map`'s success contract describes
        !pre.mapped(m_pre, vpn.0 as int),
        post.mapped(m_post, vpn.0 as int),
        post.leaf(m_post, vpn.0 as int).spec_ppn() == ppn.0,
        post.leaf(m_post, vpn.0 as int).spec_flags() == (flags.0 | PTE_V),
        forall|w: int|
            0 <= w < VPN_SPACE && w != vpn.0 ==> post.mapped(m_post, w) == pre.mapped(m_pre, w),
    ensures
        // what `translate`'s contract then returns for `vpn`
        post.mapped(m_post, vpn.0 as int) && post.leaf(m_post, vpn.0 as int).spec_ppn() == ppn.0
            && post.leaf(m_post, vpn.0 as int).spec_flags() == (flags.0 | PTE_V),
        // and for any page that was unmapped before and is not `vpn`
        forall|w: int|
            0 <= w < VPN_SPACE && w != vpn.0 && !pre.mapped(m_pre, w) ==> !post.mapped(m_post, w),
{
}

/// Mapping round-trip, second half: `unmap`'s contract says a successful
/// `unmap(vpn)` makes the walk no longer resolve `vpn`, every other page
/// unchanged; `translate`'s contract fails with `NoMapExists` exactly when
/// the walk does not resolve. So translating an unmapped page fails.
pub proof fn lemma_unmap_then_translate(
    pre: PageTable,
    post: PageTable,
    m_pre: PhysFrames,
    m_post: PhysFrames,
    vpn: VirtPageNumber,
)
    requires
        vpn.0 < VPN_SPACE,
        // the state transition `unmap`'s success contract describes
        pre.mapped(m_pre, vpn.0 as int),
        !post.mapped(m_post, vpn.0 as int),
        forall|w: int|
            0 <= w < VPN_SPACE && w != vpn.0 ==> post.mapped(m_post, w) == pre.mapped(m_pre, w),
    ensures
        // `translate` on `vpn` now takes its failing branch
        !post.mapped(m_post, vpn.0 as int),
        // while every page mapped before and distinct from `vpn` still resolves
        forall|w: int|
            0 <= w < VPN_SPACE && w != vpn.0 && pre.mapped(m_pre, w) ==> post.mapped(m_post, w),
{
}


} // verus!
