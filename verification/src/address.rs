//! Typed physical/virtual addresses and page numbers for Sv39.
//!
//! Addresses are 64-bit machine words masked to the architecture's widths
//! (56 bits physical, 39 bits virtual); page numbers drop the low 12 bits.
//! Conversions are stated with `/` and `%` by powers of two, which agree with
//! the hardware's shift-and-mask arithmetic.
use vstd::prelude::*;

verus! {

/// Width in bits of a physical address.
pub const PA_WIDTH_SV39: u64 = 56;

/// Width in bits of a virtual address.
pub const VA_WIDTH_SV39: u64 = 39;

/// log2 of the page size.
pub const PAGE_SIZE_WIDTH: u64 = 12;

/// Bytes in one page.
pub const PAGE_SIZE_BYTES: u64 = 4096;

/// 2^56: one past the largest physical address.
pub const PA_SPACE: u64 = 0x100_0000_0000_0000;

/// 2^39: one past the largest virtual address.
pub const VA_SPACE: u64 = 0x80_0000_0000;

/// 2^44: one past the largest physical page number.
pub const PPN_SPACE: u64 = 0x1000_0000_0000;

/// 2^27: one past the largest virtual page number.
pub const VPN_SPACE: u64 = 0x800_0000;

/// Size of one task's user stack in bytes.
pub const USER_STACK_SIZE: u64 = 0x4000;

/// Size of one task's kernel stack in bytes.
pub const KERNEL_STACK_SIZE: u64 = 0x40000;

/// Virtual address of the trampoline page: the highest whole page.
pub const TRAMPOLINE: u64 = 0xFFFF_FFFF_FFFF_F000;

/// Virtual address of the trap-context page, directly below the trampoline.
pub const TRAP_CONTEXT: u64 = 0xFFFF_FFFF_FFFF_E000;

/// Mask keeping the low 39 bits of a virtual address.
pub const VPN_MASK: u64 = 0x7F_FFFF_FFFF;

#[derive(Clone, Copy, PartialEq, Eq, Structural, Debug)]
pub struct PhysAddr(pub u64);

#[derive(Clone, Copy, PartialEq, Eq, Structural, Debug)]
pub struct PhysPageNumber(pub u64);

#[derive(Clone, Copy, PartialEq, Eq, Structural, Debug)]
pub struct VirtAddr(pub u64);

#[derive(Clone, Copy, PartialEq, Eq, Structural, Debug)]
pub struct VirtPageNumber(pub u64);

impl PhysAddr {
    /// Builds a physical address from a raw word, masked to 56 bits.
    pub fn from_u64(value: u64) -> (r: Self)
        ensures
            r.0 == value % PA_SPACE,
    {
        PhysAddr(value % PA_SPACE)
    }

    /// Page number of the page containing this address.
    pub fn ppn(&self) -> (r: PhysPageNumber)
        ensures
            r.0 == self.0 / PAGE_SIZE_BYTES,
    {
        PhysPageNumber(self.0 / PAGE_SIZE_BYTES)
    }

    /// Page number of the first page boundary at or above this address.
    pub fn next_ppn(&self) -> (r: PhysPageNumber)
        requires
            self.0 + PAGE_SIZE_BYTES - 1 <= u64::MAX,
        ensures
            r.0 == (self.0 + PAGE_SIZE_BYTES - 1) / (PAGE_SIZE_BYTES as int),
    {
        PhysPageNumber((self.0 + (PAGE_SIZE_BYTES - 1)) / PAGE_SIZE_BYTES)
    }
}

impl VirtAddr {
    /// Builds a virtual address from a raw word, masked to 39 bits.
    pub fn from_u64(value: u64) -> (r: Self)
        ensures
            r.0 == value % VA_SPACE,
    {
        VirtAddr(value % VA_SPACE)
    }

    /// Page number of the page containing this address, within the 39-bit space.
    pub fn vpn(&self) -> (r: VirtPageNumber)
        ensures
            r.0 == (self.0 % VA_SPACE) / PAGE_SIZE_BYTES,
    {
        VirtPageNumber((self.0 % VA_SPACE) / PAGE_SIZE_BYTES)
    }

    /// Page number of the first page boundary at or above this address.
    pub fn next_vpn(&self) -> (r: VirtPageNumber)
        requires
            self.0 + PAGE_SIZE_BYTES - 1 <= u64::MAX,
        ensures
            r.0 == ((self.0 + PAGE_SIZE_BYTES - 1) % (VA_SPACE as int)) / (PAGE_SIZE_BYTES as int),
    {
        VirtPageNumber(((self.0 + (PAGE_SIZE_BYTES - 1)) % VA_SPACE) / PAGE_SIZE_BYTES)
    }
}

impl PhysPageNumber {
    /// Address of the first byte of this page.
    pub fn start_addr(&self) -> (r: PhysAddr)
        requires
            self.0 * PAGE_SIZE_BYTES <= u64::MAX,
        ensures
            r.0 == self.0 * PAGE_SIZE_BYTES,
    {
        PhysAddr(self.0 * PAGE_SIZE_BYTES)
    }

    /// Address of the last byte of this page.
    pub fn end_addr(&self) -> (r: PhysAddr)
        requires
            self.0 * PAGE_SIZE_BYTES + PAGE_SIZE_BYTES - 1 <= u64::MAX,
        ensures
            r.0 == self.0 * PAGE_SIZE_BYTES + PAGE_SIZE_BYTES - 1,
    {
        PhysAddr(self.0 * PAGE_SIZE_BYTES + (PAGE_SIZE_BYTES - 1))
    }
}

impl VirtPageNumber {
    /// Address of the first byte of this page.
    pub fn start_addr(&self) -> (r: VirtAddr)
        requires
            self.0 * PAGE_SIZE_BYTES <= u64::MAX,
        ensures
            r.0 == self.0 * PAGE_SIZE_BYTES,
    {
        VirtAddr(self.0 * PAGE_SIZE_BYTES)
    }

    /// Address one past the last byte of this page.
    pub fn end_addr(&self) -> (r: VirtAddr)
        requires
            self.0 * PAGE_SIZE_BYTES + PAGE_SIZE_BYTES <= u64::MAX,
        ensures
            r.0 == self.0 * PAGE_SIZE_BYTES + PAGE_SIZE_BYTES,
    {
        VirtAddr(self.0 * PAGE_SIZE_BYTES + PAGE_SIZE_BYTES)
    }
}

/// Radix index of `vpn` at the topmost page-table level.
pub open spec fn spec_index0(vpn: int) -> int {
    (vpn / (512int * 512)) % 512
}

/// Radix index of `vpn` at the middle page-table level.
pub open spec fn spec_index1(vpn: int) -> int {
    (vpn / 512) % 512
}

/// Radix index of `vpn` at the leaf page-table level.
pub open spec fn spec_index2(vpn: int) -> int {
    vpn % 512
}

impl VirtPageNumber {
    /// The three 9-bit radix indices of this page number, topmost level first.
    pub fn indexes(&self) -> (r: [usize; 3])
        ensures
            r[0] == spec_index0(self.0 as int),
            r[1] == spec_index1(self.0 as int),
            r[2] == spec_index2(self.0 as int),
    {
        [((self.0 / (512 * 512)) % 512) as usize, ((self.0 / 512) % 512) as usize, (
        self.0 % 512) as usize]
    }
}

/// Virtual range reserved for one task's kernel stack, below the trampoline,
/// with one guard page between neighbouring stacks.
pub fn kernel_stack_position(process_id: u64) -> (r: core::ops::Range<VirtAddr>)
    requires
        process_id * (KERNEL_STACK_SIZE + PAGE_SIZE_BYTES) + KERNEL_STACK_SIZE <= TRAMPOLINE,
    ensures
        r.end.0 == TRAMPOLINE - process_id * (KERNEL_STACK_SIZE + PAGE_SIZE_BYTES),
        r.start.0 == r.end.0 - KERNEL_STACK_SIZE,
{
    let top = TRAMPOLINE - process_id * (KERNEL_STACK_SIZE + PAGE_SIZE_BYTES);
    let bottom = top - KERNEL_STACK_SIZE;
    VirtAddr(bottom)..VirtAddr(top)
}

/// Conversion of a typed page-number range into its raw bounds.
pub trait IntoUsizeRange {
    fn into_usize_range(self) -> core::ops::Range<u64>;
}

impl IntoUsizeRange for core::ops::Range<VirtPageNumber> {
    fn into_usize_range(self) -> (r: core::ops::Range<u64>)
        ensures
            r.start == self.start.0,
            r.end == self.end.0,
    {
        self.start.0..self.end.0
    }
}

} // verus!
