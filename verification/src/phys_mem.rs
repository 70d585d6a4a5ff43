//! Arena model of physical page frames.
//!
//! A frame's bytes live here, indexed by physical page number over a
//! contiguous range. A page is vacant until its owner installs it, and is then
//! typed either as a page-table node of 512 entries or as a data page of 4096
//! bytes; installation zero-fills it, matching a freshly allocated frame.
use vstd::prelude::*;

use crate::address::{PhysPageNumber, PAGE_SIZE_BYTES, PPN_SPACE};
use crate::page_table::PageTableEntry;

verus! {

/// Entries in one page-table node.
pub const PTES_PER_PAGE: usize = 512;

/// One physical page as its owner views it.
pub enum PhysPage {
    /// Not installed by any owner yet.
    Vacant,
    /// A page-table node of 512 entries.
    Table(Vec<PageTableEntry>),
    /// A plain page of 4096 bytes.
    Data(Vec<u8>),
}

/// The flat collection of physical pages backing the frame range
/// `[base, base + pages.len())`.
pub struct PhysFrames {
    /// First physical page number backed by the arena.
    pub base: u64,
    /// Page images; index `i` backs page number `base + i`.
    pub pages: Vec<PhysPage>,
}

impl PhysFrames {
    /// Number of pages in the arena.
    pub open spec fn len(self) -> int {
        self.pages@.len() as int
    }

    /// Whether page number `p` is backed by the arena.
    pub open spec fn in_range(self, p: int) -> bool {
        self.base <= p < self.base + self.len()
    }

    /// The image of page number `p`.
    pub open spec fn page(self, p: int) -> PhysPage {
        self.pages@[p - self.base]
    }

    /// Whether page `p` is an installed page-table node.
    pub open spec fn is_table(self, p: int) -> bool {
        &&& self.in_range(p)
        &&& self.page(p) matches PhysPage::Table(t) && t@.len() == PTES_PER_PAGE
    }

    /// The entries of page-table node `p`.
    pub open spec fn table(self, p: int) -> Seq<PageTableEntry> {
        self.page(p)->Table_0@
    }

    /// Whether page `p` is an installed data page.
    pub open spec fn is_data(self, p: int) -> bool {
        &&& self.in_range(p)
        &&& self.page(p) matches PhysPage::Data(d) && d@.len() == PAGE_SIZE_BYTES
    }

    /// The bytes of data page `p`.
    pub open spec fn data(self, p: int) -> Seq<u8> {
        self.page(p)->Data_0@
    }

    /// Well-formedness: the range stays within the 44-bit page-number space.
    pub open spec fn wf(self) -> bool {
        self.base + self.len() <= PPN_SPACE
    }


    /// Arena index of page number `ppn`.
    fn index_of(&self, ppn: PhysPageNumber) -> (i: usize)
        requires
            self.in_range(ppn.0 as int),
        ensures
            i == ppn.0 - self.base,
            i < self.pages@.len(),
    {
        let n = self.pages.len();
        let diff = ppn.0 - self.base;
        assert(diff < n as u64);
        diff as usize
    }

    /// Builds an arena of `num` vacant pages starting at page number `base`.
    pub fn new(base: u64, num: usize) -> (r: Self)
        requires
            base + num <= PPN_SPACE,
        ensures
            r.wf(),
            r.base == base,
            r.len() == num,
            forall|p: int| r.in_range(p) ==> #[trigger] r.page(p) matches PhysPage::Vacant,
    {
        let mut pages: Vec<PhysPage> = Vec::new();
        let mut i: usize = 0;
        while i < num
            invariant
                i <= num,
                pages@.len() == i,
                forall|j: int| 0 <= j < i ==> #[trigger] pages@[j] matches PhysPage::Vacant,
            decreases num - i,
        {
            pages.push(PhysPage::Vacant);
            i = i + 1;
        }
        PhysFrames { base, pages }
    }

    /// Installs page `ppn` as a zero-filled page-table node.
    pub fn install_table(&mut self, ppn: PhysPageNumber)
        requires
            old(self).in_range(ppn.0 as int),
        ensures
            final(self).base == old(self).base,
            final(self).len() == old(self).len(),
            final(self).is_table(ppn.0 as int),
            final(self).table(ppn.0 as int) =~= Seq::new(
                PTES_PER_PAGE as nat,
                |i: int| PageTableEntry(0),
            ),
            forall|q: int|
                old(self).in_range(q) && q != ppn.0 ==> final(self).page(q) == old(self).page(
                    q,
                ),
    {
        let mut entries: Vec<PageTableEntry> = Vec::new();
        let mut i: usize = 0;
        while i < PTES_PER_PAGE
            invariant
                i <= PTES_PER_PAGE,
                entries@.len() == i,
                forall|j: int| 0 <= j < i ==> entries@[j] == PageTableEntry(0),
            decreases PTES_PER_PAGE - i,
        {
            entries.push(PageTableEntry(0));
            i = i + 1;
        }
        let idx = self.index_of(ppn);
        self.pages[idx] = PhysPage::Table(entries);
    }

    /// Installs page `ppn` as a zero-filled data page.
    pub fn install_data(&mut self, ppn: PhysPageNumber)
        requires
            old(self).in_range(ppn.0 as int),
        ensures
            final(self).base == old(self).base,
            final(self).len() == old(self).len(),
            final(self).is_data(ppn.0 as int),
            final(self).data(ppn.0 as int) =~= Seq::new(PAGE_SIZE_BYTES as nat, |i: int| 0u8),
            forall|q: int|
                old(self).in_range(q) && q != ppn.0 ==> final(self).page(q) == old(self).page(
                    q,
                ),
    {
        let mut bytes: Vec<u8> = Vec::new();
        let mut i: usize = 0;
        while i < PAGE_SIZE_BYTES as usize
            invariant
                i <= PAGE_SIZE_BYTES,
                bytes@.len() == i,
                forall|j: int| 0 <= j < i ==> bytes@[j] == 0u8,
            decreases PAGE_SIZE_BYTES - i,
        {
            bytes.push(0u8);
            i = i + 1;
        }
        let idx = self.index_of(ppn);
        self.pages[idx] = PhysPage::Data(bytes);
    }

    /// Reads entry `idx` of page-table node `ppn`.
    pub fn read_pte(&self, ppn: PhysPageNumber, idx: usize) -> (r: PageTableEntry)
        requires
            self.is_table(ppn.0 as int),
            idx < PTES_PER_PAGE,
        ensures
            r == self.table(ppn.0 as int)[idx as int],
    {
        let i = self.index_of(ppn);
        match &self.pages[i] {
            PhysPage::Table(t) => t[idx],
            _ => PageTableEntry(0),
        }
    }

    /// Writes entry `idx` of page-table node `ppn`.
    pub fn write_pte(&mut self, ppn: PhysPageNumber, idx: usize, e: PageTableEntry)
        requires
            old(self).is_table(ppn.0 as int),
            idx < PTES_PER_PAGE,
        ensures
            final(self).base == old(self).base,
            final(self).len() == old(self).len(),
            final(self).is_table(ppn.0 as int),
            final(self).table(ppn.0 as int) =~= old(self).table(ppn.0 as int).update(
                idx as int,
                e,
            ),
            forall|q: int|
                old(self).in_range(q) && q != ppn.0 ==> final(self).page(q) == old(self).page(
                    q,
                ),
    {
        let i = self.index_of(ppn);
        let page = &mut self.pages[i];
        match page {
            PhysPage::Table(t) => {
                t[idx] = e;
            },
            _ => {},
        }
    }

    /// Copies bytes `src[start..end]` to the front of data page `ppn`,
    /// leaving the page's remaining bytes as they were.
    pub fn write_data_prefix(&mut self, ppn: PhysPageNumber, src: &[u8], start: usize, end: usize)
        requires
            old(self).is_data(ppn.0 as int),
            start <= end <= src@.len(),
            end - start <= PAGE_SIZE_BYTES,
        ensures
            final(self).base == old(self).base,
            final(self).len() == old(self).len(),
            final(self).is_data(ppn.0 as int),
            final(self).data(ppn.0 as int) =~= src@.subrange(start as int, end as int) + old(
                self,
            ).data(ppn.0 as int).skip(end - start),
            forall|q: int|
                old(self).in_range(q) && q != ppn.0 ==> final(self).page(q) == old(self).page(
                    q,
                ),
    {
        let i = self.index_of(ppn);
        let page = &mut self.pages[i];
        match page {
            PhysPage::Data(d) => {
                let mut k: usize = 0;
                while k < end - start
                    invariant
                        k <= end - start,
                        start <= end <= src@.len(),
                        end - start <= PAGE_SIZE_BYTES,
                        d@.len() == PAGE_SIZE_BYTES,
                        forall|j: int|
                            0 <= j < k ==> d@[j] == src@[start + j],
                        forall|j: int|
                            k <= j < PAGE_SIZE_BYTES ==> d@[j] == old(self).data(ppn.0 as int)[j],
                    decreases end - start - k,
                {
                    d[k] = src[start + k];
                    k = k + 1;
                }
            },
            _ => {},
        }
    }

    /// Reads `len` bytes of data page `ppn` starting at byte `off`.
    pub fn read_bytes(&self, ppn: PhysPageNumber, off: usize, len: usize) -> (r: Vec<u8>)
        requires
            self.is_data(ppn.0 as int),
            off + len <= PAGE_SIZE_BYTES,
        ensures
            r@ =~= self.data(ppn.0 as int).subrange(off as int, off + len),
    {
        let i = self.index_of(ppn);
        match &self.pages[i] {
            PhysPage::Data(d) => {
                let mut out: Vec<u8> = Vec::new();
                let mut k: usize = 0;
                while k < len
                    invariant
                        k <= len,
                        off + len <= PAGE_SIZE_BYTES,
                        d@ == self.data(ppn.0 as int),
                        d@.len() == PAGE_SIZE_BYTES,
                        out@.len() == k,
                        forall|j: int| 0 <= j < k ==> out@[j] == self.data(ppn.0 as int)[off + j],
                    decreases len - k,
                {
                    out.push(d[off + k]);
                    k = k + 1;
                }
                out
            },
            _ => Vec::new(),
        }
    }
}


impl PhysFrames {
    /// Whether page `p` currently holds an installed data page.
    pub fn is_data_page(&self, ppn: PhysPageNumber) -> (r: bool)
        ensures
            r == self.is_data(ppn.0 as int),
    {
        if ppn.0 < self.base {
            return false;
        }
        let n = self.pages.len();
        let diff = ppn.0 - self.base;
        if diff >= n as u64 {
            return false;
        }
        let i = diff as usize;
        match &self.pages[i] {
            PhysPage::Data(d) => d.len() == PAGE_SIZE_BYTES as usize,
            _ => false,
        }
    }
}


} // verus!
