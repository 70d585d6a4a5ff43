//! Physical frame allocation with a stack of recycled pages.
//!
//! The allocator hands out page numbers from `[floor, end)`: recycled pages
//! first, then the bump pointer `current`. The set of live pages — handed out
//! and not yet returned — is the allocator's view; allocation always returns a
//! page outside it, and only a live page may be returned, so no page number is
//! ever held by two owners at once.
use vstd::prelude::*;

use crate::address::PhysPageNumber;

verus! {

/// Kind of an allocation failure.
#[derive(Clone, Copy, PartialEq, Eq, Structural, Debug)]
pub enum AllocErrorType {
    /// No frame is free.
    OutOfMemory,
}

/// An allocation failure.
#[derive(Clone, Copy, PartialEq, Eq, Structural, Debug)]
pub struct AllocError {
    /// What went wrong.
    pub error_type: AllocErrorType,
}

impl AllocError {
    /// Short description of the failure.
    pub fn message(&self) -> (r: &'static str) {
        match self.error_type {
            AllocErrorType::OutOfMemory => "Out of memory",
        }
    }
}

/// Exclusive ownership of one physical page frame.
///
/// The frame's bytes are zero-filled when its owner installs it into the
/// physical-page arena.
pub struct Frame {
    /// The owned page number.
    pub ppn: PhysPageNumber,
}

impl Frame {
    /// Wraps a freshly allocated page number.
    pub fn new(ppn: PhysPageNumber) -> (r: Self)
        ensures
            r.ppn == ppn,
    {
        Frame { ppn }
    }

    /// The owned page number.
    pub fn ppn(&self) -> (r: PhysPageNumber)
        ensures
            r == self.ppn,
    {
        self.ppn
    }
}

/// A source of physical page frames.
pub trait FrameAllocator: Sized {
    /// The pages handed out and not yet returned.
    spec fn live(&self) -> Set<int>;

    /// The allocator's internal invariant.
    spec fn wf(&self) -> bool;

    /// Whether returning page `p` is legal: exactly the live pages may come back.
    spec fn can_dealloc(&self, p: int) -> bool;

    /// An allocator with nothing handed out.
    fn new() -> (r: Self)
        ensures
            r.wf(),
            r.live() == Set::<int>::empty(),
    ;

    /// Hands out a page that no live owner holds, or nothing when exhausted.
    fn alloc_frame(&mut self) -> (r: Option<PhysPageNumber>)
        requires
            old(self).wf(),
        ensures
            final(self).wf(),
            r matches Some(p) ==> !old(self).live().contains(p.0 as int) && final(self).live()
                =~= old(self).live().insert(p.0 as int),
            r is None ==> final(self).live() =~= old(self).live(),
    ;

    /// Takes back a live page.
    fn dealloc(&mut self, ppn: PhysPageNumber)
        requires
            old(self).wf(),
            old(self).can_dealloc(ppn.0 as int),
        ensures
            final(self).wf(),
            final(self).live() =~= old(self).live().remove(ppn.0 as int),
    ;
}

/// Frame allocator with a bump pointer and a stack of recycled pages.
pub struct StackFrameAllocator {
    /// First page number this allocator ever owned.
    pub floor: u64,
    /// Next page number the bump pointer would hand out.
    pub current: u64,
    /// One past the last page number available.
    pub end: u64,
    /// Returned pages, most recently returned last.
    pub recycled: Vec<u64>,
}

impl StackFrameAllocator {
    /// Range discipline: the bump pointer stays above the floor, and every
    /// recycled page was handed out by the bump pointer and appears once.
    pub open spec fn wf_inv(self) -> bool {
        &&& self.floor <= self.current <= self.end
        &&& forall|i: int|
            0 <= i < self.recycled@.len() ==> self.floor <= #[trigger] self.recycled@[i]
                < self.current
        &&& forall|i: int, j: int|
            0 <= i < j < self.recycled@.len() ==> self.recycled@[i] != self.recycled@[j]
    }

    /// Both sources dry: no recycled page and no bump-pointer room, so the
    /// next allocation returns nothing.
    pub open spec fn exhausted(self) -> bool {
        self.recycled@.len() == 0 && self.current == self.end
    }

    /// The page the next allocation hands out — the most recently recycled
    /// page first, then the bump pointer — or nothing when both sources are
    /// dry. `alloc_frame` returns exactly this.
    pub open spec fn spec_next_alloc(self) -> Option<u64> {
        if self.recycled@.len() > 0 {
            Some(self.recycled@.last())
        } else if self.current < self.end {
            Some(self.current)
        } else {
            None
        }
    }

    /// The pages handed out and not yet returned.
    pub open spec fn live_set(self) -> Set<int> {
        Set::new(
            |p: int| self.floor <= p < self.current && !self.recycled@.contains(p as u64),
        )
    }

    /// Sets the range of pages the allocator may hand out.
    pub fn init(&mut self, start: PhysPageNumber, end: PhysPageNumber)
        requires
            start.0 <= end.0,
            old(self).recycled@.len() == 0,
        ensures
            final(self).wf(),
            final(self).floor == start.0,
            final(self).current == start.0,
            final(self).end == end.0,
            final(self).live() == Set::<int>::empty(),
    {
        self.floor = start.0;
        self.current = start.0;
        self.end = end.0;
        proof {
            assert(self.live_set() =~= Set::<int>::empty());
        }
    }

    /// Whether `x` is one of the recycled pages.
    fn recycled_contains(&self, x: u64) -> (r: bool)
        ensures
            r == self.recycled@.contains(x),
    {
        let n = self.recycled.len();
        let mut i: usize = 0;
        while i < n
            invariant
                i <= n,
                n == self.recycled@.len(),
                forall|j: int| 0 <= j < i ==> self.recycled@[j] != x,
            decreases n - i,
        {
            if self.recycled[i] == x {
                return true;
            }
            i = i + 1;
        }
        false
    }

    /// Takes back page `ppn` only when that is legal, reporting whether it was:
    /// a never-allocated or already-recycled page is refused and nothing changes.
    pub fn checked_dealloc(&mut self, ppn: PhysPageNumber) -> (ok: bool)
        requires
            old(self).wf(),
        ensures
            final(self).wf(),
            ok == old(self).can_dealloc(ppn.0 as int),
            ok ==> final(self).live() =~= old(self).live().remove(ppn.0 as int),
            ok ==> final(self).recycled@ == old(self).recycled@.push(ppn.0),
            !ok ==> *final(self) == *old(self),
    {
        let in_bump_range = self.floor <= ppn.0 && ppn.0 < self.current;
        if in_bump_range && !self.recycled_contains(ppn.0) {
            self.dealloc(ppn);
            true
        } else {
            false
        }
    }
}

impl FrameAllocator for StackFrameAllocator {
    open spec fn live(&self) -> Set<int> {
        self.live_set()
    }

    open spec fn wf(&self) -> bool {
        self.wf_inv()
    }

    open spec fn can_dealloc(&self, p: int) -> bool {
        self.floor <= p < self.current && !self.recycled@.contains(p as u64)
    }

    fn new() -> (r: Self)
        ensures
            r.wf(),
            r.live() == Set::<int>::empty(),
            r.recycled@.len() == 0,
    {
        let r = StackFrameAllocator { floor: 0, current: 0, end: 0, recycled: Vec::new() };
        proof {
            assert(r.live_set() =~= Set::<int>::empty());
        }
        r
    }

    fn alloc_frame(&mut self) -> (r: Option<PhysPageNumber>)
        ensures
            final(self).wf(),
            r matches Some(p) ==> !old(self).live().contains(p.0 as int) && final(self).live()
                =~= old(self).live().insert(p.0 as int),
            r is None ==> final(self).live() =~= old(self).live() && final(self).current == old(
                self,
            ).current && final(self).recycled@ == old(self).recycled@,
            r matches Some(p) ==> old(self).floor <= p.0 < old(self).end,
            final(self).floor == old(self).floor,
            final(self).end == old(self).end,
            old(self).current <= final(self).current,
            // stack policy: the most recently freed page first, then the bump
            // pointer; nothing only when both sources are dry
            old(self).recycled@.len() > 0 ==> r == Some(
                PhysPageNumber(old(self).recycled@.last()),
            ) && final(self).recycled@ == old(self).recycled@.drop_last() && final(self).current
                == old(self).current,
            old(self).recycled@.len() == 0 && old(self).current < old(self).end ==> r == Some(
                PhysPageNumber(old(self).current),
            ) && final(self).current == old(self).current + 1 && final(self).recycled@ == old(
                self,
            ).recycled@,
            r is None <==> old(self).recycled@.len() == 0 && old(self).current == old(self).end,
            old(self).exhausted() ==> final(self).exhausted(),
            (match old(self).spec_next_alloc() {
                Some(p) => r == Some(PhysPageNumber(p)),
                None => r is None,
            }),
    {
        let ghost pre = *self;
        match self.recycled.pop() {
            Some(p) => {
                proof {
                    let last = pre.recycled@.len() - 1;
                    assert(pre.recycled@[last] == p);
                    assert(pre.recycled@.contains(p)) by {
                        assert(pre.recycled@[last] == p);
                    }
                    assert forall|x: u64| x != p implies pre.recycled@.contains(x)
                        == self.recycled@.contains(x) by {
                        if pre.recycled@.contains(x) {
                            let i = choose|i: int|
                                0 <= i < pre.recycled@.len() && pre.recycled@[i] == x;
                            assert(i != last);
                            assert(self.recycled@[i] == x);
                        } else {
                            if self.recycled@.contains(x) {
                                let i = choose|i: int|
                                    0 <= i < self.recycled@.len() && self.recycled@[i] == x;
                                assert(pre.recycled@[i] == x);
                            }
                        }
                    }
                    assert(!self.recycled@.contains(p)) by {
                        if self.recycled@.contains(p) {
                            let i = choose|i: int|
                                0 <= i < self.recycled@.len() && self.recycled@[i] == p;
                            assert(pre.recycled@[i] == pre.recycled@[last]);
                        }
                    }
                    assert(self.live_set() =~= pre.live_set().insert(p as int));
                }
                Some(PhysPageNumber(p))
            },
            None => {
                if self.current < self.end {
                    let p = self.current;
                    self.current = self.current + 1;
                    proof {
                        assert(!pre.recycled@.contains(p));
                        assert(self.live_set() =~= pre.live_set().insert(p as int));
                    }
                    Some(PhysPageNumber(p))
                } else {
                    None
                }
            },
        }
    }

    fn dealloc(&mut self, ppn: PhysPageNumber)
        ensures
            final(self).wf(),
            final(self).live() =~= old(self).live().remove(ppn.0 as int),
            final(self).floor == old(self).floor,
            final(self).current == old(self).current,
            final(self).end == old(self).end,
            // the page goes on top of the recycling stack: the next
            // allocation returns it
            final(self).recycled@ == old(self).recycled@.push(ppn.0),
    {
        let ghost pre = *self;
        self.recycled.push(ppn.0);
        proof {
            assert forall|x: u64| self.recycled@.contains(x) implies pre.recycled@.contains(x)
                || x == ppn.0 by {
                let i = choose|i: int| 0 <= i < self.recycled@.len() && self.recycled@[i] == x;
                if i < pre.recycled@.len() {
                    assert(pre.recycled@[i] == x);
                }
            }
            assert forall|x: u64| pre.recycled@.contains(x) implies self.recycled@.contains(
                x,
            ) by {
                let i = choose|i: int| 0 <= i < pre.recycled@.len() && pre.recycled@[i] == x;
                assert(self.recycled@[i] == x);
            }
            assert(self.recycled@.contains(ppn.0)) by {
                assert(self.recycled@[self.recycled@.len() - 1] == ppn.0);
            }
            assert(self.live_set() =~= pre.live_set().remove(ppn.0 as int));
        }
    }
}

/// Deallocation is a stack: a page handed back is the very next page handed
/// out again. `before` and `after` are the allocator around one
/// `dealloc(p)`, exactly as `dealloc`'s contract relates them; the next
/// allocation then yields `p`, as `alloc_frame`'s contract returns
/// `spec_next_alloc` of the state it starts from.
pub proof fn lemma_dealloc_then_alloc_is_lifo(
    before: StackFrameAllocator,
    after: StackFrameAllocator,
    p: u64,
)
    requires
        after.recycled@ == before.recycled@.push(p),
    ensures
        after.spec_next_alloc() == Some(p),
{
    assert(after.recycled@.last() == p);
}

/// Frame uniqueness: one allocation returns a page no live owner holds, and
/// a page stays live until it is returned. So when a first allocation hands
/// out `p1`, and a second allocation hands out `p2` while `p1` is still live,
/// the two pages differ — no page number is ever owned twice at once.
/// `l0` is the live set before the first allocation and `l1` the live set the
/// second allocation starts from, as `alloc`'s contract describes them.
pub proof fn lemma_frame_uniqueness(l0: Set<int>, p1: int, l1: Set<int>, p2: int)
    requires
        !l0.contains(p1),
        l1.contains(p1),
        !l1.contains(p2),
    ensures
        p1 != p2,
{
}

} // verus!
