//! Physical frame allocation: a free-region stack handing out 4 KiB
//! frames from a contiguous range, and the ownership handle for one
//! allocated frame.
//!
//! The allocator keeps a stack of half-open intervals of free page
//! numbers. `alloc` pops the top interval and hands out its first page,
//! pushing back the remainder; `dealloc` pushes a one-page interval.
//! The operations are O(1); coalescing is deliberately not attempted.

use vstd::prelude::*;
use crate::addr::{PhysicalAddress, PhysicalPageNumber, PAGE_SIZE};
use crate::page_table_entry::PPN_LIMIT;

verus! {

/// Result type of the memory subsystem.
pub type MemoryResult<T> = Result<T, &'static str>;

/// Unique ownership of one allocated physical frame.
///
/// There is at most one live tracker per page number:
/// `FrameAllocator::allocate` is the only constructor, it removes the
/// page from the free set, and only `FrameAllocator::deallocate` — which
/// consumes the tracker — puts it back.
pub struct FrameTracker {
    ppn: PhysicalPageNumber,
    data: Vec<u8>,
}

impl FrameTracker {
    /// The page number this tracker owns.
    pub fn ppn(&self) -> (r: PhysicalPageNumber)
        ensures
            r == self.spec_ppn(),
    {
        self.ppn
    }

    /// The page number this tracker owns.
    pub closed spec fn spec_ppn(&self) -> PhysicalPageNumber {
        self.ppn
    }

    /// The bytes of the frame, as seen through the kernel linear window.
    pub closed spec fn spec_data(&self) -> Seq<u8> {
        self.data@
    }

    /// Read the frame's bytes.
    pub fn data(&self) -> (r: &Vec<u8>)
        ensures
            r@ == self.spec_data(),
    {
        &self.data
    }

    /// Overwrite the frame's bytes.
    pub fn store(&mut self, bytes: Vec<u8>)
        requires
            bytes@.len() == PAGE_SIZE,
        ensures
            final(self).spec_ppn() == old(self).spec_ppn(),
            final(self).spec_data() == bytes@,
    {
        self.data = bytes;
    }

    /// First physical address of the owned frame.
    pub fn address(&self) -> (r: PhysicalAddress)
        requires
            self.spec_ppn().0 < PPN_LIMIT,
        ensures
            r.0 == self.spec_ppn().0 * PAGE_SIZE,
    {
        proof {
            assert(self.ppn.0 * PAGE_SIZE < PPN_LIMIT * PAGE_SIZE) by (nonlinear_arith)
                requires self.ppn.0 < PPN_LIMIT,
            ;
        }
        PhysicalAddress(self.ppn.0 * PAGE_SIZE)
    }
}

/// Whether page `p` lies in one of the intervals of `s`.
pub open spec fn in_intervals(s: Seq<(u64, u64)>, p: int) -> bool {
    exists|k: int| 0 <= k < s.len() && (#[trigger] s[k]).0 <= p < s[k].1
}

/// Total number of pages covered by the intervals of `s`.
pub open spec fn intervals_size(s: Seq<(u64, u64)>) -> int
    decreases s.len(),
{
    if s.len() == 0 {
        0
    } else {
        intervals_size(s.drop_last()) + (s.last().1 - s.last().0)
    }
}

/// Allocator for 4 KiB physical frames out of `[start, end)`.
pub struct FrameAllocator {
    start: PhysicalPageNumber,
    end: PhysicalPageNumber,
    free_list: Vec<(u64, u64)>,
}

impl FrameAllocator {
    /// First page of the managed range.
    pub closed spec fn spec_start(self) -> int {
        self.start.0 as int
    }

    /// Past-the-end page of the managed range.
    pub closed spec fn spec_end(self) -> int {
        self.end.0 as int
    }

    /// The free-region stack.
    pub closed spec fn spec_intervals(self) -> Seq<(u64, u64)> {
        self.free_list@
    }

    /// Whether page `p` is currently free.
    pub closed spec fn is_free(self, p: int) -> bool {
        in_intervals(self.free_list@, p)
    }

    /// Number of free pages.
    pub closed spec fn free_size(self) -> int {
        intervals_size(self.free_list@)
    }

    /// Every interval is nonempty, lies inside the managed range, and is
    /// disjoint from every other, so each free page is counted once.
    pub closed spec fn wf(self) -> bool {
        &&& self.spec_end() <= PPN_LIMIT
        &&& self.spec_start() <= self.spec_end()
        &&& forall|k: int|
            0 <= k < self.free_list@.len() ==> {
                &&& self.spec_start() <= #[trigger] self.free_list@[k].0
                &&& self.free_list@[k].0 < self.free_list@[k].1
                &&& self.free_list@[k].1 <= self.spec_end()
            }
        &&& forall|k1: int, k2: int|
            0 <= k1 < k2 < self.free_list@.len() ==> {
                #[trigger] self.free_list@[k1].1 <= #[trigger] self.free_list@[k2].0
                || self.free_list@[k2].1 <= self.free_list@[k1].0
            }
    }

    /// A fresh allocator over `[start, end)`, with every page free.
    pub fn new(start: PhysicalPageNumber, end: PhysicalPageNumber) -> (r: FrameAllocator)
        requires
            start.0 <= end.0,
            end.0 <= PPN_LIMIT,
        ensures
            r.wf(),
            r.spec_start() == start.0,
            r.spec_end() == end.0,
            forall|p: int| r.is_free(p) <==> start.0 <= p < end.0,
            r.free_size() == end.0 - start.0,
    {
        let mut free_list: Vec<(u64, u64)> = Vec::new();
        if start.0 < end.0 {
            free_list.push((start.0, end.0));
        }
        let r = FrameAllocator { start, end, free_list };
        proof {
            assert(intervals_size(Seq::<(u64, u64)>::empty()) == 0);
            if start.0 < end.0 {
                assert(r.free_list@.drop_last() =~= Seq::<(u64, u64)>::empty());
                assert(intervals_size(r.free_list@) == intervals_size(r.free_list@.drop_last())
                    + (end.0 - start.0));
            } else {
                assert(r.free_list@ =~= Seq::<(u64, u64)>::empty());
            }
            assert forall|p: int| r.is_free(p) <==> start.0 <= p < end.0 by {
                if start.0 <= p < end.0 {
                    assert(r.free_list@[0].0 <= p < r.free_list@[0].1);
                }
            }
        }
        r
    }

    /// Hand out exclusive ownership of one free frame.
    ///
    /// The returned page was free and is free no longer; every other page
    /// keeps its state, and the free count drops by exactly one. With no
    /// free page left the allocator reports exhaustion and is unchanged.
    pub fn allocate(&mut self) -> (r: MemoryResult<FrameTracker>)
        requires
            old(self).wf(),
        ensures
            final(self).wf(),
            final(self).spec_start() == old(self).spec_start(),
            final(self).spec_end() == old(self).spec_end(),
            match r {
                Ok(t) => {
                    &&& old(self).is_free(t.spec_ppn().0 as int)
                    &&& old(self).spec_start() <= t.spec_ppn().0 < old(self).spec_end()
                    &&& t.spec_ppn().0 < PPN_LIMIT
                    &&& t.spec_data().len() == PAGE_SIZE
                    &&& !final(self).is_free(t.spec_ppn().0 as int)
                    &&& forall|p: int|
                        p != t.spec_ppn().0 ==> (final(self).is_free(p) <==> old(self).is_free(p))
                    &&& final(self).free_size() == old(self).free_size() - 1
                    &&& t.spec_ppn().0 == old(self).spec_intervals().last().0
                },
                Err(_) => {
                    &&& old(self).spec_intervals().len() == 0
                    &&& old(self).free_size() == 0
                    &&& *final(self) == *old(self)
                },
            },
    {
        if self.free_list.len() == 0 {
            proof {
                assert(self.free_list@ =~= Seq::<(u64, u64)>::empty());
                assert(intervals_size(self.free_list@) == 0);
            }
            return Err("out of frames");
        }
        let i = self.free_list.len() - 1;
        let (a, b) = self.free_list[i];
        let ghost old_list = self.free_list@;
        self.free_list.pop();
        if a + 1 < b {
            let a1: u64 = a + 1;
            self.free_list.push((a1, b));
            proof {
                assert(self.free_list@ =~= old_list.drop_last().push((a1, b)));
                lemma_update_last_size(old_list, (a1, b));
            }
        } else {
            proof {
                assert(self.free_list@ =~= old_list.drop_last());
            }
        }
        proof {
            let new_list = self.free_list@;
            assert forall|p: int|
                p != a ==> (in_intervals(new_list, p) <==> in_intervals(old_list, p)) by {
                if p != a {
                    if in_intervals(new_list, p) {
                        let k = choose|k: int|
                            0 <= k < new_list.len() && (#[trigger] new_list[k]).0 <= p < new_list[k].1;
                        if k < old_list.len() - 1 {
                            assert(old_list[k].0 <= p < old_list[k].1);
                        } else {
                            assert(old_list[old_list.len() - 1].0 <= p
                                < old_list[old_list.len() - 1].1);
                        }
                    }
                    if in_intervals(old_list, p) {
                        let k = choose|k: int|
                            0 <= k < old_list.len() && (#[trigger] old_list[k]).0 <= p < old_list[k].1;
                        if k < old_list.len() - 1 {
                            assert(new_list[k].0 <= p < new_list[k].1);
                        } else {
                            if a + 1 < b {
                                assert(new_list[new_list.len() - 1].0 <= p
                                    < new_list[new_list.len() - 1].1);
                            }
                        }
                    }
                }
            }
            assert(!in_intervals(new_list, a as int)) by {
                if in_intervals(new_list, a as int) {
                    let k = choose|k: int|
                        0 <= k < new_list.len() && (#[trigger] new_list[k]).0 <= a < new_list[k].1;
                    if k < old_list.len() - 1 {
                        assert(old_list[k].1 <= old_list[old_list.len() - 1].0
                            || old_list[old_list.len() - 1].1 <= old_list[k].0);
                    }
                }
            }
            assert(in_intervals(old_list, a as int)) by {
                assert(old_list[old_list.len() - 1].0 <= a < old_list[old_list.len() - 1].1);
            }
        }
        Ok(FrameTracker { ppn: PhysicalPageNumber(a), data: zeroed_page() })
    }

    /// Take a frame back; the tracker is consumed.
    ///
    /// The page becomes free again, every other page keeps its state, and
    /// the free count grows by exactly one.
    pub fn deallocate(&mut self, frame: FrameTracker)
        requires
            old(self).wf(),
            old(self).spec_start() <= frame.spec_ppn().0 < old(self).spec_end(),
            !old(self).is_free(frame.spec_ppn().0 as int),
        ensures
            final(self).wf(),
            final(self).spec_start() == old(self).spec_start(),
            final(self).spec_end() == old(self).spec_end(),
            final(self).is_free(frame.spec_ppn().0 as int),
            forall|p: int|
                p != frame.spec_ppn().0 ==> (final(self).is_free(p) <==> old(self).is_free(p)),
            final(self).free_size() == old(self).free_size() + 1,
    {
        let p = frame.ppn().0;
        let ghost old_list = self.free_list@;
        self.free_list.push((p, p + 1));
        proof {
            let new_list = self.free_list@;
            assert(new_list.drop_last() =~= old_list);
            assert(self.is_free(p as int)) by {
                assert(new_list[new_list.len() - 1].0 <= p < new_list[new_list.len() - 1].1);
            }
            assert forall|q: int|
                q != p ==> (in_intervals(new_list, q) <==> in_intervals(old_list, q)) by {
                if q != p && in_intervals(new_list, q) {
                    let k = choose|k: int|
                        0 <= k < new_list.len() && (#[trigger] new_list[k]).0 <= q < new_list[k].1;
                    if k < old_list.len() {
                        assert(old_list[k].0 <= q < old_list[k].1);
                    }
                }
                if q != p && in_intervals(old_list, q) {
                    let k = choose|k: int|
                        0 <= k < old_list.len() && (#[trigger] old_list[k]).0 <= q < old_list[k].1;
                    assert(new_list[k].0 <= q < new_list[k].1);
                }
            }
            assert forall|k1: int, k2: int|
                0 <= k1 < k2 < new_list.len() implies new_list[k1].1 <= new_list[k2].0
                || new_list[k2].1 <= new_list[k1].0 by {
                if k2 == new_list.len() - 1 {
                    assert(!in_intervals(old_list, p as int));
                    assert(!(old_list[k1].0 <= p < old_list[k1].1));
                }
            }
        }
    }
}

/// A page worth of zero bytes.
fn zeroed_page() -> (r: Vec<u8>)
    ensures
        r@.len() == PAGE_SIZE,
        forall|b: int| 0 <= b < PAGE_SIZE ==> (#[trigger] r@[b]) == 0u8,
{
    let mut v: Vec<u8> = Vec::new();
    let mut i: usize = 0;
    while i < PAGE_SIZE as usize
        invariant
            i == v@.len(),
            i <= PAGE_SIZE,
            forall|b: int| 0 <= b < i ==> (#[trigger] v@[b]) == 0u8,
        decreases PAGE_SIZE - i,
    {
        v.push(0u8);
        i = i + 1;
    }
    v
}

/// Live frames never collide: `allocate` hands out only free pages and
/// removes them from the free set, so a page already issued — no longer
/// free — cannot be issued again until it is given back.
pub proof fn lemma_live_frames_distinct(fa: FrameAllocator, issued: int, fresh: int)
    requires
        !fa.is_free(issued),
        fa.is_free(fresh),
    ensures
        issued != fresh,
{
}

/// Replacing the last interval of a stack changes the covered count by
/// the difference of the two interval lengths.
proof fn lemma_update_last_size(s: Seq<(u64, u64)>, t: (u64, u64))
    requires
        s.len() > 0,
    ensures
        intervals_size(s.drop_last().push(t)) == intervals_size(s) - (s.last().1 - s.last().0)
            + (t.1 - t.0),
{
    let pushed = s.drop_last().push(t);
    assert(pushed.drop_last() =~= s.drop_last());
    assert(pushed.last() == t);
}

} // verus!
