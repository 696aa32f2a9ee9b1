//! The model of linear memory: its bytes, the regions that are live, and
//! what acquiring, releasing and writing do to them.
use vstd::prelude::*;
use crate::region::{align_up, align_up_is_least, Region, REGION_ALIGN};

verus! {

/// Linear memory as the contracts see it.
pub struct MemoryState {
    /// Every byte of linear memory, from offset zero to the top.
    pub bytes: Seq<u8>,
    /// The regions that were acquired and not yet released, oldest first.
    pub live: Seq<Region>,
}

/// The offset above every region of `live`, given that they stand in order.
pub open spec fn live_top(live: Seq<Region>) -> int {
    if live.len() == 0 {
        0
    } else {
        live.last().end()
    }
}

/// The index at which `r` first stands in `live`; its length where `r` does
/// not occur.
pub open spec fn first_index(live: Seq<Region>, r: Region) -> int
    decreases live.len(),
{
    if live.len() == 0 || live[0] == r {
        0
    } else {
        1 + first_index(live.drop_first(), r)
    }
}

/// `first_index` finds an occurrence of `r`, and none stands before it.
pub proof fn first_index_is_first(live: Seq<Region>, r: Region, i: int)
    requires
        0 <= i < live.len(),
        live[i] == r,
    ensures
        0 <= first_index(live, r) <= i,
        live[first_index(live, r)] == r,
        forall|k: int| 0 <= k < first_index(live, r) ==> live[k] != r,
    decreases live.len(),
{
    if live[0] != r {
        let rest = live.drop_first();
        first_index_is_first(rest, r, i - 1);
        assert forall|k: int| 0 <= k < first_index(live, r) implies live[k] != r by {
            if k > 0 {
                assert(live[k] == rest[k - 1]);
            }
        }
    }
}

impl MemoryState {
    /// Memory with no byte and no region.
    pub open spec fn empty() -> MemoryState {
        MemoryState { bytes: Seq::empty(), live: Seq::empty() }
    }

    /// The offset at which memory ends.
    pub open spec fn top(self) -> int {
        self.bytes.len() as int
    }

    /// The live regions are aligned, start above offset zero and stand in
    /// ascending order without overlap, memory ends where the last of them
    /// ends, and every offset fits in 32 bits.
    pub open spec fn wf(self) -> bool {
        &&& self.bytes.len() <= u32::MAX
        &&& self.bytes.len() == live_top(self.live)
        &&& forall|i: int|
            0 <= i < self.live.len() ==> (#[trigger] self.live[i]).aligned() && self.live[i].ptr
                != 0
        &&& forall|i: int, j: int|
            #![trigger self.live[i], self.live[j]]
            0 <= i < j < self.live.len() ==> self.live[i].end() <= self.live[j].ptr
    }

    /// The offset at which the next region will start: the first aligned
    /// offset from the top on, but never offset zero, which a host reads as
    /// the null address.
    pub open spec fn next_ptr(self) -> int {
        if self.top() == 0 {
            REGION_ALIGN as int
        } else {
            align_up(self.top())
        }
    }

    /// Memory can take a region of `size` more bytes.
    pub open spec fn can_acquire(self, size: u32) -> bool {
        self.next_ptr() + size <= u32::MAX
    }

    /// The region that `acquire(size)` makes.
    pub open spec fn next_region(self, size: u32) -> Region {
        Region { ptr: self.next_ptr() as u32, len: size }
    }

    /// Memory after a region of `size` bytes was added above the top. The
    /// new bytes, those of the region and those that align it, are zero.
    pub open spec fn acquire(self, size: u32) -> MemoryState {
        MemoryState {
            bytes: self.bytes + Seq::new(
                (self.next_ptr() - self.top() + size) as nat,
                |i: int| 0u8,
            ),
            live: self.live.push(self.next_region(size)),
        }
    }

    /// `r` was acquired and not released since.
    pub open spec fn is_live(self, r: Region) -> bool {
        self.live.contains(r)
    }

    /// Memory after `r` was released: its first entry in the live list is
    /// gone, and memory ends where the last region that is still live ends.
    pub open spec fn release(self, r: Region) -> MemoryState {
        let live = self.live.remove(first_index(self.live, r));
        MemoryState { bytes: self.bytes.take(live_top(live)), live }
    }

    /// The `len` bytes from `ptr` on all lie in one live region.
    pub open spec fn span_is_live(self, ptr: int, len: int) -> bool {
        exists|i: int| 0 <= i < self.live.len() && #[trigger] self.live[i].covers(ptr, len)
    }

    /// The `len` bytes from `ptr` on.
    pub open spec fn span(self, ptr: int, len: int) -> Seq<u8> {
        self.bytes.subrange(ptr, ptr + len)
    }

    /// Memory after `data` was written from `ptr` on.
    pub open spec fn write(self, ptr: int, data: Seq<u8>) -> MemoryState {
        MemoryState {
            bytes: Seq::new(
                self.bytes.len(),
                |i: int|
                    if ptr <= i < ptr + data.len() {
                        data[i - ptr]
                    } else {
                        self.bytes[i]
                    },
            ),
            live: self.live,
        }
    }

    /// Every live region lies inside memory.
    pub proof fn live_regions_in_bounds(self, i: int)
        requires
            self.wf(),
            0 <= i < self.live.len(),
        ensures
            self.live[i].end() <= self.top(),
    {
        let last = self.live.len() - 1;
        if i < last {
            assert(self.live[i].end() <= self.live[last].ptr);
        }
    }

    /// A live span lies inside memory.
    pub proof fn live_span_in_bounds(self, ptr: int, len: int)
        requires
            self.wf(),
            self.span_is_live(ptr, len),
        ensures
            0 <= ptr,
            ptr + len <= self.top(),
    {
        let i = choose|i: int| 0 <= i < self.live.len() && #[trigger] self.live[i].covers(ptr, len);
        self.live_regions_in_bounds(i);
    }

    /// Acquiring keeps memory well formed. The new region is live and
    /// aligned, starts above offset zero and at or above the old top, and
    /// keeps apart from every region that was live before; the bytes below
    /// the old top stay.
    pub proof fn acquire_is_fresh(self, size: u32)
        requires
            self.wf(),
            self.can_acquire(size),
        ensures
            self.acquire(size).wf(),
            self.next_region(size).aligned(),
            self.next_region(size).ptr != 0,
            self.top() <= self.next_region(size).ptr == self.next_ptr(),
            self.acquire(size).top() == self.next_region(size).end(),
            self.acquire(size).is_live(self.next_region(size)),
            self.acquire(size).span_is_live(self.next_ptr(), size as int),
            self.acquire(size).span(0, self.top()) == self.bytes,
            forall|i: int|
                0 <= i < self.live.len() ==> (#[trigger] self.live[i]).disjoint(
                    self.next_region(size),
                ) && self.acquire(size).is_live(self.live[i]),
    {
        let after = self.acquire(size);
        let fresh = self.next_region(size);
        let n = self.live.len() as int;
        align_up_is_least(self.top());
        assert(after.live[n] == fresh);
        assert(fresh.covers(self.next_ptr(), size as int));
        assert(after.span(0, self.top()) =~= self.bytes);
        assert forall|i: int| 0 <= i < n implies (#[trigger] self.live[i]).disjoint(fresh)
            && after.is_live(self.live[i]) by {
            self.live_regions_in_bounds(i);
            assert(after.live[i] == self.live[i]);
        }
        assert forall|i: int, j: int|
            #![trigger after.live[i], after.live[j]]
            0 <= i < j < after.live.len() implies after.live[i].end() <= after.live[j].ptr by {
            assert(after.live[i] == self.live[i]);
            if j < n {
                assert(after.live[j] == self.live[j]);
            } else {
                self.live_regions_in_bounds(i);
            }
        }
    }

    /// Releasing a live region keeps memory well formed, and every other
    /// entry of the live list stays, in the order it had.
    pub proof fn release_keeps_rest(self, r: Region)
        requires
            self.wf(),
            self.is_live(r),
        ensures
            self.release(r).wf(),
            self.release(r).live.len() == self.live.len() - 1,
            0 <= first_index(self.live, r) < self.live.len(),
            self.live[first_index(self.live, r)] == r,
            forall|k: int|
                0 <= k < first_index(self.live, r) ==> #[trigger] self.release(r).live[k]
                    == self.live[k],
            forall|k: int|
                first_index(self.live, r) <= k < self.live.len() - 1
                    ==> #[trigger] self.release(r).live[k] == self.live[k + 1],
            self.release(r).top() <= self.top(),
            self.release(r).bytes == self.bytes.take(self.release(r).top()),
    {
        let at = choose|i: int| 0 <= i < self.live.len() && self.live[i] == r;
        first_index_is_first(self.live, r, at);
        let i = first_index(self.live, r);
        let after = self.release(r);
        self.live.remove_ensures(i);
        assert forall|a: int, b: int|
            #![trigger after.live[a], after.live[b]]
            0 <= a < b < after.live.len() implies after.live[a].end() <= after.live[b].ptr by {
            let a0 = if a < i { a } else { a + 1 };
            let b0 = if b < i { b } else { b + 1 };
            assert(after.live[a] == self.live[a0]);
            assert(after.live[b] == self.live[b0]);
        }
        if after.live.len() > 0 {
            let last = after.live.len() - 1;
            let last0 = if last < i { last } else { last + 1 };
            assert(after.live[last] == self.live[last0]);
            self.live_regions_in_bounds(last0);
        }
    }

    /// Writing into a live span keeps memory well formed; the span then
    /// holds the data, and every byte outside it is as before.
    pub proof fn write_changes_span_only(self, ptr: int, data: Seq<u8>)
        requires
            self.wf(),
            self.span_is_live(ptr, data.len() as int),
        ensures
            self.write(ptr, data).wf(),
            self.write(ptr, data).span(ptr, data.len() as int) == data,
            self.write(ptr, data).span(0, ptr) == self.span(0, ptr),
            self.write(ptr, data).span(ptr + data.len(), self.top() - ptr - data.len())
                == self.span(ptr + data.len(), self.top() - ptr - data.len()),
    {
        self.live_span_in_bounds(ptr, data.len() as int);
        let after = self.write(ptr, data);
        assert(after.span(ptr, data.len() as int) =~= data);
        assert(after.span(0, ptr) =~= self.span(0, ptr));
        assert(after.span(ptr + data.len(), self.top() - ptr - data.len()) =~= self.span(
            ptr + data.len(),
            self.top() - ptr - data.len(),
        ));
    }
}

/// Round trip through memory: once a region of `size` bytes is acquired,
/// `size` bytes written at its offset are the bytes read back from it.
pub proof fn acquired_region_round_trips(s: MemoryState, size: u32, data: Seq<u8>)
    requires
        s.wf(),
        s.can_acquire(size),
        size > 0,
        data.len() == size,
    ensures
        s.acquire(size).span_is_live(s.next_ptr(), size as int),
        s.acquire(size).write(s.next_ptr(), data).wf(),
        s.acquire(size).write(s.next_ptr(), data).span(s.next_ptr(), size as int) == data,
{
    s.acquire_is_fresh(size);
    s.acquire(size).write_changes_span_only(s.next_ptr(), data);
}

/// Pairing of acquire and release: when two regions are acquired and the
/// first is released, the second is still live, keeps apart from the
/// released one, and holds the bytes it held.
pub proof fn release_leaves_later_region(s: MemoryState, size1: u32, size2: u32)
    requires
        s.wf(),
        s.can_acquire(size1),
        s.acquire(size1).can_acquire(size2),
    ensures
        ({
            let one = s.acquire(size1);
            let two = one.acquire(size2);
            let r1 = s.next_region(size1);
            let r2 = one.next_region(size2);
            let rest = two.release(r1);
            &&& two.is_live(r1)
            &&& rest.wf()
            &&& rest.is_live(r2)
            &&& rest.span_is_live(r2.ptr as int, r2.len as int)
            &&& r2.disjoint(r1)
            &&& rest.span(r2.ptr as int, r2.len as int) == two.span(r2.ptr as int, r2.len as int)
        }),
{
    let one = s.acquire(size1);
    let two = one.acquire(size2);
    let r1 = s.next_region(size1);
    let r2 = one.next_region(size2);
    let rest = two.release(r1);
    let n = s.live.len() as int;
    s.acquire_is_fresh(size1);
    one.acquire_is_fresh(size2);
    assert(one.live[n] == r1);
    assert(two.live[n] == r1);
    assert(two.live[n + 1] == r2);
    first_index_is_first(two.live, r1, n);
    two.release_keeps_rest(r1);
    assert(rest.live[n] == r2);
    assert(rest.live.last() == r2);
    assert(r2.covers(r2.ptr as int, r2.len as int));
    assert(rest.bytes =~= two.bytes);
}

/// Releasing the region that was acquired last gives back the memory that
/// was there before it was acquired: the next region starts where that one
/// started.
pub proof fn release_undoes_acquire(s: MemoryState, size: u32)
    requires
        s.wf(),
        s.can_acquire(size),
    ensures
        s.acquire(size).is_live(s.next_region(size)),
        s.acquire(size).release(s.next_region(size)) == s,
{
    let one = s.acquire(size);
    let r = s.next_region(size);
    let back = one.release(r);
    let n = s.live.len() as int;
    s.acquire_is_fresh(size);
    assert(one.live[n] == r);
    first_index_is_first(one.live, r, n);
    one.release_keeps_rest(r);
    let at = first_index(one.live, r);
    assert forall|k: int| 0 <= k < n implies back.live[k] == s.live[k] by {
        assert(one.live[k] == s.live[k]);
        if at <= k {
            // A region equal to the new one already stood at `at`: it is
            // empty and lies at the top, and so does every region after it.
            assert(one.live[at] == s.live[at]);
            s.live_regions_in_bounds(at);
            s.live_regions_in_bounds(k);
            if at < k {
                assert(s.live[at].end() <= s.live[k].ptr);
            }
            assert(s.live[k] == r);
            if k + 1 < n {
                assert(one.live[k + 1] == s.live[k + 1]);
                s.live_regions_in_bounds(k + 1);
                assert(s.live[at].end() <= s.live[k + 1].ptr);
            }
        }
    }
    assert(back.live =~= s.live);
    assert(back.bytes =~= s.bytes);
}

/// A region is released once: after its release a region that holds a byte
/// is live no more.
pub proof fn released_region_is_gone(s: MemoryState, r: Region)
    requires
        s.wf(),
        s.is_live(r),
        r.len > 0,
    ensures
        !s.release(r).is_live(r),
{
    s.release_keeps_rest(r);
    let at = first_index(s.live, r);
    let after = s.release(r);
    assert forall|k: int| 0 <= k < after.live.len() implies after.live[k] != r by {
        let k0 = if k < at { k } else { k + 1 };
        assert(after.live[k] == s.live[k0]);
        if k0 < at {
            assert(s.live[k0].end() <= s.live[at].ptr);
        } else {
            assert(s.live[at].end() <= s.live[k0].ptr);
        }
    }
}

} // verus!
