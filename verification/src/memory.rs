//! The linear allocator: regions of linear memory handed out on request and
//! taken back on release, and the host's access to the bytes in them.
use vstd::prelude::*;
use vstd::slice::{slice_subrange, slice_to_vec};
use vstd::utf8::{decode_utf8, valid_utf8};
use crate::codec::log_after;
use crate::region::{Region, REGION_ALIGN};
use crate::state::{first_index, first_index_is_first, MemoryState};

verus! {

/// Linear memory with the list of the regions that are live in it.
///
/// A region starts at the first aligned offset from where memory ended when
/// it was acquired, so regions never overlap; none starts at offset zero,
/// which a host reads as the null address. Releasing the topmost region
/// lets memory end where the last region that is still live ends; a release
/// below the top leaves a gap that is not handed out again while a later
/// region is live.
pub struct LinearMemory {
    bytes: Vec<u8>,
    live: Vec<Region>,
}

impl View for LinearMemory {
    type V = MemoryState;

    closed spec fn view(&self) -> MemoryState {
        MemoryState { bytes: self.bytes@, live: self.live@ }
    }
}

impl LinearMemory {
    /// The invariant of linear memory, which every operation keeps.
    pub open spec fn wf(&self) -> bool {
        self@.wf()
    }

    /// Empty memory.
    pub fn new() -> (mem: LinearMemory)
        ensures
            mem.wf(),
            mem@ == MemoryState::empty(),
    {
        LinearMemory { bytes: Vec::new(), live: Vec::new() }
    }

    /// The offset at which memory ends.
    pub fn top(&self) -> (top: u32)
        requires
            self.wf(),
        ensures
            top == self@.top(),
    {
        self.bytes.len() as u32
    }

    /// The offset at which the next region would start. It may lie beyond
    /// what 32 bits hold.
    fn next_offset(&self) -> (next: u64)
        requires
            self.wf(),
        ensures
            next == self@.next_ptr(),
    {
        let top: u64 = self.bytes.len() as u64;
        let align: u64 = REGION_ALIGN as u64;
        if top == 0 {
            align
        } else {
            (top + (align - 1)) / align * align
        }
    }

    /// Is there room for a region of `size` bytes?
    pub fn can_acquire(&self, size: u32) -> (room: bool)
        requires
            self.wf(),
        ensures
            room == self@.can_acquire(size),
    {
        self.next_offset() + size as u64 <= u32::MAX as u64
    }

    /// Hands out a fresh region of exactly `size` bytes and returns its
    /// offset, which is never zero. The region starts at the first aligned
    /// offset from the old top of memory on, above every region that is
    /// live; its bytes are zero. The caller owns it until it releases it
    /// with the same offset and size.
    pub fn acquire_memory(&mut self, size: u32) -> (ptr: u32)
        requires
            old(self).wf(),
            old(self)@.can_acquire(size),
        ensures
            final(self).wf(),
            ptr == old(self)@.next_ptr(),
            ptr != 0,
            ptr % REGION_ALIGN == 0,
            final(self)@ == old(self)@.acquire(size),
            final(self)@.is_live(Region { ptr, len: size }),
            final(self)@.span_is_live(ptr as int, size as int),
            forall|i: int|
                0 <= i < old(self)@.live.len() ==> (#[trigger] old(self)@.live[i]).disjoint(
                    Region { ptr, len: size },
                ),
    {
        let ghost before = self@;
        proof {
            before.acquire_is_fresh(size);
        }
        let next: u64 = self.next_offset();
        let ptr: u32 = next as u32;
        let grow: u64 = next - self.bytes.len() as u64 + size as u64;
        let mut added: u64 = 0;
        while added < grow
            invariant
                added <= grow,
                before.bytes.len() + grow <= u32::MAX,
                self.live@ == before.live,
                self.bytes@ == before.bytes + Seq::new(added as nat, |i: int| 0u8),
            decreases grow - added,
        {
            self.bytes.push(0u8);
            added = added + 1;
            assert(self.bytes@ =~= before.bytes + Seq::new(added as nat, |i: int| 0u8));
        }
        self.live.push(Region { ptr, len: size });
        proof {
            assert(self@.bytes =~= before.acquire(size).bytes);
            assert(self@.live =~= before.acquire(size).live);
        }
        ptr
    }

    /// Where the region stands in the live list, if it is live.
    fn find_region(&self, ptr: u32, size: u32) -> (found: Option<usize>)
        ensures
            found is Some <==> self@.is_live(Region { ptr, len: size }),
            found matches Some(i) ==> i < self@.live.len() && i == first_index(
                self@.live,
                Region { ptr, len: size },
            ),
    {
        let ghost r = Region { ptr, len: size };
        let mut i: usize = 0;
        while i < self.live.len()
            invariant
                i <= self.live@.len(),
                r == (Region { ptr, len: size }),
                forall|k: int| 0 <= k < i ==> self.live@[k] != r,
            decreases self.live@.len() - i,
        {
            if self.live[i].ptr == ptr && self.live[i].len == size {
                proof {
                    first_index_is_first(self.live@, r, i as int);
                }
                return Some(i);
            }
            i = i + 1;
        }
        None
    }

    /// Is the region of `size` bytes at `ptr` live?
    pub fn is_live(&self, ptr: u32, size: u32) -> (live: bool)
        ensures
            live == self@.is_live(Region { ptr, len: size }),
    {
        self.find_region(ptr, size).is_some()
    }

    /// Takes back the region of `size` bytes at `ptr`. The region has to be
    /// live: `size` is the size it was acquired with, and it was not
    /// released before. Every other region stays live with its bytes.
    pub fn release_memory(&mut self, ptr: u32, size: u32)
        requires
            old(self).wf(),
            old(self)@.is_live(Region { ptr, len: size }),
        ensures
            final(self).wf(),
            final(self)@ == old(self)@.release(Region { ptr, len: size }),
    {
        let ghost before = self@;
        let ghost r = Region { ptr, len: size };
        proof {
            before.release_keeps_rest(r);
        }
        match self.find_region(ptr, size) {
            Some(i) => {
                self.live.remove(i);
                let n = self.live.len();
                let top: usize = if n == 0 {
                    0
                } else {
                    (self.live[n - 1].ptr as u64 + self.live[n - 1].len as u64) as usize
                };
                self.bytes.truncate(top);
                assert(self@.bytes =~= before.release(r).bytes);
                assert(self@.live =~= before.release(r).live);
            },
            None => {},
        }
    }

    /// Do the `len` bytes from `ptr` on all lie in one live region?
    pub fn span_is_live(&self, ptr: u32, len: u32) -> (inside: bool)
        ensures
            inside == self@.span_is_live(ptr as int, len as int),
    {
        let mut i: usize = 0;
        while i < self.live.len()
            invariant
                i <= self.live@.len(),
                forall|k: int| 0 <= k < i ==> !(#[trigger] self.live@[k]).covers(ptr as int, len as int),
            decreases self.live@.len() - i,
        {
            if self.live[i].covers_span(ptr, len) {
                assert(self@.live[i as int].covers(ptr as int, len as int));
                return true;
            }
            i = i + 1;
        }
        false
    }

    /// Writes `data` into memory from `ptr` on. The bytes written have to
    /// lie in one live region; no other byte changes.
    pub fn write(&mut self, ptr: u32, data: &[u8])
        requires
            old(self).wf(),
            old(self)@.span_is_live(ptr as int, data@.len() as int),
        ensures
            final(self).wf(),
            final(self)@ == old(self)@.write(ptr as int, data@),
            final(self)@.span(ptr as int, data@.len() as int) == data@,
    {
        let ghost before = self@;
        proof {
            before.live_span_in_bounds(ptr as int, data@.len() as int);
            before.write_changes_span_only(ptr as int, data@);
        }
        let base: usize = ptr as usize;
        let mut k: usize = 0;
        while k < data.len()
            invariant
                k <= data@.len(),
                base == ptr,
                base + data@.len() <= before.bytes.len() <= u32::MAX,
                self.live@ == before.live,
                self.bytes@ == before.write(ptr as int, data@.take(k as int)).bytes,
            decreases data@.len() - k,
        {
            self.bytes.set(base + k, data[k]);
            k = k + 1;
            assert(self.bytes@ =~= before.write(ptr as int, data@.take(k as int)).bytes);
        }
        assert(data@.take(k as int) =~= data@);
    }

    /// The `len` bytes from `ptr` on, which have to lie in one live region.
    pub fn read(&self, ptr: u32, len: u32) -> (data: Vec<u8>)
        requires
            self.wf(),
            self@.span_is_live(ptr as int, len as int),
        ensures
            data@ == self@.span(ptr as int, len as int),
    {
        slice_to_vec(self.span_bytes(ptr, len))
    }

    /// The `len` bytes from `ptr` on, borrowed from memory.
    fn span_bytes(&self, ptr: u32, len: u32) -> (span: &[u8])
        requires
            self.wf(),
            self@.span_is_live(ptr as int, len as int),
        ensures
            span@ == self@.span(ptr as int, len as int),
    {
        proof {
            self@.live_span_in_bounds(ptr as int, len as int);
        }
        let from: usize = ptr as usize;
        let to: usize = from + len as usize;
        slice_subrange(self.bytes.as_slice(), from, to)
    }

    /// Reads the `len` bytes from `ptr` on as UTF-8 text: the text where
    /// they are well-formed UTF-8, nothing where they are not. The bytes
    /// have to lie in one live region.
    pub fn decode(&self, ptr: u32, len: u32) -> (text: Option<String>)
        requires
            self.wf(),
            self@.span_is_live(ptr as int, len as int),
        ensures
            text is Some <==> valid_utf8(self@.span(ptr as int, len as int)),
            text matches Some(t) ==> t@ == decode_utf8(self@.span(ptr as int, len as int)),
    {
        crate::codec::decode(self.span_bytes(ptr, len))
    }

    /// Decodes the `len` bytes from `ptr` on and appends the text to `log`
    /// as one line; malformed bytes leave the log as it is. The bytes have
    /// to lie in one live region. Memory does not change.
    pub fn decode_and_log(&self, ptr: u32, len: u32, log: &mut Vec<String>)
        requires
            self.wf(),
            self@.span_is_live(ptr as int, len as int),
        ensures
            log_after(old(log)@, final(log)@, self@.span(ptr as int, len as int)),
    {
        crate::codec::decode_and_log(self.span_bytes(ptr, len), log)
    }
}

} // verus!
