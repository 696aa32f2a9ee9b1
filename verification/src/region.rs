//! Regions of linear memory.
use vstd::prelude::*;

verus! {

/// Every region starts at a multiple of this many bytes: the width of the
/// widest scalar that crosses the boundary.
pub const REGION_ALIGN: u32 = 8;

/// The least multiple of [`REGION_ALIGN`] that is not below `offset`.
pub open spec fn align_up(offset: int) -> int {
    (offset + (REGION_ALIGN - 1)) / (REGION_ALIGN as int) * REGION_ALIGN
}

/// `align_up` gives an aligned offset, the least one from `offset` on.
pub proof fn align_up_is_least(offset: int)
    requires
        0 <= offset,
    ensures
        offset <= align_up(offset) < offset + REGION_ALIGN,
        align_up(offset) % (REGION_ALIGN as int) == 0,
        offset % (REGION_ALIGN as int) == 0 ==> align_up(offset) == offset,
{
}

/// A contiguous span of linear memory. It has no identity beyond the pair
/// of its first offset and its length in bytes.
#[derive(Clone, Copy, Debug, PartialEq, Eq, Structural)]
pub struct Region {
    /// Offset of the first byte.
    pub ptr: u32,
    /// Number of bytes.
    pub len: u32,
}

impl Region {
    /// The offset one past the last byte.
    pub open spec fn end(self) -> int {
        self.ptr + self.len
    }

    /// The region starts at a multiple of [`REGION_ALIGN`].
    pub open spec fn aligned(self) -> bool {
        self.ptr % REGION_ALIGN == 0
    }

    /// The two regions share no byte, and neither starts inside the other.
    pub open spec fn disjoint(self, other: Region) -> bool {
        self.end() <= other.ptr || other.end() <= self.ptr
    }

    /// The `len` bytes from `ptr` on all lie in this region.
    pub open spec fn covers(self, ptr: int, len: int) -> bool {
        self.ptr <= ptr && ptr + len <= self.end()
    }

    /// The region of `len` bytes that starts at `ptr`.
    pub fn new(ptr: u32, len: u32) -> (r: Region)
        ensures
            r == (Region { ptr, len }),
    {
        Region { ptr, len }
    }

    /// The offset one past the last byte. It may lie beyond what 32 bits hold.
    pub fn end_offset(&self) -> (e: u64)
        ensures
            e == self.end(),
    {
        self.ptr as u64 + self.len as u64
    }

    /// Do the `len` bytes from `ptr` on all lie in this region?
    pub fn covers_span(&self, ptr: u32, len: u32) -> (inside: bool)
        ensures
            inside == self.covers(ptr as int, len as int),
    {
        self.ptr <= ptr && ptr as u64 + len as u64 <= self.end_offset()
    }

    /// Do the two regions keep apart?
    pub fn is_disjoint_from(&self, other: &Region) -> (apart: bool)
        ensures
            apart == self.disjoint(*other),
    {
        self.end_offset() <= other.ptr as u64 || other.end_offset() <= self.ptr as u64
    }
}

} // verus!
