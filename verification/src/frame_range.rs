//! Page-quantized half-open intervals of physical memory, measured in frames.

use vstd::prelude::*;
use vstd::arithmetic::div_mod::{lemma_div_is_ordered, lemma_div_nonincreasing, lemma_div_plus_one};

verus! {

/// Size of one physical frame in bytes; the quantization granularity for
/// every range in this crate.
pub const PAGE_SIZE: u64 = 4096;

/// The largest byte address `addr` rounded down to a page boundary.
pub open spec fn page_floor(addr: int) -> int {
    (addr / PAGE_SIZE as int) * PAGE_SIZE as int
}

/// The byte address `addr` rounded up to a page boundary.
pub open spec fn page_ceil(addr: int) -> int {
    ((addr + PAGE_SIZE as int - 1) / PAGE_SIZE as int) * PAGE_SIZE as int
}

/// A half-open interval of physical frames: frames
/// `[start_frame_number, end_frame_number)`. The end is exclusive.
#[derive(Clone, Copy, PartialEq, Eq, Structural, Debug)]
pub struct FrameRange {
    pub start_frame_number: u64,
    /// exclusive
    pub end_frame_number: u64,
}

impl FrameRange {
    /// A range is well formed when its start does not lie past its end.
    pub open spec fn wf(self) -> bool {
        self.start_frame_number <= self.end_frame_number
    }

    /// A range is empty exactly when its start and end frame numbers agree.
    pub open spec fn spec_is_empty(self) -> bool {
        self.start_frame_number == self.end_frame_number
    }

    /// The range that `new` builds from a pair of byte addresses: the start
    /// rounded down to its frame, the exclusive end rounded up so that the
    /// last included byte is still covered.
    pub open spec fn spec_new(start_addr: u64, end_addr: u64) -> FrameRange {
        FrameRange {
            start_frame_number: (start_addr as int / PAGE_SIZE as int) as u64,
            end_frame_number: ((end_addr - 1) as int / PAGE_SIZE as int + 1) as u64,
        }
    }

    /// The byte address of the first frame of the range.
    pub open spec fn spec_start_addr(self) -> int {
        self.start_frame_number * PAGE_SIZE
    }

    /// The byte address one past the last frame of the range.
    pub open spec fn spec_end_addr(self) -> int {
        self.end_frame_number * PAGE_SIZE
    }

    /// Build the range of frames covering the byte interval
    /// `[start_addr, end_addr)`. The interval must be non-degenerate:
    /// an empty byte interval has no frames to cover, and an `end_addr`
    /// of zero would have no last byte at all.
    pub fn new(start_addr: u64, end_addr: u64) -> (r: FrameRange)
        requires
            start_addr < end_addr,
        ensures
            r == Self::spec_new(start_addr, end_addr),
            r.start_frame_number == start_addr as int / PAGE_SIZE as int,
            r.end_frame_number == (end_addr - 1) as int / PAGE_SIZE as int + 1,
            r.wf(),
            !r.spec_is_empty(),
    {
        let last_byte = end_addr - 1;
        proof {
            lemma_div_nonincreasing(last_byte as int, PAGE_SIZE as int);
            lemma_div_is_ordered(start_addr as int, last_byte as int, PAGE_SIZE as int);
        }
        FrameRange {
            start_frame_number: start_addr / PAGE_SIZE,
            end_frame_number: (last_byte / PAGE_SIZE) + 1,
        }
    }

    /// Whether the range covers no frames.
    pub fn is_empty(&self) -> (r: bool)
        ensures
            r == self.spec_is_empty(),
    {
        self.start_frame_number == self.end_frame_number
    }

    /// The byte address of the first frame of the range.
    pub fn start_addr(&self) -> (r: u64)
        requires
            self.start_frame_number * PAGE_SIZE <= u64::MAX,
        ensures
            r == self.spec_start_addr(),
    {
        self.start_frame_number * PAGE_SIZE
    }

    /// The byte address one past the last frame of the range.
    pub fn end_addr(&self) -> (r: u64)
        requires
            self.end_frame_number * PAGE_SIZE <= u64::MAX,
        ensures
            r == self.spec_end_addr(),
    {
        self.end_frame_number * PAGE_SIZE
    }
}

/// Law: building a range from byte addresses quantizes them to page
/// boundaries. The range starts at `start_addr` rounded down to a page
/// boundary and ends at `end_addr` rounded up to one; sub-page offsets
/// are lost by design.
pub proof fn lemma_new_rounds_to_pages(start_addr: u64, end_addr: u64)
    requires
        start_addr < end_addr,
    ensures
        FrameRange::spec_new(start_addr, end_addr).spec_start_addr() == page_floor(
            start_addr as int,
        ),
        FrameRange::spec_new(start_addr, end_addr).spec_end_addr() == page_ceil(end_addr as int),
{
    let p = PAGE_SIZE as int;
    lemma_div_nonincreasing((end_addr - 1) as int, p);
    lemma_div_plus_one((end_addr - 1) as int, p);
    assert((end_addr - 1) as int / p + 1 == (end_addr as int + p - 1) / p);
}

} // verus!
