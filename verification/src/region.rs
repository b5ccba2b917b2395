//! Classified memory regions: a frame range tagged with what the range is
//! used for, and the total order the memory map keeps its entries in.

use vstd::prelude::*;
use crate::frame_range::FrameRange;

verus! {

/// Classification of a memory region. Every tag except `Empty` is assigned
/// by the caller; `Empty` marks unused capacity in the map and never a real
/// discovered range.
#[derive(Clone, Copy, PartialEq, Eq, Structural, Debug)]
pub enum MemoryRegionType {
    /// free RAM
    Usable,
    /// used RAM
    InUse,
    /// unusable
    Reserved,
    /// ACPI reclaimable memory
    AcpiReclaimable,
    /// ACPI NVS memory
    AcpiNvs,
    /// area containing bad memory
    BadMemory,
    /// kernel memory
    Kernel,
    /// kernel stack memory
    KernelStack,
    /// memory used by page tables
    PageTable,
    /// memory used by the bootloader
    Bootloader,
    /// the frame at address zero, flagged for the consumer because null
    /// pointer mistakes are easy to make; never assigned by this crate
    FrameZero,
    /// an empty region of size zero
    Empty,
    /// memory holding the boot information
    BootInfo,
    /// memory holding the supplied package
    Package,
}

/// A contiguous run of frames together with its classification.
#[derive(Clone, Copy, PartialEq, Eq, Structural, Debug)]
pub struct MemoryRegion {
    pub range: FrameRange,
    pub region_type: MemoryRegionType,
}

impl MemoryRegion {
    /// The placeholder value that fills unused map slots.
    pub open spec fn spec_empty() -> MemoryRegion {
        MemoryRegion {
            range: FrameRange { start_frame_number: 0, end_frame_number: 0 },
            region_type: MemoryRegionType::Empty,
        }
    }

    /// The placeholder region marking an unused map slot: a zero-length
    /// range at frame zero, tagged `Empty`.
    pub fn empty() -> (r: MemoryRegion)
        ensures
            r == Self::spec_empty(),
            r.range.spec_is_empty(),
    {
        MemoryRegion {
            range: FrameRange { start_frame_number: 0, end_frame_number: 0 },
            region_type: MemoryRegionType::Empty,
        }
    }
}

/// The order the memory map keeps its slots in: every region with an empty
/// range sorts after every region with a non-empty one, so occupied entries
/// precede placeholders; non-empty regions are ordered by start frame and
/// then by end frame; placeholders are not ordered among themselves.
pub open spec fn region_le(a: MemoryRegion, b: MemoryRegion) -> bool {
    if a.range.spec_is_empty() {
        b.range.spec_is_empty()
    } else if b.range.spec_is_empty() {
        true
    } else if a.range.start_frame_number != b.range.start_frame_number {
        a.range.start_frame_number < b.range.start_frame_number
    } else {
        a.range.end_frame_number <= b.range.end_frame_number
    }
}

/// A sequence of regions sorted under `region_le`.
pub open spec fn regions_sorted(s: Seq<MemoryRegion>) -> bool {
    forall|i: int, j: int| 0 <= i < j < s.len() ==> region_le(#[trigger] s[i], #[trigger] s[j])
}

/// Whether some region of the sequence has an empty range.
pub open spec fn has_empty_region(s: Seq<MemoryRegion>) -> bool {
    exists|i: int| 0 <= i < s.len() && (#[trigger] s[i]).range.spec_is_empty()
}

/// `region_le` is transitive.
pub proof fn lemma_region_le_transitive(a: MemoryRegion, b: MemoryRegion, c: MemoryRegion)
    requires
        region_le(a, b),
        region_le(b, c),
    ensures
        region_le(a, c),
{
}

/// Decide `region_le` on concrete regions.
pub fn region_le_exec(a: &MemoryRegion, b: &MemoryRegion) -> (r: bool)
    ensures
        r == region_le(*a, *b),
{
    if a.range.is_empty() {
        b.range.is_empty()
    } else if b.range.is_empty() {
        true
    } else if a.range.start_frame_number != b.range.start_frame_number {
        a.range.start_frame_number < b.range.start_frame_number
    } else {
        a.range.end_frame_number <= b.range.end_frame_number
    }
}

} // verus!
