//! The fatal conditions this crate can detect. Each one is unrecoverable at
//! boot time: there is no fallback memory source and no partial-success
//! path, so the caller's correct response is to halt with a diagnostic.

use vstd::prelude::*;

verus! {

/// A condition that makes the boot-time memory map unusable.
#[derive(Clone, Copy, PartialEq, Eq, Structural, Debug)]
pub enum MapError {
    /// A region was offered to a map whose fixed capacity is already full.
    CapacityExceeded,
    /// A firmware descriptor carried a type code outside the known range.
    InvalidRegionTypeCode,
    /// A byte range with no last byte was offered to range construction.
    DegenerateRangeInput,
}

impl MapError {
    /// A short diagnostic for the caller to report before halting.
    pub fn describe(&self) -> (r: &'static str)
        ensures
            self is CapacityExceeded ==> r@ == "too many memory regions in memory map"@,
            self is InvalidRegionTypeCode ==> r@ == "invalid memory region type code"@,
            self is DegenerateRangeInput ==> r@ == "degenerate byte range for memory region"@,
    {
        match self {
            MapError::CapacityExceeded => "too many memory regions in memory map",
            MapError::InvalidRegionTypeCode => "invalid memory region type code",
            MapError::DegenerateRangeInput => "degenerate byte range for memory region",
        }
    }
}

} // verus!
