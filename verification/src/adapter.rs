//! Adapter for legacy firmware range descriptors: turns a raw byte range
//! with a numeric type code into a classified memory region.

use vstd::prelude::*;
use crate::error::MapError;
use crate::frame_range::FrameRange;
use crate::region::{MemoryRegion, MemoryRegionType};

verus! {

/// A firmware-native range descriptor as the legacy discovery interface
/// reports it: a byte range, a numeric type code, and extended attributes.
#[derive(Clone, Copy, PartialEq, Eq, Structural, Debug)]
pub struct E820MemoryRegion {
    pub start_addr: u64,
    pub len: u64,
    pub region_type: u32,
    pub acpi_extended_attributes: u32,
}

/// The classification a legacy firmware type code stands for: codes one
/// through five are known, every other code is not.
pub open spec fn spec_type_of_code(code: u32) -> Option<MemoryRegionType> {
    if code == 1 {
        Some(MemoryRegionType::Usable)
    } else if code == 2 {
        Some(MemoryRegionType::Reserved)
    } else if code == 3 {
        Some(MemoryRegionType::AcpiReclaimable)
    } else if code == 4 {
        Some(MemoryRegionType::AcpiNvs)
    } else if code == 5 {
        Some(MemoryRegionType::BadMemory)
    } else {
        None
    }
}

impl MemoryRegion {
    /// Convert a legacy firmware descriptor into a classified region
    /// covering the frames of `[start_addr, start_addr + len)`.
    ///
    /// A type code outside the known range is a fatal condition — a
    /// malformed firmware table cannot be safely second-guessed — and so is
    /// a descriptor of length zero, whose byte range has no last byte to
    /// quantize. The extended attributes carry nothing this crate models and
    /// are discarded. The byte range must not wrap the address space.
    pub fn from_e820(descriptor: E820MemoryRegion) -> (r: Result<MemoryRegion, MapError>)
        requires
            descriptor.start_addr + descriptor.len <= u64::MAX,
        ensures
            spec_type_of_code(descriptor.region_type) is None ==> r == Err::<
                MemoryRegion,
                MapError,
            >(MapError::InvalidRegionTypeCode),
            spec_type_of_code(descriptor.region_type) is Some && descriptor.len == 0 ==> r == Err::<
                MemoryRegion,
                MapError,
            >(MapError::DegenerateRangeInput),
            spec_type_of_code(descriptor.region_type) is Some && descriptor.len > 0 ==> r == Ok::<
                MemoryRegion,
                MapError,
            >(
                (MemoryRegion {
                    range: FrameRange::spec_new(
                        descriptor.start_addr,
                        (descriptor.start_addr + descriptor.len) as u64,
                    ),
                    region_type: spec_type_of_code(descriptor.region_type)->Some_0,
                }),
            ),
    {
        let region_type = match descriptor.region_type {
            1 => MemoryRegionType::Usable,
            2 => MemoryRegionType::Reserved,
            3 => MemoryRegionType::AcpiReclaimable,
            4 => MemoryRegionType::AcpiNvs,
            5 => MemoryRegionType::BadMemory,
            _ => {
                return Err(MapError::InvalidRegionTypeCode);
            },
        };
        if descriptor.len == 0 {
            return Err(MapError::DegenerateRangeInput);
        }
        let range = FrameRange::new(descriptor.start_addr, descriptor.start_addr + descriptor.len);
        Ok(MemoryRegion { range, region_type })
    }
}

} // verus!
