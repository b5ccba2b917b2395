//! A fixed-capacity, sorted map of classified physical memory regions,
//! built incrementally from firmware-reported ranges during early boot and
//! handed off by value to the kernel, which only reads it.

pub mod adapter;
pub mod error;
pub mod frame_range;
pub mod mem_map;
pub mod region;

pub use adapter::E820MemoryRegion;
pub use error::MapError;
pub use frame_range::FrameRange;
pub use frame_range::PAGE_SIZE;
pub use mem_map::MemoryMap;
pub use mem_map::MAX_MEMORY_MAP_SIZE;
pub use region::MemoryRegion;
pub use region::MemoryRegionType;
