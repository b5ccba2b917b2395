use memory_map::E820MemoryRegion;
use memory_map::FrameRange;
use memory_map::MapError;
use memory_map::MemoryMap;
use memory_map::MemoryRegion;
use memory_map::MemoryRegionType;
use memory_map::MAX_MEMORY_MAP_SIZE;
use memory_map::PAGE_SIZE;

fn region(start_addr: u64, end_addr: u64, region_type: MemoryRegionType) -> MemoryRegion {
    MemoryRegion {
        range: FrameRange::new(start_addr, end_addr),
        region_type,
    }
}

fn assert_prefix_sorted_and_nonempty(map: &MemoryMap) {
    let len = map.next_entry_index();
    for i in 0..len {
        assert!(!map.get(i).range.is_empty());
    }
    for i in 1..len {
        let a = map.get(i - 1).range;
        let b = map.get(i).range;
        assert!(
            a.start_frame_number < b.start_frame_number
                || (a.start_frame_number == b.start_frame_number
                    && a.end_frame_number <= b.end_frame_number)
        );
    }
}

#[test]
fn fresh_map_yields_no_regions() {
    let map = MemoryMap::new();
    assert_eq!(map.next_entry_index(), 0);
}

#[test]
fn insertion_scenario_orders_regions() {
    let mut map = MemoryMap::new();
    map.add_region(region(0x2000, 0x3000, MemoryRegionType::Usable));
    map.add_region(region(0x0, 0x1000, MemoryRegionType::Reserved));
    map.add_region(region(0x1000, 0x2000, MemoryRegionType::Kernel));

    assert_eq!(map.next_entry_index(), 3);
    let expected = [
        (0x0u64, 0x1000u64, MemoryRegionType::Reserved),
        (0x1000, 0x2000, MemoryRegionType::Kernel),
        (0x2000, 0x3000, MemoryRegionType::Usable),
    ];
    for (i, &(start, end, t)) in expected.iter().enumerate() {
        let r = map.get(i);
        assert_eq!(r.range.start_addr(), start);
        assert_eq!(r.range.end_addr(), end);
        assert_eq!(r.region_type, t);
    }
}

#[test]
fn prefix_stays_sorted_after_each_add() {
    let mut map = MemoryMap::new();
    let inputs = [
        (0x7000u64, 0x8000u64, MemoryRegionType::Usable),
        (0x1000, 0x3000, MemoryRegionType::Reserved),
        (0x1000, 0x2000, MemoryRegionType::Kernel),
        (0x5000, 0x6000, MemoryRegionType::PageTable),
        (0x3000, 0x5000, MemoryRegionType::Bootloader),
    ];
    for &(start, end, t) in inputs.iter() {
        map.add_region(region(start, end, t));
        assert_prefix_sorted_and_nonempty(&map);
    }
    assert_eq!(map.next_entry_index(), inputs.len());
    assert_eq!(map.get(0).range.start_addr(), 0x1000);
    assert_eq!(map.get(0).range.end_addr(), 0x2000);
    assert_eq!(map.get(1).range.end_addr(), 0x3000);
}

#[test]
fn is_empty_holds_exactly_for_equal_frame_numbers() {
    let empty = MemoryRegion::empty();
    assert!(empty.range.is_empty());
    assert_eq!(empty.region_type, MemoryRegionType::Empty);

    let same = FrameRange {
        start_frame_number: 3,
        end_frame_number: 3,
    };
    assert!(same.is_empty());

    let distinct = FrameRange {
        start_frame_number: 3,
        end_frame_number: 4,
    };
    assert!(!distinct.is_empty());
}

#[test]
fn new_range_quantizes_to_pages() {
    let r = FrameRange::new(8202, 20480);
    assert_eq!(r.start_frame_number, 2);
    assert_eq!(r.end_frame_number, 5);
    assert_eq!(r.start_addr(), 8192);
    assert_eq!(r.end_addr(), 20480);

    let aligned = FrameRange::new(0x1000, 0x3000);
    assert_eq!(aligned.start_addr(), 0x1000);
    assert_eq!(aligned.end_addr(), 0x3000);

    let one_byte = FrameRange::new(0, 1);
    assert_eq!(one_byte.start_frame_number, 0);
    assert_eq!(one_byte.end_frame_number, 1);
    assert_eq!(one_byte.end_addr(), PAGE_SIZE);
}

#[test]
fn sixty_fifth_region_is_a_fatal_failure() {
    let mut map = MemoryMap::new();
    for i in 0..MAX_MEMORY_MAP_SIZE as u64 {
        let r = region(i * 0x1000, (i + 1) * 0x1000, MemoryRegionType::Usable);
        assert_eq!(map.try_add_region(r), Ok(()));
    }
    assert_eq!(map.next_entry_index(), MAX_MEMORY_MAP_SIZE);

    let overflow = region(0x100_0000, 0x100_1000, MemoryRegionType::Reserved);
    assert_eq!(map.try_add_region(overflow), Err(MapError::CapacityExceeded));

    // nothing was truncated or overwritten
    assert_eq!(map.next_entry_index(), MAX_MEMORY_MAP_SIZE);
    for i in 0..MAX_MEMORY_MAP_SIZE {
        let r = map.get(i);
        assert_eq!(r.range.start_addr(), i as u64 * 0x1000);
        assert_eq!(r.region_type, MemoryRegionType::Usable);
    }
}

#[test]
fn adapter_maps_known_type_codes() {
    let cases = [
        (1u32, MemoryRegionType::Usable),
        (2, MemoryRegionType::Reserved),
        (3, MemoryRegionType::AcpiReclaimable),
        (4, MemoryRegionType::AcpiNvs),
        (5, MemoryRegionType::BadMemory),
    ];
    for &(code, expected) in cases.iter() {
        let descriptor = E820MemoryRegion {
            start_addr: 0x1000,
            len: 0x1000,
            region_type: code,
            acpi_extended_attributes: 0,
        };
        let r = MemoryRegion::from_e820(descriptor).unwrap();
        assert_eq!(r.region_type, expected);
        assert_eq!(r.range.start_addr(), 0x1000);
        assert_eq!(r.range.end_addr(), 0x2000);
    }
}

#[test]
fn adapter_rejects_unknown_type_codes() {
    for &code in [0u32, 6, 7, 100, u32::MAX].iter() {
        let descriptor = E820MemoryRegion {
            start_addr: 0x1000,
            len: 0x1000,
            region_type: code,
            acpi_extended_attributes: 0,
        };
        assert_eq!(
            MemoryRegion::from_e820(descriptor),
            Err(MapError::InvalidRegionTypeCode)
        );
    }
}

#[test]
fn adapter_rejects_zero_length_descriptor() {
    let descriptor = E820MemoryRegion {
        start_addr: 0x5000,
        len: 0,
        region_type: 1,
        acpi_extended_attributes: 0,
    };
    assert_eq!(
        MemoryRegion::from_e820(descriptor),
        Err(MapError::DegenerateRangeInput)
    );
}

#[test]
fn adapter_quantizes_byte_ranges() {
    let descriptor = E820MemoryRegion {
        start_addr: 8202,
        len: 12278,
        region_type: 1,
        acpi_extended_attributes: 0,
    };
    let r = MemoryRegion::from_e820(descriptor).unwrap();
    assert_eq!(r.range.start_frame_number, 2);
    assert_eq!(r.range.end_frame_number, 5);
    assert_eq!(r.region_type, MemoryRegionType::Usable);
}

#[test]
fn sort_keeps_contents_of_a_built_map() {
    let mut map = MemoryMap::new();
    map.add_region(region(0x3000, 0x4000, MemoryRegionType::Kernel));
    map.add_region(region(0x1000, 0x2000, MemoryRegionType::Usable));
    map.sort();
    assert_eq!(map.next_entry_index(), 2);
    assert_eq!(map.get(0).range.start_addr(), 0x1000);
    assert_eq!(map.get(1).range.start_addr(), 0x3000);
    assert_prefix_sorted_and_nonempty(&map);
}

#[test]
fn adding_a_placeholder_changes_nothing() {
    let mut map = MemoryMap::new();
    map.add_region(region(0x1000, 0x2000, MemoryRegionType::Usable));
    map.add_region(MemoryRegion::empty());
    assert_eq!(map.next_entry_index(), 1);
    assert_eq!(map.get(0).range.start_addr(), 0x1000);
}

#[test]
fn equal_start_frames_order_by_end_frame() {
    let mut map = MemoryMap::new();
    map.add_region(region(0x1000, 0x4000, MemoryRegionType::Usable));
    map.add_region(region(0x1000, 0x2000, MemoryRegionType::Kernel));
    assert_eq!(map.next_entry_index(), 2);
    assert_eq!(map.get(0).range.end_addr(), 0x2000);
    assert_eq!(map.get(1).range.end_addr(), 0x4000);
}

#[test]
fn errors_carry_a_diagnostic() {
    assert_eq!(
        MapError::CapacityExceeded.describe(),
        "too many memory regions in memory map"
    );
    assert_eq!(
        MapError::InvalidRegionTypeCode.describe(),
        "invalid memory region type code"
    );
    assert_eq!(
        MapError::DegenerateRangeInput.describe(),
        "degenerate byte range for memory region"
    );
}
