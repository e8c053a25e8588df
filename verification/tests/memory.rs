use nesos::addr::{Page, PhysAddr, PhysFrame, VirtAddr};
use nesos::memory::{
    active_level_4_table, create_example_mapping, init, is_valid_memory_map, resolve,
    translate_addr, translate_addr_inner, walk_next, walk_start, Level, WalkStep,
    BootInfoFrameAllocator, EmptyFrameAllocator, FrameRange, MemoryRegion, MemoryRegionType,
};
use nesos::paging::{
    FrameAllocator, FrameError, MapToError, MapperFlush, PageStatus, PageTableFlags,
    TranslateError,
};

fn region(start: u64, end: u64, region_type: MemoryRegionType) -> MemoryRegion {
    MemoryRegion { range: FrameRange { start_frame_number: start, end_frame_number: end }, region_type }
}

fn frame(addr: u64) -> PhysFrame {
    PhysFrame::containing_address(PhysAddr::new(addr))
}

fn page(addr: u64) -> Page {
    Page::containing_address(VirtAddr::new(addr))
}

#[test]
fn three_usable_frames_then_none() {
    let map = vec![region(16, 19, MemoryRegionType::Usable)];
    assert!(is_valid_memory_map(&map));
    let mut allocator = BootInfoFrameAllocator::init(map);
    assert_eq!(allocator.allocate_frame(), Some(frame(0x10000)));
    assert_eq!(allocator.allocate_frame(), Some(frame(0x11000)));
    assert_eq!(allocator.allocate_frame(), Some(frame(0x12000)));
    assert_eq!(allocator.allocate_frame(), None);
    assert_eq!(allocator.allocate_frame(), None);
}

#[test]
fn frames_come_from_usable_regions_only_in_order() {
    let map = vec![
        region(0, 1, MemoryRegionType::FrameZero),
        region(1, 3, MemoryRegionType::Usable),
        region(3, 8, MemoryRegionType::Kernel),
        region(8, 8, MemoryRegionType::Usable),
        region(10, 11, MemoryRegionType::Usable),
    ];
    assert!(is_valid_memory_map(&map));
    let mut allocator = BootInfoFrameAllocator::init(map);
    let mut seen = Vec::new();
    while let Some(f) = allocator.allocate_frame() {
        seen.push(f.start_address().as_u64());
    }
    assert_eq!(seen, vec![0x1000, 0x2000, 0xa000]);
}

#[test]
fn overlapping_usable_regions_are_refused() {
    let map = vec![region(1, 5, MemoryRegionType::Usable), region(4, 6, MemoryRegionType::Usable)];
    assert!(!is_valid_memory_map(&map));
    let map = vec![region(1, 5, MemoryRegionType::Usable), region(4, 6, MemoryRegionType::Reserved)];
    assert!(is_valid_memory_map(&map));
    let map = vec![region(1, 0x100_0000_0001, MemoryRegionType::Usable)];
    assert!(!is_valid_memory_map(&map));
}

#[test]
fn empty_allocator_gives_nothing() {
    let mut allocator = EmptyFrameAllocator;
    assert_eq!(allocator.allocate_frame(), None);
}

#[test]
fn mapped_page_translates_to_its_frame() {
    let mut mapper = init(frame(0x1000), VirtAddr::new(0));
    let mut allocator =
        BootInfoFrameAllocator::init(vec![region(0x100, 0x110, MemoryRegionType::Usable)]);
    let flags = PageTableFlags { writable: true, user_accessible: false };
    let target = page(0x4444_4444_0000);
    assert_eq!(mapper.status(target), PageStatus::Mappable { missing: 3 });
    let flush = mapper.map_to(target, frame(0x20_0000), flags, &mut allocator);
    assert_eq!(flush, Ok(MapperFlush { page: target }));
    assert_eq!(mapper.status(target), PageStatus::AlreadyMapped);
    assert_eq!(
        translate_addr(&mapper, VirtAddr::new(0x4444_4444_0000)),
        Some(PhysAddr::new(0x20_0000))
    );
    assert_eq!(
        translate_addr(&mapper, VirtAddr::new(0x4444_4444_0abc)),
        Some(PhysAddr::new(0x20_0abc))
    );
    assert_eq!(translate_addr(&mapper, VirtAddr::new(0x4444_4444_1000)), None);
    assert_eq!(translate_addr_inner(&mapper, VirtAddr::new(0x4444_4444_1000)), None);
    assert_eq!(
        translate_addr_inner(&mapper, VirtAddr::new(0x4444_4444_0fff)),
        Some(PhysAddr::new(0x20_0fff))
    );
    assert_eq!(
        resolve(&mapper, VirtAddr::new(0x4444_4444_1000)),
        Err(TranslateError::TranslationMiss)
    );
    // Three tables were made, in the first three frames of the allocator.
    assert_eq!(allocator.allocate_frame(), Some(frame(0x10_3000)));
    assert_eq!(mapper.status(page(0x4444_4444_1000)), PageStatus::Mappable { missing: 0 });
    assert_eq!(
        mapper.map_to(target, frame(0x30_0000), flags, &mut allocator),
        Err(MapToError::PageAlreadyMapped(frame(0x30_0000)))
    );
}

#[test]
fn map_fails_without_frames() {
    let mut mapper = init(frame(0x1000), VirtAddr::new(0));
    let mut allocator = EmptyFrameAllocator;
    let r = create_example_mapping(page(0), &mut mapper, &mut allocator);
    assert_eq!(r, Err(MapToError::FrameAllocationFailed));
    assert_eq!(translate_addr(&mapper, VirtAddr::new(0)), None);
}

#[test]
fn example_mapping_points_at_the_text_buffer() {
    let mut mapper = init(frame(0x1000), VirtAddr::new(0));
    let mut allocator =
        BootInfoFrameAllocator::init(vec![region(0x100, 0x110, MemoryRegionType::Usable)]);
    let r = create_example_mapping(page(0), &mut mapper, &mut allocator);
    assert_eq!(r, Ok(MapperFlush { page: page(0) }));
    assert_eq!(translate_addr(&mapper, VirtAddr::new(0x190)), Some(PhysAddr::new(0xb8190)));
}

#[test]
fn a_failed_mapping_keeps_the_tables_it_made() {
    let mut mapper = init(frame(0x1000), VirtAddr::new(0));
    let mut allocator =
        BootInfoFrameAllocator::init(vec![region(0x100, 0x102, MemoryRegionType::Usable)]);
    let flags = PageTableFlags { writable: true, user_accessible: false };
    assert_eq!(
        mapper.map_to(page(0x20_0000), frame(0x5000), flags, &mut allocator),
        Err(MapToError::FrameAllocationFailed)
    );
    assert_eq!(allocator.allocate_frame(), None);
    // Two of the three tables were made.
    assert_eq!(mapper.status(page(0x20_0000)), PageStatus::Mappable { missing: 1 });
    assert_eq!(mapper.status(page(0x20_1000)), PageStatus::Mappable { missing: 1 });
    assert_eq!(translate_addr(&mapper, VirtAddr::new(0x20_0000)), None);
    // A page that shares none of them but the root is where it was.
    assert_eq!(mapper.status(page(0x80_0000_0000)), PageStatus::Mappable { missing: 3 });
}

#[test]
fn a_mapping_leaves_unmapped_pages_unmapped() {
    let mut mapper = init(frame(0x1000), VirtAddr::new(0));
    let mut allocator =
        BootInfoFrameAllocator::init(vec![region(0x100, 0x110, MemoryRegionType::Usable)]);
    let flags = PageTableFlags { writable: true, user_accessible: false };
    assert!(mapper.map_to(page(0x20_0000), frame(0x5000), flags, &mut allocator).is_ok());
    // Under another entry of the root, of the level 3 table, of the level 2
    // table and of the level 1 table.
    for addr in [0x80_0000_0000u64, 0x4000_0000, 0x40_0000, 0x20_1000, 0] {
        assert_eq!(translate_addr(&mapper, VirtAddr::new(addr)), None);
    }
    assert_eq!(mapper.status(page(0x80_0000_0000)), PageStatus::Mappable { missing: 3 });
    assert_eq!(mapper.status(page(0x4000_0000)), PageStatus::Mappable { missing: 2 });
    assert_eq!(mapper.status(page(0x40_0000)), PageStatus::Mappable { missing: 1 });
    assert_eq!(mapper.status(page(0x20_1000)), PageStatus::Mappable { missing: 0 });
}

#[test]
fn huge_entries_are_unsupported() {
    let mut mapper = init(frame(0x1000), VirtAddr::new(0));
    // A level 4 entry that is present and maps a huge frame.
    mapper.set_entry(frame(0x1000), 0, frame(0x4000_0000), 0x83);
    assert_eq!(
        resolve(&mapper, VirtAddr::new(0x1234)),
        Err(TranslateError::UnsupportedMapping)
    );
    assert_eq!(mapper.status(page(0x1000)), PageStatus::HugeParent);
    let mut allocator =
        BootInfoFrameAllocator::init(vec![region(0x100, 0x110, MemoryRegionType::Usable)]);
    let flags = PageTableFlags { writable: false, user_accessible: false };
    assert_eq!(
        mapper.map_to(page(0x1000), frame(0x5000), flags, &mut allocator),
        Err(MapToError::ParentEntryHugePage)
    );
    assert_eq!(allocator.allocate_frame(), Some(frame(0x10_0000)));
}

#[test]
fn tables_are_made_only_where_they_are_missing() {
    let mut mapper = init(frame(0x1000), VirtAddr::new(0));
    let mut allocator =
        BootInfoFrameAllocator::init(vec![region(0x100, 0x110, MemoryRegionType::Usable)]);
    let flags = PageTableFlags { writable: true, user_accessible: true };
    assert!(mapper.map_to(page(0x20_0000), frame(0x5000), flags, &mut allocator).is_ok());
    // The next page shares all three tables.
    assert_eq!(mapper.status(page(0x20_1000)), PageStatus::Mappable { missing: 0 });
    assert!(mapper.map_to(page(0x20_1000), frame(0x6000), flags, &mut allocator).is_ok());
    // A page 2 MiB further on needs a level 1 table of its own.
    assert_eq!(mapper.status(page(0x40_0000)), PageStatus::Mappable { missing: 1 });
    assert!(mapper.map_to(page(0x40_0000), frame(0x7000), flags, &mut allocator).is_ok());
    // A page 1 GiB further on needs a level 2 table too.
    assert_eq!(mapper.status(page(0x4000_0000)), PageStatus::Mappable { missing: 2 });
    assert!(mapper.map_to(page(0x4000_0000), frame(0x8000), flags, &mut allocator).is_ok());
    // 3 + 0 + 1 + 2 frames are gone.
    assert_eq!(allocator.allocate_frame(), Some(frame(0x10_6000)));
    assert_eq!(translate_addr(&mapper, VirtAddr::new(0x20_0001)), Some(PhysAddr::new(0x5001)));
    assert_eq!(translate_addr(&mapper, VirtAddr::new(0x20_1fff)), Some(PhysAddr::new(0x6fff)));
    assert_eq!(translate_addr(&mapper, VirtAddr::new(0x40_0000)), Some(PhysAddr::new(0x7000)));
    assert_eq!(translate_addr(&mapper, VirtAddr::new(0x4000_0010)), Some(PhysAddr::new(0x8010)));
    assert_eq!(translate_addr(&mapper, VirtAddr::new(0x20_2000)), None);
}

#[test]
fn map_fails_when_frames_run_out_half_way() {
    let mut mapper = init(frame(0x1000), VirtAddr::new(0));
    let mut allocator =
        BootInfoFrameAllocator::init(vec![region(0x100, 0x102, MemoryRegionType::Usable)]);
    let flags = PageTableFlags { writable: true, user_accessible: false };
    assert_eq!(
        mapper.map_to(page(0), frame(0x5000), flags, &mut allocator),
        Err(MapToError::FrameAllocationFailed)
    );
    assert_eq!(allocator.allocate_frame(), None);
    // Two of the three tables were made.
    assert_eq!(mapper.status(page(0)), PageStatus::Mappable { missing: 1 });
    assert_eq!(translate_addr(&mapper, VirtAddr::new(0)), None);
}

#[test]
fn entries_lead_to_the_next_table() {
    let mut mapper = init(frame(0x1000), VirtAddr::new(0));
    assert_eq!(mapper.level_4_frame(), frame(0x1000));
    assert_eq!(mapper.phys_offset(), VirtAddr::new(0));
    assert_eq!(mapper.next_frame(frame(0x1000), 5), Err(FrameError::FrameNotPresent));
    mapper.set_entry(frame(0x1000), 5, frame(0x2000), 0x3);
    assert_eq!(mapper.next_frame(frame(0x1000), 5), Ok(frame(0x2000)));
    assert_eq!(mapper.next_frame(frame(0x1000), 4), Err(FrameError::FrameNotPresent));
    assert_eq!(mapper.next_frame(frame(0x1000), 600), Err(FrameError::FrameNotPresent));
    assert_eq!(mapper.next_frame(frame(0x9000), 5), Err(FrameError::FrameNotPresent));
    // An entry that is in use but not present.
    mapper.set_entry(frame(0x1000), 6, frame(0x3000), 0x2);
    assert_eq!(mapper.next_frame(frame(0x1000), 6), Err(FrameError::FrameNotPresent));
    mapper.set_entry(frame(0x1000), 7, frame(0x4000_0000), 0x81);
    assert_eq!(mapper.next_frame(frame(0x1000), 7), Err(FrameError::HugeFrame));
    // Address bits among the flags are dropped.
    mapper.set_entry(frame(0x1000), 8, frame(0x2000), 0xf001);
    assert_eq!(mapper.next_frame(frame(0x1000), 8), Ok(frame(0x2000)));
}

#[test]
fn firmware_tables_are_walked() {
    let mut mapper = init(frame(0x1000), VirtAddr::new(0));
    mapper.set_entry(frame(0x1000), 0, frame(0x2000), 0x3);
    mapper.set_entry(frame(0x2000), 0, frame(0x3000), 0x3);
    mapper.set_entry(frame(0x3000), 1, frame(0x4000), 0x3);
    mapper.set_entry(frame(0x4000), 2, frame(0xb8000), 0x8000_0000_0000_0003);
    assert_eq!(
        translate_addr(&mapper, VirtAddr::new(0x20_2123)),
        Some(PhysAddr::new(0xb8123))
    );
    assert_eq!(mapper.status(page(0x20_2000)), PageStatus::AlreadyMapped);
    assert_eq!(mapper.status(page(0x20_3000)), PageStatus::Mappable { missing: 0 });
    // The level 2 entry maps a huge frame.
    mapper.set_entry(frame(0x3000), 2, frame(0x20_0000), 0x83);
    assert_eq!(
        resolve(&mapper, VirtAddr::new(0x40_0000)),
        Err(TranslateError::UnsupportedMapping)
    );
    assert_eq!(mapper.status(page(0x40_0000)), PageStatus::HugeParent);
}

#[test]
fn a_table_frame_that_is_handed_out_again_is_cleared() {
    // A frame allocator must not hand out a frame that holds a table. Where
    // one does, the table is cleared, as it is by the mapper of the x86_64
    // crate.
    let mut mapper = init(frame(0x1000), VirtAddr::new(0));
    mapper.set_entry(frame(0x1000), 0, frame(0x2000), 0x3);
    mapper.set_entry(frame(0x2000), 0, frame(0x3000), 0x3);
    mapper.set_entry(frame(0x3000), 0, frame(0x10_0000), 0x3);
    mapper.set_entry(frame(0x10_0000), 7, frame(0x9000), 0x3);
    assert_eq!(translate_addr(&mapper, VirtAddr::new(0x7000)), Some(PhysAddr::new(0x9000)));
    let mut allocator =
        BootInfoFrameAllocator::init(vec![region(0x100, 0x110, MemoryRegionType::Usable)]);
    let flags = PageTableFlags { writable: true, user_accessible: false };
    // The level 1 table for this page is made in frame 0x100000.
    assert!(mapper.map_to(page(0x20_0000), frame(0x5000), flags, &mut allocator).is_ok());
    assert_eq!(translate_addr(&mapper, VirtAddr::new(0x7000)), None);
}

#[test]
fn level_4_table_is_visible_at_the_offset() {
    let offset = VirtAddr::new(0xffff_8000_0000_0000);
    assert_eq!(
        active_level_4_table(frame(0x1000), offset),
        Some(VirtAddr::new(0xffff_8000_0000_1000))
    );
    assert_eq!(active_level_4_table(frame(0x1000), VirtAddr::new(0xffff_ffff_ffff_f000)), None);
}

#[test]
fn a_walk_is_driven_step_by_step() {
    let mut mapper = init(frame(0x1000), VirtAddr::new(0));
    let mut allocator =
        BootInfoFrameAllocator::init(vec![region(0x100, 0x110, MemoryRegionType::Usable)]);
    let flags = PageTableFlags { writable: true, user_accessible: false };
    assert!(mapper.map_to(page(0x20_3000), frame(0x5000), flags, &mut allocator).is_ok());
    let addr = VirtAddr::new(0x20_3abc);
    let start = walk_start(frame(0x1000), addr);
    assert_eq!(start, WalkStep::Read { level: Level::Four, table: frame(0x1000), index: 0 });
    let third = walk_next(Level::Four, mapper.next_frame(frame(0x1000), 0), addr);
    assert_eq!(third, WalkStep::Read { level: Level::Three, table: frame(0x10_0000), index: 0 });
    let second = walk_next(Level::Three, mapper.next_frame(frame(0x10_0000), 0), addr);
    assert_eq!(second, WalkStep::Read { level: Level::Two, table: frame(0x10_1000), index: 1 });
    let first = walk_next(Level::Two, mapper.next_frame(frame(0x10_1000), 1), addr);
    assert_eq!(first, WalkStep::Read { level: Level::One, table: frame(0x10_2000), index: 3 });
    let end = walk_next(Level::One, mapper.next_frame(frame(0x10_2000), 3), addr);
    assert_eq!(end, WalkStep::Mapped(PhysAddr::new(0x5abc)));
    // The walk ends where an entry is not present or maps a huge frame.
    assert_eq!(walk_next(Level::Two, Err(FrameError::FrameNotPresent), addr), WalkStep::Unmapped);
    assert_eq!(walk_next(Level::Three, Err(FrameError::HugeFrame), addr), WalkStep::Unsupported);
    assert_eq!(
        walk_next(Level::One, mapper.next_frame(frame(0x10_2000), 4), addr),
        WalkStep::Unmapped
    );
}
