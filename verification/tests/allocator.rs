use nesos::addr::{Page, PhysAddr, PhysFrame, VirtAddr};
use nesos::allocator::{
    heap_pages, init_heap, Block, Dummy, HeapAllocator, HEAP_PAGES, HEAP_SIZE, HEAP_START,
};
use nesos::free_list::{FreeList, FREE_LIST_CAPACITY};
use nesos::memory::{
    init, translate_addr, BootInfoFrameAllocator, EmptyFrameAllocator, FrameRange, MemoryRegion,
    MemoryRegionType,
};
use nesos::paging::{FrameAllocator, MapToError, PageStatus, PageTableFlags};

fn usable(start: u64, end: u64) -> Vec<MemoryRegion> {
    vec![MemoryRegion {
        range: FrameRange { start_frame_number: start, end_frame_number: end },
        region_type: MemoryRegionType::Usable,
    }]
}

fn frame(addr: u64) -> PhysFrame {
    PhysFrame::containing_address(PhysAddr::new(addr))
}

#[test]
fn heap_has_twenty_five_pages() {
    let pages = heap_pages();
    assert_eq!(pages.len() as u64, HEAP_PAGES);
    assert_eq!(pages[0].start_address().as_u64(), HEAP_START);
    assert_eq!(pages[24].start_address().as_u64(), HEAP_START + HEAP_SIZE - 4096);
    for k in 1..pages.len() {
        assert_eq!(
            pages[k].start_address().as_u64(),
            pages[k - 1].start_address().as_u64() + 4096
        );
    }
}

#[test]
fn heap_init_maps_every_page() {
    let mut mapper = init(frame(0x1000), VirtAddr::new(0));
    // 25 frames for the pages and 3 for the tables.
    let mut allocator = BootInfoFrameAllocator::init(usable(0x100, 0x100 + 28));
    let heap = init_heap(&mut mapper, &mut allocator);
    assert!(heap.is_ok());
    // The first page has the first frame, the tables the next three.
    assert_eq!(
        translate_addr(&mapper, VirtAddr::new(HEAP_START)),
        Some(PhysAddr::new(0x10_0000))
    );
    assert_eq!(
        translate_addr(&mapper, VirtAddr::new(HEAP_START + 4096 + 5)),
        Some(PhysAddr::new(0x10_4005))
    );
    assert_eq!(
        translate_addr(&mapper, VirtAddr::new(HEAP_START + HEAP_SIZE - 1)),
        Some(PhysAddr::new(0x10_0000 + 27 * 4096 + 4095))
    );
    assert_eq!(translate_addr(&mapper, VirtAddr::new(HEAP_START + HEAP_SIZE)), None);
    assert_eq!(translate_addr(&mapper, VirtAddr::new(HEAP_START - 1)), None);
    assert_eq!(allocator.allocate_frame(), None);
    let heap = heap.unwrap();
    assert_eq!(heap.free_blocks(), vec![Block { start: HEAP_START, end: HEAP_START + HEAP_SIZE }]);
}

#[test]
fn heap_init_fails_when_frames_run_out() {
    let mut mapper = init(frame(0x1000), VirtAddr::new(0));
    let mut allocator = BootInfoFrameAllocator::init(usable(0x100, 0x100 + 27));
    assert_eq!(init_heap(&mut mapper, &mut allocator).err(), Some(MapToError::FrameAllocationFailed));
    let mut mapper = init(frame(0x1000), VirtAddr::new(0));
    let mut none = EmptyFrameAllocator;
    assert_eq!(init_heap(&mut mapper, &mut none).err(), Some(MapToError::FrameAllocationFailed));
    assert_eq!(translate_addr(&mapper, VirtAddr::new(HEAP_START)), None);
}

#[test]
fn heap_init_refuses_a_page_that_is_mapped() {
    let mut mapper = init(frame(0x1000), VirtAddr::new(0));
    let mut allocator = BootInfoFrameAllocator::init(usable(0x100, 0x200));
    let flags = PageTableFlags { writable: true, user_accessible: false };
    let third = Page::containing_address(VirtAddr::new(HEAP_START + 2 * 4096));
    assert!(mapper.map_to(third, frame(0x5000), flags, &mut allocator).is_ok());
    assert_eq!(
        init_heap(&mut mapper, &mut allocator).err(),
        Some(MapToError::PageAlreadyMapped(frame(0x10_5000)))
    );
}

fn heap_page(k: u64) -> Page {
    Page::containing_address(VirtAddr::new(HEAP_START + k * 4096))
}

#[test]
fn heap_init_without_frames_changes_nothing() {
    let mut mapper = init(frame(0x1000), VirtAddr::new(0));
    let mut none = EmptyFrameAllocator;
    assert_eq!(init_heap(&mut mapper, &mut none).err(), Some(MapToError::FrameAllocationFailed));
    for k in 0..25 {
        assert_eq!(mapper.status(heap_page(k)), PageStatus::Mappable { missing: 3 });
    }
}

#[test]
fn heap_init_that_stops_at_the_tables_leaves_those_it_made() {
    let mut mapper = init(frame(0x1000), VirtAddr::new(0));
    // One frame for the first page and one for the first of three tables.
    let mut allocator = BootInfoFrameAllocator::init(usable(0x100, 0x102));
    assert_eq!(init_heap(&mut mapper, &mut allocator).err(), Some(MapToError::FrameAllocationFailed));
    assert_eq!(allocator.allocate_frame(), None);
    for k in 0..25 {
        assert_eq!(mapper.status(heap_page(k)), PageStatus::Mappable { missing: 2 });
        assert_eq!(translate_addr(&mapper, VirtAddr::new(HEAP_START + k * 4096)), None);
    }
    // A page under another entry of the root is where it was.
    assert_eq!(
        mapper.status(Page::containing_address(VirtAddr::new(0x1000))),
        PageStatus::Mappable { missing: 3 }
    );
}

#[test]
fn heap_init_that_runs_out_keeps_the_pages_it_mapped() {
    let mut mapper = init(frame(0x1000), VirtAddr::new(0));
    // Four frames go to the first page and its tables, one to each of the
    // next six pages.
    let mut allocator = BootInfoFrameAllocator::init(usable(0x100, 0x10a));
    assert_eq!(init_heap(&mut mapper, &mut allocator).err(), Some(MapToError::FrameAllocationFailed));
    assert_eq!(allocator.allocate_frame(), None);
    assert_eq!(
        translate_addr(&mapper, VirtAddr::new(HEAP_START + 7)),
        Some(PhysAddr::new(0x10_0007))
    );
    for k in 1..7 {
        assert_eq!(mapper.status(heap_page(k)), PageStatus::AlreadyMapped);
        assert_eq!(
            translate_addr(&mapper, VirtAddr::new(HEAP_START + k * 4096)),
            Some(PhysAddr::new(0x10_0000 + (k + 3) * 4096))
        );
    }
    for k in 7..25 {
        assert_eq!(mapper.status(heap_page(k)), PageStatus::Mappable { missing: 0 });
        assert_eq!(translate_addr(&mapper, VirtAddr::new(HEAP_START + k * 4096)), None);
    }
}

#[test]
fn heap_init_that_meets_a_mapped_page_has_taken_a_frame_for_it() {
    let mut mapper = init(frame(0x1000), VirtAddr::new(0));
    let mut allocator = BootInfoFrameAllocator::init(usable(0x100, 0x200));
    let flags = PageTableFlags { writable: true, user_accessible: false };
    // Three frames go to the tables.
    assert!(mapper.map_to(heap_page(2), frame(0x5000), flags, &mut allocator).is_ok());
    assert_eq!(
        init_heap(&mut mapper, &mut allocator).err(),
        Some(MapToError::PageAlreadyMapped(frame(0x10_5000)))
    );
    // Two pages were mapped and a frame was taken for the third.
    assert_eq!(translate_addr(&mapper, VirtAddr::new(HEAP_START)), Some(PhysAddr::new(0x10_3000)));
    assert_eq!(
        translate_addr(&mapper, VirtAddr::new(HEAP_START + 4096)),
        Some(PhysAddr::new(0x10_4000))
    );
    assert_eq!(
        translate_addr(&mapper, VirtAddr::new(HEAP_START + 2 * 4096)),
        Some(PhysAddr::new(0x5000))
    );
    assert_eq!(allocator.allocate_frame(), Some(frame(0x10_6000)));
    for k in 3..25 {
        assert_eq!(mapper.status(heap_page(k)), PageStatus::Mappable { missing: 0 });
    }
}

#[test]
fn freed_block_is_reused_when_heap_is_full() {
    let mut heap = HeapAllocator::init(0x1000, 128);
    let first = heap.allocate(64, 8);
    let second = heap.allocate(64, 8);
    assert_eq!(first, Some(0x1000));
    assert_eq!(second, Some(0x1040));
    assert_eq!(heap.allocate(64, 8), None);
    assert_eq!(heap.allocate(1, 1), None);
    assert!(heap.deallocate(0x1000, 64, 8));
    assert_eq!(heap.allocate(64, 8), Some(0x1000));
    assert_eq!(heap.allocate(1, 1), None);
}

#[test]
fn allocation_is_first_fit_and_aligned() {
    let mut heap = HeapAllocator::init(0x1001, 0x1000);
    assert_eq!(heap.allocate(16, 16), Some(0x1010));
    // The bytes before the aligned block stay free.
    assert_eq!(heap.allocate(15, 1), Some(0x1001));
    assert_eq!(heap.allocate(1, 1), Some(0x1020));
    assert_eq!(heap.allocate(0x100, 0x100), Some(0x1100));
    assert_eq!(
        heap.free_blocks(),
        vec![Block { start: 0x1021, end: 0x1100 }, Block { start: 0x1200, end: 0x2001 }]
    );
    assert_eq!(heap.allocate(0, 8), None);
    assert_eq!(heap.allocate(8, 0), None);
    assert_eq!(heap.allocate(0x1000, 1), None);
}

#[test]
fn freed_neighbours_are_merged() {
    let mut heap = HeapAllocator::init(0, 96);
    assert_eq!(heap.allocate(32, 1), Some(0));
    assert_eq!(heap.allocate(32, 1), Some(32));
    assert_eq!(heap.allocate(32, 1), Some(64));
    assert!(heap.free_blocks().is_empty());
    assert!(heap.deallocate(0, 32, 1));
    assert!(heap.deallocate(64, 32, 1));
    assert_eq!(heap.free_blocks(), vec![Block { start: 0, end: 32 }, Block { start: 64, end: 96 }]);
    // No run of 64 bytes is free yet.
    assert_eq!(heap.allocate(64, 1), None);
    assert!(heap.deallocate(32, 32, 1));
    assert_eq!(heap.free_blocks(), vec![Block { start: 0, end: 96 }]);
    assert_eq!(heap.allocate(96, 1), Some(0));
}

#[test]
fn bad_frees_change_nothing() {
    let mut heap = HeapAllocator::init(0x100, 0x100);
    assert_eq!(heap.allocate(0x40, 0x40), Some(0x100));
    // Free bytes, bytes outside the heap, an empty block, a misaligned block.
    assert!(!heap.deallocate(0x140, 0x10, 1));
    assert!(!heap.deallocate(0x130, 0x20, 1));
    assert!(!heap.deallocate(0xf0, 0x20, 1));
    assert!(!heap.deallocate(0x100, 0, 1));
    assert!(!heap.deallocate(0x101, 4, 2));
    assert!(!heap.deallocate(0x1f0, 0x20, 1));
    assert!(!heap.deallocate(u64::MAX, 2, 1));
    assert_eq!(heap.free_blocks(), vec![Block { start: 0x140, end: 0x200 }]);
    // A part of what was served can be given back.
    assert!(heap.deallocate(0x110, 0x10, 0x10));
    assert_eq!(
        heap.free_blocks(),
        vec![Block { start: 0x110, end: 0x120 }, Block { start: 0x140, end: 0x200 }]
    );
    assert!(!heap.deallocate(0x110, 0x10, 0x10));
}

#[test]
fn dummy_serves_nothing() {
    assert_eq!(Dummy.allocate(64, 8), None);
}

#[test]
fn free_list_keeps_its_blocks_in_place() {
    let mut list = FreeList::new();
    assert_eq!(list.len(), 0);
    assert!(!list.is_full());
    list.insert(0, Block { start: 10, end: 20 });
    list.insert(1, Block { start: 50, end: 60 });
    list.insert(1, Block { start: 30, end: 40 });
    list.insert(0, Block { start: 1, end: 2 });
    assert_eq!(list.len(), 4);
    assert_eq!(list.get(0), Block { start: 1, end: 2 });
    assert_eq!(list.get(1), Block { start: 10, end: 20 });
    assert_eq!(list.get(2), Block { start: 30, end: 40 });
    assert_eq!(list.get(3), Block { start: 50, end: 60 });
    list.set(2, Block { start: 31, end: 39 });
    assert_eq!(list.remove(1), Block { start: 10, end: 20 });
    assert_eq!(list.len(), 3);
    assert_eq!(list.get(0), Block { start: 1, end: 2 });
    assert_eq!(list.get(1), Block { start: 31, end: 39 });
    assert_eq!(list.get(2), Block { start: 50, end: 60 });
    assert_eq!(list.remove(2), Block { start: 50, end: 60 });
    assert_eq!(list.remove(0), Block { start: 1, end: 2 });
    assert_eq!(list.len(), 1);
    assert_eq!(list.get(0), Block { start: 31, end: 39 });
}

#[test]
fn free_list_fills_its_store() {
    let mut list = FreeList::new();
    for k in 0..FREE_LIST_CAPACITY as u64 {
        assert!(!list.is_full());
        list.insert(0, Block { start: k, end: k + 1 });
    }
    assert!(list.is_full());
    assert_eq!(list.len(), FREE_LIST_CAPACITY);
    assert_eq!(list.get(0), Block { start: 1023, end: 1024 });
    assert_eq!(list.get(1023), Block { start: 0, end: 1 });
    assert_eq!(list.remove(1023), Block { start: 0, end: 1 });
    assert!(!list.is_full());
}

#[test]
fn a_full_allocator_takes_back_only_what_joins_free_bytes() {
    let mut heap = HeapAllocator::init(0x1000, 0x3000);
    for k in 0..2050u64 {
        assert_eq!(heap.allocate(1, 1), Some(0x1000 + k));
    }
    // Every second byte comes back as a run of its own, until the runs and
    // the rest of the heap fill the allocator's store.
    for k in 0..1023u64 {
        assert!(heap.deallocate(0x1000 + 2 * k + 1, 1, 1));
    }
    assert_eq!(heap.free_blocks().len(), FREE_LIST_CAPACITY);
    // A byte between two bytes in use has no run to join.
    assert!(!heap.deallocate(0x1000 + 2 * 1023 + 1, 1, 1));
    assert_eq!(heap.free_blocks().len(), FREE_LIST_CAPACITY);
    // A byte next to a free byte joins its run.
    assert!(heap.deallocate(0x1000, 1, 1));
    assert_eq!(heap.free_blocks()[0], Block { start: 0x1000, end: 0x1002 });
    // A byte between two free bytes makes one run of two.
    assert!(heap.deallocate(0x1002, 1, 1));
    assert_eq!(heap.free_blocks()[0], Block { start: 0x1000, end: 0x1004 });
    assert_eq!(heap.free_blocks().len(), FREE_LIST_CAPACITY - 1);
    // Now there is room for the byte that was refused.
    assert!(heap.deallocate(0x1000 + 2 * 1023 + 1, 1, 1));
}

#[test]
fn a_full_allocator_serves_nothing_from_the_middle_of_a_run() {
    let mut heap = HeapAllocator::init(0x1000, 0x3000);
    for k in 0..2050u64 {
        assert_eq!(heap.allocate(1, 1), Some(0x1000 + k));
    }
    for k in 0..1023u64 {
        assert!(heap.deallocate(0x1000 + 2 * k + 1, 1, 1));
    }
    let before = heap.free_blocks();
    assert_eq!(before.len(), FREE_LIST_CAPACITY);
    // The lowest address that is a multiple of 0x1000 with a free byte lies
    // within the last run, with free bytes on both sides.
    assert_eq!(heap.allocate(1, 0x1000), None);
    assert_eq!(heap.free_blocks(), before);
    // A run that is served whole leaves room.
    assert_eq!(heap.allocate(1, 1), Some(0x1001));
    assert_eq!(heap.allocate(1, 0x1000), Some(0x2000));
    assert_eq!(heap.free_blocks().len(), FREE_LIST_CAPACITY);
}
