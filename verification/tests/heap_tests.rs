use kernel_mm::heap::{
    initialize_heap, HeapInitError, PageFlags, PageTable, HEAP_PAGE_COUNT, HEAP_SIZE, HEAP_START,
};
use kernel_mm::heap_allocator::{HeapAllocator, HeapError};
use kernel_mm::frame_allocator::BitmapFrameAllocator;
use kernel_mm::region::{MemoryRegion, RegionKind};

fn usable(base_address: u64, length: u64) -> MemoryRegion {
    MemoryRegion { base_address, length, kind: RegionKind::Usable }
}

#[test]
fn heap_allocate_respects_alignment_and_start() {
    let mut h = HeapAllocator::empty();
    assert_eq!(h.initialize(4096, 1024), Ok(()));
    assert_eq!(h.allocate(100, 8), Ok(4096));
    assert_eq!(h.allocate(100, 256), Ok(4352));
}

#[test]
fn heap_rejects_second_initialization() {
    let mut h = HeapAllocator::empty();
    assert_eq!(h.initialize(4096, 1024), Ok(()));
    let a = h.allocate(64, 8).unwrap();
    assert_eq!(h.initialize(8192, 2048), Err(HeapError::AlreadyInitialized));
    // The rejected call corrupted nothing: the next allocation still comes
    // from the first range and misses the live one.
    let b = h.allocate(64, 8).unwrap();
    assert!(4096 <= b && b + 64 <= 4096 + 1024);
    assert!(a + 64 <= b || b + 64 <= a);
}

#[test]
fn heap_reports_out_of_memory() {
    let mut h = HeapAllocator::empty();
    assert_eq!(h.initialize(0x1000, 256), Ok(()));
    assert_eq!(h.allocate(512, 1), Err(HeapError::OutOfMemory));
    assert_eq!(h.allocate(256, 1), Ok(0x1000));
    assert_eq!(h.allocate(1, 1), Err(HeapError::OutOfMemory));
}

#[test]
fn heap_allocate_before_initialize_fails() {
    let mut h = HeapAllocator::empty();
    assert_eq!(h.allocate(16, 1), Err(HeapError::OutOfMemory));
}

#[test]
fn heap_reuses_deallocated_space() {
    let mut h = HeapAllocator::empty();
    assert_eq!(h.initialize(0x2000, 1024), Ok(()));
    assert_eq!(h.allocate(1024, 1), Ok(0x2000));
    assert_eq!(h.allocate(1, 1), Err(HeapError::OutOfMemory));
    h.deallocate(0x2000, 1024);
    assert_eq!(h.allocate(512, 1), Ok(0x2000));
}

#[test]
fn heap_live_allocations_never_overlap() {
    let mut h = HeapAllocator::empty();
    assert_eq!(h.initialize(0x8000, 4096), Ok(()));
    let mut live: Vec<(usize, usize)> = Vec::new();
    for &(size, align) in &[(100usize, 8usize), (33, 1), (256, 128), (1, 64), (500, 4)] {
        let a = h.allocate(size, align).unwrap();
        assert_eq!(a % align, 0);
        assert!(0x8000 <= a && a + size <= 0x8000 + 4096);
        for &(la, ls) in &live {
            assert!(a + size <= la || la + ls <= a);
        }
        live.push((a, size));
    }
    // Free one in the middle and allocate again: still no overlap.
    let (fa, fs) = live.remove(2);
    h.deallocate(fa, fs);
    let a = h.allocate(64, 32).unwrap();
    for &(la, ls) in &live {
        assert!(a + 64 <= la || la + ls <= a);
    }
}

#[test]
fn page_table_rejects_remapping() {
    let mut pt = PageTable::new(4);
    let flags = PageFlags { present: true, writable: true };
    assert!(pt.map_to(2, 7, flags).is_ok());
    assert!(pt.map_to(2, 9, flags).is_err());
    let e = pt.translate(2).unwrap();
    assert_eq!(e.frame, 7);
    assert!(pt.translate(0).is_none());
}

#[test]
fn initialize_heap_maps_every_page_and_starts_the_heap() {
    let frames_needed = HEAP_PAGE_COUNT as u64;
    let map = vec![usable(0, 4096 * (frames_needed + 10))];
    let mut fa = BitmapFrameAllocator::initialize_frame_allocator(&map);
    let mut pt = PageTable::new(HEAP_PAGE_COUNT);
    let mut heap = HeapAllocator::empty();
    assert_eq!(initialize_heap(&mut fa, &mut pt, &mut heap), Ok(()));
    for p in 0..HEAP_PAGE_COUNT {
        let e = pt.translate(p).expect("page must be mapped");
        assert!(e.flags.present && e.flags.writable);
        // First-fit over a map whose frames all start free: page p gets
        // exactly frame p.
        assert_eq!(e.frame, p);
    }
    // The heap allocator now serves from [HEAP_START, HEAP_START + HEAP_SIZE).
    assert_eq!(heap.allocate(16, 8), Ok(HEAP_START));
    assert_eq!(heap.initialize(HEAP_START, HEAP_SIZE), Err(HeapError::AlreadyInitialized));
}

#[test]
fn partial_mapping_stays_after_frame_exhaustion() {
    // Exactly 100 free frames for a 256-page heap: mapping page 100 fails.
    let map = vec![usable(0, 4096 * 100)];
    let mut fa = BitmapFrameAllocator::initialize_frame_allocator(&map);
    let mut pt = PageTable::new(HEAP_PAGE_COUNT);
    let mut heap = HeapAllocator::empty();
    assert_eq!(
        initialize_heap(&mut fa, &mut pt, &mut heap),
        Err(HeapInitError::FrameAllocationFailed)
    );
    for p in 0..100 {
        assert!(pt.translate(p).is_some(), "page {} must stay mapped", p);
    }
    for p in 100..HEAP_PAGE_COUNT {
        assert!(pt.translate(p).is_none(), "page {} must stay unmapped", p);
    }
    // The heap was never handed the range.
    assert_eq!(heap.allocate(16, 1), Err(HeapError::OutOfMemory));
}

#[test]
fn premapped_page_makes_initialization_fail() {
    let map = vec![usable(0, 4096 * 1000)];
    let mut fa = BitmapFrameAllocator::initialize_frame_allocator(&map);
    let mut pt = PageTable::new(HEAP_PAGE_COUNT);
    let flags = PageFlags { present: true, writable: false };
    pt.map_to(3, 999, flags).unwrap();
    let mut heap = HeapAllocator::empty();
    assert_eq!(
        initialize_heap(&mut fa, &mut pt, &mut heap),
        Err(HeapInitError::MappingFailed)
    );
    for p in 0..3 {
        assert!(pt.translate(p).is_some());
    }
    assert_eq!(pt.translate(3).unwrap().frame, 999);
    for p in 4..HEAP_PAGE_COUNT {
        assert!(pt.translate(p).is_none());
    }
}
