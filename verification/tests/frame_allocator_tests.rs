use kernel_mm::frame_allocator::{BitmapFrameAllocator, FrameError};
use kernel_mm::region::{Frame, MemoryRegion, RegionKind};

fn usable(base_address: u64, length: u64) -> MemoryRegion {
    MemoryRegion { base_address, length, kind: RegionKind::Usable }
}

fn reserved(base_address: u64, length: u64) -> MemoryRegion {
    MemoryRegion { base_address, length, kind: RegionKind::Reserved }
}

#[test]
fn first_fit_returns_lowest_usable_frame() {
    let map = vec![usable(8192, 8192)];
    let mut fa = BitmapFrameAllocator::initialize_frame_allocator(&map);
    assert_eq!(fa.allocate_frame(), Some(Frame { index: 2 }));
    assert_eq!(fa.allocate_frame(), Some(Frame { index: 3 }));
    assert_eq!(fa.allocate_frame(), None);
}

#[test]
fn no_double_allocation_without_deallocate() {
    let map = vec![usable(0, 4096 * 8)];
    let mut fa = BitmapFrameAllocator::initialize_frame_allocator(&map);
    let a = fa.allocate_frame().unwrap();
    let b = fa.allocate_frame().unwrap();
    let c = fa.allocate_frame().unwrap();
    assert_ne!(a.index, b.index);
    assert_ne!(a.index, c.index);
    assert_ne!(b.index, c.index);
}

#[test]
fn allocations_stay_inside_usable_regions() {
    let map = vec![reserved(0, 4096 * 4), usable(4096 * 4, 4096 * 3), reserved(4096 * 7, 4096)];
    let mut fa = BitmapFrameAllocator::initialize_frame_allocator(&map);
    for _ in 0..3 {
        let f = fa.allocate_frame().unwrap();
        assert!(4 <= f.index && f.index < 7);
    }
    assert_eq!(fa.allocate_frame(), None);
}

#[test]
fn lowest_free_first_after_deallocate() {
    let map = vec![usable(0, 4096 * 8)];
    let mut fa = BitmapFrameAllocator::initialize_frame_allocator(&map);
    for expected in 0..5 {
        assert_eq!(fa.allocate_frame(), Some(Frame { index: expected }));
    }
    // Frame 1 becomes the lowest-indexed free frame (below 5, 6, 7).
    fa.deallocate_frame(Frame { index: 1 }).unwrap();
    assert_eq!(fa.allocate_frame(), Some(Frame { index: 1 }));
    assert_eq!(fa.allocate_frame(), Some(Frame { index: 5 }));
}

#[test]
fn exhaustion_determinism_over_4096_frames() {
    let map = vec![usable(0, 4096 * 4096)];
    let mut fa = BitmapFrameAllocator::initialize_frame_allocator(&map);
    for expected in 0..4096 {
        assert_eq!(fa.allocate_frame(), Some(Frame { index: expected }));
    }
    assert_eq!(fa.allocate_frame(), None);
    // The failed call left the bitmap unchanged: still exhausted, and a
    // single deallocation is followed by exactly that frame again.
    assert_eq!(fa.allocate_frame(), None);
    fa.deallocate_frame(Frame { index: 123 }).unwrap();
    assert_eq!(fa.allocate_frame(), Some(Frame { index: 123 }));
}

#[test]
fn deallocate_rejects_double_free() {
    let map = vec![usable(0, 4096 * 2)];
    let mut fa = BitmapFrameAllocator::initialize_frame_allocator(&map);
    let f = fa.allocate_frame().unwrap();
    assert_eq!(fa.deallocate_frame(f), Ok(()));
    assert_eq!(fa.deallocate_frame(f), Err(FrameError::DoubleFree));
}

#[test]
fn deallocate_rejects_unusable_frames() {
    let map = vec![reserved(0, 4096 * 2), usable(4096 * 2, 4096 * 2)];
    let mut fa = BitmapFrameAllocator::initialize_frame_allocator(&map);
    // Frame 0 is reserved; frame 1000 is beyond the bitmap.
    assert_eq!(
        fa.deallocate_frame(Frame { index: 0 }),
        Err(FrameError::InvalidFrameRelease)
    );
    assert_eq!(
        fa.deallocate_frame(Frame { index: 1000 }),
        Err(FrameError::InvalidFrameRelease)
    );
}

#[test]
fn reserved_regions_free_no_frames() {
    // The only nonempty usable region is a sliver too short to cover any
    // full frame, so nothing becomes allocatable.
    let map = vec![reserved(0, 4096 * 16), usable(4096 * 16, 1)];
    let mut fa = BitmapFrameAllocator::initialize_frame_allocator(&map);
    assert_eq!(fa.allocate_frame(), None);
}

#[test]
fn highest_address_is_last_usable_frame_address() {
    // The last frame-stepped address inside a usable region, not its end:
    // one region [0, 8192) tops out at 4096.
    let map = vec![usable(0, 8192)];
    assert_eq!(BitmapFrameAllocator::get_highest_phys_address(&map), 4096);
    let map = vec![usable(0, 4096), reserved(4096 * 100, 4096 * 100), usable(4096 * 8, 4096 * 2)];
    assert_eq!(BitmapFrameAllocator::get_highest_phys_address(&map), 4096 * 9);
}

#[test]
fn install_into_fresh_bitmap_marks_frames_free() {
    let mut fa = BitmapFrameAllocator::new(8);
    assert_eq!(fa.allocate_frame(), None);
    fa.install_memory_region(&usable(4096 * 5, 4096));
    assert_eq!(fa.allocate_frame(), Some(Frame { index: 5 }));
    assert_eq!(fa.allocate_frame(), None);
}
