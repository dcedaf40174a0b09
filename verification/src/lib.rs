//! Memory-management core of a freestanding kernel: a bitmap allocator for
//! physical page frames, a model of the heap's slice of the page table, the
//! heap-region initializer that wires the two together, and a free-list heap
//! allocator over the mapped virtual range.

pub mod bits;
pub mod boot_frame;
pub mod frame_allocator;
pub mod heap;
pub mod heap_allocator;
pub mod pci;
pub mod region;
