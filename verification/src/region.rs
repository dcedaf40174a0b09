//! The boot memory map: physical regions tagged usable or reserved, and the
//! frames they cover.

use vstd::prelude::*;

verus! {

/// Size in bytes of one physical frame, and of one virtual page.
pub const FRAME_SIZE: u64 = 4096;

/// Usability tag of one region of the boot memory map.
#[derive(Clone, Copy, PartialEq, Eq, Structural, Debug)]
pub enum RegionKind {
    Usable,
    Reserved,
}

/// One entry of the boot memory map, supplied once before the kernel takes
/// control and never mutated.
#[derive(Clone, Copy, PartialEq, Eq, Structural, Debug)]
pub struct MemoryRegion {
    pub base_address: u64,
    pub length: u64,
    pub kind: RegionKind,
}

impl MemoryRegion {
    /// Exclusive end address of the region.
    pub open spec fn end_address(self) -> int {
        self.base_address + self.length
    }

    /// Index of the first frame the region covers.
    pub open spec fn first_frame(self) -> int {
        self.base_address as int / FRAME_SIZE as int
    }

    /// One past the index of the last frame the region covers: the covered
    /// frame indices are exactly [first_frame, end_frame).
    pub open spec fn end_frame(self) -> int {
        self.end_address() / FRAME_SIZE as int
    }

    /// The region is usable and frame `i` lies inside it.
    pub open spec fn covers_frame(self, i: int) -> bool {
        self.kind == RegionKind::Usable && self.first_frame() <= i < self.end_frame()
    }
}

/// Frame `i` lies inside some usable region of the given memory map.
pub open spec fn frame_in_usable_region(regions: Seq<MemoryRegion>, i: int) -> bool {
    exists|k: int| 0 <= k < regions.len() && #[trigger] regions[k].covers_frame(i)
}

/// A physical frame, identified by its index: the frame's bytes are
/// [index * FRAME_SIZE, (index + 1) * FRAME_SIZE).
#[derive(Clone, Copy, PartialEq, Eq, Structural, Debug)]
pub struct Frame {
    pub index: usize,
}

impl Frame {
    /// Physical address of the frame's first byte.
    pub fn start_address(&self) -> (a: u64)
        requires
            self.index * FRAME_SIZE <= u64::MAX,
        ensures
            a == self.index * FRAME_SIZE,
    {
        (self.index as u64) * FRAME_SIZE
    }
}

} // verus!
