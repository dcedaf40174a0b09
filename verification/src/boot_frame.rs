//! The boot-info frame allocator: a bump allocator over the usable frames of
//! the boot memory map, used before the bitmap allocator exists. It never
//! reclaims frames: each allocation hands out the next usable frame address
//! in memory-map order.

use vstd::prelude::*;

use vstd::arithmetic::div_mod::{lemma_div_nonincreasing, lemma_fundamental_div_mod, lemma_mod_bound};
use vstd::arithmetic::mul::lemma_mul_inequality;

use crate::region::{MemoryRegion, RegionKind, FRAME_SIZE};

verus! {

/// Number of frame-aligned step addresses inside the region: the addresses
/// base, base + FRAME_SIZE, ... that lie below base + length.
pub open spec fn region_frame_count(r: MemoryRegion) -> int {
    if r.length == 0 {
        0
    } else {
        (r.length - 1) / (FRAME_SIZE as int) + 1
    }
}

/// Those step addresses, in ascending order.
pub open spec fn region_frame_addrs(r: MemoryRegion) -> Seq<u64> {
    Seq::new(region_frame_count(r) as nat, |k: int| (r.base_address + k * FRAME_SIZE) as u64)
}

/// Every usable frame address of the memory map: the step addresses of each
/// usable region, in memory-map order.
pub open spec fn usable_frame_addrs(regions: Seq<MemoryRegion>) -> Seq<u64>
    decreases regions.len(),
{
    if regions.len() == 0 {
        Seq::empty()
    } else {
        usable_frame_addrs(regions.drop_last()) + if regions.last().kind == RegionKind::Usable {
            region_frame_addrs(regions.last())
        } else {
            Seq::empty()
        }
    }
}

/// Hands out the usable frames of the boot memory map one after another, in
/// ascending address order within each region.
pub struct BootInfoFrameAllocator {
    memory_map: Vec<MemoryRegion>,
    next: usize,
}

impl BootInfoFrameAllocator {
    /// The boot memory map this allocator walks.
    pub closed spec fn regions(self) -> Seq<MemoryRegion> {
        self.memory_map@
    }

    /// How many allocations were attempted so far.
    pub closed spec fn next_pos(self) -> int {
        self.next as int
    }

    /// Machine limits: no region of the map wraps the address space, and
    /// the walk position is a count.
    pub open spec fn wf(self) -> bool {
        &&& 0 <= self.next_pos()
        &&& forall|k: int|
            0 <= k < self.regions().len() ==> (#[trigger] self.regions()[k]).end_address()
                <= u64::MAX
    }

    /// Wraps the boot memory map, with no frame handed out yet.
    pub fn initialize(memory_map: Vec<MemoryRegion>) -> (r: Self)
        requires
            forall|k: int|
                0 <= k < memory_map@.len() ==> (#[trigger] memory_map@[k]).end_address()
                    <= u64::MAX,
        ensures
            r.wf(),
            r.regions() == memory_map@,
            r.next_pos() == 0,
    {
        BootInfoFrameAllocator { memory_map, next: 0 }
    }

    /// All usable frame addresses of the memory map, in the order this
    /// allocator hands them out.
    pub fn find_usable_region(&self) -> (v: Vec<u64>)
        requires
            self.wf(),
        ensures
            v@ == usable_frame_addrs(self.regions()),
    {
        let mut v: Vec<u64> = Vec::new();
        let mut k: usize = 0;
        proof {
            assert(v@ =~= usable_frame_addrs(self.regions().subrange(0, 0)));
        }
        while k < self.memory_map.len()
            invariant
                self.wf(),
                k <= self.regions().len(),
                v@ == usable_frame_addrs(self.regions().subrange(0, k as int)),
            decreases self.regions().len() - k,
        {
            let region = self.memory_map[k];
            proof {
                assert(self.regions()[k as int].end_address() <= u64::MAX);
                assert(self.regions().subrange(0, k + 1).drop_last() =~= self.regions().subrange(
                    0,
                    k as int,
                ));
                assert(self.regions().subrange(0, k + 1).last() == region);
            }
            if region.kind == RegionKind::Usable && region.length > 0 {
                proof {
                    lemma_div_nonincreasing(region.length as int - 1, FRAME_SIZE as int);
                }
                let count: u64 = (region.length - 1) / FRAME_SIZE + 1;
                let ghost before = v@;
                let mut j: u64 = 0;
                proof {
                    assert(v@ =~= before + region_frame_addrs(region).subrange(0, 0));
                }
                while j < count
                    invariant
                        region.length > 0,
                        region.end_address() <= u64::MAX,
                        count == region_frame_count(region),
                        j <= count,
                        v@ == before + region_frame_addrs(region).subrange(0, j as int),
                    decreases count - j,
                {
                    proof {
                        lemma_fundamental_div_mod(region.length as int - 1, FRAME_SIZE as int);
                        lemma_mod_bound(region.length as int - 1, FRAME_SIZE as int);
                        lemma_mul_inequality(j as int, count - 1, FRAME_SIZE as int);
                        assert((count - 1) * (FRAME_SIZE as int) == (FRAME_SIZE as int) * (count
                            - 1)) by (nonlinear_arith);
                        assert(j as int * (FRAME_SIZE as int) <= region.length - 1);
                    }
                    v.push(region.base_address + j * FRAME_SIZE);
                    proof {
                        assert(region_frame_addrs(region).subrange(0, j + 1).drop_last()
                            =~= region_frame_addrs(region).subrange(0, j as int));
                        assert(region_frame_addrs(region).subrange(0, j + 1).last()
                            == region_frame_addrs(region)[j as int]);
                        assert(v@ =~= before + region_frame_addrs(region).subrange(0, j + 1));
                    }
                    j = j + 1;
                }
                proof {
                    assert(region_frame_addrs(region).subrange(0, count as int)
                        =~= region_frame_addrs(region));
                    assert(v@ =~= usable_frame_addrs(self.regions().subrange(0, k + 1)));
                }
            } else {
                proof {
                    if region.kind == RegionKind::Usable {
                        assert(region_frame_addrs(region) =~= Seq::<u64>::empty());
                    }
                    assert(v@ =~= usable_frame_addrs(self.regions().subrange(0, k + 1)));
                }
            }
            k = k + 1;
        }
        proof {
            assert(self.regions().subrange(0, self.regions().len() as int) =~= self.regions());
        }
        v
    }

    /// Returns the next usable frame address, in memory-map order, or
    /// `None` once every usable frame was handed out; either way the
    /// position advances.
    pub fn allocate_frame(&mut self) -> (r: Option<u64>)
        requires
            old(self).wf(),
            old(self).next_pos() < usize::MAX,
        ensures
            final(self).wf(),
            final(self).regions() == old(self).regions(),
            final(self).next_pos() == old(self).next_pos() + 1,
            old(self).next_pos() < usable_frame_addrs(old(self).regions()).len() ==> r == Some(
                usable_frame_addrs(old(self).regions())[old(self).next_pos()],
            ),
            old(self).next_pos() >= usable_frame_addrs(old(self).regions()).len() ==> r is None,
    {
        let addrs = self.find_usable_region();
        let r = if self.next < addrs.len() {
            Some(addrs[self.next])
        } else {
            None
        };
        self.next = self.next + 1;
        r
    }
}

} // verus!
