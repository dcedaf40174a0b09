//! The frame allocator: a bitmap with one bit per physical frame, bit set
//! meaning "currently free and allocatable". A second bitmap records which
//! frames some installed usable region covers, so that an invalid release can
//! be detected at run time.

use vstd::prelude::*;

use vstd::arithmetic::div_mod::{
    lemma_div_is_ordered, lemma_fundamental_div_mod, lemma_fundamental_div_mod_converse,
    lemma_mod_bound, lemma_small_mod,
};

use crate::bits::{bit_vec_view, bits_from_elem, bits_get, bits_len, bits_set};
use crate::region::{frame_in_usable_region, Frame, MemoryRegion, RegionKind, FRAME_SIZE};

verus! {

/// Highest frame-stepped address inside the region: the largest
/// base_address + FRAME_SIZE * k that lies below the region's end.
/// Meaningful only when the region is not empty.
pub open spec fn region_top_addr(r: MemoryRegion) -> int {
    r.base_address + (FRAME_SIZE as int) * ((r.length - 1) / (FRAME_SIZE as int))
}

/// Highest frame-stepped address inside any usable region of a memory map,
/// or -1 when no usable region holds an address.
pub open spec fn max_usable_addr(regions: Seq<MemoryRegion>) -> int
    decreases regions.len(),
{
    if regions.len() == 0 {
        -1
    } else {
        let prev = max_usable_addr(regions.drop_last());
        let last_top = if regions.last().kind == RegionKind::Usable && regions.last().length > 0 {
            region_top_addr(regions.last())
        } else {
            -1
        };
        if last_top > prev {
            last_top
        } else {
            prev
        }
    }
}

/// Some usable region of the map holds at least one address.
pub open spec fn has_usable_addr(regions: Seq<MemoryRegion>) -> bool {
    exists|k: int|
        0 <= k < regions.len() && (#[trigger] regions[k]).kind == RegionKind::Usable
            && regions[k].length > 0
}

/// The stepped address of a nonempty region lies inside it, within one
/// frame of its end, and bounds the region's frame span.
pub proof fn lemma_region_top_addr(r: MemoryRegion)
    requires
        r.length > 0,
    ensures
        r.base_address <= region_top_addr(r),
        r.end_address() - FRAME_SIZE <= region_top_addr(r) < r.end_address(),
        r.end_frame() <= region_top_addr(r) / (FRAME_SIZE as int) + 1,
{
    let f = FRAME_SIZE as int;
    let x = r.length - 1;
    lemma_fundamental_div_mod(x, f);
    lemma_mod_bound(x, f);
    if x < f {
        lemma_small_mod(x as nat, f as nat);
    }
    let top = region_top_addr(r);
    lemma_fundamental_div_mod(top, f);
    lemma_mod_bound(top, f);
    lemma_fundamental_div_mod_converse(top + f, f, top / f + 1, top % f);
    lemma_div_is_ordered(r.end_address(), top + f, f);
}

/// The stepped address of every nonempty usable region is bounded by the
/// map's maximum.
pub proof fn lemma_max_usable_addr_bound(regions: Seq<MemoryRegion>, k: int)
    requires
        0 <= k < regions.len(),
        regions[k].kind == RegionKind::Usable,
        regions[k].length > 0,
    ensures
        region_top_addr(regions[k]) <= max_usable_addr(regions),
    decreases regions.len(),
{
    if k < regions.len() - 1 {
        lemma_max_usable_addr_bound(regions.drop_last(), k);
    }
}

/// Appending a region to a memory map extends frame coverage by exactly the
/// frames the new region covers.
pub proof fn lemma_usable_push(
    regions: Seq<MemoryRegion>,
    region: MemoryRegion,
    i: int,
)
    ensures
        frame_in_usable_region(regions.push(region), i) <==> (frame_in_usable_region(regions, i)
            || region.covers_frame(i)),
{
    let pushed = regions.push(region);
    if frame_in_usable_region(pushed, i) {
        let k = choose|k: int| 0 <= k < pushed.len() && #[trigger] pushed[k].covers_frame(i);
        if k < regions.len() {
            assert(pushed[k] == regions[k]);
            assert(regions[k].covers_frame(i));
        } else {
            assert(pushed[k] == region);
        }
    }
    if frame_in_usable_region(regions, i) {
        let k = choose|k: int| 0 <= k < regions.len() && #[trigger] regions[k].covers_frame(i);
        assert(pushed[k] == regions[k]);
        assert(pushed[k].covers_frame(i));
    }
    if region.covers_frame(i) {
        assert(pushed[regions.len() as int].covers_frame(i));
    }
}

/// Rejection of a frame release, detected at run time.
#[derive(Clone, Copy, PartialEq, Eq, Structural, Debug)]
pub enum FrameError {
    /// The frame lies outside every installed usable region.
    InvalidFrameRelease,
    /// The frame is already free.
    DoubleFree,
}

/// Bit `i` is set and every lower bit is clear: frame `i` is the one a
/// first-fit scan of the bitmap finds.
pub open spec fn is_lowest_free(bits: Seq<bool>, i: int) -> bool {
    &&& 0 <= i < bits.len()
    &&& bits[i]
    &&& forall|j: int| 0 <= j < i ==> !bits[j]
}

/// Number of set bits: how many frames are currently free.
pub open spec fn count_free(bits: Seq<bool>) -> nat
    decreases bits.len(),
{
    if bits.len() == 0 {
        0
    } else {
        count_free(bits.drop_last()) + if bits.last() { 1nat } else { 0nat }
    }
}

/// Index of the first set bit at or after `from`, or the length when there
/// is none.
pub open spec fn first_free_at(bits: Seq<bool>, from: int) -> int
    decreases bits.len() - from,
{
    if !(0 <= from < bits.len()) {
        bits.len() as int
    } else if bits[from] {
        from
    } else {
        first_free_at(bits, from + 1)
    }
}

/// Index of the (k+1)-th set bit, in ascending order, or the length when
/// there are not that many.
pub open spec fn nth_free_index(bits: Seq<bool>, k: int) -> int
    decreases k,
{
    if k <= 0 {
        first_free_at(bits, 0)
    } else {
        first_free_at(bits, nth_free_index(bits, k - 1) + 1)
    }
}

/// What `first_free_at` finds: a set bit, with none below it from `from` on.
pub proof fn lemma_first_free_at(bits: Seq<bool>, from: int)
    requires
        0 <= from <= bits.len(),
    ensures
        from <= first_free_at(bits, from) <= bits.len(),
        first_free_at(bits, from) < bits.len() ==> bits[first_free_at(bits, from)],
        forall|j: int| from <= j < first_free_at(bits, from) ==> !bits[j],
    decreases bits.len() - from,
{
    if from < bits.len() && !bits[from] {
        lemma_first_free_at(bits, from + 1);
    }
}

/// No bit is set exactly when the count of set bits is zero.
pub proof fn lemma_count_free_zero(bits: Seq<bool>)
    ensures
        (count_free(bits) == 0) <==> (forall|i: int| 0 <= i < bits.len() ==> !bits[i]),
    decreases bits.len(),
{
    if bits.len() > 0 {
        lemma_count_free_zero(bits.drop_last());
        assert(forall|i: int| 0 <= i < bits.len() - 1 ==> bits[i] == bits.drop_last()[i]);
        assert(bits.last() == bits[bits.len() - 1]);
    }
}

/// Clearing a set bit lowers the count of set bits by one.
pub proof fn lemma_count_free_clear(bits: Seq<bool>, i: int)
    requires
        0 <= i < bits.len(),
        bits[i],
    ensures
        count_free(bits.update(i, false)) == count_free(bits) - 1,
    decreases bits.len(),
{
    if i == bits.len() - 1 {
        assert(bits.update(i, false).drop_last() =~= bits.drop_last());
    } else {
        lemma_count_free_clear(bits.drop_last(), i);
        assert(bits.update(i, false).drop_last() =~= bits.drop_last().update(i, false));
        assert(bits.update(i, false).last() == bits.last());
    }
}

/// Tracks free/used state of every physical frame up to the highest usable
/// address. A single instance is constructed from the boot memory map during
/// startup and passed to the components that allocate frames.
pub struct BitmapFrameAllocator {
    /// Bit set: the frame is currently free and allocatable.
    free: bit_vec::BitVec<u32>,
    /// Bit set: some installed usable region covers the frame. Never cleared.
    usable: bit_vec::BitVec<u32>,
    /// The regions installed so far, in installation order.
    installed: Ghost<Seq<MemoryRegion>>,
}

impl BitmapFrameAllocator {
    /// Free/used state, one bit per frame; bit set means free.
    pub closed spec fn free_bits(self) -> Seq<bool> {
        bit_vec_view(self.free)
    }

    /// Coverage by installed usable regions, one bit per frame.
    pub closed spec fn usable_bits(self) -> Seq<bool> {
        bit_vec_view(self.usable)
    }

    /// The regions installed so far, in installation order.
    pub closed spec fn installed_regions(self) -> Seq<MemoryRegion> {
        self.installed@
    }

    /// Number of frames the bitmap spans.
    pub open spec fn num_frames(self) -> nat {
        self.free_bits().len()
    }

    /// The allocator's invariant: a frame may only ever be free if some
    /// installed usable region covers it, and the usable bitmap records
    /// exactly that coverage.
    pub open spec fn wf(self) -> bool {
        &&& self.usable_bits().len() == self.free_bits().len()
        &&& forall|i: int|
            0 <= i < self.num_frames() && self.free_bits()[i] ==> self.usable_bits()[i]
        &&& forall|i: int|
            0 <= i < self.num_frames() ==> (self.usable_bits()[i] <==> frame_in_usable_region(
                self.installed_regions(),
                i,
            ))
    }

    /// An empty allocator spanning `num_frames` frames, every frame unusable
    /// and allocated until a memory region is installed.
    pub fn new(num_frames: usize) -> (r: Self)
        ensures
            r.wf(),
            r.num_frames() == num_frames,
            forall|i: int| 0 <= i < num_frames ==> !r.free_bits()[i],
            r.installed_regions() == Seq::<MemoryRegion>::empty(),
    {
        let r = BitmapFrameAllocator {
            free: bits_from_elem(num_frames, false),
            usable: bits_from_elem(num_frames, false),
            installed: Ghost(Seq::empty()),
        };
        r
    }

    /// Returns the lowest-indexed frame currently marked free, clearing its
    /// bit before returning, or `None` when no bit is set. First-fit: chosen
    /// for determinism, with scan cost linear in the bitmap.
    pub fn allocate_frame(&mut self) -> (r: Option<Frame>)
        requires
            old(self).wf(),
        ensures
            final(self).wf(),
            final(self).usable_bits() == old(self).usable_bits(),
            final(self).installed_regions() == old(self).installed_regions(),
            match r {
                Some(f) => {
                    &&& is_lowest_free(old(self).free_bits(), f.index as int)
                    &&& final(self).free_bits() == old(self).free_bits().update(
                        f.index as int,
                        false,
                    )
                    &&& frame_in_usable_region(final(self).installed_regions(), f.index as int)
                },
                None => {
                    &&& *final(self) == *old(self)
                    &&& forall|i: int|
                        0 <= i < old(self).num_frames() ==> !old(self).free_bits()[i]
                },
            },
    {
        let n = bits_len(&self.free);
        let mut i: usize = 0;
        while i < n
            invariant
                old(self).wf(),
                *self == *old(self),
                n == self.num_frames(),
                i <= n,
                forall|j: int| 0 <= j < i ==> !self.free_bits()[j],
            decreases n - i,
        {
            if bits_get(&self.free, i) {
                bits_set(&mut self.free, i, false);
                return Some(Frame { index: i });
            }
            i = i + 1;
        }
        None
    }

    /// Marks every frame the region covers as usable and free. Meant for the
    /// installation phase, before allocation begins: installing a region
    /// after frames were handed out would resurrect them as free, and the
    /// caller is responsible for never doing so.
    pub fn install_memory_region(&mut self, region: &MemoryRegion)
        requires
            old(self).wf(),
            region.end_address() <= u64::MAX,
            region.kind == RegionKind::Usable && region.length > 0 ==> region.end_frame() <= old(
                self,
            ).num_frames(),
        ensures
            final(self).wf(),
            final(self).num_frames() == old(self).num_frames(),
            final(self).installed_regions() == old(self).installed_regions().push(*region),
            forall|i: int|
                0 <= i < old(self).num_frames() ==> (#[trigger] final(self).usable_bits()[i]) == (
                old(self).usable_bits()[i] || region.covers_frame(i)),
            forall|i: int|
                0 <= i < old(self).num_frames() ==> (#[trigger] final(self).free_bits()[i]) == (
                old(self).free_bits()[i] || region.covers_frame(i)),
    {
        let ghost prior = *old(self);
        let n = bits_len(&self.free);
        if region.kind == RegionKind::Usable && region.length > 0 {
            proof {
                lemma_div_is_ordered(
                    region.base_address as int,
                    region.end_address(),
                    FRAME_SIZE as int,
                );
            }
            let start: usize = (region.base_address / FRAME_SIZE) as usize;
            let end: usize = ((region.base_address + region.length) / FRAME_SIZE) as usize;
            let mut idx: usize = start;
            while idx < end
                invariant
                    prior.wf(),
                    start == region.first_frame(),
                    end == region.end_frame(),
                    end <= n,
                    n == self.num_frames(),
                    start <= idx <= end,
                    self.usable_bits().len() == n,
                    n == prior.num_frames(),
                    prior.usable_bits().len() == n,
                    self.installed_regions() == prior.installed_regions(),
                    forall|i: int|
                        0 <= i < n ==> (#[trigger] self.usable_bits()[i]) == (prior.usable_bits()[i]
                            || (start <= i < idx)),
                    forall|i: int|
                        0 <= i < n ==> (#[trigger] self.free_bits()[i]) == (prior.free_bits()[i] || (
                        start <= i < idx)),
                decreases end - idx,
            {
                let ghost at_entry = *self;
                bits_set(&mut self.usable, idx, true);
                bits_set(&mut self.free, idx, true);
                proof {
                    assert forall|i: int| 0 <= i < n implies self.usable_bits()[i] == (prior
                        .usable_bits()[i] || (start <= i < idx + 1)) by {
                        assert(at_entry.usable_bits()[i] == (prior.usable_bits()[i] || (start <= i
                            < idx)));
                    }
                    assert forall|i: int| 0 <= i < n implies self.free_bits()[i] == (prior
                        .free_bits()[i] || (start <= i < idx + 1)) by {
                        assert(at_entry.free_bits()[i] == (prior.free_bits()[i] || (start <= i
                            < idx)));
                    }
                }
                idx = idx + 1;
            }
        }
        proof {
            assert(forall|i: int|
                0 <= i < n ==> self.usable_bits()[i] == (prior.usable_bits()[i]
                    || region.covers_frame(i)));
            assert(forall|i: int|
                0 <= i < n ==> self.free_bits()[i] == (prior.free_bits()[i]
                    || region.covers_frame(i)));
            self.installed@ = prior.installed_regions().push(*region);
            assert forall|i: int| 0 <= i < n implies (self.usable_bits()[i]
                <==> frame_in_usable_region(self.installed_regions(), i)) by {
                lemma_usable_push(prior.installed_regions(), *region, i);
            }
            assert forall|i: int| 0 <= i < n && self.free_bits()[i] implies self.usable_bits()[i] by {
                assert(self.free_bits()[i] == (prior.free_bits()[i] || region.covers_frame(i)));
                assert(prior.free_bits()[i] ==> prior.usable_bits()[i]);
                assert(self.usable_bits()[i] == (prior.usable_bits()[i] || region.covers_frame(i)));
            }
        }
    }

    /// Highest frame-stepped physical address inside any usable region of
    /// the given memory map: the last address a frame-by-frame walk of the
    /// usable regions visits. Asks for a map with at least one nonempty
    /// usable region.
    pub fn get_highest_phys_address(memory_map: &Vec<MemoryRegion>) -> (r: u64)
        requires
            forall|k: int|
                0 <= k < memory_map@.len() ==> (#[trigger] memory_map@[k]).end_address()
                    <= u64::MAX,
            has_usable_addr(memory_map@),
        ensures
            r == max_usable_addr(memory_map@),
    {
        let mut best: u64 = 0;
        let mut found: bool = false;
        let mut k: usize = 0;
        while k < memory_map.len()
            invariant
                k <= memory_map@.len(),
                forall|j: int|
                    0 <= j < memory_map@.len() ==> (#[trigger] memory_map@[j]).end_address()
                        <= u64::MAX,
                max_usable_addr(memory_map@.subrange(0, k as int)) >= -1,
                found <==> max_usable_addr(memory_map@.subrange(0, k as int)) >= 0,
                found ==> best == max_usable_addr(memory_map@.subrange(0, k as int)),
                !found ==> best == 0,
            decreases memory_map@.len() - k,
        {
            let region = memory_map[k];
            proof {
                assert(memory_map@.subrange(0, k + 1).drop_last() =~= memory_map@.subrange(
                    0,
                    k as int,
                ));
                assert(memory_map@.subrange(0, k + 1).last() == region);
                if region.kind == RegionKind::Usable && region.length > 0 {
                    lemma_region_top_addr(region);
                }
            }
            if region.kind == RegionKind::Usable && region.length > 0 {
                let top = region.base_address + FRAME_SIZE * ((region.length - 1) / FRAME_SIZE);
                if !found || top > best {
                    best = top;
                    found = true;
                }
            }
            k = k + 1;
        }
        proof {
            assert(memory_map@.subrange(0, memory_map@.len() as int) =~= memory_map@);
            let kk = choose|kk: int|
                0 <= kk < memory_map@.len() && (#[trigger] memory_map@[kk]).kind
                    == RegionKind::Usable && memory_map@[kk].length > 0;
            lemma_region_top_addr(memory_map@[kk]);
            lemma_max_usable_addr_bound(memory_map@, kk);
        }
        best
    }

    /// Builds the allocator from the boot memory map: sizes the bitmap so it
    /// spans every frame up to the highest usable address, then installs each
    /// region, so that exactly the frames inside usable regions start free.
    pub fn initialize_frame_allocator(memory_map: &Vec<MemoryRegion>) -> (r: Self)
        requires
            forall|k: int|
                0 <= k < memory_map@.len() ==> (#[trigger] memory_map@[k]).end_address()
                    <= u64::MAX,
            has_usable_addr(memory_map@),
            max_usable_addr(memory_map@) / (FRAME_SIZE as int) + 1 <= usize::MAX,
        ensures
            r.wf(),
            r.installed_regions() == memory_map@,
            r.num_frames() == max_usable_addr(memory_map@) / (FRAME_SIZE as int) + 1,
            forall|i: int|
                0 <= i < r.num_frames() ==> (r.free_bits()[i] <==> frame_in_usable_region(
                    memory_map@,
                    i,
                )),
    {
        let high = Self::get_highest_phys_address(memory_map);
        proof {
            let kk = choose|kk: int|
                0 <= kk < memory_map@.len() && (#[trigger] memory_map@[kk]).kind
                    == RegionKind::Usable && memory_map@[kk].length > 0;
            lemma_region_top_addr(memory_map@[kk]);
            lemma_max_usable_addr_bound(memory_map@, kk);
            lemma_div_is_ordered(high as int, u64::MAX as int, FRAME_SIZE as int);
            lemma_div_is_ordered(0, high as int, FRAME_SIZE as int);
        }
        let n: usize = (high / FRAME_SIZE + 1) as usize;
        let mut allocator = Self::new(n);
        let mut k: usize = 0;
        while k < memory_map.len()
            invariant
                k <= memory_map@.len(),
                forall|j: int|
                    0 <= j < memory_map@.len() ==> (#[trigger] memory_map@[j]).end_address()
                        <= u64::MAX,
                high == max_usable_addr(memory_map@),
                high >= 0,
                n == high as int / (FRAME_SIZE as int) + 1,
                allocator.wf(),
                allocator.num_frames() == n,
                allocator.installed_regions() == memory_map@.subrange(0, k as int),
                forall|i: int|
                    0 <= i < n ==> allocator.free_bits()[i] == allocator.usable_bits()[i],
            decreases memory_map@.len() - k,
        {
            let region = memory_map[k];
            proof {
                if region.kind == RegionKind::Usable && region.length > 0 {
                    lemma_region_top_addr(region);
                    lemma_max_usable_addr_bound(memory_map@, k as int);
                    lemma_div_is_ordered(
                        region_top_addr(region),
                        max_usable_addr(memory_map@),
                        FRAME_SIZE as int,
                    );
                }
                assert(memory_map@.subrange(0, k + 1).drop_last() =~= memory_map@.subrange(
                    0,
                    k as int,
                ));
                assert(memory_map@.subrange(0, k + 1).last() == memory_map@[k as int]);
            }
            let ghost prev = allocator;
            allocator.install_memory_region(&region);
            proof {
                assert(allocator.installed_regions() =~= memory_map@.subrange(0, k + 1));
                assert forall|i: int| 0 <= i < n implies allocator.free_bits()[i]
                    == allocator.usable_bits()[i] by {
                    assert(allocator.free_bits()[i] == (prev.free_bits()[i]
                        || region.covers_frame(i)));
                    assert(allocator.usable_bits()[i] == (prev.usable_bits()[i]
                        || region.covers_frame(i)));
                }
            }
            k = k + 1;
        }
        proof {
            assert(memory_map@.subrange(0, memory_map@.len() as int) =~= memory_map@);
        }
        allocator
    }

    /// Marks the frame free again. Double frees and releases of frames no
    /// usable region covers are detected and rejected, leaving the bitmap
    /// unchanged; the caller decides whether that is fatal.
    pub fn deallocate_frame(&mut self, frame: Frame) -> (r: Result<(), FrameError>)
        requires
            old(self).wf(),
        ensures
            final(self).wf(),
            final(self).usable_bits() == old(self).usable_bits(),
            final(self).installed_regions() == old(self).installed_regions(),
            frame.index >= old(self).num_frames() || !old(self).usable_bits()[frame.index as int]
                ==> r == Err::<(), FrameError>(FrameError::InvalidFrameRelease) && *final(self)
                == *old(self),
            frame.index < old(self).num_frames() && old(self).usable_bits()[frame.index as int]
                && old(self).free_bits()[frame.index as int] ==> r == Err::<(), FrameError>(
                FrameError::DoubleFree,
            ) && *final(self) == *old(self),
            frame.index < old(self).num_frames() && old(self).usable_bits()[frame.index as int]
                && !old(self).free_bits()[frame.index as int] ==> r == Ok::<(), FrameError>(())
                && final(self).free_bits() == old(self).free_bits().update(frame.index as int, true),
    {
        let n = bits_len(&self.free);
        if frame.index >= n {
            return Err(FrameError::InvalidFrameRelease);
        }
        if !bits_get(&self.usable, frame.index) {
            return Err(FrameError::InvalidFrameRelease);
        }
        if bits_get(&self.free, frame.index) {
            return Err(FrameError::DoubleFree);
        }
        bits_set(&mut self.free, frame.index, true);
        Ok(())
    }
}

/// No double allocation: an allocation hands out a frame that was free,
/// clears exactly that bit, and never resurrects a used frame. So once a
/// frame is returned by `allocate_frame`, no later allocation can return it
/// again before a `deallocate_frame` for that same index sets its bit back.
pub proof fn lemma_no_double_allocation(bits: Seq<bool>, i: int, k: int)
    requires
        is_lowest_free(bits, i),
    ensures
        !bits.update(i, false)[i],
        forall|j: int| 0 <= j < bits.len() && !bits[j] ==> !bits.update(i, false)[j],
        is_lowest_free(bits.update(i, false), k) ==> k != i,
{
}

/// The first-fit scan has one possible answer: at most one index is the
/// lowest free one.
pub proof fn lemma_lowest_free_unique(bits: Seq<bool>, i: int, j: int)
    requires
        is_lowest_free(bits, i),
        is_lowest_free(bits, j),
    ensures
        i == j,
{
}

/// Lowest-free-first ordering: after a frame is deallocated, if its index is
/// below every other free index, the next allocation returns exactly that
/// frame (by `lemma_lowest_free_unique` and `allocate_frame`'s contract).
pub proof fn lemma_lowest_free_first(bits: Seq<bool>, f: int)
    requires
        0 <= f < bits.len(),
        forall|j: int| 0 <= j < f ==> !bits[j],
    ensures
        is_lowest_free(bits.update(f, true), f),
{
}

/// Exhaustion determinism over one contiguous usable span: when exactly the
/// frames [s, e) are free, the first-fit scan finds s, and clearing it
/// leaves exactly [s + 1, e) free. So, by `allocate_frame`'s contract,
/// successive allocations return s, s + 1, ..., e - 1, distinct and in
/// ascending order; and once the span is used up no bit is set, so a
/// further allocation returns nothing and changes nothing.
pub proof fn lemma_interval_allocation(bits: Seq<bool>, s: int, e: int)
    requires
        0 <= s <= e <= bits.len(),
        forall|i: int| 0 <= i < bits.len() ==> ((#[trigger] bits[i]) <==> s <= i < e),
    ensures
        s < e ==> is_lowest_free(bits, s),
        s < e ==> forall|i: int|
            0 <= i < bits.len() ==> ((#[trigger] bits.update(s, false)[i]) <==> s + 1 <= i < e),
        s == e ==> forall|i: int| 0 <= i < bits.len() ==> !bits[i],
{
}

} // verus!
