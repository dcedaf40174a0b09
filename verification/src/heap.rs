//! The heap region initializer: claims one physical frame per heap page from
//! the frame allocator, installs the translation for that page, and, once
//! the whole range is mapped, hands it to the heap allocator. Failure is
//! fatal at boot and performs no rollback: pages already mapped stay mapped.

use vstd::prelude::*;

use crate::frame_allocator::{
    count_free, first_free_at, lemma_count_free_clear, lemma_count_free_zero,
    lemma_first_free_at, nth_free_index, BitmapFrameAllocator,
};
use crate::heap_allocator::{FreeBlock, HeapAllocator};
use crate::region::frame_in_usable_region;

verus! {

/// Fixed virtual base address of the kernel heap, chosen to avoid collision
/// with code and stack regions.
pub const HEAP_START: usize = 0x4000_0000;

/// Fixed size in bytes of the kernel heap.
pub const HEAP_SIZE: usize = 1024 * 1024;

/// Size in bytes of one virtual page.
pub const PAGE_SIZE: usize = 4096;

/// Number of pages covering [HEAP_START, HEAP_START + HEAP_SIZE).
pub const HEAP_PAGE_COUNT: usize = HEAP_SIZE / PAGE_SIZE;

/// Permission flags requested when a page is mapped.
#[derive(Clone, Copy, PartialEq, Eq, Structural, Debug)]
pub struct PageFlags {
    pub present: bool,
    pub writable: bool,
}

/// One installed translation: the frame the page maps to, and the flags it
/// was mapped with.
#[derive(Clone, Copy, PartialEq, Eq, Structural, Debug)]
pub struct PageEntry {
    pub frame: usize,
    pub flags: PageFlags,
}

/// Rejection of a mapping request.
#[derive(Clone, Copy, PartialEq, Eq, Structural, Debug)]
pub enum MapError {
    /// The page already has a translation.
    PageAlreadyMapped,
}

/// Failure of heap construction; either is fatal at boot, and pages mapped
/// before the failure are left in place.
#[derive(Clone, Copy, PartialEq, Eq, Structural, Debug)]
pub enum HeapInitError {
    /// The frame allocator was exhausted.
    FrameAllocationFailed,
    /// Installing a translation was rejected.
    MappingFailed,
}

/// The heap's slice of the address-translation tables: page index `p`
/// stands for the virtual page at HEAP_START + p * PAGE_SIZE, and holds the
/// translation installed for it, if any.
pub struct PageTable {
    entries: Vec<Option<PageEntry>>,
}

impl PageTable {
    /// The installed translations, one slot per page.
    pub closed spec fn translations(self) -> Seq<Option<PageEntry>> {
        self.entries@
    }

    /// Number of pages the table spans.
    pub open spec fn num_pages(self) -> nat {
        self.translations().len()
    }

    /// A table of `num_pages` pages, none of them mapped.
    pub fn new(num_pages: usize) -> (r: Self)
        ensures
            r.num_pages() == num_pages,
            forall|p: int| 0 <= p < num_pages ==> r.translations()[p] is None,
    {
        let mut entries: Vec<Option<PageEntry>> = Vec::new();
        let mut p: usize = 0;
        while p < num_pages
            invariant
                p <= num_pages,
                entries@.len() == p,
                forall|q: int| 0 <= q < p ==> entries@[q] is None,
            decreases num_pages - p,
        {
            entries.push(None);
            p = p + 1;
        }
        PageTable { entries }
    }

    /// Installs a translation for the page, rejecting the request when one
    /// is already present.
    pub fn map_to(&mut self, page: usize, frame: usize, flags: PageFlags) -> (r: Result<
        (),
        MapError,
    >)
        requires
            page < old(self).num_pages(),
        ensures
            final(self).num_pages() == old(self).num_pages(),
            old(self).translations()[page as int] is Some ==> r == Err::<(), MapError>(
                MapError::PageAlreadyMapped,
            ) && *final(self) == *old(self),
            old(self).translations()[page as int] is None ==> r == Ok::<(), MapError>(())
                && final(self).translations() == old(self).translations().update(
                page as int,
                Some(PageEntry { frame, flags }),
            ),
    {
        if self.entries[page].is_some() {
            return Err(MapError::PageAlreadyMapped);
        }
        self.entries.set(page, Some(PageEntry { frame, flags }));
        Ok(())
    }

    /// The translation installed for the page, if any.
    pub fn translate(&self, page: usize) -> (r: Option<PageEntry>)
        requires
            page < self.num_pages(),
        ensures
            r == self.translations()[page as int],
    {
        self.entries[page]
    }
}

/// Index of the first of the `n` leading pages that already has a
/// translation, or `n` when none of them does.
pub open spec fn first_mapped_page(entries: Seq<Option<PageEntry>>, n: int) -> int
    decreases n,
{
    if n <= 0 {
        0
    } else {
        let prev = first_mapped_page(entries, n - 1);
        if prev < n - 1 {
            prev
        } else if entries[n - 1] is Some {
            n - 1
        } else {
            n
        }
    }
}

pub proof fn lemma_first_mapped_page(entries: Seq<Option<PageEntry>>, n: int)
    requires
        0 <= n <= entries.len(),
    ensures
        0 <= first_mapped_page(entries, n) <= n,
        forall|p: int| 0 <= p < first_mapped_page(entries, n) ==> entries[p] is None,
        first_mapped_page(entries, n) < n ==> entries[first_mapped_page(entries, n)] is Some,
    decreases n,
{
    if n > 0 {
        lemma_first_mapped_page(entries, n - 1);
    }
}

/// Builds the fixed-size virtual heap: for each page of
/// [HEAP_START, HEAP_START + HEAP_SIZE), in ascending order, claims one
/// frame from the frame allocator and installs the translation with
/// present + writable flags; after all pages succeed, hands the range to
/// the heap allocator. On failure nothing is rolled back: the pages mapped
/// so far stay mapped, and the heap allocator stays untouched.
pub fn initialize_heap(
    frame_allocator: &mut BitmapFrameAllocator,
    page_table: &mut PageTable,
    heap: &mut HeapAllocator,
) -> (r: Result<(), HeapInitError>)
    requires
        old(frame_allocator).wf(),
        old(heap).wf(),
        !old(heap).is_initialized(),
        old(page_table).num_pages() >= HEAP_PAGE_COUNT,
    ensures
        final(frame_allocator).wf(),
        final(frame_allocator).num_frames() == old(frame_allocator).num_frames(),
        final(frame_allocator).usable_bits() == old(frame_allocator).usable_bits(),
        final(frame_allocator).installed_regions() == old(frame_allocator).installed_regions(),
        final(page_table).num_pages() == old(page_table).num_pages(),
        final(heap).wf(),
        // When each outcome happens, over the free-frame count and the
        // first already-mapped heap page of the starting state.
        (r is Ok) <==> (count_free(old(frame_allocator).free_bits()) >= HEAP_PAGE_COUNT
            && first_mapped_page(old(page_table).translations(), HEAP_PAGE_COUNT as int)
            == HEAP_PAGE_COUNT),
        (r == Err::<(), HeapInitError>(HeapInitError::FrameAllocationFailed)) <==> (count_free(
            old(frame_allocator).free_bits(),
        ) < HEAP_PAGE_COUNT && count_free(old(frame_allocator).free_bits()) <= first_mapped_page(
            old(page_table).translations(),
            HEAP_PAGE_COUNT as int,
        )),
        (r == Err::<(), HeapInitError>(HeapInitError::MappingFailed)) <==> (first_mapped_page(
            old(page_table).translations(),
            HEAP_PAGE_COUNT as int,
        ) < HEAP_PAGE_COUNT && first_mapped_page(old(page_table).translations(), HEAP_PAGE_COUNT as int)
            < count_free(old(frame_allocator).free_bits())),
        // The pages newly mapped are exactly the first `mapped_count` heap
        // pages; everything beyond them is untouched.
        forall|p: int|
            mapped_count(*old(frame_allocator), *old(page_table), r) <= p
                < old(page_table).num_pages() ==> final(page_table).translations()[p]
                == old(page_table).translations()[p],
        forall|p: int|
            0 <= p < mapped_count(*old(frame_allocator), *old(page_table), r)
                ==> (#[trigger] final(page_table).translations()[p]) is Some,
        // Each newly mapped page carries present + writable flags and a
        // frame that was free, lies in a usable region, and the frames are
        // in ascending order, so pairwise distinct.
        forall|p: int|
            0 <= p < mapped_count(*old(frame_allocator), *old(page_table), r) ==> {
                let e = (#[trigger] final(page_table).translations()[p])->0;
                &&& e.flags == (PageFlags { present: true, writable: true })
                &&& e.frame < old(frame_allocator).num_frames()
                &&& old(frame_allocator).free_bits()[e.frame as int]
                &&& frame_in_usable_region(
                    old(frame_allocator).installed_regions(),
                    e.frame as int,
                )
            },
        forall|p1: int, p2: int|
            0 <= p1 < p2 < mapped_count(*old(frame_allocator), *old(page_table), r)
                ==> (#[trigger] final(page_table).translations()[p1])->0.frame
                < (#[trigger] final(page_table).translations()[p2])->0.frame,
        forall|p: int|
            0 <= p < mapped_count(*old(frame_allocator), *old(page_table), r)
                ==> !final(frame_allocator).free_bits()[(#[trigger] final(page_table)
                .translations()[p])->0.frame as int],
        // Which frame each page got is fully determined: page p was mapped
        // to the (p+1)-th free frame of the starting bitmap.
        forall|p: int|
            0 <= p < mapped_count(*old(frame_allocator), *old(page_table), r)
                ==> (#[trigger] final(page_table).translations()[p])->0.frame == nth_free_index(
                old(frame_allocator).free_bits(),
                p,
            ),
        // The allocator only loses frames, one per page mapped, plus the
        // one claimed for the page whose mapping was then rejected.
        forall|i: int|
            0 <= i < old(frame_allocator).num_frames()
                && (#[trigger] final(frame_allocator).free_bits()[i])
                ==> old(frame_allocator).free_bits()[i],
        count_free(final(frame_allocator).free_bits())
            == count_free(old(frame_allocator).free_bits())
            - mapped_count(*old(frame_allocator), *old(page_table), r) - (
        if r == Err::<(), HeapInitError>(HeapInitError::MappingFailed) {
            1int
        } else {
            0int
        }),
        r == Err::<(), HeapInitError>(HeapInitError::FrameAllocationFailed) ==> forall|i: int|
            0 <= i < old(frame_allocator).num_frames()
                ==> !(#[trigger] final(frame_allocator).free_bits()[i]),
        // The heap allocator takes over exactly the mapped range, and only
        // on success.
        r is Ok ==> {
            &&& final(heap).is_initialized()
            &&& final(heap).heap_start() == HEAP_START
            &&& final(heap).heap_size() == HEAP_SIZE
            &&& final(heap).live_allocs() == Set::<(int, int)>::empty()
            &&& final(heap).free_blocks() == seq![FreeBlock { addr: HEAP_START, len: HEAP_SIZE }]
        },
        r is Err ==> *final(heap) == *old(heap),
{
    let ghost fa0 = *old(frame_allocator);
    let ghost pt0 = *old(page_table);
    let ghost fc0 = count_free(fa0.free_bits());
    let ghost m0 = first_mapped_page(pt0.translations(), HEAP_PAGE_COUNT as int);
    proof {
        lemma_first_mapped_page(pt0.translations(), HEAP_PAGE_COUNT as int);
    }
    let ghost mut watermark: int = 0;
    let mut page: usize = 0;
    while page < HEAP_PAGE_COUNT
        invariant
            0 <= watermark <= fa0.num_frames(),
            forall|j: int| 0 <= j < watermark ==> !frame_allocator.free_bits()[j],
            forall|p: int|
                0 <= p < page ==> (#[trigger] page_table.translations()[p])->0.frame < watermark,
            watermark == if page == 0 {
                0int
            } else {
                nth_free_index(fa0.free_bits(), page - 1) + 1
            },
            forall|p: int|
                0 <= p < page ==> (#[trigger] page_table.translations()[p])->0.frame
                    == nth_free_index(fa0.free_bits(), p),
            forall|j: int|
                watermark <= j < fa0.num_frames() ==> frame_allocator.free_bits()[j] == fa0
                    .free_bits()[j],
            old(heap).wf(),
            !old(heap).is_initialized(),
            *heap == *old(heap),
            frame_allocator.wf(),
            page <= HEAP_PAGE_COUNT,
            fa0 == *old(frame_allocator),
            pt0 == *old(page_table),
            fc0 == count_free(fa0.free_bits()),
            m0 == first_mapped_page(pt0.translations(), HEAP_PAGE_COUNT as int),
            page <= m0,
            page <= fc0,
            frame_allocator.num_frames() == fa0.num_frames(),
            frame_allocator.usable_bits() == fa0.usable_bits(),
            frame_allocator.installed_regions() == fa0.installed_regions(),
            page_table.num_pages() == pt0.num_pages(),
            pt0.num_pages() >= HEAP_PAGE_COUNT,
            count_free(frame_allocator.free_bits()) == fc0 - page,
            forall|i: int|
                0 <= i < fa0.num_frames() && (#[trigger] frame_allocator.free_bits()[i]) ==> fa0
                    .free_bits()[i],
            forall|p: int|
                page <= p < pt0.num_pages() ==> page_table.translations()[p] == pt0
                    .translations()[p],
            forall|p: int|
                0 <= p < page ==> (#[trigger] page_table.translations()[p]) is Some,
            forall|p: int|
                0 <= p < page ==> {
                    let e = (#[trigger] page_table.translations()[p])->0;
                    &&& e.flags == (PageFlags { present: true, writable: true })
                    &&& e.frame < fa0.num_frames()
                    &&& fa0.free_bits()[e.frame as int]
                    &&& frame_in_usable_region(fa0.installed_regions(), e.frame as int)
                    &&& !frame_allocator.free_bits()[e.frame as int]
                },
            forall|p1: int, p2: int|
                0 <= p1 < p2 < page ==> (#[trigger] page_table.translations()[p1])->0.frame < (
                #[trigger] page_table.translations()[p2])->0.frame,
        decreases HEAP_PAGE_COUNT - page,
    {
        let ghost fa_before = *frame_allocator;
        let frame = match frame_allocator.allocate_frame() {
            Some(f) => f,
            None => {
                proof {
                    lemma_first_mapped_page(pt0.translations(), HEAP_PAGE_COUNT as int);
                    lemma_count_free_zero(fa_before.free_bits());
                    assert(fc0 - page == 0);
                    assert(mapped_count(fa0, pt0, Err::<(), HeapInitError>(
                        HeapInitError::FrameAllocationFailed,
                    )) == page);
                }
                return Err(HeapInitError::FrameAllocationFailed);
            },
        };
        proof {
            lemma_count_free_clear(fa_before.free_bits(), frame.index as int);
        }
        match page_table.map_to(page, frame.index, PageFlags { present: true, writable: true }) {
            Ok(()) => {},
            Err(_) => {
                proof {
                    lemma_first_mapped_page(pt0.translations(), HEAP_PAGE_COUNT as int);
                    assert(pt0.translations()[page as int] is Some);
                    assert(m0 == page);
                    assert(mapped_count(fa0, pt0, Err::<(), HeapInitError>(
                        HeapInitError::MappingFailed,
                    )) == page);
                }
                return Err(HeapInitError::MappingFailed);
            },
        }
        proof {
            lemma_first_mapped_page(pt0.translations(), HEAP_PAGE_COUNT as int);
            assert(pt0.translations()[page as int] is None);
            if m0 == page {
                assert(pt0.translations()[m0] is Some);
                assert(false);
            }
            assert(watermark <= frame.index as int);
            lemma_first_free_at(fa0.free_bits(), watermark);
            assert(fa0.free_bits()[frame.index as int]);
            assert(forall|j: int| watermark <= j < frame.index ==> !fa0.free_bits()[j]);
            assert(frame.index as int == first_free_at(fa0.free_bits(), watermark));
            assert(frame.index as int == nth_free_index(fa0.free_bits(), page as int));
            watermark = frame.index as int + 1;
        }
        page = page + 1;
    }
    proof {
        assert(m0 == HEAP_PAGE_COUNT);
        assert(fc0 >= HEAP_PAGE_COUNT);
    }
    let init_result = heap.initialize(HEAP_START, HEAP_SIZE);
    match init_result {
        Ok(()) => {
            proof {
                assert(mapped_count(fa0, pt0, Ok::<(), HeapInitError>(())) == HEAP_PAGE_COUNT);
            }
            Ok(())
        },
        Err(_) => {
            // Unreachable: the heap was untouched during mapping, so it was
            // still uninitialized here.
            proof {
                assert(false);
            }
            Err(HeapInitError::MappingFailed)
        },
    }
}

/// How many heap pages `initialize_heap` newly maps for a given outcome:
/// all of them on success, one per free frame when the allocator runs out
/// first, and every page below the first already-mapped one otherwise.
pub open spec fn mapped_count(
    fa0: BitmapFrameAllocator,
    pt0: PageTable,
    r: Result<(), HeapInitError>,
) -> int {
    if r is Ok {
        HEAP_PAGE_COUNT as int
    } else if r == Err::<(), HeapInitError>(HeapInitError::FrameAllocationFailed) {
        count_free(fa0.free_bits()) as int
    } else {
        first_mapped_page(pt0.translations(), HEAP_PAGE_COUNT as int)
    }
}

} // verus!
