//! The heap allocator: general-purpose allocation bookkeeping over the
//! mapped virtual range. A first-fit free list records which byte ranges are
//! available; adjacent free blocks are not merged. The invariant carried
//! through every operation: live allocations and free blocks all lie inside
//! the managed range and never overlap one another.

use vstd::prelude::*;

use vstd::arithmetic::div_mod::{
    lemma_fundamental_div_mod, lemma_mod_bound, lemma_mod_multiples_basic,
};

verus! {

/// Failure of a heap operation.
#[derive(Clone, Copy, PartialEq, Eq, Structural, Debug)]
pub enum HeapError {
    /// `initialize` was already called; the call is rejected and the
    /// existing state is kept.
    AlreadyInitialized,
    /// No free block can satisfy the request.
    OutOfMemory,
}

/// One block of the free list: `len` bytes starting at `addr`.
#[derive(Clone, Copy, PartialEq, Eq, Structural, Debug)]
pub struct FreeBlock {
    pub addr: usize,
    pub len: usize,
}

/// The byte ranges [a1, a1 + s1) and [a2, a2 + s2) do not overlap.
pub open spec fn ranges_disjoint(a1: int, s1: int, a2: int, s2: int) -> bool {
    a1 + s1 <= a2 || a2 + s2 <= a1
}

/// Smallest multiple of `align` at or above `a`.
pub open spec fn align_up(a: int, align: int) -> int {
    ((a + align - 1) / align) * align
}

/// An aligned request of `size` bytes fits inside the block.
pub open spec fn block_fits(b: FreeBlock, size: int, align: int) -> bool {
    align_up(b.addr as int, align) + size <= b.addr + b.len
}

/// `i` is the first index of `blocks` whose block fits the request.
pub open spec fn first_fit_index(blocks: Seq<FreeBlock>, size: int, align: int, i: int) -> bool {
    &&& 0 <= i < blocks.len()
    &&& block_fits(blocks[i], size, align)
    &&& forall|j: int| 0 <= j < i ==> !block_fits(#[trigger] blocks[j], size, align)
}

/// The free list after carving the range [a, a + size) out of block `i`:
/// the block leaves the list, and what is left of it in front of and behind
/// the carved range is appended.
pub open spec fn split_free_list(blocks: Seq<FreeBlock>, i: int, a: int, size: int) -> Seq<
    FreeBlock,
> {
    let b = blocks[i];
    let rest = blocks.remove(i);
    let with_front = if a > b.addr {
        rest.push(FreeBlock { addr: b.addr, len: (a - b.addr) as usize })
    } else {
        rest
    };
    if b.addr + b.len > a + size {
        with_front.push(
            FreeBlock { addr: (a + size) as usize, len: (b.addr + b.len - (a + size)) as usize },
        )
    } else {
        with_front
    }
}

proof fn lemma_align_up_props(a: int, align: int)
    requires
        a >= 0,
        align >= 1,
    ensures
        a <= align_up(a, align) < a + align,
        align_up(a, align) % align == 0,
{
    let x = a + align - 1;
    lemma_fundamental_div_mod(x, align);
    lemma_mod_bound(x, align);
    lemma_mod_multiples_basic(x / align, align);
    assert((x / align) * align == align * (x / align)) by (nonlinear_arith);
}

/// A range contained in a range that is disjoint from another stays
/// disjoint from it.
proof fn lemma_subrange_disjoint(wa: int, wl: int, sa: int, sl: int, oa: int, ol: int)
    requires
        wa <= sa,
        sa + sl <= wa + wl,
        ranges_disjoint(wa, wl, oa, ol),
    ensures
        ranges_disjoint(sa, sl, oa, ol),
{
}

/// Free-space bookkeeping over the mapped virtual range. A single instance
/// becomes the process-wide allocation backend once `initialize` has been
/// called on the fully mapped heap range.
pub struct HeapAllocator {
    initialized: bool,
    start: usize,
    size: usize,
    free_list: Vec<FreeBlock>,
    /// The currently live allocations, as (address, size) pairs.
    live: Ghost<Set<(int, int)>>,
}

impl HeapAllocator {
    /// `initialize` has been called.
    pub closed spec fn is_initialized(self) -> bool {
        self.initialized
    }

    /// First address of the managed range.
    pub closed spec fn heap_start(self) -> int {
        self.start as int
    }

    /// Length in bytes of the managed range.
    pub closed spec fn heap_size(self) -> int {
        self.size as int
    }

    /// The free list's blocks, in list order.
    pub closed spec fn free_blocks(self) -> Seq<FreeBlock> {
        self.free_list@
    }

    /// The currently live allocations, as (address, size) pairs.
    pub closed spec fn live_allocs(self) -> Set<(int, int)> {
        self.live@
    }

    /// The block lies inside the managed range and is not empty.
    pub open spec fn block_ok(self, b: FreeBlock) -> bool {
        &&& self.heap_start() <= b.addr
        &&& b.addr + b.len <= self.heap_start() + self.heap_size()
        &&& b.len > 0
    }

    /// The live allocation lies inside the managed range and is not empty.
    pub open spec fn alloc_ok(self, p: (int, int)) -> bool {
        &&& self.heap_start() <= p.0
        &&& p.0 + p.1 <= self.heap_start() + self.heap_size()
        &&& p.1 > 0
    }

    /// The allocator's invariant: every byte handed out lies within the
    /// managed range and no two of the tracked ranges (free or live)
    /// overlap.
    pub open spec fn wf(self) -> bool {
        &&& self.heap_start() + self.heap_size() <= usize::MAX
        &&& !self.is_initialized() ==> self.free_blocks().len() == 0 && self.live_allocs()
            == Set::<(int, int)>::empty()
        &&& forall|i: int|
            0 <= i < self.free_blocks().len() ==> self.block_ok(#[trigger] self.free_blocks()[i])
        &&& forall|i: int, j: int|
            0 <= i < self.free_blocks().len() && 0 <= j < self.free_blocks().len() && i != j
                ==> ranges_disjoint(
                (#[trigger] self.free_blocks()[i]).addr as int,
                self.free_blocks()[i].len as int,
                (#[trigger] self.free_blocks()[j]).addr as int,
                self.free_blocks()[j].len as int,
            )
        &&& forall|p: (int, int)| #[trigger]
            self.live_allocs().contains(p) ==> self.alloc_ok(p)
        &&& forall|p: (int, int), q: (int, int)|
            #[trigger] self.live_allocs().contains(p) && #[trigger] self.live_allocs().contains(q)
                && p != q ==> ranges_disjoint(p.0, p.1, q.0, q.1)
        &&& forall|i: int, p: (int, int)|
            0 <= i < self.free_blocks().len() && #[trigger] self.live_allocs().contains(p)
                ==> ranges_disjoint(
                (#[trigger] self.free_blocks()[i]).addr as int,
                self.free_blocks()[i].len as int,
                p.0,
                p.1,
            )
    }

    /// A heap allocator that manages nothing yet: `initialize` must be
    /// called exactly once, on the mapped range, before the first request.
    pub fn empty() -> (r: Self)
        ensures
            r.wf(),
            !r.is_initialized(),
            r.free_blocks().len() == 0,
            r.live_allocs() == Set::<(int, int)>::empty(),
    {
        HeapAllocator {
            initialized: false,
            start: 0,
            size: 0,
            free_list: Vec::new(),
            live: Ghost(Set::empty()),
        }
    }

    /// Whether `initialize` has already been called.
    pub fn initialized(&self) -> (r: bool)
        ensures
            r == self.is_initialized(),
    {
        self.initialized
    }

    /// Hands the mapped range [start, start + size) to the allocator. Must
    /// be called exactly once: a second call is rejected with
    /// `AlreadyInitialized` and leaves the existing state, and every
    /// existing allocation, untouched.
    pub fn initialize(&mut self, start: usize, size: usize) -> (r: Result<(), HeapError>)
        requires
            old(self).wf(),
            start + size <= usize::MAX,
        ensures
            final(self).wf(),
            old(self).is_initialized() ==> r == Err::<(), HeapError>(HeapError::AlreadyInitialized)
                && *final(self) == *old(self),
            !old(self).is_initialized() ==> {
                &&& r == Ok::<(), HeapError>(())
                &&& final(self).is_initialized()
                &&& final(self).heap_start() == start
                &&& final(self).heap_size() == size
                &&& final(self).live_allocs() == Set::<(int, int)>::empty()
                &&& final(self).free_blocks() == if size > 0 {
                    seq![FreeBlock { addr: start, len: size }]
                } else {
                    Seq::<FreeBlock>::empty()
                }
            },
    {
        if self.initialized {
            return Err(HeapError::AlreadyInitialized);
        }
        self.initialized = true;
        self.start = start;
        self.size = size;
        if size > 0 {
            self.free_list.push(FreeBlock { addr: start, len: size });
            proof {
                assert(self.free_blocks() =~= seq![FreeBlock { addr: start, len: size }]);
            }
        }
        Ok(())
    }

    /// Returns a region of `size` bytes aligned to `align`, drawn from the
    /// first free block that can hold one, or `OutOfMemory` exactly when no
    /// free block can. The returned range lies inside the managed range and
    /// overlaps no live allocation.
    pub fn allocate(&mut self, size: usize, align: usize) -> (r: Result<usize, HeapError>)
        requires
            old(self).wf(),
            size > 0,
            align > 0,
        ensures
            final(self).wf(),
            final(self).is_initialized() == old(self).is_initialized(),
            final(self).heap_start() == old(self).heap_start(),
            final(self).heap_size() == old(self).heap_size(),
            (r is Ok) <==> exists|i: int|
                first_fit_index(old(self).free_blocks(), size as int, align as int, i),
            r is Err ==> r == Err::<usize, HeapError>(HeapError::OutOfMemory) && *final(self)
                == *old(self),
            r matches Ok(a) ==> {
                &&& exists|i: int|
                    {
                        &&& #[trigger] first_fit_index(
                            old(self).free_blocks(),
                            size as int,
                            align as int,
                            i,
                        )
                        &&& a == align_up(old(self).free_blocks()[i].addr as int, align as int)
                        &&& final(self).free_blocks() == split_free_list(
                            old(self).free_blocks(),
                            i,
                            a as int,
                            size as int,
                        )
                    }
                &&& a as int % align as int == 0
                &&& old(self).heap_start() <= a
                &&& a + size <= old(self).heap_start() + old(self).heap_size()
                &&& forall|p: (int, int)| #[trigger]
                    old(self).live_allocs().contains(p) ==> ranges_disjoint(
                        a as int,
                        size as int,
                        p.0,
                        p.1,
                    )
                &&& final(self).live_allocs() == old(self).live_allocs().insert(
                    (a as int, size as int),
                )
            },
    {
        let n = self.free_list.len();
        let mut i: usize = 0;
        while i < n
            invariant
                old(self).wf(),
                *self == *old(self),
                size > 0,
                align > 0,
                n == self.free_blocks().len(),
                i <= n,
                forall|j: int|
                    0 <= j < i ==> !block_fits(
                        #[trigger] self.free_blocks()[j],
                        size as int,
                        align as int,
                    ),
            decreases n - i,
        {
            let b = self.free_list[i];
            proof {
                lemma_align_up_props(b.addr as int, align as int);
                lemma_fundamental_div_mod(b.addr as int + align as int - 1, align as int);
                lemma_mod_bound(b.addr as int + align as int - 1, align as int);
                assert(self.block_ok(self.free_blocks()[i as int]));
            }
            let baddr: u128 = b.addr as u128;
            let balign: u128 = align as u128;
            let q: u128 = (baddr + balign - 1) / balign;
            let a128: u128 = q * balign;
            let end128: u128 = baddr + (b.len as u128);
            if a128 + (size as u128) <= end128 {
                let ghost pre = *self;
                proof {
                    assert(a128 == align_up(b.addr as int, align as int));
                    assert(block_fits(b, size as int, align as int));
                }
                let a: usize = a128 as usize;
                let front_len: usize = a - b.addr;
                let back_addr: usize = a + size;
                let back_len: usize = (b.addr + b.len) - back_addr;
                self.free_list.remove(i);
                if front_len > 0 {
                    self.free_list.push(FreeBlock { addr: b.addr, len: front_len });
                }
                if back_len > 0 {
                    self.free_list.push(FreeBlock { addr: back_addr, len: back_len });
                }
                proof {
                    self.live@ = pre.live_allocs().insert((a as int, size as int));
                    assert(first_fit_index(pre.free_blocks(), size as int, align as int, i as int));
                    assert(self.free_blocks() == split_free_list(
                        pre.free_blocks(),
                        i as int,
                        a as int,
                        size as int,
                    ));
                    lemma_split_preserves_wf(pre, *self, i as int, a as int, size as int);
                }
                return Ok(a);
            }
            proof {
                assert(!block_fits(self.free_blocks()[i as int], size as int, align as int));
            }
            i = i + 1;
        }
        Err(HeapError::OutOfMemory)
    }

    /// Returns the region [addr, addr + size) to the free pool. The caller
    /// supplies the same address and size that the matching `allocate`
    /// returned and was asked for, exactly as with the language runtime's
    /// allocation contract.
    pub fn deallocate(&mut self, addr: usize, size: usize)
        requires
            old(self).wf(),
            old(self).live_allocs().contains((addr as int, size as int)),
        ensures
            final(self).wf(),
            final(self).is_initialized() == old(self).is_initialized(),
            final(self).heap_start() == old(self).heap_start(),
            final(self).heap_size() == old(self).heap_size(),
            final(self).live_allocs() == old(self).live_allocs().remove((addr as int, size as int)),
            final(self).free_blocks() == old(self).free_blocks().push(
                FreeBlock { addr, len: size },
            ),
    {
        let ghost old_self = *old(self);
        self.free_list.push(FreeBlock { addr, len: size });
        proof {
            self.live@ = old_self.live_allocs().remove((addr as int, size as int));
            let nb = self.free_blocks();
            let ob = old_self.free_blocks();
            let p = (addr as int, size as int);
            assert(old_self.alloc_ok(p));
            assert forall|i: int| 0 <= i < nb.len() implies self.block_ok(#[trigger] nb[i]) by {
                if i < ob.len() {
                    assert(old_self.block_ok(ob[i]));
                }
            }
            assert forall|i: int, j: int|
                0 <= i < nb.len() && 0 <= j < nb.len() && i != j implies ranges_disjoint(
                (#[trigger] nb[i]).addr as int,
                nb[i].len as int,
                (#[trigger] nb[j]).addr as int,
                nb[j].len as int,
            ) by {
                if i < ob.len() && j < ob.len() {
                    assert(ranges_disjoint(
                        ob[i].addr as int,
                        ob[i].len as int,
                        ob[j].addr as int,
                        ob[j].len as int,
                    ));
                } else if i < ob.len() {
                    assert(ranges_disjoint(ob[i].addr as int, ob[i].len as int, p.0, p.1));
                } else {
                    assert(ranges_disjoint(ob[j].addr as int, ob[j].len as int, p.0, p.1));
                }
            }
            assert forall|i: int, q: (int, int)|
                0 <= i < nb.len() && #[trigger] self.live_allocs().contains(q) implies
                ranges_disjoint((#[trigger] nb[i]).addr as int, nb[i].len as int, q.0, q.1) by {
                assert(old_self.live_allocs().contains(q));
                if i < ob.len() {
                    assert(ranges_disjoint(ob[i].addr as int, ob[i].len as int, q.0, q.1));
                } else {
                    assert(q != p);
                    assert(ranges_disjoint(p.0, p.1, q.0, q.1));
                }
            }
        }
    }
}

/// Heap non-overlap: under the allocator's invariant, no two live
/// allocations' byte ranges overlap, and every live allocation lies within
/// the managed range.
pub proof fn lemma_heap_non_overlap(h: HeapAllocator, p1: (int, int), p2: (int, int))
    requires
        h.wf(),
        h.live_allocs().contains(p1),
        h.live_allocs().contains(p2),
        p1 != p2,
    ensures
        ranges_disjoint(p1.0, p1.1, p2.0, p2.1),
        h.heap_start() <= p1.0 && p1.0 + p1.1 <= h.heap_start() + h.heap_size(),
{
}

/// The split performed by `allocate` keeps the allocator's invariant: the
/// carved range lies inside block `i` of the old free list, so the pieces
/// left over and the new live allocation stay inside the heap and disjoint
/// from everything else.
proof fn lemma_split_preserves_wf(
    pre: HeapAllocator,
    post: HeapAllocator,
    i: int,
    a: int,
    size: int,
)
    requires
        pre.wf(),
        size > 0,
        0 <= i < pre.free_blocks().len(),
        pre.free_blocks()[i].addr <= a,
        a + size <= pre.free_blocks()[i].addr + pre.free_blocks()[i].len,
        post.free_blocks() == split_free_list(pre.free_blocks(), i, a, size),
        post.live_allocs() == pre.live_allocs().insert((a, size)),
        post.heap_start() == pre.heap_start(),
        post.heap_size() == pre.heap_size(),
        post.is_initialized(),
    ensures
        post.wf(),
{
    let ob = pre.free_blocks();
    let nb = post.free_blocks();
    let b = ob[i];
    let p = (a, size);
    let rest = ob.remove(i);
    let m = rest.len() as int;
    assert(pre.block_ok(b));
    // Index map: nb[k] is an untouched old block for k < m, and a leftover
    // piece of block i after that.
    assert(forall|k: int| 0 <= k < m ==> nb[k] == #[trigger] rest[k]);
    assert(forall|k: int|
        0 <= k < m ==> #[trigger] rest[k] == (if k < i {
            ob[k]
        } else {
            ob[k + 1]
        }));
    // Each leftover piece lies inside block i, misses the carved range, and
    // is nonempty.
    assert(forall|k: int|
        m <= k < nb.len() ==> b.addr <= (#[trigger] nb[k]).addr && nb[k].addr + nb[k].len <= b.addr
            + b.len && nb[k].len > 0 && ranges_disjoint(nb[k].addr as int, nb[k].len as int, a, size));
    // The leftover pieces (front, back) are disjoint from each other.
    assert(forall|k1: int, k2: int|
        m <= k1 < nb.len() && m <= k2 < nb.len() && k1 != k2 ==> ranges_disjoint(
            (#[trigger] nb[k1]).addr as int,
            nb[k1].len as int,
            (#[trigger] nb[k2]).addr as int,
            nb[k2].len as int,
        ));
    assert forall|k: int| 0 <= k < nb.len() implies post.block_ok(#[trigger] nb[k]) by {
        if k < m {
            if k < i {
                assert(pre.block_ok(ob[k]));
            } else {
                assert(pre.block_ok(ob[k + 1]));
            }
        }
    }
    assert forall|k1: int, k2: int|
        0 <= k1 < nb.len() && 0 <= k2 < nb.len() && k1 != k2 implies ranges_disjoint(
        (#[trigger] nb[k1]).addr as int,
        nb[k1].len as int,
        (#[trigger] nb[k2]).addr as int,
        nb[k2].len as int,
    ) by {
        let o1: int = if k1 < i { k1 } else { k1 + 1 };
        let o2: int = if k2 < i { k2 } else { k2 + 1 };
        if k1 < m && k2 < m {
            assert(ranges_disjoint(
                ob[o1].addr as int,
                ob[o1].len as int,
                ob[o2].addr as int,
                ob[o2].len as int,
            ));
        } else if k1 < m {
            assert(ranges_disjoint(ob[o1].addr as int, ob[o1].len as int, b.addr as int, b.len as int));
            lemma_subrange_disjoint(
                b.addr as int,
                b.len as int,
                nb[k2].addr as int,
                nb[k2].len as int,
                ob[o1].addr as int,
                ob[o1].len as int,
            );
        } else if k2 < m {
            assert(ranges_disjoint(ob[o2].addr as int, ob[o2].len as int, b.addr as int, b.len as int));
            lemma_subrange_disjoint(
                b.addr as int,
                b.len as int,
                nb[k1].addr as int,
                nb[k1].len as int,
                ob[o2].addr as int,
                ob[o2].len as int,
            );
        }
    }
    assert forall|q: (int, int)| #[trigger]
        post.live_allocs().contains(q) implies post.alloc_ok(q) by {
        if q != p {
            assert(pre.live_allocs().contains(q));
        }
    }
    assert forall|q1: (int, int), q2: (int, int)|
        #[trigger] post.live_allocs().contains(q1) && #[trigger] post.live_allocs().contains(q2)
            && q1 != q2 implies ranges_disjoint(q1.0, q1.1, q2.0, q2.1) by {
        if q1 == p {
            assert(pre.live_allocs().contains(q2));
            assert(ranges_disjoint(b.addr as int, b.len as int, q2.0, q2.1));
            lemma_subrange_disjoint(b.addr as int, b.len as int, a, size, q2.0, q2.1);
        } else if q2 == p {
            assert(pre.live_allocs().contains(q1));
            assert(ranges_disjoint(b.addr as int, b.len as int, q1.0, q1.1));
            lemma_subrange_disjoint(b.addr as int, b.len as int, a, size, q1.0, q1.1);
        } else {
            assert(pre.live_allocs().contains(q1));
            assert(pre.live_allocs().contains(q2));
        }
    }
    assert forall|k: int, q: (int, int)|
        0 <= k < nb.len() && #[trigger] post.live_allocs().contains(q) implies ranges_disjoint(
        (#[trigger] nb[k]).addr as int,
        nb[k].len as int,
        q.0,
        q.1,
    ) by {
        let o: int = if k < i { k } else { k + 1 };
        if k < m {
            if q == p {
                assert(ranges_disjoint(
                    ob[o].addr as int,
                    ob[o].len as int,
                    b.addr as int,
                    b.len as int,
                ));
                lemma_subrange_disjoint(
                    b.addr as int,
                    b.len as int,
                    a,
                    size,
                    ob[o].addr as int,
                    ob[o].len as int,
                );
            } else {
                assert(pre.live_allocs().contains(q));
                assert(ranges_disjoint(ob[o].addr as int, ob[o].len as int, q.0, q.1));
            }
        } else {
            if q == p {
                assert(ranges_disjoint(nb[k].addr as int, nb[k].len as int, a, size));
            } else {
                assert(pre.live_allocs().contains(q));
                assert(ranges_disjoint(b.addr as int, b.len as int, q.0, q.1));
                lemma_subrange_disjoint(
                    b.addr as int,
                    b.len as int,
                    nb[k].addr as int,
                    nb[k].len as int,
                    q.0,
                    q.1,
                );
            }
        }
    }
}

} // verus!
