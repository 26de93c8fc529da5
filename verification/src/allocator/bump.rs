//! The bump allocator: a cursor that only moves forward, and a count of live
//! allocations that reclaims the whole region when it returns to zero.

use vstd::prelude::*;
use crate::allocator::align::{align_up_spec, checked_align_up, lemma_align_up_is_multiple};

verus! {

/// The mathematical state of a bump allocator.
pub struct BumpState {
    /// First address of the region.
    pub heap_start: int,
    /// First address past the region.
    pub heap_end: int,
    /// First address that has not been handed out.
    pub next: int,
    /// Number of allocations that have not been given back.
    pub allocations: int,
}

impl BumpState {
    /// The cursor lies inside the region, the region and the count fit the
    /// machine, and an allocator without live allocations has its cursor at
    /// the start of the region.
    pub open spec fn wf(self) -> bool {
        &&& 0 <= self.heap_start <= self.next <= self.heap_end <= usize::MAX
        &&& 0 <= self.allocations <= usize::MAX
        &&& self.allocations == 0 ==> self.next == self.heap_start
    }

    /// The state of an allocator that has no region yet.
    pub open spec fn empty() -> BumpState {
        BumpState { heap_start: 0, heap_end: 0, next: 0, allocations: 0 }
    }

    /// The state right after the region `[start, start + size)` is installed.
    pub open spec fn init(self, start: int, size: int) -> BumpState {
        BumpState {
            heap_start: start,
            heap_end: start + size,
            next: start,
            allocations: self.allocations,
        }
    }

    /// Where a block of alignment `align` would start.
    pub open spec fn block_start(self, align: int) -> int {
        align_up_spec(self.next, align)
    }

    /// Whether a request for `size` bytes at alignment `align` is served:
    /// the aligned block ends inside the region and the count of live
    /// allocations can still grow.
    pub open spec fn fits(self, size: int, align: int) -> bool {
        &&& self.block_start(align) + size <= self.heap_end
        &&& self.allocations < usize::MAX
    }

    /// The address that a request yields, if any.
    pub open spec fn alloc_result(self, size: int, align: int) -> Option<int> {
        if self.fits(size, align) {
            Some(self.block_start(align))
        } else {
            None
        }
    }

    /// The state after a request: the cursor at the end of the new block
    /// and one more live allocation, or no change where the request fails.
    pub open spec fn allocate(self, size: int, align: int) -> BumpState {
        if self.fits(size, align) {
            BumpState {
                next: self.block_start(align) + size,
                allocations: self.allocations + 1,
                ..self
            }
        } else {
            self
        }
    }

    /// The state after one allocation is given back: one live allocation
    /// less, and the cursor back at the start once none is left. Where
    /// there is no live allocation, nothing changes.
    pub open spec fn deallocate(self) -> BumpState {
        if self.allocations <= 0 {
            self
        } else {
            BumpState {
                next: if self.allocations == 1 {
                    self.heap_start
                } else {
                    self.next
                },
                allocations: self.allocations - 1,
                ..self
            }
        }
    }

    /// Whether `n` rounds of one request followed by its release are all
    /// served.
    pub open spec fn round_trips_succeed(self, size: int, align: int, n: nat) -> bool
        decreases n,
    {
        n == 0 || (self.fits(size, align) && self.allocate(size, align).deallocate().round_trips_succeed(
            size,
            align,
            (n - 1) as nat,
        ))
    }
}

/// A bump allocator over one fixed region of addresses.
pub struct BumpAllocator {
    heap_start: usize,
    heap_end: usize,
    next: usize,
    allocations: usize,
}

impl View for BumpAllocator {
    type V = BumpState;

    closed spec fn view(&self) -> BumpState {
        BumpState {
            heap_start: self.heap_start as int,
            heap_end: self.heap_end as int,
            next: self.next as int,
            allocations: self.allocations as int,
        }
    }
}

impl BumpAllocator {
    #[verifier::type_invariant]
    closed spec fn inv(&self) -> bool {
        self@.wf()
    }

    /// An allocator without a region: every request fails until `init`.
    pub fn new() -> (allocator: Self)
        ensures
            allocator@ == BumpState::empty(),
            allocator@.wf(),
    {
        Self { heap_start: 0, heap_end: 0, next: 0, allocations: 0 }
    }

    /// Installs the region `[heap_start, heap_start + heap_size)` and puts
    /// the cursor at its start.
    pub fn init(&mut self, heap_start: usize, heap_size: usize)
        requires
            heap_start + heap_size <= usize::MAX,
        ensures
            final(self)@ == old(self)@.init(heap_start as int, heap_size as int),
            final(self)@.wf(),
    {
        proof {
            use_type_invariant(&*self);
        }
        let allocations = self.allocations;
        *self = Self { heap_start, heap_end: heap_start + heap_size, next: heap_start, allocations };
    }

    /// Serves a request for `size` bytes at alignment `align` from the
    /// front of the unused part of the region. A request that does not fit,
    /// or whose addresses would overflow, fails and changes nothing.
    pub fn allocate(&mut self, size: usize, align: usize) -> (block: Option<usize>)
        requires
            align > 0,
        ensures
            final(self)@ == old(self)@.allocate(size as int, align as int),
            final(self)@.wf(),
            match block {
                Some(addr) => old(self)@.alloc_result(size as int, align as int) == Some(addr as int),
                None => old(self)@.alloc_result(size as int, align as int) is None,
            },
            block matches Some(addr) ==> {
                &&& addr % align == 0
                &&& old(self)@.heap_start <= old(self)@.next <= addr
                &&& addr + size <= old(self)@.heap_end
            },
            block is None ==> final(self)@ == old(self)@,
            size > old(self)@.heap_end - old(self)@.next ==> block is None,
    {
        proof {
            use_type_invariant(&*self);
            lemma_align_up_is_multiple(self.next as int, align as int);
        }
        let alloc_start = match checked_align_up(self.next, align) {
            Some(start) => start,
            None => { return None; },
        };
        let alloc_end = match alloc_start.checked_add(size) {
            Some(end) => end,
            None => { return None; },
        };
        if alloc_end > self.heap_end || self.allocations == usize::MAX {
            return None;
        }
        let allocations = self.allocations + 1;
        *self = Self { next: alloc_end, allocations, heap_start: self.heap_start, heap_end: self.heap_end };
        Some(alloc_start)
    }

    /// Gives one allocation back. Nothing is reclaimed until the last live
    /// allocation is given back; then the whole region is. The address and
    /// the shape of the allocation play no part.
    pub fn deallocate(&mut self, _ptr: usize, _size: usize, _align: usize)
        ensures
            final(self)@ == old(self)@.deallocate(),
            final(self)@.wf(),
    {
        proof {
            use_type_invariant(&*self);
        }
        if self.allocations == 0 {
            return;
        }
        let allocations = self.allocations - 1;
        let next = if allocations == 0 {
            self.heap_start
        } else {
            self.next
        };
        *self = Self { next, allocations, heap_start: self.heap_start, heap_end: self.heap_end };
    }
}

/// A served request yields an address that is a multiple of the alignment,
/// and the block lies inside the region, at or after the old cursor.
pub proof fn lemma_block_aligned_inside_region(s: BumpState, size: int, align: int)
    requires
        s.wf(),
        size >= 0,
        align > 0,
        s.fits(size, align),
    ensures
        s.block_start(align) % align == 0,
        s.heap_start <= s.next <= s.block_start(align),
        s.block_start(align) + size <= s.heap_end,
        s.allocate(size, align).wf(),
{
    lemma_align_up_is_multiple(s.next, align);
}

/// A request for more bytes than are left between the cursor and the end
/// of the region fails, and a failed request leaves the state as it was.
pub proof fn lemma_exhausted_request_fails(s: BumpState, size: int, align: int)
    requires
        s.wf(),
        align > 0,
        size > s.heap_end - s.next,
    ensures
        s.alloc_result(size, align) is None,
        s.allocate(size, align) == s,
{
    lemma_align_up_is_multiple(s.next, align);
}

/// On an allocator without live allocations, a served request followed by
/// its release restores the state exactly, so the same request is served
/// again, any number of times.
pub proof fn lemma_drained_round_trips_never_fail(s: BumpState, size: int, align: int, n: nat)
    requires
        s.wf(),
        size >= 0,
        align > 0,
        s.allocations == 0,
        s.fits(size, align),
    ensures
        s.allocate(size, align).deallocate() == s,
        s.round_trips_succeed(size, align, n),
    decreases n,
{
    if n > 0 {
        lemma_drained_round_trips_never_fail(s, size, align, (n - 1) as nat);
    }
}

/// While other allocations are live nothing is reclaimed, and each round of
/// request and release consumes at most `size + align - 1` bytes: `n` rounds
/// are all served where that many bytes, `n` times, are left in the region.
pub proof fn lemma_round_trips_never_fail(s: BumpState, size: int, align: int, n: nat)
    requires
        s.wf(),
        size >= 0,
        align > 0,
        s.allocations < usize::MAX,
        s.next + n * (size + align - 1) <= s.heap_end,
    ensures
        s.round_trips_succeed(size, align, n),
    decreases n,
{
    if n > 0 {
        let footprint = size + align - 1;
        lemma_align_up_is_multiple(s.next, align);
        assert(n * footprint == (n - 1) * footprint + footprint) by (nonlinear_arith);
        assert((n - 1) * footprint >= 0) by (nonlinear_arith)
            requires
                n >= 1,
                footprint >= 0,
        ;
        let after = s.allocate(size, align).deallocate();
        lemma_round_trips_never_fail(after, size, align, (n - 1) as nat);
    }
}

/// Three served requests on an allocator without live allocations,
/// followed by three releases, restore the state exactly: the cursor is
/// back at the start of the region. One request for the three sizes
/// together, at the first alignment, is then served at the address the
/// first block had.
pub proof fn lemma_drained_region_is_reusable(
    s: BumpState,
    first: (int, int),
    second: (int, int),
    third: (int, int),
)
    requires
        s.wf(),
        s.allocations == 0,
        first.0 >= 0 && second.0 >= 0 && third.0 >= 0,
        first.1 > 0 && second.1 > 0 && third.1 > 0,
        s.fits(first.0, first.1),
        s.allocate(first.0, first.1).fits(second.0, second.1),
        s.allocate(first.0, first.1).allocate(second.0, second.1).fits(third.0, third.1),
    ensures
        ({
            let full = s.allocate(first.0, first.1).allocate(second.0, second.1).allocate(
                third.0,
                third.1,
            );
            let drained = full.deallocate().deallocate().deallocate();
            &&& drained == s
            &&& drained.next == drained.heap_start
            &&& drained.alloc_result(first.0 + second.0 + third.0, first.1) == s.alloc_result(
                first.0,
                first.1,
            )
            &&& drained.fits(first.0 + second.0 + third.0, first.1)
        }),
{
    let s1 = s.allocate(first.0, first.1);
    let s2 = s1.allocate(second.0, second.1);
    lemma_align_up_is_multiple(s.next, first.1);
    lemma_align_up_is_multiple(s1.next, second.1);
    lemma_align_up_is_multiple(s2.next, third.1);
}

} // verus!
