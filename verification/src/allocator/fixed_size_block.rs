//! The fixed-size block allocator: one free list for each size class, and a
//! general-purpose heap for what no list can serve.

use vstd::prelude::*;
use vstd::arithmetic::power2::is_pow2;
use vstd::layout::size_of;
use core::mem::MaybeUninit;
use linked_list_allocator::Heap;
use crate::allocator::align::{lemma_multiple_of_multiple, lemma_smaller_power_divides};
use crate::allocator::fallback::{
    block_inside,
    block_taken,
    heap_allocate_first_fit,
    heap_end,
    heap_first_fit,
    heap_free,
    heap_init_from_slice,
    heap_memory,
    heap_top,
    is_valid_layout,
    layout_fits,
    lemma_block_needs_room,
    search_fits,
};

verus! {

/// The block sizes of the size classes, in ascending order. A block of a
/// class is aligned to its size.
pub const BLOCK_SIZES: [usize; 9] = [8, 16, 32, 64, 128, 256, 512, 1024, 2048];

/// The block size that a request needs: the larger of its size and its
/// alignment.
pub open spec fn required_block_size(size: int, align: int) -> int {
    if size >= align {
        size
    } else {
        align
    }
}

/// The first class at or after `from` whose blocks hold `required` bytes.
pub open spec fn first_class_from(required: int, from: int) -> Option<int>
    decreases 9 - from,
{
    if from < 0 || from >= 9 {
        None
    } else if BLOCK_SIZES[from] >= required {
        Some(from)
    } else {
        first_class_from(required, from + 1)
    }
}

/// The size class of a request, if it has one.
pub open spec fn block_size_index_spec(size: int, align: int) -> Option<int> {
    first_class_from(required_block_size(size, align), 0)
}

/// The class of a request is the smallest class whose blocks are large
/// enough for it; a request has no class exactly if it needs more than the
/// largest block size.
pub proof fn lemma_block_size_index_is_least_fit(size: int, align: int)
    ensures
        match block_size_index_spec(size, align) {
            Some(index) => {
                &&& 0 <= index < 9
                &&& BLOCK_SIZES[index] >= required_block_size(size, align)
                &&& forall|smaller: int|
                    0 <= smaller < index ==> #[trigger] BLOCK_SIZES[smaller] < required_block_size(
                        size,
                        align,
                    )
            },
            None => required_block_size(size, align) > 2048,
        },
{
    reveal_with_fuel(first_class_from, 10);
}

/// Every block size is a power of two.
pub proof fn lemma_block_sizes_are_powers_of_two(index: int)
    requires
        0 <= index < 9,
    ensures
        is_pow2(BLOCK_SIZES[index] as int),
        layout_fits(BLOCK_SIZES[index] as int, BLOCK_SIZES[index] as int),
{
    reveal_with_fuel(is_pow2, 13);
}

/// Maps a request to the index of its size class: the smallest class whose
/// block size is at least the larger of `size` and `align`. A request that
/// needs more than the largest block size has none.
pub fn block_size_index(size: usize, align: usize) -> (index: Option<usize>)
    ensures
        match index {
            Some(i) => {
                &&& block_size_index_spec(size as int, align as int) == Some(i as int)
                &&& i < 9
                &&& BLOCK_SIZES[i as int] >= size
                &&& BLOCK_SIZES[i as int] >= align
                &&& i == 0 || (BLOCK_SIZES[i - 1] < size || BLOCK_SIZES[i - 1] < align)
            },
            None => {
                &&& block_size_index_spec(size as int, align as int) is None
                &&& size > 2048 || align > 2048
            },
        },
{
    proof {
        lemma_block_size_index_is_least_fit(size as int, align as int);
    }
    let required: usize = if size >= align {
        size
    } else {
        align
    };
    let mut index: usize = 0;
    while index < 9
        invariant
            index <= 9,
            required == required_block_size(size as int, align as int),
            first_class_from(required as int, 0) == first_class_from(required as int, index as int),
            index > 0 ==> BLOCK_SIZES[index - 1] < required,
        decreases 9 - index,
    {
        if BLOCK_SIZES[index] >= required {
            return Some(index);
        }
        index += 1;
    }
    None
}

/// The free lists of an allocator that has no free block.
pub open spec fn empty_lists() -> Seq<Seq<usize>> {
    Seq::new(9, |index: int| Seq::<usize>::empty())
}

/// The mathematical state of a fixed-size block allocator.
pub struct FixedSizeState {
    /// For each size class, the addresses of its free blocks; the block
    /// that was freed last comes last.
    pub lists: Seq<Seq<usize>>,
    /// The fallback heap.
    pub fallback: Heap,
}

impl FixedSizeState {
    /// There is one list for each size class.
    pub open spec fn wf(self) -> bool {
        self.lists.len() == 9
    }

    /// The addresses of the bytes that the fallback heap manages.
    pub open spec fn memory(self) -> Set<int> {
        heap_memory(self.fallback)
    }

    /// The addresses of the bytes that the fallback heap has not handed
    /// out.
    pub open spec fn free(self) -> Set<int> {
        heap_free(self.fallback)
    }

    /// The address at which the memory of the fallback heap ends.
    pub open spec fn memory_end(self) -> int {
        heap_end(self.fallback)
    }

    /// Whether the fallback heap is asked for a block of alignment `align`.
    /// It is not where the search could reach an address that wraps around
    /// the end of the address space.
    pub open spec fn fallback_serves(self, align: int) -> bool {
        search_fits(self.memory_end(), align)
    }

    /// Every block on the list of a class starts at a multiple of the
    /// block size of the class.
    pub open spec fn blocks_aligned(self) -> bool {
        forall|index: int, at: int|
            0 <= index < 9 && 0 <= at < self.lists[index].len() ==> (
            #[trigger] self.lists[index][at]) % BLOCK_SIZES[index] == 0
    }

    /// Every block on the list of a class lies, with the block size of the
    /// class, inside the memory of the fallback heap.
    pub open spec fn blocks_inside(self) -> bool {
        forall|index: int, at: int|
            0 <= index < 9 && 0 <= at < self.lists[index].len() ==> block_inside(
                self.memory(),
                (#[trigger] self.lists[index][at]) as int,
                BLOCK_SIZES[index] as int,
            )
    }

    /// The free block that serves a request without the fallback heap: the
    /// block freed last among those of the request's class.
    pub open spec fn reused_block(self, size: int, align: int) -> Option<usize> {
        match block_size_index_spec(size, align) {
            Some(index) => if self.lists[index].len() > 0 {
                Some(self.lists[index].last())
            } else {
                None
            },
            None => None,
        }
    }

    /// The size and the alignment that the fallback heap is asked for where
    /// no free block serves a request: the block size of the request's
    /// class, twice, or the request itself where it has no class. A request
    /// without a class that no block can have is not passed on, nor is a
    /// request that the heap does not serve.
    pub open spec fn fallback_request(self, size: int, align: int) -> Option<(int, int)> {
        match block_size_index_spec(size, align) {
            Some(index) => if self.lists[index].len() == 0 && self.fallback_serves(
                BLOCK_SIZES[index] as int,
            ) {
                Some((BLOCK_SIZES[index] as int, BLOCK_SIZES[index] as int))
            } else {
                None
            },
            None => if layout_fits(size, align) && self.fallback_serves(align) {
                Some((size, align))
            } else {
                None
            },
        }
    }

    /// The address that a request yields, if any: that of the reused block,
    /// or else that of the block that the fallback heap finds for what it
    /// is asked.
    pub open spec fn alloc_result(self, size: int, align: int) -> Option<int> {
        match self.reused_block(size, align) {
            Some(addr) => Some(addr as int),
            None => match self.fallback_request(size, align) {
                Some(request) => heap_first_fit(self.fallback, request.0, request.1),
                None => None,
            },
        }
    }

    /// The state after a request that takes no block from the fallback
    /// heap: the reused block, if there is one, has left its list.
    pub open spec fn allocate(self, size: int, align: int) -> FixedSizeState {
        match block_size_index_spec(size, align) {
            Some(index) => if self.lists[index].len() > 0 {
                FixedSizeState {
                    lists: self.lists.update(index, self.lists[index].drop_last()),
                    ..self
                }
            } else {
                self
            },
            None => self,
        }
    }

    /// The state after a block is given back: a block of a class is on the
    /// list of its class, as the block freed last.
    pub open spec fn deallocate(self, ptr: usize, size: int, align: int) -> FixedSizeState {
        match block_size_index_spec(size, align) {
            Some(index) => FixedSizeState {
                lists: self.lists.update(index, self.lists[index].push(ptr)),
                ..self
            },
            None => self,
        }
    }

    /// Whether `n` rounds of one request followed by the release of its
    /// block are all served from the free list.
    pub open spec fn round_trips_reuse(self, size: int, align: int, n: nat) -> bool
        decreases n,
    {
        n == 0 || (self.reused_block(size, align) matches Some(ptr) && self.allocate(
            size,
            align,
        ).deallocate(ptr, size, align).round_trips_reuse(size, align, (n - 1) as nat))
    }
}

/// The free lists of the size classes: for each class a stack of block
/// addresses.
struct FreeLists {
    lists: Vec<Vec<usize>>,
}

impl View for FreeLists {
    type V = Seq<Seq<usize>>;

    closed spec fn view(&self) -> Seq<Seq<usize>> {
        Seq::new(9, |index: int| self.lists@[index]@)
    }
}

impl FreeLists {
    #[verifier::type_invariant]
    closed spec fn inv(&self) -> bool {
        self.lists.len() == 9
    }

    fn new() -> (lists: Self)
        ensures
            lists@ == empty_lists(),
    {
        let mut lists: Vec<Vec<usize>> = Vec::new();
        let mut index: usize = 0;
        while index < 9
            invariant
                index <= 9,
                lists.len() == index,
                forall|at: int| 0 <= at < index ==> (#[trigger] lists@[at])@ == Seq::<usize>::empty(),
            decreases 9 - index,
        {
            lists.push(Vec::new());
            index += 1;
        }
        let lists = FreeLists { lists };
        assert(lists@ =~= empty_lists());
        lists
    }

    fn push(&mut self, index: usize, block: usize)
        requires
            index < 9,
        ensures
            final(self)@ == old(self)@.update(index as int, old(self)@[index as int].push(block)),
    {
        proof {
            use_type_invariant(&*self);
        }
        self.lists[index].push(block);
        assert(self@ =~= old(self)@.update(index as int, old(self)@[index as int].push(block)));
    }

    fn pop(&mut self, index: usize) -> (block: Option<usize>)
        requires
            index < 9,
        ensures
            old(self)@.len() == 9,
            match block {
                Some(addr) => {
                    &&& old(self)@[index as int].len() > 0
                    &&& addr == old(self)@[index as int].last()
                    &&& final(self)@ == old(self)@.update(
                        index as int,
                        old(self)@[index as int].drop_last(),
                    )
                },
                None => old(self)@[index as int].len() == 0 && final(self)@ == old(self)@,
            },
    {
        proof {
            use_type_invariant(&*self);
        }
        let block = self.lists[index].pop();
        proof {
            if block is Some {
                assert(self@ =~= old(self)@.update(
                    index as int,
                    old(self)@[index as int].drop_last(),
                ));
            } else {
                assert(self@ =~= old(self)@);
            }
        }
        block
    }
}

/// A fixed-size block allocator: requests are rounded up to one of a few
/// block sizes, freed blocks wait on the list of their size for the next
/// request of that size, and a general-purpose heap serves the rest.
pub struct FixedSizeAllocator {
    list_heads: FreeLists,
    fall_back_allocator: Heap,
}

impl View for FixedSizeAllocator {
    type V = FixedSizeState;

    closed spec fn view(&self) -> FixedSizeState {
        FixedSizeState { lists: self.list_heads@, fallback: self.fall_back_allocator }
    }
}

impl FixedSizeAllocator {
    /// An allocator with empty lists over a heap without memory: every
    /// request fails until `init`.
    pub fn new() -> (allocator: Self)
        ensures
            allocator@.wf(),
            allocator@.lists == empty_lists(),
            allocator@.memory() == Set::<int>::empty(),
            allocator@.free() == Set::<int>::empty(),
            allocator@.memory_end() == 0,
    {
        FixedSizeAllocator { list_heads: FreeLists::new(), fall_back_allocator: Heap::empty() }
    }

    /// Starts over with empty lists and a fallback heap over the region
    /// `mem`. The heap's memory ends where the region ends, is all free,
    /// and is the region but for less than two machine words that the heap
    /// cuts off for the alignment of its bookkeeping. A region shorter
    /// than three machine words cannot hold that bookkeeping: the heap then
    /// stays without memory.
    pub fn init(&mut self, mem: &'static mut [MaybeUninit<u8>])
        ensures
            final(self)@.wf(),
            final(self)@.lists == empty_lists(),
            final(self)@.free() == final(self)@.memory(),
            final(self)@.memory().finite(),
            old(mem)@.len() >= 3 * size_of::<usize>() ==> {
                &&& old(mem)@.len() - 2 * size_of::<usize>() < final(self)@.memory().len() <= old(
                    mem,
                )@.len()
                &&& forall|b: int|
                    final(self)@.memory().contains(b) ==> final(self)@.memory_end() - old(
                        mem,
                    )@.len() <= b < final(self)@.memory_end()
            },
            old(mem)@.len() < 3 * size_of::<usize>() ==> {
                &&& final(self)@.memory() == Set::<int>::empty()
                &&& final(self)@.memory_end() == 0
            },
    {
        broadcast use vstd::layout::layout_of_primitives;

        self.list_heads = FreeLists::new();
        self.fall_back_allocator = Heap::empty();
        if mem.len() >= 3 * core::mem::size_of::<usize>() {
            heap_init_from_slice(&mut self.fall_back_allocator, mem);
        }
    }

    /// Asks the fallback heap for a block and hands on what it finds. The
    /// heap is not asked, and the request fails, where the search could
    /// reach an address that wraps around the end of the address space.
    fn fallback_alloc(&mut self, size: usize, align: usize) -> (block: Option<usize>)
        requires
            layout_fits(size as int, align as int),
        ensures
            final(self)@.lists == old(self)@.lists,
            match block {
                Some(addr) => {
                    &&& old(self)@.fallback_serves(align as int)
                    &&& heap_first_fit(old(self)@.fallback, size as int, align as int) == Some(
                        addr as int,
                    )
                    &&& block_taken(
                        old(self)@.fallback,
                        final(self)@.fallback,
                        addr as int,
                        size as int,
                        align as int,
                    )
                },
                None => {
                    &&& old(self)@.fallback_serves(align as int) ==> heap_first_fit(
                        old(self)@.fallback,
                        size as int,
                        align as int,
                    ) is None
                    &&& final(self)@ == old(self)@
                },
            },
    {
        broadcast use vstd::layout::layout_of_primitives;

        let reach = match heap_top(&self.fall_back_allocator).checked_add(align) {
            Some(reach) => reach.checked_add(3 * core::mem::size_of::<usize>()),
            None => None,
        };
        if reach.is_none() {
            return None;
        }
        heap_allocate_first_fit(&mut self.fall_back_allocator, size, align)
    }

    /// Serves a request for `size` bytes at alignment `align`. A request
    /// with a size class takes the block freed last on the list of its
    /// class; where the list is empty, the fallback heap is asked for a
    /// fresh block of the class, aligned to its size. A request without a
    /// class goes to the fallback heap as it is. The heap is not asked
    /// where its search could reach an address that wraps around the end
    /// of the address space: the request then fails. A failed request
    /// changes nothing.
    pub fn allocate(&mut self, size: usize, align: usize) -> (block: Option<usize>)
        ensures
            final(self)@.wf(),
            final(self)@.lists == old(self)@.allocate(size as int, align as int).lists,
            match block {
                Some(addr) => old(self)@.alloc_result(size as int, align as int) == Some(
                    addr as int,
                ),
                None => old(self)@.alloc_result(size as int, align as int) is None,
            },
            match old(self)@.fallback_request(size as int, align as int) {
                Some(request) => match block {
                    Some(addr) => block_taken(
                        old(self)@.fallback,
                        final(self)@.fallback,
                        addr as int,
                        request.0,
                        request.1,
                    ),
                    None => final(self)@ == old(self)@,
                },
                None => final(self)@ == old(self)@.allocate(size as int, align as int),
            },
            block is None ==> final(self)@ == old(self)@,
            final(self)@.memory() == old(self)@.memory(),
            final(self)@.memory_end() == old(self)@.memory_end(),
            old(self)@.blocks_aligned() ==> final(self)@.blocks_aligned(),
            old(self)@.blocks_inside() ==> final(self)@.blocks_inside(),
            old(self)@.blocks_aligned() && is_pow2(align as int) ==> (block matches Some(addr)
                ==> addr % align == 0),
            old(self)@.blocks_inside() ==> (block matches Some(addr) ==> block_inside(
                old(self)@.memory(),
                addr as int,
                size as int,
            )),
            old(self)@.reused_block(size as int, align as int) is None
                && old(self)@.memory().finite() && size > old(self)@.memory().len()
                ==> block is None,
    {
        proof {
            lemma_allocate_keeps_blocks(self@, size as int, align as int);
        }
        match block_size_index(size, align) {
            Some(index) => {
                proof {
                    lemma_block_sizes_are_powers_of_two(index as int);
                    if is_pow2(align as int) {
                        lemma_smaller_power_divides(align as int, BLOCK_SIZES[index as int] as int);
                    }
                }
                match self.list_heads.pop(index) {
                    Some(addr) => {
                        proof {
                            lemma_reused_block_serves_request(old(self)@, size as int, align as int);
                        }
                        Some(addr)
                    },
                    None => {
                        let block_size = BLOCK_SIZES[index];
                        let block_align = block_size;
                        let block = self.fallback_alloc(block_size, block_align);
                        proof {
                            if let Some(addr) = block {
                                lemma_fresh_block_keeps_blocks(
                                    old(self)@,
                                    self@,
                                    addr as int,
                                    block_size as int,
                                    block_size as int,
                                );
                                if is_pow2(align as int) {
                                    lemma_multiple_of_multiple(
                                        addr as int,
                                        block_size as int,
                                        align as int,
                                    );
                                }
                                if old(self)@.memory().finite() {
                                    lemma_block_needs_room(
                                        old(self)@.memory(),
                                        addr as int,
                                        size as int,
                                    );
                                }
                            }
                        }
                        block
                    },
                }
            },
            None => {
                if is_valid_layout(size, align) {
                    let block = self.fallback_alloc(size, align);
                    proof {
                        if let Some(addr) = block {
                            lemma_fresh_block_keeps_blocks(
                                old(self)@,
                                self@,
                                addr as int,
                                size as int,
                                align as int,
                            );
                            if old(self)@.memory().finite() {
                                lemma_block_needs_room(
                                    old(self)@.memory(),
                                    addr as int,
                                    size as int,
                                );
                            }
                        }
                    }
                    block
                } else {
                    None
                }
            },
        }
    }

    /// Takes a block back. A block of a size class goes on the list of its
    /// class and `true` is returned. Any other block belongs to the
    /// fallback heap, which takes blocks back only from code that vouches
    /// for them: nothing changes, `false` is returned, and the caller hands
    /// the block to the heap that `fallback_mut` gives.
    pub fn deallocate(&mut self, ptr: usize, size: usize, align: usize) -> (recycled: bool)
        ensures
            final(self)@ == old(self)@.deallocate(ptr, size as int, align as int),
            final(self)@.wf(),
            recycled == block_size_index_spec(size as int, align as int).is_some(),
            final(self)@.reused_block(size as int, align as int) == if recycled {
                Some(ptr)
            } else {
                None
            },
            old(self)@.blocks_aligned() && (block_size_index_spec(
                size as int,
                align as int,
            ) matches Some(index) ==> ptr % BLOCK_SIZES[index] == 0)
                ==> final(self)@.blocks_aligned(),
            old(self)@.blocks_inside() && (block_size_index_spec(
                size as int,
                align as int,
            ) matches Some(index) ==> block_inside(
                old(self)@.memory(),
                ptr as int,
                BLOCK_SIZES[index] as int,
            )) ==> final(self)@.blocks_inside(),
    {
        proof {
            lemma_deallocate_keeps_blocks(self@, ptr, size as int, align as int);
        }
        match block_size_index(size, align) {
            Some(index) => {
                self.list_heads.push(index, ptr);
                true
            },
            None => false,
        }
    }

    /// The fallback heap, for the caller that hands a block without a size
    /// class back to it.
    pub fn fallback_mut(&mut self) -> (heap: &mut Heap)
        ensures
            *heap == old(self)@.fallback,
            final(self)@ == (FixedSizeState { fallback: *final(heap), ..old(self)@ }),
    {
        &mut self.fall_back_allocator
    }
}

/// A block that the fallback heap hands out leaves the lists and the
/// heap's memory as they were, and lies inside that memory.
pub proof fn lemma_fresh_block_keeps_blocks(
    before: FixedSizeState,
    after: FixedSizeState,
    addr: int,
    size: int,
    align: int,
)
    requires
        after.lists == before.lists,
        block_taken(before.fallback, after.fallback, addr, size, align),
    ensures
        after.memory() == before.memory(),
        after.memory_end() == before.memory_end(),
        block_inside(before.memory(), addr, size),
        before.blocks_aligned() ==> after.blocks_aligned(),
        before.blocks_inside() ==> after.blocks_inside(),
{
}

/// A block that is reused serves its request: where the listed blocks are
/// aligned as their classes ask, it starts at a multiple of any alignment
/// that is a power of two and was asked for, and where they lie inside the
/// memory, so do the bytes that were asked for.
pub proof fn lemma_reused_block_serves_request(s: FixedSizeState, size: int, align: int)
    requires
        s.wf(),
        s.reused_block(size, align) is Some,
    ensures
        s.blocks_aligned() && is_pow2(align) ==> s.reused_block(size, align).unwrap() as int
            % align == 0,
        s.blocks_inside() ==> block_inside(
            s.memory(),
            s.reused_block(size, align).unwrap() as int,
            size,
        ),
{
    lemma_block_size_index_is_least_fit(size, align);
    let index = block_size_index_spec(size, align).unwrap();
    let at = s.lists[index].len() - 1;
    let addr = s.lists[index][at];
    lemma_block_sizes_are_powers_of_two(index);
    if s.blocks_aligned() && is_pow2(align) {
        lemma_smaller_power_divides(align, BLOCK_SIZES[index] as int);
        lemma_multiple_of_multiple(addr as int, BLOCK_SIZES[index] as int, align);
    }
}

/// A request leaves the blocks that stay on the lists where they were, so
/// what held of every listed block still holds.
pub proof fn lemma_allocate_keeps_blocks(s: FixedSizeState, size: int, align: int)
    requires
        s.wf(),
    ensures
        s.allocate(size, align).wf(),
        s.allocate(size, align).fallback == s.fallback,
        s.blocks_aligned() ==> s.allocate(size, align).blocks_aligned(),
        s.blocks_inside() ==> s.allocate(size, align).blocks_inside(),
        s.reused_block(size, align) is None ==> s.allocate(size, align) == s,
{
    lemma_block_size_index_is_least_fit(size, align);
    let after = s.allocate(size, align);
    if s.blocks_aligned() {
        assert forall|index: int, at: int|
            0 <= index < 9 && 0 <= at < after.lists[index].len() implies (
        #[trigger] after.lists[index][at]) % BLOCK_SIZES[index] == 0 by {
            assert(after.lists[index][at] == s.lists[index][at]);
        }
    }
    if s.blocks_inside() {
        assert forall|index: int, at: int|
            0 <= index < 9 && 0 <= at < after.lists[index].len() implies block_inside(
            after.memory(),
            (#[trigger] after.lists[index][at]) as int,
            BLOCK_SIZES[index] as int,
        ) by {
            assert(after.lists[index][at] == s.lists[index][at]);
        }
    }
}

/// A block that is given back is the next block that a request of its class
/// gets; where the block is aligned as its class asks, or lies inside the
/// memory, the lists keep that property.
pub proof fn lemma_deallocate_keeps_blocks(s: FixedSizeState, ptr: usize, size: int, align: int)
    requires
        s.wf(),
    ensures
        s.deallocate(ptr, size, align).wf(),
        s.deallocate(ptr, size, align).fallback == s.fallback,
        s.deallocate(ptr, size, align).reused_block(size, align) == if block_size_index_spec(
            size,
            align,
        ) is Some {
            Some(ptr)
        } else {
            None
        },
        s.blocks_aligned() && (block_size_index_spec(size, align) matches Some(index) ==> ptr
            % BLOCK_SIZES[index] == 0) ==> s.deallocate(ptr, size, align).blocks_aligned(),
        s.blocks_inside() && (block_size_index_spec(size, align) matches Some(index)
            ==> block_inside(s.memory(), ptr as int, BLOCK_SIZES[index] as int)) ==> s.deallocate(
            ptr,
            size,
            align,
        ).blocks_inside(),
{
    lemma_block_size_index_is_least_fit(size, align);
    let after = s.deallocate(ptr, size, align);
    if s.blocks_aligned() && (block_size_index_spec(size, align) matches Some(index) ==> ptr
        % BLOCK_SIZES[index] == 0) {
        assert forall|index: int, at: int|
            0 <= index < 9 && 0 <= at < after.lists[index].len() implies (
        #[trigger] after.lists[index][at]) % BLOCK_SIZES[index] == 0 by {
            if at < s.lists[index].len() {
                assert(after.lists[index][at] == s.lists[index][at]);
            }
        }
    }
    if s.blocks_inside() && (block_size_index_spec(size, align) matches Some(index)
        ==> block_inside(s.memory(), ptr as int, BLOCK_SIZES[index] as int)) {
        assert forall|index: int, at: int|
            0 <= index < 9 && 0 <= at < after.lists[index].len() implies block_inside(
            after.memory(),
            (#[trigger] after.lists[index][at]) as int,
            BLOCK_SIZES[index] as int,
        ) by {
            if at < s.lists[index].len() {
                assert(after.lists[index][at] == s.lists[index][at]);
            }
        }
    }
}

/// A block of a size class that is given back is the block that the next
/// request of that class gets, whatever request of the class gave it
/// back; the fallback heap is not asked, and after the request the state
/// is what it was before the block was given back.
pub proof fn lemma_freed_block_is_reused(
    s: FixedSizeState,
    ptr: usize,
    freed: (int, int),
    asked: (int, int),
)
    requires
        s.wf(),
        block_size_index_spec(freed.0, freed.1) is Some,
        block_size_index_spec(asked.0, asked.1) == block_size_index_spec(freed.0, freed.1),
    ensures
        s.deallocate(ptr, freed.0, freed.1).reused_block(asked.0, asked.1) == Some(ptr),
        s.deallocate(ptr, freed.0, freed.1).fallback_request(asked.0, asked.1) is None,
        s.deallocate(ptr, freed.0, freed.1).allocate(asked.0, asked.1) == s,
{
    lemma_block_size_index_is_least_fit(freed.0, freed.1);
    let index = block_size_index_spec(freed.0, freed.1).unwrap();
    let freed_list = s.lists[index].push(ptr);
    assert(freed_list.drop_last() =~= s.lists[index]);
    assert(s.lists.update(index, freed_list).update(index, s.lists[index]) =~= s.lists);
}

/// Blocks of one size class come back in the reverse of the order in which
/// they were given back: of two, the one freed last is handed out first
/// and the other next.
pub proof fn lemma_free_list_is_a_stack(
    s: FixedSizeState,
    first: usize,
    second: usize,
    size: int,
    align: int,
)
    requires
        s.wf(),
        block_size_index_spec(size, align) is Some,
    ensures
        ({
            let freed = s.deallocate(first, size, align).deallocate(second, size, align);
            &&& freed.reused_block(size, align) == Some(second)
            &&& freed.allocate(size, align).reused_block(size, align) == Some(first)
            &&& freed.allocate(size, align).allocate(size, align) == s
        }),
{
    let once = s.deallocate(first, size, align);
    lemma_deallocate_keeps_blocks(s, first, size, align);
    lemma_freed_block_is_reused(once, second, (size, align), (size, align));
    lemma_freed_block_is_reused(s, first, (size, align), (size, align));
}

/// Once a request of a size class is served from the free list, any number
/// of rounds of that request followed by the release of its block are
/// served from the list as well, each with the same block, and the state
/// after each round is the state before it.
pub proof fn lemma_round_trips_never_fail(s: FixedSizeState, size: int, align: int, n: nat)
    requires
        s.wf(),
        s.reused_block(size, align) is Some,
    ensures
        s.allocate(size, align).deallocate(s.reused_block(size, align).unwrap(), size, align) == s,
        s.round_trips_reuse(size, align, n),
    decreases n,
{
    lemma_block_size_index_is_least_fit(size, align);
    let index = block_size_index_spec(size, align).unwrap();
    let ptr = s.lists[index].last();
    let taken = s.lists[index].drop_last();
    assert(taken.push(ptr) =~= s.lists[index]);
    assert(s.lists.update(index, taken).update(index, s.lists[index]) =~= s.lists);
    if n > 0 {
        lemma_round_trips_never_fail(s, size, align, (n - 1) as nat);
    }
}

/// After a block of a size class is given back, any number of rounds of a
/// request of that class followed by the release of its block are served
/// from the free list.
pub proof fn lemma_round_trips_after_release(
    s: FixedSizeState,
    ptr: usize,
    size: int,
    align: int,
    n: nat,
)
    requires
        s.wf(),
        block_size_index_spec(size, align) is Some,
    ensures
        s.deallocate(ptr, size, align).round_trips_reuse(size, align, n),
{
    lemma_deallocate_keeps_blocks(s, ptr, size, align);
    lemma_round_trips_never_fail(s.deallocate(ptr, size, align), size, align, n);
}

/// A request that needs exactly the largest block size belongs to the last
/// size class, and a request that needs one byte more belongs to none.
pub proof fn lemma_largest_class_boundary(size: int, align: int)
    ensures
        required_block_size(size, align) == 2048 ==> block_size_index_spec(size, align) == Some(
            8int,
        ),
        required_block_size(size, align) > 2048 ==> block_size_index_spec(size, align) is None,
        required_block_size(size, align) <= 2048 ==> block_size_index_spec(size, align) is Some,
{
    reveal_with_fuel(first_class_from, 10);
}

} // verus!
