//! The general-purpose heap that backs the size classes: a first-fit
//! allocator over a linked list of holes, kept in the memory it manages.

use vstd::prelude::*;
use vstd::arithmetic::power2::is_pow2;
use vstd::layout::size_of;
use vstd::set_lib::{lemma_int_range, lemma_len_subset, set_int_range};
use core::mem::MaybeUninit;
use core::alloc::Layout;
use linked_list_allocator::Heap;
use crate::allocator::align::{align_up_spec, checked_align_up, is_power_of_two};

verus! {

/// The heap of `linked_list_allocator`, opaque to the verifier.
#[verifier::external_type_specification]
#[verifier::external_body]
pub struct ExHeap(linked_list_allocator::Heap);

/// The addresses of the bytes that a heap hands out blocks from: those from
/// its bottom up to, and without, the end of its usable size.
pub uninterp spec fn heap_memory(heap: Heap) -> Set<int>;

/// The addresses of the bytes of a heap's memory that are free: those of
/// its holes.
pub uninterp spec fn heap_free(heap: Heap) -> Set<int>;

/// The address at which the memory that a heap was given ends; 0 for a heap
/// without memory.
pub uninterp spec fn heap_end(heap: Heap) -> int;

/// The address of the block that a heap finds for `size` bytes at alignment
/// `align`, if it finds one.
pub uninterp spec fn heap_first_fit(heap: Heap, size: int, align: int) -> Option<int>;

/// Whether a request has a size and an alignment that a block can have: the
/// alignment is a power of two, and the size, rounded up to a multiple of
/// it, does not exceed `isize::MAX`.
pub open spec fn layout_fits(size: int, align: int) -> bool {
    is_pow2(align) && align_up_spec(size, align) <= isize::MAX
}

/// Whether a heap whose memory ends at `end` can look for a block of
/// alignment `align` without an address that wraps around: the search adds
/// the alignment and up to three machine words to addresses of the heap.
pub open spec fn search_fits(end: int, align: int) -> bool {
    end + align + 3 * size_of::<usize>() <= usize::MAX
}

/// Whether the `size` bytes from `addr` on all belong to `memory`.
pub open spec fn block_inside(memory: Set<int>, addr: int, size: int) -> bool {
    forall|b: int| addr <= b < addr + size ==> memory.contains(b)
}

/// What holds of a heap before and after it has handed out the `size` bytes
/// at `addr` for the alignment `align`: the address is a multiple of the
/// alignment; the heap has the memory it had, and no byte has become free;
/// the block, and its address even where the block has no bytes, were free
/// and are free no longer.
pub open spec fn block_taken(before: Heap, after: Heap, addr: int, size: int, align: int) -> bool {
    &&& addr % align == 0
    &&& heap_memory(after) == heap_memory(before)
    &&& heap_end(after) == heap_end(before)
    &&& heap_free(before).subset_of(heap_memory(before))
    &&& heap_free(after).subset_of(heap_free(before))
    &&& heap_free(before).contains(addr)
    &&& !heap_free(after).contains(addr)
    &&& forall|b: int|
        addr <= b < addr + size ==> heap_free(before).contains(b) && !heap_free(after).contains(b)
}

/// `Heap::empty` makes a heap that manages no memory; its bottom and its
/// top are the null address, and it has no hole.
pub assume_specification[ Heap::empty ]() -> (heap: Heap)
    ensures
        heap_memory(heap) == Set::<int>::empty(),
        heap_free(heap) == Set::<int>::empty(),
        heap_end(heap) == 0,
;

/// `Heap::init_from_slice` gives an empty heap the memory of `mem`. The
/// heap's memory then ends where the slice ends. The heap manages the
/// slice but for what it cuts off to align its bookkeeping, less than a
/// machine word at either end, and all of that is free. The outside
/// function panics on a heap that already has memory and on a slice too
/// short for the bookkeeping, which three machine words never are.
#[verifier::external_body]
pub(crate) fn heap_init_from_slice(heap: &mut Heap, mem: &'static mut [MaybeUninit<u8>])
    requires
        heap_memory(*old(heap)) == Set::<int>::empty(),
        old(mem)@.len() >= 3 * size_of::<usize>(),
    ensures
        heap_memory(*final(heap)).finite(),
        old(mem)@.len() - 2 * size_of::<usize>() < heap_memory(*final(heap)).len() <= old(
            mem,
        )@.len(),
        forall|b: int|
            heap_memory(*final(heap)).contains(b) ==> heap_end(*final(heap)) - old(mem)@.len() <= b
                < heap_end(*final(heap)),
        heap_free(*final(heap)) == heap_memory(*final(heap)),
{
    heap.init_from_slice(mem)
}

/// `Heap::top` gives the address at which the heap's memory ends: every
/// byte that the heap hands out lies below it.
#[verifier::external_body]
pub(crate) fn heap_top(heap: &Heap) -> (top: usize)
    ensures
        top == heap_end(*heap),
        forall|b: int| heap_memory(*heap).contains(b) ==> b < top,
{
    heap.top() as usize
}

/// `Heap::allocate_first_fit` looks for the first hole that can hold `size`
/// bytes at alignment `align`; what it finds depends on the heap and on the
/// request alone. A block that is found is taken from the free bytes of the
/// heap. Where none is found the heap is left as it was. The outside crate
/// computes addresses with wrapping arithmetic, so the search has to fit
/// below the end of the address space.
#[verifier::external_body]
pub(crate) fn heap_allocate_first_fit(heap: &mut Heap, size: usize, align: usize) -> (block: Option<
    usize,
>)
    requires
        layout_fits(size as int, align as int),
        search_fits(heap_end(*old(heap)), align as int),
    ensures
        match block {
            Some(addr) => {
                &&& heap_first_fit(*old(heap), size as int, align as int) == Some(addr as int)
                &&& block_taken(*old(heap), *final(heap), addr as int, size as int, align as int)
            },
            None => {
                &&& heap_first_fit(*old(heap), size as int, align as int) is None
                &&& *final(heap) == *old(heap)
            },
        },
{
    let layout = Layout::from_size_align(size, align).unwrap();
    heap.allocate_first_fit(layout).ok().map(|ptr| ptr.as_ptr() as usize)
}

/// Whether a request has a size and an alignment that a block can have.
pub fn is_valid_layout(size: usize, align: usize) -> (valid: bool)
    ensures
        valid == layout_fits(size as int, align as int),
{
    if !is_power_of_two(align) {
        return false;
    }
    proof {
        reveal(is_pow2);
    }
    match checked_align_up(size, align) {
        Some(rounded) => rounded <= isize::MAX as usize,
        None => false,
    }
}

/// A block that lies inside a finite memory is not larger than the memory.
pub proof fn lemma_block_needs_room(memory: Set<int>, addr: int, size: int)
    requires
        memory.finite(),
        size >= 0,
        block_inside(memory, addr, size),
    ensures
        size <= memory.len(),
{
    let block = set_int_range(addr, addr + size);
    lemma_int_range(addr, addr + size);
    assert(block.subset_of(memory));
    lemma_len_subset(block, memory);
}

/// A heap hands a block out only once: a block that is taken from a heap
/// and a block that is taken later, from what was left free, have
/// different addresses and no byte in common.
pub proof fn lemma_taken_blocks_differ(
    first: (Heap, Heap),
    first_block: (int, int, int),
    second: (Heap, Heap),
    second_block: (int, int, int),
)
    requires
        block_taken(first.0, first.1, first_block.0, first_block.1, first_block.2),
        heap_free(second.0).subset_of(heap_free(first.1)),
        block_taken(second.0, second.1, second_block.0, second_block.1, second_block.2),
    ensures
        first_block.0 != second_block.0,
        set_int_range(first_block.0, first_block.0 + first_block.1).disjoint(
            set_int_range(second_block.0, second_block.0 + second_block.1),
        ),
{
    assert(heap_free(second.0).contains(second_block.0));
    let earlier = set_int_range(first_block.0, first_block.0 + first_block.1);
    let later = set_int_range(second_block.0, second_block.0 + second_block.1);
    assert forall|b: int| earlier.contains(b) implies !later.contains(b) by {
        if later.contains(b) {
            assert(heap_free(second.0).contains(b));
            assert(!heap_free(first.1).contains(b));
        }
    }
}

} // verus!
