use blog_os::allocator::fixed_size_block::{block_size_index, FixedSizeAllocator, BLOCK_SIZES};
use std::mem::MaybeUninit;

fn region(size: usize) -> &'static mut [MaybeUninit<u8>] {
    Box::leak(vec![MaybeUninit::<u8>::uninit(); size].into_boxed_slice())
}

fn heap(size: usize) -> FixedSizeAllocator {
    let mut allocator = FixedSizeAllocator::new();
    allocator.init(region(size));
    allocator
}

#[test]
fn block_sizes_are_the_powers_of_two_from_8_to_2048() {
    assert_eq!(BLOCK_SIZES, [8, 16, 32, 64, 128, 256, 512, 1024, 2048]);
}

#[test]
fn block_size_index_of_small_requests() {
    assert_eq!(block_size_index(0, 1), Some(0));
    assert_eq!(block_size_index(1, 1), Some(0));
    assert_eq!(block_size_index(8, 8), Some(0));
    assert_eq!(block_size_index(8, 1), Some(0));
    assert_eq!(block_size_index(9, 1), Some(1));
    assert_eq!(block_size_index(16, 16), Some(1));
}

#[test]
fn block_size_index_takes_the_larger_of_size_and_alignment() {
    assert_eq!(block_size_index(8, 16), Some(1));
    assert_eq!(block_size_index(1, 64), Some(3));
    assert_eq!(block_size_index(100, 4), Some(4));
    assert_eq!(block_size_index(100, 512), Some(6));
    assert_eq!(block_size_index(1, 2048), Some(8));
    assert_eq!(block_size_index(1, 4096), None);
}

#[test]
fn block_size_index_at_every_class_boundary() {
    for (index, block_size) in BLOCK_SIZES.iter().enumerate() {
        assert_eq!(block_size_index(*block_size, 1), Some(index));
        assert_eq!(block_size_index(1, *block_size), Some(index));
        if index > 0 {
            assert_eq!(block_size_index(BLOCK_SIZES[index - 1] + 1, 1), Some(index));
        }
        if index + 1 < BLOCK_SIZES.len() {
            assert_eq!(block_size_index(*block_size + 1, 1), Some(index + 1));
        }
    }
}

#[test]
fn block_size_index_at_the_largest_class() {
    assert_eq!(block_size_index(2048, 8), Some(8));
    assert_eq!(block_size_index(2048, 2048), Some(8));
    assert_eq!(block_size_index(2049, 8), None);
    assert_eq!(block_size_index(usize::MAX, 1), None);
}

#[test]
fn fixed_size_without_memory_serves_nothing() {
    let mut allocator = FixedSizeAllocator::new();
    assert_eq!(allocator.allocate(8, 8), None);
    assert_eq!(allocator.allocate(2048, 8), None);
    assert_eq!(allocator.allocate(4096, 8), None);
    assert_eq!(allocator.allocate(0, 1), None);
    assert_eq!(allocator.allocate(0, 4096), None);
    assert_eq!(allocator.allocate(0, 1 << 20), None);
}

#[test]
fn fixed_size_region_too_short_for_the_heap_serves_nothing() {
    let mut allocator = heap(2 * std::mem::size_of::<usize>());
    assert_eq!(allocator.allocate(8, 8), None);
    assert_eq!(allocator.allocate(1, 1), None);
}

#[test]
fn fixed_size_fresh_blocks_are_aligned_to_their_class() {
    let mut allocator = heap(1 << 16);
    for (size, align, class) in [(1usize, 1usize, 8usize), (8, 8, 8), (9, 1, 16), (24, 8, 32), (100, 4, 128), (3, 256, 256), (2048, 1, 2048)] {
        let addr = allocator.allocate(size, align).unwrap();
        assert_eq!(addr % class, 0);
        assert_eq!(addr % align, 0);
    }
}

#[test]
fn fixed_size_fresh_blocks_do_not_overlap() {
    let memory = region(1 << 16);
    let bottom = memory.as_ptr() as usize;
    let top = bottom + memory.len();
    let mut allocator = FixedSizeAllocator::new();
    allocator.init(memory);
    let mut blocks: Vec<(usize, usize)> = Vec::new();
    for (size, align) in [(8usize, 8usize), (8, 8), (16, 16), (64, 8), (2048, 2048), (4096, 16), (100, 1), (3000, 64)] {
        let addr = allocator.allocate(size, align).unwrap();
        assert_eq!(addr % align, 0);
        assert!(bottom <= addr && addr + size <= top);
        for (other, other_size) in &blocks {
            assert!(addr + size <= *other || *other + *other_size <= addr);
        }
        blocks.push((addr, size));
    }
}

#[test]
fn fixed_size_large_requests_go_to_the_heap_as_they_are() {
    let mut allocator = heap(1 << 16);
    let addr = allocator.allocate(4096, 4096).unwrap();
    assert_eq!(addr % 4096, 0);
    let addr = allocator.allocate(2049, 8).unwrap();
    assert_eq!(addr % 8, 0);
    let addr = allocator.allocate(16, 8192).unwrap();
    assert_eq!(addr % 8192, 0);
}

#[test]
fn fixed_size_request_that_no_block_can_have_fails() {
    let mut allocator = heap(1 << 16);
    assert_eq!(allocator.allocate(4096, 3), None);
    assert_eq!(allocator.allocate(4096, 0), None);
    assert_eq!(allocator.allocate(usize::MAX, 8), None);
    assert_eq!(allocator.allocate(isize::MAX as usize, 4096), None);
    assert!(allocator.allocate(4096, 8).is_some());
}

#[test]
fn fixed_size_exhaustion_fails_and_changes_nothing() {
    let mut allocator = heap(1024);
    assert_eq!(allocator.allocate(4096, 8), None);
    assert_eq!(allocator.allocate(2048, 8), None);
    let first = allocator.allocate(64, 8);
    assert!(first.is_some());
    assert_eq!(allocator.allocate(100_000, 8), None);
    assert!(allocator.deallocate(first.unwrap(), 64, 8));
    assert_eq!(allocator.allocate(64, 8), first);
}

#[test]
fn fixed_size_freed_block_is_reused() {
    let mut allocator = heap(1 << 14);
    for (size, align) in [(8usize, 8usize), (16, 4), (100, 8), (2048, 8), (1, 512)] {
        let addr = allocator.allocate(size, align).unwrap();
        assert!(allocator.deallocate(addr, size, align));
        assert_eq!(allocator.allocate(size, align), Some(addr));
    }
}

#[test]
fn fixed_size_freed_block_serves_any_request_of_its_class() {
    let mut allocator = heap(1 << 14);
    let addr = allocator.allocate(100, 8).unwrap();
    assert!(allocator.deallocate(addr, 100, 8));
    assert_eq!(allocator.allocate(65, 128), Some(addr));
    assert!(allocator.deallocate(addr, 65, 128));
    assert_eq!(allocator.allocate(128, 1), Some(addr));
}

#[test]
fn fixed_size_freed_block_does_not_serve_another_class() {
    let mut allocator = heap(1 << 14);
    let addr = allocator.allocate(8, 8).unwrap();
    assert!(allocator.deallocate(addr, 8, 8));
    let other = allocator.allocate(16, 8).unwrap();
    assert_ne!(other, addr);
    assert_eq!(allocator.allocate(8, 8), Some(addr));
}

#[test]
fn fixed_size_free_list_is_a_stack() {
    let mut allocator = heap(1 << 14);
    let a = allocator.allocate(8, 8).unwrap();
    let b = allocator.allocate(8, 8).unwrap();
    let c = allocator.allocate(8, 8).unwrap();
    assert!(allocator.deallocate(a, 8, 8));
    assert!(allocator.deallocate(c, 8, 8));
    assert!(allocator.deallocate(b, 8, 8));
    assert_eq!(allocator.allocate(8, 8), Some(b));
    assert_eq!(allocator.allocate(8, 8), Some(c));
    assert_eq!(allocator.allocate(8, 8), Some(a));
}

#[test]
fn fixed_size_concrete_scenario() {
    let mut allocator = heap(1024);
    let first = allocator.allocate(8, 8).unwrap();
    let second = allocator.allocate(8, 8).unwrap();
    assert_ne!(first, second);
    assert_eq!(first % 8, 0);
    assert_eq!(second % 8, 0);
    assert!(allocator.deallocate(first, 8, 8));
    assert!(allocator.deallocate(second, 8, 8));
    assert_eq!(allocator.allocate(8, 8), Some(second));
    assert_eq!(allocator.allocate(8, 8), Some(first));
}

#[test]
fn fixed_size_round_trips_never_fail() {
    let mut allocator = heap(4096);
    let first = allocator.allocate(2048, 8).unwrap();
    assert!(allocator.deallocate(first, 2048, 8));
    for _ in 0..1000 {
        let addr = allocator.allocate(2048, 8);
        assert_eq!(addr, Some(first));
        assert!(allocator.deallocate(first, 2048, 8));
    }
}

#[test]
fn fixed_size_lists_are_plain_bookkeeping() {
    let mut allocator = FixedSizeAllocator::new();
    assert!(allocator.deallocate(0x2000, 8, 8));
    assert!(allocator.deallocate(0x3000, 5, 8));
    assert!(allocator.deallocate(0x4000, 16, 8));
    assert_eq!(allocator.allocate(8, 4), Some(0x3000));
    assert_eq!(allocator.allocate(12, 4), Some(0x4000));
    assert_eq!(allocator.allocate(8, 4), Some(0x2000));
    assert_eq!(allocator.allocate(8, 4), None);
}

#[test]
fn fixed_size_block_without_class_is_not_listed() {
    let mut allocator = heap(1 << 14);
    let addr = allocator.allocate(4096, 8).unwrap();
    assert!(!allocator.deallocate(addr, 4096, 8));
    assert!(!allocator.deallocate(addr, 8, 4096));
    let next = allocator.allocate(4096, 8).unwrap();
    assert_ne!(next, addr);
}

#[test]
fn fixed_size_init_empties_the_lists() {
    let mut allocator = FixedSizeAllocator::new();
    assert!(allocator.deallocate(0x2000, 8, 8));
    allocator.init(region(4096));
    let addr = allocator.allocate(8, 8).unwrap();
    assert_ne!(addr, 0x2000);
}

#[test]
fn fixed_size_init_starts_over_with_the_new_region() {
    let first = region(4096);
    let first_bottom = first.as_ptr() as usize;
    let second = region(4096);
    let second_bottom = second.as_ptr() as usize;
    let mut allocator = FixedSizeAllocator::new();
    allocator.init(first);
    let addr = allocator.allocate(64, 64).unwrap();
    assert!(first_bottom <= addr && addr + 64 <= first_bottom + 4096);
    allocator.init(second);
    let addr = allocator.allocate(64, 64).unwrap();
    assert!(second_bottom <= addr && addr + 64 <= second_bottom + 4096);
}

#[test]
fn fixed_size_fallback_heap_is_the_one_that_was_initialised() {
    let memory = region(4096);
    let bottom = memory.as_ptr() as usize;
    let mut allocator = FixedSizeAllocator::new();
    assert_eq!(allocator.fallback_mut().size(), 0);
    allocator.init(memory);
    let heap = allocator.fallback_mut();
    assert!(heap.size() > 4096 - 2 * std::mem::size_of::<usize>());
    assert!(heap.size() <= 4096);
    assert!(heap.bottom() as usize >= bottom);
    assert_eq!(heap.top() as usize, bottom + 4096);
    assert_eq!(heap.used(), 0);
    assert_eq!(heap.free(), heap.size());
    let addr = allocator.allocate(2048, 8).unwrap();
    assert_eq!(allocator.fallback_mut().used(), 2048);
    assert!(allocator.deallocate(addr, 2048, 8));
    assert_eq!(allocator.fallback_mut().used(), 2048);
    assert_eq!(allocator.allocate(2048, 8), Some(addr));
    assert_eq!(allocator.fallback_mut().used(), 2048);
}

#[test]
fn fixed_size_heap_owns_an_unaligned_region_but_for_its_ends() {
    let memory = region(4096 + 3);
    let bottom = memory.as_ptr() as usize;
    let odd = &mut memory[..4093];
    let len = odd.len();
    let mut allocator = FixedSizeAllocator::new();
    allocator.init(odd);
    let heap = allocator.fallback_mut();
    assert_eq!(heap.top() as usize, bottom + len);
    assert!(heap.bottom() as usize >= bottom);
    assert!(heap.size() <= len);
    assert!(heap.size() > len - 2 * std::mem::size_of::<usize>());
    assert_eq!(heap.free(), heap.size());
}

#[test]
fn fixed_size_failed_request_leaves_the_heap_as_it_was() {
    let mut allocator = heap(4096);
    let used = allocator.fallback_mut().used();
    let free = allocator.fallback_mut().free();
    assert_eq!(allocator.allocate(100_000, 8), None);
    assert_eq!(allocator.allocate(4096, 4096), None);
    assert_eq!(allocator.fallback_mut().used(), used);
    assert_eq!(allocator.fallback_mut().free(), free);
    assert!(allocator.allocate(2048, 8).is_some());
}

#[test]
fn fixed_size_large_request_is_handed_on_unrounded() {
    let mut allocator = heap(1 << 16);
    let used = allocator.fallback_mut().used();
    assert!(allocator.allocate(2056, 8).is_some());
    assert_eq!(allocator.fallback_mut().used(), used + 2056);
    let used = allocator.fallback_mut().used();
    assert!(allocator.allocate(24, 8).is_some());
    assert_eq!(allocator.fallback_mut().used(), used + 32);
}
