use blog_os::allocator::align::{align_up, checked_align_up, is_power_of_two};
use blog_os::allocator::fallback::is_valid_layout;

#[test]
fn align_up_keeps_an_aligned_address() {
    assert_eq!(align_up(0x1000, 8), 0x1000);
    assert_eq!(align_up(0, 1), 0);
    assert_eq!(align_up(0, 4096), 0);
    assert_eq!(align_up(24, 8), 24);
}

#[test]
fn align_up_rounds_to_the_next_multiple() {
    assert_eq!(align_up(0x1001, 8), 0x1008);
    assert_eq!(align_up(0x1007, 8), 0x1008);
    assert_eq!(align_up(7, 4), 8);
    assert_eq!(align_up(1, 4096), 4096);
    assert_eq!(align_up(4097, 4096), 8192);
}

#[test]
fn align_up_works_for_any_positive_alignment() {
    assert_eq!(align_up(5, 3), 6);
    assert_eq!(align_up(6, 3), 6);
    assert_eq!(align_up(100, 7), 105);
}

#[test]
fn align_up_result_is_the_least_multiple() {
    for addr in 0..200usize {
        for align in [1usize, 2, 4, 8, 16, 32, 64] {
            let up = align_up(addr, align);
            assert!(up >= addr);
            assert_eq!(up % align, 0);
            assert!(up - addr < align);
        }
    }
}

#[test]
fn checked_align_up_agrees_with_align_up() {
    assert_eq!(checked_align_up(0x1001, 8), Some(0x1008));
    assert_eq!(checked_align_up(0x1000, 8), Some(0x1000));
    assert_eq!(checked_align_up(usize::MAX - 7, 8), Some(usize::MAX - 7));
    assert_eq!(checked_align_up(usize::MAX, 1), Some(usize::MAX));
}

#[test]
fn checked_align_up_fails_on_overflow() {
    assert_eq!(checked_align_up(usize::MAX, 8), None);
    assert_eq!(checked_align_up(usize::MAX - 6, 8), None);
    assert_eq!(checked_align_up(usize::MAX, 2), None);
}

#[test]
fn powers_of_two_are_recognised() {
    let mut power: usize = 1;
    for _ in 0..(usize::BITS - 1) {
        assert!(is_power_of_two(power));
        power *= 2;
    }
    assert!(is_power_of_two(power));
}

#[test]
fn other_numbers_are_no_powers_of_two() {
    assert!(!is_power_of_two(0));
    assert!(!is_power_of_two(3));
    assert!(!is_power_of_two(6));
    assert!(!is_power_of_two(12));
    assert!(!is_power_of_two(2047));
    assert!(!is_power_of_two(2049));
    assert!(!is_power_of_two(usize::MAX));
}

#[test]
fn valid_layouts_are_accepted() {
    assert!(is_valid_layout(0, 1));
    assert!(is_valid_layout(8, 8));
    assert!(is_valid_layout(4096, 4096));
    assert!(is_valid_layout(isize::MAX as usize, 1));
    assert!(is_valid_layout(isize::MAX as usize - 7, 8));
}

#[test]
fn invalid_layouts_are_refused() {
    assert!(!is_valid_layout(8, 0));
    assert!(!is_valid_layout(8, 3));
    assert!(!is_valid_layout(isize::MAX as usize + 1, 1));
    assert!(!is_valid_layout(isize::MAX as usize - 6, 8));
    assert!(!is_valid_layout(usize::MAX, 8));
}

#[test]
fn valid_layouts_are_those_of_the_standard_library() {
    for size in [0usize, 1, 7, 8, 4096, isize::MAX as usize - 8, isize::MAX as usize, usize::MAX] {
        for align in [0usize, 1, 2, 3, 8, 24, 4096, 1 << 20] {
            assert_eq!(
                is_valid_layout(size, align),
                std::alloc::Layout::from_size_align(size, align).is_ok()
            );
        }
    }
}
