//! Rounding to whole pages.

use module_list::align::{align_down, align_up};

#[test]
fn values_are_rounded_to_multiples() {
    assert_eq!(align_down(0, 4096), 0);
    assert_eq!(align_down(4095, 4096), 0);
    assert_eq!(align_down(4096, 4096), 4096);
    assert_eq!(align_down(4097, 4096), 4096);
    assert_eq!(align_up(0, 4096), 0);
    assert_eq!(align_up(1, 4096), 4096);
    assert_eq!(align_up(4096, 4096), 4096);
    assert_eq!(align_up(4097, 4096), 8192);
    assert_eq!(align_down(10, 3), 9);
    assert_eq!(align_up(10, 3), 12);
}

#[test]
fn rounding_brackets_and_is_idempotent() {
    for value in 0..200usize {
        for align in 1..20usize {
            let down = align_down(value, align);
            let up = align_up(value, align);
            assert!(down <= value && value < down + align);
            assert!(value <= up && up < value + align);
            assert_eq!(align_down(down, align), down);
            assert_eq!(align_up(up, align), up);
            assert_eq!(down == value, value % align == 0);
        }
    }
}
