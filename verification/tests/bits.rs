//! Tests for the bit index utilities.

use qip::utils::{entwine_bits, get_bit, get_flat_index, set_bit};

#[test]
fn set_bit_turns_a_bit_on() {
    let n = set_bit(0, 1, true);
    assert_eq!(n, 2);
}

#[test]
fn get_bit_reads_a_bit() {
    let n = get_bit(2, 1);
    assert_eq!(n, true);
    assert_eq!(get_bit(2, 0), false);
}

#[test]
fn set_then_clear_masks_the_bit_off() {
    for x in [0u64, 1, 2, 0xdead_beef, u64::MAX] {
        for n in [0u64, 1, 7, 31, 63] {
            assert_eq!(set_bit(set_bit(x, n, true), n, false), x & !(1u64 << n));
        }
    }
}

#[test]
fn get_bit_of_set_bit_reads_back() {
    for x in [0u64, 5, 0xffff_0000, u64::MAX] {
        for n in [0u64, 3, 40, 63] {
            assert_eq!(get_bit(set_bit(x, n, true), n), true);
            assert_eq!(get_bit(set_bit(x, n, false), n), false);
        }
    }
}

#[test]
fn set_bit_leaves_other_bits_untouched() {
    let x = 0b1010_1010u64;
    let y = set_bit(x, 0, true);
    for k in 1..64 {
        assert_eq!(get_bit(y, k), get_bit(x, k));
    }
}

#[test]
fn entwine_bits_mixes_streams_by_selector() {
    let n = 3;
    let off_bits = 0b01;
    let on_bits = 0b1;
    let selector = 0b010;
    assert_eq!(entwine_bits(n, selector, off_bits, on_bits), 0b011);
}

#[test]
fn entwine_bits_all_off_copies_off_stream() {
    assert_eq!(entwine_bits(4, 0b0000, 0b1011, 0), 0b1011);
    assert_eq!(entwine_bits(4, 0b1111, 0, 0b1011), 0b1011);
}

#[test]
fn get_flat_index_is_row_major() {
    assert_eq!(get_flat_index(2, 3, 1), 3 * 4 + 1);
    assert_eq!(get_flat_index(1, 1, 0), 2);
    assert_eq!(get_flat_index(3, 0, 7), 7);
    for i in 0..4u64 {
        for j in 0..4u64 {
            assert_eq!(get_flat_index(2, i, j), i * 4 + j);
        }
    }
}
