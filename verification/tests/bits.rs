use esp32_xvc::bits::{bytes_for_bits, mask_tail, test_bit};
use esp32_xvc::buffer::{copy_at, move_to_front};
use esp32_xvc::time::{elapsed, later};

#[test]
fn bytes_for_bits_rounds_up() {
    assert_eq!(bytes_for_bits(0), 0);
    assert_eq!(bytes_for_bits(1), 1);
    assert_eq!(bytes_for_bits(8), 1);
    assert_eq!(bytes_for_bits(9), 2);
    assert_eq!(bytes_for_bits(32_768), 4_096);
    assert_eq!(bytes_for_bits(usize::MAX), usize::MAX / 8 + 1);
}

#[test]
fn bits_count_from_the_least_significant() {
    assert!(test_bit(0b0000_0001, 0));
    assert!(!test_bit(0b0000_0001, 1));
    assert!(test_bit(0b1000_0000, 7));
}

#[test]
fn tail_mask_keeps_used_bits_only() {
    let mut bytes = [0xff, 0xff];
    mask_tail(11, &mut bytes);
    assert_eq!(bytes, [0xff, 0x07]);
    let mut whole = [0xff, 0xff];
    mask_tail(16, &mut whole);
    assert_eq!(whole, [0xff, 0xff]);
    let mut none: [u8; 0] = [];
    mask_tail(0, &mut none);
}

#[test]
fn copying_replaces_the_middle() {
    let mut target = [1, 2, 3, 4, 5];
    copy_at(&mut target, 1, &[9, 8]);
    assert_eq!(target, [1, 9, 8, 4, 5]);
}

#[test]
fn moving_to_the_front_copes_with_overlap() {
    let mut bytes = [1, 2, 3, 4, 5];
    move_to_front(&mut bytes, 1, 4);
    assert_eq!(bytes, [2, 3, 4, 5, 5]);
}

#[test]
fn clock_arithmetic_stops_at_the_ends() {
    assert_eq!(later(5, 7), 12);
    assert_eq!(later(i64::MAX - 1, 7), i64::MAX);
    assert_eq!(later(i64::MIN + 1, -7), i64::MIN);
    assert_eq!(elapsed(12, 5), 7);
    assert_eq!(elapsed(i64::MAX, -1), i64::MAX);
    assert_eq!(elapsed(i64::MIN, 1), i64::MIN);
}
