use rust_fetch::text::{integer_or_zero, or_zero, same_text, small_integer_or_zero, small_or_zero};

#[test]
fn a_decimal_integer_is_read() {
    assert_eq!(integer_or_zero("42"), 42);
    assert_eq!(integer_or_zero("-17"), -17);
    assert_eq!(integer_or_zero("+8"), 8);
    assert_eq!(integer_or_zero("007"), 7);
    assert_eq!(integer_or_zero("9223372036854775807"), i64::MAX);
    assert_eq!(integer_or_zero("-9223372036854775808"), i64::MIN);
}

#[test]
fn a_malformed_field_reads_as_zero() {
    assert_eq!(integer_or_zero(""), 0);
    assert_eq!(integer_or_zero("abc"), 0);
    assert_eq!(integer_or_zero("12.5"), 0);
    assert_eq!(integer_or_zero(" 12"), 0);
    assert_eq!(integer_or_zero("12 "), 0);
    assert_eq!(integer_or_zero("-"), 0);
    assert_eq!(integer_or_zero("9223372036854775808"), 0);
}

#[test]
fn a_small_field_is_held_to_32_bits() {
    assert_eq!(small_integer_or_zero("2147483647"), i32::MAX);
    assert_eq!(small_integer_or_zero("-2147483648"), i32::MIN);
    assert_eq!(small_integer_or_zero("2147483648"), 0);
    assert_eq!(small_integer_or_zero("-2147483649"), 0);
    assert_eq!(small_integer_or_zero("x"), 0);
    assert_eq!(small_integer_or_zero("12"), 12);
}

#[test]
fn what_was_read_is_taken_or_zero() {
    assert_eq!(or_zero(Some(5)), 5);
    assert_eq!(or_zero(Some(i64::MIN)), i64::MIN);
    assert_eq!(or_zero(None), 0);
    assert_eq!(small_or_zero(Some(5)), 5);
    assert_eq!(small_or_zero(Some(1 << 40)), 0);
    assert_eq!(small_or_zero(None), 0);
}

#[test]
fn texts_are_compared_by_their_characters() {
    assert!(same_text("desc", "desc"));
    assert!(!same_text("desc", "DESC"));
    assert!(!same_text("desc", "des"));
    assert!(same_text("", ""));
}
