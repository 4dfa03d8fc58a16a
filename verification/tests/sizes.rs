//! Byte counts in configuration files, and the numbers in texts.

use processguard::size::{deserialize_optional_size, deserialize_size, parse_size, Size};
use processguard::text::{parse_i32, show_i32, show_u64, trim};

#[test]
fn units_are_powers_of_two_or_ten() {
    assert_eq!(parse_size("7"), Ok(7));
    assert_eq!(parse_size("7b"), Ok(7));
    assert_eq!(parse_size("3k"), Ok(3 << 10));
    assert_eq!(parse_size("3KiB"), Ok(3 << 10));
    assert_eq!(parse_size("3m"), Ok(3 << 20));
    assert_eq!(parse_size("15MiB"), Ok(15 << 20));
    assert_eq!(parse_size("2G"), Ok(2 << 30));
    assert_eq!(parse_size("2gib"), Ok(2 << 30));
    assert_eq!(parse_size("5kb"), Ok(5_000));
    assert_eq!(parse_size("5MB"), Ok(5_000_000));
    assert_eq!(parse_size("5gb"), Ok(5_000_000_000));
}

#[test]
fn space_around_number_and_unit_is_ignored() {
    assert_eq!(parse_size("  12  KiB \n"), Ok(12 << 10));
}

#[test]
fn what_is_no_size_is_refused() {
    assert_eq!(parse_size(""), Err("invalid size ".to_string()));
    assert_eq!(parse_size(" MiB "), Err("invalid size MiB".to_string()));
    assert_eq!(parse_size("-1"), Err("invalid size -1".to_string()));
    assert_eq!(parse_size("1tb"), Err("invalid size 1tb".to_string()));
    assert_eq!(parse_size("1 k b"), Err("invalid size 1 k b".to_string()));
    assert_eq!(
        parse_size("18446744073709551616"),
        Err("invalid size 18446744073709551616".to_string())
    );
}

#[test]
fn sizes_that_do_not_fit_are_refused() {
    assert_eq!(parse_size("18446744073709551615"), Ok(u64::MAX));
    assert_eq!(
        parse_size("18446744073709551615k"),
        Err("size 18446744073709551615k is too large".to_string())
    );
}

#[test]
fn a_configured_size_is_a_number_or_a_text() {
    assert_eq!(deserialize_size(Size::Bytes(9)), Ok(9));
    assert_eq!(deserialize_size(Size::Text("1MiB".to_string())), Ok(1 << 20));
    assert_eq!(
        deserialize_size(Size::Text("x".to_string())),
        Err("invalid size x".to_string())
    );
    assert_eq!(deserialize_optional_size(None), Ok(None));
    assert_eq!(
        deserialize_optional_size(Some(Size::Text("2k".to_string()))),
        Ok(Some(2048))
    );
    assert_eq!(
        deserialize_optional_size(Some(Size::Text("x".to_string()))),
        Err("invalid size x".to_string())
    );
}

#[test]
fn decimal_numbers_are_read_back() {
    assert_eq!(show_u64(0), "0");
    assert_eq!(show_u64(u64::MAX), "18446744073709551615");
    assert_eq!(show_i32(i32::MIN), "-2147483648");
    for n in [0, 7, -1, 10, 4711, i32::MAX, i32::MIN] {
        assert_eq!(parse_i32(&show_i32(n)), Some(n));
    }
    assert_eq!(parse_i32("+5"), Some(5));
    assert_eq!(parse_i32("+"), None);
    assert_eq!(parse_i32(""), None);
    assert_eq!(parse_i32("2147483648"), None);
    assert_eq!(parse_i32("1 2"), None);
}

#[test]
fn trimming_takes_unicode_space() {
    assert_eq!(trim("\u{3000} a b \u{85}\r\n"), "a b");
    assert_eq!(trim(" \t "), "");
}
