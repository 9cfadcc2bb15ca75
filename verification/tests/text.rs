use sync_team::seqs::push_once;
use sync_team::text::{
    contains, decimal_string, hex_digit_str, parse_unsigned, same, starts_with,
};

#[test]
fn decimal_rendering() {
    assert_eq!(decimal_string(0), "0");
    assert_eq!(decimal_string(7), "7");
    assert_eq!(decimal_string(10), "10");
    assert_eq!(decimal_string(1234567890), "1234567890");
    assert_eq!(decimal_string(u64::MAX), "18446744073709551615");
}

#[test]
fn unsigned_numbers_are_read_as_the_standard_library_reads_them() {
    let cases = ["0", "7", "+7", "007", "18446744073709551615", "18446744073709551616", "", "+",
        "-1", "1 ", " 1", "12a", "1_000", "++1"];
    for case in cases {
        assert_eq!(parse_unsigned(case, 0, 10), case.parse::<u64>().ok(), "{:?}", case);
    }
    let hex = ["ff", "FF", "e01e5a", "+a", "g", "", "ffffffffffffffff", "10000000000000000"];
    for case in hex {
        assert_eq!(parse_unsigned(case, 0, 16), u64::from_str_radix(case, 16).ok(), "{:?}", case);
    }
}

#[test]
fn a_number_can_follow_skipped_characters() {
    assert_eq!(parse_unsigned("#e01e5a", 1, 16), Some(0xe01e5a));
    assert_eq!(parse_unsigned("ab12", 2, 10), Some(12));
    assert_eq!(parse_unsigned("ab", 2, 10), None);
    assert_eq!(parse_unsigned("é10", 1, 10), Some(10));
}

#[test]
fn prefixes_and_occurrences() {
    assert!(starts_with("https://example.org", "https://"));
    assert!(!starts_with("http://example.org", "https://"));
    assert!(!starts_with("http", "https://"));
    assert!(starts_with("anything", ""));
    assert!(contains("User group 'x' already exists.", "already exists"));
    assert!(!contains("User group 'x' already exist", "already exists"));
    assert!(contains("abc", ""));
    assert!(contains("", ""));
    assert!(!contains("", "a"));
    assert!(contains("aab", "ab"));
    assert!(same("zulip", "zulip"));
    assert!(!same("zulip", "zulipp"));
    assert!(!same("zulip", "zulib"));
}

#[test]
fn hexadecimal_digits() {
    let digits: String = (0u8..16).map(hex_digit_str).collect();
    assert_eq!(digits, "0123456789abcdef");
}

#[test]
fn an_id_is_added_once() {
    let mut ids = vec![3, 1];
    push_once(&mut ids, 2);
    push_once(&mut ids, 3);
    push_once(&mut ids, 2);
    assert_eq!(ids, vec![3, 1, 2]);
}
