//! Decimal rendering, decimal parsing and the small string utilities.

use numtracker::text::{
    find_char, i32_to_string, join_parts, parse_usize, str_eq, u64_to_string,
};

#[test]
fn renders_decimals() {
    assert_eq!(u64_to_string(0), "0");
    assert_eq!(u64_to_string(7), "7");
    assert_eq!(u64_to_string(12345), "12345");
    assert_eq!(u64_to_string(u64::MAX), "18446744073709551615");
}

#[test]
fn renders_signed_decimals() {
    assert_eq!(i32_to_string(2024), "2024");
    assert_eq!(i32_to_string(0), "0");
    assert_eq!(i32_to_string(-44), "-44");
    assert_eq!(i32_to_string(i32::MIN), "-2147483648");
}

#[test]
fn parses_decimals() {
    assert_eq!(parse_usize("0"), Some(0));
    assert_eq!(parse_usize("12345"), Some(12345));
    assert_eq!(parse_usize(""), None);
    assert_eq!(parse_usize("12a"), None);
    assert_eq!(parse_usize("-3"), None);
    assert_eq!(parse_usize("99999999999999999999999"), None);
}

#[test]
fn parsing_inverts_rendering() {
    for n in [0usize, 1, 9, 10, 99, 12345] {
        assert_eq!(parse_usize(&u64_to_string(n as u64)), Some(n));
    }
}

#[test]
fn finds_characters_and_compares() {
    assert_eq!(find_char("cm12345-3", '-'), Some(7));
    assert_eq!(find_char("cm12345", '-'), None);
    assert!(str_eq("abc", "abc"));
    assert!(!str_eq("abc", "abd"));
    assert!(!str_eq("abc", "ab"));
}

#[test]
fn joins_parts_with_separator() {
    assert_eq!(join_parts(&vec![], '/'), "");
    assert_eq!(join_parts(&vec!["a".to_string()], '/'), "a");
    assert_eq!(
        join_parts(&vec!["a".to_string(), "b".to_string(), "c".to_string()], '/'),
        "a/b/c"
    );
}
