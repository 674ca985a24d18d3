use hayaku::strutil::{i64_to_string, str_eq, str_eq_ignore_ascii_case, str_le, u64_to_string};

#[test]
fn decimal_rendering_of_unsigned() {
    assert_eq!(u64_to_string(0), "0");
    assert_eq!(u64_to_string(7), "7");
    assert_eq!(u64_to_string(10), "10");
    assert_eq!(u64_to_string(18446744073709551615), "18446744073709551615");
}

#[test]
fn decimal_rendering_of_signed() {
    assert_eq!(i64_to_string(0), "0");
    assert_eq!(i64_to_string(-1), "-1");
    assert_eq!(i64_to_string(42), "42");
    assert_eq!(i64_to_string(i64::MIN), "-9223372036854775808");
    assert_eq!(i64_to_string(i64::MAX), "9223372036854775807");
}

#[test]
fn lexicographic_order_on_strings() {
    assert!(str_le("a", "b"));
    assert!(str_le("abc", "abd"));
    assert!(!str_le("b", "a"));
    assert!(str_le("a", "ab"));
    assert!(!str_le("ab", "a"));
    assert!(str_le("", ""));
    assert!(str_le("", "a"));
    assert!(str_le("same", "same"));
}

#[test]
fn string_equality_and_case_folding() {
    assert!(str_eq("h\u{e9}llo", "h\u{e9}llo"));
    assert!(!str_eq("a", "b"));
    assert!(!str_eq("a", "ab"));
    assert!(str_eq_ignore_ascii_case("TERA", "tera"));
    assert!(str_eq_ignore_ascii_case("TeRa", "teRA"));
    assert!(!str_eq_ignore_ascii_case("tera", "terb"));
    assert!(!str_eq_ignore_ascii_case("tera", "teraa"));
}
