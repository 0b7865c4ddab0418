use miniredis::{parse_i32, parse_u64, str_eq, trim_dollars, u64_to_string};

#[test]
fn str_eq_agrees_with_equality() {
    assert!(str_eq("px", "px"));
    assert!(!str_eq("px", "ex"));
    assert!(!str_eq("px", "pxx"));
    assert!(str_eq("", ""));
    assert!(str_eq("héllo", "héllo"));
    assert!(!str_eq("héllo", "hello"));
}

#[test]
fn parse_i32_accepts_signs_and_rejects_junk() {
    assert_eq!(parse_i32("42"), Some(42));
    assert_eq!(parse_i32("+42"), Some(42));
    assert_eq!(parse_i32("-42"), Some(-42));
    assert_eq!(parse_i32("0"), Some(0));
    assert_eq!(parse_i32(""), None);
    assert_eq!(parse_i32("+"), None);
    assert_eq!(parse_i32("-"), None);
    assert_eq!(parse_i32("4 2"), None);
    assert_eq!(parse_i32("42x"), None);
    assert_eq!(parse_i32("2147483647"), Some(i32::MAX));
    assert_eq!(parse_i32("-2147483648"), Some(i32::MIN));
    assert_eq!(parse_i32("2147483648"), None);
    assert_eq!(parse_i32("-2147483649"), None);
    assert_eq!(parse_i32("99999999999999999999"), None);
}

#[test]
fn parse_u64_accepts_plus_and_rejects_minus() {
    assert_eq!(parse_u64("100"), Some(100));
    assert_eq!(parse_u64("+100"), Some(100));
    assert_eq!(parse_u64("-100"), None);
    assert_eq!(parse_u64(""), None);
    assert_eq!(parse_u64("+"), None);
    assert_eq!(parse_u64("18446744073709551615"), Some(u64::MAX));
    assert_eq!(parse_u64("18446744073709551616"), None);
    assert_eq!(parse_u64("10ms"), None);
}

#[test]
fn trim_dollars_strips_only_leading_markers() {
    assert_eq!(trim_dollars("$4"), "4");
    assert_eq!(trim_dollars("$$$4"), "4");
    assert_eq!(trim_dollars("4$"), "4$");
    assert_eq!(trim_dollars(""), "");
    assert_eq!(trim_dollars("$$$"), "");
}

#[test]
fn u64_renders_in_decimal() {
    assert_eq!(u64_to_string(0), "0");
    assert_eq!(u64_to_string(7), "7");
    assert_eq!(u64_to_string(1234567890), "1234567890");
    assert_eq!(u64_to_string(u64::MAX), "18446744073709551615");
}
