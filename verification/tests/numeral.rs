use rachet::numeral::{i32_to_string, parse_i32, u32_to_string};

#[test]
fn parse_plain() {
    assert_eq!(parse_i32("12"), Some(12));
    assert_eq!(parse_i32("0"), Some(0));
    assert_eq!(parse_i32("007"), Some(7));
}

#[test]
fn parse_signed() {
    assert_eq!(parse_i32("+7"), Some(7));
    assert_eq!(parse_i32("-3"), Some(-3));
    assert_eq!(parse_i32("-0"), Some(0));
}

#[test]
fn parse_extremes() {
    assert_eq!(parse_i32("2147483647"), Some(i32::MAX));
    assert_eq!(parse_i32("-2147483648"), Some(i32::MIN));
    assert_eq!(parse_i32("2147483648"), None);
    assert_eq!(parse_i32("-2147483649"), None);
    assert_eq!(parse_i32("99999999999999999999"), None);
}

#[test]
fn parse_rejects_malformed() {
    assert_eq!(parse_i32(""), None);
    assert_eq!(parse_i32("-"), None);
    assert_eq!(parse_i32("+"), None);
    assert_eq!(parse_i32("abc"), None);
    assert_eq!(parse_i32("1a"), None);
    assert_eq!(parse_i32(" 1"), None);
    assert_eq!(parse_i32("1 "), None);
    assert_eq!(parse_i32("--1"), None);
}

#[test]
fn parse_matches_std() {
    for text in ["12", "-3", "+7", "", "-", "abc", "2147483648", "-2147483648", "007"] {
        assert_eq!(parse_i32(text), text.parse::<i32>().ok(), "on {:?}", text);
    }
}

#[test]
fn render_u32() {
    assert_eq!(u32_to_string(0), "0");
    assert_eq!(u32_to_string(10), "10");
    assert_eq!(u32_to_string(4294967295), "4294967295");
}

#[test]
fn render_i32() {
    assert_eq!(i32_to_string(0), "0");
    assert_eq!(i32_to_string(-123), "-123");
    assert_eq!(i32_to_string(i32::MIN), "-2147483648");
    assert_eq!(i32_to_string(i32::MAX), "2147483647");
}

#[test]
fn render_parse_round_trip() {
    for n in [0, 1, -1, 9, 10, -10, 123456, -654321, i32::MIN, i32::MAX] {
        assert_eq!(parse_i32(&i32_to_string(n)), Some(n));
    }
}
