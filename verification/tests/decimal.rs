use worker::decimal::{i32_to_decimal, parse_i32, u32_to_decimal};

#[test]
fn test_decimal_print_basic() {
    assert_eq!(i32_to_decimal(0), "0");
    assert_eq!(i32_to_decimal(7), "7");
    assert_eq!(i32_to_decimal(10), "10");
    assert_eq!(i32_to_decimal(42310), "42310");
    assert_eq!(i32_to_decimal(-9), "-9");
    assert_eq!(i32_to_decimal(-120), "-120");
    assert_eq!(i32_to_decimal(i32::MAX), "2147483647");
    assert_eq!(i32_to_decimal(i32::MIN), "-2147483648");
    assert_eq!(u32_to_decimal(0), "0");
    assert_eq!(u32_to_decimal(1000000), "1000000");
}

#[test]
fn test_decimal_parse_valid() {
    assert_eq!(parse_i32("0"), Some(0));
    assert_eq!(parse_i32("00012"), Some(12));
    assert_eq!(parse_i32("+5"), Some(5));
    assert_eq!(parse_i32("-5"), Some(-5));
    assert_eq!(parse_i32("-0"), Some(0));
    assert_eq!(parse_i32("2147483647"), Some(i32::MAX));
    assert_eq!(parse_i32("-2147483648"), Some(i32::MIN));
}

#[test]
fn test_decimal_parse_invalid() {
    assert_eq!(parse_i32(""), None);
    assert_eq!(parse_i32("-"), None);
    assert_eq!(parse_i32("+"), None);
    assert_eq!(parse_i32("12a"), None);
    assert_eq!(parse_i32("a12"), None);
    assert_eq!(parse_i32(" 5"), None);
    assert_eq!(parse_i32("1 2"), None);
    assert_eq!(parse_i32("--5"), None);
    assert_eq!(parse_i32("2147483648"), None);
    assert_eq!(parse_i32("-2147483649"), None);
    assert_eq!(parse_i32("99999999999999999999"), None);
}

#[test]
fn test_decimal_round_trip() {
    let values = [0, 1, 9, 10, 99, 100, 4231, -1, -10, -99999, i32::MAX, i32::MIN];
    for v in values {
        assert_eq!(parse_i32(i32_to_decimal(v).as_str()), Some(v));
    }
}
