use libspa::dict::{parse_bool, parse_i16, parse_i32, parse_i64, parse_i8, parse_u16, parse_u32,
    parse_u64, parse_u8, parse_usize, ParsableValue, ParseValueError};

#[test]
fn parse_value_bool() {
    // Same logic as the C property helpers: `true` and the number one are
    // true, everything else is false, and parsing never fails.
    assert_eq!(bool::parse_value("true"), Some(true));
    assert_eq!(bool::parse_value("1"), Some(true));
    assert_eq!(bool::parse_value("+1"), Some(true));
    assert_eq!(bool::parse_value("0"), Some(false));
    assert_eq!(bool::parse_value("false"), Some(false));
    assert_eq!(bool::parse_value("yes"), Some(false));
    assert_eq!(bool::parse_value("2"), Some(false));
    assert_eq!(bool::parse_value(""), Some(false));
}

#[test]
fn parse_value_signed() {
    assert_eq!(parse_i32("765"), Some(765));
    assert_eq!(parse_i32("-42"), Some(-42));
    assert_eq!(parse_i32("+7"), Some(7));
    assert_eq!(parse_i32("2147483647"), Some(i32::MAX));
    assert_eq!(parse_i32("-2147483648"), Some(i32::MIN));
    assert_eq!(parse_i32("2147483648"), None);
    assert_eq!(parse_i32("-2147483649"), None);
    assert_eq!(parse_i32(""), None);
    assert_eq!(parse_i32("12a"), None);
    assert_eq!(parse_i32("-"), None);
    assert_eq!(i64::parse_value("-9223372036854775808"), Some(i64::MIN));
    assert_eq!(parse_i64("9223372036854775807"), Some(i64::MAX));
    assert_eq!(parse_i64("9223372036854775808"), None);
}

#[test]
fn parse_value_unsigned() {
    assert_eq!(parse_u32("4294967295"), Some(u32::MAX));
    assert_eq!(parse_u32("4294967296"), None);
    assert_eq!(parse_u32("-1"), None);
    assert_eq!(u32::parse_value("0"), Some(0));
    assert_eq!(parse_u64("18446744073709551615"), Some(u64::MAX));
    assert_eq!(parse_u64("18446744073709551616"), None);
    assert_eq!(parse_u64("007"), Some(7));
}

#[test]
fn parse_value_narrow_widths() {
    assert_eq!(parse_u8("255"), Some(u8::MAX));
    assert_eq!(parse_u8("256"), None);
    assert_eq!(parse_i8("-128"), Some(i8::MIN));
    assert_eq!(parse_i8("128"), None);
    assert_eq!(parse_u16("65535"), Some(u16::MAX));
    assert_eq!(parse_i16("-32769"), None);
    assert_eq!(parse_i16("32767"), Some(i16::MAX));
    assert_eq!(parse_usize("4096"), Some(4096));
    assert_eq!(isize::parse_value("-4096"), Some(-4096));
    assert_eq!(u8::parse_value("+17"), Some(17));
}

#[test]
fn parse_value_error_holds_both_sides() {
    let err = ParseValueError::new("abc", "i32");
    assert_eq!(err, ParseValueError::new("abc", "i32"));
    assert_ne!(err, ParseValueError::new("abc", "u32"));
}
