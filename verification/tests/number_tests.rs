use time_event::number::{parse_i128, parse_i32, parse_i64};

#[test]
fn parses_signed_decimal_integers() {
    assert_eq!(parse_i128("42"), Some(42));
    assert_eq!(parse_i128("-7"), Some(-7));
    assert_eq!(parse_i128("+5"), Some(5));
    assert_eq!(parse_i128("007"), Some(7));
    assert_eq!(parse_i128("-0"), Some(0));
}

#[test]
fn rejects_what_str_parse_rejects() {
    for s in ["", "+", "-", "*", "1a", " 1", "1 ", "+-1", "١"] {
        assert_eq!(parse_i128(s), None, "{s}");
        assert_eq!(parse_i128(s), s.parse::<i128>().ok(), "{s}");
    }
}

#[test]
fn i128_bounds_are_exact() {
    assert_eq!(parse_i128("170141183460469231731687303715884105727"), Some(i128::MAX));
    assert_eq!(parse_i128("-170141183460469231731687303715884105728"), Some(i128::MIN));
    assert_eq!(parse_i128("170141183460469231731687303715884105728"), None);
    assert_eq!(parse_i128("-170141183460469231731687303715884105729"), None);
    assert_eq!(parse_i128("999999999999999999999999999999999999999999"), None);
}

#[test]
fn narrower_types_check_their_range() {
    assert_eq!(parse_i32("2147483647"), Some(i32::MAX));
    assert_eq!(parse_i32("2147483648"), None);
    assert_eq!(parse_i64("-9223372036854775808"), Some(i64::MIN));
    assert_eq!(parse_i64("9223372036854775808"), None);
}
