use bring_cli::dec::{i64_to_string, parse_i64};

#[test]
fn parse_plain_digits() {
    assert_eq!(parse_i64("0"), Some(0));
    assert_eq!(parse_i64("123"), Some(123));
    assert_eq!(parse_i64("007"), Some(7));
}

#[test]
fn parse_signed_values() {
    assert_eq!(parse_i64("-1"), Some(-1));
    assert_eq!(parse_i64("+5"), Some(5));
    assert_eq!(parse_i64("-0"), Some(0));
}

#[test]
fn parse_extremes() {
    assert_eq!(parse_i64("9223372036854775807"), Some(i64::MAX));
    assert_eq!(parse_i64("-9223372036854775808"), Some(i64::MIN));
}

#[test]
fn parse_rejects_out_of_range() {
    assert_eq!(parse_i64("9223372036854775808"), None);
    assert_eq!(parse_i64("-9223372036854775809"), None);
    assert_eq!(parse_i64("99999999999999999999999999"), None);
}

#[test]
fn parse_rejects_malformed_strings() {
    assert_eq!(parse_i64(""), None);
    assert_eq!(parse_i64("+"), None);
    assert_eq!(parse_i64("-"), None);
    assert_eq!(parse_i64("12a"), None);
    assert_eq!(parse_i64("a12"), None);
    assert_eq!(parse_i64(" 12"), None);
    assert_eq!(parse_i64("1 2"), None);
    assert_eq!(parse_i64("--5"), None);
}

#[test]
fn parse_accepts_what_std_accepts() {
    for s in ["0", "-7", "+42", "1700003600", "junk", "", "00", "9223372036854775808"] {
        assert_eq!(parse_i64(s), s.parse::<i64>().ok());
    }
}

#[test]
fn render_plain_values() {
    assert_eq!(i64_to_string(0), "0");
    assert_eq!(i64_to_string(7), "7");
    assert_eq!(i64_to_string(1234567890), "1234567890");
}

#[test]
fn render_negative_values() {
    assert_eq!(i64_to_string(-1), "-1");
    assert_eq!(i64_to_string(-1700003600), "-1700003600");
}

#[test]
fn render_extremes() {
    assert_eq!(i64_to_string(i64::MAX), "9223372036854775807");
    assert_eq!(i64_to_string(i64::MIN), "-9223372036854775808");
}

#[test]
fn render_then_parse_round_trips() {
    for v in [0, 1, -1, 42, -99, 1700003600, i64::MIN, i64::MAX] {
        assert_eq!(parse_i64(&i64_to_string(v)), Some(v));
    }
}
