use script_front::number::{decimal_chars, parse_i64};

fn chars(s: &str) -> Vec<char> {
    s.chars().collect()
}

#[test]
fn parses_plain_and_signed_integers() {
    assert_eq!(parse_i64(&chars("42")), Some(42));
    assert_eq!(parse_i64(&chars("+12")), Some(12));
    assert_eq!(parse_i64(&chars("-7")), Some(-7));
    assert_eq!(parse_i64(&chars("0")), Some(0));
    assert_eq!(parse_i64(&chars("-0")), Some(0));
    assert_eq!(parse_i64(&chars("0042")), Some(42));
}

#[test]
fn parses_the_extremes() {
    assert_eq!(parse_i64(&chars("9223372036854775807")), Some(i64::MAX));
    assert_eq!(parse_i64(&chars("-9223372036854775808")), Some(i64::MIN));
}

#[test]
fn rejects_out_of_range_values() {
    assert_eq!(parse_i64(&chars("9223372036854775808")), None);
    assert_eq!(parse_i64(&chars("-9223372036854775809")), None);
    assert_eq!(parse_i64(&chars("123456789012345678901234567890")), None);
}

#[test]
fn rejects_malformed_text() {
    assert_eq!(parse_i64(&chars("")), None);
    assert_eq!(parse_i64(&chars("-")), None);
    assert_eq!(parse_i64(&chars("+")), None);
    assert_eq!(parse_i64(&chars("12a")), None);
    assert_eq!(parse_i64(&chars("1 2")), None);
    assert_eq!(parse_i64(&chars("--1")), None);
    assert_eq!(parse_i64(&chars("٣")), None);
}

#[test]
fn agrees_with_std_parsing() {
    for s in ["5", "-15", "+0", "99999", "-", "x1", "1x", "18446744073709551616", ""] {
        assert_eq!(parse_i64(&chars(s)), s.parse::<i64>().ok(), "{}", s);
    }
}

#[test]
fn writes_decimal_digits() {
    assert_eq!(decimal_chars(0), chars("0"));
    assert_eq!(decimal_chars(5), chars("5"));
    assert_eq!(decimal_chars(1230), chars("1230"));
    assert_eq!(decimal_chars(-42), chars("-42"));
    assert_eq!(decimal_chars(i64::MAX), chars("9223372036854775807"));
    assert_eq!(decimal_chars(i64::MIN), chars("-9223372036854775808"));
}
