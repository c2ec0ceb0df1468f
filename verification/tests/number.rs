use es_deep_pager::number::{format_i64, parse_i64, NumberError};

#[test]
fn format_i64_writes_decimal() {
    assert_eq!(format_i64(0), "0");
    assert_eq!(format_i64(7), "7");
    assert_eq!(format_i64(10), "10");
    assert_eq!(format_i64(-1), "-1");
    assert_eq!(format_i64(1_000_000), "1000000");
    assert_eq!(format_i64(i64::MAX), "9223372036854775807");
    assert_eq!(format_i64(i64::MIN), "-9223372036854775808");
}

#[test]
fn format_i64_agrees_with_the_standard_library() {
    let mut v: i64 = 1;
    for _ in 0..62 {
        for w in [v, -v, v - 1, v + 1, -(v + 1)] {
            assert_eq!(format_i64(w), w.to_string());
        }
        v *= 2;
    }
}

#[test]
fn parse_i64_reads_what_format_i64_writes() {
    for v in [0, 1, -1, 9, 10, -10, 2000, 3000, 999_999, i64::MAX, i64::MIN, i64::MIN + 1] {
        assert_eq!(parse_i64(&format_i64(v)), Ok(v));
    }
}

#[test]
fn parse_i64_accepts_signs_and_leading_zeros() {
    assert_eq!(parse_i64("+5"), Ok(5));
    assert_eq!(parse_i64("-5"), Ok(-5));
    assert_eq!(parse_i64("-0"), Ok(0));
    assert_eq!(parse_i64("0007"), Ok(7));
    assert_eq!(parse_i64("000000000000000000000000009223372036854775807"), Ok(i64::MAX));
}

#[test]
fn parse_i64_names_each_failure() {
    assert_eq!(parse_i64(""), Err(NumberError::Empty));
    assert_eq!(parse_i64("+"), Err(NumberError::InvalidDigit));
    assert_eq!(parse_i64("-"), Err(NumberError::InvalidDigit));
    assert_eq!(parse_i64("12a"), Err(NumberError::InvalidDigit));
    assert_eq!(parse_i64(" 12"), Err(NumberError::InvalidDigit));
    assert_eq!(parse_i64("1.5"), Err(NumberError::InvalidDigit));
    assert_eq!(parse_i64("--1"), Err(NumberError::InvalidDigit));
    assert_eq!(parse_i64("\"1\""), Err(NumberError::InvalidDigit));
    assert_eq!(parse_i64("9223372036854775808"), Err(NumberError::TooLarge));
    assert_eq!(parse_i64("-9223372036854775809"), Err(NumberError::TooSmall));
    assert_eq!(parse_i64("99999999999999999999x"), Err(NumberError::TooLarge));
    assert_eq!(parse_i64("9x9999999999999999999"), Err(NumberError::InvalidDigit));
}

#[test]
fn parse_i64_agrees_with_the_standard_library() {
    for text in [
        "", "+", "-", "0", "-0", "+0", "12", "-12", "+12", "1_000", "12 ", "0x10", "1e3", "٣",
        "9223372036854775807", "9223372036854775808", "-9223372036854775808",
        "-9223372036854775809", "99999999999999999999999", "-99999999999999999999999",
        "123456789012345", "1234567890123456", "true", "null",
    ] {
        match (parse_i64(text), text.parse::<i64>()) {
            (Ok(a), Ok(b)) => assert_eq!(a, b),
            (Err(a), Err(b)) => assert_eq!(a.describe(), b.to_string()),
            (a, b) => panic!("{:?}: {:?} against {:?}", text, a, b),
        }
    }
}
