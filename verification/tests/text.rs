use nixos_metrics::text::{parse_i64, parse_u64, strip_colons, write_decimal, write_natural};

#[test]
fn parse_u64_reads_digits_with_an_optional_plus() {
    assert_eq!(parse_u64("0"), Some(0));
    assert_eq!(parse_u64("42"), Some(42));
    assert_eq!(parse_u64("+42"), Some(42));
    assert_eq!(parse_u64("00042"), Some(42));
    assert_eq!(parse_u64("18446744073709551615"), Some(u64::MAX));
    assert_eq!(parse_u64("000000000000000000000018446744073709551615"), Some(u64::MAX));
}

#[test]
fn parse_u64_refuses_everything_else() {
    for text in ["", "+", "-", "-1", "-0", "++1", "1+", " 1", "1 ", "1_000", "0x10", "1e3", "1.0", "٣", "１", "18446744073709551616", "99999999999999999999999"] {
        assert_eq!(parse_u64(text), None, "{:?}", text);
    }
}

#[test]
fn parse_u64_agrees_with_the_standard_library() {
    for text in ["", "+", "-", "7", "+7", "-7", "007", "1 ", "٣", "18446744073709551615", "18446744073709551616", "+0", "a", "12a"] {
        assert_eq!(parse_u64(text), text.parse::<u64>().ok(), "{:?}", text);
    }
}

#[test]
fn parse_i64_reads_digits_with_an_optional_sign() {
    assert_eq!(parse_i64("0"), Some(0));
    assert_eq!(parse_i64("-0"), Some(0));
    assert_eq!(parse_i64("+0"), Some(0));
    assert_eq!(parse_i64("30"), Some(30));
    assert_eq!(parse_i64("-30"), Some(-30));
    assert_eq!(parse_i64("9223372036854775807"), Some(i64::MAX));
    assert_eq!(parse_i64("-9223372036854775808"), Some(i64::MIN));
}

#[test]
fn parse_i64_refuses_everything_else() {
    for text in ["", "+", "-", "--1", "-+1", "+-1", "1-", "- 1", "9223372036854775808", "-9223372036854775809", "18446744073709551616", "one"] {
        assert_eq!(parse_i64(text), None, "{:?}", text);
    }
}

#[test]
fn parse_i64_agrees_with_the_standard_library() {
    for text in ["", "+", "-", "7", "+7", "-7", "-007", "1 ", "٣", "9223372036854775807", "9223372036854775808", "-9223372036854775808", "-9223372036854775809", "a"] {
        assert_eq!(parse_i64(text), text.parse::<i64>().ok(), "{:?}", text);
    }
}

#[test]
fn write_natural_writes_without_leading_zeros() {
    assert_eq!(write_natural(0), "0");
    assert_eq!(write_natural(7), "7");
    assert_eq!(write_natural(10), "10");
    assert_eq!(write_natural(1_700_086_399_999), "1700086399999");
    assert_eq!(write_natural(u64::MAX), "18446744073709551615");
}

#[test]
fn write_decimal_writes_the_sign_of_negative_numbers() {
    assert_eq!(write_decimal(0), "0");
    assert_eq!(write_decimal(-1), "-1");
    assert_eq!(write_decimal(905), "905");
    assert_eq!(write_decimal(i64::MAX), "9223372036854775807");
    assert_eq!(write_decimal(i64::MIN), "-9223372036854775808");
}

#[test]
fn what_is_written_is_read_back() {
    for number in [0, 1, -1, 9, 10, -10, 123_456_789, i64::MAX, i64::MIN] {
        assert_eq!(parse_i64(&write_decimal(number)), Some(number));
        assert_eq!(write_decimal(number), number.to_string());
    }
}

#[test]
fn strip_colons_removes_every_colon_and_nothing_else() {
    assert_eq!(strip_colons("+02:00"), "+0200");
    assert_eq!(strip_colons("-05:30:15"), "-053015");
    assert_eq!(strip_colons("::"), "");
    assert_eq!(strip_colons(""), "");
    assert_eq!(strip_colons("Z"), "Z");
    assert_eq!(strip_colons("é:ü"), "éü");
}
