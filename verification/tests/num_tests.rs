use mysql_samp::num::{i32_text, parse_i32, u64_text};

#[test]
fn integers_are_written_in_decimal() {
    assert_eq!(i32_text(0), "0");
    assert_eq!(i32_text(42), "42");
    assert_eq!(i32_text(-7), "-7");
    assert_eq!(i32_text(i32::MIN), "-2147483648");
    assert_eq!(i32_text(i32::MAX), "2147483647");
    assert_eq!(u64_text(u64::MAX), "18446744073709551615");
}

#[test]
fn parsing_follows_the_standard_rules() {
    assert_eq!(parse_i32("42"), Some(42));
    assert_eq!(parse_i32("+42"), Some(42));
    assert_eq!(parse_i32("-0"), Some(0));
    assert_eq!(parse_i32("-2147483648"), Some(i32::MIN));
    assert_eq!(parse_i32("2147483647"), Some(i32::MAX));
    assert_eq!(parse_i32("2147483648"), None);
    assert_eq!(parse_i32("-2147483649"), None);
    assert_eq!(parse_i32("99999999999999999999"), None);
    assert_eq!(parse_i32(""), None);
    assert_eq!(parse_i32("-"), None);
    assert_eq!(parse_i32(" 1"), None);
    assert_eq!(parse_i32("1.5"), None);
    assert_eq!(parse_i32("0x10"), None);
}

#[test]
fn written_integers_read_back() {
    for v in [0, 1, -1, 10, -10, 12345, i32::MIN, i32::MAX] {
        assert_eq!(parse_i32(&i32_text(v)), Some(v));
        assert_eq!(parse_i32(&i32_text(v)), v.to_string().parse::<i32>().ok());
    }
}

