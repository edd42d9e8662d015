use update_store::codec::parse_u64;
use update_store::codec::u64_to_dec;

#[test]
fn formats_zero() {
    assert_eq!(u64_to_dec(0), "0");
}

#[test]
fn formats_small_values() {
    assert_eq!(u64_to_dec(7), "7");
    assert_eq!(u64_to_dec(10), "10");
    assert_eq!(u64_to_dec(42), "42");
    assert_eq!(u64_to_dec(1000), "1000");
}

#[test]
fn formats_large_values() {
    assert_eq!(u64_to_dec(1234567890123456789), "1234567890123456789");
    assert_eq!(u64_to_dec(u64::MAX), "18446744073709551615");
}

#[test]
fn parses_digit_strings() {
    assert_eq!(parse_u64("0"), Some(0));
    assert_eq!(parse_u64("42"), Some(42));
    assert_eq!(parse_u64("007"), Some(7));
    assert_eq!(parse_u64("18446744073709551615"), Some(u64::MAX));
}

#[test]
fn rejects_empty_string() {
    assert_eq!(parse_u64(""), None);
}

#[test]
fn rejects_non_digits() {
    assert_eq!(parse_u64("12a"), None);
    assert_eq!(parse_u64("-1"), None);
    assert_eq!(parse_u64("+5"), None);
    assert_eq!(parse_u64(" 42"), None);
    assert_eq!(parse_u64("4 2"), None);
}

#[test]
fn rejects_values_over_u64() {
    assert_eq!(parse_u64("18446744073709551616"), None);
    assert_eq!(parse_u64("99999999999999999999999"), None);
}

#[test]
fn decimal_round_trip() {
    for v in [0u64, 1, 9, 10, 99, 100, 12345, 1 << 33, u64::MAX - 1, u64::MAX] {
        assert_eq!(parse_u64(&u64_to_dec(v)), Some(v));
    }
}
