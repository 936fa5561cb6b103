use bookdec::text::{parse_u64_bytes, strip_ascii_whitespace, u64_to_string};

#[test]
fn whitespace_bytes_are_stripped_in_order() {
    let r = strip_ascii_whitespace(b" a\tb\r\nc\x0c d ");
    assert_eq!(r, b"abcd".to_vec());
    assert!(strip_ascii_whitespace(b" \t\r\n").is_empty());
}

#[test]
fn decimal_parsing_matches_str_parse() {
    assert_eq!(parse_u64_bytes(b"0"), Some(0));
    assert_eq!(parse_u64_bytes(b"000000123"), Some(123));
    assert_eq!(parse_u64_bytes(b"+42"), Some(42));
    assert_eq!(parse_u64_bytes(b"18446744073709551615"), Some(u64::MAX));
    assert_eq!(parse_u64_bytes(b"18446744073709551616"), None);
    assert_eq!(parse_u64_bytes(b"99999999999999999999999"), None);
    assert_eq!(parse_u64_bytes(b""), None);
    assert_eq!(parse_u64_bytes(b"+"), None);
    assert_eq!(parse_u64_bytes(b"12a"), None);
    assert_eq!(parse_u64_bytes(b"-5"), None);
    assert_eq!(parse_u64_bytes(b" 5"), None);
}

#[test]
fn numbers_format_as_decimal_digits() {
    assert_eq!(u64_to_string(0), "0");
    assert_eq!(u64_to_string(7), "7");
    assert_eq!(u64_to_string(1024), "1024");
    assert_eq!(u64_to_string(u64::MAX), "18446744073709551615");
}
