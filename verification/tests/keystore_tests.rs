use bookdec::keystore::{build_keystore, decode_key_name};

#[test]
fn key_entry_with_padded_decimal_name() {
    let name = base64::encode("000000123-anything-after");
    let entries = vec![(name, String::from("secret"))];
    let m = build_keystore(&entries);
    assert_eq!(m.len(), 1);
    assert_eq!(m.get(&123).map(String::as_str), Some("secret"));
}

#[test]
fn decoded_name_shorter_than_nine_bytes_is_excluded() {
    let name = base64::encode("12345678");
    let entries = vec![(name, String::from("secret"))];
    let m = build_keystore(&entries);
    assert!(m.is_empty());
}

#[test]
fn invalid_base64_name_is_excluded() {
    let entries = vec![(String::from("!!!not-base64!!!"), String::from("x"))];
    assert!(build_keystore(&entries).is_empty());
}

#[test]
fn non_decimal_identifier_is_excluded() {
    let name = base64::encode("abcdefghi-rest");
    let entries = vec![(name, String::from("x"))];
    assert!(build_keystore(&entries).is_empty());
}

#[test]
fn later_duplicate_identifier_wins() {
    let name1 = base64::encode("000000007aaa");
    let name2 = base64::encode("000000007bbb");
    let entries = vec![
        (name1, String::from("first")),
        (name2, String::from("second")),
    ];
    let m = build_keystore(&entries);
    assert_eq!(m.get(&7).map(String::as_str), Some("second"));
}

#[test]
fn decode_key_name_reads_exactly_nine_bytes() {
    let name = base64::encode("000004567");
    assert_eq!(decode_key_name(&name), Some(4567));
}

#[test]
fn decode_key_name_accepts_a_leading_plus() {
    let name = base64::encode("+00000123");
    assert_eq!(decode_key_name(&name), Some(123));
}
