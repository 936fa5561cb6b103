use std::collections::HashMap;

use bookdec::codec::encrypt;
use bookdec::corpus::build_corpus;

fn keys_of(pairs: &[(u64, &str)]) -> HashMap<u64, String> {
    let mut m = HashMap::new();
    for (id, k) in pairs {
        m.insert(*id, String::from(*k));
    }
    m
}

#[test]
fn matching_chapter_is_decrypted() {
    let keys = keys_of(&[(5, "key-5")]);
    let files = vec![(String::from("5"), encrypt("chapter five", "key-5"))];
    let corpus = build_corpus(&files, &keys);
    assert_eq!(corpus.get(&5).map(String::as_str), Some("chapter five"));
}

#[test]
fn chapter_without_key_is_skipped() {
    let keys = keys_of(&[]);
    let files = vec![(String::from("5"), encrypt("text", "key-5"))];
    assert!(build_corpus(&files, &keys).is_empty());
}

#[test]
fn non_decimal_stem_is_skipped() {
    let keys = keys_of(&[(5, "key-5")]);
    let files = vec![(String::from("cover"), encrypt("text", "key-5"))];
    assert!(build_corpus(&files, &keys).is_empty());
}

#[test]
fn failed_decryption_is_skipped() {
    let keys = keys_of(&[(5, "another key")]);
    let files = vec![(String::from("5"), encrypt("text", "key-5"))];
    assert!(build_corpus(&files, &keys).is_empty());
}

#[test]
fn later_duplicate_stem_wins() {
    let keys = keys_of(&[(5, "key-5")]);
    let files = vec![
        (String::from("5"), encrypt("old", "key-5")),
        (String::from("5"), encrypt("new", "key-5")),
    ];
    let corpus = build_corpus(&files, &keys);
    assert_eq!(corpus.get(&5).map(String::as_str), Some("new"));
}
