use bookdec::catalog::{book_matches, book_meta_from_rows, choose_info_row, parse_book_meta};
use bookdec::errors::MetaError;

const BLOB: &str =
    "{\"book_name\":\"A Book\",\"author_name\":\"An Author\",\"cover\":\"https://ex.com/c.jpg\"}";

#[test]
fn metadata_blob_parses_into_fields() {
    let m = parse_book_meta(BLOB).unwrap();
    assert_eq!(m.name, "A Book");
    assert_eq!(m.author, "An Author");
    assert_eq!(m.cover_url, "https://ex.com/c.jpg");
}

#[test]
fn missing_field_is_a_parse_error() {
    let blob = "{\"book_name\":\"A Book\",\"cover\":\"u\"}";
    assert_eq!(parse_book_meta(blob), Err(MetaError::Parse));
}

#[test]
fn non_string_field_is_a_parse_error() {
    let blob = "{\"book_name\":1,\"author_name\":\"a\",\"cover\":\"u\"}";
    assert_eq!(parse_book_meta(blob), Err(MetaError::Parse));
}

#[test]
fn invalid_json_is_a_parse_error() {
    assert_eq!(parse_book_meta("not json"), Err(MetaError::Parse));
}

#[test]
fn first_table_row_is_preferred() {
    let r = choose_info_row(Some(String::from("first")), Some(String::from("second")));
    assert_eq!(r.unwrap(), "first");
}

#[test]
fn second_table_row_is_the_fallback() {
    let r = choose_info_row(None, Some(String::from("second")));
    assert_eq!(r.unwrap(), "second");
}

#[test]
fn absent_in_both_tables_is_not_found() {
    assert_eq!(choose_info_row(None, None), Err(MetaError::NotFound));
}

#[test]
fn meta_resolves_through_the_fallback_row() {
    let m = book_meta_from_rows(None, Some(String::from(BLOB))).unwrap();
    assert_eq!(m.name, "A Book");
}

#[test]
fn meta_not_found_when_both_rows_are_absent() {
    assert_eq!(book_meta_from_rows(None, None), Err(MetaError::NotFound));
}

#[test]
fn book_query_matches_identifier_or_title() {
    let title = String::from("\u{9b54}\u{6cd5} and more");
    assert!(book_matches("42", 42, None));
    assert!(book_matches("42", 42, Some(&title)));
    assert!(!book_matches("43", 42, None));
    assert!(book_matches("\u{9b54}\u{6cd5}", 42, Some(&title)));
    assert!(book_matches("and m", 42, Some(&title)));
    assert!(!book_matches("absent", 42, Some(&title)));
    assert!(!book_matches("absent", 42, None));
}
