use std::collections::HashMap;

use bookdec::assemble::{assemble, txt_file_name};
use bookdec::catalog::{parse_chapter_rows, BookMeta, ChapterRef, Division};
use bookdec::errors::CatalogError;

fn division(index: u64, name: &str) -> Division {
    Division { index, name: String::from(name) }
}

fn chapter(chapter_id: u64, title: &str, chapter_index: u64) -> ChapterRef {
    ChapterRef { chapter_id, title: String::from(title), chapter_index }
}

#[test]
fn one_division_one_chapter_with_body() {
    let divisions = vec![division(0, "Intro")];
    let chapters = vec![vec![chapter(5, "Ch1", 0)]];
    let mut corpus = HashMap::new();
    corpus.insert(5u64, String::from("Hello"));
    let text = assemble(&divisions, &chapters, &corpus);
    assert_eq!(text, "Intro\n\nCh1\n\nHello\n\n");
}

#[test]
fn missing_chapter_leaves_a_gap() {
    let divisions = vec![division(0, "Intro")];
    let chapters = vec![vec![chapter(5, "Ch1", 0)]];
    let corpus: HashMap<u64, String> = HashMap::new();
    let text = assemble(&divisions, &chapters, &corpus);
    assert_eq!(text, "Intro\n\nCh1\n\n");
}

#[test]
fn catalog_order_is_kept() {
    let divisions = vec![division(2, "Volume 2"), division(1, "Volume 1")];
    let chapters = vec![
        vec![chapter(20, "B", 0), chapter(10, "A", 1)],
        vec![chapter(30, "C", 0)],
    ];
    let mut corpus = HashMap::new();
    corpus.insert(10u64, String::from("ten"));
    corpus.insert(20u64, String::from("twenty"));
    corpus.insert(30u64, String::from("thirty"));
    let text = assemble(&divisions, &chapters, &corpus);
    assert_eq!(
        text,
        "Volume 2\n\nB\n\ntwenty\n\nA\n\nten\n\nVolume 1\n\nC\n\nthirty\n\n"
    );
}

#[test]
fn chapter_rows_parse_in_order() {
    let rows = vec![
        (String::from("12"), String::from("First"), 0u64),
        (String::from("0034"), String::from("Second"), 1u64),
    ];
    let refs = parse_chapter_rows(&rows).unwrap();
    assert_eq!(refs.len(), 2);
    assert_eq!(refs[0].chapter_id, 12);
    assert_eq!(refs[0].title, "First");
    assert_eq!(refs[0].chapter_index, 0);
    assert_eq!(refs[1].chapter_id, 34);
    assert_eq!(refs[1].chapter_index, 1);
}

#[test]
fn bad_chapter_identifier_fails_the_outline() {
    let rows = vec![
        (String::from("12"), String::from("First"), 0u64),
        (String::from("12b"), String::from("Second"), 1u64),
    ];
    assert_eq!(parse_chapter_rows(&rows), Err(CatalogError::ChapterId));
}

#[test]
fn txt_export_names_follow_the_metadata() {
    let meta = Some(BookMeta {
        name: String::from("Book"),
        author: String::from("Author"),
        cover_url: String::from("u"),
    });
    assert_eq!(
        txt_file_name(&meta, 9),
        "\u{300a}Book\u{300b}\u{4f5c}\u{8005}\u{ff1a}Author.txt"
    );
    assert_eq!(txt_file_name(&None, 9), "9.txt");
}
