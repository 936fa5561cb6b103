use std::collections::HashMap;

use bookdec::catalog::{BookMeta, ChapterRef, Division};
use bookdec::container::{
    collect_fetches, cover_target, epub_file_name, fetch_targets, finish_publication, mime_type,
    plan_publication,
};

fn meta() -> BookMeta {
    BookMeta {
        name: String::from("A Book"),
        author: String::from("An Author"),
        cover_url: String::from("https://ex.com/covers/c.jpg"),
    }
}

#[test]
fn mime_is_guessed_from_the_extension() {
    assert_eq!(mime_type("a/b.jpg"), "image/jpeg");
    assert_eq!(mime_type("x.png"), "image/png");
    assert_eq!(mime_type("noextension"), "*/*");
}

#[test]
fn fetch_results_collect_with_failures_dropped() {
    let results = vec![
        (String::from("a.png"), Some(b"one".to_vec())),
        (String::from("b.png"), None),
        (String::from("a.png"), Some(b"two".to_vec())),
    ];
    let collected = collect_fetches(&results);
    assert_eq!(collected, vec![(String::from("a.png"), b"two".to_vec())]);
}

#[test]
fn targets_pair_each_uri_with_its_local_path() {
    let uris = vec![
        b"https://ex.com/a/b.jpg".to_vec(),
        b"ht tp://bad".to_vec(),
        b"https://ex.com/c.png".to_vec(),
    ];
    let targets = fetch_targets(&uris);
    assert_eq!(targets.len(), 2);
    assert_eq!(targets[0].0, b"https://ex.com/a/b.jpg".to_vec());
    assert_eq!(targets[0].1, "a/b.jpg");
    assert_eq!(targets[1].1, "c.png");
}

#[test]
fn cover_registers_its_own_target() {
    let t = cover_target(&meta()).unwrap();
    assert_eq!(t.0, b"https://ex.com/covers/c.jpg".to_vec());
    assert_eq!(t.1, "covers/c.jpg");
}

#[test]
fn unparseable_cover_url_registers_nothing() {
    let m = BookMeta {
        name: String::from("n"),
        author: String::from("a"),
        cover_url: String::from("ht tp://b a d"),
    };
    assert!(cover_target(&m).is_none());
}

#[test]
fn a_whole_publication_serializes_to_a_zip_container() {
    let divisions = vec![Division { index: 0, name: String::from("Intro") }];
    let chapters = vec![vec![ChapterRef {
        chapter_id: 5,
        title: String::from("Ch1"),
        chapter_index: 1,
    }]];
    let mut corpus = HashMap::new();
    corpus.insert(
        5u64,
        String::from("Hello\n<img src=\"https://ex.com/pic.png\" alt=\"p\">"),
    );
    let book_meta = Some(meta());
    let (pages, targets, cover_path) = plan_publication(&divisions, &chapters, &corpus, &book_meta);
    assert_eq!(pages.len(), 2);
    assert_eq!(targets.len(), 2);
    assert_eq!(targets[0].1, "pic.png");
    assert_eq!(targets[1].1, "covers/c.jpg");
    assert_eq!(cover_path.as_deref(), Some("covers/c.jpg"));

    let results = vec![
        (String::from("pic.png"), Some(vec![1u8, 2, 3])),
        (String::from("covers/c.jpg"), Some(vec![4u8, 5])),
    ];
    let images = collect_fetches(&results);
    let mut container = finish_publication(&pages, &book_meta, &images, &cover_path).unwrap();
    let bytes = container.generate().unwrap();
    assert!(bytes.len() > 4);
    assert_eq!(&bytes[0..2], b"PK");
}

#[test]
fn a_missing_cover_image_degrades_gracefully() {
    let divisions = vec![Division { index: 0, name: String::from("Intro") }];
    let chapters = vec![Vec::<ChapterRef>::new()];
    let corpus: HashMap<u64, String> = HashMap::new();
    let book_meta = Some(meta());
    let (pages, _targets, cover_path) =
        plan_publication(&divisions, &chapters, &corpus, &book_meta);
    let images = collect_fetches(&Vec::new());
    let mut container = finish_publication(&pages, &book_meta, &images, &cover_path).unwrap();
    assert!(container.generate().is_some());
}

#[test]
fn epub_export_names_follow_the_metadata() {
    assert_eq!(epub_file_name(&Some(meta()), 9), "A Book.epub");
    assert_eq!(epub_file_name(&None, 123), "123.epub");
}
