use std::collections::HashMap;

use bookdec::catalog::{ChapterRef, Division};
use bookdec::render::{build_pages, extract_sections, render_chapter_body, render_line, split_lines};

fn line(s: &str) -> Vec<u8> {
    s.as_bytes().to_vec()
}

#[test]
fn image_line_becomes_a_figure_with_local_path() {
    let input = line("  <img src=\"https://ex.com/a/b.jpg\" alt=\"x\">");
    let (html, uri) = render_line(&input);
    assert_eq!(
        String::from_utf8(html).unwrap(),
        "<figure>\n<img src=\"a/b.jpg\"/>\n<figcaption>x</figcaption>\n</figure>\n"
    );
    assert_eq!(uri, Some(b"https://ex.com/a/b.jpg".to_vec()));
}

#[test]
fn plain_line_becomes_one_paragraph() {
    let (html, uri) = render_line(&line("just a line of text"));
    assert_eq!(String::from_utf8(html).unwrap(), "<p>just a line of text</p>\n");
    assert_eq!(uri, None);
}

#[test]
fn image_without_caption_has_no_figcaption() {
    let input = line("<img src='https://ex.com/i.png'>");
    let (html, uri) = render_line(&input);
    assert_eq!(
        String::from_utf8(html).unwrap(),
        "<figure>\n<img src=\"i.png\"/>\n</figure>\n"
    );
    assert_eq!(uri, Some(b"https://ex.com/i.png".to_vec()));
}

#[test]
fn image_without_source_keeps_the_caption() {
    let (html, uri) = render_line(&line("<img alt=\"a caption\">"));
    assert_eq!(
        String::from_utf8(html).unwrap(),
        "<p>\u{56fe}\u{ff1a}a caption</p>\n"
    );
    assert_eq!(uri, None);
}

#[test]
fn image_without_source_or_caption_renders_nothing() {
    let (html, uri) = render_line(&line("<img >"));
    assert!(html.is_empty());
    assert_eq!(uri, None);
}

#[test]
fn attribute_spacing_and_quote_styles_are_accepted() {
    let input = line("\t<img src =  'https://ex.com/p/q.png' >");
    let (html, uri) = render_line(&input);
    assert_eq!(
        String::from_utf8(html).unwrap(),
        "<figure>\n<img src=\"p/q.png\"/>\n</figure>\n"
    );
    assert_eq!(uri, Some(b"https://ex.com/p/q.png".to_vec()));
}

#[test]
fn unparseable_source_falls_back_to_the_caption() {
    let (html, uri) = render_line(&line("<img src=\"ht tp://b a d\" alt=\"c\">"));
    assert_eq!(String::from_utf8(html).unwrap(), "<p>\u{56fe}\u{ff1a}c</p>\n");
    assert_eq!(uri, None);
}

#[test]
fn lines_split_like_str_lines() {
    let got = split_lines(&b"a\r\nb\nc".to_vec());
    assert_eq!(got, vec![b"a".to_vec(), b"b".to_vec(), b"c".to_vec()]);
    let trailing = split_lines(&b"a\n".to_vec());
    assert_eq!(trailing, vec![b"a".to_vec()]);
    let empties = split_lines(&b"\n\n".to_vec());
    assert_eq!(empties, vec![Vec::<u8>::new(), Vec::<u8>::new()]);
    let lone_cr = split_lines(&b"a\rb".to_vec());
    assert_eq!(lone_cr, vec![b"a\rb".to_vec()]);
    assert!(split_lines(&Vec::new()).is_empty());
}

#[test]
fn chapter_body_collects_registered_uris_in_order() {
    let text = "one\n<img src=\"https://ex.com/1.png\">\ntwo\n<img src=\"https://ex.com/2.png\">";
    let (html, uris) = render_chapter_body(&text.as_bytes().to_vec());
    let html = String::from_utf8(html).unwrap();
    assert_eq!(
        html,
        "<p>one</p>\n<figure>\n<img src=\"1.png\"/>\n</figure>\n<p>two</p>\n<figure>\n<img src=\"2.png\"/>\n</figure>\n"
    );
    assert_eq!(
        uris,
        vec![b"https://ex.com/1.png".to_vec(), b"https://ex.com/2.png".to_vec()]
    );
}

#[test]
fn sections_and_pages_follow_the_outline() {
    let divisions = vec![Division { index: 0, name: String::from("Intro") }];
    let chapters = vec![vec![ChapterRef {
        chapter_id: 5,
        title: String::from("Ch1"),
        chapter_index: 1,
    }]];
    let mut corpus = HashMap::new();
    corpus.insert(5u64, String::from("Hello"));
    let sections = extract_sections(&divisions, &chapters, &corpus);
    assert_eq!(sections.len(), 2);
    assert_eq!(sections[0].filename, "0_front.xhtml");
    assert_eq!(sections[1].filename, "0_1.xhtml");

    let (pages, uris) = build_pages(sections);
    assert_eq!(pages.len(), 2);
    assert!(pages[0].front);
    assert_eq!(pages[0].title, "Intro");
    let front = String::from_utf8(pages[0].body.clone()).unwrap();
    assert!(front.contains("<h1>Intro</h1>"));
    assert!(!pages[1].front);
    let body = String::from_utf8(pages[1].body.clone()).unwrap();
    assert!(body.contains("<h2>Ch1</h2>"));
    assert!(body.contains("<p>Hello</p>\n"));
    assert!(uris.is_empty());
}

#[test]
fn missing_chapter_text_yields_an_empty_body() {
    let divisions = vec![Division { index: 2, name: String::from("V2") }];
    let chapters = vec![vec![ChapterRef {
        chapter_id: 9,
        title: String::from("Gone"),
        chapter_index: 3,
    }]];
    let corpus: HashMap<u64, String> = HashMap::new();
    let sections = extract_sections(&divisions, &chapters, &corpus);
    assert_eq!(sections.len(), 2);
    assert_eq!(sections[1].filename, "2_3.xhtml");
    let (pages, uris) = build_pages(sections);
    let body = String::from_utf8(pages[1].body.clone()).unwrap();
    assert!(body.contains("<h2>Gone</h2>\n</body>"));
    assert!(uris.is_empty());
}

#[test]
fn unicode_whitespace_counts_as_leading_whitespace() {
    let input = line("\u{3000}\u{00a0} <img src=\"https://ex.com/u.png\">");
    let (html, uri) = render_line(&input);
    assert_eq!(
        String::from_utf8(html).unwrap(),
        "<figure>\n<img src=\"u.png\"/>\n</figure>\n"
    );
    assert_eq!(uri, Some(b"https://ex.com/u.png".to_vec()));
}

#[test]
fn unicode_whitespace_is_accepted_around_the_equals_sign() {
    let input = line("<img src\u{2009}=\u{00a0}'https://ex.com/v.png'>");
    let (html, uri) = render_line(&input);
    assert_eq!(
        String::from_utf8(html).unwrap(),
        "<figure>\n<img src=\"v.png\"/>\n</figure>\n"
    );
    assert_eq!(uri, Some(b"https://ex.com/v.png".to_vec()));
}
