//! The catalog's data model and the logic around its two read
//! operations: turning raw outline rows into chapter references, and
//! resolving a book's metadata blob.
//!
//! The database queries themselves are plain I/O and stay outside the
//! library; they hand in rows as plain values.

use vstd::prelude::*;
use vstd::string::StringExecFns;
use vstd::utf8::encode_utf8;

use crate::errors::{CatalogError, MetaError};
use crate::text::{chars_dec_u64, contains_bytes, contains_seq, dec_chars, u64_to_string};

verus! {

/// A top-level grouping of chapters within a book, ordered by index.
#[derive(Clone, Debug, PartialEq)]
pub struct Division {
    pub index: u64,
    pub name: String,
}

/// One chapter in a division's outline, ordered by chapter index.
#[derive(Clone, Debug, PartialEq)]
pub struct ChapterRef {
    pub chapter_id: u64,
    pub title: String,
    pub chapter_index: u64,
}

/// A book's catalog metadata.
#[derive(Clone, Debug, PartialEq)]
pub struct BookMeta {
    pub name: String,
    pub author: String,
    pub cover_url: String,
}

/// What a set of outline rows (chapter id text, title, chapter index)
/// reads as: the chapter references in row order, or an error if any
/// identifier column does not hold a decimal u64.
pub open spec fn chapter_rows_model(rows: Seq<(String, String, u64)>) -> Result<
    Seq<ChapterRef>,
    CatalogError,
>
    decreases rows.len(),
{
    if rows.len() == 0 {
        Ok(Seq::empty())
    } else {
        match chapter_rows_model(rows.drop_last()) {
            Err(e) => Err(e),
            Ok(prefix) => match chars_dec_u64(rows.last().0@) {
                None => Err(CatalogError::ChapterId),
                Some(id) => Ok(
                    prefix.push(
                        ChapterRef {
                            chapter_id: id,
                            title: rows.last().1,
                            chapter_index: rows.last().2,
                        },
                    ),
                ),
            },
        }
    }
}

/// Once a row set has a bad identifier, every extension still has it.
proof fn lemma_rows_err_persists(rows: Seq<(String, String, u64)>, k: int)
    requires
        0 <= k <= rows.len(),
        chapter_rows_model(rows.take(k)) is Err,
    ensures
        chapter_rows_model(rows) is Err,
    decreases rows.len() - k,
{
    if k == rows.len() {
        assert(rows.take(k) =~= rows);
    } else {
        assert(rows.take(k + 1).drop_last() =~= rows.take(k));
        lemma_rows_err_persists(rows, k + 1);
    }
}

/// Reads outline rows into chapter references, in row order; a row
/// whose chapter identifier column is not a decimal u64 fails the
/// whole outline, as a malformed catalog aborts that book alone.
pub fn parse_chapter_rows(rows: &Vec<(String, String, u64)>) -> (r: Result<
    Vec<ChapterRef>,
    CatalogError,
>)
    ensures
        match (r, chapter_rows_model(rows@)) {
            (Ok(v), Ok(s)) => v@ == s,
            (Err(e), Err(m)) => e == m,
            _ => false,
        },
{
    let mut out: Vec<ChapterRef> = Vec::new();
    let mut i: usize = 0;
    while i < rows.len()
        invariant
            i <= rows@.len(),
            chapter_rows_model(rows@.take(i as int)) matches Ok(s) && out@ == s,
        decreases rows@.len() - i,
    {
        proof {
            assert(rows@.take(i + 1).drop_last() =~= rows@.take(i as int));
        }
        let row = &rows[i];
        match crate::text::parse_u64_bytes(row.0.as_str().as_bytes()) {
            Some(id) => {
                out.push(
                    ChapterRef { chapter_id: id, title: row.1.clone(), chapter_index: row.2 },
                );
            },
            None => {
                proof {
                    lemma_rows_err_persists(rows@, i + 1);
                }
                return Err(CatalogError::ChapterId);
            },
        }
        i = i + 1;
    }
    proof {
        assert(rows@.take(rows@.len() as int) =~= rows@);
    }
    Ok(out)
}

/// Picks the metadata blob the way the catalog reader does: the first
/// table's row is preferred, the second is the fallback, and a book
/// absent from both has no metadata.
pub fn choose_info_row(first: Option<String>, second: Option<String>) -> (r: Result<
    String,
    MetaError,
>)
    ensures
        first matches Some(t) ==> (r matches Ok(v) && v == t),
        second matches Some(t) ==> (first is None ==> (r matches Ok(v) && v == t)),
        first is None && second is None ==> (r matches Err(e) && e == MetaError::NotFound),
{
    match first {
        Some(t) => Ok(t),
        None => match second {
            Some(t) => Ok(t),
            None => Err(MetaError::NotFound),
        },
    }
}

/// What serde_json reads as the string value of a named top-level
/// field: `None` when the text is not JSON, the field is absent, or
/// its value is not a string. A function of text and key alone.
pub uninterp spec fn json_str_field_of(text: Seq<char>, key: Seq<char>) -> Option<Seq<char>>;

/// Relies on serde_json (`from_str` to a `Value`, `get`, `as_str`):
/// extracts the string value of a named top-level field.
#[verifier::external_body]
fn json_str_field(text: &str, key: &str) -> (r: Option<String>)
    ensures
        r is Some <==> json_str_field_of(text@, key@) is Some,
        r matches Some(s) ==> json_str_field_of(text@, key@) == Some(s@),
{
    let value: serde_json::Value = serde_json::from_str(text).ok()?;
    let field = value.get(key)?.as_str()?;
    Some(field.to_string())
}

/// What a metadata blob yields: the `book_name`, `author_name` and
/// `cover` string fields, or a parse failure if any is missing.
pub open spec fn book_meta_model(text: Seq<char>) -> Result<
    (Seq<char>, Seq<char>, Seq<char>),
    MetaError,
> {
    match (
        json_str_field_of(text, "book_name"@),
        json_str_field_of(text, "author_name"@),
        json_str_field_of(text, "cover"@),
    ) {
        (Some(n), Some(a), Some(c)) => Ok((n, a, c)),
        _ => Err(MetaError::Parse),
    }
}

/// Reads a metadata blob into a book's name, author and cover URL;
/// a blob that is not JSON or lacks any of the three string fields is
/// a parse failure.
pub fn parse_book_meta(text: &str) -> (r: Result<BookMeta, MetaError>)
    ensures
        match (r, book_meta_model(text@)) {
            (Ok(m), Ok(t)) => m.name@ == t.0 && m.author@ == t.1 && m.cover_url@ == t.2,
            (Err(e), Err(m)) => e == m,
            _ => false,
        },
{
    let name = json_str_field(text, "book_name");
    let author = json_str_field(text, "author_name");
    let cover = json_str_field(text, "cover");
    match (name, author, cover) {
        (Some(n), Some(a), Some(c)) => Ok(BookMeta { name: n, author: a, cover_url: c }),
        _ => Err(MetaError::Parse),
    }
}

/// What a book's metadata resolves to from the two optional table
/// rows: the preferred blob parsed, `NotFound` when both are absent.
pub open spec fn book_info_model(first: Option<String>, second: Option<String>) -> Result<
    (Seq<char>, Seq<char>, Seq<char>),
    MetaError,
> {
    match first {
        Some(t) => book_meta_model(t@),
        None => match second {
            Some(t) => book_meta_model(t@),
            None => Err(MetaError::NotFound),
        },
    }
}

/// Resolves a book's metadata from the two optional table rows:
/// prefer the first, fall back to the second, and parse the blob.
pub fn book_meta_from_rows(first: Option<String>, second: Option<String>) -> (r: Result<
    BookMeta,
    MetaError,
>)
    ensures
        match (r, book_info_model(first, second)) {
            (Ok(m), Ok(t)) => m.name@ == t.0 && m.author@ == t.1 && m.cover_url@ == t.2,
            (Err(e), Err(m)) => e == m,
            _ => false,
        },
{
    match choose_info_row(first, second) {
        Ok(text) => parse_book_meta(text.as_str()),
        Err(e) => Err(e),
    }
}

/// Whether a book answers a query: the query is exactly the decimal
/// book identifier, or occurs inside the book's title when one is
/// known.
pub fn book_matches(query: &str, book_id: u64, title: Option<&String>) -> (r: bool)
    ensures
        r == (query@ == dec_chars(book_id as nat) || match title {
            Some(t) => contains_seq(encode_utf8(t@), encode_utf8(query@)),
            None => false,
        }),
{
    let id_text = u64_to_string(book_id);
    let query_string = String::from_str(query);
    if id_text == query_string {
        return true;
    }
    match title {
        Some(t) => contains_bytes(t.as_str().as_bytes(), query.as_bytes()),
        None => false,
    }
}

} // verus!
