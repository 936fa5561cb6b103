//! The book assembler: merging a book's outline with the decrypted
//! corpus into ordered plain text.
//!
//! Output order follows the catalog: divisions by the given order,
//! chapters within each division by the given order. A chapter absent
//! from the corpus leaves a gap: its title appears, its body does not,
//! and the book is still produced.

use std::collections::HashMap;
use vstd::prelude::*;
use vstd::string::StringExecFns;

use crate::catalog::{BookMeta, ChapterRef, Division};
use crate::corpus::map_view;
use crate::text::{dec_chars, u64_to_string};

verus! {

/// One chapter's block: the title, a blank line, and, when the corpus
/// holds the chapter, its text and a blank line.
pub open spec fn chapter_block(c: ChapterRef, corpus: Map<u64, Seq<char>>) -> Seq<char> {
    if corpus.contains_key(c.chapter_id) {
        c.title@ + "\n\n"@ + corpus[c.chapter_id] + "\n\n"@
    } else {
        c.title@ + "\n\n"@
    }
}

/// The chapter blocks of one division, in order.
pub open spec fn chapters_text(cs: Seq<ChapterRef>, corpus: Map<u64, Seq<char>>) -> Seq<char>
    decreases cs.len(),
{
    if cs.len() == 0 {
        Seq::empty()
    } else {
        chapters_text(cs.drop_last(), corpus) + chapter_block(cs.last(), corpus)
    }
}

/// The whole book: for each division in order, its name, a blank
/// line, and its chapter blocks.
pub open spec fn book_text(
    divisions: Seq<Division>,
    chapters: Seq<Vec<ChapterRef>>,
    corpus: Map<u64, Seq<char>>,
) -> Seq<char>
    decreases divisions.len(),
{
    if divisions.len() == 0 {
        Seq::empty()
    } else {
        book_text(divisions.drop_last(), chapters.drop_last(), corpus) + divisions.last().name@
            + "\n\n"@ + chapters_text(chapters.last()@, corpus)
    }
}

/// Assembles a book's plain text from its outline and the corpus: a
/// single order-preserving pass, deterministic in its inputs. The
/// chapter lists are given per division, aligned with the divisions.
pub fn assemble(
    divisions: &Vec<Division>,
    chapters: &Vec<Vec<ChapterRef>>,
    corpus: &HashMap<u64, String>,
) -> (r: String)
    requires
        divisions@.len() == chapters@.len(),
    ensures
        r@ == book_text(divisions@, chapters@, map_view(corpus@)),
{
    let ghost cv = map_view(corpus@);
    let mut out = String::new();
    let mut i: usize = 0;
    while i < divisions.len()
        invariant
            i <= divisions@.len(),
            divisions@.len() == chapters@.len(),
            cv == map_view(corpus@),
            out@ == book_text(divisions@.take(i as int), chapters@.take(i as int), cv),
        decreases divisions@.len() - i,
    {
        proof {
            assert(divisions@.take(i + 1).drop_last() =~= divisions@.take(i as int));
            assert(chapters@.take(i + 1).drop_last() =~= chapters@.take(i as int));
        }
        let division = &divisions[i];
        out.append(division.name.as_str());
        out.append("\n\n");
        let row = &chapters[i];
        let mut j: usize = 0;
        while j < row.len()
            invariant
                j <= row@.len(),
                i < divisions@.len(),
                divisions@.len() == chapters@.len(),
                cv == map_view(corpus@),
                row == &chapters[i as int],
                out@ == book_text(divisions@.take(i as int), chapters@.take(i as int), cv)
                    + divisions@[i as int].name@ + "\n\n"@ + chapters_text(row@.take(j as int), cv),
            decreases row@.len() - j,
        {
            proof {
                assert(row@.take(j + 1).drop_last() =~= row@.take(j as int));
            }
            let c = &row[j];
            out.append(c.title.as_str());
            out.append("\n\n");
            match corpus.get(&c.chapter_id) {
                Some(text) => {
                    out.append(text.as_str());
                    out.append("\n\n");
                },
                None => {},
            }
            j = j + 1;
        }
        proof {
            assert(row@.take(row@.len() as int) =~= row@);
            assert(chapters@.take(i + 1).last() == chapters@[i as int]);
        }
        i = i + 1;
    }
    proof {
        assert(divisions@.take(divisions@.len() as int) =~= divisions@);
        assert(chapters@.take(chapters@.len() as int) =~= chapters@);
    }
    out
}

/// The file name of a book's plain-text export: the book's name and
/// author when the catalog knows them, else the bare identifier.
pub fn txt_file_name(meta: &Option<BookMeta>, book_id: u64) -> (r: String)
    ensures
        match meta {
            Some(m) => r@ == "\u{300a}"@ + m.name@ + "\u{300b}\u{4f5c}\u{8005}\u{ff1a}"@
                + m.author@ + ".txt"@,
            None => r@ == dec_chars(book_id as nat) + ".txt"@,
        },
{
    match meta {
        Some(m) => {
            let mut out = String::from_str("\u{300a}");
            out.append(m.name.as_str());
            out.append("\u{300b}\u{4f5c}\u{8005}\u{ff1a}");
            out.append(m.author.as_str());
            out.append(".txt");
            out
        },
        None => {
            let mut out = u64_to_string(book_id);
            out.append(".txt");
            out
        },
    }
}

} // verus!
