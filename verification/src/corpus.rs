//! The chapter corpus builder: joining chapter files with their keys
//! and decrypting each.
//!
//! A chapter file's stem is the decimal chapter identifier. A file
//! whose stem does not parse, whose identifier has no key, or whose
//! content does not decrypt is skipped; the corpus holds only whole,
//! decrypted chapters. When two files carry the same identifier, the
//! later file in the given order wins.

use std::collections::HashMap;
use vstd::prelude::*;

use crate::codec::{decrypt, decrypt_model};
use crate::text::{chars_dec_u64, parse_u64_bytes};

verus! {

/// The view of an identifier-to-text mapping: each text by its
/// characters.
pub open spec fn map_view(m: Map<u64, String>) -> Map<u64, Seq<char>> {
    Map::new(|id: u64| m.contains_key(id), |id: u64| m[id]@)
}

/// The chapter identifier a chapter file's stem denotes, read as a
/// decimal u64 from the stem's UTF-8 bytes.
pub open spec fn stem_id(stem: Seq<char>) -> Option<u64> {
    chars_dec_u64(stem)
}

/// The corpus built from chapter files given as (file stem, content
/// bytes) pairs, in order, against the given chapter keys; a later
/// file with the same identifier overwrites an earlier one.
pub open spec fn corpus_model(files: Seq<(String, Vec<u8>)>, keys: Map<u64, Seq<char>>) -> Map<
    u64,
    Seq<char>,
>
    decreases files.len(),
{
    if files.len() == 0 {
        Map::empty()
    } else {
        let prev = corpus_model(files.drop_last(), keys);
        match stem_id(files.last().0@) {
            None => prev,
            Some(id) => if keys.contains_key(id) {
                match decrypt_model(files.last().1@, keys[id]) {
                    Ok(text) => prev.insert(id, text),
                    Err(_) => prev,
                }
            } else {
                prev
            },
        }
    }
}

/// Builds the identifier-to-text corpus from chapter files given as
/// (file stem, content bytes) pairs. Files that fail stem parsing, key
/// lookup or decryption are skipped.
pub fn build_corpus(files: &Vec<(String, Vec<u8>)>, keys: &HashMap<u64, String>) -> (m: HashMap<
    u64,
    String,
>)
    ensures
        m@.dom() == corpus_model(files@, map_view(keys@)).dom(),
        forall|id: u64| #[trigger]
            m@.dom().contains(id) ==> m@[id]@ == corpus_model(files@, map_view(keys@))[id],
{
    let ghost kv = map_view(keys@);
    let mut m: HashMap<u64, String> = HashMap::new();
    let mut i: usize = 0;
    while i < files.len()
        invariant
            i <= files@.len(),
            kv == map_view(keys@),
            m@.dom() == corpus_model(files@.take(i as int), kv).dom(),
            forall|id: u64| #[trigger]
                m@.dom().contains(id) ==> m@[id]@ == corpus_model(files@.take(i as int), kv)[id],
        decreases files@.len() - i,
    {
        proof {
            assert(files@.take(i + 1).drop_last() =~= files@.take(i as int));
        }
        let file = &files[i];
        match parse_u64_bytes(file.0.as_str().as_bytes()) {
            Some(id) => {
                match keys.get(&id) {
                    Some(key) => {
                        match decrypt(&file.1, key.as_str()) {
                            Ok(text) => {
                                let _previous = m.insert(id, text);
                            },
                            Err(_) => {},
                        }
                    },
                    None => {},
                }
            },
            None => {},
        }
        proof {
            assert(m@.dom() =~= corpus_model(files@.take(i + 1), kv).dom());
        }
        i = i + 1;
    }
    proof {
        assert(files@.take(files@.len() as int) =~= files@);
    }
    m
}

} // verus!
