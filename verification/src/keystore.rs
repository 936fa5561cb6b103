//! The key store: decoding key-directory entries into chapter keys.
//!
//! Each entry's file name is base64 of a byte string whose first nine
//! bytes are the ASCII-decimal chapter identifier; the entry's content
//! is the chapter's key material. Entries that fail any decoding step
//! are skipped. When two entries decode to the same identifier, the
//! later entry in the given order wins; identifiers are expected to be
//! unique, so the policy only pins down a corner case.

use std::collections::HashMap;
use vstd::prelude::*;
use vstd::utf8::encode_utf8;

use crate::codec::{b64_decode, b64_decode_of};
use crate::text::{dec_u64_value, is_dec_u64, parse_u64_bytes};

verus! {

/// The chapter identifier a key-directory entry's file name encodes:
/// the name must be valid base64 of at least nine bytes, and the first
/// nine decoded bytes must read as a decimal identifier.
pub open spec fn key_name_id(name: Seq<char>) -> Option<u64> {
    match b64_decode_of(encode_utf8(name)) {
        None => None,
        Some(decoded) => {
            let token = decoded.take(9);
            if decoded.len() >= 9 && is_dec_u64(token) {
                Some(dec_u64_value(token) as u64)
            } else {
                None
            }
        },
    }
}

/// Decodes one key-directory file name to the chapter identifier it
/// encodes, or `None` for a malformed entry.
pub fn decode_key_name(name: &str) -> (r: Option<u64>)
    ensures
        r == key_name_id(name@),
{
    let name_bytes = name.as_bytes_vec();
    let mut decoded = match b64_decode(&name_bytes) {
        Some(v) => v,
        None => {
            return None;
        },
    };
    if decoded.len() < 9 {
        return None;
    }
    decoded.truncate(9);
    parse_u64_bytes(decoded.as_slice())
}

/// The mapping the key store builds from directory entries given as
/// (file name, file content) pairs, in order; a later entry with the
/// same decoded identifier overwrites an earlier one.
pub open spec fn keystore_model(entries: Seq<(String, String)>) -> Map<u64, Seq<char>>
    decreases entries.len(),
{
    if entries.len() == 0 {
        Map::empty()
    } else {
        let prev = keystore_model(entries.drop_last());
        match key_name_id(entries.last().0@) {
            Some(id) => prev.insert(id, entries.last().1@),
            None => prev,
        }
    }
}

/// Builds the chapter-key mapping from directory entries given as
/// (file name, file content) pairs. Entries whose name does not decode
/// are skipped; on duplicate identifiers the later entry wins.
pub fn build_keystore(entries: &Vec<(String, String)>) -> (m: HashMap<u64, String>)
    ensures
        m@.dom() == keystore_model(entries@).dom(),
        forall|id: u64| #[trigger]
            m@.dom().contains(id) ==> m@[id]@ == keystore_model(entries@)[id],
{
    let mut m: HashMap<u64, String> = HashMap::new();
    let mut i: usize = 0;
    while i < entries.len()
        invariant
            i <= entries@.len(),
            m@.dom() == keystore_model(entries@.take(i as int)).dom(),
            forall|id: u64| #[trigger]
                m@.dom().contains(id) ==> m@[id]@ == keystore_model(entries@.take(i as int))[id],
        decreases entries@.len() - i,
    {
        proof {
            assert(entries@.take(i + 1).drop_last() =~= entries@.take(i as int));
        }
        let entry = &entries[i];
        match decode_key_name(entry.0.as_str()) {
            Some(id) => {
                let _previous = m.insert(id, entry.1.clone());
                proof {
                    assert(m@.dom() =~= keystore_model(entries@.take(i + 1)).dom());
                }
            },
            None => {
                proof {
                    assert(m@.dom() =~= keystore_model(entries@.take(i + 1)).dom());
                }
            },
        }
        i = i + 1;
    }
    proof {
        assert(entries@.take(entries@.len() as int) =~= entries@);
    }
    m
}

} // verus!
