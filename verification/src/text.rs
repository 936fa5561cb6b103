//! Byte-level text utilities shared across the pipeline: ASCII
//! whitespace stripping, decimal parsing and formatting, and UTF-8
//! conversion.
//!
//! The stages work on UTF-8 bytes rather than on `char`s: every
//! delimiter the pipeline cares about is ASCII, and ASCII bytes never
//! occur inside a multi-byte UTF-8 encoding, so byte-wise scans are
//! exact on arbitrary text.

use vstd::prelude::*;
use vstd::string::StringSliceAdditionalSpecFns;
use vstd::utf8::*;

verus! {

/// An ASCII whitespace byte: space, tab, line feed, form feed or
/// carriage return.
pub open spec fn is_ascii_ws(b: u8) -> bool {
    b == 0x20 || b == 0x09 || b == 0x0a || b == 0x0c || b == 0x0d
}

/// The sequence with every ASCII whitespace byte removed.
pub open spec fn strip_ws(s: Seq<u8>) -> Seq<u8>
    decreases s.len(),
{
    if s.len() == 0 {
        Seq::empty()
    } else {
        let rest = strip_ws(s.drop_last());
        if is_ascii_ws(s.last()) {
            rest
        } else {
            rest.push(s.last())
        }
    }
}

/// Removes every ASCII whitespace byte, keeping the rest in order.
pub fn strip_ascii_whitespace(s: &[u8]) -> (r: Vec<u8>)
    ensures
        r@ == strip_ws(s@),
{
    let mut out: Vec<u8> = Vec::new();
    let mut i: usize = 0;
    while i < s.len()
        invariant
            i <= s@.len(),
            out@ == strip_ws(s@.take(i as int)),
        decreases s@.len() - i,
    {
        let b = s[i];
        proof {
            assert(s@.take(i + 1).drop_last() =~= s@.take(i as int));
        }
        if !(b == 0x20 || b == 0x09 || b == 0x0a || b == 0x0c || b == 0x0d) {
            out.push(b);
        }
        i = i + 1;
    }
    proof {
        assert(s@.take(s@.len() as int) =~= s@);
    }
    out
}

/// A decimal digit byte.
pub open spec fn is_digit(b: u8) -> bool {
    0x30 <= b && b <= 0x39
}

/// Every byte of the sequence is a decimal digit.
pub open spec fn all_digits(s: Seq<u8>) -> bool {
    forall|i: int| 0 <= i < s.len() ==> is_digit(#[trigger] s[i])
}

/// The number denoted by decimal digit bytes, most significant first.
pub open spec fn digits_value(s: Seq<u8>) -> nat
    decreases s.len(),
{
    if s.len() == 0 {
        0
    } else {
        digits_value(s.drop_last()) * 10 + (s.last() - 0x30) as nat
    }
}

/// The digit part of a decimal token; one leading `+` sign is allowed,
/// as `str::parse::<u64>` allows one.
pub open spec fn dec_digits_part(s: Seq<u8>) -> Seq<u8> {
    if s.len() > 0 && s[0] == 0x2b {
        s.drop_first()
    } else {
        s
    }
}

/// Whether the bytes read as a decimal u64 the way `str::parse::<u64>`
/// reads one: an optional `+`, then at least one digit, and a value
/// that fits in u64.
pub open spec fn is_dec_u64(s: Seq<u8>) -> bool {
    let d = dec_digits_part(s);
    d.len() > 0 && all_digits(d) && digits_value(d) <= u64::MAX
}

/// The value of a decimal u64 token.
pub open spec fn dec_u64_value(s: Seq<u8>) -> nat {
    digits_value(dec_digits_part(s))
}

/// A digit prefix never denotes more than the whole digit string.
proof fn lemma_digits_prefix_le(s: Seq<u8>, k: int)
    requires
        0 <= k <= s.len(),
    ensures
        digits_value(s.take(k)) <= digits_value(s),
    decreases s.len() - k,
{
    if k == s.len() {
        assert(s.take(k) =~= s);
    } else {
        assert(s.take(k + 1).drop_last() =~= s.take(k));
        lemma_digits_prefix_le(s, k + 1);
    }
}

/// Reads the bytes as a decimal u64, exactly as `str::parse::<u64>`
/// would: `None` on an empty token, a non-digit, or overflow.
pub fn parse_u64_bytes(s: &[u8]) -> (r: Option<u64>)
    ensures
        r is Some <==> is_dec_u64(s@),
        r matches Some(v) ==> v == dec_u64_value(s@),
{
    let n = s.len();
    let start: usize = if n > 0 && s[0] == 0x2b {
        1
    } else {
        0
    };
    if start >= n {
        return None;
    }
    let ghost d = dec_digits_part(s@);
    proof {
        assert(d =~= s@.subrange(start as int, n as int));
    }
    let mut val: u64 = 0;
    let mut i: usize = start;
    while i < n
        invariant
            start <= i <= n,
            n == s@.len(),
            start == 1 ==> n > 0 && s@[0] == 0x2b,
            start == 0 ==> !(n > 0 && s@[0] == 0x2b),
            d == dec_digits_part(s@),
            d =~= s@.subrange(start as int, n as int),
            all_digits(d.take(i - start)),
            val == digits_value(d.take(i - start)),
        decreases n - i,
    {
        let b = s[i];
        if !(0x30 <= b && b <= 0x39) {
            proof {
                assert(d[i - start] == s@[i as int]);
                assert(!is_digit(d[i - start]));
                assert(!all_digits(d));
                assert(!is_dec_u64(s@));
            }
            return None;
        }
        let digit = (b - 0x30) as u64;
        proof {
            assert(d.take(i - start + 1).drop_last() =~= d.take(i - start));
            assert(d.take(i - start + 1).last() == s@[i as int]);
        }
        if val > (u64::MAX - digit) / 10 {
            proof {
                assert(val * 10 + digit > u64::MAX) by (nonlinear_arith)
                    requires
                        val > (u64::MAX - digit) / 10,
                        digit <= 9,
                ;
                assert(digits_value(d.take(i - start + 1)) > u64::MAX);
                if all_digits(d) {
                    lemma_digits_prefix_le(d, i - start + 1);
                    assert(digits_value(d) > u64::MAX);
                }
                assert(!is_dec_u64(s@));
            }
            return None;
        }
        val = val * 10 + digit;
        i = i + 1;
    }
    proof {
        assert(d.take(n - start) =~= d);
    }
    Some(val)
}

/// The u64 a piece of text denotes, read as a decimal from its UTF-8
/// bytes the way `str::parse::<u64>` reads it.
pub open spec fn chars_dec_u64(s: Seq<char>) -> Option<u64> {
    if is_dec_u64(vstd::utf8::encode_utf8(s)) {
        Some(dec_u64_value(vstd::utf8::encode_utf8(s)) as u64)
    } else {
        None
    }
}

/// The decimal digit bytes of a number, most significant first.
pub open spec fn dec_bytes(n: nat) -> Seq<u8>
    decreases n,
{
    if n < 10 {
        seq![(0x30 + n) as u8]
    } else {
        dec_bytes(n / 10).push((0x30 + n % 10) as u8)
    }
}

/// Formats a number as decimal digit bytes.
pub fn u64_to_dec_bytes(n: u64) -> (r: Vec<u8>)
    ensures
        r@ == dec_bytes(n as nat),
    decreases n,
{
    if n < 10 {
        let mut v: Vec<u8> = Vec::new();
        v.push(0x30 + (n as u8));
        proof {
            assert(v@ =~= dec_bytes(n as nat));
        }
        v
    } else {
        proof {
            assert(n / 10 < n) by (nonlinear_arith)
                requires
                    n >= 10,
            ;
        }
        let mut v = u64_to_dec_bytes(n / 10);
        v.push(0x30 + ((n % 10) as u8));
        v
    }
}

/// Whether the needle occurs at position `i` of the haystack.
pub open spec fn is_match_at(hay: Seq<u8>, needle: Seq<u8>, i: int) -> bool {
    0 <= i && i + needle.len() <= hay.len() && hay.subrange(i, i + needle.len()) == needle
}

/// Whether the needle occurs anywhere in the haystack. On UTF-8 text
/// a byte-level occurrence always sits on character boundaries, since
/// a valid first byte is never a continuation byte.
pub open spec fn contains_seq(hay: Seq<u8>, needle: Seq<u8>) -> bool {
    exists|i: int| is_match_at(hay, needle, i)
}

/// Tries the match at one position.
fn match_bytes_at(hay: &[u8], needle: &[u8], i: usize) -> (r: bool)
    requires
        i + needle@.len() <= hay@.len(),
    ensures
        r == is_match_at(hay@, needle@, i as int),
{
    let n = hay.len();
    let mut t: usize = 0;
    while t < needle.len()
        invariant
            t <= needle@.len(),
            n == hay@.len(),
            i + needle@.len() <= n,
            forall|s: int| 0 <= s < t ==> hay@[i + s] == #[trigger] needle@[s],
        decreases needle@.len() - t,
    {
        if hay[i + t] != needle[t] {
            proof {
                assert(hay@.subrange(i as int, i + needle@.len())[t as int] == hay@[i + t]);
            }
            return false;
        }
        t = t + 1;
    }
    proof {
        assert(hay@.subrange(i as int, i + needle@.len()) =~= needle@);
    }
    true
}

/// Whether the needle occurs anywhere in the haystack, as
/// `str::contains` decides it on the texts' UTF-8 bytes.
pub fn contains_bytes(hay: &[u8], needle: &[u8]) -> (r: bool)
    ensures
        r == contains_seq(hay@, needle@),
{
    if needle.len() > hay.len() {
        proof {
            assert(forall|i: int| !is_match_at(hay@, needle@, i));
        }
        return false;
    }
    let last_start = hay.len() - needle.len();
    let mut i: usize = 0;
    while i <= last_start
        invariant
            i <= last_start + 1,
            last_start == hay@.len() - needle@.len(),
            forall|j: int| 0 <= j < i ==> !is_match_at(hay@, needle@, j),
        decreases last_start + 1 - i,
    {
        if match_bytes_at(hay, needle, i) {
            proof {
                assert(contains_seq(hay@, needle@));
            }
            return true;
        }
        if i == last_start {
            proof {
                assert(forall|j: int| j > last_start ==> !is_match_at(hay@, needle@, j));
            }
            return false;
        }
        i = i + 1;
    }
    proof {
        assert(forall|j: int| j > last_start ==> !is_match_at(hay@, needle@, j));
    }
    false
}

/// The decimal digits of a number as characters.
pub open spec fn dec_chars(n: nat) -> Seq<char> {
    dec_bytes(n).map_values(|b: u8| b as char)
}

/// Decimal digit bytes are ASCII digits.
pub proof fn lemma_dec_bytes_ascii(n: nat)
    ensures
        forall|i: int|
            0 <= i < dec_bytes(n).len() ==> 0x30 <= #[trigger] dec_bytes(n)[i] <= 0x39,
    decreases n,
{
    if n >= 10 {
        lemma_dec_bytes_ascii(n / 10);
        let prev = dec_bytes(n / 10);
        assert(dec_bytes(n) == prev.push((0x30 + n % 10) as u8));
        assert(forall|i: int|
            0 <= i < prev.len() ==> dec_bytes(n)[i] == #[trigger] prev[i]);
        assert(dec_bytes(n)[prev.len() as int] == (0x30 + n % 10) as u8);
    }
}

/// Appends the UTF-8 bytes of a piece of text to a byte buffer.
pub fn push_str_bytes(out: &mut Vec<u8>, s: &str)
    ensures
        final(out)@ == old(out)@ + s.spec_bytes(),
{
    let bytes = s.as_bytes();
    out.extend_from_slice(bytes);
    proof {
        assert(out@ =~= old(out)@ + s.spec_bytes());
    }
}

/// Relies on `String::from_utf8`: it succeeds exactly on valid UTF-8
/// and decodes the bytes to the characters they encode.
#[verifier::external_body]
pub fn utf8_to_string(v: Vec<u8>) -> (r: Option<String>)
    ensures
        r is Some <==> valid_utf8(v@),
        r matches Some(s) ==> s@ == decode_utf8(v@),
{
    String::from_utf8(v).ok()
}

/// Formats a number as a string of decimal digits.
pub fn u64_to_string(n: u64) -> (r: String)
    ensures
        r@ == dec_chars(n as nat),
{
    let bytes = u64_to_dec_bytes(n);
    proof {
        lemma_dec_bytes_ascii(n as nat);
        lemma_ascii_bytes_utf8(bytes@);
    }
    match utf8_to_string(bytes) {
        Some(s) => s,
        None => {
            // digit bytes are ASCII, so the conversion cannot fail
            proof {
                assert(false);
            }
            String::new()
        },
    }
}

/// Bytes below 0x80 are valid UTF-8 and decode to themselves.
pub proof fn lemma_ascii_bytes_utf8(s: Seq<u8>)
    requires
        forall|i: int| 0 <= i < s.len() ==> s[i] < 0x80,
    ensures
        valid_utf8(s),
        decode_utf8(s) == s.map_values(|b: u8| b as char),
{
    broadcast use vstd::utf8::group_utf8_lib;

    let cs = s.map_values(|b: u8| b as char);
    assert(is_ascii_chars(cs));
    is_ascii_chars_encode_utf8(cs);
    assert(encode_utf8(cs) =~= s);
    assert(valid_utf8(s));
    assert(decode_utf8(s) == cs);
}

} // verus!
