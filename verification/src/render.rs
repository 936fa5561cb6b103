//! Turning chapter text into publication markup.
//!
//! Chapter text is transformed line by line. A line that is an image
//! element after leading whitespace is parsed for its `src` and
//! `alt` attributes: with a usable `src` the line becomes a figure
//! block whose image source is rewritten to a container-relative path
//! and whose remote URI is registered for fetching; with only an `alt`
//! it becomes a captioned placeholder paragraph. Any other line is
//! wrapped as a paragraph, unchanged. Attribute syntax is the loose
//! form the stored chapters use: the attribute name, optional
//! whitespace around `=`, either quote, and the shortest run of bytes
//! up to the next quote. Whitespace here means the Unicode whitespace
//! characters, recognised by their UTF-8 encodings.

use vstd::prelude::*;
use vstd::string::{StrSliceExecFns, StringExecFns, StringSliceAdditionalSpecFns};
use vstd::utf8::encode_utf8;

use std::collections::HashMap;

use crate::catalog::{ChapterRef, Division};
use crate::corpus::map_view;
use crate::text::{dec_chars, push_str_bytes, u64_to_string};
use crate::uri::{local_path, parse_uri, trim_sep_chars, uri_parts_of};

verus! {

/// The UTF-8 bytes of a piece of literal text.
pub open spec fn lit_bytes(s: &str) -> Seq<u8> {
    s.spec_bytes()
}

/// A whitespace byte of the ASCII range as the image-line syntax
/// accepts it: tab through carriage return, and space.
pub open spec fn is_ws_byte(b: u8) -> bool {
    0x09 <= b <= 0x0d || b == 0x20
}

/// The three-byte UTF-8 encodings of Unicode whitespace: the ogham
/// space mark, the en-quad through hair-space run, the line and
/// paragraph separators, the narrow no-break space, the medium
/// mathematical space, and the ideographic space.
pub open spec fn is_ws_triple(b0: u8, b1: u8, b2: u8) -> bool {
    (b0 == 0xe1 && b1 == 0x9a && b2 == 0x80) || (b0 == 0xe2 && b1 == 0x80 && (0x80 <= b2 <= 0x8a
        || b2 == 0xa8 || b2 == 0xa9 || b2 == 0xaf)) || (b0 == 0xe2 && b1 == 0x81 && b2 == 0x9f)
        || (b0 == 0xe3 && b1 == 0x80 && b2 == 0x80)
}

/// The length of the whitespace encoding starting at `i`: one ASCII
/// whitespace byte, the two-byte encodings of next-line and no-break
/// space, or a three-byte whitespace encoding; zero when none starts
/// here.
pub open spec fn ws_len_at(s: Seq<u8>, i: int) -> int {
    if i < 0 || i >= s.len() {
        0
    } else if is_ws_byte(s[i]) {
        1
    } else if i + 2 <= s.len() && s[i] == 0xc2 && (s[i + 1] == 0x85 || s[i + 1] == 0xa0) {
        2
    } else if i + 3 <= s.len() && is_ws_triple(s[i], s[i + 1], s[i + 2]) {
        3
    } else {
        0
    }
}

/// The first index at or after `i` where no whitespace encoding
/// starts (the line's length if whitespace runs to its end).
pub open spec fn skip_ws_from(s: Seq<u8>, i: int) -> int
    decreases s.len() - i,
{
    if ws_len_at(s, i) > 0 {
        skip_ws_from(s, i + ws_len_at(s, i))
    } else {
        i
    }
}

/// A quote byte: `"` or `'`.
pub open spec fn is_quote(b: u8) -> bool {
    b == 0x22 || b == 0x27
}

/// The first index at or after `i` holding a quote byte.
pub open spec fn find_quote_from(s: Seq<u8>, i: int) -> Option<int>
    decreases s.len() - i,
{
    if i < 0 || i >= s.len() {
        None
    } else if is_quote(s[i]) {
        Some(i)
    } else {
        find_quote_from(s, i + 1)
    }
}

/// The bytes of `<img`.
pub open spec fn img_open() -> Seq<u8> {
    seq![0x3cu8, 0x69u8, 0x6du8, 0x67u8]
}

/// The bytes of `src`.
pub open spec fn src_name() -> Seq<u8> {
    seq![0x73u8, 0x72u8, 0x63u8]
}

/// The bytes of `alt`.
pub open spec fn alt_name() -> Seq<u8> {
    seq![0x61u8, 0x6cu8, 0x74u8]
}

/// Whether a line is an image line: leading whitespace, then `<img`.
pub open spec fn is_img_line(line: Seq<u8>) -> bool {
    let j = skip_ws_from(line, 0);
    j + 4 <= line.len() && line.subrange(j, j + 4) == img_open()
}

/// The attribute capture starting exactly at `i`: the name, optional
/// whitespace, `=`, optional whitespace, a quote, then the bytes up
/// to the next quote.
pub open spec fn attr_at(line: Seq<u8>, name: Seq<u8>, i: int) -> Option<Seq<u8>> {
    if 0 <= i && i + name.len() <= line.len() && line.subrange(i, i + name.len()) == name {
        let j = skip_ws_from(line, i + name.len());
        if j < line.len() && line[j] == 0x3d {
            let k = skip_ws_from(line, j + 1);
            if k < line.len() && is_quote(line[k]) {
                match find_quote_from(line, k + 1) {
                    Some(e) => Some(line.subrange(k + 1, e)),
                    None => None,
                }
            } else {
                None
            }
        } else {
            None
        }
    } else {
        None
    }
}

/// The first attribute capture at or after `i`, scanning start
/// positions left to right.
pub open spec fn find_attr_from(line: Seq<u8>, name: Seq<u8>, i: int) -> Option<Seq<u8>>
    decreases line.len() - i,
{
    if i < 0 || i >= line.len() {
        None
    } else {
        match attr_at(line, name, i) {
            Some(v) => Some(v),
            None => find_attr_from(line, name, i + 1),
        }
    }
}

/// The value of the first capture of the named attribute on the line.
pub open spec fn attr_value(line: Seq<u8>, name: Seq<u8>) -> Option<Seq<u8>> {
    find_attr_from(line, name, 0)
}

/// The figure caption for an image with `alt` text; empty without one.
pub open spec fn caption_model(alt: Option<Seq<u8>>) -> Seq<u8> {
    match alt {
        Some(a) => lit_bytes("<figcaption>") + a + lit_bytes("</figcaption>\n"),
        None => Seq::empty(),
    }
}

/// The placeholder for an image line without a usable source: a
/// captioned paragraph when `alt` text exists, nothing otherwise.
pub open spec fn alt_placeholder(alt: Option<Seq<u8>>) -> Seq<u8> {
    match alt {
        Some(a) => lit_bytes("<p>图：") + a + lit_bytes("</p>\n"),
        None => Seq::empty(),
    }
}

/// One rendered line, and the remote URI it registers, if any.
pub open spec fn render_line_model(line: Seq<u8>) -> (Seq<u8>, Option<Seq<u8>>) {
    if is_img_line(line) {
        let alt = attr_value(line, alt_name());
        match attr_value(line, src_name()) {
            Some(src) => match uri_parts_of(src) {
                Some(parts) => (
                    lit_bytes("<figure>\n<img src=\"") + encode_utf8(trim_sep_chars(parts.1))
                        + lit_bytes("\"/>\n") + caption_model(alt) + lit_bytes("</figure>\n"),
                    Some(src),
                ),
                None => (alt_placeholder(alt), None),
            },
            None => (alt_placeholder(alt), None),
        }
    } else {
        (lit_bytes("<p>") + line + lit_bytes("</p>\n"), None)
    }
}

/// The length of the whitespace encoding starting at `j`.
fn ws_len_idx(line: &Vec<u8>, j: usize) -> (r: usize)
    requires
        j <= line@.len(),
    ensures
        r == ws_len_at(line@, j as int),
        j + r <= line@.len(),
{
    let n = line.len();
    if j >= n {
        return 0;
    }
    let b = line[j];
    if (0x09 <= b && b <= 0x0d) || b == 0x20 {
        return 1;
    }
    if n - j >= 2 && b == 0xc2 && (line[j + 1] == 0x85 || line[j + 1] == 0xa0) {
        return 2;
    }
    if n - j >= 3 {
        let b1 = line[j + 1];
        let b2 = line[j + 2];
        if (b == 0xe1 && b1 == 0x9a && b2 == 0x80) || (b == 0xe2 && b1 == 0x80 && ((0x80 <= b2
            && b2 <= 0x8a) || b2 == 0xa8 || b2 == 0xa9 || b2 == 0xaf)) || (b == 0xe2 && b1 == 0x81
            && b2 == 0x9f) || (b == 0xe3 && b1 == 0x80 && b2 == 0x80) {
            return 3;
        }
    }
    0
}

/// Scans past whitespace.
fn skip_ws_idx(line: &Vec<u8>, i: usize) -> (r: usize)
    requires
        i <= line@.len(),
    ensures
        r == skip_ws_from(line@, i as int),
        i <= r <= line@.len(),
{
    let n = line.len();
    let mut j = i;
    let mut step = ws_len_idx(line, j);
    while step > 0
        invariant
            n == line@.len(),
            i <= j <= n,
            step == ws_len_at(line@, j as int),
            j + step <= n,
            skip_ws_from(line@, i as int) == skip_ws_from(line@, j as int),
        decreases line@.len() - j,
    {
        j = j + step;
        step = ws_len_idx(line, j);
    }
    j
}

/// Scans for the next quote byte.
fn find_quote_idx(line: &Vec<u8>, i: usize) -> (r: Option<usize>)
    requires
        i <= line@.len(),
    ensures
        match r {
            Some(k) => find_quote_from(line@, i as int) == Some(k as int) && i <= k
                < line@.len(),
            None => find_quote_from(line@, i as int) is None,
        },
{
    let mut j = i;
    while j < line.len()
        invariant
            i <= j <= line@.len(),
            find_quote_from(line@, i as int) == find_quote_from(line@, j as int),
        decreases line@.len() - j,
    {
        let b = line[j];
        if b == 0x22 || b == 0x27 {
            return Some(j);
        }
        j = j + 1;
    }
    None
}

/// Copies a byte range out of a line.
fn copy_range(v: &Vec<u8>, a: usize, b: usize) -> (r: Vec<u8>)
    requires
        a <= b <= v@.len(),
    ensures
        r@ == v@.subrange(a as int, b as int),
{
    let mut out: Vec<u8> = Vec::new();
    let mut k = a;
    while k < b
        invariant
            a <= k <= b <= v@.len(),
            out@ == v@.subrange(a as int, k as int),
        decreases b - k,
    {
        out.push(v[k]);
        proof {
            assert(out@ =~= v@.subrange(a as int, k + 1));
        }
        k = k + 1;
    }
    out
}

/// Tries the attribute capture at one start position.
fn match_attr_at(line: &Vec<u8>, name: &Vec<u8>, i: usize) -> (r: Option<Vec<u8>>)
    requires
        i <= line@.len(),
    ensures
        r is Some <==> attr_at(line@, name@, i as int) is Some,
        r matches Some(v) ==> attr_at(line@, name@, i as int) == Some(v@),
{
    let n = line.len();
    if n - i < name.len() {
        return None;
    }
    let mut t: usize = 0;
    while t < name.len()
        invariant
            t <= name@.len(),
            n == line@.len(),
            i + name@.len() <= n,
            forall|s: int| 0 <= s < t ==> line@[i + s] == #[trigger] name@[s],
        decreases name@.len() - t,
    {
        if line[i + t] != name[t] {
            proof {
                assert(line@.subrange(i as int, i + name@.len())[t as int] == line@[i + t]);
            }
            return None;
        }
        t = t + 1;
    }
    proof {
        assert(line@.subrange(i as int, i + name@.len()) =~= name@);
    }
    let j = skip_ws_idx(line, i + name.len());
    if j >= line.len() {
        return None;
    }
    if line[j] != 0x3d {
        return None;
    }
    let k = skip_ws_idx(line, j + 1);
    if k >= line.len() {
        return None;
    }
    let qb = line[k];
    if !(qb == 0x22 || qb == 0x27) {
        return None;
    }
    match find_quote_idx(line, k + 1) {
        Some(e) => Some(copy_range(line, k + 1, e)),
        None => None,
    }
}

/// Finds the first capture of the named attribute on the line.
fn find_attr(line: &Vec<u8>, name: &Vec<u8>) -> (r: Option<Vec<u8>>)
    ensures
        r is Some <==> attr_value(line@, name@) is Some,
        r matches Some(v) ==> attr_value(line@, name@) == Some(v@),
{
    let mut i: usize = 0;
    while i < line.len()
        invariant
            i <= line@.len(),
            find_attr_from(line@, name@, 0) == find_attr_from(line@, name@, i as int),
        decreases line@.len() - i,
    {
        match match_attr_at(line, name, i) {
            Some(v) => {
                return Some(v);
            },
            None => {},
        }
        proof {
            assert(find_attr_from(line@, name@, i as int) == find_attr_from(
                line@,
                name@,
                i + 1,
            ));
        }
        i = i + 1;
    }
    None
}

/// Whether the line is an image line.
fn line_is_img(line: &Vec<u8>) -> (r: bool)
    ensures
        r == is_img_line(line@),
{
    let j = skip_ws_idx(line, 0);
    if line.len() < 4 || j > line.len() - 4 {
        return false;
    }
    let ok = line[j] == 0x3c && line[j + 1] == 0x69 && line[j + 2] == 0x6d && line[j + 3] == 0x67;
    proof {
        let sub = line@.subrange(j as int, j + 4);
        assert(sub[0] == line@[j as int] && sub[1] == line@[j + 1] && sub[2] == line@[j + 2]
            && sub[3] == line@[j + 3]);
        if ok {
            assert(sub =~= img_open());
        } else {
            assert(sub != img_open());
        }
    }
    ok
}

/// Renders one line of chapter text: the markup bytes and the remote
/// URI registered for fetching, if the line is an image line with a
/// usable source.
pub fn render_line(line: &Vec<u8>) -> (r: (Vec<u8>, Option<Vec<u8>>))
    ensures
        r.0@ == render_line_model(line@).0,
        r.1 is Some <==> render_line_model(line@).1 is Some,
        r.1 matches Some(u) ==> render_line_model(line@).1 == Some(u@),
{
    let mut out: Vec<u8> = Vec::new();
    if line_is_img(line) {
        let src_key: Vec<u8> = vec![0x73u8, 0x72u8, 0x63u8];
        let alt_key: Vec<u8> = vec![0x61u8, 0x6cu8, 0x74u8];
        proof {
            assert(src_key@ =~= src_name());
            assert(alt_key@ =~= alt_name());
        }
        let alt = find_attr(line, &alt_key);
        match find_attr(line, &src_key) {
            Some(src) => {
                match parse_uri(&src) {
                    Some(parts) => {
                        push_str_bytes(&mut out, "<figure>\n<img src=\"");
                        let rel = local_path(parts.path.as_str());
                        push_str_bytes(&mut out, rel.as_str());
                        push_str_bytes(&mut out, "\"/>\n");
                        match &alt {
                            Some(a) => {
                                push_str_bytes(&mut out, "<figcaption>");
                                out.extend_from_slice(a.as_slice());
                                push_str_bytes(&mut out, "</figcaption>\n");
                            },
                            None => {},
                        }
                        push_str_bytes(&mut out, "</figure>\n");
                        proof {
                            assert(out@ =~= render_line_model(line@).0);
                        }
                        (out, Some(src))
                    },
                    None => {
                        render_alt_placeholder(&mut out, &alt);
                        (out, None)
                    },
                }
            },
            None => {
                render_alt_placeholder(&mut out, &alt);
                (out, None)
            },
        }
    } else {
        push_str_bytes(&mut out, "<p>");
        out.extend_from_slice(line.as_slice());
        push_str_bytes(&mut out, "</p>\n");
        proof {
            assert(out@ =~= render_line_model(line@).0);
        }
        (out, None)
    }
}

/// The views of a sequence of byte vectors.
pub open spec fn views_of(v: Seq<Vec<u8>>) -> Seq<Seq<u8>> {
    v.map_values(|x: Vec<u8>| x@)
}

/// A byte prefixed onto the first line.
pub open spec fn prepend_line(b: u8, ls: Seq<Seq<u8>>) -> Seq<Seq<u8>> {
    if ls.len() == 0 {
        seq![seq![b]]
    } else {
        seq![seq![b] + ls[0]] + ls.drop_first()
    }
}

/// The lines of a text, the way `str::lines` cuts them: split at line
/// feed or carriage return + line feed, the final line ending
/// optional, terminators not included.
pub open spec fn lines_model(s: Seq<u8>) -> Seq<Seq<u8>>
    decreases s.len(),
{
    if s.len() == 0 {
        Seq::empty()
    } else if s[0] == 0x0a {
        seq![Seq::<u8>::empty()] + lines_model(s.drop_first())
    } else if s[0] == 0x0d && s.len() >= 2 && s[1] == 0x0a {
        seq![Seq::<u8>::empty()] + lines_model(s.skip(2))
    } else {
        prepend_line(s[0], lines_model(s.drop_first()))
    }
}

/// A partial first line joined onto the lines of the remaining text.
pub open spec fn join_first(cur: Seq<u8>, ls: Seq<Seq<u8>>) -> Seq<Seq<u8>> {
    if ls.len() == 0 {
        if cur.len() == 0 {
            Seq::empty()
        } else {
            seq![cur]
        }
    } else {
        seq![cur + ls[0]] + ls.drop_first()
    }
}

/// Cuts text bytes into lines, as `str::lines` cuts text.
pub fn split_lines(s: &Vec<u8>) -> (r: Vec<Vec<u8>>)
    ensures
        views_of(r@) == lines_model(s@),
{
    let n = s.len();
    let mut out: Vec<Vec<u8>> = Vec::new();
    let mut cur: Vec<u8> = Vec::new();
    let mut i: usize = 0;
    proof {
        assert(s@.skip(0) =~= s@);
        let ls = lines_model(s@);
        if ls.len() > 0 {
            assert(Seq::<u8>::empty() + ls[0] =~= ls[0]);
            assert(join_first(cur@, ls) =~= seq![ls[0]] + ls.drop_first());
            assert(seq![ls[0]] + ls.drop_first() =~= ls);
        }
        assert(views_of(out@) + join_first(cur@, ls) =~= join_first(cur@, ls));
    }
    while i < n
        invariant
            i <= n,
            n == s@.len(),
            lines_model(s@) == views_of(out@) + join_first(cur@, lines_model(s@.skip(i as int))),
        decreases n - i,
    {
        let ghost rest = lines_model(s@.skip(i as int));
        let b = s[i];
        if b == 0x0a || (b == 0x0d && i + 1 < n && s[i + 1] == 0x0a) {
            let step: usize = if b == 0x0a {
                1
            } else {
                2
            };
            proof {
                if b == 0x0a {
                    assert(s@.skip(i as int).drop_first() =~= s@.skip(i + step));
                } else {
                    assert(s@.skip(i as int).len() >= 2);
                    assert(s@.skip(i as int)[1] == s@[i + 1]);
                    assert(s@.skip(i as int).skip(2) =~= s@.skip(i + step));
                }
                assert(rest == seq![Seq::<u8>::empty()] + lines_model(s@.skip(i + step)));
                assert(rest[0] =~= Seq::<u8>::empty());
                assert(rest.drop_first() =~= lines_model(s@.skip(i + step)));
                assert(cur@ + rest[0] =~= cur@);
                assert(join_first(cur@, rest) =~= seq![cur@] + lines_model(s@.skip(i + step)));
            }
            let ghost old_out = out@;
            let ghost old_cur = cur@;
            out.push(cur);
            cur = Vec::new();
            proof {
                assert(views_of(out@) =~= views_of(old_out).push(old_cur));
                assert(views_of(old_out) + seq![old_cur] =~= views_of(out@));
                let next = lines_model(s@.skip(i + step));
                if next.len() == 0 {
                    assert(join_first(cur@, next) =~= next);
                } else {
                    assert(cur@ + next[0] =~= next[0]);
                    assert(join_first(cur@, next) =~= seq![next[0]] + next.drop_first());
                    assert(seq![next[0]] + next.drop_first() =~= next);
                }
                assert(lines_model(s@) =~= views_of(out@) + join_first(
                    cur@,
                    lines_model(s@.skip(i + step)),
                ));
            }
            i = i + step;
        } else {
            proof {
                assert(s@.skip(i as int).drop_first() =~= s@.skip(i + 1));
                assert(s@.skip(i as int)[0] == b);
                assert(rest == prepend_line(b, lines_model(s@.skip(i + 1))));
            }
            let ghost old_cur = cur@;
            cur.push(b);
            proof {
                assert(cur@ =~= old_cur + seq![b]);
                let next = lines_model(s@.skip(i + 1));
                if next.len() == 0 {
                    assert(prepend_line(b, next) =~= seq![seq![b]]);
                    assert(old_cur + seq![b] =~= cur@);
                    assert(join_first(old_cur, prepend_line(b, next)) =~= seq![cur@]);
                    assert(join_first(cur@, next) =~= seq![cur@]);
                } else {
                    assert(old_cur + (seq![b] + next[0]) =~= cur@ + next[0]);
                    assert(prepend_line(b, next)[0] == seq![b] + next[0]);
                    assert(prepend_line(b, next).drop_first() =~= next.drop_first());
                    assert(join_first(old_cur, prepend_line(b, next)) =~= seq![cur@ + next[0]]
                        + next.drop_first());
                    assert(join_first(cur@, next) =~= seq![cur@ + next[0]] + next.drop_first());
                }
                assert(lines_model(s@) =~= views_of(out@) + join_first(
                    cur@,
                    lines_model(s@.skip(i + 1)),
                ));
            }
            i = i + 1;
        }
    }
    proof {
        assert(s@.skip(n as int) =~= Seq::<u8>::empty());
    }
    if cur.len() > 0 {
        let ghost old_out = out@;
        let ghost old_cur = cur@;
        out.push(cur);
        proof {
            assert(views_of(out@) =~= views_of(old_out) + seq![old_cur]);
            assert(views_of(out@) =~= lines_model(s@));
        }
    } else {
        proof {
            assert(views_of(out@) + join_first(cur@, lines_model(s@.skip(n as int))) =~= views_of(
                out@,
            ));
        }
    }
    out
}

/// The rendered body and the registered URIs of a sequence of lines.
pub open spec fn render_lines_model(ls: Seq<Seq<u8>>) -> (Seq<u8>, Seq<Seq<u8>>)
    decreases ls.len(),
{
    if ls.len() == 0 {
        (Seq::empty(), Seq::empty())
    } else {
        let prev = render_lines_model(ls.drop_last());
        let cur = render_line_model(ls.last());
        (
            prev.0 + cur.0,
            prev.1 + match cur.1 {
                Some(u) => seq![u],
                None => Seq::<Seq<u8>>::empty(),
            },
        )
    }
}

/// Renders a whole chapter text: its lines' markup concatenated, and
/// the remote URIs the image lines register, in order.
pub fn render_chapter_body(content: &Vec<u8>) -> (r: (Vec<u8>, Vec<Vec<u8>>))
    ensures
        r.0@ == render_lines_model(lines_model(content@)).0,
        views_of(r.1@) == render_lines_model(lines_model(content@)).1,
{
    let lines = split_lines(content);
    let ghost lv = lines_model(content@);
    let mut html: Vec<u8> = Vec::new();
    let mut uris: Vec<Vec<u8>> = Vec::new();
    let mut k: usize = 0;
    while k < lines.len()
        invariant
            k <= lines@.len(),
            lv == views_of(lines@),
            html@ == render_lines_model(lv.take(k as int)).0,
            views_of(uris@) == render_lines_model(lv.take(k as int)).1,
        decreases lines@.len() - k,
    {
        proof {
            assert(lv.take(k + 1).drop_last() =~= lv.take(k as int));
            assert(lv.take(k + 1).last() == lines@[k as int]@);
        }
        let pair = render_line(&lines[k]);
        html.extend_from_slice(pair.0.as_slice());
        proof {
            assert(html@ =~= render_lines_model(lv.take(k as int)).0 + render_line_model(
                lines@[k as int]@,
            ).0);
        }
        match pair.1 {
            Some(u) => {
                let ghost old_uris = uris@;
                uris.push(u);
                proof {
                    assert(views_of(uris@) =~= views_of(old_uris) + seq![u@]);
                }
            },
            None => {},
        }
        proof {
            assert(views_of(uris@) =~= render_lines_model(lv.take(k + 1)).1);
        }
        k = k + 1;
    }
    proof {
        assert(lv.take(lv.len() as int) =~= lv);
    }
    (html, uris)
}

/// Appends the placeholder for an image line without a usable source.
fn render_alt_placeholder(out: &mut Vec<u8>, alt: &Option<Vec<u8>>)
    ensures
        final(out)@ == old(out)@ + alt_placeholder(alt.deep_view()),
{
    match alt {
        Some(a) => {
            push_str_bytes(out, "<p>图：");
            out.extend_from_slice(a.as_slice());
            push_str_bytes(out, "</p>\n");
            proof {
                assert(out@ =~= old(out)@ + alt_placeholder(alt.deep_view()));
            }
        },
        None => {
            proof {
                assert(out@ =~= old(out)@ + alt_placeholder(alt.deep_view()));
            }
        },
    }
}

/// A publication section: a division title page or a chapter.
pub enum Section {
    Division { title: String },
    Chapter { title: String, text: String },
}

/// A section with its stable in-container file name.
pub struct Sec {
    pub filename: String,
    pub section: Section,
}

/// What a section holds: (file name, whether it is a division title
/// page, its title, its chapter text).
pub open spec fn sec_view(s: Sec) -> (Seq<char>, bool, Seq<char>, Seq<char>) {
    match s.section {
        Section::Division { title } => (s.filename@, true, title@, Seq::empty()),
        Section::Chapter { title, text } => (s.filename@, false, title@, text@),
    }
}

/// The file name of a division's title page.
pub open spec fn division_filename(index: u64) -> Seq<char> {
    dec_chars(index as nat) + "_front.xhtml"@
}

/// The file name of a chapter's page.
pub open spec fn chapter_filename(div_index: u64, chapter_index: u64) -> Seq<char> {
    dec_chars(div_index as nat) + "_"@ + dec_chars(chapter_index as nat) + ".xhtml"@
}

/// The sections of one division: its title page, then one section per
/// chapter with its text from the corpus, empty when absent.
pub open spec fn division_sections(
    d: Division,
    cs: Seq<ChapterRef>,
    corpus: Map<u64, Seq<char>>,
) -> Seq<(Seq<char>, bool, Seq<char>, Seq<char>)>
    decreases cs.len(),
{
    if cs.len() == 0 {
        seq![(division_filename(d.index), true, d.name@, Seq::<char>::empty())]
    } else {
        division_sections(d, cs.drop_last(), corpus).push(
            (
                chapter_filename(d.index, cs.last().chapter_index),
                false,
                cs.last().title@,
                if corpus.contains_key(cs.last().chapter_id) {
                    corpus[cs.last().chapter_id]
                } else {
                    Seq::empty()
                },
            ),
        )
    }
}

/// All sections of a book, divisions in order, chapters in order
/// within each.
pub open spec fn sections_model(
    divisions: Seq<Division>,
    chapters: Seq<Vec<ChapterRef>>,
    corpus: Map<u64, Seq<char>>,
) -> Seq<(Seq<char>, bool, Seq<char>, Seq<char>)>
    decreases divisions.len(),
{
    if divisions.len() == 0 {
        Seq::empty()
    } else {
        sections_model(divisions.drop_last(), chapters.drop_last(), corpus) + division_sections(
            divisions.last(),
            chapters.last()@,
            corpus,
        )
    }
}

/// Merges a book's outline with the corpus into its section list:
/// per division a title page, then its chapters in order, each with
/// its decrypted text or an empty body when the corpus lacks it.
pub fn extract_sections(
    divisions: &Vec<Division>,
    chapters: &Vec<Vec<ChapterRef>>,
    corpus: &HashMap<u64, String>,
) -> (r: Vec<Sec>)
    requires
        divisions@.len() == chapters@.len(),
    ensures
        r@.map_values(|s: Sec| sec_view(s)) == sections_model(
            divisions@,
            chapters@,
            map_view(corpus@),
        ),
{
    let ghost cv = map_view(corpus@);
    let mut out: Vec<Sec> = Vec::new();
    let mut i: usize = 0;
    while i < divisions.len()
        invariant
            i <= divisions@.len(),
            divisions@.len() == chapters@.len(),
            cv == map_view(corpus@),
            out@.map_values(|s: Sec| sec_view(s)) == sections_model(
                divisions@.take(i as int),
                chapters@.take(i as int),
                cv,
            ),
        decreases divisions@.len() - i,
    {
        proof {
            assert(divisions@.take(i + 1).drop_last() =~= divisions@.take(i as int));
            assert(chapters@.take(i + 1).drop_last() =~= chapters@.take(i as int));
            assert(chapters@.take(i + 1).last() == chapters@[i as int]);
        }
        let division = &divisions[i];
        let mut fname = u64_to_string(division.index);
        fname.append("_front.xhtml");
        let ghost old_out0 = out@;
        out.push(Sec { filename: fname, section: Section::Division { title: division.name.clone() } });
        proof {
            assert(out@.map_values(|s: Sec| sec_view(s)) =~= old_out0.map_values(
                |s: Sec| sec_view(s),
            ) + division_sections(divisions@[i as int], chapters@[i as int]@.take(0), cv));
            assert(chapters@[i as int]@.take(0) =~= Seq::<ChapterRef>::empty());
        }
        let row = &chapters[i];
        let mut j: usize = 0;
        while j < row.len()
            invariant
                j <= row@.len(),
                i < divisions@.len(),
                divisions@.len() == chapters@.len(),
                cv == map_view(corpus@),
                row == &chapters[i as int],
                division == &divisions[i as int],
                out@.map_values(|s: Sec| sec_view(s)) == sections_model(
                    divisions@.take(i as int),
                    chapters@.take(i as int),
                    cv,
                ) + division_sections(divisions@[i as int], row@.take(j as int), cv),
            decreases row@.len() - j,
        {
            proof {
                assert(row@.take(j + 1).drop_last() =~= row@.take(j as int));
                assert(row@.take(j + 1).last() == row@[j as int]);
            }
            let c = &row[j];
            let mut cname = u64_to_string(division.index);
            cname.append("_");
            let idx_text = u64_to_string(c.chapter_index);
            cname.append(idx_text.as_str());
            cname.append(".xhtml");
            let id = c.chapter_id;
            let text: String = match corpus.get(&id) {
                Some(t) => t.clone(),
                None => String::new(),
            };
            proof {
                assert(text@ == if cv.contains_key(id) {
                    cv[id]
                } else {
                    Seq::<char>::empty()
                });
            }
            let ghost old_out = out@;
            out.push(
                Sec {
                    filename: cname,
                    section: Section::Chapter { title: c.title.clone(), text },
                },
            );
            proof {
                let d = divisions@[i as int];
                let tuple = (
                    chapter_filename(d.index, row@[j as int].chapter_index),
                    false,
                    row@[j as int].title@,
                    if cv.contains_key(row@[j as int].chapter_id) {
                        cv[row@[j as int].chapter_id]
                    } else {
                        Seq::<char>::empty()
                    },
                );
                assert(out@.last().filename@ == cname@);
                assert(idx_text@ == dec_chars(row@[j as int].chapter_index as nat));
                assert(cname@ == dec_chars(d.index as nat) + "_"@ + dec_chars(
                    row@[j as int].chapter_index as nat,
                ) + ".xhtml"@);
                assert(out@.last().filename@ =~= chapter_filename(
                    d.index,
                    row@[j as int].chapter_index,
                ));
                assert(sec_view(out@.last()) == tuple);
                assert(division_sections(d, row@.take(j + 1), cv) == division_sections(
                    d,
                    row@.take(j as int),
                    cv,
                ).push(tuple));
                assert(out@.map_values(|s: Sec| sec_view(s)) =~= old_out.map_values(
                    |s: Sec| sec_view(s),
                ).push(tuple));
                assert(out@.map_values(|s: Sec| sec_view(s)) =~= sections_model(
                    divisions@.take(i as int),
                    chapters@.take(i as int),
                    cv,
                ) + division_sections(d, row@.take(j + 1), cv));
            }
            j = j + 1;
        }
        proof {
            assert(row@.take(row@.len() as int) =~= row@);
        }
        i = i + 1;
    }
    proof {
        assert(divisions@.take(divisions@.len() as int) =~= divisions@);
        assert(chapters@.take(chapters@.len() as int) =~= chapters@);
    }
    out
}

/// A publication page, ready for the container: its in-container file
/// name, its title, its markup bytes, and whether it is front matter.
pub struct Page {
    pub filename: String,
    pub title: String,
    pub body: Vec<u8>,
    pub front: bool,
}

/// What a page holds: (file name, title, body bytes, front matter).
pub open spec fn page_view(p: Page) -> (Seq<char>, Seq<char>, Seq<u8>, bool) {
    (p.filename@, p.title@, p.body@, p.front)
}

/// A division's title page: a minimal XHTML page showing its name.
pub open spec fn division_page_model(title: Seq<char>) -> Seq<u8> {
    lit_bytes(
        "<?xml version=\"1.0\" encoding=\"UTF-8\"?>\n<html xmlns=\"http://www.w3.org/1999/xhtml\">\n<head><title>",
    ) + encode_utf8(title) + lit_bytes("</title></head>\n<body>\n<h1>") + encode_utf8(title)
        + lit_bytes("</h1>\n</body>\n</html>\n")
}

/// A chapter's page: a minimal XHTML page with the title above the
/// rendered body.
pub open spec fn chapter_page_model(title: Seq<char>, body: Seq<u8>) -> Seq<u8> {
    lit_bytes(
        "<?xml version=\"1.0\" encoding=\"UTF-8\"?>\n<html xmlns=\"http://www.w3.org/1999/xhtml\">\n<head><title>",
    ) + encode_utf8(title) + lit_bytes("</title></head>\n<body>\n<h2>") + encode_utf8(title)
        + lit_bytes("</h2>\n") + body + lit_bytes("</body>\n</html>\n")
}

/// The page one section becomes.
pub open spec fn page_model(t: (Seq<char>, bool, Seq<char>, Seq<char>)) -> (
    Seq<char>,
    Seq<char>,
    Seq<u8>,
    bool,
) {
    if t.1 {
        (t.0, t.2, division_page_model(t.2), true)
    } else {
        (
            t.0,
            t.2,
            chapter_page_model(t.2, render_lines_model(lines_model(encode_utf8(t.3))).0),
            false,
        )
    }
}

/// The remote URIs one section registers.
pub open spec fn section_uris(t: (Seq<char>, bool, Seq<char>, Seq<char>)) -> Seq<Seq<u8>> {
    if t.1 {
        Seq::empty()
    } else {
        render_lines_model(lines_model(encode_utf8(t.3))).1
    }
}

/// The pages of all sections, in order.
pub open spec fn pages_model(secs: Seq<(Seq<char>, bool, Seq<char>, Seq<char>)>) -> Seq<
    (Seq<char>, Seq<char>, Seq<u8>, bool),
> {
    secs.map_values(|t: (Seq<char>, bool, Seq<char>, Seq<char>)| page_model(t))
}

/// The remote URIs of all sections, in order of registration.
pub open spec fn uris_model(secs: Seq<(Seq<char>, bool, Seq<char>, Seq<char>)>) -> Seq<Seq<u8>>
    decreases secs.len(),
{
    if secs.len() == 0 {
        Seq::empty()
    } else {
        uris_model(secs.drop_last()) + section_uris(secs.last())
    }
}

/// Builds a division's title page.
fn division_page(title: &str) -> (r: Vec<u8>)
    ensures
        r@ == division_page_model(title@),
{
    let mut out: Vec<u8> = Vec::new();
    push_str_bytes(
        &mut out,
        "<?xml version=\"1.0\" encoding=\"UTF-8\"?>\n<html xmlns=\"http://www.w3.org/1999/xhtml\">\n<head><title>",
    );
    push_str_bytes(&mut out, title);
    push_str_bytes(&mut out, "</title></head>\n<body>\n<h1>");
    push_str_bytes(&mut out, title);
    push_str_bytes(&mut out, "</h1>\n</body>\n</html>\n");
    proof {
        assert(out@ =~= division_page_model(title@));
    }
    out
}

/// Builds a chapter's page around its rendered body.
fn chapter_page(title: &str, body: &Vec<u8>) -> (r: Vec<u8>)
    ensures
        r@ == chapter_page_model(title@, body@),
{
    let mut out: Vec<u8> = Vec::new();
    push_str_bytes(
        &mut out,
        "<?xml version=\"1.0\" encoding=\"UTF-8\"?>\n<html xmlns=\"http://www.w3.org/1999/xhtml\">\n<head><title>",
    );
    push_str_bytes(&mut out, title);
    push_str_bytes(&mut out, "</title></head>\n<body>\n<h2>");
    push_str_bytes(&mut out, title);
    push_str_bytes(&mut out, "</h2>\n");
    out.extend_from_slice(body.as_slice());
    push_str_bytes(&mut out, "</body>\n</html>\n");
    proof {
        assert(out@ =~= chapter_page_model(title@, body@));
    }
    out
}

/// Turns the section list into publication pages, collecting every
/// remote image URI the chapter bodies register, in order.
pub fn build_pages(sections: Vec<Sec>) -> (r: (Vec<Page>, Vec<Vec<u8>>))
    ensures
        r.0@.map_values(|p: Page| page_view(p)) == pages_model(
            sections@.map_values(|s: Sec| sec_view(s)),
        ),
        views_of(r.1@) == uris_model(sections@.map_values(|s: Sec| sec_view(s))),
{
    let ghost sv = sections@.map_values(|s: Sec| sec_view(s));
    let mut pages: Vec<Page> = Vec::new();
    let mut uris: Vec<Vec<u8>> = Vec::new();
    let mut i: usize = 0;
    while i < sections.len()
        invariant
            i <= sections@.len(),
            sv == sections@.map_values(|s: Sec| sec_view(s)),
            pages@.map_values(|p: Page| page_view(p)) == pages_model(sv.take(i as int)),
            views_of(uris@) == uris_model(sv.take(i as int)),
        decreases sections@.len() - i,
    {
        proof {
            assert(sv.take(i + 1).drop_last() =~= sv.take(i as int));
            assert(sv.take(i + 1).last() == sv[i as int]);
        }
        let sec = &sections[i];
        let ghost old_pages = pages@;
        let ghost old_uris = uris@;
        match &sec.section {
            Section::Division { title } => {
                let body = division_page(title.as_str());
                pages.push(
                    Page {
                        filename: sec.filename.clone(),
                        title: title.clone(),
                        body,
                        front: true,
                    },
                );
            },
            Section::Chapter { title, text } => {
                let content = text.as_str().as_bytes_vec();
                let mut rendered = render_chapter_body(&content);
                let body = chapter_page(title.as_str(), &rendered.0);
                pages.push(
                    Page {
                        filename: sec.filename.clone(),
                        title: title.clone(),
                        body,
                        front: false,
                    },
                );
                uris.append(&mut rendered.1);
            },
        }
        proof {
            assert(pages@.map_values(|p: Page| page_view(p)) =~= old_pages.map_values(
                |p: Page| page_view(p),
            ).push(page_model(sv[i as int])));
            assert(pages_model(sv.take(i + 1)) =~= pages_model(sv.take(i as int)).push(
                page_model(sv[i as int]),
            ));
            assert(views_of(uris@) =~= uris_model(sv.take(i + 1)));
        }
        i = i + 1;
    }
    proof {
        assert(sv.take(sv.len() as int) =~= sv);
    }
    (pages, uris)
}

/// A registered URI always came from the branch that parsed it: what
/// one line registers is a well-formed request target.
proof fn lemma_render_line_uri_parses(line: Seq<u8>)
    ensures
        render_line_model(line).1 matches Some(u) ==> uri_parts_of(u) is Some,
{
}

/// Every URI a sequence of lines registers is a well-formed request
/// target.
pub(crate) proof fn lemma_render_lines_uris_parse(ls: Seq<Seq<u8>>)
    ensures
        forall|k: int|
            0 <= k < render_lines_model(ls).1.len() ==> uri_parts_of(
                #[trigger] render_lines_model(ls).1[k],
            ) is Some,
    decreases ls.len(),
{
    if ls.len() > 0 {
        lemma_render_lines_uris_parse(ls.drop_last());
        lemma_render_line_uri_parses(ls.last());
        let prev = render_lines_model(ls.drop_last());
        let cur = render_line_model(ls.last());
        assert(forall|k: int|
            0 <= k < prev.1.len() ==> #[trigger] render_lines_model(ls).1[k] == prev.1[k]);
        match cur.1 {
            Some(u) => {
                assert(render_lines_model(ls).1[prev.1.len() as int] == u);
            },
            None => {},
        }
    }
}

/// Every URI a whole section list registers is a well-formed request
/// target.
pub(crate) proof fn lemma_uris_model_parse(secs: Seq<(Seq<char>, bool, Seq<char>, Seq<char>)>)
    ensures
        forall|k: int|
            0 <= k < uris_model(secs).len() ==> uri_parts_of(#[trigger] uris_model(secs)[k])
                is Some,
    decreases secs.len(),
{
    if secs.len() > 0 {
        lemma_uris_model_parse(secs.drop_last());
        let prev = uris_model(secs.drop_last());
        let tail = section_uris(secs.last());
        if !secs.last().1 {
            lemma_render_lines_uris_parse(lines_model(encode_utf8(secs.last().3)));
        }
        assert(forall|k: int|
            0 <= k < prev.len() ==> #[trigger] uris_model(secs)[k] == prev[k]);
        assert(forall|k: int|
            0 <= k < tail.len() ==> #[trigger] uris_model(secs)[prev.len() + k] == tail[k]);
    }
}

} // verus!
