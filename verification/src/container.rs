//! The publication container: pages, metadata, cover and embedded
//! images assembled into a builder that serializes the final output.
//!
//! The container format itself is the outside library's capability;
//! the library tracks, in order, which entries the builder holds, the
//! title and author metadata set on it, and whether it still accepts
//! additions. Each entry is modeled as (kind, path, MIME type, bytes),
//! the kind telling a front page, a body page, an embedded resource
//! and the cover apart.

use epub_builder::{EpubBuilder, ZipLibrary};
use std::collections::HashMap;
use vstd::prelude::*;
use vstd::string::{StrSliceExecFns, StringExecFns};
use vstd::utf8::encode_utf8;

use crate::catalog::{BookMeta, ChapterRef, Division};
use crate::corpus::map_view;
use crate::errors::BuildError;
use crate::render::{
    build_pages, extract_sections, page_view, pages_model, sections_model, uris_model, views_of,
    Page,
};
use crate::uri::{local_path, parse_uri, trim_sep_chars, uri_parts_of};

verus! {

/// The publication container under construction. It holds the outside
/// builder; the builder's trait bound is not nameable from outside its
/// crate, so it sits in an opaque struct, and the library tracks its
/// state through `epub_entries`, `epub_meta_of` and `epub_live`, all
/// written only by the wrappers below.
#[verifier::external_body]
pub struct Container {
    inner: EpubBuilder<ZipLibrary>,
}

/// The entries a container holds, in the order they were added: each
/// is (kind, path, MIME type, content bytes).
pub uninterp spec fn epub_entries(c: Container) -> Seq<(int, Seq<char>, Seq<char>, Seq<u8>)>;

/// The title and author metadata set on a container through
/// `epub_metadata`: each key with its list of values, a key absent
/// until first set.
pub uninterp spec fn epub_meta_of(c: Container) -> Map<Seq<char>, Seq<Seq<char>>>;

/// Whether a container still accepts additions: fresh, every addition
/// so far accepted, and the output not yet serialized. A refused
/// addition or a serialization closes the underlying archive writer,
/// after which every addition is refused.
pub uninterp spec fn epub_live(c: Container) -> bool;

/// Whether a live container holding `entries` accepts one more entry.
/// Among live containers the archive state is a function of the
/// entries alone, so acceptance is too; in this archive library the
/// one refusal is an entry whose content overruns the format's plain
/// 32-bit size field.
pub uninterp spec fn epub_add_ok(
    entries: Seq<(int, Seq<char>, Seq<char>, Seq<u8>)>,
    entry: (int, Seq<char>, Seq<char>, Seq<u8>),
) -> bool;

/// The entry kind of a front-matter page.
pub open spec fn entry_front() -> int {
    0
}

/// The entry kind of a body-matter page.
pub open spec fn entry_body() -> int {
    1
}

/// The entry kind of an embedded resource.
pub open spec fn entry_resource() -> int {
    2
}

/// The entry kind of the cover image.
pub open spec fn entry_cover() -> int {
    3
}

/// The entry kind of a page: front matter or body matter.
pub open spec fn page_kind(front: bool) -> int {
    if front {
        entry_front()
    } else {
        entry_body()
    }
}

/// Relies on `EpubBuilder::new` over `ZipLibrary::new`: both only
/// write fixed boilerplate members into the in-memory archive, which
/// cannot fail there, so a fresh container is always produced, with no
/// entries, no metadata set, and ready for additions.
#[verifier::external_body]
fn epub_new() -> (r: Option<Container>)
    ensures
        r is Some,
        r matches Some(c) ==> (epub_entries(c) == Seq::<
            (int, Seq<char>, Seq<char>, Seq<u8>),
        >::empty() && epub_meta_of(c) == Map::<Seq<char>, Seq<Seq<char>>>::empty() && epub_live(
            c,
        )),
{
    let zip = ZipLibrary::new().ok()?;
    let inner = EpubBuilder::new(zip).ok()?;
    Some(Container { inner })
}

/// Relies on `EpubBuilder::metadata`: the `title` and `author` keys
/// are always accepted; `title` replaces its value, `author` appends
/// to the author list and an empty value clears it; neither touches
/// the entry list or the archive.
#[verifier::external_body]
fn epub_metadata(b: &mut Container, key: &str, value: &str) -> (r: Option<()>)
    requires
        key@ == "title"@ || key@ == "author"@,
    ensures
        r is Some,
        epub_entries(*final(b)) == epub_entries(*old(b)),
        epub_live(*final(b)) == epub_live(*old(b)),
        key@ == "title"@ ==> epub_meta_of(*final(b)) == epub_meta_of(*old(b)).insert(
            "title"@,
            seq![value@],
        ),
        key@ == "author"@ && value@.len() > 0 ==> epub_meta_of(*final(b)) == epub_meta_of(
            *old(b),
        ).insert(
            "author"@,
            (if epub_meta_of(*old(b)).contains_key("author"@) {
                epub_meta_of(*old(b))["author"@]
            } else {
                Seq::<Seq<char>>::empty()
            }).push(value@),
        ),
        key@ == "author"@ && value@.len() == 0 ==> epub_meta_of(*final(b)) == epub_meta_of(
            *old(b),
        ).insert("author"@, Seq::<Seq<char>>::empty()),
{
    b.inner.metadata(key, value).ok().map(|_| ())
}

/// Relies on `EpubBuilder::add_content` with an `EpubContent` carrying
/// the title and a title-page or text reference type: appends one page
/// entry, recorded under the fixed `application/xhtml+xml` MIME type.
/// Acceptance is the archive writer's; a refused addition leaves the
/// entry list unchanged and closes the writer.
#[verifier::external_body]
fn epub_add_page(
    b: &mut Container,
    filename: &str,
    title: &str,
    body: &Vec<u8>,
    front: bool,
) -> (r: Option<()>)
    ensures
        r is Some <==> epub_live(*old(b)) && epub_add_ok(
            epub_entries(*old(b)),
            (page_kind(front), filename@, "application/xhtml+xml"@, body@),
        ),
        r is Some ==> (epub_entries(*final(b)) == epub_entries(*old(b)).push(
            (page_kind(front), filename@, "application/xhtml+xml"@, body@),
        ) && epub_live(*final(b))),
        r is None ==> epub_entries(*final(b)) == epub_entries(*old(b)),
        epub_meta_of(*final(b)) == epub_meta_of(*old(b)),
{
    let reftype = if front {
        epub_builder::ReferenceType::TitlePage
    } else {
        epub_builder::ReferenceType::Text
    };
    let content = epub_builder::EpubContent::new(filename, body.as_slice()).title(title).reftype(
        reftype,
    );
    b.inner.add_content(content).ok().map(|_| ())
}

/// Relies on `EpubBuilder::add_resource`: appends one embedded
/// resource entry under the given MIME type. Acceptance is the
/// archive writer's; a refused addition leaves the entry list
/// unchanged and closes the writer.
#[verifier::external_body]
fn epub_add_resource(
    b: &mut Container,
    path: &str,
    content: &Vec<u8>,
    mime: &str,
) -> (r: Option<()>)
    ensures
        r is Some <==> epub_live(*old(b)) && epub_add_ok(
            epub_entries(*old(b)),
            (entry_resource(), path@, mime@, content@),
        ),
        r is Some ==> (epub_entries(*final(b)) == epub_entries(*old(b)).push(
            (entry_resource(), path@, mime@, content@),
        ) && epub_live(*final(b))),
        r is None ==> epub_entries(*final(b)) == epub_entries(*old(b)),
        epub_meta_of(*final(b)) == epub_meta_of(*old(b)),
{
    b.inner.add_resource(path, content.as_slice(), mime).ok().map(|_| ())
}

/// Relies on `EpubBuilder::add_cover_image`: appends the cover entry
/// under the given MIME type. Acceptance is the archive writer's; a
/// refused addition leaves the entry list unchanged and closes the
/// writer.
#[verifier::external_body]
fn epub_add_cover(
    b: &mut Container,
    path: &str,
    content: &Vec<u8>,
    mime: &str,
) -> (r: Option<()>)
    ensures
        r is Some <==> epub_live(*old(b)) && epub_add_ok(
            epub_entries(*old(b)),
            (entry_cover(), path@, mime@, content@),
        ),
        r is Some ==> (epub_entries(*final(b)) == epub_entries(*old(b)).push(
            (entry_cover(), path@, mime@, content@),
        ) && epub_live(*final(b))),
        r is None ==> epub_entries(*final(b)) == epub_entries(*old(b)),
        epub_meta_of(*final(b)) == epub_meta_of(*old(b)),
{
    b.inner.add_cover_image(path, content.as_slice(), mime).ok().map(|_| ())
}

impl Container {
    /// Relies on `EpubBuilder::generate`: serializes the container
    /// into the final output bytes. When no stylesheet was ever set,
    /// the call first adds an empty `stylesheet.css` resource entry;
    /// otherwise the entries are unchanged. Metadata is untouched.
    /// Serialization closes the archive writer, so nothing is claimed
    /// about later acceptance.
    #[verifier::external_body]
    pub fn generate(&mut self) -> (r: Option<Vec<u8>>)
        ensures
            epub_entries(*final(self)) == epub_entries(*old(self)).push(
                (entry_resource(), "stylesheet.css"@, "text/css"@, Seq::<u8>::empty()),
            ) || epub_entries(*final(self)) == epub_entries(*old(self)),
            epub_meta_of(*final(self)) == epub_meta_of(*old(self)),
    {
        let mut out: Vec<u8> = Vec::new();
        self.inner.generate(&mut out).ok()?;
        Some(out)
    }
}

/// What `mime_guess::from_path` offers first for a path: `None` when
/// the extension is unknown. A function of the path alone.
pub uninterp spec fn mime_guess_of(path: Seq<char>) -> Option<Seq<char>>;

/// Relies on `mime_guess::from_path` (`first_raw`): the first MIME
/// type guessed from the path's extension.
#[verifier::external_body]
fn guess_mime(path: &str) -> (r: Option<String>)
    ensures
        r is Some <==> mime_guess_of(path@) is Some,
        r matches Some(s) ==> mime_guess_of(path@) == Some(s@),
{
    mime_guess::from_path(path).first_raw().map(|s| s.to_string())
}

/// The MIME type recorded for an embedded file: the guess by
/// extension, `*/*` when the extension is unknown.
pub open spec fn mime_model(path: Seq<char>) -> Seq<char> {
    match mime_guess_of(path) {
        Some(m) => m,
        None => "*/*"@,
    }
}

/// Picks the MIME type recorded for an embedded file.
pub fn mime_type(path: &str) -> (r: String)
    ensures
        r@ == mime_model(path@),
{
    match guess_mime(path) {
        Some(s) => s,
        None => String::from_str("*/*"),
    }
}

/// No two pairs share a path.
pub open spec fn unique_keys(s: Seq<(String, Vec<u8>)>) -> bool {
    forall|i: int, j: int| 0 <= i < j < s.len() ==> (#[trigger] s[i]).0@ != (#[trigger] s[j]).0@
}

/// The mapping an association list denotes, a later pair winning.
pub open spec fn assoc_model(s: Seq<(String, Vec<u8>)>) -> Map<Seq<char>, Seq<u8>>
    decreases s.len(),
{
    if s.len() == 0 {
        Map::empty()
    } else {
        assoc_model(s.drop_last()).insert(s.last().0@, s.last().1@)
    }
}

/// The path-to-bytes mapping after collecting fetch results in order:
/// failures dropped, a later success for a path replacing an earlier
/// one.
pub open spec fn collect_model(results: Seq<(String, Option<Vec<u8>>)>) -> Map<Seq<char>, Seq<u8>>
    decreases results.len(),
{
    if results.len() == 0 {
        Map::empty()
    } else {
        let prev = collect_model(results.drop_last());
        match results.last().1 {
            Some(b) => prev.insert(results.last().0@, b@),
            None => prev,
        }
    }
}

/// Updating one pair in place, keeping its path, is an insert.
proof fn lemma_assoc_update(s: Seq<(String, Vec<u8>)>, k: int, p: String, v: Vec<u8>)
    requires
        0 <= k < s.len(),
        unique_keys(s),
        s[k].0@ == p@,
    ensures
        assoc_model(s.update(k, (p, v))) == assoc_model(s).insert(p@, v@),
    decreases s.len(),
{
    let t = s.update(k, (p, v));
    if k == s.len() - 1 {
        assert(t.drop_last() =~= s.drop_last());
        assert(t.last() == (p, v));
        assert(assoc_model(s).insert(p@, v@) =~= assoc_model(s.drop_last()).insert(p@, v@));
    } else {
        assert(t.drop_last() =~= s.drop_last().update(k, (p, v)));
        assert(t.last() == s.last());
        assert(unique_keys(s.drop_last())) by {
            assert(forall|i: int, j: int|
                0 <= i < j < s.drop_last().len() ==> (#[trigger] s.drop_last()[i]) == s[i]
                    && (#[trigger] s.drop_last()[j]) == s[j]);
        }
        assert(s.drop_last()[k] == s[k]);
        lemma_assoc_update(s.drop_last(), k, p, v);
        assert(s.last().0@ != p@);
        assert(assoc_model(t) =~= assoc_model(s).insert(p@, v@));
    }
}

/// Scans for the pair holding a path.
fn assoc_position(s: &Vec<(String, Vec<u8>)>, key: &String) -> (r: Option<usize>)
    ensures
        match r {
            Some(k) => k < s@.len() && s@[k as int].0@ == key@,
            None => forall|t: int| 0 <= t < s@.len() ==> (#[trigger] s@[t]).0@ != key@,
        },
{
    let mut k: usize = 0;
    while k < s.len()
        invariant
            k <= s@.len(),
            forall|t: int| 0 <= t < k ==> (#[trigger] s@[t]).0@ != key@,
        decreases s@.len() - k,
    {
        if s[k].0 == *key {
            return Some(k);
        }
        k = k + 1;
    }
    None
}

/// Collects completed fetches into the path-to-bytes association:
/// failures are dropped, and a later success for the same path
/// replaces the earlier bytes in place. Paths stay unique, in first
/// arrival order.
pub fn collect_fetches(results: &Vec<(String, Option<Vec<u8>>)>) -> (r: Vec<(String, Vec<u8>)>)
    ensures
        unique_keys(r@),
        assoc_model(r@) == collect_model(results@),
{
    let mut out: Vec<(String, Vec<u8>)> = Vec::new();
    let mut i: usize = 0;
    while i < results.len()
        invariant
            i <= results@.len(),
            unique_keys(out@),
            assoc_model(out@) == collect_model(results@.take(i as int)),
        decreases results@.len() - i,
    {
        proof {
            assert(results@.take(i + 1).drop_last() =~= results@.take(i as int));
        }
        let res = &results[i];
        match &res.1 {
            Some(bytes) => {
                let ghost old_out = out@;
                match assoc_position(&out, &res.0) {
                    Some(k) => {
                        let new_pair = (res.0.clone(), bytes.clone());
                        let ghost np = new_pair;
                        out[k] = new_pair;
                        proof {
                            lemma_assoc_update(old_out, k as int, np.0, np.1);
                            assert(out@ == old_out.update(k as int, np));
                            assert(forall|t: int|
                                0 <= t < out@.len() ==> (#[trigger] out@[t]).0@ == old_out[t].0@);
                        }
                    },
                    None => {
                        out.push((res.0.clone(), bytes.clone()));
                        proof {
                            assert(out@.drop_last() =~= old_out);
                            assert(forall|t: int|
                                0 <= t < old_out.len() ==> (#[trigger] out@[t]) == old_out[t]);
                        }
                    },
                }
            },
            None => {},
        }
        i = i + 1;
    }
    proof {
        assert(results@.take(results@.len() as int) =~= results@);
    }
    out
}

/// Looks a path up in the association.
fn assoc_get(s: &Vec<(String, Vec<u8>)>, key: &String) -> (r: Option<Vec<u8>>)
    ensures
        r is Some <==> assoc_model(s@).contains_key(key@),
        r matches Some(v) ==> assoc_model(s@)[key@] == v@,
{
    let mut k: usize = s.len();
    proof {
        assert(s@.take(s@.len() as int) =~= s@);
    }
    while k > 0
        invariant
            k <= s@.len(),
            assoc_model(s@).contains_key(key@) == assoc_model(s@.take(k as int)).contains_key(
                key@,
            ),
            assoc_model(s@).contains_key(key@) ==> assoc_model(s@)[key@] == assoc_model(
                s@.take(k as int),
            )[key@],
        decreases k,
    {
        proof {
            assert(s@.take(k as int).drop_last() =~= s@.take(k - 1));
            assert(s@.take(k as int).last() == s@[k - 1]);
        }
        if s[k - 1].0 == *key {
            return Some(s[k - 1].1.clone());
        }
        k = k - 1;
    }
    proof {
        assert(s@.take(0) =~= Seq::<(String, Vec<u8>)>::empty());
    }
    None
}

/// The views of a fetch-target list: each remote URI with its
/// container path.
pub open spec fn targets_view(s: Seq<(Vec<u8>, String)>) -> Seq<(Seq<u8>, Seq<char>)> {
    s.map_values(|t: (Vec<u8>, String)| (t.0@, t.1@))
}

/// The fetch targets of the registered URIs, in order: each that
/// parses, paired with its container-relative path; one that does not
/// parse is dropped.
pub open spec fn targets_model(uris: Seq<Seq<u8>>) -> Seq<(Seq<u8>, Seq<char>)>
    decreases uris.len(),
{
    if uris.len() == 0 {
        Seq::empty()
    } else {
        let prev = targets_model(uris.drop_last());
        match uri_parts_of(uris.last()) {
            Some(parts) => prev.push((uris.last(), trim_sep_chars(parts.1))),
            None => prev,
        }
    }
}

/// Pairs each registered URI with its container-relative path; a URI
/// the parser refuses is dropped, as it was never registered from a
/// rendered figure.
pub fn fetch_targets(uris: &Vec<Vec<u8>>) -> (r: Vec<(Vec<u8>, String)>)
    ensures
        targets_view(r@) == targets_model(views_of(uris@)),
{
    let ghost uv = views_of(uris@);
    let mut out: Vec<(Vec<u8>, String)> = Vec::new();
    let mut i: usize = 0;
    while i < uris.len()
        invariant
            i <= uris@.len(),
            uv == views_of(uris@),
            targets_view(out@) == targets_model(uv.take(i as int)),
        decreases uris@.len() - i,
    {
        proof {
            assert(uv.take(i + 1).drop_last() =~= uv.take(i as int));
            assert(uv.take(i + 1).last() == uris@[i as int]@);
        }
        let u = &uris[i];
        let ghost old_out = out@;
        match parse_uri(u) {
            Some(parts) => {
                let rel = local_path(parts.path.as_str());
                out.push((u.clone(), rel));
                proof {
                    assert(targets_view(out@) =~= targets_view(old_out).push(
                        (uris@[i as int]@, out@.last().1@),
                    ));
                }
            },
            None => {},
        }
        proof {
            assert(targets_view(out@) =~= targets_model(uv.take(i + 1)));
        }
        i = i + 1;
    }
    proof {
        assert(uv.take(uv.len() as int) =~= uv);
    }
    out
}

/// The cover's fetch target from a book's metadata, when the cover
/// URL parses.
pub open spec fn cover_target_model(meta: Option<BookMeta>) -> Option<(Seq<u8>, Seq<char>)> {
    match meta {
        None => None,
        Some(m) => match uri_parts_of(encode_utf8(m.cover_url@)) {
            Some(parts) => Some((encode_utf8(m.cover_url@), trim_sep_chars(parts.1))),
            None => None,
        },
    }
}

/// Reads a book's cover URL into a fetch target, when it parses.
pub fn cover_target(meta: &BookMeta) -> (r: Option<(Vec<u8>, String)>)
    ensures
        r is Some <==> cover_target_model(Some(*meta)) is Some,
        r matches Some(t) ==> cover_target_model(Some(*meta)) == Some((t.0@, t.1@)),
{
    let bytes = meta.cover_url.as_str().as_bytes_vec();
    match parse_uri(&bytes) {
        Some(parts) => {
            let rel = local_path(parts.path.as_str());
            Some((bytes, rel))
        },
        None => None,
    }
}

/// Lays out a whole publication: the pages of every section, the
/// fetch targets of every image the chapters register, with the cover
/// appended last when the metadata's cover URL parses, and the cover's
/// container path.
pub fn plan_publication(
    divisions: &Vec<Division>,
    chapters: &Vec<Vec<ChapterRef>>,
    corpus: &HashMap<u64, String>,
    meta: &Option<BookMeta>,
) -> (r: (Vec<Page>, Vec<(Vec<u8>, String)>, Option<String>))
    requires
        divisions@.len() == chapters@.len(),
    ensures
        r.0@.map_values(|p: Page| page_view(p)) == pages_model(
            sections_model(divisions@, chapters@, map_view(corpus@)),
        ),
        targets_view(r.1@) == targets_model(
            uris_model(sections_model(divisions@, chapters@, map_view(corpus@))),
        ) + match cover_target_model(*meta) {
            Some(t) => seq![t],
            None => Seq::<(Seq<u8>, Seq<char>)>::empty(),
        },
        match (r.2, cover_target_model(*meta)) {
            (Some(p), Some(t)) => p@ == t.1,
            (None, None) => true,
            _ => false,
        },
{
    let sections = extract_sections(divisions, chapters, corpus);
    let pages_and_uris = build_pages(sections);
    let pages = pages_and_uris.0;
    let mut targets = fetch_targets(&pages_and_uris.1);
    let cover = match meta {
        Some(m) => cover_target(m),
        None => None,
    };
    let ghost base_targets = targets_view(targets@);
    let cover_path = match &cover {
        Some(t) => Some(t.1.clone()),
        None => None,
    };
    match cover {
        Some(t) => {
            targets.push(t);
            proof {
                assert(targets_view(targets@) =~= base_targets.push(
                    (targets@.last().0@, targets@.last().1@),
                ));
            }
        },
        None => {},
    }
    (pages, targets, cover_path)
}

/// The entries the pages become, in order, each under the container
/// library's fixed page MIME type.
pub open spec fn pages_entries(pages: Seq<Page>) -> Seq<(int, Seq<char>, Seq<char>, Seq<u8>)> {
    pages.map_values(
        |p: Page| (page_kind(p.front), p.filename@, "application/xhtml+xml"@, p.body@),
    )
}

/// The cover entry: present exactly when a cover path was set and its
/// image was fetched, under the MIME type guessed from the path.
pub open spec fn cover_entries(
    images: Seq<(String, Vec<u8>)>,
    cover_path: Option<String>,
) -> Seq<(int, Seq<char>, Seq<char>, Seq<u8>)> {
    match cover_path {
        None => Seq::empty(),
        Some(p) => if assoc_model(images).contains_key(p@) {
            seq![(entry_cover(), p@, mime_model(p@), assoc_model(images)[p@])]
        } else {
            Seq::empty()
        },
    }
}

/// The resource entries: every fetched image but the cover, in list
/// order, each under the MIME type guessed from its path.
pub open spec fn resource_entries(
    images: Seq<(String, Vec<u8>)>,
    cover_path: Option<String>,
) -> Seq<(int, Seq<char>, Seq<char>, Seq<u8>)>
    decreases images.len(),
{
    if images.len() == 0 {
        Seq::empty()
    } else {
        let prev = resource_entries(images.drop_last(), cover_path);
        let skip = match cover_path {
            Some(p) => images.last().0@ == p@,
            None => false,
        };
        if skip {
            prev
        } else {
            prev.push(
                (
                    entry_resource(),
                    images.last().0@,
                    mime_model(images.last().0@),
                    images.last().1@,
                ),
            )
        }
    }
}

/// The whole planned entry list of one publication build: the pages,
/// then the cover when fetched, then the other fetched images.
pub open spec fn planned_entries(
    pages: Seq<Page>,
    images: Seq<(String, Vec<u8>)>,
    cover_path: Option<String>,
) -> Seq<(int, Seq<char>, Seq<char>, Seq<u8>)> {
    pages_entries(pages) + cover_entries(images, cover_path) + resource_entries(
        images,
        cover_path,
    )
}

/// The metadata a finished build carries: the title and the author
/// list from the book's metadata when present (an empty author name
/// leaves the list empty, as the builder clears it), nothing when the
/// catalog had none.
pub open spec fn finished_meta(meta: Option<BookMeta>) -> Map<Seq<char>, Seq<Seq<char>>> {
    match meta {
        None => Map::empty(),
        Some(m) => Map::<Seq<char>, Seq<Seq<char>>>::empty().insert(
            "title"@,
            seq![m.name@],
        ).insert(
            "author"@,
            if m.author@.len() > 0 {
                seq![m.author@]
            } else {
                Seq::empty()
            },
        ),
    }
}

/// Whether a live container holding `entries` accepts a whole run of
/// additions, each on the state the previous ones leave.
pub open spec fn epub_accepts_all(
    entries: Seq<(int, Seq<char>, Seq<char>, Seq<u8>)>,
    additions: Seq<(int, Seq<char>, Seq<char>, Seq<u8>)>,
) -> bool
    decreases additions.len(),
{
    additions.len() == 0 || (epub_add_ok(entries, additions.first()) && epub_accepts_all(
        entries.push(additions.first()),
        additions.drop_first(),
    ))
}

/// Acceptance of the whole run follows from acceptance of each
/// addition on its prefix.
proof fn lemma_accepts_all_intro(planned: Seq<(int, Seq<char>, Seq<char>, Seq<u8>)>, k: int)
    requires
        0 <= k <= planned.len(),
        forall|j: int|
            k <= j < planned.len() ==> epub_add_ok(planned.take(j), #[trigger] planned[j]),
    ensures
        epub_accepts_all(planned.take(k), planned.skip(k)),
    decreases planned.len() - k,
{
    if k < planned.len() {
        lemma_accepts_all_intro(planned, k + 1);
        assert(planned.skip(k).first() == planned[k]);
        assert(planned.take(k).push(planned[k]) =~= planned.take(k + 1));
        assert(planned.skip(k).drop_first() =~= planned.skip(k + 1));
    }
}

/// Acceptance of the whole run gives acceptance of each addition on
/// its prefix.
proof fn lemma_accepts_all_elim(planned: Seq<(int, Seq<char>, Seq<char>, Seq<u8>)>, j: int, k: int)
    requires
        0 <= j <= k < planned.len(),
        epub_accepts_all(planned.take(j), planned.skip(j)),
    ensures
        epub_add_ok(planned.take(k), planned[k]),
    decreases k - j,
{
    assert(planned.skip(j).first() == planned[j]);
    assert(planned.take(j).push(planned[j]) =~= planned.take(j + 1));
    assert(planned.skip(j).drop_first() =~= planned.skip(j + 1));
    if j < k {
        lemma_accepts_all_elim(planned, j + 1, k);
    }
}

/// The resource entries of a prefix of the image list are a prefix of
/// the resource entries of the whole list.
proof fn lemma_resource_entries_prefix(
    images: Seq<(String, Vec<u8>)>,
    cover_path: Option<String>,
    k: int,
)
    requires
        0 <= k <= images.len(),
    ensures
        resource_entries(images.take(k), cover_path).len() <= resource_entries(
            images,
            cover_path,
        ).len(),
        resource_entries(images.take(k), cover_path) == resource_entries(
            images,
            cover_path,
        ).take(resource_entries(images.take(k), cover_path).len() as int),
    decreases images.len() - k,
{
    let full = resource_entries(images, cover_path);
    let cur = resource_entries(images.take(k), cover_path);
    if k == images.len() {
        assert(images.take(k) =~= images);
        assert(full.take(full.len() as int) =~= full);
    } else {
        lemma_resource_entries_prefix(images, cover_path, k + 1);
        let nxt = resource_entries(images.take(k + 1), cover_path);
        assert(images.take(k + 1).drop_last() =~= images.take(k));
        assert(images.take(k + 1).last() == images[k]);
        let skip = match cover_path {
            Some(p) => images[k].0@ == p@,
            None => false,
        };
        if skip {
            assert(nxt == cur);
            assert(nxt.take(cur.len() as int) =~= cur);
        } else {
            assert(nxt.take(cur.len() as int) =~= cur);
        }
        assert(full.take(nxt.len() as int).take(cur.len() as int) =~= full.take(
            cur.len() as int,
        ));
    }
}

/// Builds the container from the laid-out pages, the metadata, the
/// fetched images and the cover's path: pages in order, then the
/// cover when it was fetched, then every other image as a resource,
/// each under its guessed MIME type, with title and author metadata
/// set when the catalog knows them. The build succeeds exactly when
/// the container accepts every planned entry; a refusal aborts this
/// book's build with a container error.
pub fn finish_publication(
    pages: &Vec<Page>,
    meta: &Option<BookMeta>,
    images: &Vec<(String, Vec<u8>)>,
    cover_path: &Option<String>,
) -> (r: Result<Container, BuildError>)
    ensures
        r is Ok <==> epub_accepts_all(
            Seq::empty(),
            planned_entries(pages@, images@, *cover_path),
        ),
        r matches Ok(c) ==> (epub_entries(c) == planned_entries(pages@, images@, *cover_path)
            && epub_meta_of(c) == finished_meta(*meta) && epub_live(c)),
        r matches Err(e) ==> e == BuildError::Container,
{
    let ghost planned = planned_entries(pages@, images@, *cover_path);
    let mut c = match epub_new() {
        Some(c) => c,
        None => {
            return Err(BuildError::Container);
        },
    };
    proof {
        assert(planned.take(0) =~= Seq::<(int, Seq<char>, Seq<char>, Seq<u8>)>::empty());
    }
    let ghost mut m: int = 0;
    let mut i: usize = 0;
    while i < pages.len()
        invariant
            i <= pages@.len(),
            m == i as int,
            planned == planned_entries(pages@, images@, *cover_path),
            epub_live(c),
            epub_meta_of(c) == Map::<Seq<char>, Seq<Seq<char>>>::empty(),
            epub_entries(c) == planned.take(m),
            forall|j: int| 0 <= j < m ==> epub_add_ok(planned.take(j), #[trigger] planned[j]),
        decreases pages@.len() - i,
    {
        proof {
            assert(pages_entries(pages@).len() == pages@.len());
            assert(planned[m] == (pages_entries(pages@) + cover_entries(images@, *cover_path))[m]);
            assert(planned[m] == pages_entries(pages@)[m]);
            assert(planned[m] == (
                page_kind(pages@[i as int].front),
                pages@[i as int].filename@,
                "application/xhtml+xml"@,
                pages@[i as int].body@,
            ));
            assert(planned.take(m).push(planned[m]) =~= planned.take(m + 1));
        }
        let p = &pages[i];
        match epub_add_page(&mut c, p.filename.as_str(), p.title.as_str(), &p.body, p.front) {
            Some(u) => {},
            None => {
                proof {
                    assert(planned.take(0) =~= Seq::<
                        (int, Seq<char>, Seq<char>, Seq<u8>),
                    >::empty());
                    assert(planned.skip(0) =~= planned);
                    if epub_accepts_all(Seq::empty(), planned) {
                        lemma_accepts_all_elim(planned, 0, m);
                        assert(false);
                    }
                }
                return Err(BuildError::Container);
            },
        }
        proof {
            m = m + 1;
        }
        i = i + 1;
    }
    proof {
        assert(pages@.take(pages@.len() as int) =~= pages@);
    }
    match meta {
        Some(bm) => {
            match epub_metadata(&mut c, "title", bm.name.as_str()) {
                Some(u) => {},
                None => {
                    return Err(BuildError::Container);
                },
            }
            match epub_metadata(&mut c, "author", bm.author.as_str()) {
                Some(u) => {},
                None => {
                    return Err(BuildError::Container);
                },
            }
            proof {
                reveal_strlit("title");
                reveal_strlit("author");
                assert("title"@.len() == 5);
                assert("author"@.len() == 6);
                assert("title"@ != "author"@);
                let after_title = Map::<Seq<char>, Seq<Seq<char>>>::empty().insert(
                    "title"@,
                    seq![bm.name@],
                );
                assert(!after_title.contains_key("author"@));
                if bm.author@.len() > 0 {
                    assert(Seq::<Seq<char>>::empty().push(bm.author@) =~= seq![bm.author@]);
                }
                assert(epub_meta_of(c) =~= finished_meta(*meta));
            }
        },
        None => {},
    }
    let ghost cover_part = cover_entries(images@, *cover_path);
    match cover_path {
        Some(p) => {
            match assoc_get(images, p) {
                Some(bytes) => {
                    proof {
                        assert(cover_part =~= seq![
                            (entry_cover(), p@, mime_model(p@), assoc_model(images@)[p@]),
                        ]);
                        assert(planned[m] == (pages_entries(pages@) + cover_part)[m]);
                        assert(planned[m] == cover_part[0]);
                        assert(planned.take(m).push(planned[m]) =~= planned.take(m + 1));
                    }
                    let mime = mime_type(p.as_str());
                    match epub_add_cover(&mut c, p.as_str(), &bytes, mime.as_str()) {
                        Some(u) => {},
                        None => {
                            proof {
                                assert(planned.take(0) =~= Seq::<
                                    (int, Seq<char>, Seq<char>, Seq<u8>),
                                >::empty());
                                assert(planned.skip(0) =~= planned);
                                if epub_accepts_all(Seq::empty(), planned) {
                                    lemma_accepts_all_elim(planned, 0, m);
                                    assert(false);
                                }
                            }
                            return Err(BuildError::Container);
                        },
                    }
                    proof {
                        m = m + 1;
                    }
                },
                None => {
                    proof {
                        assert(cover_part =~= Seq::<
                            (int, Seq<char>, Seq<char>, Seq<u8>),
                        >::empty());
                    }
                },
            }
        },
        None => {
            proof {
                assert(cover_part =~= Seq::<(int, Seq<char>, Seq<char>, Seq<u8>)>::empty());
            }
        },
    }
    let ghost base = m;
    let ghost res_full = resource_entries(images@, *cover_path);
    proof {
        assert(base == pages_entries(pages@).len() + cover_part.len());
        assert(planned.len() == base + res_full.len());
        assert(resource_entries(
            images@.take(0),
            *cover_path,
        ) =~= Seq::<(int, Seq<char>, Seq<char>, Seq<u8>)>::empty());
    }
    let mut k: usize = 0;
    while k < images.len()
        invariant
            k <= images@.len(),
            planned == planned_entries(pages@, images@, *cover_path),
            cover_part == cover_entries(images@, *cover_path),
            res_full == resource_entries(images@, *cover_path),
            base == pages_entries(pages@).len() + cover_part.len(),
            planned.len() == base + res_full.len(),
            m == base + resource_entries(images@.take(k as int), *cover_path).len(),
            epub_live(c),
            epub_meta_of(c) == finished_meta(*meta),
            epub_entries(c) == planned.take(m),
            forall|j: int| 0 <= j < m ==> epub_add_ok(planned.take(j), #[trigger] planned[j]),
        decreases images@.len() - k,
    {
        proof {
            assert(images@.take(k + 1).drop_last() =~= images@.take(k as int));
            assert(images@.take(k + 1).last() == images@[k as int]);
        }
        let pair = &images[k];
        let is_cover = match cover_path {
            Some(p) => pair.0 == *p,
            None => false,
        };
        if !is_cover {
            proof {
                let cur = resource_entries(images@.take(k as int), *cover_path);
                let nxt = resource_entries(images@.take(k + 1), *cover_path);
                assert(nxt == cur.push(
                    (
                        entry_resource(),
                        images@[k as int].0@,
                        mime_model(images@[k as int].0@),
                        images@[k as int].1@,
                    ),
                ));
                lemma_resource_entries_prefix(images@, *cover_path, k + 1);
                assert(res_full[cur.len() as int] == nxt[cur.len() as int]);
                assert(planned[m] == ((pages_entries(pages@) + cover_part) + res_full)[m]);
                assert(planned[m] == res_full[m - base]);
                assert(planned.take(m).push(planned[m]) =~= planned.take(m + 1));
            }
            let mime = mime_type(pair.0.as_str());
            match epub_add_resource(&mut c, pair.0.as_str(), &pair.1, mime.as_str()) {
                Some(u) => {},
                None => {
                    proof {
                        assert(planned.take(0) =~= Seq::<
                            (int, Seq<char>, Seq<char>, Seq<u8>),
                        >::empty());
                        assert(planned.skip(0) =~= planned);
                        if epub_accepts_all(Seq::empty(), planned) {
                            lemma_accepts_all_elim(planned, 0, m);
                            assert(false);
                        }
                    }
                    return Err(BuildError::Container);
                },
            }
            proof {
                m = m + 1;
            }
        } else {
            proof {
                assert(resource_entries(images@.take(k + 1), *cover_path) == resource_entries(
                    images@.take(k as int),
                    *cover_path,
                ));
            }
        }
        k = k + 1;
    }
    proof {
        assert(images@.take(images@.len() as int) =~= images@);
        assert(m == planned.len());
        assert(planned.take(m) =~= planned);
        assert(planned.take(0) =~= Seq::<(int, Seq<char>, Seq<char>, Seq<u8>)>::empty());
        assert(planned.skip(0) =~= planned);
        lemma_accepts_all_intro(planned, 0);
        assert(epub_accepts_all(Seq::empty(), planned));
    }
    Ok(c)
}

/// The file name of a book's publication export: the book's name when
/// the catalog knows it, else the bare identifier.
pub fn epub_file_name(meta: &Option<BookMeta>, book_id: u64) -> (r: String)
    ensures
        match meta {
            Some(m) => r@ == m.name@ + ".epub"@,
            None => r@ == crate::text::dec_chars(book_id as nat) + ".epub"@,
        },
{
    let mut out = match meta {
        Some(m) => m.name.clone(),
        None => crate::text::u64_to_string(book_id),
    };
    out.append(".epub");
    out
}

/// Target pairing is complete on well-formed URIs: when every URI in
/// the list parses, each gets a target, in order.
proof fn lemma_targets_model_complete(uris: Seq<Seq<u8>>)
    requires
        forall|k: int| 0 <= k < uris.len() ==> uri_parts_of(#[trigger] uris[k]) is Some,
    ensures
        targets_model(uris).len() == uris.len(),
        forall|k: int|
            0 <= k < uris.len() ==> (#[trigger] targets_model(uris)[k]).0 == uris[k],
    decreases uris.len(),
{
    if uris.len() > 0 {
        assert(forall|k: int|
            0 <= k < uris.drop_last().len() ==> #[trigger] uris.drop_last()[k] == uris[k]);
        lemma_targets_model_complete(uris.drop_last());
        assert(uri_parts_of(uris.last()) is Some);
        assert(forall|k: int|
            0 <= k < uris.len() - 1 ==> (#[trigger] targets_model(uris)[k]).0 == uris[k]);
        assert((targets_model(uris)[uris.len() - 1]).0 == uris.last());
    }
}

/// Every image URI a publication registers is dispatched to the
/// fetcher: the fetch targets pair each registered URI, in order,
/// with a container path, and none is dropped. A URI is registered
/// only by a rendered figure, which registers it only once it has
/// parsed.
pub proof fn lemma_every_registered_uri_is_dispatched(
    divisions: Seq<Division>,
    chapters: Seq<Vec<ChapterRef>>,
    corpus: Map<u64, Seq<char>>,
)
    ensures
        ({
            let us = uris_model(sections_model(divisions, chapters, corpus));
            let ts = targets_model(us);
            ts.len() == us.len() && forall|k: int|
                0 <= k < us.len() ==> (#[trigger] ts[k]).0 == us[k]
        }),
{
    crate::render::lemma_uris_model_parse(sections_model(divisions, chapters, corpus));
    lemma_targets_model_complete(uris_model(sections_model(divisions, chapters, corpus)));
}

} // verus!
