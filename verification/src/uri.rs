//! The parts of a request target the pipeline reads, and the rewrite
//! of a remote image URI into a container-relative path.

use vstd::prelude::*;
use vstd::string::{StrSliceExecFns, StringSliceAdditionalSpecFns};

verus! {

/// The parts of a parsed request target: the host, if any, and the
/// path component.
pub struct UriParts {
    pub host: Option<String>,
    pub path: String,
}

/// What hyper's URI parser yields on the given bytes: `None` on an
/// invalid target, else the host (absent for a path-only target) and
/// the path component. A function of the bytes alone.
pub uninterp spec fn uri_parts_of(s: Seq<u8>) -> Option<(Option<Seq<char>>, Seq<char>)>;

/// Relies on `hyper::Uri` (`TryFrom<&[u8]>`, then `host` and `path`):
/// parses a request target and keeps its host and path.
#[verifier::external_body]
pub fn parse_uri(s: &Vec<u8>) -> (r: Option<UriParts>)
    ensures
        r is Some <==> uri_parts_of(s@) is Some,
        r matches Some(u) ==> (uri_parts_of(s@) matches Some(p) && u.path@ == p.1 && match (
            u.host,
            p.0,
        ) {
            (Some(h), Some(hs)) => h@ == hs,
            (None, None) => true,
            _ => false,
        }),
{
    let uri = hyper::Uri::try_from(s.as_slice()).ok()?;
    Some(UriParts { host: uri.host().map(|h| h.to_string()), path: uri.path().to_string() })
}

/// A path with its leading `/` and `\` characters removed.
pub open spec fn trim_sep_chars(s: Seq<char>) -> Seq<char>
    decreases s.len(),
{
    if s.len() > 0 && (s[0] == '/' || s[0] == '\\') {
        trim_sep_chars(s.drop_first())
    } else {
        s
    }
}

/// The container-relative form of a URI path: the path with leading
/// slashes and backslashes stripped.
pub fn local_path(path: &str) -> (r: String)
    ensures
        r@ == trim_sep_chars(path@),
    decreases path@.len(),
{
    let n = path.unicode_len();
    if n == 0 {
        return path.to_owned();
    }
    let c = path.get_char(0);
    if c == '/' || c == '\\' {
        let rest = path.substring_char(1, n);
        proof {
            assert(path@.drop_first() =~= path@.subrange(1, n as int));
        }
        local_path(rest)
    } else {
        path.to_owned()
    }
}

} // verus!
