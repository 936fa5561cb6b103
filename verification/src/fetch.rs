//! The bounded fetcher's decision logic: the fixed request shape, the
//! handling of a response's `content-encoding`, and the counting model
//! of the admission gate that caps simultaneous fetches.
//!
//! The transport itself (connecting, sending, awaiting) is plain I/O
//! and stays outside the library; it hands in the header value and the
//! raw body bytes.

use std::io::Read;
use vstd::prelude::*;
use vstd::string::StringExecFns;

use crate::errors::FetchError;
use crate::uri::UriParts;

verus! {

/// The global cap on simultaneous in-flight fetches.
pub const FETCH_LIMIT: u64 = 16;

/// What gzip decompression yields on the given bytes: `None` exactly
/// when they are not a whole valid gzip stream.
pub uninterp spec fn gunzip_of(b: Seq<u8>) -> Option<Seq<u8>>;

/// What raw-deflate decompression yields on the given bytes: `None`
/// exactly when they are not a whole valid deflate stream.
pub uninterp spec fn inflate_of(b: Seq<u8>) -> Option<Seq<u8>>;

/// Relies on `flate2::read::GzDecoder`: decompresses a whole gzip
/// stream into memory; the result is a function of the bytes alone.
#[verifier::external_body]
fn gunzip(b: &Vec<u8>) -> (r: Option<Vec<u8>>)
    ensures
        r is Some <==> gunzip_of(b@) is Some,
        r matches Some(v) ==> gunzip_of(b@) == Some(v@),
{
    let mut decoder = flate2::read::GzDecoder::new(b.as_slice());
    let mut out = Vec::new();
    decoder.read_to_end(&mut out).ok()?;
    Some(out)
}

/// Relies on `flate2::read::DeflateDecoder`: decompresses a whole
/// raw-deflate stream into memory; the result is a function of the
/// bytes alone.
#[verifier::external_body]
fn inflate(b: &Vec<u8>) -> (r: Option<Vec<u8>>)
    ensures
        r is Some <==> inflate_of(b@) is Some,
        r matches Some(v) ==> inflate_of(b@) == Some(v@),
{
    let mut decoder = flate2::read::DeflateDecoder::new(b.as_slice());
    let mut out = Vec::new();
    decoder.read_to_end(&mut out).ok()?;
    Some(out)
}

/// The bytes of the `gzip` encoding label.
pub open spec fn gzip_label() -> Seq<u8> {
    seq![0x67u8, 0x7au8, 0x69u8, 0x70u8]
}

/// The bytes of the `deflate` encoding label.
pub open spec fn deflate_label() -> Seq<u8> {
    seq![0x64u8, 0x65u8, 0x66u8, 0x6cu8, 0x61u8, 0x74u8, 0x65u8]
}

/// Turns a response body into the bytes handed to the caller, guided
/// by the `content-encoding` header value: no header passes the body
/// through unchanged, `gzip` and `deflate` decompress it, and any
/// other value is refused with the value kept in the error.
pub fn decode_response(encoding: Option<&Vec<u8>>, body: Vec<u8>) -> (r: Result<
    Vec<u8>,
    FetchError,
>)
    ensures
        encoding is None ==> (r matches Ok(b) && b@ == body@),
        encoding matches Some(e) ==> (if e@ == gzip_label() {
            match gunzip_of(body@) {
                Some(d) => r matches Ok(b) && b@ == d,
                None => r matches Err(f) && f == FetchError::Decode,
            }
        } else if e@ == deflate_label() {
            match inflate_of(body@) {
                Some(d) => r matches Ok(b) && b@ == d,
                None => r matches Err(f) && f == FetchError::Decode,
            }
        } else {
            r matches Err(f) && (f matches FetchError::UnsupportedEncoding(v) && v@ == e@)
        }),
{
    match encoding {
        None => Ok(body),
        Some(e) => {
            let is_gzip = e.len() == 4 && e[0] == 0x67 && e[1] == 0x7a && e[2] == 0x69 && e[3]
                == 0x70;
            let is_deflate = e.len() == 7 && e[0] == 0x64 && e[1] == 0x65 && e[2] == 0x66 && e[3]
                == 0x6c && e[4] == 0x61 && e[5] == 0x74 && e[6] == 0x65;
            proof {
                if is_gzip {
                    assert(e@ =~= gzip_label());
                }
                if is_deflate {
                    assert(e@ =~= deflate_label());
                }
                if !is_gzip && e@.len() == 4 {
                    assert(e@ != gzip_label());
                }
                if !is_deflate && e@.len() == 7 {
                    assert(e@ != deflate_label());
                }
            }
            if is_gzip {
                match gunzip(&body) {
                    Some(v) => Ok(v),
                    None => Err(FetchError::Decode),
                }
            } else if is_deflate {
                match inflate(&body) {
                    Some(v) => Ok(v),
                    None => Err(FetchError::Decode),
                }
            } else {
                Err(FetchError::UnsupportedEncoding(e.clone()))
            }
        },
    }
}

/// The request shape of one fetch: its method and header list.
#[derive(Clone, Debug, PartialEq)]
pub struct RequestPlan {
    pub method: String,
    pub headers: Vec<(String, String)>,
}

/// Lays out the fixed request shape for a target: method GET, the
/// emulated mobile client's User-Agent, `Accept-Encoding: gzip,
/// deflate`, and an explicit Host header from the target; a target
/// without a host is refused.
pub fn request_plan(uri: &UriParts) -> (r: Result<RequestPlan, FetchError>)
    ensures
        uri.host matches Some(h) ==> (r matches Ok(p) && p.method@ == "GET"@ && p.headers@.len()
            == 3 && p.headers@[0].0@ == "User-Agent"@ && p.headers@[0].1@
            == "Dalvik/2.1.0 (Linux; U; Android 8.0.0; MI 6 MIUI/8.6.28)"@ && p.headers@[1].0@
            == "Accept-Encoding"@ && p.headers@[1].1@ == "gzip, deflate"@ && p.headers@[2].0@
            == "Host"@ && p.headers@[2].1@ == h@),
        uri.host is None ==> (r matches Err(f) && f == FetchError::NoHost),
{
    match &uri.host {
        Some(h) => {
            let mut headers: Vec<(String, String)> = Vec::new();
            headers.push(
                (
                    String::from_str("User-Agent"),
                    String::from_str("Dalvik/2.1.0 (Linux; U; Android 8.0.0; MI 6 MIUI/8.6.28)"),
                ),
            );
            headers.push((String::from_str("Accept-Encoding"), String::from_str("gzip, deflate")));
            headers.push((String::from_str("Host"), h.clone()));
            Ok(RequestPlan { method: String::from_str("GET"), headers })
        },
        None => Err(FetchError::NoHost),
    }
}

/// The counting model of the admission gate: as many permits as the
/// cap, one taken per in-flight fetch and given back unconditionally
/// on completion. Well-formedness says the count never passes the
/// cap.
pub struct AdmissionGate {
    pub in_flight: u64,
    pub cap: u64,
}

impl AdmissionGate {
    /// No more fetches in flight than the cap.
    pub open spec fn wf(&self) -> bool {
        self.in_flight <= self.cap
    }

    /// A fresh gate with the given cap and nothing in flight.
    pub fn new(cap: u64) -> (g: AdmissionGate)
        ensures
            g.cap == cap,
            g.in_flight == 0,
            g.wf(),
    {
        AdmissionGate { in_flight: 0, cap }
    }

    /// Admits one fetch exactly when the cap leaves room; the count
    /// never passes the cap.
    pub fn try_acquire(&mut self) -> (granted: bool)
        requires
            old(self).wf(),
        ensures
            final(self).wf(),
            final(self).cap == old(self).cap,
            granted <==> old(self).in_flight < old(self).cap,
            granted ==> final(self).in_flight == old(self).in_flight + 1,
            !granted ==> final(self).in_flight == old(self).in_flight,
    {
        if self.in_flight < self.cap {
            self.in_flight = self.in_flight + 1;
            true
        } else {
            false
        }
    }

    /// Gives one permit back; called on completion, success or not.
    pub fn release(&mut self)
        requires
            old(self).wf(),
            old(self).in_flight > 0,
        ensures
            final(self).wf(),
            final(self).cap == old(self).cap,
            final(self).in_flight == old(self).in_flight - 1,
    {
        self.in_flight = self.in_flight - 1;
    }
}

} // verus!
