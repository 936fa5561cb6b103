use std::io::Write;

use bookdec::errors::FetchError;
use bookdec::fetch::{decode_response, request_plan, AdmissionGate, FETCH_LIMIT};
use bookdec::uri::{local_path, parse_uri, UriParts};

fn gzip_bytes(data: &[u8]) -> Vec<u8> {
    let mut enc = flate2::write::GzEncoder::new(Vec::new(), flate2::Compression::default());
    enc.write_all(data).unwrap();
    enc.finish().unwrap()
}

fn deflate_bytes(data: &[u8]) -> Vec<u8> {
    let mut enc = flate2::write::DeflateEncoder::new(Vec::new(), flate2::Compression::default());
    enc.write_all(data).unwrap();
    enc.finish().unwrap()
}

#[test]
fn absent_encoding_passes_the_body_through() {
    let body = b"plain body".to_vec();
    assert_eq!(decode_response(None, body.clone()).unwrap(), body);
}

#[test]
fn gzip_body_is_decompressed() {
    let compressed = gzip_bytes(b"the payload");
    let enc = b"gzip".to_vec();
    let r = decode_response(Some(&enc), compressed).unwrap();
    assert_eq!(r, b"the payload");
}

#[test]
fn deflate_body_is_decompressed() {
    let compressed = deflate_bytes(b"deflated payload");
    let enc = b"deflate".to_vec();
    let r = decode_response(Some(&enc), compressed).unwrap();
    assert_eq!(r, b"deflated payload");
}

#[test]
fn brotli_encoding_is_refused() {
    let enc = b"br".to_vec();
    let r = decode_response(Some(&enc), b"whatever".to_vec());
    assert_eq!(r, Err(FetchError::UnsupportedEncoding(b"br".to_vec())));
}

#[test]
fn corrupt_gzip_is_a_decode_error() {
    let enc = b"gzip".to_vec();
    let r = decode_response(Some(&enc), b"definitely not gzip".to_vec());
    assert_eq!(r, Err(FetchError::Decode));
}

#[test]
fn request_plan_has_the_fixed_fingerprint() {
    let uri = UriParts { host: Some(String::from("ex.com")), path: String::from("/a") };
    let plan = request_plan(&uri).unwrap();
    assert_eq!(plan.method, "GET");
    assert_eq!(plan.headers.len(), 3);
    assert_eq!(plan.headers[0].0, "User-Agent");
    assert_eq!(
        plan.headers[0].1,
        "Dalvik/2.1.0 (Linux; U; Android 8.0.0; MI 6 MIUI/8.6.28)"
    );
    assert_eq!(plan.headers[1].0, "Accept-Encoding");
    assert_eq!(plan.headers[1].1, "gzip, deflate");
    assert_eq!(plan.headers[2].0, "Host");
    assert_eq!(plan.headers[2].1, "ex.com");
}

#[test]
fn request_without_host_is_refused() {
    let uri = UriParts { host: None, path: String::from("/a") };
    assert_eq!(request_plan(&uri), Err(FetchError::NoHost));
}

#[test]
fn gate_never_admits_more_than_the_cap() {
    let mut gate = AdmissionGate::new(FETCH_LIMIT);
    let mut granted = 0u64;
    for _ in 0..100 {
        if gate.try_acquire() {
            granted += 1;
        }
        assert!(gate.in_flight <= gate.cap);
    }
    assert_eq!(granted, FETCH_LIMIT);
    gate.release();
    assert!(gate.try_acquire());
    assert!(!gate.try_acquire());
    assert_eq!(gate.in_flight, FETCH_LIMIT);
}

#[test]
fn uri_parts_and_local_path() {
    let bytes = b"https://ex.com/a/b.jpg".to_vec();
    let parts = parse_uri(&bytes).unwrap();
    assert_eq!(parts.host.as_deref(), Some("ex.com"));
    assert_eq!(parts.path, "/a/b.jpg");
    assert_eq!(local_path(&parts.path), "a/b.jpg");
    assert_eq!(local_path("\\\\x/y"), "x/y");
    assert_eq!(local_path("plain"), "plain");
}

#[test]
fn invalid_uri_is_rejected() {
    let bytes = b"ht tp://bad uri".to_vec();
    assert!(parse_uri(&bytes).is_none());
}
