//! The error taxonomy of the pipeline.
//!
//! Per-chapter and per-image failures are local: the enclosing stage
//! logs them and omits the unit from its output. Per-book failures
//! abort only that book's export.

use vstd::prelude::*;

verus! {

/// Why one chapter's ciphertext could not be turned into text.
#[derive(Clone, Copy, Debug, PartialEq, Eq, Structural)]
pub enum DecryptError {
    /// The ciphertext was not valid base64 once whitespace was stripped.
    Encoding,
    /// Block decryption produced bad padding: wrong key material or
    /// corrupt ciphertext.
    Cipher,
    /// The decrypted bytes are not valid UTF-8.
    Utf8,
}

/// Why a book's catalog metadata could not be produced.
#[derive(Clone, Copy, Debug, PartialEq, Eq, Structural)]
pub enum MetaError {
    /// Neither metadata table holds a row for the book.
    NotFound,
    /// The stored blob is not JSON, or lacks one of the required
    /// string fields.
    Parse,
}

/// Why a catalog row set could not be read as a chapter outline.
#[derive(Clone, Copy, Debug, PartialEq, Eq, Structural)]
pub enum CatalogError {
    /// A chapter identifier column did not hold a decimal u64.
    ChapterId,
}

/// Why a fetched response body could not be handed on.
#[derive(Clone, Debug, PartialEq, Eq)]
pub enum FetchError {
    /// The response carried a `content-encoding` other than gzip or
    /// deflate; the unrecognised header value is kept.
    UnsupportedEncoding(Vec<u8>),
    /// The compressed body did not decompress.
    Decode,
    /// The request target has no host component.
    NoHost,
}

/// Why the publication container could not be assembled.
#[derive(Clone, Copy, Debug, PartialEq, Eq, Structural)]
pub enum BuildError {
    /// The container library reported a failure.
    Container,
}

} // verus!
