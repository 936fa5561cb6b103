//! Recovery of readable book content from an encrypted local store.
//!
//! The library covers the logic of the pipeline: decoding key-directory
//! entries into chapter keys, deriving the symmetric key and decrypting
//! chapter ciphertext, joining decrypted chapters with catalog metadata
//! into ordered books, the decision logic of a concurrency-capped
//! fetcher, and the assembly of a publication container with inlined
//! images. Directory walking, database queries and network transport
//! live outside the library and hand it plain values.

pub mod assemble;
pub mod catalog;
pub mod codec;
pub mod container;
pub mod corpus;
pub mod errors;
pub mod fetch;
pub mod keystore;
pub mod render;
pub mod text;
pub mod uri;
