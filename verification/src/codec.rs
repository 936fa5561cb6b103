//! The chapter decryption engine.
//!
//! A chapter's ciphertext is whitespace-tolerant base64 of an
//! AES-256-CBC encryption, keyed by the SHA-256 digest of the
//! chapter's key material, under a fixed all-zero initialization
//! vector and PKCS#7 padding. The zero IV and the padding scheme are
//! contractual: they must match the existing ciphertext exactly.

use aes::cipher::block_padding::Pkcs7;
use aes::cipher::{BlockDecryptMut, BlockEncryptMut, KeyIvInit};
use sha2::Digest;
use vstd::prelude::*;
use vstd::utf8::{decode_utf8, encode_utf8, valid_utf8};

use crate::errors::DecryptError;
use crate::text::{strip_ascii_whitespace, strip_ws, utf8_to_string};

verus! {

/// What `base64::decode` yields on the given bytes: `None` exactly on
/// input that is not valid base64.
pub uninterp spec fn b64_decode_of(s: Seq<u8>) -> Option<Seq<u8>>;

/// What `base64::encode` yields on the given bytes.
pub uninterp spec fn b64_encode_of(b: Seq<u8>) -> Seq<u8>;

/// The SHA-256 digest of the given bytes.
pub uninterp spec fn sha256_of(b: Seq<u8>) -> Seq<u8>;

/// What AES-256-CBC decryption with PKCS#7 unpadding yields: `None`
/// exactly on bad padding or a length that is not a whole number of
/// blocks.
pub uninterp spec fn aes256_cbc_decrypt_of(key: Seq<u8>, iv: Seq<u8>, ct: Seq<u8>) -> Option<
    Seq<u8>,
>;

/// What AES-256-CBC encryption with PKCS#7 padding yields.
pub uninterp spec fn aes256_cbc_encrypt_of(key: Seq<u8>, iv: Seq<u8>, pt: Seq<u8>) -> Seq<u8>;

/// Relies on `base64::decode`: standard alphabet with `=` padding; the
/// result is a function of the input bytes alone.
#[verifier::external_body]
pub(crate) fn b64_decode(input: &Vec<u8>) -> (r: Option<Vec<u8>>)
    ensures
        r is Some <==> b64_decode_of(input@) is Some,
        r matches Some(v) ==> b64_decode_of(input@) == Some(v@),
{
    base64::decode(input).ok()
}

/// Relies on `base64::encode`: standard alphabet with `=` padding. Its
/// output is drawn from that ASCII alphabet, so it holds no whitespace,
/// and `base64::decode` inverts it.
#[verifier::external_body]
fn b64_encode(input: &Vec<u8>) -> (r: Vec<u8>)
    ensures
        r@ == b64_encode_of(input@),
        strip_ws(r@) == r@,
        forall|i: int| 0 <= i < r@.len() ==> r@[i] < 0x80,
        b64_decode_of(r@) == Some(input@),
{
    base64::encode(input).into_bytes()
}

/// Relies on `sha2::Sha256`: a 32-byte digest that is a function of
/// the input bytes alone.
#[verifier::external_body]
fn sha256(input: &Vec<u8>) -> (r: Vec<u8>)
    ensures
        r@ == sha256_of(input@),
        r@.len() == 32,
{
    let mut hasher = sha2::Sha256::new();
    hasher.update(input.as_slice());
    hasher.finalize().to_vec()
}

/// Relies on `cbc::Decryptor<aes::Aes256>`: AES-256-CBC decryption
/// with PKCS#7 unpadding, failing exactly on bad padding or on a
/// length that is not a whole number of blocks; the result is a
/// function of key, IV and ciphertext alone.
#[verifier::external_body]
fn aes256_cbc_decrypt(key: &Vec<u8>, iv: &Vec<u8>, ct: &Vec<u8>) -> (r: Option<Vec<u8>>)
    requires
        key@.len() == 32,
        iv@.len() == 16,
    ensures
        r is Some <==> aes256_cbc_decrypt_of(key@, iv@, ct@) is Some,
        r matches Some(v) ==> aes256_cbc_decrypt_of(key@, iv@, ct@) == Some(v@),
{
    let dec = cbc::Decryptor::<aes::Aes256>::new_from_slices(key, iv).unwrap();
    dec.decrypt_padded_vec_mut::<Pkcs7>(ct).ok()
}

/// Relies on `cbc::Encryptor<aes::Aes256>`: AES-256-CBC encryption
/// with PKCS#7 padding; CBC decryption under the same key and IV
/// inverts it.
#[verifier::external_body]
fn aes256_cbc_encrypt(key: &Vec<u8>, iv: &Vec<u8>, pt: &Vec<u8>) -> (r: Vec<u8>)
    requires
        key@.len() == 32,
        iv@.len() == 16,
    ensures
        r@ == aes256_cbc_encrypt_of(key@, iv@, pt@),
        aes256_cbc_decrypt_of(key@, iv@, r@) == Some(pt@),
{
    let enc = cbc::Encryptor::<aes::Aes256>::new_from_slices(key, iv).unwrap();
    enc.encrypt_padded_vec_mut::<Pkcs7>(pt)
}

/// The all-zero 16-byte initialization vector the scheme fixes.
pub open spec fn zero_iv() -> Seq<u8> {
    Seq::new(16, |i: int| 0u8)
}

/// What decrypting the given ciphertext bytes with the given key
/// material yields: the text on success, and otherwise which step
/// failed.
pub open spec fn decrypt_model(ct: Seq<u8>, key_material: Seq<char>) -> Result<
    Seq<char>,
    DecryptError,
> {
    match b64_decode_of(strip_ws(ct)) {
        None => Err(DecryptError::Encoding),
        Some(raw) => match aes256_cbc_decrypt_of(
            sha256_of(encode_utf8(key_material)),
            zero_iv(),
            raw,
        ) {
            None => Err(DecryptError::Cipher),
            Some(pt) => if valid_utf8(pt) {
                Ok(decode_utf8(pt))
            } else {
                Err(DecryptError::Utf8)
            },
        },
    }
}

/// What re-encrypting the given plaintext bytes with the given key
/// material yields.
pub open spec fn encrypt_model(pt: Seq<u8>, key_material: Seq<char>) -> Seq<u8> {
    b64_encode_of(aes256_cbc_encrypt_of(sha256_of(encode_utf8(key_material)), zero_iv(), pt))
}

/// Decrypts one chapter: strips ASCII whitespace, base64-decodes,
/// derives the AES-256 key as the SHA-256 digest of the key material,
/// decrypts in CBC mode under the fixed all-zero IV with PKCS#7
/// unpadding, and reads the plaintext as UTF-8. Each failing step
/// yields its own error and no text.
pub fn decrypt(ciphertext: &Vec<u8>, key_material: &str) -> (r: Result<String, DecryptError>)
    ensures
        match (r, decrypt_model(ciphertext@, key_material@)) {
            (Ok(s), Ok(t)) => s@ == t,
            (Err(e), Err(m)) => e == m,
            _ => false,
        },
{
    let stripped = strip_ascii_whitespace(ciphertext.as_slice());
    let decoded = match b64_decode(&stripped) {
        Some(v) => v,
        None => {
            return Err(DecryptError::Encoding);
        },
    };
    let key_bytes = key_material.as_bytes_vec();
    let key = sha256(&key_bytes);
    let iv: Vec<u8> = vec![0u8; 16];
    proof {
        assert(iv@ =~= zero_iv());
    }
    let plain = match aes256_cbc_decrypt(&key, &iv, &decoded) {
        Some(v) => v,
        None => {
            return Err(DecryptError::Cipher);
        },
    };
    match utf8_to_string(plain) {
        Some(s) => Ok(s),
        None => Err(DecryptError::Utf8),
    }
}

/// Re-encrypts plaintext under the matching scheme: AES-256-CBC keyed
/// by the SHA-256 digest of the key material, the fixed all-zero IV,
/// PKCS#7 padding, then base64. Decrypting the result with the same
/// key material gives back exactly the plaintext (round trip).
pub fn encrypt(plain: &str, key_material: &str) -> (r: Vec<u8>)
    ensures
        r@ == encrypt_model(encode_utf8(plain@), key_material@),
        decrypt_model(r@, key_material@) == Ok::<Seq<char>, DecryptError>(plain@),
{
    let pt = plain.as_bytes_vec();
    let key_bytes = key_material.as_bytes_vec();
    let key = sha256(&key_bytes);
    let iv: Vec<u8> = vec![0u8; 16];
    proof {
        assert(iv@ =~= zero_iv());
    }
    let ct = aes256_cbc_encrypt(&key, &iv, &pt);
    let out = b64_encode(&ct);
    proof {
        broadcast use vstd::utf8::group_utf8_lib;

        assert(valid_utf8(pt@));
        assert(decode_utf8(encode_utf8(plain@)) == plain@);
    }
    out
}

/// Decryption reads only the whitespace-stripped ciphertext: two
/// ciphertexts that agree once ASCII whitespace is removed decrypt to
/// the same result under any key material.
pub proof fn lemma_decrypt_ignores_whitespace(a: Seq<u8>, b: Seq<u8>, key_material: Seq<char>)
    requires
        strip_ws(a) == strip_ws(b),
    ensures
        decrypt_model(a, key_material) == decrypt_model(b, key_material),
{
}

/// Inserting one ASCII whitespace byte anywhere leaves the stripped
/// ciphertext unchanged.
pub proof fn lemma_strip_ws_insert(s: Seq<u8>, i: int, b: u8)
    requires
        0 <= i <= s.len(),
        crate::text::is_ascii_ws(b),
    ensures
        strip_ws(s.insert(i, b)) == strip_ws(s),
    decreases s.len(),
{
    let t = s.insert(i, b);
    if i == s.len() {
        assert(t.drop_last() =~= s);
        assert(t.last() == b);
    } else {
        assert(t.last() == s.last());
        assert(t.drop_last() =~= s.drop_last().insert(i, b));
        lemma_strip_ws_insert(s.drop_last(), i, b);
    }
}

} // verus!
