use aes::cipher::block_padding::Pkcs7;
use aes::cipher::{BlockEncryptMut, KeyIvInit};
use bookdec::codec::{decrypt, encrypt};
use bookdec::errors::DecryptError;
use sha2::{Digest, Sha256};

fn reference_encrypt(plain: &[u8], key_material: &str) -> Vec<u8> {
    let key = Sha256::digest(key_material.as_bytes());
    let iv = [0u8; 16];
    let enc = cbc::Encryptor::<aes::Aes256>::new_from_slices(&key, &iv).unwrap();
    let ct = enc.encrypt_padded_vec_mut::<Pkcs7>(plain);
    base64::encode(ct).into_bytes()
}

#[test]
fn round_trip_known_plaintext() {
    let plain = "The first chapter.\n\u{4f60}\u{597d}\u{ff01}";
    let ct = encrypt(plain, "chapter key material");
    let back = decrypt(&ct, "chapter key material").unwrap();
    assert_eq!(back, plain);
}

#[test]
fn round_trip_empty_plaintext() {
    let ct = encrypt("", "k");
    assert_eq!(decrypt(&ct, "k").unwrap(), "");
}

#[test]
fn decrypt_matches_reference_scheme() {
    let ct = reference_encrypt("known text".as_bytes(), "secret");
    assert_eq!(decrypt(&ct, "secret").unwrap(), "known text");
}

#[test]
fn wrong_key_fails_with_cipher_error() {
    let ct = encrypt("some chapter text", "right key");
    let r = decrypt(&ct, "wrong key");
    assert_eq!(r, Err(DecryptError::Cipher));
}

#[test]
fn whitespace_injection_does_not_change_result() {
    let plain = "whitespace tolerant";
    let clean = encrypt(plain, "k");
    let expected = decrypt(&clean, "k").unwrap();

    let mut wrapped = Vec::new();
    for (i, b) in clean.iter().enumerate() {
        if i % 7 == 0 {
            wrapped.extend_from_slice(b"\r\n \t");
        }
        wrapped.push(*b);
    }
    wrapped.extend_from_slice(b"\x0c  \n");
    assert_eq!(decrypt(&wrapped, "k").unwrap(), expected);
}

#[test]
fn bad_base64_fails_with_encoding_error() {
    let r = decrypt(&b"!not base64!".to_vec(), "k");
    assert_eq!(r, Err(DecryptError::Encoding));
}

#[test]
fn non_utf8_plaintext_fails_with_utf8_error() {
    let ct = reference_encrypt(&[0xff, 0xfe, 0x00, 0x80], "k");
    assert_eq!(decrypt(&ct, "k"), Err(DecryptError::Utf8));
}

#[test]
fn empty_ciphertext_fails_with_cipher_error() {
    assert_eq!(decrypt(&Vec::new(), "k"), Err(DecryptError::Cipher));
    assert_eq!(decrypt(&b" \t\r\n".to_vec(), "k"), Err(DecryptError::Cipher));
}
