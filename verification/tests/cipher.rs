//! Tests of the authenticated storage cipher.

use saltpass::crypto::{CipherError, StorageCipher};

#[test]
fn test_encrypt_decrypt_round_trip() {
    let data = b"some catalog text";
    let blob = StorageCipher::encrypt("hunter2", data).unwrap();
    let back = StorageCipher::decrypt("hunter2", &blob).unwrap();
    assert_eq!(back, data.to_vec());
}

#[test]
fn test_wrong_password_fails() {
    let data = b"some catalog text";
    let blob = StorageCipher::encrypt("password-a", data).unwrap();
    let r = StorageCipher::decrypt("password-b", &blob);
    assert_eq!(r, Err(CipherError::AuthFailed));
}

#[test]
fn test_decrypt_rejects_bad_base64() {
    let r = StorageCipher::decrypt("pw", "this is not base64!!");
    assert_eq!(r, Err(CipherError::DecodeFailed));
}

#[test]
fn test_decrypt_rejects_short_blob() {
    // "AAAA" decodes to three bytes, fewer than one nonce.
    let r = StorageCipher::decrypt("pw", "AAAA");
    assert_eq!(r, Err(CipherError::TooShort));
}

#[test]
fn test_fresh_nonce_every_call() {
    let data = b"identical plaintext";
    let blob1 = StorageCipher::encrypt("pw", data).unwrap();
    let blob2 = StorageCipher::encrypt("pw", data).unwrap();
    assert_ne!(blob1, blob2, "encryption must not be deterministic");
}

#[test]
fn test_tampered_blob_fails_authentication() {
    let data = b"do not touch";
    let blob = StorageCipher::encrypt("pw", data).unwrap();
    // Replace one character with a different alphabet character so the text
    // still decodes, but the bytes changed.
    let mut chars: Vec<char> = blob.chars().collect();
    let victim = chars.len() / 2;
    chars[victim] = if chars[victim] == 'A' { 'B' } else { 'A' };
    let tampered: String = chars.into_iter().collect();
    let r = StorageCipher::decrypt("pw", &tampered);
    assert!(r.is_err());
}

#[test]
fn test_empty_plaintext_round_trip() {
    let blob = StorageCipher::encrypt("pw", b"").unwrap();
    let back = StorageCipher::decrypt("pw", &blob).unwrap();
    assert!(back.is_empty());
}
