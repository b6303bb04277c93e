//! Trusted interface to `aes-gcm` (AES-256-GCM) and to `getrandom`.
//!
//! Nothing here is proved. Each item states what the crates' source shows
//! of one call, over the names declared in this file.

use vstd::prelude::*;

use aes_gcm::aead::{Aead, KeyInit};

verus! {

/// The ciphertext and tag that `Aes256Gcm::encrypt` produces for
/// `plaintext` under `key` and `nonce`, authenticating the associated data
/// `aad`.
pub uninterp spec fn aes256gcm_seal(key: Seq<u8>, nonce: Seq<u8>, aad: Seq<u8>, plaintext: Seq<u8>) -> Seq<u8>;

/// What `Aes256Gcm::decrypt` gives for `ciphertext` under `key` and
/// `nonce` with the associated data `aad`: the plaintext, or `None` where
/// the tag does not authenticate.
pub uninterp spec fn aes256gcm_open(key: Seq<u8>, nonce: Seq<u8>, aad: Seq<u8>, ciphertext: Seq<u8>) -> Option<Seq<u8>>;

/// Calls `Aes256Gcm::new(key).encrypt(nonce, Payload { msg: plaintext,
/// aad })`. Claims what the crate's source shows: it fails only for a
/// plaintext or associated data over 2^36 bytes (`P_MAX`, `A_MAX`);
/// otherwise the result is the named ciphertext, 16 tag bytes longer than
/// the plaintext, and decrypting it under the same key, nonce and
/// associated data gives the plaintext back.
#[verifier::external_body]
pub(crate) fn seal(key: &[u8; 32], nonce: &[u8; 12], aad: &[u8], plaintext: &[u8]) -> (r: Option<Vec<u8>>)
    ensures
        (plaintext@.len() <= 0x10_0000_0000 && aad@.len() <= 0x10_0000_0000) == (r is Some),
        r matches Some(c) ==> c@ == aes256gcm_seal(key@, nonce@, aad@, plaintext@) && c@.len() == plaintext@.len() + 16
            && aes256gcm_open(key@, nonce@, aad@, c@) == Some(plaintext@),
{
    let cipher = aes_gcm::Aes256Gcm::new(&aes_gcm::Key::<aes_gcm::Aes256Gcm>::from(*key));
    cipher.encrypt(&aes_gcm::Nonce::from(*nonce), aes_gcm::aead::Payload { msg: plaintext, aad }).ok()
}

/// Calls `Aes256Gcm::new(key).decrypt(nonce, Payload { msg: ciphertext,
/// aad })`. Claims only that the result is the named outcome.
#[verifier::external_body]
pub(crate) fn open(key: &[u8; 32], nonce: &[u8; 12], aad: &[u8], ciphertext: &[u8]) -> (r: Option<Vec<u8>>)
    ensures
        (r is Some) == (aes256gcm_open(key@, nonce@, aad@, ciphertext@) is Some),
        r matches Some(p) ==> aes256gcm_open(key@, nonce@, aad@, ciphertext@) == Some(p@),
{
    let cipher = aes_gcm::Aes256Gcm::new(&aes_gcm::Key::<aes_gcm::Aes256Gcm>::from(*key));
    cipher.decrypt(&aes_gcm::Nonce::from(*nonce), aes_gcm::aead::Payload { msg: ciphertext, aad }).ok()
}

/// Calls `getrandom::getrandom` for 12 bytes, or gives the error's text.
/// The bytes are the operating system's randomness: nothing is claimed of
/// their value.
#[verifier::external_body]
pub(crate) fn random_nonce() -> Result<[u8; 12], String> {
    let mut nonce = [0u8; 12];
    getrandom::getrandom(&mut nonce).map_err(|e| format!("{e:?}"))?;
    Ok(nonce)
}

/// Calls `String::from_utf8`. Claims what its documentation says: it
/// succeeds exactly on valid UTF-8, and the string's bytes are the input.
#[verifier::external_body]
pub(crate) fn utf8_string(bytes: Vec<u8>) -> (r: Option<String>)
    ensures
        (r is Some) == vstd::utf8::valid_utf8(bytes@),
        r matches Some(s) ==> vstd::utf8::encode_utf8(s@) == bytes@,
{
    String::from_utf8(bytes).ok()
}

} // verus!
