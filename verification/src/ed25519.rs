//! Trusted interface to `ed25519-dalek`.
//!
//! Nothing here is proved: each item below states what the library's
//! documentation and source show of one `ed25519-dalek` function, over the
//! names declared in this file.

use ed25519_dalek::Signer;
use vstd::prelude::*;

verus! {

/// The 64-byte RFC 8032 signature that `SigningKey::sign` produces for
/// `message` under the signing key whose 32-byte secret is `seed`.
pub uninterp spec fn ed25519_signature(seed: Seq<u8>, message: Seq<u8>) -> Seq<u8>;

/// The 32-byte compressed verifying key that `SigningKey::verifying_key`
/// derives from the 32-byte secret `seed`.
pub uninterp spec fn ed25519_public_key(seed: Seq<u8>) -> Seq<u8>;

/// Whether `VerifyingKey::from_bytes` accepts `key` (the bytes decompress to a
/// curve point).
pub uninterp spec fn ed25519_key_decodes(key: Seq<u8>) -> bool;

/// Whether `VerifyingKey::verify_strict` accepts `signature` over `message`
/// under the verifying key decoded from `key`.
pub uninterp spec fn ed25519_strict_accepts(key: Seq<u8>, message: Seq<u8>, signature: Seq<u8>) -> bool;

/// `key` decodes to a verifying key under which `verify_strict` accepts
/// `signature` over `message`.
pub open spec fn ed25519_verifies(key: Seq<u8>, message: Seq<u8>, signature: Seq<u8>) -> bool {
    ed25519_key_decodes(key) && ed25519_strict_accepts(key, message, signature)
}

/// Whether signing `message` under the 32-byte secret `seed` draws the nonce
/// scalar zero: SHA-512 of the key's hash prefix and the message, reduced
/// modulo the group order, is 0. The signature's `R` is then the identity
/// point, which `verify_strict` rejects as a point of small order.
pub uninterp spec fn ed25519_zero_nonce(seed: Seq<u8>, message: Seq<u8>) -> bool;

/// Calls `SigningKey::from_bytes(seed)` and `Signer::sign`. Claims that the
/// result is the 64 bytes of the signature, a function of `seed` and
/// `message` alone (Ed25519 signing is deterministic), and what the source
/// of `raw_sign` and `verify_strict` shows: the verifying key of `seed`
/// decodes and is not of small order (its clamped scalar is a nonzero
/// multiple of 8 below the group order's multiples), the signature's `s` is
/// reduced, and `R = r B` is recomputed by verification, so strict
/// verification under that key accepts the signature unless the nonce `r`
/// is zero.
#[verifier::external_body]
pub(crate) fn sign(seed: &[u8; 32], message: &[u8]) -> (signature: Vec<u8>)
    ensures
        signature@ == ed25519_signature(seed@, message@),
        signature@.len() == 64,
        !ed25519_zero_nonce(seed@, message@) ==> ed25519_verifies(ed25519_public_key(seed@), message@, signature@),
{
    ed25519_dalek::SigningKey::from_bytes(seed).sign(message).to_bytes().to_vec()
}

/// Calls `SigningKey::from_bytes(seed).verifying_key().to_bytes()`. Claims
/// that the result is the named verifying key of `seed`, and that it decodes:
/// it is the compression of a curve point, which `VerifyingKey::from_bytes`
/// decompresses again.
#[verifier::external_body]
pub(crate) fn public_key(seed: &[u8; 32]) -> (key: [u8; 32])
    ensures
        key@ == ed25519_public_key(seed@),
        ed25519_key_decodes(key@),
{
    ed25519_dalek::SigningKey::from_bytes(seed).verifying_key().to_bytes()
}

/// Calls `VerifyingKey::from_bytes(key)`. Claims only that the result says
/// whether that call succeeds.
#[verifier::external_body]
pub(crate) fn key_decodes(key: &[u8; 32]) -> (ok: bool)
    ensures
        ok == ed25519_key_decodes(key@),
{
    ed25519_dalek::VerifyingKey::from_bytes(key).is_ok()
}

/// Calls `VerifyingKey::from_bytes(key)`, `Signature::from_bytes` and
/// `VerifyingKey::verify_strict`. Claims only that the result says whether
/// the strict verification accepts; the caller has checked that the key
/// decodes, so that call cannot fail here.
#[verifier::external_body]
pub(crate) fn verify_strict(key: &[u8; 32], message: &[u8], signature: &[u8; 64]) -> (ok: bool)
    requires
        ed25519_key_decodes(key@),
    ensures
        ok == ed25519_strict_accepts(key@, message@, signature@),
{
    match ed25519_dalek::VerifyingKey::from_bytes(key) {
        Ok(k) => k.verify_strict(message, &ed25519_dalek::Signature::from_bytes(signature)).is_ok(),
        Err(_) => false,
    }
}

} // verus!
