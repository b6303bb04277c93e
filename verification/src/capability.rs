//! Per-document subscribe authorization capabilities and anchor proofs.
//!
//! A [`SubscribeCapability`] proves current-epoch membership of a document's
//! MLS group: a member signs a canonical byte string with an `Ed25519` key
//! derived from the group's per-epoch exporter secret, and the relay verifies
//! it against the public verifying key alone. Three distinct domain labels keep
//! capability signatures, registration self-proofs and anchor-rotation proofs
//! from ever standing in for one another.

use vstd::prelude::*;

use crate::bytes::{append_bytes, append_le_u32, append_le_u64, le_u32, le_u64};
use crate::ed25519::{ed25519_key_decodes, ed25519_public_key, ed25519_signature, ed25519_strict_accepts, ed25519_zero_nonce, key_decodes, sign, verify_strict};
use crate::text::str_eq;

verus! {

broadcast use vstd::string::group_string_axioms;

/// A subscription capability naming the subscriber it authorizes.
#[derive(Debug, Clone)]
pub struct SubscribeCapability {
    /// The subscriber this capability authorizes.
    pub user_id: String,
    /// Document the capability authorizes subscription to.
    pub doc_id: String,
    /// MLS epoch the capability was minted at.
    pub epoch: u64,
    /// Expiry as seconds since the Unix epoch.
    pub expiry_unix: u64,
    /// `Ed25519` signature over the canonical capability bytes.
    pub signature: Vec<u8>,
}

/// Reasons a capability or proof is rejected, one variant per cause.
#[derive(Debug, Clone, Copy, PartialEq, Eq, Structural)]
pub enum CapabilityError {
    /// `cap.user_id` did not match the expected (presenting) user id.
    UserIdMismatch,
    /// `cap.doc_id` did not match the expected document id.
    DocIdMismatch,
    /// `cap.epoch` did not match the expected (anchor) epoch.
    EpochMismatch,
    /// The current time is past `cap.expiry_unix`.
    Expired,
    /// The verifying-key bytes are not a valid `Ed25519` public key.
    InvalidVerifyingKey,
    /// The signature is not exactly 64 bytes.
    MalformedSignature,
    /// The signature did not verify over the canonical bytes under the key.
    SignatureVerificationFailed,
}

impl CapabilityError {
    /// Human-readable description of the rejection.
    pub fn message(&self) -> (s: &'static str)
        ensures
            s@ == match *self {
                CapabilityError::UserIdMismatch => "capability user_id does not match expected user_id"@,
                CapabilityError::DocIdMismatch => "capability doc_id does not match expected doc_id"@,
                CapabilityError::EpochMismatch => "capability epoch does not match expected epoch"@,
                CapabilityError::Expired => "capability has expired"@,
                CapabilityError::InvalidVerifyingKey => "verifying key is not a valid Ed25519 public key"@,
                CapabilityError::MalformedSignature => "capability signature is not a 64-byte Ed25519 signature"@,
                CapabilityError::SignatureVerificationFailed => "Ed25519 signature verification failed"@,
            },
    {
        match self {
            CapabilityError::UserIdMismatch => "capability user_id does not match expected user_id",
            CapabilityError::DocIdMismatch => "capability doc_id does not match expected doc_id",
            CapabilityError::EpochMismatch => "capability epoch does not match expected epoch",
            CapabilityError::Expired => "capability has expired",
            CapabilityError::InvalidVerifyingKey => "verifying key is not a valid Ed25519 public key",
            CapabilityError::MalformedSignature => "capability signature is not a 64-byte Ed25519 signature",
            CapabilityError::SignatureVerificationFailed => "Ed25519 signature verification failed",
        }
    }
}

/// Domain label of capability signatures: `obsidian-ee/subscribe-capability/v1`.
pub open spec fn subscribe_label() -> Seq<u8> {
    seq![111u8, 98, 115, 105, 100, 105, 97, 110, 45, 101, 101, 47, 115, 117, 98, 115, 99, 114,
        105, 98, 101, 45, 99, 97, 112, 97, 98, 105, 108, 105, 116, 121, 47, 118, 49]
}

/// Domain label of registration self-proofs: `obsidian-ee/register-doc-key/v1`.
pub open spec fn register_label() -> Seq<u8> {
    seq![111u8, 98, 115, 105, 100, 105, 97, 110, 45, 101, 101, 47, 114, 101, 103, 105, 115, 116,
        101, 114, 45, 100, 111, 99, 45, 107, 101, 121, 47, 118, 49]
}

/// Domain label of anchor-rotation proofs: `obsidian-ee/anchor-rotation/v1`.
pub open spec fn rotate_label() -> Seq<u8> {
    seq![111u8, 98, 115, 105, 100, 105, 97, 110, 45, 101, 101, 47, 97, 110, 99, 104, 111, 114,
        45, 114, 111, 116, 97, 116, 105, 111, 110, 47, 118, 49]
}

/// `field` preceded by its byte length as a little-endian `u32`.
pub open spec fn length_prefixed(field: Seq<u8>) -> Seq<u8> {
    le_u32(field.len() as u32) + field
}

/// The bytes a capability signature covers.
pub open spec fn capability_message(user_id: Seq<char>, doc_id: Seq<char>, epoch: u64, expiry_unix: u64) -> Seq<u8> {
    subscribe_label() + length_prefixed(vstd::utf8::encode_utf8(user_id)) + length_prefixed(
        vstd::utf8::encode_utf8(doc_id),
    ) + le_u64(epoch) + le_u64(expiry_unix)
}

/// The bytes a registration self-proof covers.
pub open spec fn register_message(doc_id: Seq<char>, epoch: u64) -> Seq<u8> {
    register_label() + length_prefixed(vstd::utf8::encode_utf8(doc_id)) + le_u64(epoch)
}

/// The bytes an anchor-rotation proof covers.
pub open spec fn rotation_message(doc_id: Seq<char>, new_epoch: u64, new_public_key: Seq<u8>) -> Seq<u8> {
    rotate_label() + length_prefixed(vstd::utf8::encode_utf8(doc_id)) + le_u64(new_epoch) + new_public_key
}

/// The byte length of the UTF-8 encoding of a string fits a `u32` prefix.
pub open spec fn fits_u32_prefix(s: Seq<char>) -> bool {
    vstd::utf8::encode_utf8(s).len() <= u32::MAX
}

fn push_subscribe_label(out: &mut Vec<u8>)
    ensures
        final(out)@ == old(out)@ + subscribe_label(),
{
    let label: [u8; 35] = [111, 98, 115, 105, 100, 105, 97, 110, 45, 101, 101, 47, 115, 117, 98, 115,
        99, 114, 105, 98, 101, 45, 99, 97, 112, 97, 98, 105, 108, 105, 116, 121, 47, 118, 49];
    append_bytes(out, label.as_slice());
    assert(label@ =~= subscribe_label());
}

fn push_register_label(out: &mut Vec<u8>)
    ensures
        final(out)@ == old(out)@ + register_label(),
{
    let label: [u8; 31] = [111, 98, 115, 105, 100, 105, 97, 110, 45, 101, 101, 47, 114, 101, 103,
        105, 115, 116, 101, 114, 45, 100, 111, 99, 45, 107, 101, 121, 47, 118, 49];
    append_bytes(out, label.as_slice());
    assert(label@ =~= register_label());
}

fn push_rotate_label(out: &mut Vec<u8>)
    ensures
        final(out)@ == old(out)@ + rotate_label(),
{
    let label: [u8; 30] = [111, 98, 115, 105, 100, 105, 97, 110, 45, 101, 101, 47, 97, 110, 99,
        104, 111, 114, 45, 114, 111, 116, 97, 116, 105, 111, 110, 47, 118, 49];
    append_bytes(out, label.as_slice());
    assert(label@ =~= rotate_label());
}

/// Append `field` preceded by its length.
fn push_length_prefixed(out: &mut Vec<u8>, field: &str)
    requires
        fits_u32_prefix(field@),
    ensures
        final(out)@ == old(out)@ + length_prefixed(vstd::utf8::encode_utf8(field@)),
{
    let bytes = field.as_bytes();
    append_le_u32(out, bytes.len() as u32);
    append_bytes(out, bytes);
    assert(out@ =~= old(out)@ + length_prefixed(vstd::utf8::encode_utf8(field@)));
}

/// Canonical bytes a capability signature covers:
/// `label || len(user) || user || len(doc) || doc || epoch || expiry`, integers
/// little-endian, lengths as `u32`.
pub fn signing_bytes(user_id: &str, doc_id: &str, epoch: u64, expiry_unix: u64) -> (out: Vec<u8>)
    requires
        fits_u32_prefix(user_id@),
        fits_u32_prefix(doc_id@),
    ensures
        out@ == capability_message(user_id@, doc_id@, epoch, expiry_unix),
{
    let mut out: Vec<u8> = Vec::new();
    push_subscribe_label(&mut out);
    push_length_prefixed(&mut out, user_id);
    push_length_prefixed(&mut out, doc_id);
    append_le_u64(&mut out, epoch);
    append_le_u64(&mut out, expiry_unix);
    assert(out@ =~= capability_message(user_id@, doc_id@, epoch, expiry_unix));
    out
}

/// Canonical bytes a registration self-proof covers:
/// `label || len(doc) || doc || epoch`.
pub fn register_proof_bytes(doc_id: &str, epoch: u64) -> (out: Vec<u8>)
    requires
        fits_u32_prefix(doc_id@),
    ensures
        out@ == register_message(doc_id@, epoch),
{
    let mut out: Vec<u8> = Vec::new();
    push_register_label(&mut out);
    push_length_prefixed(&mut out, doc_id);
    append_le_u64(&mut out, epoch);
    assert(out@ =~= register_message(doc_id@, epoch));
    out
}

/// Canonical bytes an anchor-rotation proof covers:
/// `label || len(doc) || doc || new_epoch || new_public_key`.
pub fn rotation_proof_bytes(doc_id: &str, new_epoch: u64, new_public_key: &[u8; 32]) -> (out: Vec<u8>)
    requires
        fits_u32_prefix(doc_id@),
    ensures
        out@ == rotation_message(doc_id@, new_epoch, new_public_key@),
{
    let mut out: Vec<u8> = Vec::new();
    push_rotate_label(&mut out);
    push_length_prefixed(&mut out, doc_id);
    append_le_u64(&mut out, new_epoch);
    append_bytes(&mut out, new_public_key.as_slice());
    assert(out@ =~= rotation_message(doc_id@, new_epoch, new_public_key@));
    out
}

/// A copy of a 64-byte slice as an array.
fn to_signature_array(bytes: &[u8]) -> (a: [u8; 64])
    requires
        bytes@.len() == 64,
    ensures
        a@ == bytes@,
{
    let mut a: [u8; 64] = [0u8; 64];
    let mut i: usize = 0;
    while i < 64
        invariant
            bytes@.len() == 64,
            i <= 64,
            forall|j: int| 0 <= j < i ==> a@[j] == bytes@[j],
        decreases 64 - i,
    {
        a[i] = bytes[i];
        i = i + 1;
    }
    assert(a@ =~= bytes@);
    a
}

/// What [`verify_signature`] returns for `key`, `message` and `signature`.
pub open spec fn signature_check(key: Seq<u8>, message: Seq<u8>, signature: Seq<u8>) -> Result<(), CapabilityError> {
    if !ed25519_key_decodes(key) {
        Err(CapabilityError::InvalidVerifyingKey)
    } else if signature.len() != 64 {
        Err(CapabilityError::MalformedSignature)
    } else if !ed25519_strict_accepts(key, message, signature) {
        Err(CapabilityError::SignatureVerificationFailed)
    } else {
        Ok(())
    }
}

/// Check an `Ed25519` signature: the key must decode, the signature must be
/// 64 bytes, and strict verification must accept it.
pub fn verify_signature(key: &[u8; 32], message: &[u8], signature: &[u8]) -> (r: Result<(), CapabilityError>)
    ensures
        r == signature_check(key@, message@, signature@),
{
    if !key_decodes(key) {
        return Err(CapabilityError::InvalidVerifyingKey);
    }
    if signature.len() != 64 {
        return Err(CapabilityError::MalformedSignature);
    }
    let sig = to_signature_array(signature);
    if verify_strict(key, message, &sig) {
        Ok(())
    } else {
        Err(CapabilityError::SignatureVerificationFailed)
    }
}

/// The capability [`sign_subscribe_capability`] mints.
pub open spec fn minted_capability(
    seed: Seq<u8>,
    user_id: Seq<char>,
    doc_id: Seq<char>,
    epoch: u64,
    expiry_unix: u64,
    cap: SubscribeCapability,
) -> bool {
    &&& cap.user_id@ == user_id
    &&& cap.doc_id@ == doc_id
    &&& cap.epoch == epoch
    &&& cap.expiry_unix == expiry_unix
    &&& cap.signature@ == ed25519_signature(seed, capability_message(user_id, doc_id, epoch, expiry_unix))
}

/// Mint a capability naming `user_id` for `doc_id` at `epoch`, valid until
/// `expiry_unix`, signed with the key whose 32-byte secret is `signing_key`.
/// It verifies against those expectations under the verifying key of
/// `signing_key` at any time up to its expiry (unless signing drew the zero
/// nonce).
pub fn sign_subscribe_capability(
    signing_key: &[u8; 32],
    user_id: &str,
    doc_id: &str,
    epoch: u64,
    expiry_unix: u64,
) -> (cap: SubscribeCapability)
    requires
        fits_u32_prefix(user_id@),
        fits_u32_prefix(doc_id@),
    ensures
        minted_capability(signing_key@, user_id@, doc_id@, epoch, expiry_unix, cap),
        cap.signature@.len() == 64,
        !ed25519_zero_nonce(signing_key@, capability_message(user_id@, doc_id@, epoch, expiry_unix))
            ==> forall|now_unix: u64| now_unix <= expiry_unix
                ==> #[trigger] capability_check(cap, ed25519_public_key(signing_key@), user_id@, doc_id@, epoch, now_unix)
                    == Ok::<(), CapabilityError>(()),
{
    let message = signing_bytes(user_id, doc_id, epoch, expiry_unix);
    let signature = sign(signing_key, message.as_slice());
    SubscribeCapability {
        user_id: user_id.to_owned(),
        doc_id: doc_id.to_owned(),
        epoch,
        expiry_unix,
        signature,
    }
}

/// What [`verify_subscribe_capability`] returns.
pub open spec fn capability_check(
    cap: SubscribeCapability,
    key: Seq<u8>,
    expected_user_id: Seq<char>,
    expected_doc_id: Seq<char>,
    expected_epoch: u64,
    now_unix: u64,
) -> Result<(), CapabilityError> {
    if cap.user_id@ != expected_user_id {
        Err(CapabilityError::UserIdMismatch)
    } else if cap.doc_id@ != expected_doc_id {
        Err(CapabilityError::DocIdMismatch)
    } else if cap.epoch != expected_epoch {
        Err(CapabilityError::EpochMismatch)
    } else if now_unix > cap.expiry_unix {
        Err(CapabilityError::Expired)
    } else {
        signature_check(
            key,
            capability_message(cap.user_id@, cap.doc_id@, cap.epoch, cap.expiry_unix),
            cap.signature@,
        )
    }
}

/// Verify a subscription capability against locally-trusted expectations:
/// `Ok(())` iff the user id, document id and epoch match, the capability has
/// not expired, and its signature verifies under `verifying_key`.
pub fn verify_subscribe_capability(
    cap: &SubscribeCapability,
    verifying_key: &[u8; 32],
    expected_user_id: &str,
    expected_doc_id: &str,
    expected_epoch: u64,
    now_unix: u64,
) -> (r: Result<(), CapabilityError>)
    requires
        cap.user_id@ == expected_user_id@ && cap.doc_id@ == expected_doc_id@ && cap.epoch == expected_epoch
            && now_unix <= cap.expiry_unix && ed25519_key_decodes(verifying_key@) && cap.signature@.len() == 64
            ==> fits_u32_prefix(expected_user_id@) && fits_u32_prefix(expected_doc_id@),
    ensures
        r == capability_check(*cap, verifying_key@, expected_user_id@, expected_doc_id@, expected_epoch, now_unix),
{
    if !str_eq(cap.user_id.as_str(), expected_user_id) {
        return Err(CapabilityError::UserIdMismatch);
    }
    if !str_eq(cap.doc_id.as_str(), expected_doc_id) {
        return Err(CapabilityError::DocIdMismatch);
    }
    if cap.epoch != expected_epoch {
        return Err(CapabilityError::EpochMismatch);
    }
    if now_unix > cap.expiry_unix {
        return Err(CapabilityError::Expired);
    }
    if !key_decodes(verifying_key) {
        return Err(CapabilityError::InvalidVerifyingKey);
    }
    if cap.signature.len() != 64 {
        return Err(CapabilityError::MalformedSignature);
    }
    let message = signing_bytes(cap.user_id.as_str(), cap.doc_id.as_str(), cap.epoch, cap.expiry_unix);
    verify_signature(verifying_key, message.as_slice(), cap.signature.as_slice())
}

/// Sign a registration self-proof for `(doc_id, epoch)` with the key whose
/// secret is `signing_key`. The proof verifies under the verifying key of
/// `signing_key` (unless signing drew the zero nonce).
pub fn sign_doc_key_proof(signing_key: &[u8; 32], doc_id: &str, epoch: u64) -> (proof: Vec<u8>)
    requires
        fits_u32_prefix(doc_id@),
    ensures
        proof@ == ed25519_signature(signing_key@, register_message(doc_id@, epoch)),
        proof@.len() == 64,
        !ed25519_zero_nonce(signing_key@, register_message(doc_id@, epoch))
            ==> signature_check(ed25519_public_key(signing_key@), register_message(doc_id@, epoch), proof@)
                == Ok::<(), CapabilityError>(()),
{
    let message = register_proof_bytes(doc_id, epoch);
    sign(signing_key, message.as_slice())
}

/// Verify a registration self-proof under `public_key`.
pub fn verify_doc_key_proof(doc_id: &str, epoch: u64, public_key: &[u8; 32], proof: &[u8]) -> (r: Result<(), CapabilityError>)
    requires
        fits_u32_prefix(doc_id@),
    ensures
        r == signature_check(public_key@, register_message(doc_id@, epoch), proof@),
{
    let message = register_proof_bytes(doc_id, epoch);
    verify_signature(public_key, message.as_slice(), proof)
}

/// Sign an anchor-rotation proof to `(new_epoch, new_public_key)` with the
/// CURRENT anchor's secret `current_signing_key`.
pub fn sign_anchor_rotation(
    current_signing_key: &[u8; 32],
    doc_id: &str,
    new_epoch: u64,
    new_public_key: &[u8; 32],
) -> (proof: Vec<u8>)
    requires
        fits_u32_prefix(doc_id@),
    ensures
        proof@ == ed25519_signature(current_signing_key@, rotation_message(doc_id@, new_epoch, new_public_key@)),
        proof@.len() == 64,
        !ed25519_zero_nonce(current_signing_key@, rotation_message(doc_id@, new_epoch, new_public_key@))
            ==> signature_check(
                ed25519_public_key(current_signing_key@),
                rotation_message(doc_id@, new_epoch, new_public_key@),
                proof@,
            ) == Ok::<(), CapabilityError>(()),
{
    let message = rotation_proof_bytes(doc_id, new_epoch, new_public_key);
    sign(current_signing_key, message.as_slice())
}

/// Verify an anchor-rotation proof under the CURRENT anchor key.
pub fn verify_anchor_rotation(
    doc_id: &str,
    new_epoch: u64,
    new_public_key: &[u8; 32],
    current_verifying_key: &[u8; 32],
    proof: &[u8],
) -> (r: Result<(), CapabilityError>)
    requires
        fits_u32_prefix(doc_id@),
    ensures
        r == signature_check(current_verifying_key@, rotation_message(doc_id@, new_epoch, new_public_key@), proof@),
{
    let message = rotation_proof_bytes(doc_id, new_epoch, new_public_key);
    verify_signature(current_verifying_key, message.as_slice(), proof)
}

/// `p` is a prefix of `s`.
pub open spec fn starts_with(s: Seq<u8>, p: Seq<u8>) -> bool {
    p.len() <= s.len() && s.subrange(0, p.len() as int) == p
}

proof fn lemma_starts_with_extend(s: Seq<u8>, p: Seq<u8>, t: Seq<u8>)
    requires
        starts_with(s, p),
    ensures
        starts_with(s + t, p),
{
    assert((s + t).subrange(0, p.len() as int) =~= s.subrange(0, p.len() as int));
}

proof fn lemma_starts_with_self(p: Seq<u8>)
    ensures
        starts_with(p, p),
{
    assert(p.subrange(0, p.len() as int) =~= p);
}

/// Every capability message begins with the capability label.
pub proof fn lemma_capability_message_label(user_id: Seq<char>, doc_id: Seq<char>, epoch: u64, expiry_unix: u64)
    ensures
        starts_with(capability_message(user_id, doc_id, epoch, expiry_unix), subscribe_label()),
{
    let l = subscribe_label();
    let b = vstd::utf8::encode_utf8(user_id);
    let c = vstd::utf8::encode_utf8(doc_id);
    lemma_starts_with_self(l);
    lemma_starts_with_extend(l, l, length_prefixed(b));
    lemma_starts_with_extend(l + length_prefixed(b), l, length_prefixed(c));
    lemma_starts_with_extend(l + length_prefixed(b) + length_prefixed(c), l, le_u64(epoch));
    lemma_starts_with_extend(l + length_prefixed(b) + length_prefixed(c) + le_u64(epoch), l, le_u64(expiry_unix));
}

/// Every registration message begins with the registration label.
pub proof fn lemma_register_message_label(doc_id: Seq<char>, epoch: u64)
    ensures
        starts_with(register_message(doc_id, epoch), register_label()),
{
    let l = register_label();
    let c = vstd::utf8::encode_utf8(doc_id);
    lemma_starts_with_self(l);
    lemma_starts_with_extend(l, l, length_prefixed(c));
    lemma_starts_with_extend(l + length_prefixed(c), l, le_u64(epoch));
}

/// Every rotation message begins with the rotation label.
pub proof fn lemma_rotation_message_label(doc_id: Seq<char>, new_epoch: u64, new_public_key: Seq<u8>)
    ensures
        starts_with(rotation_message(doc_id, new_epoch, new_public_key), rotate_label()),
{
    let l = rotate_label();
    let c = vstd::utf8::encode_utf8(doc_id);
    lemma_starts_with_self(l);
    lemma_starts_with_extend(l, l, length_prefixed(c));
    lemma_starts_with_extend(l + length_prefixed(c), l, le_u64(new_epoch));
    lemma_starts_with_extend(l + length_prefixed(c) + le_u64(new_epoch), l, new_public_key);
}

/// Law (domain separation): a capability message, a registration message and
/// a rotation message are never the same bytes, whatever their fields, so a
/// signature over one can never be presented as a signature over another.
pub proof fn lemma_signed_messages_are_domain_separated(
    user_id: Seq<char>,
    doc_id: Seq<char>,
    epoch: u64,
    expiry_unix: u64,
    register_doc: Seq<char>,
    register_epoch: u64,
    rotation_doc: Seq<char>,
    rotation_epoch: u64,
    rotation_key: Seq<u8>,
)
    ensures
        capability_message(user_id, doc_id, epoch, expiry_unix) != register_message(register_doc, register_epoch),
        capability_message(user_id, doc_id, epoch, expiry_unix) != rotation_message(rotation_doc, rotation_epoch, rotation_key),
        register_message(register_doc, register_epoch) != rotation_message(rotation_doc, rotation_epoch, rotation_key),
{
    let c = capability_message(user_id, doc_id, epoch, expiry_unix);
    let g = register_message(register_doc, register_epoch);
    let r = rotation_message(rotation_doc, rotation_epoch, rotation_key);
    lemma_capability_message_label(user_id, doc_id, epoch, expiry_unix);
    lemma_register_message_label(register_doc, register_epoch);
    lemma_rotation_message_label(rotation_doc, rotation_epoch, rotation_key);
    assert(c.subrange(0, 35)[12] == 115u8);
    assert(g.subrange(0, 31)[12] == 114u8);
    assert(r.subrange(0, 30)[12] == 97u8);
}

/// A length-prefixed field followed by more bytes determines the field.
proof fn lemma_length_prefixed_split(f1: Seq<u8>, rest1: Seq<u8>, f2: Seq<u8>, rest2: Seq<u8>)
    requires
        f1.len() <= u32::MAX,
        f2.len() <= u32::MAX,
        length_prefixed(f1) + rest1 == length_prefixed(f2) + rest2,
    ensures
        f1 == f2,
        rest1 == rest2,
{
    let a1 = le_u32(f1.len() as u32);
    let a2 = le_u32(f2.len() as u32);
    assert(length_prefixed(f1) + rest1 =~= a1 + (f1 + rest1));
    assert(length_prefixed(f2) + rest2 =~= a2 + (f2 + rest2));
    crate::bytes::lemma_split_concat(a1, f1 + rest1, a2, f2 + rest2);
    crate::bytes::lemma_le_u32_injective(f1.len() as u32, f2.len() as u32);
    crate::bytes::lemma_split_concat(f1, rest1, f2, rest2);
}

/// The byte-level form of [`capability_message`].
pub open spec fn capability_fields(user: Seq<u8>, doc: Seq<u8>, epoch: u64, expiry_unix: u64) -> Seq<u8> {
    subscribe_label() + length_prefixed(user) + length_prefixed(doc) + le_u64(epoch) + le_u64(expiry_unix)
}

proof fn lemma_fields_reassociate(b: Seq<u8>, c: Seq<u8>, e: u64, x: u64)
    ensures
        capability_fields(b, c, e, x) == subscribe_label() + (length_prefixed(b) + (length_prefixed(c) + (le_u64(e) + le_u64(x)))),
{
    let l = subscribe_label();
    let pb = length_prefixed(b);
    let pc = length_prefixed(c);
    let ue = le_u64(e);
    let ux = le_u64(x);
    crate::bytes::lemma_concat_assoc(l + pb + pc, ue, ux);
    crate::bytes::lemma_concat_assoc(l + pb, pc, ue + ux);
    crate::bytes::lemma_concat_assoc(l, pb, pc + (ue + ux));
}

#[verifier::spinoff_prover]
#[verifier::rlimit(50)]
proof fn lemma_capability_fields_injective(
    b1: Seq<u8>,
    c1: Seq<u8>,
    e1: u64,
    x1: u64,
    b2: Seq<u8>,
    c2: Seq<u8>,
    e2: u64,
    x2: u64,
)
    requires
        b1.len() <= u32::MAX,
        c1.len() <= u32::MAX,
        b2.len() <= u32::MAX,
        c2.len() <= u32::MAX,
        capability_fields(b1, c1, e1, x1) == capability_fields(b2, c2, e2, x2),
    ensures
        b1 == b2,
        c1 == c2,
        e1 == e2,
        x1 == x2,
{
    let r1 = length_prefixed(b1) + (length_prefixed(c1) + (le_u64(e1) + le_u64(x1)));
    let r2 = length_prefixed(b2) + (length_prefixed(c2) + (le_u64(e2) + le_u64(x2)));
    lemma_fields_reassociate(b1, c1, e1, x1);
    lemma_fields_reassociate(b2, c2, e2, x2);
    crate::bytes::lemma_split_concat(subscribe_label(), r1, subscribe_label(), r2);
    lemma_length_prefixed_split(b1, length_prefixed(c1) + (le_u64(e1) + le_u64(x1)), b2, length_prefixed(c2) + (le_u64(e2) + le_u64(x2)));
    lemma_length_prefixed_split(c1, le_u64(e1) + le_u64(x1), c2, le_u64(e2) + le_u64(x2));
    crate::bytes::lemma_split_concat(le_u64(e1), le_u64(x1), le_u64(e2), le_u64(x2));
    crate::bytes::lemma_le_u64_injective(e1, e2);
    crate::bytes::lemma_le_u64_injective(x1, x2);
}

/// Law (unambiguous encoding): equal capability messages come from equal
/// fields, so no `(user_id, doc_id, epoch, expiry)` can be re-read as another.
pub proof fn lemma_capability_message_injective(
    u1: Seq<char>,
    d1: Seq<char>,
    e1: u64,
    x1: u64,
    u2: Seq<char>,
    d2: Seq<char>,
    e2: u64,
    x2: u64,
)
    requires
        fits_u32_prefix(u1),
        fits_u32_prefix(d1),
        fits_u32_prefix(u2),
        fits_u32_prefix(d2),
        capability_message(u1, d1, e1, x1) == capability_message(u2, d2, e2, x2),
    ensures
        u1 == u2,
        d1 == d2,
        e1 == e2,
        x1 == x2,
{
    let b1 = vstd::utf8::encode_utf8(u1);
    let b2 = vstd::utf8::encode_utf8(u2);
    let c1 = vstd::utf8::encode_utf8(d1);
    let c2 = vstd::utf8::encode_utf8(d2);
    assert(capability_message(u1, d1, e1, x1) == capability_fields(b1, c1, e1, x1));
    assert(capability_message(u2, d2, e2, x2) == capability_fields(b2, c2, e2, x2));
    lemma_capability_fields_injective(b1, c1, e1, x1, b2, c2, e2, x2);
    crate::text::lemma_utf8_injective(u1, u2);
    crate::text::lemma_utf8_injective(d1, d2);
}

/// A capability is bound to the subscriber it names: presented for anyone
/// else it is rejected, whatever its other fields.
pub proof fn lemma_capability_bound_to_user(cap: SubscribeCapability, key: Seq<u8>, user_id: Seq<char>, doc_id: Seq<char>, epoch: u64, now_unix: u64)
    requires
        cap.user_id@ != user_id,
    ensures
        capability_check(cap, key, user_id, doc_id, epoch, now_unix) == Err::<(), CapabilityError>(CapabilityError::UserIdMismatch),
{
}

/// A capability is bound to its document and epoch: for the right
/// subscriber, another document is rejected, and so is any epoch but the
/// anchor's, so rotating the anchor retires every earlier capability.
pub proof fn lemma_capability_bound_to_document_and_epoch(
    cap: SubscribeCapability,
    key: Seq<u8>,
    user_id: Seq<char>,
    doc_id: Seq<char>,
    epoch: u64,
    now_unix: u64,
)
    requires
        cap.user_id@ == user_id,
    ensures
        cap.doc_id@ != doc_id ==> capability_check(cap, key, user_id, doc_id, epoch, now_unix) == Err::<(), CapabilityError>(CapabilityError::DocIdMismatch),
        cap.doc_id@ == doc_id && cap.epoch != epoch ==> capability_check(cap, key, user_id, doc_id, epoch, now_unix)
            == Err::<(), CapabilityError>(CapabilityError::EpochMismatch),
{
}

/// A capability expires: once the time is past its expiry it is rejected,
/// and at its expiry it is still judged by its signature.
pub proof fn lemma_capability_expires(cap: SubscribeCapability, key: Seq<u8>, now_unix: u64)
    ensures
        now_unix > cap.expiry_unix ==> capability_check(cap, key, cap.user_id@, cap.doc_id@, cap.epoch, now_unix)
            == Err::<(), CapabilityError>(CapabilityError::Expired),
        now_unix <= cap.expiry_unix ==> capability_check(cap, key, cap.user_id@, cap.doc_id@, cap.epoch, now_unix) == signature_check(
            key,
            capability_message(cap.user_id@, cap.doc_id@, cap.epoch, cap.expiry_unix),
            cap.signature@,
        ),
{
}

} // verus!
