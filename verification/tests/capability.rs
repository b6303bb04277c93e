use collab::capability::{
    register_proof_bytes, rotation_proof_bytes, sign_anchor_rotation, sign_doc_key_proof, sign_subscribe_capability,
    signing_bytes, verify_anchor_rotation, verify_doc_key_proof, verify_subscribe_capability, CapabilityError,
};
use ed25519_dalek::SigningKey;

const USER_A: &str = "alice";
const USER_B: &str = "bob";
const DOC_A: &str = "notes/alpha.md";
const DOC_B: &str = "notes/beta.md";
const EPOCH: u64 = 7;
const EXPIRY: u64 = 1_000;

fn key(seed: u8) -> [u8; 32] {
    [seed; 32]
}

fn vk_bytes(k: &[u8; 32]) -> [u8; 32] {
    SigningKey::from_bytes(k).verifying_key().to_bytes()
}

#[test]
fn round_trip_verifies_ok() {
    let signer = key(1);
    let cap = sign_subscribe_capability(&signer, USER_A, DOC_A, EPOCH, EXPIRY);
    let result = verify_subscribe_capability(&cap, &vk_bytes(&signer), USER_A, DOC_A, EPOCH, EXPIRY - 1);
    assert_eq!(result, Ok(()));
}

#[test]
fn now_equal_to_expiry_is_ok() {
    let signer = key(1);
    let cap = sign_subscribe_capability(&signer, USER_A, DOC_A, EPOCH, EXPIRY);
    assert_eq!(verify_subscribe_capability(&cap, &vk_bytes(&signer), USER_A, DOC_A, EPOCH, EXPIRY), Ok(()));
}

#[test]
fn wrong_expected_user_id_rejected() {
    let signer = key(1);
    let cap = sign_subscribe_capability(&signer, USER_A, DOC_A, EPOCH, EXPIRY);
    assert_eq!(
        verify_subscribe_capability(&cap, &vk_bytes(&signer), USER_B, DOC_A, EPOCH, EXPIRY - 1),
        Err(CapabilityError::UserIdMismatch)
    );
}

#[test]
fn tampered_user_id_field_rejected() {
    let signer = key(1);
    let mut cap = sign_subscribe_capability(&signer, USER_A, DOC_A, EPOCH, EXPIRY);
    cap.user_id = USER_B.to_owned();
    assert_eq!(
        verify_subscribe_capability(&cap, &vk_bytes(&signer), USER_B, DOC_A, EPOCH, EXPIRY - 1),
        Err(CapabilityError::SignatureVerificationFailed)
    );
}

#[test]
fn wrong_verifying_key_rejected() {
    let signer = key(1);
    let other = key(2);
    let cap = sign_subscribe_capability(&signer, USER_A, DOC_A, EPOCH, EXPIRY);
    assert_eq!(
        verify_subscribe_capability(&cap, &vk_bytes(&other), USER_A, DOC_A, EPOCH, EXPIRY - 1),
        Err(CapabilityError::SignatureVerificationFailed)
    );
}

#[test]
fn wrong_expected_doc_id_rejected() {
    let signer = key(1);
    let cap = sign_subscribe_capability(&signer, USER_A, DOC_A, EPOCH, EXPIRY);
    assert_eq!(
        verify_subscribe_capability(&cap, &vk_bytes(&signer), USER_A, DOC_B, EPOCH, EXPIRY - 1),
        Err(CapabilityError::DocIdMismatch)
    );
}

#[test]
fn wrong_expected_epoch_rejected() {
    let signer = key(1);
    let cap = sign_subscribe_capability(&signer, USER_A, DOC_A, EPOCH, EXPIRY);
    assert_eq!(
        verify_subscribe_capability(&cap, &vk_bytes(&signer), USER_A, DOC_A, EPOCH + 1, EXPIRY - 1),
        Err(CapabilityError::EpochMismatch)
    );
}

#[test]
fn expired_rejected() {
    let signer = key(1);
    let cap = sign_subscribe_capability(&signer, USER_A, DOC_A, EPOCH, EXPIRY);
    assert_eq!(
        verify_subscribe_capability(&cap, &vk_bytes(&signer), USER_A, DOC_A, EPOCH, EXPIRY + 1),
        Err(CapabilityError::Expired)
    );
}

#[test]
fn flipped_signature_byte_rejected() {
    let signer = key(1);
    let mut cap = sign_subscribe_capability(&signer, USER_A, DOC_A, EPOCH, EXPIRY);
    cap.signature[0] ^= 0x01;
    assert_eq!(
        verify_subscribe_capability(&cap, &vk_bytes(&signer), USER_A, DOC_A, EPOCH, EXPIRY - 1),
        Err(CapabilityError::SignatureVerificationFailed)
    );
}

#[test]
fn cross_doc_replay_rejected() {
    let signer = key(1);
    let mut cap = sign_subscribe_capability(&signer, USER_A, DOC_A, EPOCH, EXPIRY);
    cap.doc_id = DOC_B.to_owned();
    assert_eq!(
        verify_subscribe_capability(&cap, &vk_bytes(&signer), USER_A, DOC_B, EPOCH, EXPIRY - 1),
        Err(CapabilityError::SignatureVerificationFailed)
    );
}

#[test]
fn malformed_signature_length_rejected() {
    let signer = key(1);
    let mut cap = sign_subscribe_capability(&signer, USER_A, DOC_A, EPOCH, EXPIRY);
    cap.signature.truncate(10);
    assert_eq!(
        verify_subscribe_capability(&cap, &vk_bytes(&signer), USER_A, DOC_A, EPOCH, EXPIRY - 1),
        Err(CapabilityError::MalformedSignature)
    );
}

#[test]
fn invalid_verifying_key_rejected() {
    let signer = key(1);
    let cap = sign_subscribe_capability(&signer, USER_A, DOC_A, EPOCH, EXPIRY);
    let mut bad = [0xffu8; 32];
    bad[31] = 0x7f;
    let r = verify_subscribe_capability(&cap, &bad, USER_A, DOC_A, EPOCH, EXPIRY - 1);
    assert!(r == Err(CapabilityError::InvalidVerifyingKey) || r == Err(CapabilityError::SignatureVerificationFailed));
}

#[test]
fn doc_key_proof_round_trip_ok() {
    let signer = key(1);
    let proof = sign_doc_key_proof(&signer, DOC_A, EPOCH);
    assert_eq!(verify_doc_key_proof(DOC_A, EPOCH, &vk_bytes(&signer), &proof), Ok(()));
}

#[test]
fn doc_key_proof_wrong_key_rejected() {
    let signer = key(1);
    let other = key(2);
    let proof = sign_doc_key_proof(&signer, DOC_A, EPOCH);
    assert_eq!(
        verify_doc_key_proof(DOC_A, EPOCH, &vk_bytes(&other), &proof),
        Err(CapabilityError::SignatureVerificationFailed)
    );
}

#[test]
fn doc_key_proof_wrong_epoch_rejected() {
    let signer = key(1);
    let proof = sign_doc_key_proof(&signer, DOC_A, EPOCH);
    assert_eq!(
        verify_doc_key_proof(DOC_A, EPOCH + 1, &vk_bytes(&signer), &proof),
        Err(CapabilityError::SignatureVerificationFailed)
    );
}

#[test]
fn doc_key_proof_wrong_doc_rejected() {
    let signer = key(1);
    let proof = sign_doc_key_proof(&signer, DOC_A, EPOCH);
    assert_eq!(
        verify_doc_key_proof(DOC_B, EPOCH, &vk_bytes(&signer), &proof),
        Err(CapabilityError::SignatureVerificationFailed)
    );
}

#[test]
fn doc_key_proof_malformed_length_rejected() {
    let signer = key(1);
    let mut proof = sign_doc_key_proof(&signer, DOC_A, EPOCH);
    proof.truncate(10);
    assert_eq!(verify_doc_key_proof(DOC_A, EPOCH, &vk_bytes(&signer), &proof), Err(CapabilityError::MalformedSignature));
}

#[test]
fn capability_signature_is_not_a_valid_register_proof() {
    let signer = key(1);
    let cap = sign_subscribe_capability(&signer, USER_A, DOC_A, EPOCH, EXPIRY);
    assert_eq!(
        verify_doc_key_proof(DOC_A, EPOCH, &vk_bytes(&signer), &cap.signature),
        Err(CapabilityError::SignatureVerificationFailed)
    );
}

#[test]
fn anchor_rotation_round_trip_ok() {
    let current = key(1);
    let new_key = vk_bytes(&key(2));
    let proof = sign_anchor_rotation(&current, DOC_A, EPOCH + 1, &new_key);
    assert_eq!(verify_anchor_rotation(DOC_A, EPOCH + 1, &new_key, &vk_bytes(&current), &proof), Ok(()));
}

#[test]
fn anchor_rotation_wrong_current_key_rejected() {
    let current = key(1);
    let attacker = key(9);
    let new_key = vk_bytes(&key(2));
    let proof = sign_anchor_rotation(&attacker, DOC_A, EPOCH + 1, &new_key);
    assert_eq!(
        verify_anchor_rotation(DOC_A, EPOCH + 1, &new_key, &vk_bytes(&current), &proof),
        Err(CapabilityError::SignatureVerificationFailed)
    );
}

#[test]
fn anchor_rotation_tampered_new_epoch_rejected() {
    let current = key(1);
    let new_key = vk_bytes(&key(2));
    let proof = sign_anchor_rotation(&current, DOC_A, EPOCH + 1, &new_key);
    assert_eq!(
        verify_anchor_rotation(DOC_A, EPOCH + 2, &new_key, &vk_bytes(&current), &proof),
        Err(CapabilityError::SignatureVerificationFailed)
    );
}

#[test]
fn anchor_rotation_tampered_new_key_rejected() {
    let current = key(1);
    let key_a = vk_bytes(&key(2));
    let key_b = vk_bytes(&key(3));
    let proof = sign_anchor_rotation(&current, DOC_A, EPOCH + 1, &key_a);
    assert_eq!(
        verify_anchor_rotation(DOC_A, EPOCH + 1, &key_b, &vk_bytes(&current), &proof),
        Err(CapabilityError::SignatureVerificationFailed)
    );
}

#[test]
fn anchor_rotation_malformed_length_rejected() {
    let current = key(1);
    let new_key = vk_bytes(&key(2));
    let mut proof = sign_anchor_rotation(&current, DOC_A, EPOCH + 1, &new_key);
    proof.truncate(10);
    assert_eq!(
        verify_anchor_rotation(DOC_A, EPOCH + 1, &new_key, &vk_bytes(&current), &proof),
        Err(CapabilityError::MalformedSignature)
    );
}

#[test]
fn register_proof_is_not_a_valid_rotation_proof() {
    let current = key(1);
    let new_key = vk_bytes(&key(2));
    let self_proof = sign_doc_key_proof(&current, DOC_A, EPOCH + 1);
    assert_eq!(
        verify_anchor_rotation(DOC_A, EPOCH + 1, &new_key, &vk_bytes(&current), &self_proof),
        Err(CapabilityError::SignatureVerificationFailed)
    );
}

#[test]
fn signing_bytes_layout() {
    let b = signing_bytes("ab", "c", 1, 2);
    let mut expected = b"obsidian-ee/subscribe-capability/v1".to_vec();
    expected.extend_from_slice(&[2, 0, 0, 0, b'a', b'b', 1, 0, 0, 0, b'c']);
    expected.extend_from_slice(&1u64.to_le_bytes());
    expected.extend_from_slice(&2u64.to_le_bytes());
    assert_eq!(b, expected);
    let r = register_proof_bytes("c", 9);
    let mut expected = b"obsidian-ee/register-doc-key/v1".to_vec();
    expected.extend_from_slice(&[1, 0, 0, 0, b'c']);
    expected.extend_from_slice(&9u64.to_le_bytes());
    assert_eq!(r, expected);
    let k = [3u8; 32];
    let t = rotation_proof_bytes("c", 9, &k);
    let mut expected = b"obsidian-ee/anchor-rotation/v1".to_vec();
    expected.extend_from_slice(&[1, 0, 0, 0, b'c']);
    expected.extend_from_slice(&9u64.to_le_bytes());
    expected.extend_from_slice(&k);
    assert_eq!(t, expected);
}

#[test]
fn capability_error_messages() {
    assert_eq!(CapabilityError::Expired.message(), "capability has expired");
    assert_eq!(CapabilityError::EpochMismatch.message(), "capability epoch does not match expected epoch");
}
