use aes_gcm::aead::{Aead, KeyInit};
use aes_gcm::{Aes256Gcm, Key, Nonce};
use collab::mls::MlsDocumentGroup;
use collab::persistence::{encode_snapshot_plaintext, MAX_STORAGE_ENTRIES, SNAPSHOT_VERSION};

const KEY: [u8; 32] = [7u8; 32];
const NONCE_LEN: usize = 12;

fn two_member_group() -> (MlsDocumentGroup, MlsDocumentGroup) {
    let (mut alice, _) = MlsDocumentGroup::create("alice").unwrap();
    let bob_pending = MlsDocumentGroup::generate_key_package("bob").unwrap();
    let bob_kp = bob_pending.key_package().to_vec();
    let (_commit, welcome) = alice.add_member(&bob_kp).unwrap();
    let bob = bob_pending.join(&welcome).unwrap();
    assert_eq!(alice.epoch(), 1);
    assert_eq!(bob.epoch(), 1);
    (alice, bob)
}

fn new_cipher(key: &[u8; 32]) -> Aes256Gcm {
    Aes256Gcm::new(&Key::<Aes256Gcm>::from(*key))
}

fn contains_window(haystack: &[u8], needle: &[u8]) -> bool {
    !needle.is_empty() && haystack.windows(needle.len()).any(|w| w == needle)
}

fn seal_with_key(plaintext: &[u8], key: &[u8; 32]) -> Vec<u8> {
    let nonce_bytes = [0u8; NONCE_LEN];
    let ciphertext = new_cipher(key).encrypt(&Nonce::from(nonce_bytes), plaintext).unwrap();
    let mut out = nonce_bytes.to_vec();
    out.extend_from_slice(&ciphertext);
    out
}

fn put_bytes(out: &mut Vec<u8>, bytes: &[u8]) {
    out.extend_from_slice(&(bytes.len() as u32).to_le_bytes());
    out.extend_from_slice(bytes);
}

const ED25519: u16 = 0x0807;

#[test]
fn test_restore_resumes_session_and_round_trips_with_untouched_member() {
    let (mut alice, mut bob) = two_member_group();
    let hello = alice.encrypt(b"hello").unwrap();
    assert_eq!(bob.decrypt(&hello).unwrap(), b"hello");
    let snapshot = alice.snapshot_encrypted(&KEY).unwrap();
    drop(alice);
    let mut alice2 = MlsDocumentGroup::restore_encrypted(&snapshot, &KEY, 0).unwrap().unwrap();
    assert_eq!(alice2.epoch(), 1, "epoch preserved across restore");
    assert_eq!(alice2.user_id(), "alice");
    assert!(alice2.is_owner());
    let ct = alice2.encrypt(b"after restore").unwrap();
    assert_eq!(bob.decrypt(&ct).unwrap(), b"after restore");
    let ct2 = bob.encrypt(b"reply").unwrap();
    assert_eq!(alice2.decrypt(&ct2).unwrap(), b"reply");
}

#[test]
fn test_epoch_preserved_across_advance() {
    let (mut alice, _bob) = two_member_group();
    let carol = MlsDocumentGroup::generate_key_package("carol").unwrap();
    let (_c, _w) = alice.add_member(carol.key_package()).unwrap();
    assert_eq!(alice.epoch(), 2);
    let snapshot = alice.snapshot_encrypted(&KEY).unwrap();
    let restored = MlsDocumentGroup::restore_encrypted(&snapshot, &KEY, 0).unwrap().unwrap();
    assert_eq!(restored.epoch(), 2);
}

#[test]
fn test_wrong_key_is_rejected() {
    let (alice, _bob) = two_member_group();
    let snapshot = alice.snapshot_encrypted(&KEY).unwrap();
    let wrong = [9u8; 32];
    let result = MlsDocumentGroup::restore_encrypted(&snapshot, &wrong, 0);
    assert!(result.is_err(), "wrong key must be Err, not a partial group");
}

#[test]
fn test_all_zeros_key_rejected_on_snapshot() {
    let (alice, _bob) = two_member_group();
    let zeros = [0u8; 32];
    assert!(alice.snapshot_encrypted(&zeros).is_err(), "all-zeros snapshot must be Err");
}

#[test]
fn test_all_zeros_key_rejected_on_restore() {
    let (alice, _bob) = two_member_group();
    let real = alice.snapshot_encrypted(&KEY).unwrap();
    let nonce: [u8; NONCE_LEN] = real[..NONCE_LEN].try_into().unwrap();
    let plaintext = new_cipher(&KEY).decrypt(&Nonce::from(nonce), &real[NONCE_LEN..]).unwrap();
    let zeros = [0u8; 32];
    let blob = seal_with_key(&plaintext, &zeros);
    assert!(MlsDocumentGroup::restore_encrypted(&blob, &zeros, 0).is_err(), "all-zeros restore must be Err via the guard");
}

#[test]
fn test_stale_epoch_returns_none() {
    let (alice, _bob) = two_member_group();
    let snapshot = alice.snapshot_encrypted(&KEY).unwrap();
    let restored = MlsDocumentGroup::restore_encrypted(&snapshot, &KEY, 5).unwrap();
    assert!(restored.is_none(), "epoch 1 snapshot with min_epoch 5 must be Ok(None)");
}

#[test]
fn test_random_bytes_rejected() {
    let garbage = vec![0xABu8; 200];
    assert!(MlsDocumentGroup::restore_encrypted(&garbage, &KEY, 0).is_err());
}

#[test]
fn test_one_byte_blob_rejected() {
    assert!(MlsDocumentGroup::restore_encrypted(&[1u8], &KEY, 0).is_err());
}

#[test]
fn test_empty_blob_rejected() {
    assert!(MlsDocumentGroup::restore_encrypted(&[], &KEY, 0).is_err());
}

#[test]
fn test_flipped_version_rejected() {
    let (alice, _bob) = two_member_group();
    let snapshot = alice.snapshot_encrypted(&KEY).unwrap();
    let cipher = new_cipher(&KEY);
    let nonce_bytes: [u8; NONCE_LEN] = snapshot[..NONCE_LEN].try_into().unwrap();
    let nonce = Nonce::from(nonce_bytes);
    let mut pt = cipher.decrypt(&nonce, &snapshot[NONCE_LEN..]).unwrap();
    pt[0] = 0xFF;
    let resealed = cipher.encrypt(&nonce, pt.as_ref()).unwrap();
    let mut blob = nonce_bytes.to_vec();
    blob.extend_from_slice(&resealed);
    let result = MlsDocumentGroup::restore_encrypted(&blob, &KEY, 0);
    assert!(result.is_err());
    assert_eq!(result.err().unwrap().message(), "Encryption error: corrupt snapshot: unsupported version 255");
}

#[test]
fn test_snapshot_does_not_leak_plaintext() {
    const NEEDLE: &[u8] = b"NEEDLE-USERID-abc123";
    let (mut alice, _) = MlsDocumentGroup::create("NEEDLE-USERID-abc123").unwrap();
    let bob = MlsDocumentGroup::generate_key_package("bob").unwrap();
    alice.add_member(bob.key_package()).unwrap();
    let snapshot = alice.snapshot_encrypted(&KEY).unwrap();
    assert!(!contains_window(&snapshot, NEEDLE), "sealed snapshot must not contain the user_id in the clear");
}

#[test]
fn test_corrupt_inner_storage_rejected() {
    let mut plaintext = Vec::new();
    plaintext.push(SNAPSHOT_VERSION);
    put_bytes(&mut plaintext, b"group-id");
    put_bytes(&mut plaintext, b"alice");
    plaintext.extend_from_slice(&ED25519.to_le_bytes());
    put_bytes(&mut plaintext, b"pubkey");
    plaintext.extend_from_slice(&0u64.to_le_bytes());
    plaintext.extend_from_slice(&3u64.to_le_bytes());
    let blob = seal_with_key(&plaintext, &KEY);
    let Err(err) = MlsDocumentGroup::restore_encrypted(&blob, &KEY, 0) else {
        panic!("corrupt inner storage encoding must be Err (not panic/OOM)");
    };
    assert!(err.message().contains("unexpected end"), "got: {}", err.message());
}

#[test]
fn test_storage_count_over_cap_rejected() {
    let mut plaintext = Vec::new();
    plaintext.push(SNAPSHOT_VERSION);
    put_bytes(&mut plaintext, b"group-id");
    put_bytes(&mut plaintext, b"alice");
    plaintext.extend_from_slice(&ED25519.to_le_bytes());
    put_bytes(&mut plaintext, b"pubkey");
    plaintext.extend_from_slice(&0u64.to_le_bytes());
    plaintext.extend_from_slice(&(MAX_STORAGE_ENTRIES + 1).to_le_bytes());
    let blob = seal_with_key(&plaintext, &KEY);
    let Err(err) = MlsDocumentGroup::restore_encrypted(&blob, &KEY, 0) else {
        panic!("over-cap storage count must be Err (not OOM/hang)");
    };
    assert!(err.message().contains("exceeds cap"), "got: {}", err.message());
    assert_eq!(err.message(), "Encryption error: corrupt snapshot: storage entry count 100001 exceeds cap 100000");
}

#[test]
fn unknown_signature_scheme_is_rejected_before_the_epoch_check() {
    let mut plaintext = Vec::new();
    plaintext.push(SNAPSHOT_VERSION);
    put_bytes(&mut plaintext, b"group-id");
    put_bytes(&mut plaintext, b"alice");
    plaintext.extend_from_slice(&1234u16.to_le_bytes());
    let blob = seal_with_key(&plaintext, &KEY);
    let err = MlsDocumentGroup::restore_encrypted(&blob, &KEY, 0).err().unwrap();
    assert_eq!(err.message(), "Encryption error: corrupt snapshot: Unsupported SignatureScheme: 1234");
}

#[test]
fn stale_header_is_reported_before_the_storage_is_read() {
    let mut plaintext = Vec::new();
    plaintext.push(SNAPSHOT_VERSION);
    put_bytes(&mut plaintext, b"group-id");
    put_bytes(&mut plaintext, b"alice");
    plaintext.extend_from_slice(&ED25519.to_le_bytes());
    put_bytes(&mut plaintext, b"pubkey");
    plaintext.extend_from_slice(&3u64.to_le_bytes());
    let blob = seal_with_key(&plaintext, &KEY);
    assert!(MlsDocumentGroup::restore_encrypted(&blob, &KEY, 4).unwrap().is_none());
}

#[test]
fn short_blob_has_no_nonce() {
    let err = MlsDocumentGroup::restore_encrypted(&[1, 2, 3], &KEY, 0).err().unwrap();
    assert_eq!(err.message(), "Encryption error: corrupt snapshot: no nonce");
}

#[test]
fn wrong_key_reports_the_aead_failure() {
    let blob = seal_with_key(b"anything", &KEY);
    let err = MlsDocumentGroup::restore_encrypted(&blob, &[3u8; 32], 0).err().unwrap();
    assert_eq!(err.message(), "Encryption error: AEAD open failed (wrong key or corrupt)");
}

#[test]
fn snapshot_plaintext_layout_is_little_endian_and_length_prefixed() {
    let entries = vec![(b"k".to_vec(), b"vv".to_vec())];
    let pt = encode_snapshot_plaintext(b"g", "u", 0x0807, b"pk", 0x0102, &entries);
    let mut expected = vec![1u8];
    expected.extend_from_slice(&[1, 0, 0, 0, b'g']);
    expected.extend_from_slice(&[1, 0, 0, 0, b'u']);
    expected.extend_from_slice(&[0x07, 0x08]);
    expected.extend_from_slice(&[2, 0, 0, 0, b'p', b'k']);
    expected.extend_from_slice(&0x0102u64.to_le_bytes());
    expected.extend_from_slice(&1u64.to_le_bytes());
    expected.extend_from_slice(&1u64.to_le_bytes());
    expected.push(b'k');
    expected.extend_from_slice(&2u64.to_le_bytes());
    expected.extend_from_slice(b"vv");
    assert_eq!(pt, expected);
}

#[test]
fn test_storage_entry_length_overflow_rejected() {
    let mut plaintext = Vec::new();
    plaintext.push(SNAPSHOT_VERSION);
    put_bytes(&mut plaintext, b"group-id");
    put_bytes(&mut plaintext, b"alice");
    plaintext.extend_from_slice(&ED25519.to_le_bytes());
    put_bytes(&mut plaintext, b"pubkey");
    plaintext.extend_from_slice(&0u64.to_le_bytes());
    plaintext.extend_from_slice(&1u64.to_le_bytes());
    plaintext.extend_from_slice(&u64::MAX.to_le_bytes());
    let blob = seal_with_key(&plaintext, &KEY);
    let Err(err) = MlsDocumentGroup::restore_encrypted(&blob, &KEY, 0) else {
        panic!("a key length that overflows the read offset must be Err");
    };
    assert_eq!(err.message(), "Encryption error: corrupt snapshot: length overflow");
}
