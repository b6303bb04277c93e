use collab::capability::verify_subscribe_capability;
use collab::cli::{
    at_rest_key_from, base64_decode, base64_encode, create_invite, demo, init, join, loose_permission_bits,
    restore_state, session_result, subscribe_frame, subscribe_frame_at, CAPABILITY_TTL_SECS,
};
use collab::mls::MlsDocumentGroup;
use collab::proto::ClientMessage;

const TEST_KEY: [u8; 32] = [7u8; 32];

fn now_unix() -> u64 {
    std::time::SystemTime::now().duration_since(std::time::UNIX_EPOCH).map_or(0, |d| d.as_secs())
}

fn persisted_snapshot(doc_id: &str, user_id: &str) -> String {
    let (_result, snapshot) = init(doc_id, user_id, true, &TEST_KEY).unwrap();
    base64_encode(&snapshot.expect("init with persistence returns a snapshot"))
}

#[test]
fn test_demo_full_flow() {
    let result = demo("test-doc").unwrap();
    assert_eq!(result.alice_content, "Hello from Alice! Hi from Bob!");
    assert_eq!(result.bob_content, "Hello from Alice! Hi from Bob!");
}

#[test]
fn test_init_creates_document() {
    let (result, snapshot) = init("test-doc", "alice", false, &TEST_KEY).unwrap();
    assert_eq!(result.doc_id, "test-doc");
    assert_eq!(result.user_id, "alice");
    assert_eq!(result.message, "Created document 'test-doc' as owner. Share invites with collaborators.");
    assert!(snapshot.is_none());
}

#[test]
fn init_persists_the_owner_group() {
    let snapshot = persisted_snapshot("docA", "alice");
    let Ok(Some(restored)) = restore_state("docA", &snapshot, &TEST_KEY) else {
        panic!("a snapshot init just wrote must restore, and is not stale")
    };
    assert_eq!(restored.epoch(), 0, "a freshly created owner group is at epoch 0");
}

#[test]
fn init_snapshot_is_bound_to_the_document_it_was_created_for() {
    let snapshot = persisted_snapshot("docB", "alice");
    let Err(err) = restore_state("docA", &snapshot, &TEST_KEY) else {
        panic!("a snapshot sealed for docB must not open under docA");
    };
    assert!(err.message().contains("AEAD open failed"), "got: {}", err.message());
}

#[test]
fn init_snapshot_rejects_a_wrong_at_rest_key() {
    let snapshot = persisted_snapshot("docA", "alice");
    assert!(restore_state("docA", &snapshot, &[9u8; 32]).is_err(), "a wrong at-rest key must fail AEAD authentication");
}

#[test]
fn init_state_does_not_contain_the_at_rest_key() {
    let snapshot = persisted_snapshot("docA", "alice");
    let blob = base64_decode(&snapshot).unwrap();
    assert!(!blob.windows(TEST_KEY.len()).any(|w| w == TEST_KEY));
    assert!(!snapshot.contains(&base64_encode(&TEST_KEY)));
}

#[test]
fn load_state_restores_a_persisted_group() {
    let snapshot = persisted_snapshot("docA", "alice");
    let restored = restore_state("docA", &snapshot, &TEST_KEY).unwrap();
    assert!(restored.is_some(), "load_state must return the group init persisted");
}

#[test]
fn load_state_binds_the_callers_doc_id_not_the_files() {
    let snapshot = persisted_snapshot("docA", "alice");
    let Err(err) = restore_state("docB", &snapshot, &TEST_KEY) else {
        panic!("a snapshot sealed for docA must not open as docB")
    };
    assert!(err.message().contains("AEAD open failed"), "got: {}", err.message());
}

#[test]
fn load_state_rejects_a_wrong_at_rest_key() {
    let snapshot = persisted_snapshot("docA", "alice");
    assert!(restore_state("docA", &snapshot, &[9u8; 32]).is_err());
}

#[test]
fn load_state_reads_an_empty_snapshot_as_no_group() {
    assert!(restore_state("docA", "", &TEST_KEY).unwrap().is_none());
}

#[test]
fn a_restored_group_makes_the_listener_subscribe_content_authorized() {
    let snapshot = persisted_snapshot("docA", "alice");
    let doc = restore_state("docA", &snapshot, &TEST_KEY).unwrap().expect("init persisted a group");
    let ClientMessage::Subscribe { capability: Some(cap), doc_id } = subscribe_frame("alice", "docA", Some(&doc)).unwrap()
    else {
        panic!("a restored group must produce a capability-carrying Subscribe")
    };
    assert_eq!(doc_id, "docA");
    verify_subscribe_capability(&cap, &doc.subscribe_verifying_key().unwrap(), "alice", "docA", doc.epoch(), now_unix())
        .expect("the minted capability must verify against this group's own anchor");
}

#[test]
fn the_listeners_capability_does_not_verify_for_another_user() {
    let snapshot = persisted_snapshot("docA", "alice");
    let doc = restore_state("docA", &snapshot, &TEST_KEY).unwrap().unwrap();
    let ClientMessage::Subscribe { capability: Some(cap), .. } = subscribe_frame("alice", "docA", Some(&doc)).unwrap() else {
        panic!("expected a capability")
    };
    assert!(verify_subscribe_capability(&cap, &doc.subscribe_verifying_key().unwrap(), "eve", "docA", doc.epoch(), now_unix())
        .is_err());
}

#[test]
fn the_listeners_capability_does_not_verify_for_another_document() {
    let snapshot = persisted_snapshot("docA", "alice");
    let doc = restore_state("docA", &snapshot, &TEST_KEY).unwrap().unwrap();
    let ClientMessage::Subscribe { capability: Some(cap), .. } = subscribe_frame("alice", "docA", Some(&doc)).unwrap() else {
        panic!("expected a capability")
    };
    assert!(verify_subscribe_capability(&cap, &doc.subscribe_verifying_key().unwrap(), "alice", "docB", doc.epoch(), now_unix())
        .is_err());
}

#[test]
fn no_persisted_group_still_subscribes_handshake_only() {
    let ClientMessage::Subscribe { capability, doc_id } = subscribe_frame("alice", "docA", None).unwrap() else {
        panic!("expected a Subscribe")
    };
    assert!(capability.is_none(), "no group means no capability, not a forged one");
    assert_eq!(doc_id, "docA");
}

#[test]
fn subscribe_frame_capability_expires_after_the_ttl() {
    let snapshot = persisted_snapshot("docA", "alice");
    let d = restore_state("docA", &snapshot, &TEST_KEY).unwrap().unwrap();
    let ClientMessage::Subscribe { capability: Some(cap), .. } = subscribe_frame_at("alice", "docA", Some(&d), 1000).unwrap() else {
        panic!("expected a capability")
    };
    assert_eq!(cap.expiry_unix, 1000 + CAPABILITY_TTL_SECS);
    let ClientMessage::Subscribe { capability: Some(cap), .. } = subscribe_frame_at("alice", "docA", Some(&d), u64::MAX - 1).unwrap() else {
        panic!("expected a capability")
    };
    assert_eq!(cap.expiry_unix, u64::MAX);
}

#[test]
fn test_base64_roundtrip() {
    let original = b"Hello, World!";
    let encoded = base64_encode(original);
    let decoded = base64_decode(&encoded).unwrap();
    assert_eq!(decoded, original);
}

#[test]
fn test_base64_key_package_roundtrip() {
    let data: Vec<u8> = (0u16..500).map(|i| (i % 256) as u8).collect();
    let encoded = base64_encode(&data);
    let decoded = base64_decode(&encoded).unwrap();
    assert_eq!(decoded, data);
}

#[test]
fn base64_decode_ignores_ascii_whitespace_and_rejects_garbage() {
    assert_eq!(base64_encode(b"Hello"), "SGVsbG8=");
    assert_eq!(base64_decode(" SGVs\nbG8=\t").unwrap(), b"Hello");
    assert!(base64_decode("not base64!").is_err());
}

#[test]
fn test_keygen_creates_package() {
    let pending = MlsDocumentGroup::generate_key_package("bob").unwrap();
    let kp = pending.key_package().to_vec();
    assert!(!kp.is_empty());
    let encoded = base64_encode(&kp);
    assert_eq!(base64_decode(&encoded).unwrap(), kp);
}

#[test]
fn create_invite_names_the_document_and_leaves_the_relay_open() {
    let pending = MlsDocumentGroup::generate_key_package("bob").unwrap();
    let invite = create_invite("docA", "alice", pending.key_package()).unwrap();
    assert_eq!(invite.doc_id, "docA");
    assert_eq!(invite.epoch, 1);
    assert!(invite.relay_url.is_empty());
    assert!(!invite.welcome.is_empty());
}

#[test]
fn join_with_a_regenerated_key_package_fails_honestly() {
    let pending = MlsDocumentGroup::generate_key_package("bob").unwrap();
    let invite = create_invite("docA", "alice", pending.key_package()).unwrap();
    let err = join(&invite, "bob").err().unwrap();
    assert!(err.message().contains("Failed to join document 'docA'"));
    assert!(err.message().contains("See `collab-cli demo` for the working flow."));
}

#[test]
fn at_rest_key_requires_exactly_thirty_two_bytes() {
    assert_eq!(at_rest_key_from(&[1u8; 32]), Some([1u8; 32]));
    assert_eq!(at_rest_key_from(&[1u8; 31]), None);
    assert_eq!(at_rest_key_from(&[1u8; 33]), None);
}

#[test]
fn group_or_world_permission_bits_are_loose() {
    assert_eq!(loose_permission_bits(0o100600), 0);
    assert_eq!(loose_permission_bits(0o100644), 0o044);
    assert_eq!(loose_permission_bits(0o100700), 0);
    assert_eq!(loose_permission_bits(0o100601), 0o001);
}

#[test]
fn session_result_compares_exactly() {
    let r = session_result("d", "hello".to_string(), "hello");
    assert!(r.matched);
    let r = session_result("d", "hello".to_string(), "hello!");
    assert!(!r.matched);
    assert_eq!(r.received, "hello");
    assert_eq!(r.expected, "hello!");
}

#[test]
fn base64_encode_groups_and_pads() {
    assert_eq!(base64_encode(b"Man"), "TWFu");
    assert_eq!(base64_encode(b"Ma"), "TWE=");
    assert_eq!(base64_encode(b"M"), "TQ==");
    assert_eq!(base64_encode(b""), "");
    assert_eq!(base64_encode(&[0xFB, 0xFF, 0xBF]), "+/+/");
}
