use collab::capability::{verify_subscribe_capability, CapabilityError};
use collab::error::Error;
use collab::mls::{commit_policy, member_leaf, MlsDocumentGroup};

#[test]
fn test_create_group() {
    let (group, key_package) = MlsDocumentGroup::create("alice").unwrap();
    assert!(!key_package.is_empty());
    assert!(key_package.len() > 100, "Key package should be substantial MLS data");
    assert!(key_package.iter().any(|&b| b != 0), "Key package should not be all zeros");
    assert_eq!(group.epoch(), 0);
    assert_eq!(group.user_id(), "alice");
}

#[test]
fn test_join_group() {
    let (mut alice, _alice_kp) = MlsDocumentGroup::create("alice").unwrap();
    let bob_pending = MlsDocumentGroup::generate_key_package("bob").unwrap();
    let bob_kp = bob_pending.key_package().to_vec();
    let (commit, welcome) = alice.add_member(&bob_kp).unwrap();
    assert!(!commit.is_empty());
    assert!(commit.iter().any(|&b| b != 0), "Commit should not be all zeros");
    assert!(!welcome.is_empty());
    assert!(welcome.iter().any(|&b| b != 0), "Welcome should not be all zeros");
    let bob = bob_pending.join(&welcome).unwrap();
    assert_eq!(bob.user_id(), "bob");
    assert_eq!(alice.epoch(), 1);
    assert_eq!(bob.epoch(), 1);
}

#[test]
fn test_encrypt_decrypt() {
    let (mut alice, _) = MlsDocumentGroup::create("alice").unwrap();
    let bob_pending = MlsDocumentGroup::generate_key_package("bob").unwrap();
    let bob_kp = bob_pending.key_package().to_vec();
    let (_commit, welcome) = alice.add_member(&bob_kp).unwrap();
    let mut bob = bob_pending.join(&welcome).unwrap();
    let plaintext = b"Hello, encrypted world!";
    let ciphertext = alice.encrypt(plaintext).unwrap();
    assert!(!ciphertext.windows(plaintext.len()).any(|w| w == plaintext), "Ciphertext should not contain plaintext");
    let decrypted = bob.decrypt(&ciphertext).unwrap();
    assert_eq!(decrypted, plaintext);
}

#[test]
fn test_replay_is_rejected() {
    let (mut alice, _) = MlsDocumentGroup::create("alice").unwrap();
    let bob_pending = MlsDocumentGroup::generate_key_package("bob").unwrap();
    let bob_kp = bob_pending.key_package().to_vec();
    let (_commit, welcome) = alice.add_member(&bob_kp).unwrap();
    let mut bob = bob_pending.join(&welcome).unwrap();
    let ciphertext = alice.encrypt(b"replay me").unwrap();
    assert_eq!(bob.decrypt(&ciphertext).unwrap(), b"replay me");
    let err = bob.decrypt(&ciphertext).unwrap_err();
    assert!(matches!(err, Error::Replay), "expected Error::Replay on replay, got {err:?}");
}

#[test]
fn test_out_of_order_within_window_is_accepted() {
    let (mut alice, _) = MlsDocumentGroup::create("alice").unwrap();
    let bob_pending = MlsDocumentGroup::generate_key_package("bob").unwrap();
    let bob_kp = bob_pending.key_package().to_vec();
    let (_commit, welcome) = alice.add_member(&bob_kp).unwrap();
    let mut bob = bob_pending.join(&welcome).unwrap();
    let m1 = alice.encrypt(b"message-one").unwrap();
    let m2 = alice.encrypt(b"message-two").unwrap();
    assert_eq!(bob.decrypt(&m2).unwrap(), b"message-two");
    assert_eq!(bob.decrypt(&m1).unwrap(), b"message-one");
}

#[test]
fn test_cannot_decrypt_without_key() {
    let (mut alice, _) = MlsDocumentGroup::create("alice").unwrap();
    let bob_pending = MlsDocumentGroup::generate_key_package("bob").unwrap();
    let bob_kp = bob_pending.key_package().to_vec();
    let (_commit, welcome) = alice.add_member(&bob_kp).unwrap();
    let mut bob = bob_pending.join(&welcome).unwrap();
    let plaintext = b"Secret message";
    let ciphertext = alice.encrypt(plaintext).unwrap();
    let (mut carol, _) = MlsDocumentGroup::create("carol").unwrap();
    let result = carol.decrypt(&ciphertext);
    assert!(result.is_err(), "Non-member should not be able to decrypt");
    let decrypted = bob.decrypt(&ciphertext).unwrap();
    assert_eq!(decrypted, plaintext);
}

fn two_member_group() -> (MlsDocumentGroup, MlsDocumentGroup) {
    let (mut alice, _) = MlsDocumentGroup::create("alice").unwrap();
    let bob_pending = MlsDocumentGroup::generate_key_package("bob").unwrap();
    let bob_kp = bob_pending.key_package().to_vec();
    let (_commit, welcome) = alice.add_member(&bob_kp).unwrap();
    let bob = bob_pending.join(&welcome).unwrap();
    assert_eq!(alice.epoch(), 1);
    assert_eq!(bob.epoch(), 1);
    (alice, bob)
}

const DOC_A: &str = "notes/alpha.md";
const NOW: u64 = 1_000;
const TTL: u64 = 300;

#[test]
fn mint_then_verify_round_trip_ok() {
    let (alice, _bob) = two_member_group();
    let cap = alice.mint_subscribe_capability("alice", DOC_A, NOW, TTL).unwrap();
    assert_eq!(
        verify_subscribe_capability(&cap, &alice.subscribe_verifying_key().unwrap(), "alice", DOC_A, alice.epoch(), NOW),
        Ok(())
    );
    assert_eq!(cap.expiry_unix, NOW + TTL);
}

#[test]
fn group_members_share_the_same_subscribe_key() {
    let (alice, bob) = two_member_group();
    assert_eq!(
        alice.subscribe_verifying_key().unwrap(),
        bob.subscribe_verifying_key().unwrap(),
        "co-members at the same epoch must derive the same capability key"
    );
    let cap = alice.mint_subscribe_capability("alice", DOC_A, NOW, TTL).unwrap();
    assert_eq!(
        verify_subscribe_capability(&cap, &bob.subscribe_verifying_key().unwrap(), "alice", DOC_A, bob.epoch(), NOW),
        Ok(())
    );
}

#[test]
fn non_member_key_rejects_capability() {
    let (alice, _bob) = two_member_group();
    let (carol, _) = MlsDocumentGroup::create("carol").unwrap();
    assert_ne!(
        alice.subscribe_verifying_key().unwrap(),
        carol.subscribe_verifying_key().unwrap(),
        "a non-member must not share the capability key"
    );
    let cap = alice.mint_subscribe_capability("alice", DOC_A, NOW, TTL).unwrap();
    assert_eq!(
        verify_subscribe_capability(&cap, &carol.subscribe_verifying_key().unwrap(), "alice", DOC_A, alice.epoch(), NOW),
        Err(CapabilityError::SignatureVerificationFailed)
    );
}

#[test]
fn epoch_change_rotates_key_and_invalidates_old_capability() {
    let (mut alice, _bob) = two_member_group();
    let key_before = alice.subscribe_verifying_key().unwrap();
    let cap_old = alice.mint_subscribe_capability("alice", DOC_A, NOW, TTL).unwrap();
    assert_eq!(cap_old.epoch, 1);
    let carol_pending = MlsDocumentGroup::generate_key_package("carol").unwrap();
    let carol_kp = carol_pending.key_package().to_vec();
    let (_commit, _welcome) = alice.add_member(&carol_kp).unwrap();
    assert_eq!(alice.epoch(), 2);
    let key_after = alice.subscribe_verifying_key().unwrap();
    assert_ne!(key_before, key_after, "epoch change must rotate the capability key");
    assert_eq!(
        verify_subscribe_capability(&cap_old, &key_after, "alice", DOC_A, alice.epoch(), NOW),
        Err(CapabilityError::EpochMismatch)
    );
}

fn three_member_group() -> (MlsDocumentGroup, MlsDocumentGroup, MlsDocumentGroup) {
    let (mut alice, _) = MlsDocumentGroup::create("alice").unwrap();
    let bob_pending = MlsDocumentGroup::generate_key_package("bob").unwrap();
    let (_c, welcome) = alice.add_member(bob_pending.key_package()).unwrap();
    let mut bob = bob_pending.join(&welcome).unwrap();
    let carol_pending = MlsDocumentGroup::generate_key_package("carol").unwrap();
    let (commit, welcome) = alice.add_member(carol_pending.key_package()).unwrap();
    bob.process_commit(&commit).unwrap();
    let carol = carol_pending.join(&welcome).unwrap();
    assert_eq!(alice.epoch(), 2);
    assert_eq!(bob.epoch(), 2);
    assert_eq!(carol.epoch(), 2);
    (alice, bob, carol)
}

#[test]
fn owner_flag_reflects_creator() {
    let (alice, bob, carol) = three_member_group();
    assert!(alice.is_owner(), "creator must be the owner");
    assert!(!bob.is_owner(), "a joiner must not be the owner");
    assert!(!carol.is_owner(), "a joiner must not be the owner");
}

#[test]
fn owner_removes_member_advances_epoch_and_rekeys() {
    let (mut alice, mut bob, _carol) = three_member_group();
    let commit = alice.remove_member("carol").unwrap();
    bob.process_commit(&commit).unwrap();
    assert_eq!(alice.epoch(), 3, "owner's epoch advances after removal");
    assert_eq!(bob.epoch(), 3, "remaining member's epoch advances after removal");
    let msg = b"post-removal secret";
    let ct = alice.encrypt(msg).unwrap();
    assert_eq!(bob.decrypt(&ct).unwrap(), msg);
}

#[test]
fn removed_member_cannot_decrypt_post_removal() {
    let (mut alice, mut bob, mut carol) = three_member_group();
    let commit = alice.remove_member("carol").unwrap();
    bob.process_commit(&commit).unwrap();
    let _ = carol.process_commit(&commit);
    let msg = b"members-only after removal";
    let ct = alice.encrypt(msg).unwrap();
    assert_eq!(bob.decrypt(&ct).unwrap(), msg);
    let carol_result = carol.decrypt(&ct);
    assert!(carol_result.is_err(), "removed member must not decrypt a post-removal message, got {carol_result:?}");
}

#[test]
fn non_owner_cannot_mint_removal() {
    let (_alice, mut bob, _carol) = three_member_group();
    let result = bob.remove_member("carol");
    assert!(result.is_err(), "a non-owner must not be able to remove a member");
    assert_eq!(result.unwrap_err(), Error::Mls("only the group owner may remove members".to_string()));
}

#[test]
fn removed_member_subscribe_capability_dies_after_removal() {
    let (mut alice, mut bob, mut carol) = three_member_group();
    let key_before = alice.subscribe_verifying_key().unwrap();
    let carol_cap = carol.mint_subscribe_capability("carol", DOC_A, NOW, TTL).unwrap();
    assert_eq!(carol_cap.epoch, 2);
    let commit = alice.remove_member("carol").unwrap();
    bob.process_commit(&commit).unwrap();
    let _ = carol.process_commit(&commit);
    let key_after = alice.subscribe_verifying_key().unwrap();
    assert_ne!(key_before, key_after, "removal must rotate the subscribe anchor key");
    let new_epoch = alice.epoch();
    assert_eq!(
        verify_subscribe_capability(&carol_cap, &key_after, "carol", DOC_A, new_epoch, NOW),
        Err(CapabilityError::EpochMismatch),
        "a removed member's stale-epoch capability must not verify against the new anchor"
    );
    let bob_cap = bob.mint_subscribe_capability("bob", DOC_A, NOW, TTL).unwrap();
    assert_eq!(
        verify_subscribe_capability(&bob_cap, &key_after, "bob", DOC_A, new_epoch, NOW),
        Ok(()),
        "a remaining member's new-epoch capability must verify"
    );
}

#[test]
fn test_bidirectional_encryption() {
    let (mut alice, _) = MlsDocumentGroup::create("alice").unwrap();
    let bob_pending = MlsDocumentGroup::generate_key_package("bob").unwrap();
    let bob_kp = bob_pending.key_package().to_vec();
    let (_commit, welcome) = alice.add_member(&bob_kp).unwrap();
    let mut bob = bob_pending.join(&welcome).unwrap();
    let msg1 = b"Hello Bob!";
    let ciphertext1 = alice.encrypt(msg1).unwrap();
    assert_eq!(bob.decrypt(&ciphertext1).unwrap(), msg1);
    let msg2 = b"Hello Alice!";
    let ciphertext2 = bob.encrypt(msg2).unwrap();
    assert_eq!(alice.decrypt(&ciphertext2).unwrap(), msg2);
}

#[test]
fn owner_cannot_remove_themselves() {
    let (mut alice, _bob) = two_member_group();
    assert_eq!(alice.remove_member("alice"), Err(Error::Mls("the owner cannot be removed".to_string())));
    assert_eq!(alice.epoch(), 1);
}

#[test]
fn removing_an_unknown_member_names_it() {
    let (mut alice, _bob) = two_member_group();
    assert_eq!(alice.remove_member("mallory"), Err(Error::Mls("mallory is not a member".to_string())));
}

#[test]
fn joiner_learns_the_owner_from_leaf_zero() {
    let (alice, bob) = two_member_group();
    assert!(alice.is_owner());
    assert!(!bob.is_owner());
}

#[test]
fn a_garbage_welcome_is_refused() {
    let pending = MlsDocumentGroup::generate_key_package("bob").unwrap();
    assert_eq!(pending.user_id(), "bob");
    let r = pending.join(b"not a welcome");
    assert!(matches!(r, Err(Error::Mls(m)) if m.starts_with("Failed to deserialize welcome: ")));
}

#[test]
fn a_commit_where_an_application_message_was_expected_is_refused() {
    let (mut alice, _) = MlsDocumentGroup::create("alice").unwrap();
    let bob_pending = MlsDocumentGroup::generate_key_package("bob").unwrap();
    let (_c, welcome) = alice.add_member(bob_pending.key_package()).unwrap();
    let mut bob = bob_pending.join(&welcome).unwrap();
    let carol_pending = MlsDocumentGroup::generate_key_package("carol").unwrap();
    let (commit, _welcome) = alice.add_member(carol_pending.key_package()).unwrap();
    assert_eq!(bob.decrypt(&commit), Err(Error::Mls("Unexpected commit message".to_string())));
}

#[test]
fn commit_policy_rejects_a_removal_by_a_non_owner() {
    assert_eq!(
        commit_policy(&[2], "bob", "alice"),
        Err(Error::Mls("removal commit from a non-owner is rejected".to_string()))
    );
}

#[test]
fn commit_policy_rejects_removing_the_owner_leaf() {
    assert_eq!(
        commit_policy(&[2, 0], "alice", "alice"),
        Err(Error::Mls("commit removes the group owner; rejected".to_string()))
    );
}

#[test]
fn commit_policy_accepts_adds_and_owner_removals() {
    assert_eq!(commit_policy(&[], "bob", "alice"), Ok(()));
    assert_eq!(commit_policy(&[1, 2], "alice", "alice"), Ok(()));
}

#[test]
fn member_leaf_finds_the_first_match_and_fails_on_a_bad_credential() {
    let members = vec![(0u32, Ok("alice".to_string())), (1, Ok("bob".to_string())), (2, Ok("bob".to_string()))];
    assert_eq!(member_leaf(&members, "bob"), Ok(Some(1)));
    assert_eq!(member_leaf(&members, "carol"), Ok(None));
    let bad = vec![(0u32, Ok("alice".to_string())), (1, Err((1u8, "bad utf8".to_string())))];
    assert_eq!(member_leaf(&bad, "alice"), Err((1u8, "bad utf8".to_string())));
}
