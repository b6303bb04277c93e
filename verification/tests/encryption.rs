use collab::encryption::EncryptedDocument;
use collab::mls::MlsDocumentGroup;

#[test]
fn test_encrypted_document_sync() {
    let mut alice_doc = EncryptedDocument::create("doc1", "alice").unwrap();
    let bob_pending = MlsDocumentGroup::generate_key_package("bob").unwrap();
    let invite = alice_doc.create_invite(bob_pending.key_package()).unwrap();
    let mut bob_doc = EncryptedDocument::join(&invite, bob_pending).unwrap();
    alice_doc.insert(0, "Hello");
    let encrypted_op = alice_doc.get_encrypted_update().unwrap();
    bob_doc.apply_encrypted_update(&encrypted_op).unwrap();
    assert_eq!(bob_doc.get_content(), "Hello");
}

#[test]
fn test_encrypted_op_is_not_plaintext() {
    let mut alice_doc = EncryptedDocument::create("doc1", "alice").unwrap();
    let bob_pending = MlsDocumentGroup::generate_key_package("bob").unwrap();
    let _invite = alice_doc.create_invite(bob_pending.key_package()).unwrap();
    alice_doc.insert(0, "Secret message");
    let encrypted_op = alice_doc.get_encrypted_update().unwrap();
    assert!(
        !encrypted_op.ciphertext.windows("Secret".len()).any(|w| w == b"Secret"),
        "Ciphertext should not contain plaintext"
    );
    assert!(!encrypted_op.ciphertext.is_empty());
}

#[test]
fn test_encrypt_bytes_roundtrip() {
    let mut alice = EncryptedDocument::create("__vault_manifest__", "alice").unwrap();
    let bob_pending = MlsDocumentGroup::generate_key_package("bob").unwrap();
    let invite = alice.create_invite(bob_pending.key_package()).unwrap();
    let mut bob = EncryptedDocument::join(&invite, bob_pending).unwrap();
    let manifest = b"a fake manifest CRDT update";
    let op = alice.encrypt_bytes(manifest).unwrap();
    assert!(!op.ciphertext.windows(5).any(|w| w == b"fake"), "must be ciphertext");
    assert_eq!(bob.decrypt_bytes(&op.ciphertext).unwrap(), manifest);
}

#[test]
fn test_encrypt_bytes_rejected_by_other_group() {
    let mut file_doc = EncryptedDocument::create("shared.md", "alice").unwrap();
    let mut manifest_doc = EncryptedDocument::create("__vault_manifest__", "alice").unwrap();
    let file_op = file_doc.encrypt_bytes(b"file content").unwrap();
    assert!(manifest_doc.decrypt_bytes(&file_op.ciphertext).is_err());
    let manifest_op = manifest_doc.encrypt_bytes(b"manifest content").unwrap();
    assert!(file_doc.decrypt_bytes(&manifest_op.ciphertext).is_err());
}

#[test]
fn invite_names_the_document_and_its_epoch() {
    let mut alice_doc = EncryptedDocument::create("doc1", "alice").unwrap();
    assert_eq!(alice_doc.epoch(), 0);
    assert!(alice_doc.is_owner());
    let bob_pending = MlsDocumentGroup::generate_key_package("bob").unwrap();
    let invite = alice_doc.create_invite(bob_pending.key_package()).unwrap();
    assert_eq!(invite.doc_id, "doc1");
    assert_eq!(invite.epoch, 1);
    assert_eq!(alice_doc.epoch(), 1);
    let bob_doc = EncryptedDocument::join(&invite, bob_pending).unwrap();
    assert!(!bob_doc.is_owner());
    assert_eq!(bob_doc.get_content(), "");
}

#[test]
fn a_snapshot_opens_only_under_its_own_document() {
    let key = [5u8; 32];
    let doc = EncryptedDocument::create("docA", "alice").unwrap();
    let snapshot = doc.snapshot_encrypted(&key).unwrap();
    let restored = EncryptedDocument::restore_encrypted("docA", &snapshot, &key, 0).unwrap().unwrap();
    assert!(restored.is_owner());
    assert_eq!(restored.epoch(), 0);
    let err = EncryptedDocument::restore_encrypted("docB", &snapshot, &key, 0).err().unwrap();
    assert!(err.message().contains("AEAD open failed"));
}

#[test]
fn deleting_text_in_an_encrypted_document() {
    let mut doc = EncryptedDocument::create("d", "alice").unwrap();
    doc.insert(0, "Hello World");
    doc.delete(5, 6);
    assert_eq!(doc.get_content(), "Hello");
}

#[test]
fn encrypted_ops_carry_the_senders_epoch_and_checked_edits_refuse() {
    let mut alice_doc = EncryptedDocument::create("doc1", "alice").unwrap();
    let bob_pending = MlsDocumentGroup::generate_key_package("bob").unwrap();
    let invite = alice_doc.create_invite(bob_pending.key_package()).unwrap();
    let mut bob_doc = EncryptedDocument::join(&invite, bob_pending).unwrap();
    assert!(alice_doc.try_insert(3, "x").is_err());
    alice_doc.try_insert(0, "hey").unwrap();
    let op = alice_doc.get_encrypted_update().unwrap();
    assert_eq!(op.epoch, alice_doc.epoch());
    bob_doc.apply_encrypted_update(&op).unwrap();
    assert_eq!(bob_doc.epoch(), alice_doc.epoch());
    bob_doc.try_delete(0, 1).unwrap();
    assert_eq!(bob_doc.get_content(), "ey");
}
