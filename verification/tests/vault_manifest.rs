use collab::vault_manifest::{VaultManifest, MANIFEST_DOC_ID};

#[test]
fn test_new_manifest_is_empty() {
    let m = VaultManifest::new();
    assert!(m.list_files().is_empty());
}

#[test]
fn test_add_file_appears_in_list() {
    let mut m = VaultManifest::new();
    m.add_file("notes/hello.md");
    assert!(m.contains("notes/hello.md"));
    assert_eq!(m.list_files(), vec!["notes/hello.md".to_string()]);
}

#[test]
fn test_delete_file_leaves_tombstone() {
    let mut m = VaultManifest::new();
    m.add_file("notes/hello.md");
    m.delete_file("notes/hello.md");
    assert!(!m.contains("notes/hello.md"));
    assert!(m.is_deleted("notes/hello.md"));
    assert!(m.list_files().is_empty());
}

#[test]
fn test_re_add_after_delete_resurfaces_file() {
    let mut m = VaultManifest::new();
    m.add_file("notes/hello.md");
    m.delete_file("notes/hello.md");
    m.add_file("notes/hello.md");
    assert!(m.contains("notes/hello.md"));
    assert!(!m.is_deleted("notes/hello.md"));
    assert_eq!(m.list_files(), vec!["notes/hello.md".to_string()]);
}

#[test]
fn test_rename_file() {
    let mut m = VaultManifest::new();
    m.add_file("old.md");
    m.rename_file("old.md", "new.md");
    assert!(!m.contains("old.md"));
    assert!(m.is_deleted("old.md"));
    assert!(m.contains("new.md"));
    assert_eq!(m.list_files(), vec!["new.md".to_string()]);
}

#[test]
fn test_delete_unknown_file_creates_tombstone() {
    let mut m = VaultManifest::new();
    m.delete_file("ghost.md");
    assert!(!m.contains("ghost.md"));
    assert!(m.is_deleted("ghost.md"));
}

#[test]
fn test_multiple_files() {
    let mut m = VaultManifest::new();
    m.add_file("a.md");
    m.add_file("b.md");
    m.add_file("c.md");
    m.delete_file("b.md");
    let mut files = m.list_files();
    files.sort();
    assert_eq!(files, vec!["a.md".to_string(), "c.md".to_string()]);
}

#[test]
fn test_state_vector_is_not_empty_after_mutation() {
    let mut m = VaultManifest::new();
    let sv_before = m.state_vector();
    m.add_file("notes/hello.md");
    let sv_after = m.state_vector();
    assert_ne!(sv_before, sv_after);
}

#[test]
fn test_apply_update_merges_remote_files() {
    let mut alice = VaultManifest::new();
    alice.add_file("alice.md");
    let mut bob = VaultManifest::new();
    let update = alice.encode_full_state();
    bob.apply_update(&update).unwrap();
    assert!(bob.contains("alice.md"));
}

#[test]
fn test_bidirectional_convergence() {
    let mut alice = VaultManifest::new();
    alice.add_file("alice.md");
    let mut bob = VaultManifest::new();
    bob.add_file("bob.md");
    alice.apply_update(&bob.encode_full_state()).unwrap();
    bob.apply_update(&alice.encode_full_state()).unwrap();
    let mut alice_files = alice.list_files();
    alice_files.sort();
    let mut bob_files = bob.list_files();
    bob_files.sort();
    assert_eq!(alice_files, vec!["alice.md".to_string(), "bob.md".to_string()]);
    assert_eq!(bob_files, vec!["alice.md".to_string(), "bob.md".to_string()]);
}

#[test]
fn test_concurrent_delete_and_add_last_write_wins() {
    let mut alice = VaultManifest::new();
    alice.add_file("shared.md");
    let initial_update = alice.encode_full_state();
    let mut bob = VaultManifest::new();
    bob.apply_update(&initial_update).unwrap();
    alice.delete_file("shared.md");
    bob.add_file("shared.md");
    alice.apply_update(&bob.encode_full_state()).unwrap();
    bob.apply_update(&alice.encode_full_state()).unwrap();
    assert_eq!(alice.contains("shared.md"), bob.contains("shared.md"), "Alice and Bob must converge");
}

#[test]
fn test_incremental_update_since_state_vector() {
    let mut alice = VaultManifest::new();
    alice.add_file("first.md");
    let mut bob = VaultManifest::new();
    bob.apply_update(&alice.encode_full_state()).unwrap();
    assert!(bob.contains("first.md"), "Bob should have first.md after initial sync");
    let bob_sv = bob.state_vector();
    alice.add_file("second.md");
    let delta = alice.encode_update_since(&bob_sv).unwrap();
    bob.apply_update(&delta).unwrap();
    assert!(bob.contains("first.md"), "Bob should still have first.md");
    assert!(bob.contains("second.md"), "Bob should gain second.md from the delta");
}

#[test]
fn test_manifest_doc_id_constant() {
    assert_eq!(MANIFEST_DOC_ID, "__vault_manifest__");
}

#[test]
fn malformed_update_is_rejected_and_changes_nothing() {
    let mut m = VaultManifest::default();
    m.add_file("a.md");
    assert!(m.apply_update(b"garbage").is_err());
    assert_eq!(m.list_files(), vec!["a.md".to_string()]);
}

#[test]
fn garbage_manifest_update_fails_and_changes_nothing() {
    let mut m = VaultManifest::new();
    m.add_file("a.md");
    assert!(m.apply_update(b"\xff\xff\xff not an update").is_err());
    assert_eq!(m.list_files(), vec!["a.md".to_string()]);
    assert!(m.contains("a.md"));
}
