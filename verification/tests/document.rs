use collab::document::CollabDocument;

#[test]
fn test_new_document_is_empty() {
    let doc = CollabDocument::new("test-doc".into());
    assert_eq!(doc.get_content(), "");
    assert_eq!(doc.id(), "test-doc");
}

#[test]
fn test_insert_text() {
    let mut doc = CollabDocument::new("test-doc".into());
    doc.insert(0, "Hello");
    assert_eq!(doc.get_content(), "Hello");
}

#[test]
fn test_delete_text() {
    let mut doc = CollabDocument::new("test-doc".into());
    doc.insert(0, "Hello World");
    doc.delete(5, 6);
    assert_eq!(doc.get_content(), "Hello");
}

#[test]
fn test_sync_two_documents() {
    let mut doc_a = CollabDocument::new("test-doc".into());
    let mut doc_b = CollabDocument::new("test-doc".into());
    doc_a.insert(0, "Hello");
    let update = doc_a.encode_update();
    doc_b.apply_update(&update).unwrap();
    assert_eq!(doc_b.get_content(), "Hello");
}

#[test]
fn test_concurrent_edits_merge() {
    let mut doc_a = CollabDocument::new("test-doc".into());
    let mut doc_b = CollabDocument::new("test-doc".into());
    doc_a.insert(0, "Hello");
    let update_a = doc_a.encode_update();
    doc_b.apply_update(&update_a).unwrap();
    doc_a.insert(5, " World");
    doc_b.insert(5, " Rust");
    let alice_update = doc_a.encode_update();
    let bob_update = doc_b.encode_update();
    doc_a.apply_update(&bob_update).unwrap();
    doc_b.apply_update(&alice_update).unwrap();
    assert_eq!(doc_a.get_content(), doc_b.get_content());
}

#[test]
fn insert_in_the_middle_keeps_both_sides() {
    let mut doc = CollabDocument::new("d".into());
    doc.insert(0, "Helo");
    doc.insert(3, "l");
    assert_eq!(doc.get_content(), "Hello");
}

#[test]
fn garbage_update_is_a_yrs_error() {
    let mut doc = CollabDocument::new("d".into());
    let r = doc.apply_update(b"not an update");
    assert!(matches!(r, Err(collab::error::Error::Yrs(_))));
    assert_eq!(doc.get_content(), "");
}

#[test]
fn checked_insert_refuses_a_point_inside_a_character() {
    let mut doc = CollabDocument::new("d".into());
    doc.try_insert(0, "é!").unwrap();
    assert!(matches!(doc.try_insert(1, "x"), Err(collab::error::Error::InvalidState(_))));
    assert!(doc.try_insert(9, "x").is_err());
    assert_eq!(doc.get_content(), "é!");
    doc.try_insert(2, "x").unwrap();
    assert_eq!(doc.get_content(), "éx!");
}

#[test]
fn checked_delete_refuses_a_range_past_the_end_or_inside_a_character() {
    let mut doc = CollabDocument::new("d".into());
    doc.try_insert(0, "aéb").unwrap();
    assert!(doc.try_delete(1, 1).is_err());
    assert!(doc.try_delete(3, 5).is_err());
    assert!(doc.try_delete(u32::MAX, 2).is_err());
    assert_eq!(doc.get_content(), "aéb");
    doc.try_delete(1, 2).unwrap();
    assert_eq!(doc.get_content(), "ab");
}
