use collab::registry::{DocumentRegistry, RegistryError};

fn now_nanos() -> u64 {
    std::time::SystemTime::now().duration_since(std::time::UNIX_EPOCH).unwrap().as_nanos() as u64
}

#[test]
fn test_empty_registry_has_no_documents() {
    let registry = DocumentRegistry::new();
    assert!(registry.list().is_empty());
}

#[test]
fn test_create_and_get_document() {
    let mut registry = DocumentRegistry::new();
    let doc = registry.create("doc-1").expect("should create document");
    doc.insert(0, "Hello");
    let retrieved = registry.get("doc-1").expect("should get document");
    assert_eq!(retrieved.id(), "doc-1");
    assert_eq!(retrieved.get_content(), "Hello");
}

#[test]
fn registry_test_multiple_documents() {
    let mut registry = DocumentRegistry::new();
    registry.create("doc-1").unwrap();
    registry.create("doc-2").unwrap();
    registry.create("doc-3").unwrap();
    assert!(registry.get("doc-1").is_some());
    assert!(registry.get("doc-2").is_some());
    assert!(registry.get("doc-3").is_some());
    assert!(registry.get("doc-4").is_none());
}

#[test]
fn test_list_document_ids() {
    let mut registry = DocumentRegistry::new();
    registry.create("doc-a").unwrap();
    registry.create("doc-b").unwrap();
    let ids = registry.list();
    assert_eq!(ids.len(), 2);
    let id_strings: Vec<&str> = ids.iter().map(|s| s.as_str()).collect();
    assert!(id_strings.contains(&"doc-a"));
    assert!(id_strings.contains(&"doc-b"));
}

#[test]
fn test_close_document() {
    let mut registry = DocumentRegistry::new();
    registry.create("doc-1").unwrap().insert(0, "Hello");
    let closed = registry.close("doc-1").expect("should close document");
    assert_eq!(closed.get_content(), "Hello");
    assert!(registry.get("doc-1").is_none());
}

#[test]
fn test_get_closed_returns_none() {
    let mut registry = DocumentRegistry::new();
    registry.create("doc-1").unwrap();
    registry.close("doc-1");
    assert!(registry.get("doc-1").is_none());
    assert!(registry.get_mut("doc-1").is_none());
}

#[test]
fn test_open_with_state() {
    let mut registry = DocumentRegistry::new();
    registry.create("doc-1").unwrap().insert(0, "Hello World");
    let state = registry.get("doc-1").unwrap().encode_state();
    registry.close("doc-1");
    let doc = registry.open("doc-1", &state).expect("should open with state");
    assert_eq!(doc.get_content(), "Hello World");
}

#[test]
fn test_duplicate_create_returns_error() {
    let mut registry = DocumentRegistry::new();
    registry.create("doc-1").unwrap();
    let result = registry.create("doc-1");
    assert!(matches!(result, Err(RegistryError::AlreadyExists(_))));
}

#[test]
fn test_metadata_has_created_at() {
    let mut registry = DocumentRegistry::new();
    let before = now_nanos();
    registry.create("doc-1").unwrap();
    let after = now_nanos();
    let metadata = registry.get_metadata("doc-1").expect("should have metadata");
    assert!(metadata.created_at() >= before);
    assert!(metadata.created_at() <= after);
}

#[test]
fn test_metadata_has_last_modified() {
    let mut registry = DocumentRegistry::new();
    let before = now_nanos();
    registry.create("doc-1").unwrap();
    let after = now_nanos();
    let metadata = registry.get_metadata("doc-1").expect("should have metadata");
    assert!(metadata.last_modified() >= before);
    assert!(metadata.last_modified() <= after);
}

#[test]
fn test_last_modified_updates_on_edit() {
    let mut registry = DocumentRegistry::new();
    registry.create("doc-1").unwrap();
    let initial_modified = registry.get_metadata("doc-1").unwrap().last_modified();
    let wait_until = initial_modified + 10_000_000;
    while now_nanos() <= wait_until {}
    registry.touch("doc-1").unwrap();
    let updated_modified = registry.get_metadata("doc-1").unwrap().last_modified();
    assert!(updated_modified > initial_modified);
}

#[test]
fn test_custom_metadata() {
    let mut registry = DocumentRegistry::new();
    registry.create("doc-1").unwrap();
    registry.set_custom_metadata("doc-1", "author", "Alice").expect("should set custom metadata");
    registry.set_custom_metadata("doc-1", "version", "1.0").expect("should set custom metadata");
    let metadata = registry.get_metadata("doc-1").unwrap();
    assert_eq!(metadata.custom().get("author"), Some(&"Alice".to_string()));
    assert_eq!(metadata.custom().get("version"), Some(&"1.0".to_string()));
}

#[test]
fn test_set_custom_metadata_not_found() {
    let mut registry = DocumentRegistry::new();
    let result = registry.set_custom_metadata("nonexistent", "key", "value");
    assert!(matches!(result, Err(RegistryError::NotFound(_))));
}

#[test]
fn test_get_metadata_not_found() {
    let registry = DocumentRegistry::new();
    assert!(registry.get_metadata("nonexistent").is_none());
}

#[test]
fn test_open_with_invalid_state_returns_error() {
    let mut registry = DocumentRegistry::new();
    let invalid_state = b"this is not valid yrs state";
    let result = registry.open("doc-1", invalid_state);
    assert!(matches!(result, Err(RegistryError::InvalidState(_))));
    assert!(registry.get("doc-1").is_none());
}

#[test]
fn test_open_duplicate_returns_error() {
    let mut registry = DocumentRegistry::new();
    registry.create("doc-1").unwrap().insert(0, "Original");
    let state = registry.get("doc-1").unwrap().encode_state();
    let result = registry.open("doc-1", &state);
    assert!(matches!(result, Err(RegistryError::AlreadyExists(_))));
    assert_eq!(registry.get("doc-1").unwrap().get_content(), "Original");
}

#[test]
fn test_close_nonexistent_returns_none() {
    let mut registry = DocumentRegistry::new();
    let result = registry.close("nonexistent");
    assert!(result.is_none());
}

#[test]
fn test_touch_nonexistent_returns_error() {
    let mut registry = DocumentRegistry::new();
    let result = registry.touch("nonexistent");
    assert!(matches!(result, Err(RegistryError::NotFound(_))));
}

#[test]
fn test_get_mut_allows_modification() {
    let mut registry = DocumentRegistry::new();
    registry.create("doc-1").unwrap();
    let doc = registry.get_mut("doc-1").expect("should exist");
    doc.insert(0, "Modified via get_mut");
    assert_eq!(registry.get("doc-1").unwrap().get_content(), "Modified via get_mut");
}

#[test]
fn test_default_creates_empty_registry() {
    let registry = DocumentRegistry::default();
    assert!(registry.list().is_empty());
}

#[test]
fn test_custom_metadata_overwrites_existing() {
    let mut registry = DocumentRegistry::new();
    registry.create("doc-1").unwrap();
    registry.set_custom_metadata("doc-1", "key", "value1").unwrap();
    registry.set_custom_metadata("doc-1", "key", "value2").unwrap();
    let metadata = registry.get_metadata("doc-1").unwrap();
    assert_eq!(metadata.custom().get("key"), Some(&"value2".to_string()));
    assert_eq!(metadata.custom().len(), 1);
}

#[test]
fn registry_error_messages() {
    assert_eq!(RegistryError::AlreadyExists("d".into()).message(), "Document already exists: d");
    assert_eq!(RegistryError::NotFound("d".into()).message(), "Document not found: d");
    assert_eq!(RegistryError::InvalidState("x".into()).message(), "Failed to restore document state: x");
}
