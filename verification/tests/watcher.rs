use collab::watcher::{process_single_event, strip_vault_prefix, KnownFiles, VaultEventKind, WatcherConfig};

#[test]
fn test_default_config_watches_markdown() {
    let config = WatcherConfig::default();
    assert!(config.extensions.contains(&"md".to_string()));
    assert_eq!(config.extensions.len(), 1);
    assert_eq!(config.debounce_millis, 200);
}

#[test]
fn strip_vault_prefix_keeps_the_part_below_the_root() {
    assert_eq!(strip_vault_prefix("/vault/notes/a.md", "/vault"), Some("notes/a.md".to_string()));
    assert_eq!(strip_vault_prefix("/vault/notes/a.md", "/vault/"), Some("notes/a.md".to_string()));
    assert_eq!(strip_vault_prefix("/vault", "/vault"), Some(String::new()));
    assert_eq!(strip_vault_prefix("/vaultish/a.md", "/vault"), None);
    assert_eq!(strip_vault_prefix("/other/a.md", "/vault"), None);
}

#[test]
fn events_are_created_then_modified_then_deleted() {
    let extensions = vec!["md".to_string()];
    let mut known = KnownFiles::new();
    let e = process_single_event("/v/a.md", true, &extensions, "/v", &mut known).unwrap();
    assert_eq!(e.kind, VaultEventKind::Created);
    assert_eq!(e.path, "a.md");
    assert!(known.contains("/v/a.md"));
    let e = process_single_event("/v/a.md", true, &extensions, "/v", &mut known).unwrap();
    assert_eq!(e.kind, VaultEventKind::Modified);
    let e = process_single_event("/v/a.md", false, &extensions, "/v", &mut known).unwrap();
    assert_eq!(e.kind, VaultEventKind::Deleted);
    assert!(!known.contains("/v/a.md"));
    let e = process_single_event("/v/a.md", true, &extensions, "/v", &mut known).unwrap();
    assert_eq!(e.kind, VaultEventKind::Created);
}

#[test]
fn unwatched_extensions_and_outside_paths_are_ignored() {
    let extensions = vec!["md".to_string()];
    let mut known = KnownFiles::new();
    assert!(process_single_event("/v/image.png", true, &extensions, "/v", &mut known).is_none());
    assert!(process_single_event("/elsewhere/a.md", true, &extensions, "/v", &mut known).is_none());
    assert!(!known.contains("/v/image.png"));
    assert!(!known.contains("/elsewhere/a.md"));
}

#[test]
fn custom_extension_filter() {
    let extensions = vec!["md".to_string(), "canvas".to_string()];
    let mut known = KnownFiles::new();
    let e = process_single_event("/v/board.canvas", true, &extensions, "/v", &mut known).unwrap();
    assert_eq!(e.kind, VaultEventKind::Created);
    assert_eq!(e.path, "board.canvas");
}
