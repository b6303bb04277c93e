use collab::vault_manifest::VaultManifest;
use collab::vault_sync::{SyncActionKind, VaultSyncConfig, VaultSyncManager, MAX_MANIFEST_UPDATE_BYTES, MAX_NEW_PATHS_PER_APPLY};

#[test]
fn test_default_config_syncs_markdown() {
    let cfg = VaultSyncConfig::default();
    assert!(cfg.should_sync("notes/hello.md"));
    assert!(cfg.should_sync("README.md"));
}

#[test]
fn test_default_config_ignores_non_md() {
    let cfg = VaultSyncConfig::default();
    assert!(!cfg.should_sync("image.png"));
    assert!(!cfg.should_sync("data.json"));
    assert!(!cfg.should_sync("settings.cfg"));
}

#[test]
fn test_sync_folders_filter() {
    let cfg = VaultSyncConfig { sync_folders: vec!["work".to_string()], ..Default::default() };

    assert!(cfg.should_sync("work/project.md"));
    assert!(cfg.should_sync("work/meeting.md"));
    assert!(!cfg.should_sync("personal/diary.md"));
    assert!(!cfg.should_sync("README.md"));
    // A sibling folder that merely shares the prefix must not match.
    assert!(!cfg.should_sync("work-notes/secret.md"));
    assert!(!cfg.should_sync("workspace/private.md"));
}

#[test]
fn test_exclude_patterns_filter() {
    let cfg = VaultSyncConfig {
        exclude_patterns: vec![".obsidian/*".to_string(), "templates/*".to_string()],
        ..Default::default()
    };

    assert!(!cfg.should_sync(".obsidian/config.md"));
    assert!(!cfg.should_sync("templates/daily.md"));
    assert!(cfg.should_sync("notes/hello.md"));
}

#[test]
fn test_custom_extension() {
    let mut cfg = VaultSyncConfig::default();
    cfg.extensions.push("canvas".to_string());

    assert!(cfg.should_sync("board.canvas"));
    assert!(cfg.should_sync("notes.md"));
    assert!(!cfg.should_sync("image.png"));
}

#[test]
fn test_doc_id_for_path_is_full_path() {
    assert_eq!(VaultSyncConfig::doc_id_for_path("notes/hello.md"), "notes/hello.md");
    assert_eq!(VaultSyncConfig::doc_id_for_path("README.md"), "README.md");
    assert_eq!(VaultSyncConfig::doc_id_for_path("a/b/c.md"), "a/b/c.md");
}

#[test]
fn test_doc_id_is_injective_across_extensions() {
    // Two files sharing a stem but differing by extension map to distinct ids.
    let md = VaultSyncConfig::doc_id_for_path("notes/a.md");
    let canvas = VaultSyncConfig::doc_id_for_path("notes/a.canvas");
    assert_ne!(md, canvas);
}

#[test]
fn extension_follows_path_rules() {
    let cfg = VaultSyncConfig::default();
    // A hidden file whose only dot leads has no extension.
    assert!(!cfg.should_sync(".md"));
    assert!(!cfg.should_sync("notes/.md"));
    // Trailing separators and `.` components are ignored.
    assert!(cfg.should_sync("notes/a.md/"));
    assert!(cfg.should_sync("notes/a.md/."));
    // `..` has no file name.
    assert!(!cfg.should_sync("notes/.."));
    // The last dot decides.
    assert!(cfg.should_sync("archive.tar.md"));
    assert!(!cfg.should_sync("notes.md.bak"));
    // A folder entry can allowlist a single file.
    let single = VaultSyncConfig { sync_folders: vec!["inbox.md".to_string()], ..Default::default() };
    assert!(single.should_sync("inbox.md"));
    assert!(!single.should_sync("other.md"));
}

#[test]
fn exclude_pattern_strips_every_trailing_glob() {
    let cfg = VaultSyncConfig { exclude_patterns: vec!["drafts/*/*".to_string()], ..Default::default() };
    assert!(!cfg.should_sync("drafts/x.md"));
    assert!(!cfg.should_sync("draftsman.md"));
    assert!(cfg.should_sync("notes/x.md"));
}

#[test]
fn test_handle_created_registers_document() {
    let mut mgr = VaultSyncManager::new(VaultSyncConfig::default());
    let action = mgr.handle_created("notes/hello.md").unwrap();
    assert_eq!(action.kind, SyncActionKind::FileCreated);
    assert!(!action.manifest_update.is_empty());
    assert!(mgr.manifest().contains("notes/hello.md"));
    assert!(mgr.registry().get("notes/hello.md").is_some());
}

#[test]
fn test_handle_created_ignores_non_md() {
    let mut mgr = VaultSyncManager::new(VaultSyncConfig::default());
    let action = mgr.handle_created("image.png").unwrap();
    assert_eq!(action.kind, SyncActionKind::Ignored);
    assert!(action.manifest_update.is_empty());
    assert!(!mgr.manifest().contains("image.png"));
}

#[test]
fn test_handle_deleted_closes_document() {
    let mut mgr = VaultSyncManager::new(VaultSyncConfig::default());
    mgr.handle_created("notes/hello.md").unwrap();
    let action = mgr.handle_deleted("notes/hello.md");
    assert_eq!(action.kind, SyncActionKind::FileDeleted);
    assert!(!action.manifest_update.is_empty());
    assert!(mgr.manifest().is_deleted("notes/hello.md"));
    assert!(mgr.registry().get("notes/hello.md").is_none());
}

#[test]
fn test_handle_deleted_ignores_when_sync_deletions_disabled() {
    let cfg = VaultSyncConfig { sync_deletions: false, ..Default::default() };
    let mut mgr = VaultSyncManager::new(cfg);
    mgr.handle_created("notes/hello.md").unwrap();
    let action = mgr.handle_deleted("notes/hello.md");
    assert_eq!(action.kind, SyncActionKind::Ignored);
    assert!(mgr.registry().get("notes/hello.md").is_some());
}

#[test]
fn test_handle_renamed() {
    let mut mgr = VaultSyncManager::new(VaultSyncConfig::default());
    mgr.handle_created("old.md").unwrap();
    let action = mgr.handle_renamed("old.md", "new.md").unwrap();
    assert_eq!(action.kind, SyncActionKind::FileRenamed { new_path: "new.md".to_string() });
    assert!(mgr.manifest().is_deleted("old.md"));
    assert!(mgr.manifest().contains("new.md"));
    assert!(mgr.registry().get("old.md").is_none());
    assert!(mgr.registry().get("new.md").is_some());
}

#[test]
fn test_apply_remote_manifest_opens_new_documents() {
    let mut alice = VaultSyncManager::new(VaultSyncConfig::default());
    alice.handle_created("shared.md").unwrap();
    alice.handle_created("alice-only.md").unwrap();
    let mut bob = VaultSyncManager::new(VaultSyncConfig::default());
    let manifest_bytes = alice.manifest().encode_full_state();
    let newly_registered = bob.apply_remote_manifest(&manifest_bytes).unwrap();
    assert_eq!(newly_registered.len(), 2);
    assert!(bob.registry().get("shared.md").is_some());
    assert!(bob.registry().get("alice-only.md").is_some());
}

#[test]
fn test_apply_remote_manifest_closes_deleted_documents() {
    let mut alice = VaultSyncManager::new(VaultSyncConfig::default());
    alice.handle_created("shared.md").unwrap();
    let mut bob = VaultSyncManager::new(VaultSyncConfig::default());
    let initial_bytes = alice.manifest().encode_full_state();
    bob.apply_remote_manifest(&initial_bytes).unwrap();
    assert!(bob.registry().get("shared.md").is_some(), "Bob should have shared after init");
    alice.handle_deleted("shared.md");
    let manifest_bytes = alice.manifest().encode_full_state();
    let newly_registered = bob.apply_remote_manifest(&manifest_bytes).unwrap();
    assert!(newly_registered.is_empty());
    assert!(bob.registry().get("shared.md").is_none(), "Bob should close shared after remote delete");
}

#[test]
fn test_custom_extension_no_collision_with_md_stem() {
    let mut cfg = VaultSyncConfig::default();
    cfg.extensions.push("canvas".to_string());
    let mut mgr = VaultSyncManager::new(cfg);
    let md = mgr.handle_created("notes/a.md").unwrap();
    let canvas = mgr.handle_created("notes/a.canvas").unwrap();
    assert_eq!(md.kind, SyncActionKind::FileCreated);
    assert_eq!(canvas.kind, SyncActionKind::FileCreated);
    assert!(mgr.registry().get("notes/a.md").is_some());
    assert!(mgr.registry().get("notes/a.canvas").is_some());
    mgr.handle_deleted("notes/a.md");
    assert!(mgr.registry().get("notes/a.md").is_none());
    assert!(mgr.registry().get("notes/a.canvas").is_some());
}

#[test]
fn test_apply_remote_manifest_closes_non_md_extension() {
    let mut cfg = VaultSyncConfig::default();
    cfg.extensions.push("canvas".to_string());
    let mut alice = VaultSyncManager::new(cfg.clone());
    alice.handle_created("board.canvas").unwrap();
    let mut bob = VaultSyncManager::new(cfg);
    bob.apply_remote_manifest(&alice.manifest().encode_full_state()).unwrap();
    assert!(bob.registry().get("board.canvas").is_some(), "Bob should open the canvas");
    alice.handle_deleted("board.canvas");
    bob.apply_remote_manifest(&alice.manifest().encode_full_state()).unwrap();
    assert!(bob.registry().get("board.canvas").is_none(), "Bob should close the canvas on remote delete");
}

#[test]
fn renames_are_ignored_when_disabled() {
    let cfg = VaultSyncConfig { sync_renames: false, ..Default::default() };
    let mut mgr = VaultSyncManager::new(cfg);
    mgr.handle_created("old.md").unwrap();
    let action = mgr.handle_renamed("old.md", "new.md").unwrap();
    assert_eq!(action.kind, SyncActionKind::Ignored);
    assert!(mgr.registry().get("old.md").is_some());
}

#[test]
fn test_oversized_manifest_update_rejected() {
    let mut src = VaultSyncManager::new(VaultSyncConfig::default());
    let giant_path = format!("{}.md", "a".repeat(MAX_MANIFEST_UPDATE_BYTES));
    let action = src.handle_created(&giant_path).unwrap();
    assert!(action.manifest_update.len() > MAX_MANIFEST_UPDATE_BYTES);

    let mut peer = VaultSyncManager::new(VaultSyncConfig::default());
    let res = peer.apply_remote_manifest(&action.manifest_update);
    assert!(res.is_err(), "update over MAX_MANIFEST_UPDATE_BYTES must be rejected");
    assert!(peer.manifest().list_files().is_empty(), "rejected update must not register paths");
    assert!(peer.registry().list().is_empty());
}

#[test]
fn test_path_count_bomb_rejected_whole() {
    let mut bomb = VaultManifest::new();
    for i in 0..=MAX_NEW_PATHS_PER_APPLY {
        bomb.add_file(&format!("f{i}.md"));
    }
    let full_state = bomb.encode_full_state();

    let mut peer = VaultSyncManager::new(VaultSyncConfig::default());
    let res = peer.apply_remote_manifest(&full_state);
    assert!(res.is_err(), "path-count bomb must be rejected whole, not truncated");
    assert!(peer.manifest().list_files().is_empty(), "the rejected update must leave the manifest untouched");
    assert!(peer.registry().list().is_empty());

    let mut good_src = VaultSyncManager::new(VaultSyncConfig::default());
    let action = good_src.handle_created("fine.md").unwrap();
    let newly = peer.apply_remote_manifest(&action.manifest_update).unwrap();
    assert_eq!(newly, vec!["fine.md".to_string()]);
}
