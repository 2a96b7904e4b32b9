use zelland::assets::{asset_id_from_bytes, generate_id, AssetEntry, AssetManager, ASSET_TTL_MS};

#[test]
fn test_register_and_resolve() {
    let mut mgr = AssetManager::new();
    let id = mgr.register("/tmp/test.txt".to_string(), 1000);
    assert_eq!(id.len(), 16); // 8 bytes -> 16 hex chars

    let resolved = mgr.resolve(&id, 1000);
    assert!(resolved.is_some());
    assert_eq!(resolved.unwrap(), "/tmp/test.txt");
}

#[test]
fn test_resolve_unknown_id() {
    let mgr = AssetManager::new();
    assert!(mgr.resolve("nonexistent", 0).is_none());
}

#[test]
fn test_generate_id_uniqueness() {
    let id1 = generate_id();
    let id2 = generate_id();
    assert_ne!(id1, id2);
    assert_eq!(id1.len(), 16);
}

#[test]
fn test_expiry() {
    let mut mgr = AssetManager::new();
    mgr.insert_entry(
        "expired-id".to_string(),
        AssetEntry { file_path: "/tmp/test.txt".to_string(), expires_at: 9_000 },
    );
    assert!(mgr.resolve("expired-id", 10_000).is_none());
    assert_eq!(mgr.resolve("expired-id", 9_000).as_deref(), Some("/tmp/test.txt"));
}

#[test]
fn registration_lasts_thirty_minutes() {
    let mut mgr = AssetManager::new();
    let id = mgr.register("/a.md".to_string(), 5);
    assert!(mgr.resolve(&id, 5 + ASSET_TTL_MS).is_some());
    assert!(mgr.resolve(&id, 6 + ASSET_TTL_MS).is_none());
    assert_eq!(mgr.find_by_path("/a.md"), Some(id.clone()));
    assert_eq!(mgr.find_by_path("/b.md"), None);
}

#[test]
fn cleanup_drops_only_expired() {
    let mut mgr = AssetManager::new();
    mgr.insert_entry("old".to_string(), AssetEntry { file_path: "/old".to_string(), expires_at: 10 });
    mgr.insert_entry("new".to_string(), AssetEntry { file_path: "/new".to_string(), expires_at: 100 });
    mgr.cleanup(10);
    assert!(mgr.resolve("old", 5).is_none());
    assert_eq!(mgr.resolve("new", 50).as_deref(), Some("/new"));
}

#[test]
fn hex_ids() {
    assert_eq!(asset_id_from_bytes(&[0x00, 0x0f, 0xa5, 0xff]), "000fa5ff");
    assert_eq!(asset_id_from_bytes(&[]), "");
}
