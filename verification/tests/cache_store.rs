use aster::cache::store::{CacheEntry, CacheStore};

#[test]
fn test_load_empty() {
    let store = CacheStore::new("/workspace");

    let state = &store.state;
    assert!(state.targets.is_empty());
}

#[test]
fn test_save_and_load() {
    let mut store = CacheStore::new("/workspace");

    let entry = CacheEntry {
        hash: "abc123".to_string(),
        timestamp: "2024-01-01T00:00:00Z".to_string(),
        success: true,
    };

    store.set("//test:build", entry.clone());

    let loaded = store.get("//test:build").unwrap();
    assert_eq!(loaded.hash, "abc123");
    assert!(loaded.success);
}

#[test]
fn test_get_missing() {
    let store = CacheStore::new("/workspace");

    let result = store.get("//nonexistent:target");
    assert!(result.is_none());
}

#[test]
fn test_clear() {
    let mut store = CacheStore::new("/workspace");

    let entry = CacheEntry {
        hash: "abc123".to_string(),
        timestamp: "2024-01-01T00:00:00Z".to_string(),
        success: true,
    };

    store.set("//test:build", entry);
    store.clear();

    let state = &store.state;
    assert!(state.targets.is_empty());
}

#[test]
fn test_clear_matching_exact() {
    let mut store = CacheStore::new("/workspace");

    let entry = CacheEntry {
        hash: "abc123".to_string(),
        timestamp: "2024-01-01T00:00:00Z".to_string(),
        success: true,
    };

    store.set("//test:build", entry.clone());
    store.set("//test:test", entry.clone());
    store.set("//other:build", entry);

    let removed = store.clear_matching("//test:build");
    assert_eq!(removed, 1);

    let state = &store.state;
    assert_eq!(state.targets.len(), 2);
    assert!(state.targets.contains_key("//test:test"));
    assert!(state.targets.contains_key("//other:build"));
}

#[test]
fn test_clear_matching_project() {
    let mut store = CacheStore::new("/workspace");

    let entry = CacheEntry {
        hash: "abc123".to_string(),
        timestamp: "2024-01-01T00:00:00Z".to_string(),
        success: true,
    };

    store.set("//test:build", entry.clone());
    store.set("//test:test", entry.clone());
    store.set("//other:build", entry);

    let removed = store.clear_matching("//test");
    assert_eq!(removed, 2);

    let state = &store.state;
    assert_eq!(state.targets.len(), 1);
    assert!(state.targets.contains_key("//other:build"));
}

#[test]
fn test_invalidate_project_clears_all_project_targets() {
    let mut store = CacheStore::new("/workspace");

    // Set up cache entries for multiple projects
    let entry = CacheEntry {
        hash: "abc123".to_string(),
        timestamp: "2024-01-01T00:00:00Z".to_string(),
        success: true,
    };

    store.set("//apps/web:build", entry.clone());
    store.set("//apps/web:test", entry.clone());
    store.set("//apps/web:lint", entry.clone());
    store.set("//libs/shared:build", entry.clone());
    store.set("//libs/shared:test", entry);

    // Invalidate //apps/web
    let removed = store.clear_matching("//apps/web");
    assert_eq!(removed, 3);

    // Verify only //libs/shared entries remain
    let state = &store.state;
    assert_eq!(state.targets.len(), 2);
    assert!(state.targets.contains_key("//libs/shared:build"));
    assert!(state.targets.contains_key("//libs/shared:test"));
    assert!(!state.targets.contains_key("//apps/web:build"));
}
