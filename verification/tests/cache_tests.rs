use haske_core::cache::SimpleCache;

#[test]
fn set_get_roundtrip() {
    let mut cache = SimpleCache::new();
    cache.set("k".to_string(), vec![1, 2, 3], None);
    assert_eq!(cache.get("k"), Some(vec![1, 2, 3]));
    assert_eq!(cache.get("missing"), None);
}

#[test]
fn set_replaces_existing_value() {
    let mut cache = SimpleCache::new();
    cache.set("k".to_string(), vec![1], None);
    cache.set("k".to_string(), vec![2], None);
    assert_eq!(cache.get("k"), Some(vec![2]));
    assert_eq!(cache.len(), 1);
}

#[test]
fn remove_and_clear() {
    let mut cache = SimpleCache::new();
    cache.set("a".to_string(), vec![1], None);
    cache.set("b".to_string(), vec![2], None);
    assert_eq!(cache.len(), 2);
    cache.remove("a");
    assert_eq!(cache.get("a"), None);
    assert_eq!(cache.len(), 1);
    cache.remove("never-there");
    assert_eq!(cache.len(), 1);
    cache.clear();
    assert!(cache.is_empty());
    assert_eq!(cache.len(), 0);
}

#[test]
fn sweep_removes_only_expired_entries() {
    let mut cache = SimpleCache::new();
    cache.set("eternal".to_string(), vec![0], None);
    cache.set("early".to_string(), vec![1], Some(100));
    cache.set("late".to_string(), vec![2], Some(200));
    cache.sweep(100);
    assert_eq!(cache.get("eternal"), Some(vec![0]));
    assert_eq!(cache.get("early"), None);
    assert_eq!(cache.get("late"), Some(vec![2]));
    assert_eq!(cache.len(), 2);
    cache.sweep(500);
    assert_eq!(cache.get("late"), None);
    assert_eq!(cache.len(), 1);
}

#[test]
fn get_does_not_consult_expiry() {
    let mut cache = SimpleCache::new();
    cache.set("k".to_string(), vec![9], Some(1));
    assert_eq!(cache.get("k"), Some(vec![9]));
}
