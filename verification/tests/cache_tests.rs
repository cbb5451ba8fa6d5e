use winereg::cache::{InMemoryRegistryCache, RegistryCache};
use winereg::store::WineRegistry;

#[test]
fn test_cache_basic_operations() {
    let mut cache = InMemoryRegistryCache::with_default_ttl();
    let path = "/test/prefix";
    let now: u64 = 1000;

    assert!(cache.get_cached_registry(path, now).is_none());

    let registry = WineRegistry::new();
    cache.cache_registry(path, registry, now);

    assert!(cache.get_cached_registry(path, now).is_some());

    cache.invalidate_cache(path);

    assert!(cache.get_cached_registry(path, now).is_none());
}

#[test]
fn test_cache_stats() {
    let mut cache = InMemoryRegistryCache::with_default_ttl();
    let path1 = "/test/prefix1";
    let path2 = "/test/prefix2";
    let now: u64 = 0;

    cache.cache_registry(path1, WineRegistry::new(), now);
    cache.cache_registry(path2, WineRegistry::new(), now);

    let stats = cache.stats(now);
    assert_eq!(stats.total_entries, 2);
    assert_eq!(stats.valid_entries, 2);
    assert_eq!(stats.expired_entries, 0);

    cache.clear_all_cache();

    let stats = cache.stats(now);
    assert_eq!(stats.total_entries, 0);
}

#[test]
fn cache_entries_expire_after_ttl() {
    // A hit right after insertion, a miss once the time-to-live has
    // elapsed, and a miss after invalidation regardless of time.
    let mut cache = InMemoryRegistryCache::new(100);
    let path = "/prefix";
    cache.cache_registry(path, WineRegistry::new(), 1000);

    assert!(cache.get_cached_registry(path, 1000).is_some());
    assert!(cache.get_cached_registry(path, 1100).is_some());
    assert!(cache.get_cached_registry(path, 1101).is_none());

    // Lazy expiry: the stale entry is still counted until swept.
    let stats = cache.stats(1101);
    assert_eq!(stats.total_entries, 1);
    assert_eq!(stats.expired_entries, 1);
    assert_eq!(stats.valid_entries, 0);

    cache.cleanup_expired(1101);
    assert_eq!(cache.stats(1101).total_entries, 0);

    cache.cache_registry(path, WineRegistry::new(), 2000);
    cache.invalidate_cache(path);
    assert!(cache.get_cached_registry(path, 2000).is_none());
}

#[test]
fn cache_overwrites_reset_creation_time() {
    let mut cache = InMemoryRegistryCache::new(100);
    let path = "/prefix";
    cache.cache_registry(path, WineRegistry::new(), 0);
    assert!(cache.get_cached_registry(path, 150).is_none());
    // Re-caching resets the entry's creation time.
    cache.cache_registry(path, WineRegistry::new(), 150);
    assert!(cache.get_cached_registry(path, 200).is_some());
}

#[test]
fn cached_registry_content_is_returned() {
    let mut cache = InMemoryRegistryCache::with_default_ttl();
    let mut reg = WineRegistry::new();
    reg.set_value(
        "Software\\Wine",
        "Version",
        winereg::model::RegistryValue::Str("win10".to_string()),
    )
    .unwrap();
    cache.cache_registry("/p", reg, 5);
    let got = cache.get_cached_registry("/p", 6).unwrap();
    assert_eq!(
        got.get_value("Software\\Wine", "Version").unwrap(),
        Some(winereg::model::RegistryValue::Str("win10".to_string()))
    );
}
