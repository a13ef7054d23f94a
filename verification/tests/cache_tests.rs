use neodb::{CacheConfig, CacheManager, LruCache};

fn small_config(l1: usize, l2: usize, ttl: Option<u64>) -> CacheConfig {
    CacheConfig { l1_size: l1, l2_size: l2, ttl_seconds: ttl, enable_compression: false }
}

#[test]
fn test_cache_manager_creation() {
    let cache = CacheManager::new();
    assert_eq!(cache.config.l1_size, 1000);
    assert_eq!(cache.config.l2_size, 10000);
}

#[test]
fn test_cache_operations() {
    let mut cache = CacheManager::new();

    let key = "test_key";
    let value = b"test_value".to_vec();

    // Initially not present
    assert!(cache.get(key).unwrap().is_none());

    // Put and get
    cache.put(key, value.clone()).unwrap();
    let retrieved = cache.get(key).unwrap();
    assert_eq!(retrieved, Some(value));

    // Remove
    assert!(cache.remove(key).unwrap());
    assert!(cache.get(key).unwrap().is_none());
}

#[test]
fn test_cache_clear() {
    let mut cache = CacheManager::new();

    cache.put("key1", b"value1".to_vec()).unwrap();
    cache.put("key2", b"value2".to_vec()).unwrap();

    cache.clear().unwrap();

    assert!(cache.get("key1").unwrap().is_none());
    assert!(cache.get("key2").unwrap().is_none());
}

#[test]
fn cache_ttl_expires_entries() {
    let mut cache = CacheManager::with_config(small_config(4, 4, Some(1)));
    cache.put_at("k", b"v".to_vec(), 0).unwrap();
    // an immediate read hits, and so does one at the ttl itself
    assert_eq!(cache.get_at("k", 500), Some(b"v".to_vec()));
    assert_eq!(cache.get_at("k", 1000), Some(b"v".to_vec()));
    // once more than one second has elapsed the entry has expired and is
    // purged from its tier
    assert_eq!(cache.get_at("k", 1001), None);
    assert!(!cache.contains_key("k"));
}

#[test]
fn cache_without_ttl_never_expires() {
    let mut cache = CacheManager::with_config(small_config(4, 4, None));
    cache.put_at("k", b"v".to_vec(), 0).unwrap();
    assert_eq!(cache.get_at("k", u64::MAX), Some(b"v".to_vec()));
}

#[test]
fn cache_eviction_demotes_one_entry() {
    let mut cache = CacheManager::with_config(small_config(2, 2, None));
    cache.put_at("a", b"1".to_vec(), 0).unwrap();
    cache.put_at("b", b"2".to_vec(), 1).unwrap();
    let stats = cache.stats();
    assert_eq!(stats.l1_size, 2);
    assert_eq!(stats.l2_size, 0);

    // the hot tier is full: inserting one more evicts exactly one entry,
    // demoted into the warm tier, and the new key sits in the hot tier
    cache.put_at("c", b"3".to_vec(), 2).unwrap();
    let stats = cache.stats();
    assert_eq!(stats.l1_size, 2);
    assert_eq!(stats.l2_size, 1);
    assert_eq!(stats.evictions, 1);
    assert!(cache.contains_key("a"));
    assert!(cache.contains_key("b"));
    assert!(cache.contains_key("c"));
    // the oldest-accessed entry was the demoted one
    assert_eq!(cache.get_at("a", 3), Some(b"1".to_vec()));
}

#[test]
fn cache_eviction_drops_when_warm_tier_full() {
    let mut cache = CacheManager::with_config(small_config(1, 0, None));
    cache.put_at("a", b"1".to_vec(), 0).unwrap();
    cache.put_at("b", b"2".to_vec(), 1).unwrap();
    let stats = cache.stats();
    assert_eq!(stats.l1_size, 1);
    assert_eq!(stats.l2_size, 0);
    assert!(!cache.contains_key("a"));
    assert_eq!(cache.get_at("b", 2), Some(b"2".to_vec()));
}

#[test]
fn cache_promotes_warm_hit() {
    let mut cache = CacheManager::with_config(small_config(1, 2, None));
    cache.put_at("a", b"1".to_vec(), 0).unwrap();
    cache.put_at("b", b"2".to_vec(), 1).unwrap();
    // "a" was demoted to the warm tier
    assert_eq!(cache.stats().l2_size, 1);
    // reading "b" keeps it hot; remove it to make room, then a warm read
    // of "a" promotes it back into the hot tier
    cache.remove("b").unwrap();
    assert_eq!(cache.get_at("a", 2), Some(b"1".to_vec()));
    let stats = cache.stats();
    assert_eq!(stats.l1_size, 1);
    assert_eq!(stats.l2_size, 0);
}

#[test]
fn cache_key_never_sits_in_both_tiers() {
    let mut cache = CacheManager::with_config(small_config(1, 2, None));
    cache.put_at("a", b"1".to_vec(), 0).unwrap();
    cache.put_at("b", b"2".to_vec(), 1).unwrap();
    // "a" sits in the warm tier; writing it again must not duplicate it
    cache.put_at("a", b"3".to_vec(), 2).unwrap();
    let stats = cache.stats();
    assert_eq!(stats.l1_size + stats.l2_size, 2);
    // removing a key reports a single presence and leaves nothing behind
    assert!(cache.remove("a").unwrap());
    assert!(!cache.contains_key("a"));
    assert!(!cache.remove("a").unwrap());
}

#[test]
fn cache_stats_hit_rate_is_hits_over_accesses() {
    let mut cache = CacheManager::with_config(small_config(4, 4, None));
    let s = cache.stats();
    let total = s.hits + s.misses;
    // no accesses yet: the rate reads as zero
    let rate = if total == 0 { 0.0 } else { s.hits as f64 / total as f64 };
    assert_eq!(rate, 0.0);

    cache.put_at("k", b"v".to_vec(), 0).unwrap();
    assert!(cache.get_at("k", 1).is_some());
    assert!(cache.get_at("nope", 2).is_none());
    assert!(cache.get_at("k", 3).is_some());
    let s = cache.stats();
    assert_eq!(s.hits, 2);
    assert_eq!(s.misses, 1);
    let rate = s.hits as f64 / (s.hits + s.misses) as f64;
    assert!((rate - 2.0 / 3.0).abs() < 1e-12);
}

#[test]
fn lru_cache_round_trip() {
    let mut cache: LruCache<String, u64> = LruCache::new(2);
    assert!(cache.is_empty());
    assert_eq!(cache.put("a".to_string(), 1), None);
    assert_eq!(cache.put("b".to_string(), 2), None);
    assert_eq!(cache.put("a".to_string(), 3), Some(1));
    assert_eq!(cache.get(&"a".to_string()), Some(&3));
    assert_eq!(cache.get(&"missing".to_string()), None);
    assert_eq!(cache.len(), 2);
    // the capacity is recorded but nothing is evicted
    assert_eq!(cache.put("c".to_string(), 4), None);
    assert_eq!(cache.len(), 3);
    assert_eq!(cache.remove(&"b".to_string()), Some(2));
    assert_eq!(cache.remove(&"b".to_string()), None);
    cache.clear();
    assert!(cache.is_empty());
}
