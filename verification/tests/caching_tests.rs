use filegate::caching::{CacheConfig, FileCache};
use filegate::metadata::FileMetadata;

#[test]
fn test_cache_basic_operations() {
    let config = CacheConfig {
        max_capacity: 100,
        ttl_seconds: 60,
        max_file_size: 1024,
        enabled: true,
    };

    let mut cache = FileCache::new(config);

    let data = b"test data".to_vec();
    let metadata = FileMetadata::new("test.txt".to_string(), data.len() as u64);

    // Put in cache
    cache
        .put("test.txt".to_string(), data.clone(), metadata.clone())
        .unwrap();

    // Get from cache
    let cached = cache.get("test.txt");
    assert!(cached.is_some());

    let cached_file = cached.unwrap();
    assert_eq!(cached_file.data, data);
    assert_eq!(cached_file.metadata.file_name, "test.txt");

    // Invalidate
    cache.invalidate("test.txt").unwrap();

    let cached_after_invalidate = cache.get("test.txt");
    assert!(cached_after_invalidate.is_none());
}

#[test]
fn test_cache_size_limit() {
    let config = CacheConfig {
        max_capacity: 100,
        ttl_seconds: 60,
        max_file_size: 10, // Only 10 bytes max
        enabled: true,
    };

    let mut cache = FileCache::new(config);

    let small_data = b"small".to_vec();
    let large_data = b"this is a large file".to_vec();

    let metadata = FileMetadata::new("file.txt".to_string(), 0);

    // Small file should be cached
    cache
        .put("small.txt".to_string(), small_data, metadata.clone())
        .unwrap();

    assert!(cache.get("small.txt").is_some());

    // Large file should not be cached
    cache.put("large.txt".to_string(), large_data, metadata).unwrap();

    assert!(cache.get("large.txt").is_none());
}

#[test]
fn test_cache_disabled() {
    let config = CacheConfig {
        enabled: false,
        ..Default::default()
    };

    let mut cache = FileCache::new(config);

    let data = b"test".to_vec();
    let metadata = FileMetadata::new("test.txt".to_string(), data.len() as u64);

    cache.put("test.txt".to_string(), data, metadata).unwrap();

    // Should not be cached when disabled
    assert!(cache.get("test.txt").is_none());
}

#[test]
fn five_byte_payload_is_admitted_and_twenty_byte_payload_is_not() {
    let config = CacheConfig {
        max_capacity: 16,
        ttl_seconds: 3600,
        max_file_size: 10,
        enabled: true,
    };
    let mut cache = FileCache::new(config);

    let five = vec![1u8, 2, 3, 4, 5];
    let twenty = vec![7u8; 20];
    let metadata = FileMetadata::new("payload".to_string(), 0);

    cache.put("five".to_string(), five.clone(), metadata.clone()).unwrap();
    cache.put("twenty".to_string(), twenty, metadata).unwrap();

    let hit = cache.get("five");
    assert!(hit.is_some());
    assert_eq!(hit.unwrap().data, five);
    assert!(cache.get("twenty").is_none());
}

#[test]
fn entry_expires_once_its_residence_time_has_passed() {
    let config = CacheConfig {
        max_capacity: 4,
        ttl_seconds: 60,
        max_file_size: 1024,
        enabled: true,
    };
    let mut cache = FileCache::new(config);
    let metadata = FileMetadata::new("t".to_string(), 1);
    cache.put_at("t".to_string(), vec![9u8], metadata, 1000);

    assert!(cache.get_at("t", 1000).is_some());
    assert!(cache.get_at("t", 1059).is_some());
    assert!(cache.get_at("t", 1060).is_none());
}

#[test]
fn clearing_drops_everything_even_when_disabled() {
    let config = CacheConfig {
        max_capacity: 4,
        ttl_seconds: 60,
        max_file_size: 1024,
        enabled: true,
    };
    let mut cache = FileCache::new(config);
    let metadata = FileMetadata::new("t".to_string(), 1);
    cache.put("a".to_string(), vec![1u8], metadata.clone()).unwrap();
    cache.put("b".to_string(), vec![2u8], metadata).unwrap();
    assert_eq!(cache.stats().entry_count, 2);

    cache.clear().unwrap();
    assert_eq!(cache.stats().entry_count, 0);
    assert!(cache.get("a").is_none());
}

#[test]
fn capacity_is_never_exceeded() {
    let config = CacheConfig {
        max_capacity: 2,
        ttl_seconds: 60,
        max_file_size: 1024,
        enabled: true,
    };
    let mut cache = FileCache::new(config);
    let metadata = FileMetadata::new("t".to_string(), 1);
    cache.put("a".to_string(), vec![1u8], metadata.clone()).unwrap();
    cache.put("b".to_string(), vec![2u8], metadata.clone()).unwrap();
    cache.put("c".to_string(), vec![3u8], metadata).unwrap();

    assert!(cache.stats().entry_count <= 2);
    // The newest entry is always resident after its put.
    assert!(cache.get("c").is_some());
}

#[test]
fn stats_report_aggregate_payload_size() {
    let config = CacheConfig {
        max_capacity: 8,
        ttl_seconds: 60,
        max_file_size: 1024,
        enabled: true,
    };
    let mut cache = FileCache::new(config);
    let metadata = FileMetadata::new("t".to_string(), 1);
    cache.put("a".to_string(), vec![1u8; 3], metadata.clone()).unwrap();
    cache.put("b".to_string(), vec![2u8; 5], metadata).unwrap();

    let stats = cache.stats();
    assert_eq!(stats.entry_count, 2);
    assert_eq!(stats.weighted_size, 8);
}

#[test]
fn maintenance_sweeps_out_expired_entries() {
    let config = CacheConfig {
        max_capacity: 8,
        ttl_seconds: 60,
        max_file_size: 1024,
        enabled: true,
    };
    let mut cache = FileCache::new(config);
    let metadata = FileMetadata::new("t".to_string(), 1);
    cache.put_at("old".to_string(), vec![1u8], metadata.clone(), 0);
    cache.put_at("new".to_string(), vec![2u8], metadata, 1000);

    cache.evict_expired_at(1030);
    assert_eq!(cache.stats().entry_count, 1);
    assert!(cache.get_at("new", 1030).is_some());
    assert!(cache.get_at("old", 1030).is_none());
}
