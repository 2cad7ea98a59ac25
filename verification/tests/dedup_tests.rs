use filegate::deduplication::{compute_hash, DeduplicationManager};
use filegate::metadata::FileMetadata;
use filegate::storage::MemoryStorage;

#[test]
fn test_hash_computation() {
    let data = b"Hello, World!";
    let hash = compute_hash(data);

    // Verify it's a valid hex string of correct length (SHA-256 = 64 hex chars)
    assert_eq!(hash.len(), 64);
    assert!(hash.chars().all(|c| c.is_ascii_hexdigit()));

    // Same data should produce same hash
    let hash2 = compute_hash(data);
    assert_eq!(hash, hash2);

    // Different data should produce different hash
    let hash3 = compute_hash(b"Different data");
    assert_ne!(hash, hash3);
}

#[test]
fn test_deduplication() {
    let storage = MemoryStorage::new();
    let mut dedup = DeduplicationManager::new(storage);

    let data = b"duplicate content".to_vec();
    let metadata1 = FileMetadata::new("file1.txt".to_string(), data.len() as u64);
    let metadata2 = FileMetadata::new("file2.txt".to_string(), data.len() as u64);

    // Store first file
    let (is_dup1, _) = dedup
        .put_deduplicated("file1.txt", data.clone(), metadata1)
        .unwrap();
    assert!(!is_dup1); // First file is not a duplicate

    // Store second file with same content
    let (is_dup2, _) = dedup
        .put_deduplicated("file2.txt", data.clone(), metadata2)
        .unwrap();
    assert!(is_dup2); // Second file is a duplicate

    // Retrieve both files - should get same content
    let (data1, _) = dedup.get_deduplicated("file1.txt").unwrap();
    let (data2, _) = dedup.get_deduplicated("file2.txt").unwrap();

    assert_eq!(data1, data);
    assert_eq!(data2, data);

    // Check stats
    let stats = dedup.get_stats();
    assert_eq!(stats.unique_files, 1);
}

#[test]
fn empty_payload_hash_is_the_known_vector() {
    let hash = compute_hash(b"");
    assert_eq!(
        hash,
        "e3b0c44298fc1c149afbf4c8996fb92427ae41e4649b934ca495991b7852b855"
    );
}

#[test]
fn abc_hash_is_the_known_vector() {
    let hash = compute_hash(b"abc");
    assert_eq!(
        hash,
        "ba7816bf8f01cfea414140de5dae2223b00361a396177a9cb410ff61f20015ad"
    );
}

#[test]
fn dedup_records_carry_the_content_hash() {
    let storage = MemoryStorage::new();
    let mut dedup = DeduplicationManager::new(storage);

    let data = b"abc".to_vec();
    let metadata = FileMetadata::new("a.bin".to_string(), 3);
    let (_, stored) = dedup.put_deduplicated("a.bin", data, metadata).unwrap();
    assert_eq!(
        stored.content_hash.as_deref(),
        Some("ba7816bf8f01cfea414140de5dae2223b00361a396177a9cb410ff61f20015ad")
    );
}

#[test]
fn find_duplicates_names_the_canonical_key() {
    let storage = MemoryStorage::new();
    let mut dedup = DeduplicationManager::new(storage);

    let data = b"shared bytes".to_vec();
    let hash = compute_hash(&data);
    let metadata = FileMetadata::new("first.txt".to_string(), data.len() as u64);
    dedup.put_deduplicated("first.txt", data, metadata).unwrap();

    let dups = dedup.find_duplicates(&hash).unwrap();
    assert_eq!(dups, vec!["first.txt".to_string()]);

    let none = dedup.find_duplicates("0000").unwrap();
    assert!(none.is_empty());
}

#[test]
fn rebuild_index_counts_hashed_nonempty_records() {
    let storage = MemoryStorage::new();
    let mut dedup = DeduplicationManager::new(storage);

    let data = b"indexed content".to_vec();
    let metadata = FileMetadata::new("kept.txt".to_string(), data.len() as u64);
    dedup.put_deduplicated("kept.txt", data, metadata).unwrap();

    let count = dedup.rebuild_index().unwrap();
    assert_eq!(count, 1);
    assert_eq!(dedup.get_stats().unique_files, 1);
}
