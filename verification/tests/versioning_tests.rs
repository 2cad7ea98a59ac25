use filegate::metadata::FileMetadata;
use filegate::storage::{MemoryStorage, Storage};
use filegate::versioning::VersioningService;

#[test]
fn test_version_creation() {
    let mut storage = MemoryStorage::new();

    let data = b"version 1".to_vec();
    let metadata = FileMetadata::new("test.txt".to_string(), data.len() as u64);

    // Create first version
    storage.put("test.txt", data.clone(), metadata.clone()).unwrap();

    let mut versioning = VersioningService::new(storage);

    // Create second version
    let data_v2 = b"version 2".to_vec();
    let metadata_v2 = versioning
        .create_version("test.txt", data_v2.clone(), &metadata)
        .unwrap();

    assert_eq!(metadata_v2.version, 2);
    assert!(metadata_v2.parent_version_id.is_some());

    // List versions
    let versions = versioning.list_versions("test.txt").unwrap();
    assert_eq!(versions.len(), 1); // Only v2 is stored with version key
}

#[test]
fn new_versions_chain_to_their_parents() {
    let storage = MemoryStorage::new();
    let mut versioning = VersioningService::new(storage);

    let base = FileMetadata::new("doc".to_string(), 4);
    let v2 = versioning.create_version("doc", b"two!".to_vec(), &base).unwrap();
    assert_eq!(v2.version, base.version + 1);
    assert_eq!(v2.parent_version_id, base.version_id);

    let v3 = versioning.create_version("doc", b"three".to_vec(), &v2).unwrap();
    assert_eq!(v3.version, 3);
    assert_eq!(v3.parent_version_id, v2.version_id);
}

#[test]
fn versions_are_listed_newest_first() {
    let storage = MemoryStorage::new();
    let mut versioning = VersioningService::new(storage);

    let base = FileMetadata::new("doc".to_string(), 1);
    let v2 = versioning.create_version("doc", b"2".to_vec(), &base).unwrap();
    let v3 = versioning.create_version("doc", b"3".to_vec(), &v2).unwrap();
    versioning.create_version("doc", b"4".to_vec(), &v3).unwrap();

    let versions = versioning.list_versions("doc").unwrap();
    assert_eq!(versions.len(), 3);
    assert_eq!(versions[0].version, 4);
    assert_eq!(versions[1].version, 3);
    assert_eq!(versions[2].version, 2);
}

#[test]
fn a_version_is_fetched_by_its_identifier() {
    let storage = MemoryStorage::new();
    let mut versioning = VersioningService::new(storage);

    let base = FileMetadata::new("doc".to_string(), 5);
    let v2 = versioning.create_version("doc", b"hello".to_vec(), &base).unwrap();
    let vid = v2.version_id.clone().unwrap();

    let (bytes, meta) = versioning.get_version("doc", &vid).unwrap();
    assert_eq!(bytes, b"hello".to_vec());
    assert_eq!(meta.version, 2);

    let missing = versioning.get_version("doc", "no-such-version-id");
    assert!(missing.is_err());
}

#[test]
fn restoring_creates_a_strictly_newer_version_with_the_old_bytes() {
    let storage = MemoryStorage::new();
    let mut versioning = VersioningService::new(storage);

    let base = FileMetadata::new("doc".to_string(), 3);
    let v2 = versioning.create_version("doc", b"old".to_vec(), &base).unwrap();
    let old_id = v2.version_id.clone().unwrap();
    let v3 = versioning.create_version("doc", b"new".to_vec(), &v2).unwrap();

    let restored = versioning.restore_version("doc", &old_id).unwrap();
    assert!(restored.version > v3.version);
    assert_eq!(restored.version, v3.version + 1);

    let restored_id = restored.version_id.clone().unwrap();
    let (bytes, _) = versioning.get_version("doc", &restored_id).unwrap();
    assert_eq!(bytes, b"old".to_vec());
}

#[test]
fn deleting_a_version_marks_it_deleted_in_place() {
    let storage = MemoryStorage::new();
    let mut versioning = VersioningService::new(storage);

    let base = FileMetadata::new("doc".to_string(), 1);
    let v2 = versioning.create_version("doc", b"x".to_vec(), &base).unwrap();
    let vid = v2.version_id.clone().unwrap();

    versioning.delete_version("doc", &vid).unwrap();
    let (_, meta) = versioning.get_version("doc", &vid).unwrap();
    assert!(meta.is_deleted);
    assert!(meta.deleted_at.is_some());
}

#[test]
fn latest_version_skips_deleted_states() {
    let storage = MemoryStorage::new();
    let mut versioning = VersioningService::new(storage);

    let base = FileMetadata::new("doc".to_string(), 1);
    let v2 = versioning.create_version("doc", b"kept".to_vec(), &base).unwrap();

    // The plain-key marker carries the latest record and is not deleted.
    let (_, latest) = versioning.get_latest_version("doc").unwrap();
    assert_eq!(latest.version, v2.version);
}

#[test]
fn version_keys_follow_the_load_bearing_format() {
    let storage = MemoryStorage::new();
    let versioning = VersioningService::new(storage);

    let mut metadata = FileMetadata::new("doc".to_string(), 1);
    metadata.version = 7;
    let vid = metadata.version_id.clone().unwrap();
    assert_eq!(
        versioning.get_version_key("doc", &metadata),
        format!("doc.v7.{}", vid)
    );

    metadata.version_id = None;
    assert_eq!(versioning.get_version_key("doc", &metadata), "doc");
}

#[test]
fn deleting_an_unknown_version_reports_not_found_and_writes_nothing() {
    let storage = MemoryStorage::new();
    let mut versioning = VersioningService::new(storage);

    let base = FileMetadata::new("doc".to_string(), 1);
    versioning.create_version("doc", b"x".to_vec(), &base).unwrap();

    let err = versioning.delete_version("doc", "no-such-version-id");
    assert!(err.is_err());
    assert_eq!(versioning.list_versions("doc").unwrap().len(), 1);
}

#[test]
fn the_live_plain_record_takes_priority_over_version_records() {
    let mut storage = MemoryStorage::new();
    let plain = FileMetadata::new("doc".to_string(), 5);
    storage.put("doc", b"plain".to_vec(), plain.clone()).unwrap();

    let mut versioning = VersioningService::new(storage);
    versioning.create_version("doc", b"newer".to_vec(), &plain).unwrap();

    // create_version left an empty "latest" marker at the plain key, which
    // is itself the live plain record now.
    let (bytes, latest) = versioning.get_latest_version("doc").unwrap();
    assert_eq!(latest.version, plain.version + 1);
    assert!(bytes.is_empty());
}
