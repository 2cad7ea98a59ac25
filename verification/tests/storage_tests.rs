use filegate::error::ApiError;
use filegate::metadata::FileMetadata;
use filegate::storage::{MemoryStorage, Storage};

#[test]
fn memory_storage_round_trip() {
    let mut storage = MemoryStorage::new();

    let key = "test.txt";
    let data = b"Hello, World!".to_vec();
    let metadata = FileMetadata::new(key.to_string(), data.len() as u64);

    storage.put(key, data.clone(), metadata.clone()).unwrap();

    assert!(storage.exists_key(key).unwrap());

    let (retrieved_data, retrieved_meta) = storage.get(key).unwrap();
    assert_eq!(retrieved_data, data);
    assert_eq!(retrieved_meta.file_name, key);

    storage.delete(key).unwrap();
    assert!(!storage.exists_key(key).unwrap());
}

#[test]
fn missing_objects_surface_as_file_not_found() {
    let storage = MemoryStorage::new();
    match storage.get("nowhere") {
        Err(ApiError::FileNotFound(name)) => assert_eq!(name, "nowhere"),
        _ => panic!("a missing key must yield FileNotFound"),
    }
    match storage.get_metadata("nowhere") {
        Err(ApiError::FileNotFound(_)) => {}
        _ => panic!("a missing key must yield FileNotFound"),
    }
}

#[test]
fn deleting_a_missing_object_fails() {
    let mut storage = MemoryStorage::new();
    assert!(matches!(storage.delete("gone"), Err(ApiError::FileNotFound(_))));
}

#[test]
fn put_overwrites_both_payload_and_record() {
    let mut storage = MemoryStorage::new();
    let first = FileMetadata::new("k".to_string(), 1);
    let second = FileMetadata::new("k".to_string(), 2);
    storage.put("k", vec![1u8], first).unwrap();
    storage.put("k", vec![2u8, 3u8], second).unwrap();

    let (data, meta) = storage.get("k").unwrap();
    assert_eq!(data, vec![2u8, 3u8]);
    assert_eq!(meta.size, 2);
}

#[test]
fn listing_narrows_to_the_prefix() {
    let mut storage = MemoryStorage::new();
    for key in ["logs.one", "logs.two", "other"] {
        let metadata = FileMetadata::new(key.to_string(), 1);
        storage.put(key, vec![0u8], metadata).unwrap();
    }

    let all = storage.list(None).unwrap();
    assert_eq!(all.len(), 3);

    let logs = storage.list(Some("logs.")).unwrap();
    assert_eq!(logs.len(), 2);
    assert!(logs.iter().all(|m| m.file_name.starts_with("logs.")));
}

#[test]
fn presigned_urls_are_not_supported_by_the_memory_backend() {
    let storage = MemoryStorage::new();
    assert!(matches!(
        storage.generate_presigned_download_url("k", 60),
        Err(ApiError::Storage(_))
    ));
    assert!(matches!(
        storage.generate_presigned_upload_url("k", 60),
        Err(ApiError::Storage(_))
    ));
}
