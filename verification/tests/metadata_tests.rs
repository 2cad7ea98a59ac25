use filegate::metadata::{FileMetadata, FilterParams};

#[test]
fn test_metadata_filter() {
    let mut metadata = FileMetadata::new("test.txt".to_string(), 100);
    metadata.content_type = Some("text/plain".to_string());
    metadata.custom = vec![
        ("author".to_string(), "test".to_string()),
        ("version".to_string(), "1".to_string()),
    ];

    let filters = FilterParams {
        name_pattern: Some("test".to_string()),
        content_type: Some("text/plain".to_string()),
        custom: None,
        tags: None,
        include_deleted: false,
    };

    assert!(metadata.matches_filter(&filters));

    let filters = FilterParams {
        name_pattern: Some("other".to_string()),
        content_type: None,
        custom: None,
        tags: None,
        include_deleted: false,
    };

    assert!(!metadata.matches_filter(&filters));
}

#[test]
fn a_fresh_record_starts_at_version_one() {
    let metadata = FileMetadata::new("a.txt".to_string(), 42);
    assert_eq!(metadata.version, 1);
    assert_eq!(metadata.size, 42);
    assert!(metadata.version_id.is_some());
    assert!(metadata.parent_version_id.is_none());
    assert!(!metadata.is_deleted);
    assert!(metadata.deleted_at.is_none());
    assert!(metadata.content_hash.is_none());
}

#[test]
fn a_new_version_is_one_higher_and_chains_to_its_parent() {
    let base = FileMetadata::new("a.txt".to_string(), 7);
    let next = base.create_new_version();
    assert_eq!(next.version, base.version + 1);
    assert_eq!(next.parent_version_id, base.version_id);
    assert!(next.version_id.is_some());
    assert_ne!(next.version_id, base.version_id);
    assert_eq!(next.file_name, base.file_name);
    assert!(!next.is_deleted);
}

#[test]
fn soft_delete_and_restore_flip_the_deletion_mark() {
    let mut metadata = FileMetadata::new("a.txt".to_string(), 1);
    metadata.soft_delete();
    assert!(metadata.is_deleted);
    assert!(metadata.deleted_at.is_some());

    metadata.restore();
    assert!(!metadata.is_deleted);
    assert!(metadata.deleted_at.is_none());
}

#[test]
fn builders_set_their_fields() {
    let metadata = FileMetadata::new("a.txt".to_string(), 1)
        .with_content_type("image/png".to_string())
        .with_tags(vec!["pics".to_string()])
        .with_custom(vec![("k".to_string(), "v".to_string())])
        .with_hash("00ff".to_string());
    assert_eq!(metadata.content_type.as_deref(), Some("image/png"));
    assert_eq!(metadata.tags, vec!["pics".to_string()]);
    assert_eq!(metadata.custom[0].1, "v");
    assert_eq!(metadata.content_hash.as_deref(), Some("00ff"));
}

#[test]
fn filters_on_tags_need_every_requested_tag() {
    let metadata = FileMetadata::new("a.txt".to_string(), 1)
        .with_tags(vec!["red".to_string(), "blue".to_string()]);

    let both = FilterParams {
        name_pattern: None,
        content_type: None,
        custom: None,
        tags: Some(vec!["red".to_string(), "blue".to_string()]),
        include_deleted: false,
    };
    assert!(metadata.matches_filter(&both));

    let missing = FilterParams {
        name_pattern: None,
        content_type: None,
        custom: None,
        tags: Some(vec!["red".to_string(), "green".to_string()]),
        include_deleted: false,
    };
    assert!(!metadata.matches_filter(&missing));
}

#[test]
fn deleted_records_are_filtered_out_unless_asked_for() {
    let mut metadata = FileMetadata::new("a.txt".to_string(), 1);
    metadata.soft_delete();

    let default_filter = FilterParams {
        name_pattern: None,
        content_type: None,
        custom: None,
        tags: None,
        include_deleted: false,
    };
    assert!(!metadata.matches_filter(&default_filter));

    let with_deleted = FilterParams {
        name_pattern: None,
        content_type: None,
        custom: None,
        tags: None,
        include_deleted: true,
    };
    assert!(metadata.matches_filter(&with_deleted));
}

#[test]
fn custom_filters_match_on_first_value_per_key() {
    let metadata = FileMetadata::new("a.txt".to_string(), 1)
        .with_custom(vec![("owner".to_string(), "ada".to_string())]);

    let hit = FilterParams {
        name_pattern: None,
        content_type: None,
        custom: Some(vec![("owner".to_string(), "ada".to_string())]),
        tags: None,
        include_deleted: false,
    };
    assert!(metadata.matches_filter(&hit));

    let miss = FilterParams {
        name_pattern: None,
        content_type: None,
        custom: Some(vec![("owner".to_string(), "bob".to_string())]),
        tags: None,
        include_deleted: false,
    };
    assert!(!metadata.matches_filter(&miss));
}
