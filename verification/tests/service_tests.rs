use filegate::config::{Config, ServerConfig, StorageConfig};
use filegate::error::ApiError;
use filegate::health::{overall_status, HealthStatus, StorageHealth};
use filegate::metadata::FileMetadata;
use filegate::search::{SearchEngine, SearchQuery};
use filegate::storage::{MemoryStorage, Storage};
use filegate::webhooks::{WebhookConfig, WebhookEvent, WebhookManager};

fn probe(status: HealthStatus) -> StorageHealth {
    StorageHealth {
        status,
        message: None,
        response_time_ms: 1,
        last_check: 0,
    }
}

#[test]
fn overall_health_is_the_worst_probed_condition() {
    let all_good = vec![
        ("a".to_string(), probe(HealthStatus::Healthy)),
        ("b".to_string(), probe(HealthStatus::Healthy)),
    ];
    assert_eq!(overall_status(&all_good), HealthStatus::Healthy);

    let one_degraded = vec![
        ("a".to_string(), probe(HealthStatus::Healthy)),
        ("b".to_string(), probe(HealthStatus::Degraded)),
    ];
    assert_eq!(overall_status(&one_degraded), HealthStatus::Degraded);

    let one_down = vec![
        ("a".to_string(), probe(HealthStatus::Degraded)),
        ("b".to_string(), probe(HealthStatus::Unhealthy)),
    ];
    assert_eq!(overall_status(&one_down), HealthStatus::Unhealthy);

    assert_eq!(overall_status(&Vec::new()), HealthStatus::Healthy);
}

#[test]
fn configured_backends_are_found_by_name() {
    let config = Config {
        server: ServerConfig {
            host: "127.0.0.1".to_string(),
            port: 8080,
        },
        storages: vec![
            (
                "my-s3".to_string(),
                StorageConfig::S3 {
                    bucket: "my-bucket".to_string(),
                    region: "us-east-1".to_string(),
                    prefix: "files/".to_string(),
                    endpoint: None,
                },
            ),
            (
                "local-storage".to_string(),
                StorageConfig::Local {
                    path: "/tmp/files".to_string(),
                },
            ),
        ],
    };

    assert!(matches!(
        config.get_storage("my-s3"),
        Some(StorageConfig::S3 { .. })
    ));
    assert!(matches!(
        config.get_storage("local-storage"),
        Some(StorageConfig::Local { .. })
    ));
    assert!(config.get_storage("absent").is_none());
}

#[test]
fn test_webhook_registration() {
    let mut manager = WebhookManager::new();

    let config = WebhookConfig {
        url: "https://example.com/webhook".to_string(),
        events: vec![WebhookEvent::Uploaded],
        headers: Vec::new(),
        enabled: true,
    };

    manager.register_webhook("test".to_string(), config.clone()).unwrap();

    let webhooks = manager.list_webhooks().unwrap();
    assert_eq!(webhooks.len(), 1);
    assert_eq!(webhooks[0].0, "test");
}

#[test]
fn only_enabled_subscribers_of_an_event_are_selected() {
    let mut manager = WebhookManager::new();
    manager
        .register_webhook(
            "uploads".to_string(),
            WebhookConfig {
                url: "https://example.com/a".to_string(),
                events: vec![WebhookEvent::Uploaded],
                headers: Vec::new(),
                enabled: true,
            },
        )
        .unwrap();
    manager
        .register_webhook(
            "disabled".to_string(),
            WebhookConfig {
                url: "https://example.com/b".to_string(),
                events: vec![WebhookEvent::Uploaded],
                headers: Vec::new(),
                enabled: false,
            },
        )
        .unwrap();
    manager
        .register_webhook(
            "deletes".to_string(),
            WebhookConfig {
                url: "https://example.com/c".to_string(),
                events: vec![WebhookEvent::Deleted],
                headers: Vec::new(),
                enabled: true,
            },
        )
        .unwrap();

    let fired = manager.subscribers(WebhookEvent::Uploaded);
    assert_eq!(fired.len(), 1);
    assert_eq!(fired[0].0, "uploads");

    manager.unregister_webhook("uploads").unwrap();
    assert!(manager.subscribers(WebhookEvent::Uploaded).is_empty());
}

#[test]
fn search_finds_records_case_insensitively_and_newest_first() {
    let mut storage = MemoryStorage::new();
    let mut report = FileMetadata::new("Quarterly-Report.pdf".to_string(), 10);
    report.updated_at = 100;
    let mut notes = FileMetadata::new("notes.txt".to_string(), 5);
    notes.updated_at = 200;
    notes.custom = vec![("topic".to_string(), "REPORTING".to_string())];
    storage.put("Quarterly-Report.pdf", vec![1u8], report).unwrap();
    storage.put("notes.txt", vec![2u8], notes).unwrap();

    let engine = SearchEngine::new(storage);
    let results = engine
        .search(SearchQuery {
            query: Some("report".to_string()),
            tags: None,
            content_type: None,
            name_pattern: None,
            include_deleted: false,
        })
        .unwrap();

    assert_eq!(results.total_count, 2);
    // Most recently updated first.
    assert_eq!(results.results[0].file_name, "notes.txt");
    assert_eq!(results.results[1].file_name, "Quarterly-Report.pdf");
}

#[test]
fn search_filters_by_tags_and_content_type() {
    let mut storage = MemoryStorage::new();
    let tagged = FileMetadata::new("a".to_string(), 1)
        .with_tags(vec!["important".to_string()])
        .with_content_type("text/plain".to_string());
    let plain = FileMetadata::new("b".to_string(), 1);
    storage.put("a", vec![0u8], tagged).unwrap();
    storage.put("b", vec![0u8], plain).unwrap();

    let engine = SearchEngine::new(storage);
    let results = engine
        .search(SearchQuery {
            query: None,
            tags: Some(vec!["important".to_string()]),
            content_type: Some("text/plain".to_string()),
            name_pattern: None,
            include_deleted: false,
        })
        .unwrap();
    assert_eq!(results.total_count, 1);
    assert_eq!(results.results[0].file_name, "a");
}

#[test]
fn error_messages_name_their_kind() {
    let err = ApiError::FileNotFound("missing.txt".to_string());
    assert_eq!(err.message(), "File not found: missing.txt");
    let err = ApiError::Storage("backend offline".to_string());
    assert_eq!(err.message(), "Storage error: backend offline");
    let err = ApiError::NotFound("version".to_string());
    assert_eq!(err.message(), "Not found: version");
}
