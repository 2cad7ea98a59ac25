use filegate::sharing::{ShareLink, ShareLinkManager};

#[test]
fn test_share_link_creation() {
    let mut manager = ShareLinkManager::new();

    let link = ShareLink::new(
        "my-storage".to_string(),
        "test.txt".to_string(),
        3600,
        Some(5),
        None,
        false,
    );

    let created = manager.create_link(link.clone()).unwrap();
    assert_eq!(created.storage_name, "my-storage");
    assert_eq!(created.max_downloads, Some(5));

    let retrieved = manager.get_link(&created.id).unwrap();
    assert_eq!(retrieved.id, created.id);
}

#[test]
fn test_share_link_expiration() {
    let link = ShareLink::new(
        "my-storage".to_string(),
        "test.txt".to_string(),
        -1, // Already expired
        None,
        None,
        false,
    );

    assert!(!link.is_valid());
}

#[test]
fn test_download_limit() {
    let mut link = ShareLink::new(
        "my-storage".to_string(),
        "test.txt".to_string(),
        3600,
        Some(2),
        None,
        false,
    );

    assert!(link.is_valid());

    link.increment_downloads();
    assert!(link.is_valid());

    link.increment_downloads();
    assert!(!link.is_valid()); // Exceeded limit
}

#[test]
fn test_password_protection() {
    let link = ShareLink::new(
        "my-storage".to_string(),
        "test.txt".to_string(),
        3600,
        None,
        Some("secret123".to_string()),
        false,
    );

    assert!(link.verify_password("secret123"));
    assert!(!link.verify_password("wrong"));
}

#[test]
fn no_password_means_any_input_passes() {
    let link = ShareLink::new(
        "s".to_string(),
        "f".to_string(),
        3600,
        None,
        None,
        false,
    );
    assert!(link.verify_password(""));
    assert!(link.verify_password("anything"));
}

#[test]
fn two_downloads_leave_a_two_bounded_link_valid_and_the_caller_must_reject_a_third() {
    let mut manager = ShareLinkManager::new();
    let link = ShareLink::new(
        "my-storage".to_string(),
        "test.txt".to_string(),
        3600,
        Some(2),
        None,
        false,
    );
    let id = manager.create_link(link).unwrap().id;

    // First and second download: the link stays usable while the counter
    // is below its bound, and the second increment exhausts it.
    manager.increment_download(&id).unwrap();
    assert_eq!(manager.get_link(&id).unwrap().download_count, 1);
    manager.increment_download(&id).unwrap();
    let after_two = manager.get_link(&id).unwrap();
    assert_eq!(after_two.download_count, 2);

    // The count has reached the bound: the caller boundary must refuse a
    // third use, because the link is no longer valid.
    assert!(!after_two.is_valid());
}

#[test]
fn revoking_a_link_makes_it_not_found() {
    let mut manager = ShareLinkManager::new();
    let link = ShareLink::new("s".to_string(), "f".to_string(), 3600, None, None, false);
    let id = manager.create_link(link).unwrap().id;

    manager.revoke_link(&id).unwrap();
    assert!(manager.get_link(&id).is_err());
    assert!(manager.revoke_link(&id).is_err());
    assert!(manager.increment_download(&id).is_err());
}

#[test]
fn cleanup_drops_exactly_the_invalid_links() {
    let mut manager = ShareLinkManager::new();
    let live = ShareLink::new("s".to_string(), "live".to_string(), 3600, None, None, false);
    let dead = ShareLink::new("s".to_string(), "dead".to_string(), -10, None, None, false);
    let live_id = manager.create_link(live).unwrap().id;
    let dead_id = manager.create_link(dead).unwrap().id;

    let removed = manager.cleanup_expired().unwrap();
    assert_eq!(removed, 1);
    assert!(manager.get_link(&live_id).is_ok());
    assert!(manager.get_link(&dead_id).is_err());
}

#[test]
fn links_are_listed_per_backend() {
    let mut manager = ShareLinkManager::new();
    let a = ShareLink::new("alpha".to_string(), "f1".to_string(), 3600, None, None, false);
    let b = ShareLink::new("beta".to_string(), "f2".to_string(), 3600, None, None, false);
    manager.create_link(a).unwrap();
    manager.create_link(b).unwrap();

    let alpha_links = manager.list_links("alpha").unwrap();
    assert_eq!(alpha_links.len(), 1);
    assert_eq!(alpha_links[0].file_key, "f1");
}

#[test]
fn upload_links_keep_their_flag() {
    let link = ShareLink::new("s".to_string(), "f".to_string(), 60, None, None, true);
    assert!(link.is_upload_link);
    assert_eq!(link.download_count, 0);
    assert_eq!(link.id.len(), 36);
}

#[test]
fn authorization_checks_validity_before_password() {
    let stale = ShareLink::new("s".to_string(), "f".to_string(), -5, None, None, false);
    let now = stale.created_at;
    // A stale link is refused even with the right password.
    assert!(stale.authorize_at(Some("pw"), now).is_err());

    let guarded = ShareLink::new(
        "s".to_string(),
        "f".to_string(),
        3600,
        None,
        Some("pw".to_string()),
        false,
    );
    let now = guarded.created_at;
    assert!(guarded.authorize_at(Some("pw"), now).is_ok());
    assert!(guarded.authorize_at(Some("wrong"), now).is_err());
    // A password is only checked when one is supplied with the request.
    assert!(guarded.authorize_at(None, now).is_ok());
}

#[test]
fn a_link_is_invalid_from_its_expiry_moment_on() {
    let mut link = ShareLink::new("s".to_string(), "f".to_string(), 3600, None, None, false);
    link.expires_at = 100;
    assert!(link.is_valid_at(99));
    assert!(!link.is_valid_at(100));
    assert!(!link.is_valid_at(101));
}
