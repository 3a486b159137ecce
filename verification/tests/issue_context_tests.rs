use orchestrator_loop_for_ai::issue_context::{timestamp_from, IssueContextStore};

#[test]
fn test_new_store_is_empty() {
    let store = IssueContextStore::new();
    assert!(!store.is_processing());
    assert!(store.get_current_issue().is_none());
}

#[test]
fn test_set_and_get_issue() {
    let mut store = IssueContextStore::new();
    store.set_current_issue(
        "https://github.com/owner/repo/issues/123".to_string(),
        Some("123".to_string()),
    );

    assert!(store.is_processing());
    let issue = store.get_current_issue();
    assert!(issue.is_some());
    let issue = issue.unwrap();
    assert_eq!(issue.issue_url, "https://github.com/owner/repo/issues/123");
    assert_eq!(issue.issue_id, Some("123".to_string()));
    assert!(issue.is_processing);
}

#[test]
fn test_clear_issue() {
    let mut store = IssueContextStore::new();
    store.set_current_issue(
        "https://github.com/owner/repo/issues/123".to_string(),
        Some("123".to_string()),
    );
    assert!(store.is_processing());

    store.clear_current_issue();
    assert!(!store.is_processing());
    assert!(store.get_current_issue().is_none());
}

#[test]
fn test_overwrite_issue() {
    let mut store = IssueContextStore::new();
    store.set_current_issue(
        "https://github.com/owner/repo/issues/123".to_string(),
        Some("123".to_string()),
    );

    store.set_current_issue(
        "https://github.com/owner/repo/issues/456".to_string(),
        Some("456".to_string()),
    );

    let issue = store.get_current_issue();
    assert!(issue.is_some());
    let issue = issue.unwrap();
    assert_eq!(issue.issue_url, "https://github.com/owner/repo/issues/456");
    assert_eq!(issue.issue_id, Some("456".to_string()));
}

#[test]
fn test_set_issue_without_id() {
    let mut store = IssueContextStore::new();
    store.set_current_issue("https://github.com/owner/repo/issues/789".to_string(), None);

    let issue = store.get_current_issue();
    assert!(issue.is_some());
    let issue = issue.unwrap();
    assert_eq!(issue.issue_url, "https://github.com/owner/repo/issues/789");
    assert_eq!(issue.issue_id, None);
}

#[test]
fn set_issue_records_the_current_time() {
    let mut store = IssueContextStore::new();
    store.set_current_issue("u".to_string(), None);
    // Any clock set after 2020 reads more than this many seconds.
    assert!(store.get_current_issue().unwrap().timestamp > 1_577_836_800);
}

#[test]
fn default_store_is_empty() {
    let store = IssueContextStore::default();
    assert!(!store.is_processing());
}

#[test]
fn timestamp_is_the_clock_seconds_or_zero() {
    assert_eq!(timestamp_from(Some(1_700_000_000)), 1_700_000_000);
    assert_eq!(timestamp_from(None), 0);
}

#[test]
fn set_current_issue_at_records_the_clock_reading() {
    let mut store = IssueContextStore::new();
    store.set_current_issue_at("u".to_string(), Some("7".to_string()), Some(42));
    let c = store.get_current_issue().unwrap();
    assert_eq!(c.issue_url, "u");
    assert_eq!(c.issue_id, Some("7".to_string()));
    assert!(c.is_processing);
    assert_eq!(c.timestamp, 42);
    store.set_current_issue_at("v".to_string(), None, None);
    let c = store.get_current_issue().unwrap();
    assert_eq!(c.issue_url, "v");
    assert_eq!(c.timestamp, 0);
}
