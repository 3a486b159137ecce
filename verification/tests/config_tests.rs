use orchestrator_loop_for_ai::config::{
    default_merge_conflict_keyword, default_pr_defined_keyword, SdlcConfig, StateConfig,
};
use orchestrator_loop_for_ai::string_map::StringMap;

fn state(name: &str, prompt: &str, next: Option<&str>, keywords: &[(&str, &str)], doc: Option<&str>) -> StateConfig {
    let mut map = StringMap::new();
    for (k, v) in keywords {
        map.insert(k.to_string(), v.to_string());
    }
    StateConfig {
        name: name.to_string(),
        label: name.to_string(),
        prompt: prompt.to_string(),
        next_state: next.map(|s| s.to_string()),
        keywords: map,
        doc_file: doc.map(|s| s.to_string()),
    }
}

fn config(states: Vec<StateConfig>, failure: &str, help: &str, lock: &str, enabled: &str) -> SdlcConfig {
    SdlcConfig {
        states,
        human_help_label: help.to_string(),
        lock_label: lock.to_string(),
        enabled_label: enabled.to_string(),
        failure_label: failure.to_string(),
        pr_defined_keyword: default_pr_defined_keyword(),
        merge_conflict_keyword: default_merge_conflict_keyword(),
    }
}

fn standard(states: Vec<StateConfig>) -> SdlcConfig {
    config(states, "ai-human-help", "ai-human-help", "ai-processing", "ai-enabled")
}

#[test]
fn test_config_parsing_new_format() {
    let config = standard(vec![state(
        "ai-design",
        "Create design",
        None,
        &[("KEYWORD1", "ai-development"), ("KEYWORD2", "ai-development, ai-human-help")],
        None,
    )]);
    assert_eq!(config.states.len(), 1);
    assert_eq!(config.states[0].name, "ai-design");
    assert_eq!(config.failure_label, "ai-human-help");
}

#[test]
fn test_backward_compatible_prompt_suffix() {
    let config = standard(vec![state(
        "ai-requirements",
        "Test suffix",
        Some("ai-design"),
        &[("success", "COMPLETED")],
        Some("reqs.md"),
    )]);
    assert_eq!(config.states.len(), 1);
    assert_eq!(config.states[0].prompt, "Test suffix");
}

#[test]
fn test_keyword_maps_to_single_label() {
    let config = standard(vec![state("ai-test", "test", None, &[("SUCCESS", "ai-next")], None)]);
    let state = &config.states[0];

    let labels = state.get_labels_for_keyword("SUCCESS");
    assert_eq!(labels.len(), 1);
    assert_eq!(labels[0], "ai-next");
}

#[test]
fn test_keyword_maps_to_multiple_labels() {
    let config = standard(vec![state(
        "ai-test",
        "test",
        None,
        &[("MULTI", "ai-review, ai-human-help")],
        None,
    )]);
    let state = &config.states[0];

    let labels = state.get_labels_for_keyword("MULTI");
    assert_eq!(labels.len(), 2);
    assert!(labels.contains(&"ai-review".to_string()));
    assert!(labels.contains(&"ai-human-help".to_string()));
}

#[test]
fn test_get_state() {
    let config = standard(vec![state(
        "ai-requirements",
        "Test prompt",
        Some("ai-design"),
        &[("success", "COMPLETED")],
        Some("reqs.md"),
    )]);
    let state = config.get_state("ai-requirements").unwrap();
    assert_eq!(state.name, "ai-requirements");
}

#[test]
fn test_multi_label_keyword_with_spaces() {
    let config = standard(vec![state(
        "ai-complex",
        "test",
        None,
        &[("MULTI_LABEL", "ai-phase1, ai-phase2, ai-human-help")],
        None,
    )]);
    let state = &config.states[0];

    let labels = state.get_labels_for_keyword("MULTI_LABEL");
    assert_eq!(labels.len(), 3);
    assert!(labels.contains(&"ai-phase1".to_string()));
    assert!(labels.contains(&"ai-phase2".to_string()));
    assert!(labels.contains(&"ai-human-help".to_string()));
}

#[test]
fn test_all_configs_have_failure_label() {
    let config = standard(vec![state("ai-test", "test", None, &[("DONE", "ai-next")], None)]);
    assert_eq!(config.failure_label, "ai-human-help");
}

#[test]
fn test_realistic_multi_label_workflow() {
    let config = config(
        vec![state(
            "content-review",
            "Review the content",
            None,
            &[
                ("APPROVED", "approved"),
                ("NEEDS_REVISION", "needs-revision, content-review"),
                ("ESCALATE", "escalated, human-review"),
            ],
            None,
        )],
        "review-failed",
        "human-review",
        "in-progress",
        "enabled",
    );
    let state = &config.states[0];

    let approved_labels = state.get_labels_for_keyword("APPROVED");
    assert_eq!(approved_labels.len(), 1);
    assert_eq!(approved_labels[0], "approved");

    let revision_labels = state.get_labels_for_keyword("NEEDS_REVISION");
    assert_eq!(revision_labels.len(), 2);
    assert!(revision_labels.contains(&"needs-revision".to_string()));
    assert!(revision_labels.contains(&"content-review".to_string()));

    let escalate_labels = state.get_labels_for_keyword("ESCALATE");
    assert_eq!(escalate_labels.len(), 2);
    assert!(escalate_labels.contains(&"escalated".to_string()));
    assert!(escalate_labels.contains(&"human-review".to_string()));

    assert_eq!(config.failure_label, "review-failed");
}

#[test]
fn test_pr_defined_keyword_defaults() {
    let config = standard(vec![state("ai-test", "test", None, &[("DONE", "ai-next")], None)]);
    assert_eq!(config.pr_defined_keyword, "CHANGES_SUMMARIZED");
}

#[test]
fn test_pr_defined_keyword_custom() {
    let mut config = standard(vec![state("ai-test", "test", None, &[("DONE", "ai-next")], None)]);
    config.pr_defined_keyword = "CUSTOM_CLEANUP_MARKER".to_string();
    assert_eq!(config.pr_defined_keyword, "CUSTOM_CLEANUP_MARKER");
}

#[test]
fn test_merge_conflict_keyword_defaults() {
    let config = standard(vec![state("ai-test", "test", None, &[("DONE", "ai-next")], None)]);
    assert_eq!(config.merge_conflict_keyword, "MERGE_RESOLVED");
}

#[test]
fn test_merge_conflict_keyword_custom() {
    let mut config = standard(vec![state("ai-test", "test", None, &[("DONE", "ai-next")], None)]);
    config.merge_conflict_keyword = "CONFLICTS_FIXED".to_string();
    assert_eq!(config.merge_conflict_keyword, "CONFLICTS_FIXED");
}

#[test]
fn test_both_keywords_configured() {
    let mut config = standard(vec![state("ai-test", "test", None, &[("DONE", "ai-next")], None)]);
    config.pr_defined_keyword = "DONE_WITH_PR".to_string();
    config.merge_conflict_keyword = "RESOLUTION_COMPLETE".to_string();
    assert_eq!(config.pr_defined_keyword, "DONE_WITH_PR");
    assert_eq!(config.merge_conflict_keyword, "RESOLUTION_COMPLETE");
}

#[test]
fn labels_for_missing_keyword_are_empty() {
    let s = state("ai-test", "test", None, &[("DONE", "ai-next")], None);
    assert!(s.get_labels_for_keyword("MISSING").is_empty());
}

#[test]
fn labels_keep_empty_pieces_and_trim_unicode_space() {
    let s = state("ai-test", "test", None, &[("K", " a ,,\u{3000}b\u{a0}")], None);
    assert_eq!(s.get_labels_for_keyword("K"), vec!["a".to_string(), "".to_string(), "b".to_string()]);
}

#[test]
fn get_state_picks_first_matching_label_or_none() {
    let mut first = state("first", "p1", None, &[], None);
    first.label = "shared".to_string();
    let mut second = state("second", "p2", None, &[], None);
    second.label = "shared".to_string();
    let config = standard(vec![first, second]);
    assert_eq!(config.get_state("shared").unwrap().name, "first");
    assert!(config.get_state("other").is_none());
}

#[test]
fn string_map_insert_replaces_and_returns_old_value() {
    let mut m = StringMap::new();
    assert_eq!(m.insert("k".to_string(), "v1".to_string()), None);
    assert_eq!(m.insert("k".to_string(), "v2".to_string()), Some("v1".to_string()));
    assert_eq!(m.get("k"), Some(&"v2".to_string()));
    assert_eq!(m.get("other"), None);
}
