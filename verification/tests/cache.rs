use tokscale::cache::{cache_source, cache_verdict, CacheFileState, CacheSource, CacheVerdict, CachedHeader};
use tokscale::clients::{cache_key_clients, check_client_match, ClientMatch};
use tokscale::grouping::{cached_model_labels, GroupBy};

fn make_filters(filters: &[&str], synthetic: bool) -> Vec<String> {
    let mut set: Vec<String> = filters.iter().map(|f| f.to_string()).collect();
    if synthetic {
        set.push("synthetic".to_string());
    }
    set
}

#[test]
fn test_exact_match() {
    let enabled = make_filters(&["gemini", "opencode"], false);
    let cached = vec!["gemini".to_string(), "opencode".to_string()];
    assert_eq!(check_client_match(&enabled, &cached, false), ClientMatch::Exact);
}

#[test]
fn test_subset_new_client_added() {
    let enabled = make_filters(&["gemini", "opencode", "qwen"], false);
    let cached = vec!["gemini".to_string(), "opencode".to_string()];
    assert_eq!(check_client_match(&enabled, &cached, false), ClientMatch::Subset);
}

#[test]
fn test_subset_synthetic_added() {
    let enabled = make_filters(&["gemini"], true);
    let cached = vec!["gemini".to_string()];
    assert_eq!(check_client_match(&enabled, &cached, false), ClientMatch::Subset);
}

#[test]
fn test_mismatch_superset() {
    let enabled = make_filters(&["gemini"], false);
    let cached = vec!["gemini".to_string(), "opencode".to_string()];
    assert_eq!(check_client_match(&enabled, &cached, false), ClientMatch::Mismatch);
}

#[test]
fn test_mismatch_disjoint() {
    let enabled = make_filters(&["gemini"], false);
    let cached = vec!["opencode".to_string()];
    assert_eq!(check_client_match(&enabled, &cached, false), ClientMatch::Mismatch);
}

#[test]
fn test_mismatch_unwanted_synthetic() {
    let enabled = make_filters(&["gemini"], false);
    let cached = vec!["gemini".to_string()];
    assert_eq!(check_client_match(&enabled, &cached, true), ClientMatch::Mismatch);
}

#[test]
fn test_exact_with_synthetic() {
    let enabled = make_filters(&["gemini"], true);
    let cached = vec!["gemini".to_string()];
    assert_eq!(check_client_match(&enabled, &cached, true), ClientMatch::Exact);
}

#[test]
fn test_subset_both_new_client_and_synthetic() {
    let enabled = make_filters(&["gemini", "qwen"], true);
    let cached = vec!["gemini".to_string()];
    assert_eq!(check_client_match(&enabled, &cached, false), ClientMatch::Subset);
}

#[test]
fn test_empty_cache_is_subset() {
    let enabled = make_filters(&["gemini"], false);
    let cached: Vec<String> = vec![];
    assert_eq!(check_client_match(&enabled, &cached, false), ClientMatch::Subset);
}

#[test]
fn repeated_cached_clients_do_not_make_an_exact_match() {
    let enabled = make_filters(&["codex", "opencode"], false);
    let cached = vec!["codex".to_string(), "codex".to_string()];
    assert_eq!(check_client_match(&enabled, &cached, false), ClientMatch::Subset);
    let cached = vec!["opencode".to_string(), "codex".to_string(), "codex".to_string()];
    assert_eq!(check_client_match(&enabled, &cached, false), ClientMatch::Exact);
}

fn header(schema_version: u32, group_by: Option<GroupBy>, timestamp: u64) -> CachedHeader {
    CachedHeader {
        schema_version,
        group_by,
        since: None,
        until: None,
        year: None,
        timestamp,
    }
}

const NOW: u64 = 10_000_000;

#[test]
fn fresh_cache_within_an_hour() {
    let h = header(17, Some(GroupBy::Model), NOW - 3_600_000);
    assert_eq!(
        cache_verdict(&h, GroupBy::Model, &None, &None, &None, ClientMatch::Exact, true, NOW),
        CacheVerdict::Fresh
    );
    let old = header(17, Some(GroupBy::Model), NOW - 3_600_001);
    assert_eq!(
        cache_verdict(&old, GroupBy::Model, &None, &None, &None, ClientMatch::Exact, true, NOW),
        CacheVerdict::Stale
    );
    let future = header(17, Some(GroupBy::Model), NOW + 5);
    assert_eq!(
        cache_verdict(&future, GroupBy::Model, &None, &None, &None, ClientMatch::Exact, true, NOW),
        CacheVerdict::Fresh
    );
}

#[test]
fn test_load_cache_misses_when_group_by_differs() {
    let h = header(17, Some(GroupBy::Model), NOW);
    assert_eq!(
        cache_verdict(&h, GroupBy::ClientModel, &None, &None, &None, ClientMatch::Exact, true, NOW),
        CacheVerdict::Miss
    );
}

#[test]
fn test_load_cache_misses_for_legacy_schema_without_group_by() {
    let h = header(16, None, NOW);
    assert_eq!(
        cache_verdict(&h, GroupBy::Model, &None, &None, &None, ClientMatch::Exact, true, NOW),
        CacheVerdict::Miss
    );
    let legacy = header(16, Some(GroupBy::Model), NOW);
    assert_eq!(
        cache_verdict(&legacy, GroupBy::Model, &None, &None, &None, ClientMatch::Exact, true, NOW),
        CacheVerdict::Stale
    );
    let newer = header(18, Some(GroupBy::Model), NOW);
    assert_eq!(
        cache_verdict(&newer, GroupBy::Model, &None, &None, &None, ClientMatch::Exact, true, NOW),
        CacheVerdict::Miss
    );
}

#[test]
fn test_cache_key_includes_date_filters() {
    let mut h = header(17, Some(GroupBy::Model), NOW);
    h.since = Some("2024-01-01".to_string());
    assert_eq!(
        cache_verdict(&h, GroupBy::Model, &None, &None, &None, ClientMatch::Exact, true, NOW),
        CacheVerdict::Miss
    );
    assert_eq!(
        cache_verdict(
            &h,
            GroupBy::Model,
            &Some("2024-01-01".to_string()),
            &None,
            &None,
            ClientMatch::Exact,
            true,
            NOW
        ),
        CacheVerdict::Fresh
    );
}

#[test]
fn subset_clients_or_bad_data_are_not_fresh() {
    let h = header(17, Some(GroupBy::Model), NOW);
    assert_eq!(
        cache_verdict(&h, GroupBy::Model, &None, &None, &None, ClientMatch::Subset, true, NOW),
        CacheVerdict::Stale
    );
    assert_eq!(
        cache_verdict(&h, GroupBy::Model, &None, &None, &None, ClientMatch::Mismatch, true, NOW),
        CacheVerdict::Miss
    );
    assert_eq!(
        cache_verdict(&h, GroupBy::Model, &None, &None, &None, ClientMatch::Exact, false, NOW),
        CacheVerdict::Miss
    );
}

#[test]
fn test_load_cache_stale_legacy_daily_models_without_display_fields() {
    let (display, color) = cached_model_labels("openai:gpt-5", "", "");
    assert_eq!(display, "openai:gpt-5");
    assert_eq!(color, "openai:gpt-5");
    let (display, color) = cached_model_labels("openai:gpt-5", "openai / gpt-5", "");
    assert_eq!(display, "openai / gpt-5");
    assert_eq!(color, "gpt-5");
    let (display, color) = cached_model_labels("gpt-5", "GPT 5", "gpt");
    assert_eq!(display, "GPT 5");
    assert_eq!(color, "gpt");
}

#[test]
fn legacy_cache_is_consulted_only_when_the_current_file_is_missing_and_not_overridden() {
    let legacy = Some("/home/u/.cache/tokscale".to_string());
    assert!(matches!(cache_source(CacheFileState::Opened, false, &legacy), CacheSource::Current));
    assert!(matches!(cache_source(CacheFileState::Unreadable, false, &legacy), CacheSource::Nothing));
    match cache_source(CacheFileState::NotFound, false, &legacy) {
        CacheSource::Legacy(dirs) => assert_eq!(dirs, vec!["/home/u/.cache/tokscale".to_string()]),
        _ => panic!("expected the legacy directory"),
    }
    match cache_source(CacheFileState::NotFound, true, &legacy) {
        CacheSource::Legacy(dirs) => assert!(dirs.is_empty()),
        _ => panic!("expected no legacy directory"),
    }
    match cache_source(CacheFileState::NotFound, false, &None) {
        CacheSource::Legacy(dirs) => assert!(dirs.is_empty()),
        _ => panic!("expected no legacy directory"),
    }
}

#[test]
fn cache_keys_list_clients_sorted_without_synthetic() {
    let enabled = vec!["opencode".to_string(), "synthetic".to_string(), "codex".to_string()];
    let (clients, synthetic) = cache_key_clients(&enabled);
    assert_eq!(clients, vec!["codex".to_string(), "opencode".to_string()]);
    assert!(synthetic);
    let (clients, synthetic) = cache_key_clients(&vec!["qwen".to_string()]);
    assert_eq!(clients, vec!["qwen".to_string()]);
    assert!(!synthetic);
}
