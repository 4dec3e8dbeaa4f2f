use chrono::{Datelike, NaiveDate};
use tokscale::cached::{normalize_cached_agents, uses_opencode_agent_names, CachedAgentRow};
use tokscale::graph::build_contribution_graph_for_today;
use tokscale::profile::{find_peak_hour, HourlyTokens};
use tokscale::quota::{
    interval_model_tokens, latest_points_by_model, quota_point_windows, quota_sample_pairs, window_tokens,
    IntervalKey, QuotaSample,
};
use tokscale::tokens::{SignedTokens, TokenBreakdown};
use tokscale::usage::UsageMessage;

fn day(y: i32, m: u32, d: u32) -> i64 {
    NaiveDate::from_ymd_opt(y, m, d).unwrap().num_days_from_ce() as i64
}

fn sample(hash: Option<&str>, kind: &str, resets_at: i64, timestamp: i64) -> QuotaSample {
    QuotaSample {
        codex_account_hash: hash.map(str::to_string),
        window_kind: kind.to_string(),
        resets_at,
        window_minutes: 300,
        timestamp,
    }
}

#[test]
fn quota_samples_pair_up_within_a_window_in_time_order() {
    let samples = vec![
        sample(Some("acct"), "primary", 10, 300),
        sample(Some("acct"), "primary", 10, 100),
        sample(None, "primary", 10, 150),
        sample(Some("acct"), "primary", 10, 200),
        sample(Some("acct"), "secondary", 10, 250),
    ];

    let (order, pairs) = quota_sample_pairs(&samples);

    assert_eq!(order, vec![1, 3, 0, 4, 2]);
    assert_eq!(pairs, vec![(1, 3), (3, 0)]);
}

fn message(model: &str, hash: Option<&str>, timestamp: i64, input: i64) -> UsageMessage {
    UsageMessage {
        client: "codex".to_string(),
        model: model.to_string(),
        provider_id: "openai".to_string(),
        session_id: "s".to_string(),
        timestamp,
        workspace_key: None,
        workspace_label: None,
        workspace_label_from_key: None,
        agent: None,
        day: Some(day(2025, 1, 1)),
        month: Some(2025 * 12),
        hour: Some(0),
        tokens: SignedTokens {
            input,
            output: 0,
            cache_read: 0,
            cache_write: 0,
            reasoning: 0,
        },
        message_count: 1,
        is_turn_start: false,
        codex_account_hash: hash.map(str::to_string),
        generation_duration_ms: None,
    }
}

#[test]
fn quota_interval_tokens_are_split_by_model() {
    let mut other_client = message("gpt-5", Some("acct"), 150, 1000);
    other_client.client = "opencode".to_string();
    let msgs = vec![
        message("gpt-5", Some("acct"), 100, 1),
        message("gpt-5", Some("acct"), 150, 2),
        message("gpt-5-mini", Some("acct"), 200, 4),
        message("gpt-5", Some("other"), 150, 8),
        message("gpt-5", Some("acct"), 250, 16),
        other_client,
    ];

    let models = interval_model_tokens(&msgs, &"acct".to_string(), 100, 200);

    assert_eq!(models.len(), 2);
    assert_eq!(models[0].model, "gpt-5");
    assert_eq!(models[0].tokens.input, 2);
    assert_eq!(models[0].members, vec![1]);
    assert_eq!(models[1].model, "gpt-5-mini");
    assert_eq!(models[1].tokens.input, 4);

    let none = interval_model_tokens(&msgs, &"unattributed".to_string(), 0, 1000);
    assert!(none.is_empty());
}

fn key(d: i64, model: &str, kind: &str) -> IntervalKey {
    IntervalKey {
        day: d,
        model: model.to_string(),
        window_kind: kind.to_string(),
    }
}

#[test]
fn rolling_windows_cover_four_days() {
    let d0 = day(2025, 3, 1);
    let intervals = vec![
        key(d0, "gpt-5", "primary"),
        key(d0 + 2, "gpt-5", "primary"),
        key(d0 + 5, "gpt-5", "secondary"),
        key(d0 + 5, "o3", "primary"),
    ];

    let points = quota_point_windows(&intervals);
    let summary: Vec<(i64, String, String, Vec<usize>)> = points
        .iter()
        .map(|p| (p.day - d0, p.model.clone(), p.window_kind.clone(), p.members.clone()))
        .collect();
    assert_eq!(
        summary,
        vec![
            (0, "gpt-5".to_string(), "primary".to_string(), vec![0]),
            (2, "gpt-5".to_string(), "primary".to_string(), vec![0, 1]),
            (5, "gpt-5".to_string(), "primary".to_string(), vec![1]),
            (5, "gpt-5".to_string(), "secondary".to_string(), vec![2]),
            (5, "o3".to_string(), "primary".to_string(), vec![3]),
        ]
    );

    let (models, chosen) = latest_points_by_model(&points);
    assert_eq!(models, vec!["gpt-5".to_string(), "o3".to_string()]);
    assert_eq!(chosen, vec![3, 4]);

    let tokens = vec![
        TokenBreakdown { input: 1, output: 0, cache_read: 0, cache_write: 0, reasoning: 0 },
        TokenBreakdown { input: 2, output: 0, cache_read: 0, cache_write: 0, reasoning: 0 },
        TokenBreakdown { input: 4, output: 0, cache_read: 0, cache_write: 0, reasoning: 0 },
        TokenBreakdown { input: 8, output: 0, cache_read: 0, cache_write: 0, reasoning: 0 },
    ];
    assert_eq!(window_tokens(&tokens, &points[1].members).input, 3);
}

#[test]
fn test_build_contribution_graph_uses_provided_today() {
    let today = day(2026, 3, 4);
    let weeks = build_contribution_graph_for_today(&vec![day(2026, 3, 3)], today);
    let cells: Vec<_> = weeks.iter().flat_map(|w| w.clone()).collect();
    assert_eq!(cells.last().unwrap().day, today);
    let first = NaiveDate::from_num_days_from_ce_opt(cells[0].day as i32).unwrap();
    assert_eq!(first.weekday(), chrono::Weekday::Sun);
    assert_eq!(cells.len() as i64, today - cells[0].day + 1);
    assert!(cells.iter().any(|c| c.day == day(2026, 3, 3) && c.daily == Some(0)));
    assert_eq!(weeks.len(), 53);
    assert!(weeks[..52].iter().all(|w| w.len() == 7));
    assert_eq!(weeks[52].len(), 4);

    assert!(build_contribution_graph_for_today(&Vec::new(), today).is_empty());
}

#[test]
fn peak_hour_has_the_largest_total() {
    let entry = |hour: u32, input: u64| HourlyTokens {
        hour,
        weekday_from_monday: 0,
        tokens: TokenBreakdown { input, output: 0, cache_read: 0, cache_write: 0, reasoning: 0 },
    };
    assert_eq!(find_peak_hour(&[]), None);
    assert_eq!(find_peak_hour(&[entry(9, 5), entry(14, 3), entry(14, 4), entry(20, 6)]), Some((14, 7)));
}

fn cached_agent(agent: &str, clients: &str, total_seed: u64) -> CachedAgentRow {
    CachedAgentRow {
        agent: agent.to_string(),
        clients: clients.to_string(),
        tokens: TokenBreakdown {
            input: total_seed,
            output: 1,
            cache_read: 2,
            cache_write: 3,
            reasoning: 4,
        },
        message_count: 1,
    }
}

#[test]
fn test_normalize_cached_agents_merges_opencode_display_variants() {
    let agents = normalize_cached_agents(&vec![
        cached_agent("Sisyphus", "opencode", 10),
        cached_agent("Sisyphus", "opencode", 20),
        cached_agent("Prometheus", "opencode", 30),
    ]);

    assert_eq!(agents.len(), 2);
    let sisyphus = agents.iter().find(|agent| agent.agent == "Sisyphus").unwrap();
    assert_eq!(sisyphus.clients, "opencode");
    assert_eq!(sisyphus.message_count, 2);
    assert_eq!(sisyphus.tokens.input, 30);

    let prometheus = agents.iter().find(|agent| agent.agent == "Prometheus").unwrap();
    assert_eq!(prometheus.message_count, 1);
}

#[test]
fn cached_agent_clients_are_merged_and_sorted() {
    let agents = normalize_cached_agents(&vec![
        cached_agent("Builder", "roocode, opencode", 1),
        cached_agent("Builder", ", cline", 1),
    ]);
    assert_eq!(agents.len(), 1);
    assert_eq!(agents[0].clients, "cline, opencode, roocode");
    assert!(uses_opencode_agent_names("roocode, opencode"));
    assert!(!uses_opencode_agent_names("opencode-fork"));
}
