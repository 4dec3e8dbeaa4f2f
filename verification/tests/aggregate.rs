use chrono::{Datelike, NaiveDate};
use tokscale::accounts::build_codex_account_summaries;
use tokscale::aggregate::{
    aggregate_agents, aggregate_daily, aggregate_hourly, aggregate_models, join_comma, model_key,
    total_model_tokens,
};
use tokscale::grouping::GroupBy;
use tokscale::tokens::SignedTokens;
use tokscale::usage::UsageMessage;

fn day(y: i32, m: u32, d: u32) -> i64 {
    NaiveDate::from_ymd_opt(y, m, d).unwrap().num_days_from_ce() as i64
}

fn tokens(input: i64, output: i64) -> SignedTokens {
    SignedTokens {
        input,
        output,
        cache_read: 0,
        cache_write: 0,
        reasoning: 0,
    }
}

fn message(client: &str, model: &str, provider: &str, session: &str, t: SignedTokens) -> UsageMessage {
    UsageMessage {
        client: client.to_string(),
        model: model.to_string(),
        provider_id: provider.to_string(),
        session_id: session.to_string(),
        timestamp: 1_735_689_600_000,
        workspace_key: None,
        workspace_label: None,
        workspace_label_from_key: None,
        agent: None,
        day: Some(day(2025, 1, 1)),
        month: Some(2025 * 12),
        hour: Some(day(2025, 1, 1) * 24),
        tokens: t,
        message_count: 1,
        is_turn_start: false,
        codex_account_hash: None,
        generation_duration_ms: None,
    }
}

fn workspace_message(
    client: &str,
    session: &str,
    workspace_key: Option<&str>,
    workspace_label: Option<&str>,
) -> UsageMessage {
    let mut msg = message(client, "gemini-2.5-pro", "google", session, tokens(10, 5));
    msg.workspace_key = workspace_key.map(str::to_string);
    msg.workspace_label = workspace_label.map(str::to_string);
    msg
}

#[test]
fn test_aggregate_messages_builds_agent_usage() {
    let mut a = message("opencode", "gemini-2.5-flash", "google", "session-1", tokens(10, 5));
    a.agent = Some("Builder".to_string());
    let mut b = message("roocode", "gemini-2.5-flash", "google", "session-2", tokens(20, 10));
    b.agent = Some("Builder".to_string());

    let agents = aggregate_agents(&vec![a, b]);

    assert_eq!(agents.len(), 1);
    assert_eq!(agents[0].agent, "Builder");
    assert_eq!(agents[0].clients, "opencode, roocode");
    assert_eq!(agents[0].message_count, 2);
    assert_eq!(agents[0].tokens.total(), 45);
    assert_eq!(agents[0].members, vec![0, 1]);
}

#[test]
fn agent_rows_leave_out_messages_without_an_agent() {
    let mut a = message("opencode", "gemini-2.5-flash", "google", "session-1", tokens(10, 5));
    a.agent = Some("Builder".to_string());
    let c = message("roocode", "gemini-2.5-flash", "google", "session-3", tokens(1, 1));
    let agents = aggregate_agents(&vec![a, c]);
    assert_eq!(agents.len(), 1);
    assert_eq!(agents[0].members, vec![0]);
}

#[test]
fn test_aggregate_messages_builds_codex_account_usage() {
    let mut attributed = message("codex", "gpt-5", "openai", "session-1", SignedTokens {
        input: 10,
        output: 5,
        cache_read: 1,
        cache_write: 0,
        reasoning: 2,
    });
    attributed.codex_account_hash = Some("abc123def456".to_string());
    attributed.is_turn_start = true;
    let mut same_session = message("codex", "gpt-5", "openai", "session-1", SignedTokens {
        input: 4,
        output: 3,
        cache_read: 0,
        cache_write: 0,
        reasoning: 1,
    });
    same_session.codex_account_hash = Some("abc123def456".to_string());
    let unattributed = message("codex", "gpt-5", "openai", "session-2", tokens(2, 1));

    let accounts = build_codex_account_summaries(&vec![attributed, same_session, unattributed]);

    assert_eq!(accounts.len(), 2);
    let account = accounts.iter().find(|row| row.account_hash == "abc123def456").unwrap();
    assert_eq!(account.tokens.total(), 26);
    assert_eq!(account.session_count, 1);
    assert_eq!(account.turn_count, 1);
    assert_eq!(account.message_count, 2);
    assert_eq!(account.active_month_count, Some(1));

    let unknown = accounts.iter().find(|row| row.account_hash == "unattributed").unwrap();
    assert_eq!(unknown.session_count, 1);
    assert_eq!(unknown.active_month_count, None);
    assert_eq!(unknown.tokens.total(), 3);
}

#[test]
fn account_rows_track_months_and_date_range_for_codex_only() {
    let mut jan = message("codex", "gpt-5", "openai", "s1", tokens(1, 1));
    jan.codex_account_hash = Some("aaaaaaaaaaaa".to_string());
    let mut feb = jan.clone();
    feb.day = Some(day(2025, 2, 3));
    feb.month = Some(2025 * 12 + 1);
    let mut feb2 = feb.clone();
    feb2.session_id = "s2".to_string();
    let mut mixed = message("codex", "gpt-5", "openai", "s3", tokens(1, 1));
    mixed.codex_account_hash = Some("mixed".to_string());
    let gemini = message("gemini", "flash", "google", "s4", tokens(1, 1));

    let accounts = build_codex_account_summaries(&vec![jan, feb, feb2, mixed, gemini]);

    assert_eq!(accounts.len(), 2);
    assert_eq!(accounts[0].account_hash, "aaaaaaaaaaaa");
    assert_eq!(accounts[0].active_month_count, Some(2));
    assert_eq!(accounts[0].session_count, 2);
    assert_eq!(accounts[0].first_day, Some(day(2025, 1, 1)));
    assert_eq!(accounts[0].latest_day, Some(day(2025, 2, 3)));
    assert_eq!(accounts[1].account_hash, "mixed");
    assert_eq!(accounts[1].active_month_count, None);
}

#[test]
fn test_aggregate_messages_groups_by_workspace_and_model() {
    let models = aggregate_models(
        &vec![
            workspace_message("gemini", "session-1", Some("/repo-a"), Some("repo-a")),
            workspace_message("qwen", "session-2", Some("/repo-a"), Some("repo-a")),
        ],
        GroupBy::WorkspaceModel,
    );

    assert_eq!(models.len(), 1);
    assert_eq!(models[0].workspace_key.as_deref(), Some("/repo-a"));
    assert_eq!(models[0].workspace_label.as_deref(), Some("repo-a"));
    assert_eq!(models[0].model, "gemini-2.5-pro");
    assert_eq!(models[0].client, "gemini, qwen");
    assert_eq!(models[0].session_count, 2);
}

#[test]
fn test_aggregate_messages_workspace_grouping_keeps_unknown_bucket_visible() {
    let models = aggregate_models(
        &vec![
            workspace_message("gemini", "session-1", None, None),
            workspace_message("gemini", "session-2", None, None),
        ],
        GroupBy::WorkspaceModel,
    );

    assert_eq!(models.len(), 1);
    assert_eq!(models[0].workspace_key, None);
    assert_eq!(models[0].workspace_label.as_deref(), Some("Unknown workspace"));
    assert_eq!(models[0].session_count, 2);
}

#[test]
fn test_aggregate_messages_workspace_grouping_keeps_real_unknown_workspace_separate() {
    let models = aggregate_models(
        &vec![
            workspace_message("gemini", "session-1", Some("unknown-workspace"), Some("unknown-workspace")),
            workspace_message("gemini", "session-2", None, None),
        ],
        GroupBy::WorkspaceModel,
    );

    assert_eq!(models.len(), 2);
    assert!(models.iter().any(|model| {
        model.workspace_key.as_deref() == Some("unknown-workspace")
            && model.workspace_label.as_deref() == Some("unknown-workspace")
            && model.members == vec![0]
    }));
    assert!(models.iter().any(|model| {
        model.workspace_key.is_none()
            && model.workspace_label.as_deref() == Some("Unknown workspace")
            && model.members == vec![1]
    }));
}

#[test]
fn test_aggregate_messages_workspace_grouping_splits_daily_models_by_workspace() {
    let daily = aggregate_daily(
        &vec![
            workspace_message("gemini", "session-1", Some("/repo-a"), Some("repo-a")),
            workspace_message("gemini", "session-2", Some("/repo-b"), Some("repo-b")),
        ],
        GroupBy::WorkspaceModel,
    );

    assert_eq!(daily.len(), 1);
    let gemini = daily[0].sources.iter().find(|s| s.client == "gemini").unwrap();
    assert_eq!(gemini.models.len(), 2);
    assert_ne!(gemini.models[0].key, gemini.models[1].key);
    let names: Vec<_> = gemini.models.iter().map(|m| m.display_name.clone()).collect();
    assert_eq!(
        names,
        vec!["repo-a / gemini-2.5-pro".to_string(), "repo-b / gemini-2.5-pro".to_string()]
    );
}

#[test]
fn test_aggregate_messages_workspace_grouping_disambiguates_identical_labels() {
    let daily = aggregate_daily(
        &vec![
            workspace_message("gemini", "session-1", Some("/srv/team-a/demo"), Some("demo")),
            workspace_message("gemini", "session-2", Some("/srv/team-b/demo"), Some("demo")),
        ],
        GroupBy::WorkspaceModel,
    );

    assert_eq!(daily.len(), 1);
    let gemini = daily[0].sources.iter().find(|s| s.client == "gemini").unwrap();
    assert_eq!(gemini.models.len(), 2);
    assert_ne!(gemini.models[0].key, gemini.models[1].key);
    assert_eq!(gemini.models[0].key, "16:/srv/team-a/demo:gemini-2.5-pro");
    let names: Vec<_> = gemini.models.iter().map(|m| m.display_name.clone()).collect();
    assert_eq!(
        names,
        vec!["demo / gemini-2.5-pro".to_string(), "demo / gemini-2.5-pro".to_string()]
    );
}

#[test]
fn test_aggregate_messages_client_provider_model_splits_providers_in_daily_breakdown() {
    let daily = aggregate_daily(
        &vec![
            message("gemini", "gemini-2.5-pro", "google", "session-1", tokens(10, 5)),
            message("gemini", "gemini-2.5-pro", "github-copilot", "session-2", tokens(20, 10)),
        ],
        GroupBy::ClientProviderModel,
    );

    assert_eq!(daily.len(), 1);
    let gemini = daily[0].sources.iter().find(|s| s.client == "gemini").unwrap();
    assert_eq!(gemini.models.len(), 2);
    let google = gemini.models.iter().find(|m| m.key == "google:gemini-2.5-pro").unwrap();
    assert_eq!(google.display_name, "google / gemini-2.5-pro");
    assert_eq!(google.provider, "google");
    assert_eq!(google.tokens.total(), 15);
    assert_eq!(google.messages, 1);
    let copilot = gemini.models.iter().find(|m| m.key == "github-copilot:gemini-2.5-pro").unwrap();
    assert_eq!(copilot.display_name, "github-copilot / gemini-2.5-pro");
    assert_eq!(copilot.provider, "github-copilot");
    assert_eq!(copilot.tokens.total(), 30);
    assert_eq!(copilot.messages, 1);
}

#[test]
fn test_aggregate_messages_keeps_same_model_split_across_sources_in_daily_breakdown() {
    let daily = aggregate_daily(
        &vec![
            message("gemini", "gemini-2.5-pro", "google", "session-1", tokens(10, 5)),
            message("cursor", "gemini-2.5-pro", "google", "session-2", tokens(20, 10)),
        ],
        GroupBy::Model,
    );

    assert_eq!(daily.len(), 1);
    assert_eq!(daily[0].sources.len(), 2);
    let gemini = daily[0].sources.iter().find(|s| s.client == "gemini").unwrap();
    assert_eq!(gemini.models.len(), 1);
    assert_eq!(gemini.models[0].key, "gemini-2.5-pro");
    assert_eq!(gemini.models[0].display_name, "gemini-2.5-pro");
    assert_eq!(gemini.models[0].tokens.total(), 15);
    let cursor = daily[0].sources.iter().find(|s| s.client == "cursor").unwrap();
    assert_eq!(cursor.models.len(), 1);
    assert_eq!(cursor.models[0].display_name, "gemini-2.5-pro");
    assert_eq!(cursor.models[0].tokens.total(), 30);
}

#[test]
fn model_rows_merge_providers_and_count_sessions_per_client() {
    let msgs = vec![
        message("gemini", "flash", "google", "s1", tokens(1, 2)),
        message("gemini", "flash", "bedrock", "s1", tokens(3, 4)),
        message("cursor", "flash", "google", "s1", tokens(-5, 1)),
        message("gemini", "pro", "google", "s2", tokens(7, 0)),
    ];

    let models = aggregate_models(&msgs, GroupBy::Model);
    assert_eq!(models.len(), 2);
    assert_eq!(models[0].key, "flash");
    assert_eq!(models[1].key, "pro");
    assert_eq!(models[0].provider, "google, bedrock");
    assert_eq!(models[0].client, "gemini, cursor");
    assert_eq!(models[0].session_count, 2);
    assert_eq!(models[0].tokens.input, 4);
    assert_eq!(models[0].tokens.output, 7);
    assert_eq!(models[0].members, vec![0, 1, 2]);
    assert_eq!(total_model_tokens(&models), 18);

    let by_client = aggregate_models(&msgs, GroupBy::ClientModel);
    assert_eq!(by_client.len(), 3);
    assert_eq!(by_client[0].key, "cursor:flash");
    assert_eq!(by_client[1].key, "gemini:flash");
    assert_eq!(by_client[1].client, "gemini");
    assert_eq!(by_client[1].provider, "google, bedrock");
    assert_eq!(by_client[2].key, "gemini:pro");

    let by_provider = aggregate_models(&msgs, GroupBy::ClientProviderModel);
    assert_eq!(by_provider.len(), 4);
    assert_eq!(by_provider[1].key, "gemini:bedrock:flash");
    assert_eq!(by_provider[1].provider, "bedrock");
    assert_eq!(model_key(GroupBy::ClientProviderModel, &msgs[2]), "cursor:google:flash");
}

#[test]
fn daily_and_hourly_rows_are_latest_first() {
    let mut a = message("gemini", "flash", "google", "s1", tokens(1, 1));
    a.is_turn_start = true;
    a.message_count = 3;
    let mut b = message("gemini", "flash", "google", "s1", tokens(2, 2));
    b.day = Some(day(2025, 1, 2));
    b.hour = Some(day(2025, 1, 2) * 24 + 5);
    let mut c = message("cursor", "pro", "google", "s2", tokens(4, 4));
    c.is_turn_start = true;
    c.message_count = -2;
    let mut undated = message("cursor", "pro", "google", "s3", tokens(8, 8));
    undated.day = None;
    undated.hour = None;
    let msgs = vec![a, b, c, undated];

    let daily = aggregate_daily(&msgs, GroupBy::Model);
    assert_eq!(daily.len(), 2);
    assert_eq!(daily[0].day, day(2025, 1, 2));
    assert_eq!(daily[1].day, day(2025, 1, 1));
    assert_eq!(daily[1].members, vec![0, 2]);
    assert_eq!(daily[1].message_count, 3);
    assert_eq!(daily[1].turn_count, 2);
    assert_eq!(daily[1].tokens.total(), 10);

    let hourly = aggregate_hourly(&msgs, GroupBy::Model);
    assert_eq!(hourly.len(), 2);
    assert_eq!(hourly[0].hour, day(2025, 1, 2) * 24 + 5);
    assert_eq!(hourly[1].clients, vec!["cursor".to_string(), "gemini".to_string()]);
    assert_eq!(hourly[1].models.len(), 2);
    assert_eq!(hourly[1].models[0].key, "flash");
    assert_eq!(hourly[1].turn_count, 2);
}

#[test]
fn names_join_with_comma() {
    assert_eq!(join_comma(&vec![]), "");
    assert_eq!(join_comma(&vec!["a".to_string()]), "a");
    assert_eq!(join_comma(&vec!["a".to_string(), "b".to_string(), "c".to_string()]), "a, b, c");
}
