use chrono::{Datelike, NaiveDate};
use tokscale::grouping::price_name_source;
use tokscale::order::rank_order;
use tokscale::price::{build_price_rows, build_price_summaries, PriceGroup, PriceInfo};
use tokscale::rates::{
    build_speed_rows, build_speed_summaries, build_thinking_rows, build_thinking_summaries, SpeedGroup,
    ThinkingGroup,
};
use tokscale::thinking::{format_effort_label, split_suffix_tail, split_thinking_level};
use tokscale::tokens::SignedTokens;
use tokscale::usage::UsageMessage;

fn day(y: i32, m: u32, d: u32) -> i64 {
    NaiveDate::from_ymd_opt(y, m, d).unwrap().num_days_from_ce() as i64
}

fn message(client: &str, model: &str, provider: &str, output: i64, reasoning: i64) -> UsageMessage {
    UsageMessage {
        client: client.to_string(),
        model: model.to_string(),
        provider_id: provider.to_string(),
        session_id: "s".to_string(),
        timestamp: 1_735_689_600_000,
        workspace_key: None,
        workspace_label: None,
        workspace_label_from_key: None,
        agent: None,
        day: Some(day(2025, 1, 1)),
        month: Some(2025 * 12),
        hour: Some(0),
        tokens: SignedTokens {
            input: 10,
            output,
            cache_read: 0,
            cache_write: 0,
            reasoning,
        },
        message_count: 1,
        is_turn_start: false,
        codex_account_hash: None,
        generation_duration_ms: None,
    }
}

fn make_speed_message(session_id: &str, output_tokens: i64, reasoning_tokens: i64, duration_ms: u64) -> UsageMessage {
    let mut msg = message("codex", "gpt-5.4-high", "openai", output_tokens, reasoning_tokens);
    msg.session_id = session_id.to_string();
    msg.generation_duration_ms = Some(duration_ms);
    msg
}

#[test]
fn test_speed_rows_keep_only_reasonable_tps_samples() {
    let days = build_speed_rows(&vec![
        make_speed_message("too-slow", 100, 0, 10_000),
        make_speed_message("reasonable-output", 100, 0, 2_000),
        make_speed_message("reasonable-reasoning", 50, 50, 1_000),
        make_speed_message("too-fast", 100, 0, 1),
    ]);

    let rows: Vec<SpeedGroup> = days.iter().flat_map(|d| d.rows.clone()).collect();
    assert_eq!(rows.len(), 1);
    assert_eq!(rows[0].model, "gpt-5.4");
    assert_eq!(rows[0].thinking_level, "High");
    assert_eq!(rows[0].generated_tokens, 200);
    assert_eq!(rows[0].generation_duration_ms, 3_000);
    assert_eq!(rows[0].sample_count, 2);
    let tps = rows[0].generated_tokens as f64 / (rows[0].generation_duration_ms as f64 / 1000.0);
    assert!((tps - 66.666_666_666_7).abs() < 1e-6);

    let summaries = build_speed_summaries(&rows);
    assert_eq!(summaries.len(), 1);
    assert_eq!(summaries[0].generated_tokens, 200);
    assert_eq!(summaries[0].sample_count, 2);
}

#[test]
fn thinking_levels_are_split_from_model_names() {
    let split = |m: &str| {
        let (a, b) = split_thinking_level(m);
        (a, b)
    };
    assert_eq!(split("gpt-5.4-high"), ("gpt-5.4".to_string(), "High".to_string()));
    assert_eq!(split("gpt-5.4-XHIGH"), ("gpt-5.4".to_string(), "XHigh".to_string()));
    assert_eq!(split("model_medium"), ("model".to_string(), "Medium".to_string()));
    assert_eq!(split("model-low"), ("model".to_string(), "Low".to_string()));
    assert_eq!(split("o3-Thinking"), ("o3".to_string(), "Thinking".to_string()));
    assert_eq!(
        split("pro-thinking-max-v2"),
        ("pro".to_string(), "Thinking Max V2".to_string())
    );
    assert_eq!(
        split("pro_THINKING_32k"),
        ("pro".to_string(), "Thinking 32k".to_string())
    );
    assert_eq!(split("plain"), ("plain".to_string(), "Default".to_string()));
    assert_eq!(split("x-thinking-a!b"), ("x-thinking-a!b".to_string(), "Default".to_string()));
}

#[test]
fn effort_labels_capitalise_words_and_keep_numbers() {
    assert_eq!(format_effort_label("max--v2_3"), "Max V2 3");
    assert_eq!(format_effort_label("HIGH"), "High");
    assert_eq!(format_effort_label("16"), "16");
    assert_eq!(format_effort_label(""), "");
    assert_eq!(
        split_suffix_tail("a-thinking-b-thinking-c", "-thinking-"),
        Some(("a-thinking-b".to_string(), "c".to_string()))
    );
    assert_eq!(split_suffix_tail("a-thinking-", "-thinking-"), None);
}

#[test]
fn thinking_rows_skip_messages_without_generation() {
    let mut later = message("codex", "gpt-5-high", "openai", 5, 7);
    later.day = Some(day(2025, 2, 20));
    let msgs = vec![
        message("codex", "gpt-5-high", "openai", 10, 20),
        message("opencode", "gpt-5-high", "openai", 1, 0),
        message("codex", "gpt-5-high", "openai", 0, 0),
        message("codex", "gpt-5-low", "openai", 3, 0),
        later,
    ];

    let days = build_thinking_rows(&msgs);
    assert_eq!(days.len(), 2);
    assert_eq!(days[0].day, day(2025, 2, 20));
    assert_eq!(days[1].rows.len(), 2);
    let high = days[1].rows.iter().find(|r| r.thinking_level == "High").unwrap();
    assert_eq!(high.model, "gpt-5");
    assert_eq!(high.members, vec![0, 1]);
    assert_eq!(high.tokens.output, 11);
    assert_eq!(high.tokens.reasoning, 20);
    assert_eq!(high.client_list, vec!["codex".to_string(), "opencode".to_string()]);
    assert_eq!(high.message_count, 2);

    let rows: Vec<ThinkingGroup> = days.iter().flat_map(|d| d.rows.clone()).collect();
    let summaries = build_thinking_summaries(&rows);
    assert_eq!(summaries.len(), 1);
    assert_eq!(summaries[0].model, "gpt-5");
    assert_eq!(summaries[0].latest_day, day(2025, 2, 20));
    assert_eq!(summaries[0].message_count, 4);
    assert_eq!(summaries[0].recent_output, 5);
    assert_eq!(summaries[0].recent_reasoning, 7);
    assert_eq!(summaries[0].previous_output, 14);
    assert_eq!(summaries[0].previous_reasoning, 20);
}

fn info(model: &str, category: &str, source: Option<&str>) -> PriceInfo {
    PriceInfo {
        price_model: model.to_string(),
        price_category: category.to_string(),
        pricing_source: source.map(str::to_string),
    }
}

#[test]
fn price_rows_group_by_day_and_category() {
    let msgs = vec![
        message("codex", "gpt-5", "openai", 1, 0),
        message("opencode", "gpt-5", "azure", 2, 0),
        message("codex", "gpt-5-mini", "openai", 4, 0),
    ];
    let infos = vec![
        info("gpt-5", "gpt-5", Some("litellm")),
        info("gpt-5", "gpt-5", Some("openrouter")),
        info("gpt-5-mini", "gpt-5-mini", None),
    ];

    let days = build_price_rows(&msgs, &infos);
    assert_eq!(days.len(), 1);
    assert_eq!(days[0].rows.len(), 2);
    let row = &days[0].rows[0];
    assert_eq!(row.model, "gpt-5");
    assert_eq!(row.provider, "openai, azure");
    assert_eq!(row.pricing_source.as_deref(), Some("Mixed"));
    assert_eq!(row.matched_key.as_deref(), Some("gpt-5"));
    assert_eq!(row.tokens.output, 3);
    assert_eq!(row.client_list, vec!["codex".to_string(), "opencode".to_string()]);
    assert_eq!(days[0].rows[1].pricing_source, None);

    let rows: Vec<PriceGroup> = days.iter().flat_map(|d| d.rows.clone()).collect();
    let summaries = build_price_summaries(&rows);
    assert_eq!(summaries.len(), 2);
    assert_eq!(summaries[0].model, "gpt-5");
    assert_eq!(summaries[0].latest_row, 0);
    assert_eq!(summaries[0].pricing_source.as_deref(), Some("Mixed"));
    assert_eq!(summaries[1].message_count, 1);
}

#[test]
fn price_names_strip_provider_prefix() {
    assert_eq!(price_name_source("gpt-5", &Some("openai/gpt-5-2025".to_string())), "gpt-5-2025");
    assert_eq!(price_name_source("gpt-5", &Some("openai/".to_string())), "openai/");
    assert_eq!(price_name_source("gpt-5", &None), "gpt-5");
}

#[test]
fn thinking_and_speed_rows_rank_for_display() {

    let mut a = message("codex", "gpt-5-high", "openai", 1, 1);
    a.generation_duration_ms = Some(1_000);
    let mut b = message("codex", "gpt-5-low", "openai", 50, 50);
    b.generation_duration_ms = Some(1_000);
    let mut c = message("codex", "o3-high", "openai", 40, 0);
    c.generation_duration_ms = Some(1_000);
    c.day = Some(day(2025, 1, 2));
    let mut d = message("codex", "gpt-5-medium", "openai", 60, 0);
    d.generation_duration_ms = Some(2_000);
    let msgs = vec![a, b, c, d];

    let rows: Vec<ThinkingGroup> = build_thinking_rows(&msgs).iter().flat_map(|d| d.rows.clone()).collect();
    let order = rank_order(&rows);
    let levels: Vec<String> = order.iter().map(|&i| format!("{} {}", rows[i].model, rows[i].thinking_level)).collect();
    assert_eq!(levels, vec!["o3 High", "gpt-5 Low", "gpt-5 Medium", "gpt-5 High"]);

    let speeds: Vec<SpeedGroup> = build_speed_rows(&msgs).iter().flat_map(|d| d.rows.clone()).collect();
    let order = rank_order(&speeds);
    let levels: Vec<String> = order.iter().map(|&i| speeds[i].thinking_level.clone()).collect();
    // b: 100 t/s, d: 30 t/s, a: 2 t/s (too slow, left out); c is on the later day.
    assert_eq!(levels, vec!["High", "Low", "Medium"]);

    let summaries = build_speed_summaries(&speeds);
    let order = rank_order(&summaries);
    let levels: Vec<String> = order.iter().map(|&i| summaries[i].thinking_level.clone()).collect();
    assert_eq!(levels, vec!["Low", "High", "Medium"]);
}
