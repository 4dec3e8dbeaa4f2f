use chrono::{Datelike, Local, NaiveDate, TimeZone, Timelike};
use tokscale::aggregate::{aggregate_daily, aggregate_models, total_model_tokens};
use tokscale::cached_daily::{cached_daily_row, CachedDailyModelRow, CachedDailyRow, CachedDailySourceRow};
use tokscale::dates::{EPOCH_DAY, FIRST_DAY, LAST_DAY};
use tokscale::dates::local_bucket_at_offset;
use tokscale::dates::{hour_bucket_with_fallback, local_hour_bucket, parse_date_day, parse_date_month};
use tokscale::grouping::GroupBy;
use tokscale::ledger::{conversation_id_from_session_id, session_scan_is_safe};
use tokscale::ledger::{is_whitespace_char, load_codex_account_ledger, load_codex_account_ledger_with_range, LedgerRow};
use tokscale::order::rank_order;
use tokscale::quota::QuotaSample;
use tokscale::tokens::{SignedTokens, TokenBreakdown};
use tokscale::usage::{usage_message, RawUsage};

fn day_of(y: i32, m: u32, d: u32) -> i64 {
    NaiveDate::from_ymd_opt(y, m, d).unwrap().num_days_from_ce() as i64
}

#[test]
fn test_parse_date() {
    assert_eq!(parse_date_day("2024-01-15"), Some(day_of(2024, 1, 15)));
    assert_eq!(parse_date_day("2024-12-31"), Some(day_of(2024, 12, 31)));
    assert_eq!(parse_date_day("invalid"), None);
    assert_eq!(parse_date_day("2024-13-01"), None);
    assert_eq!(parse_date_day(""), None);
}

#[test]
fn month_numbers_count_months_from_year_zero() {
    assert_eq!(parse_date_month("2024-01-15"), Some(2024 * 12));
    assert_eq!(parse_date_month("2024-12-31"), Some(2024 * 12 + 11));
    assert_eq!(parse_date_month("2024-02-30"), None);
}

#[test]
fn hour_buckets_use_local_time_or_fall_back_to_midnight() {
    assert_eq!(local_hour_bucket(0), None);
    assert_eq!(local_hour_bucket(-1_000), None);
    let ts: i64 = 1_735_689_600_000;
    let local = Local.timestamp_opt(ts / 1000, 0).single().unwrap().naive_local();
    let expected = (local.date().num_days_from_ce() as i64, local.hour() as i64);
    assert_eq!(local_hour_bucket(ts), Some(expected));
    assert_eq!(hour_bucket_with_fallback(ts, "2000-01-01"), Some(expected.0 * 24 + expected.1));
    assert_eq!(hour_bucket_with_fallback(0, "2024-01-15"), Some(day_of(2024, 1, 15) * 24));
    assert_eq!(hour_bucket_with_fallback(-5, "not a date"), None);
}

fn raw(session: &str, date: &str, timestamp: i64, input: i64) -> RawUsage {
    RawUsage {
        client: "codex".to_string(),
        model: "gpt-5".to_string(),
        provider_id: "openai".to_string(),
        session_id: session.to_string(),
        timestamp,
        date: date.to_string(),
        workspace_key: Some("/repo".to_string()),
        workspace_label: Some("repo".to_string()),
        workspace_label_from_key: None,
        agent: Some("builder".to_string()),
        tokens: SignedTokens { input, output: 5, cache_read: 0, cache_write: 0, reasoning: 1 },
        message_count: 1,
        is_turn_start: true,
        codex_account_hash: None,
        generation_duration_ms: Some(300),
    }
}

#[test]
fn usage_messages_take_their_calendar_fields_from_the_date() {
    let m = usage_message(&raw("s1", "2025-03-09", 0, 10));
    assert_eq!(m.day, Some(day_of(2025, 3, 9)));
    assert_eq!(m.month, Some(2025 * 12 + 2));
    assert_eq!(m.hour, Some(day_of(2025, 3, 9) * 24));
    assert_eq!(m.session_id, "s1");
    assert_eq!(m.workspace_key.as_deref(), Some("/repo"));
    assert_eq!(m.agent.as_deref(), Some("builder"));
    assert_eq!(m.tokens.input, 10);
    assert_eq!(m.generation_duration_ms, Some(300));

    let bad = usage_message(&raw("s2", "2025/03/09", 0, 10));
    assert_eq!(bad.day, None);
    assert_eq!(bad.month, None);
    assert_eq!(bad.hour, None);
}

#[test]
fn model_rows_conserve_every_token() {
    let msgs: Vec<_> = vec![
        raw("a", "2025-01-01", 0, 10),
        raw("b", "2025-01-02", 0, 20),
        {
            let mut r = raw("c", "2025-01-02", 0, 7);
            r.model = "gpt-5-mini".to_string();
            r
        },
    ]
    .iter()
    .map(usage_message)
    .collect();
    let rows = aggregate_models(&msgs, GroupBy::Model);
    assert_eq!(rows.len(), 2);
    let input: u64 = rows.iter().map(|r| r.tokens.input).sum();
    let output: u64 = rows.iter().map(|r| r.tokens.output).sum();
    let reasoning: u64 = rows.iter().map(|r| r.tokens.reasoning).sum();
    assert_eq!(input, 37);
    assert_eq!(output, 15);
    assert_eq!(reasoning, 3);
    assert_eq!(total_model_tokens(&rows), 55);
}

fn tb(input: u64) -> TokenBreakdown {
    TokenBreakdown { input, output: 0, cache_read: 0, cache_write: 0, reasoning: 0 }
}

fn cached_model(key: &str, client: &str, display: &str, input: u64) -> CachedDailyModelRow {
    CachedDailyModelRow {
        key: key.to_string(),
        client: client.to_string(),
        provider: "openai".to_string(),
        display_name: display.to_string(),
        color_key: String::new(),
        tokens: tb(input),
        messages: 1,
    }
}

#[test]
fn legacy_cached_days_group_models_by_client_with_unknown_for_none() {
    let row = CachedDailyRow {
        date: "2025-01-01".to_string(),
        tokens: tb(16),
        models: vec![
            cached_model("gpt-5", "", "", 1),
            cached_model("gpt-5", "codex", "", 2),
            cached_model("gpt-5-mini", "codex", "team / gpt-5-mini", 4),
            cached_model("gpt-5", "codex", "", 8),
            cached_model("o3", "", "", 1),
        ],
        source_breakdown: Vec::new(),
        message_count: 5,
        turn_count: 2,
    };
    let d = cached_daily_row(&row).unwrap();
    assert_eq!(d.day, day_of(2025, 1, 1));
    assert_eq!((d.message_count, d.turn_count), (5, 2));
    let clients: Vec<&str> = d.sources.iter().map(|s| s.client.as_str()).collect();
    assert_eq!(clients, vec!["codex", "unknown"]);
    let codex = &d.sources[0];
    assert_eq!(codex.tokens.input, 14);
    let keys: Vec<&str> = codex.models.iter().map(|m| m.key.as_str()).collect();
    assert_eq!(keys, vec!["gpt-5", "gpt-5-mini"]);
    assert_eq!(codex.models[0].tokens.input, 8);
    assert_eq!(codex.models[0].display_name, "gpt-5");
    assert_eq!(codex.models[0].color_key, "gpt-5");
    assert_eq!(codex.models[1].display_name, "team / gpt-5-mini");
    assert_eq!(codex.models[1].color_key, "gpt-5-mini");
    let unknown = &d.sources[1];
    assert_eq!(unknown.tokens.input, 2);
    assert_eq!(unknown.models.len(), 2);
}

#[test]
fn cached_days_keep_their_source_breakdown_and_reject_bad_dates() {
    let source = |key: &str, input: u64| CachedDailySourceRow {
        key: key.to_string(),
        tokens: tb(input),
        models: vec![cached_model("gpt-5", "", "", input)],
    };
    let row = CachedDailyRow {
        date: "2025-02-03".to_string(),
        tokens: tb(9),
        models: vec![cached_model("ignored", "", "", 100)],
        source_breakdown: vec![source("opencode", 3), source("codex", 1), source("codex", 5)],
        message_count: 3,
        turn_count: 1,
    };
    let d = cached_daily_row(&row).unwrap();
    let clients: Vec<&str> = d.sources.iter().map(|s| s.client.as_str()).collect();
    assert_eq!(clients, vec!["codex", "opencode"]);
    assert_eq!(d.sources[0].tokens.input, 5);
    assert_eq!(d.sources[0].models[0].tokens.input, 5);

    let mut bad = row.clone();
    bad.date = "03/02/2025".to_string();
    assert!(cached_daily_row(&bad).is_none());
}

#[test]
fn whitespace_matches_the_standard_library_on_every_character() {
    for u in 0u32..=0x10FFFF {
        if let Some(c) = char::from_u32(u) {
            assert_eq!(is_whitespace_char(c), c.is_whitespace(), "U+{u:04X}");
        }
    }
}

#[test]
fn tied_samples_keep_their_input_order() {
    let sample = |ts: i64| QuotaSample {
        codex_account_hash: Some("abc".to_string()),
        window_kind: "secondary".to_string(),
        resets_at: 100,
        window_minutes: 60,
        timestamp: ts,
    };
    let v = vec![sample(5), sample(3), sample(5), sample(1), sample(5)];
    assert_eq!(rank_order(&v), vec![3, 1, 0, 2, 4]);
}

#[test]
fn ranged_ledger_keeps_unmixed_buckets_of_the_whole_ledger() {
    let conv_a = "019a0000-0000-7000-8000-00000000000a";
    let conv_b = "019a0000-0000-7000-8000-00000000000b";
    let row = |ts: i64, conv: &str, account: &str| LedgerRow {
        ts,
        target: "codex_otel.log_only".to_string(),
        thread_id: Some(conv.to_string()),
        body: Some(format!("user.account_id=\"{account}\"")),
    };
    let rows = vec![row(10, conv_a, "acct_1"), row(20, conv_b, "acct_1"), row(30, conv_b, "acct_2")];
    let whole = load_codex_account_ledger(true, Some(rows.clone()));
    let ranged = load_codex_account_ledger_with_range(true, Some(rows), Some(15), None);
    let lookup = |l: &tokscale::ledger::CodexAccountLedger, k: &str| {
        l.conversations.iter().find(|(c, _)| c == k).map(|(_, b)| b.clone())
    };
    assert_eq!(lookup(&whole, conv_b).as_deref(), Some("mixed"));
    assert_eq!(lookup(&ranged, conv_a), None);
    assert!(lookup(&ranged, conv_b).is_some());
    let a = lookup(&whole, conv_a).unwrap();
    assert_eq!(a.len(), 12);
    assert!(a.chars().all(|c| c.is_ascii_hexdigit()));
}

#[test]
fn session_scans_that_would_split_a_character_are_detected() {
    let uuid = "019a0000-0000-7000-8000-00000000000a";
    assert!(session_scan_is_safe(uuid));
    assert!(session_scan_is_safe(&format!("x{uuid}")));
    assert!(session_scan_is_safe(&format!("{uuid}é")));
    assert!(!session_scan_is_safe(&format!("é{uuid}")));
    assert!(session_scan_is_safe("short"));
    assert_eq!(conversation_id_from_session_id(&format!("{uuid}é")).as_deref(), Some(uuid));
}

#[test]
fn daily_rows_conserve_the_tokens_of_dated_messages() {
    let msgs: Vec<_> = vec![
        raw("a", "2025-01-01", 0, 10),
        raw("b", "2025-01-02", 0, 20),
        raw("c", "2025-01-02", 0, 7),
        raw("d", "no date", 0, 1000),
    ]
    .iter()
    .map(usage_message)
    .collect();
    let days = aggregate_daily(&msgs, GroupBy::Model);
    assert_eq!(days.len(), 2);
    let input: u64 = days.iter().map(|d| d.tokens.input).sum();
    assert_eq!(input, 37);
}

fn price_row(date: &str) -> tokscale::price::PriceGroup {
    tokscale::price::PriceGroup {
        day: parse_date_day(date).unwrap(),
        model: "gpt-5.4".to_string(),
        provider: "openai".to_string(),
        pricing_source: Some("LiteLLM".to_string()),
        matched_key: Some("gpt-5.4".to_string()),
        tokens: TokenBreakdown::default(),
        client_list: Vec::new(),
        message_count: 0,
        members: vec![0],
    }
}

#[test]
fn prices_matching_series_rows_limits_to_trailing_three_months() {
    let selected = tokscale::price::PriceSummaryGroup {
        model: "gpt-5.4".to_string(),
        provider: "openai".to_string(),
        pricing_source: Some("LiteLLM".to_string()),
        matched_key: Some("gpt-5.4".to_string()),
        latest_day: parse_date_day("2026-04-21").unwrap(),
        latest_row: 0,
        tokens: TokenBreakdown::default(),
        client_list: Vec::new(),
        message_count: 0,
        members: vec![0],
    };
    let rows = vec![
        price_row("2026-01-20"),
        price_row("2026-01-21"),
        price_row("2026-02-21"),
        price_row("2026-04-21"),
        price_row("2026-04-22"),
    ];
    let picked = tokscale::series::matching_series_rows(&rows, &selected);
    let days: Vec<i64> = picked.iter().map(|&i| rows[i].day).collect();
    assert_eq!(
        days,
        vec![
            parse_date_day("2026-01-21").unwrap(),
            parse_date_day("2026-02-21").unwrap(),
            parse_date_day("2026-04-21").unwrap(),
        ]
    );
}

#[test]
fn trailing_cutoff_takes_the_last_day_of_a_shorter_month() {
    assert_eq!(
        tokscale::series::trailing_cutoff(parse_date_day("2026-05-31").unwrap()),
        parse_date_day("2026-02-28").unwrap()
    );
}

fn thinking_row(date: &str) -> tokscale::rates::ThinkingGroup {
    tokscale::rates::ThinkingGroup {
        day: parse_date_day(date).unwrap(),
        key: "gpt-5.4:Thinking High".to_string(),
        model: "gpt-5.4".to_string(),
        provider: "openai".to_string(),
        thinking_level: "Thinking High".to_string(),
        tokens: TokenBreakdown { input: 0, output: 10, cache_read: 0, cache_write: 0, reasoning: 5 },
        client_list: Vec::new(),
        message_count: 1,
        members: vec![0],
    }
}

#[test]
fn thinking_matching_series_rows_limits_to_trailing_three_months() {
    let rows = vec![
        thinking_row("2026-01-20"),
        thinking_row("2026-01-21"),
        thinking_row("2026-02-21"),
        thinking_row("2026-04-21"),
        thinking_row("2026-04-22"),
    ];
    let series = tokscale::series::thinking_series_rows(&rows, "gpt-5.4");
    let days: Vec<i64> = series.iter().map(|d| d.day).collect();
    assert_eq!(
        days,
        vec![
            parse_date_day("2026-02-21").unwrap(),
            parse_date_day("2026-04-21").unwrap(),
            parse_date_day("2026-04-22").unwrap(),
        ]
    );
    assert!(tokscale::series::thinking_series_rows(&rows, "o3").is_empty());
}

#[test]
fn thinking_series_sums_rows_of_the_same_day() {
    let mut a = thinking_row("2026-04-22");
    a.client_list = vec!["codex".to_string()];
    let mut b = thinking_row("2026-04-22");
    b.client_list = vec!["opencode".to_string(), "codex".to_string()];
    let series = tokscale::series::thinking_series_rows(&vec![a, b], "gpt-5.4");
    assert_eq!(series.len(), 1);
    assert_eq!(series[0].tokens.output, 20);
    assert_eq!(series[0].tokens.reasoning, 10);
    assert_eq!(series[0].message_count, 2);
    assert_eq!(series[0].client_list, vec!["codex".to_string(), "opencode".to_string()]);
    assert_eq!(series[0].members, vec![0, 1]);
}

#[test]
fn chrono_date_range_bounds_match_the_library() {
    assert_eq!(NaiveDate::MIN.num_days_from_ce() as i64, FIRST_DAY);
    assert_eq!(NaiveDate::MAX.num_days_from_ce() as i64, LAST_DAY);
    assert_eq!(NaiveDate::from_ymd_opt(1970, 1, 1).unwrap().num_days_from_ce() as i64, EPOCH_DAY);
}

#[test]
fn hour_buckets_match_chrono_local_time_near_the_end_of_its_range() {
    let last_second = (LAST_DAY - EPOCH_DAY) * 86400 + 86399;
    for secs in [1_i64, 86_399, 1_700_000_000, last_second - 90_000, last_second - 3_600, last_second] {
        let expected = Local
            .timestamp_opt(secs, 0)
            .single()
            .and_then(|dt| dt.naive_utc().checked_add_offset(*dt.offset()))
            .map(|l| (l.date().num_days_from_ce() as i64, l.hour() as i64));
        assert_eq!(local_hour_bucket(secs * 1000 + 999), expected, "second {secs}");
    }
    assert_eq!(local_hour_bucket((last_second + 1) * 1000), None);
}

#[test]
fn local_buckets_at_a_fixed_offset() {
    let ts = 1_735_689_600_000_i64; // 2025-01-01 00:00:00 UTC
    let d = day_of(2025, 1, 1);
    assert_eq!(local_bucket_at_offset(ts, 0), Some((d, 0)));
    assert_eq!(local_bucket_at_offset(ts + 999, 9 * 3600), Some((d, 9)));
    assert_eq!(local_bucket_at_offset(ts, -3600), Some((d - 1, 23)));
    assert_eq!(local_bucket_at_offset(ts, -86399), Some((d - 1, 0)));
    assert_eq!(local_bucket_at_offset(0, 3600), None);
    let last_second = (LAST_DAY - EPOCH_DAY) * 86400 + 86399;
    assert_eq!(local_bucket_at_offset(last_second * 1000, 0), Some((LAST_DAY, 23)));
    assert_eq!(local_bucket_at_offset(last_second * 1000, 1), None);
    assert_eq!(local_bucket_at_offset((last_second + 1) * 1000, -7200), None);
}
