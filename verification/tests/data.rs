use std::path::PathBuf;

use chrono::{Datelike, NaiveDate};
use tokscale::cache::{parse_quota_confidence, QuotaConfidence};
use tokscale::loader::DataLoader;
use tokscale::profile::{aggregate_by_period, aggregate_by_weekday, HourlyTokens};
use tokscale::streaks::calculate_streaks_for_today;
use tokscale::tokens::{generated_tokens, has_reasonable_tokens_per_second, SignedTokens, TokenBreakdown};

fn day(y: i32, m: u32, d: u32) -> i64 {
    NaiveDate::from_ymd_opt(y, m, d).unwrap().num_days_from_ce() as i64
}

#[test]
fn test_token_breakdown_total() {
    let breakdown = TokenBreakdown {
        input: 100,
        output: 200,
        cache_read: 50,
        cache_write: 25,
        reasoning: 10,
    };
    assert_eq!(breakdown.total(), 385);
}

#[test]
fn test_token_breakdown_total_with_overflow() {
    let breakdown = TokenBreakdown {
        input: u64::MAX,
        output: 1,
        cache_read: 0,
        cache_write: 0,
        reasoning: 0,
    };
    assert_eq!(breakdown.total(), u64::MAX);
}

#[test]
fn test_token_breakdown_default() {
    let breakdown = TokenBreakdown::default();
    assert_eq!(breakdown.input, 0);
    assert_eq!(breakdown.output, 0);
    assert_eq!(breakdown.cache_read, 0);
    assert_eq!(breakdown.cache_write, 0);
    assert_eq!(breakdown.reasoning, 0);
    assert_eq!(breakdown.total(), 0);
}

#[test]
fn token_breakdown_adds_and_clamps() {
    let mut a = TokenBreakdown::from_signed(&SignedTokens {
        input: -5,
        output: 7,
        cache_read: 0,
        cache_write: 1,
        reasoning: -1,
    });
    assert_eq!(a.input, 0);
    assert_eq!(a.output, 7);
    assert_eq!(a.reasoning, 0);
    let b = TokenBreakdown {
        input: u64::MAX,
        output: 3,
        cache_read: 2,
        cache_write: 0,
        reasoning: 4,
    };
    a.add_tokens(&b);
    assert_eq!(a.input, u64::MAX);
    assert_eq!(a.output, 10);
    assert_eq!(a.cache_read, 2);
    assert_eq!(a.cache_write, 1);
    assert_eq!(a.reasoning, 4);
}

#[test]
fn generated_tokens_ignore_negative_counts() {
    assert_eq!(generated_tokens(100, 50), 150);
    assert_eq!(generated_tokens(-3, 50), 50);
    assert_eq!(generated_tokens(i64::MAX, 5), i64::MAX as u64);
}

#[test]
fn reasonable_speed_window_is_inclusive() {
    assert!(!has_reasonable_tokens_per_second(0, 1000));
    assert!(!has_reasonable_tokens_per_second(100, 0));
    assert!(has_reasonable_tokens_per_second(30, 1000));
    assert!(!has_reasonable_tokens_per_second(29, 1000));
    assert!(has_reasonable_tokens_per_second(1000, 1000));
    assert!(!has_reasonable_tokens_per_second(1001, 1000));
    assert!(!has_reasonable_tokens_per_second(100, 10_000));
    assert!(has_reasonable_tokens_per_second(100, 2_000));
    assert!(!has_reasonable_tokens_per_second(100, 1));
}

#[test]
fn test_data_loader_new() {
    let loader = DataLoader::new(None);
    assert!(loader._sessions_path.is_none());
    assert!(loader.since.is_none());
    assert!(loader.until.is_none());
    assert!(loader.year.is_none());
}

#[test]
fn test_data_loader_with_filters() {
    let loader = DataLoader::with_filters(
        Some(PathBuf::from("/tmp/sessions")),
        Some("2024-01-01".to_string()),
        Some("2024-12-31".to_string()),
        Some("2024".to_string()),
    );

    assert_eq!(loader._sessions_path, Some(PathBuf::from("/tmp/sessions")));
    assert_eq!(loader.since, Some("2024-01-01".to_string()));
    assert_eq!(loader.until, Some("2024-12-31".to_string()));
    assert_eq!(loader.year, Some("2024".to_string()));
}

#[test]
fn scan_sources_append_synthetic_when_included() {
    let enabled = vec!["gemini".to_string(), "codex".to_string()];
    assert_eq!(DataLoader::scan_sources(&enabled, false), enabled);
    assert_eq!(
        DataLoader::scan_sources(&enabled, true),
        vec!["gemini".to_string(), "codex".to_string(), "synthetic".to_string()]
    );
}

#[test]
fn quota_confidence_labels() {
    assert_eq!(QuotaConfidence::High.as_str(), "High");
    assert_eq!(QuotaConfidence::Medium.as_str(), "Medium");
    assert_eq!(QuotaConfidence::Low.as_str(), "Low");
    assert_eq!(parse_quota_confidence("High"), QuotaConfidence::High);
    assert_eq!(parse_quota_confidence("Medium"), QuotaConfidence::Medium);
    assert_eq!(parse_quota_confidence("high"), QuotaConfidence::Low);
    assert_eq!(QuotaConfidence::default(), QuotaConfidence::Low);
}

#[test]
fn test_calculate_streaks_uses_provided_today() {
    let today = day(2026, 3, 3);
    let daily = vec![day(2026, 3, 2), day(2026, 3, 3)];
    let (current, longest) = calculate_streaks_for_today(&daily, today);
    assert_eq!(current, 2);
    assert_eq!(longest, 2);
}

#[test]
fn streaks_fall_back_to_yesterday_and_find_longest_run() {
    let today = day(2026, 3, 10);
    let daily = vec![
        day(2026, 3, 9),
        day(2026, 3, 8),
        day(2026, 3, 1),
        day(2026, 3, 2),
        day(2026, 3, 3),
        day(2026, 3, 4),
        day(2026, 3, 2),
    ];
    let (current, longest) = calculate_streaks_for_today(&daily, today);
    assert_eq!(current, 2);
    assert_eq!(longest, 4);

    assert_eq!(calculate_streaks_for_today(&Vec::new(), today), (0, 0));
    assert_eq!(calculate_streaks_for_today(&vec![day(2026, 1, 1)], today), (0, 1));
}

fn hourly(hour: u32, weekday: u32, input: u64) -> HourlyTokens {
    HourlyTokens {
        hour,
        weekday_from_monday: weekday,
        tokens: TokenBreakdown {
            input,
            output: 0,
            cache_read: 0,
            cache_write: 0,
            reasoning: 0,
        },
    }
}

#[test]
fn periods_partition_the_day() {
    let entries = vec![hourly(5, 0, 1), hourly(11, 1, 2), hourly(12, 2, 4), hourly(21, 3, 8), hourly(23, 4, 16), hourly(3, 6, 32)];
    let periods = aggregate_by_period(&entries);
    assert_eq!(periods.len(), 4);
    assert_eq!(periods[0].label, "Morning");
    assert_eq!(periods[0].hour_range, "05:00-11:59");
    assert_eq!(periods[0].total_tokens, 3);
    assert_eq!(periods[1].label, "Daytime");
    assert_eq!(periods[1].total_tokens, 4);
    assert_eq!(periods[2].label, "Evening");
    assert_eq!(periods[2].total_tokens, 8);
    assert_eq!(periods[3].label, "Night");
    assert_eq!(periods[3].hour_range, "22:00-04:59");
    assert_eq!(periods[3].total_tokens, 48);

    let weekdays = aggregate_by_weekday(&entries);
    assert_eq!(weekdays.len(), 7);
    assert_eq!(weekdays[0].day, "Monday");
    assert_eq!(weekdays[0].total_tokens, 1);
    assert_eq!(weekdays[5].day, "Saturday");
    assert_eq!(weekdays[5].total_tokens, 0);
    assert_eq!(weekdays[6].day, "Sunday");
    assert_eq!(weekdays[6].total_tokens, 32);
}
