use tokscale::ledger::{
    apply_codex_account_ledger, apply_codex_account_ledger_to_quota_samples,
    conversation_id_from_session_id, extract_conversation_id, extract_quoted_after, hex_digit, is_uuid,
    load_codex_account_ledger, load_codex_account_ledger_for_conversations,
    load_codex_account_ledger_with_range, parse_codex_account_event, short_account_hash,
    CodexAccountLedger, LedgerRow, MessageAccount, QuotaSampleAccount,
};

const CONVERSATION_ID: &str = "019dc808-1111-7222-8333-944455556666";
const OTHER_ID: &str = "019dc808-2222-7222-8333-944455556666";

fn row(ts: i64, thread_id: Option<&str>, body: &str) -> LedgerRow {
    LedgerRow {
        ts,
        target: "codex_otel.log_only".to_string(),
        thread_id: thread_id.map(str::to_string),
        body: Some(body.to_string()),
    }
}

fn bucket(ledger: &CodexAccountLedger, conversation: &str) -> Option<String> {
    ledger
        .conversations
        .iter()
        .find(|(k, _)| k == conversation)
        .map(|(_, v)| v.clone())
}

#[test]
fn parses_conversation_and_account_id() {
    let body = format!(
        r#"event.timestamp="2026-04-26T00:00:00Z" conversation.id={CONVERSATION_ID} user.account_id="acct_a" user.email="secret@example.com""#
    );

    let parsed = parse_codex_account_event(&body).unwrap();

    assert_eq!(parsed.0, CONVERSATION_ID);
    assert_eq!(parsed.1, "acct_a");
}

#[test]
fn extracts_uuid_from_full_and_prefixed_session_ids() {
    assert_eq!(
        conversation_id_from_session_id(CONVERSATION_ID).as_deref(),
        Some(CONVERSATION_ID)
    );
    assert_eq!(
        conversation_id_from_session_id(&format!("rollout-2026-04-26-{CONVERSATION_ID}")).as_deref(),
        Some(CONVERSATION_ID)
    );
    assert_eq!(conversation_id_from_session_id("session-without-uuid"), None);
}

#[test]
fn hashes_accounts_without_exposing_raw_id() {
    let hash = short_account_hash("acct_secret");

    assert_eq!(hash.len(), 12);
    assert_eq!(hash, short_account_hash("acct_secret"));
    assert_ne!(hash, "acct_secret");
    assert!(hash.chars().all(|ch| ch.is_ascii_hexdigit()));
}

#[test]
fn short_hash_is_sha256_prefix() {
    // SHA-256("abc") starts with ba7816bf8f01.
    assert_eq!(short_account_hash("abc"), "ba7816bf8f01");
    assert_ne!(short_account_hash("acct_a"), short_account_hash("acct_b"));
}

#[test]
fn hex_digits_cover_both_ranges() {
    assert_eq!(hex_digit(0), '0');
    assert_eq!(hex_digit(9), '9');
    assert_eq!(hex_digit(10), 'a');
    assert_eq!(hex_digit(15), 'f');
}

#[test]
fn uuid_shape_is_checked() {
    assert!(is_uuid(CONVERSATION_ID));
    assert!(is_uuid("019DC808-1111-7222-8333-944455556666"));
    assert!(!is_uuid("019dc808-1111-7222-8333-94445555666"));
    assert!(!is_uuid("019dc808x1111-7222-8333-944455556666"));
    assert!(!is_uuid("019dc808-1111-7222-8333-94445555666g"));
}

#[test]
fn conversation_id_needs_uuid_and_terminator() {
    let body = format!("conversation.id={CONVERSATION_ID}, other=1");
    assert_eq!(extract_conversation_id(&body).as_deref(), Some(CONVERSATION_ID));
    let body = format!("conversation.id={CONVERSATION_ID}\"");
    assert_eq!(extract_conversation_id(&body).as_deref(), Some(CONVERSATION_ID));
    assert_eq!(extract_conversation_id("conversation.id=not-a-uuid"), None);
    assert_eq!(extract_conversation_id("no id here"), None);
}

#[test]
fn quoted_value_must_be_closed_and_non_empty() {
    assert_eq!(
        extract_quoted_after(r#"user.account_id="acct_a" x"#, "user.account_id=\"").as_deref(),
        Some("acct_a")
    );
    assert_eq!(extract_quoted_after(r#"user.account_id="" x"#, "user.account_id=\""), None);
    assert_eq!(extract_quoted_after(r#"user.account_id="open"#, "user.account_id=\""), None);
    assert_eq!(extract_quoted_after("nothing", "user.account_id=\""), None);
}

#[test]
fn maps_conflicting_accounts_to_mixed_bucket() {
    let rows = vec![
        row(0, Some(CONVERSATION_ID), r#"target=codex.sse_event user.account_id="acct_a""#),
        row(0, Some(CONVERSATION_ID), r#"target=codex.sse_event user.account_id="acct_b""#),
    ];

    let ledger = load_codex_account_ledger(true, Some(rows));

    assert!(!ledger.failed);
    assert_eq!(bucket(&ledger, CONVERSATION_ID).as_deref(), Some("mixed"));
}

#[test]
fn consistent_accounts_map_to_their_hash() {
    let body = format!(r#"conversation.id={OTHER_ID} user.account_id="acct_a""#);
    let rows = vec![
        row(0, Some(CONVERSATION_ID), r#"user.account_id="acct_a""#),
        row(0, Some(CONVERSATION_ID), r#"user.account_id="acct_a""#),
        row(0, Some("worker-thread"), &body),
    ];

    let ledger = load_codex_account_ledger(true, Some(rows));

    assert_eq!(bucket(&ledger, CONVERSATION_ID), Some(short_account_hash("acct_a")));
    assert_eq!(bucket(&ledger, OTHER_ID), Some(short_account_hash("acct_a")));
    assert_eq!(ledger.conversations.len(), 2);
}

#[test]
fn missing_db_is_empty_but_invalid_db_is_error() {
    let missing = load_codex_account_ledger(false, None);
    assert!(!missing.failed);
    assert!(missing.conversations.is_empty());

    let invalid = load_codex_account_ledger(true, None);
    assert!(invalid.failed);
    assert!(invalid.conversations.is_empty());
}

#[test]
fn range_and_target_select_rows() {
    let mut other_target = row(50, Some(CONVERSATION_ID), r#"user.account_id="acct_b""#);
    other_target.target = "codex.other".to_string();
    let rows = vec![
        row(5, Some(CONVERSATION_ID), r#"user.account_id="acct_old""#),
        row(50, Some(CONVERSATION_ID), r#"user.account_id="acct_a""#),
        other_target,
        row(500, Some(CONVERSATION_ID), r#"user.account_id="acct_new""#),
    ];

    let ledger = load_codex_account_ledger_with_range(true, Some(rows), Some(10), Some(100));

    assert_eq!(bucket(&ledger, CONVERSATION_ID), Some(short_account_hash("acct_a")));
}

#[test]
fn conversation_ledger_reads_only_requested_threads() {
    let rows = vec![
        row(1, Some(CONVERSATION_ID), r#"user.account_id="acct_a""#),
        row(1, Some(OTHER_ID), r#"user.account_id="acct_b""#),
    ];
    let requested = vec![CONVERSATION_ID.to_string()];

    let ledger = load_codex_account_ledger_for_conversations(true, &requested, Some(rows.clone()), None, None);
    assert_eq!(bucket(&ledger, CONVERSATION_ID), Some(short_account_hash("acct_a")));
    assert_eq!(bucket(&ledger, OTHER_ID), None);

    let none_requested = load_codex_account_ledger_for_conversations(true, &Vec::new(), Some(rows), None, None);
    assert!(!none_requested.failed);
    assert!(none_requested.conversations.is_empty());

    let failed = load_codex_account_ledger_for_conversations(true, &requested, None, None, None);
    assert!(failed.failed);
}

#[test]
fn applies_hash_after_parsing_messages() {
    let mut ledger = CodexAccountLedger::default();
    ledger
        .conversations
        .push((CONVERSATION_ID.to_string(), "abcdef123456".to_string()));
    let mut messages = vec![MessageAccount {
        client: "codex".to_string(),
        session_id: format!("rollout-{CONVERSATION_ID}"),
        codex_account_hash: None,
    }];

    apply_codex_account_ledger(&mut messages, &ledger);

    assert_eq!(messages[0].codex_account_hash.as_deref(), Some("abcdef123456"));
}

#[test]
fn failed_ledger_marks_codex_messages_as_ledger_error() {
    let ledger = CodexAccountLedger {
        conversations: Vec::new(),
        failed: true,
    };
    let mut messages = vec![MessageAccount {
        client: "codex".to_string(),
        session_id: CONVERSATION_ID.to_string(),
        codex_account_hash: None,
    }];

    apply_codex_account_ledger(&mut messages, &ledger);

    assert_eq!(messages[0].codex_account_hash.as_deref(), Some("ledger_error"));
}

#[test]
fn other_clients_and_unknown_conversations_are_untouched() {
    let mut ledger = CodexAccountLedger::default();
    ledger
        .conversations
        .push((CONVERSATION_ID.to_string(), "abcdef123456".to_string()));
    let mut messages = vec![
        MessageAccount {
            client: "gemini".to_string(),
            session_id: CONVERSATION_ID.to_string(),
            codex_account_hash: None,
        },
        MessageAccount {
            client: "codex".to_string(),
            session_id: OTHER_ID.to_string(),
            codex_account_hash: Some("keep".to_string()),
        },
    ];

    apply_codex_account_ledger(&mut messages, &ledger);
    apply_codex_account_ledger(&mut messages, &ledger);

    assert_eq!(messages[0].codex_account_hash, None);
    assert_eq!(messages[1].codex_account_hash.as_deref(), Some("keep"));
}

#[test]
fn quota_samples_get_their_conversation_bucket() {
    let mut ledger = CodexAccountLedger::default();
    ledger
        .conversations
        .push((CONVERSATION_ID.to_string(), "abcdef123456".to_string()));
    let mut samples = vec![
        QuotaSampleAccount {
            session_id: format!("rollout-{CONVERSATION_ID}"),
            codex_account_hash: None,
        },
        QuotaSampleAccount {
            session_id: "no-uuid".to_string(),
            codex_account_hash: None,
        },
    ];

    apply_codex_account_ledger_to_quota_samples(&mut samples, &ledger);

    assert_eq!(samples[0].codex_account_hash.as_deref(), Some("abcdef123456"));
    assert_eq!(samples[1].codex_account_hash, None);

    let failed = CodexAccountLedger {
        conversations: Vec::new(),
        failed: true,
    };
    apply_codex_account_ledger_to_quota_samples(&mut samples, &failed);
    assert_eq!(samples[1].codex_account_hash.as_deref(), Some("ledger_error"));
}
