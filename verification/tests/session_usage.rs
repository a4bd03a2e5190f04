use std::collections::HashMap;

use cc_switch::json::{JsonNumber, JsonValue};
use cc_switch::services::session_usage_pi_agent::{
    count_insert_outcomes, created_at_for, parse_line, record_usage, scan_session_lines, session_log_row, session_log_rows,
    session_request_id, should_replace, sync_pi_agent_usage, sync_single_file, InsertOutcome, LineEvent,
    PiAgentAssistantUsage, UsageCosts,
};

fn model_of(value: serde_json::Value) -> JsonValue {
    match value {
        serde_json::Value::Null => JsonValue::Null,
        serde_json::Value::Bool(b) => JsonValue::Bool(b),
        serde_json::Value::Number(n) => match (n.as_u64(), n.as_i64()) {
            (Some(u), _) => JsonValue::Number(JsonNumber::PosInt(u)),
            (None, Some(i)) => JsonValue::Number(JsonNumber::NegInt(i)),
            _ => JsonValue::Number(JsonNumber::Decimal(n.to_string())),
        },
        serde_json::Value::String(s) => JsonValue::String(s),
        serde_json::Value::Array(items) => JsonValue::Array(items.into_iter().map(model_of).collect()),
        serde_json::Value::Object(members) => {
            JsonValue::Object(members.into_iter().map(|(k, v)| (k, model_of(v))).collect())
        }
    }
}

fn parse(line: &str) -> Option<JsonValue> {
    serde_json::from_str::<serde_json::Value>(line).ok().map(model_of)
}

fn usage(id: &str, output_tokens: u32, stop_reason: Option<&str>) -> PiAgentAssistantUsage {
    PiAgentAssistantUsage {
        message_id: id.to_string(),
        model: "opus-4-8".to_string(),
        provider: Some("anthropic".to_string()),
        input_tokens: 3,
        output_tokens,
        cache_read_tokens: 5000,
        cache_creation_tokens: 10000,
        stop_reason: stop_reason.map(|s| s.to_string()),
        timestamp: Some("2026-07-14T12:00:00Z".to_string()),
        session_id: None,
    }
}

#[test]
fn test_parse_usage_from_jsonl_line() {
    let line = r#"{"type":"message","id":"msg_test123","parentId":"prev456","timestamp":"2026-07-14T12:00:00Z","message":{"role":"assistant","provider":"anthropic","model":"opus-4-8","usage":{"input_tokens":3,"output_tokens":150,"cache_read_input_tokens":5000,"cache_creation_input_tokens":10000},"stopReason":"end_turn"}}"#;

    let value = parse(line).unwrap();
    assert_eq!(value.get("type").and_then(|t| t.as_str()), Some("message"));

    let message = value.get("message").unwrap();
    let usage = message.get("usage").unwrap();

    assert_eq!(usage.get("input_tokens").unwrap().as_u64().unwrap(), 3);
    assert_eq!(usage.get("output_tokens").unwrap().as_u64().unwrap(), 150);
    assert_eq!(usage.get("cache_read_input_tokens").unwrap().as_u64().unwrap(), 5000);
    assert_eq!(usage.get("cache_creation_input_tokens").unwrap().as_u64().unwrap(), 10000);
    assert_eq!(message.get("stopReason").unwrap().as_str().unwrap(), "end_turn");

    match parse_line(&value, &Some("session-1".to_string())) {
        LineEvent::Usage(u) => {
            assert_eq!(u.message_id, "msg_test123");
            assert_eq!(u.model, "opus-4-8");
            assert_eq!(u.provider.as_deref(), Some("anthropic"));
            assert_eq!(u.input_tokens, 3);
            assert_eq!(u.output_tokens, 150);
            assert_eq!(u.cache_read_tokens, 5000);
            assert_eq!(u.cache_creation_tokens, 10000);
            assert_eq!(u.stop_reason.as_deref(), Some("end_turn"));
            assert_eq!(u.timestamp.as_deref(), Some("2026-07-14T12:00:00Z"));
            assert_eq!(u.session_id.as_deref(), Some("session-1"));
        }
        other => panic!("expected a usage, got {other:?}"),
    }
}

#[test]
fn test_parse_session_header() {
    let line = r#"{"type":"session","version":3,"id":"uuid-abc-123","timestamp":"2026-07-14T12:00:00Z","cwd":"/home/user/project"}"#;
    let value = parse(line).unwrap();
    assert_eq!(value.get("type").and_then(|t| t.as_str()), Some("session"));
    assert_eq!(value.get("id").and_then(|v| v.as_str()), Some("uuid-abc-123"));
    match parse_line(&value, &None) {
        LineEvent::Session(id) => assert_eq!(id, "uuid-abc-123"),
        other => panic!("expected a session header, got {other:?}"),
    }
}

#[test]
fn test_skip_user_messages() {
    let line = r#"{"type":"message","id":"msg_user","parentId":"prev","timestamp":"2026-07-14T12:00:00Z","message":{"role":"user","content":"Hello"}}"#;
    let value = parse(line).unwrap();
    let message = value.get("message").unwrap();
    let role = message.get("role").and_then(|v| v.as_str()).unwrap();
    assert_eq!(role, "user");
    assert!(message.get("usage").is_none());
    assert!(matches!(parse_line(&value, &None), LineEvent::Skip));
}

#[test]
fn test_dedup_by_message_id() {
    let mut messages: HashMap<String, PiAgentAssistantUsage> = HashMap::new();

    let intermediate = PiAgentAssistantUsage {
        message_id: "msg_1".to_string(),
        model: "opus-4-8".to_string(),
        provider: Some("anthropic".to_string()),
        input_tokens: 3,
        output_tokens: 26,
        cache_read_tokens: 5000,
        cache_creation_tokens: 10000,
        stop_reason: None,
        timestamp: Some("2026-07-14T12:00:00Z".to_string()),
        session_id: None,
    };
    messages.insert("msg_1".to_string(), intermediate);

    let final_entry = PiAgentAssistantUsage {
        message_id: "msg_1".to_string(),
        model: "opus-4-8".to_string(),
        provider: Some("anthropic".to_string()),
        input_tokens: 3,
        output_tokens: 1349,
        cache_read_tokens: 5000,
        cache_creation_tokens: 10000,
        stop_reason: Some("end_turn".to_string()),
        timestamp: Some("2026-07-14T12:00:00Z".to_string()),
        session_id: None,
    };

    let should_replace = final_entry.stop_reason.is_some()
        && messages.get("msg_1").unwrap().stop_reason.is_none();
    assert!(should_replace);

    messages.insert("msg_1".to_string(), final_entry);
    assert_eq!(messages.get("msg_1").unwrap().output_tokens, 1349);
}

#[test]
fn test_skip_non_message_entries() {
    let branch = r#"{"type":"branch_summary","id":"g7h8i9j0","parentId":"a1b2c3d4","timestamp":"2026-07-14T12:15:00Z","fromId":"f6g7h8i9","summary":"Branch explored approach A..."}"#;
    let value = parse(branch).unwrap();
    assert_eq!(value.get("type").and_then(|t| t.as_str()), Some("branch_summary"));
    assert!(value.get("message").is_none());
    assert!(matches!(parse_line(&value, &None), LineEvent::Skip));
}

#[test]
fn record_usage_prefers_final_then_more_output() {
    let mut table = Vec::new();
    record_usage(&mut table, usage("msg_1", 26, None));
    record_usage(&mut table, usage("msg_2", 10, None));
    record_usage(&mut table, usage("msg_1", 1349, Some("end_turn")));
    assert_eq!(table.len(), 2);
    assert_eq!(table[0].output_tokens, 1349);
    // a later usage without a stop reason does not replace one with it
    record_usage(&mut table, usage("msg_1", 5000, None));
    assert_eq!(table[0].output_tokens, 1349);
    // between two without a stop reason, more output wins; fewer does not
    record_usage(&mut table, usage("msg_2", 9, None));
    assert_eq!(table[1].output_tokens, 10);
    record_usage(&mut table, usage("msg_2", 11, None));
    assert_eq!(table[1].output_tokens, 11);
    assert!(should_replace(None, &usage("x", 0, None)));
}

#[test]
fn scan_keeps_one_usage_per_message_and_tracks_sessions() {
    let lines: Vec<Option<JsonValue>> = vec![
        parse(r#"{"type":"session","id":"s-1"}"#),
        parse(r#"{"type":"message","id":"m1","message":{"role":"assistant","model":"m","usage":{"input_tokens":1,"output_tokens":2}}}"#),
        None,
        parse(r#"{"type":"message","id":"m1","message":{"role":"assistant","model":"m","usage":{"input_tokens":1,"output_tokens":7},"stopReason":"stop"}}"#),
        parse(r#"{"type":"message","id":"zero","message":{"role":"assistant","usage":{"input_tokens":0}}}"#),
        parse(r#"{"type":"message","id":"m2","message":{"role":"assistant","usage":{"output_tokens":4294967297}}}"#),
    ];
    let scan = scan_session_lines(&lines, 0);
    assert_eq!(scan.line_offset, 6);
    assert_eq!(scan.messages.len(), 2);
    assert_eq!(scan.messages[0].message_id, "m1");
    assert_eq!(scan.messages[0].output_tokens, 7);
    assert_eq!(scan.messages[0].session_id.as_deref(), Some("s-1"));
    // the count is cut to 32 bits
    assert_eq!(scan.messages[1].output_tokens, 1);
    assert_eq!(scan.messages[1].model, "unknown");

    // lines read by an earlier sync are passed over
    let rescan = scan_session_lines(&lines, 6);
    assert!(rescan.messages.is_empty());
    assert_eq!(rescan.line_offset, 6);
}

#[test]
fn sync_single_file_skips_unchanged_files() {
    let lines = vec![parse(r#"{"type":"message","id":"m","message":{"role":"assistant","usage":{"input_tokens":5}}}"#)];
    assert!(sync_single_file(100, 100, 0, &lines).is_none());
    let scan = sync_single_file(101, 100, 0, &lines).unwrap();
    assert_eq!(scan.messages.len(), 1);
}

#[test]
fn created_at_uses_parsed_timestamp_or_now() {
    assert_eq!(created_at_for(&Some("1970-01-01T00:16:45Z".to_string()), 7), 1005);
    assert_eq!(created_at_for(&Some("2026-07-14T12:00:00+02:00".to_string()), 7), 1784023200);
    assert_eq!(created_at_for(&Some("not a time".to_string()), 7), 7);
    assert_eq!(created_at_for(&None, 42), 42);
}

#[test]
fn log_rows_use_defaults_for_missing_values() {
    assert_eq!(session_request_id("msg_1"), "pi_agent_session:msg_1");
    let mut msg = usage("msg_1", 20, Some("end_turn"));
    msg.provider = None;
    msg.session_id = Some("session-1".to_string());
    let row = session_log_row("pi_agent_session:msg_1", &msg, 1000, None);
    assert_eq!(row.provider_id, "_pi_agent_session");
    assert_eq!(row.app_type, "pi-agent");
    assert_eq!(row.total_cost_usd, "0");
    assert_eq!(row.status_code, 200);
    assert_eq!(row.cost_multiplier, "1.0");
    assert_eq!(row.session_id.as_deref(), Some("session-1"));
    assert_eq!(row.data_source, "pi_agent_session");
    let costs = UsageCosts {
        input_cost: "0.1".to_string(),
        output_cost: "0.2".to_string(),
        cache_read_cost: "0.3".to_string(),
        cache_creation_cost: "0.4".to_string(),
        total_cost: "1.0".to_string(),
    };
    let priced = session_log_row("r", &usage("m", 1, None), 5, Some(costs));
    assert_eq!(priced.provider_id, "anthropic");
    assert_eq!(priced.total_cost_usd, "1.0");
    assert_eq!(priced.cache_creation_cost_usd, "0.4");
}

#[test]
fn sync_totals_add_up_per_file() {
    let outcomes: Vec<Result<(u32, u32), String>> = vec![Ok((2, 1)), Err("a.jsonl: broken".to_string()), Ok((3, 0))];
    let result = sync_pi_agent_usage(&outcomes);
    assert_eq!(result.imported, 5);
    assert_eq!(result.skipped, 1);
    assert_eq!(result.files_scanned, 3);
    assert_eq!(result.errors, vec!["a.jsonl: broken".to_string()]);
    let empty = sync_pi_agent_usage(&Vec::new());
    assert_eq!((empty.imported, empty.skipped, empty.files_scanned), (0, 0, 0));
}

#[test]
fn insert_outcomes_are_counted() {
    let outcomes = vec![InsertOutcome::Inserted, InsertOutcome::Duplicate, InsertOutcome::Failed("x".to_string()), InsertOutcome::Inserted];
    assert_eq!(count_insert_outcomes(&outcomes), (2, 2));
}

#[test]
fn log_rows_are_built_for_each_usage_that_counts_tokens() {
    let mut idle = usage("idle", 0, None);
    idle.input_tokens = 0;
    idle.cache_read_tokens = 0;
    idle.cache_creation_tokens = 0;
    let mut first = usage("a", 7, Some("end_turn"));
    first.timestamp = Some("1970-01-01T00:00:10Z".to_string());
    let mut second = usage("b", 9, None);
    second.timestamp = None;
    let messages = vec![first, idle, second];
    let costs = vec![
        None,
        None,
        Some(UsageCosts {
            input_cost: "1".to_string(),
            output_cost: "2".to_string(),
            cache_read_cost: "3".to_string(),
            cache_creation_cost: "4".to_string(),
            total_cost: "10".to_string(),
        }),
    ];
    let rows = session_log_rows(&messages, 99, costs);
    assert_eq!(rows.len(), 2);
    assert_eq!(rows[0].request_id, "pi_agent_session:a");
    assert_eq!(rows[0].created_at, 10);
    assert_eq!(rows[0].output_tokens, 7);
    assert_eq!(rows[0].total_cost_usd, "0");
    assert_eq!(rows[1].request_id, "pi_agent_session:b");
    assert_eq!(rows[1].created_at, 99);
    assert_eq!(rows[1].total_cost_usd, "10");
}

#[test]
fn resync_from_the_state_left_keeps_nothing() {
    let lines = vec![
        parse(r#"{"type":"message","id":"m1","message":{"role":"assistant","usage":{"input_tokens":5}}}"#),
        parse(r#"{"type":"message","id":"m2","message":{"role":"assistant","usage":{"output_tokens":2}}}"#),
    ];
    let first = sync_single_file(200, 0, 0, &lines).unwrap();
    assert_eq!(first.messages.len(), 2);
    let offset = first.line_offset;
    assert!(sync_single_file(200, 200, offset, &lines).is_none());
    let touched = sync_single_file(300, 200, offset, &lines).unwrap();
    assert!(touched.messages.is_empty());
    assert_eq!(touched.line_offset, 2);
}
