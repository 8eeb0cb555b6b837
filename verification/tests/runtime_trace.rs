//! The runtime trace.

use mentat::config::ObservabilityConfig;
use mentat::json::{json_from_value, parse_json, Json, JsonMap};
use mentat::observability::runtime_trace::{
    configured_path, event_lines, find_event_by_id, init_from_config, load_events, record_event,
    resolve_trace_path, storage_mode_from_config, storage_mode_is_unknown, trace_api_request,
    RuntimeTraceEvent, RuntimeTraceLogger, RuntimeTraceStorageMode,
};
use serde::ser::{Error, SerializeStruct};

fn test_observability_config() -> ObservabilityConfig {
    ObservabilityConfig {
        backend: "none".to_string(),
        otel_endpoint: None,
        otel_service_name: None,
        runtime_trace_mode: "rolling".to_string(),
        runtime_trace_path: "state/runtime-trace.jsonl".to_string(),
        runtime_trace_max_entries: 3,
    }
}

fn event(id: &str, event_type: &str, message: Option<&str>, payload: &str) -> RuntimeTraceEvent {
    RuntimeTraceEvent {
        id: id.into(),
        timestamp: "2026-01-01T00:00:00+00:00".into(),
        event_type: event_type.into(),
        channel: None,
        provider: None,
        model: None,
        session_id: None,
        turn_id: None,
        success: None,
        message: message.map(str::to_string),
        payload: parse_json(payload).expect("valid JSON"),
    }
}

/// An event as one line of JSON: its id and its message.
fn written(e: &RuntimeTraceEvent) -> String {
    Json::Object(
        JsonMap::new()
            .with("id", Json::Text(e.id.clone()))
            .with("message", Json::Text(e.message.clone().unwrap_or_default())),
    )
    .render()
}

/// Reads what [`written`] gave.
fn read(line: &str) -> Option<RuntimeTraceEvent> {
    let value = parse_json(line)?;
    let id = value.get("id")?.as_str()?.to_string();
    let message = value.get("message")?.as_str()?.to_string();
    Some(event(&id, "test", Some(&message), "null"))
}

/// Does to a file's content what the logger asks for.
fn write_event(logger: &RuntimeTraceLogger, content: &mut String, line: &str) {
    if let Some(tail) = logger.append(line) {
        content.push_str(&tail);
        if logger.trims() {
            if let Some(rewritten) = logger.trim_to_last_entries(content) {
                *content = rewritten;
            }
        }
    }
}

fn ids(events: &[RuntimeTraceEvent]) -> Vec<&str> {
    events.iter().map(|e| e.id.as_str()).collect()
}

// ── Settings ─────────────────────────────────────────────────────────

#[test]
fn resolve_trace_path_relative_joins_workspace() {
    let cfg = test_observability_config();
    let path = resolve_trace_path(&cfg, "/work/space");
    assert_eq!(path, "/work/space/state/runtime-trace.jsonl");
    let expected = std::path::Path::new("/work/space").join("state/runtime-trace.jsonl");
    assert_eq!(std::path::Path::new(&path), expected);
}

#[test]
fn trace_path_absolute_or_blank() {
    let mut cfg = test_observability_config();
    cfg.runtime_trace_path = "  /var/log/t.jsonl ".into();
    assert_eq!(resolve_trace_path(&cfg, "/w"), "/var/log/t.jsonl");
    cfg.runtime_trace_path = " \t".into();
    assert_eq!(resolve_trace_path(&cfg, "/w/"), "/w/state/runtime-trace.jsonl");
    cfg.runtime_trace_path = "t.jsonl".into();
    assert_eq!(resolve_trace_path(&cfg, ""), "t.jsonl");
}

#[test]
fn configured_path_is_trimmed_or_the_default() {
    let mut cfg = test_observability_config();
    cfg.runtime_trace_path = " C:\\t.jsonl ".into();
    assert_eq!(configured_path(&cfg), "C:\\t.jsonl");
    cfg.runtime_trace_path = " ".into();
    assert_eq!(configured_path(&cfg), "state/runtime-trace.jsonl");
}

#[test]
fn storage_mode_parses_known_values() {
    let mut cfg = test_observability_config();
    cfg.runtime_trace_mode = "none".into();
    assert_eq!(storage_mode_from_config(&cfg), RuntimeTraceStorageMode::Off);

    cfg.runtime_trace_mode = "rolling".into();
    assert_eq!(
        storage_mode_from_config(&cfg),
        RuntimeTraceStorageMode::Rolling
    );

    cfg.runtime_trace_mode = "full".into();
    assert_eq!(storage_mode_from_config(&cfg), RuntimeTraceStorageMode::Full);
}

#[test]
fn mode_ignores_case_and_space() {
    assert_eq!(
        RuntimeTraceStorageMode::from_raw("  RoLLing\n"),
        RuntimeTraceStorageMode::Rolling
    );
    assert_eq!(
        RuntimeTraceStorageMode::from_raw("FULL"),
        RuntimeTraceStorageMode::Full
    );
    assert_eq!(
        RuntimeTraceStorageMode::from_raw("fully"),
        RuntimeTraceStorageMode::Off
    );
}

#[test]
fn unknown_modes_are_told_apart_from_none() {
    let mut cfg = test_observability_config();
    assert!(!storage_mode_is_unknown(&cfg));
    cfg.runtime_trace_mode = "NONE".into();
    assert!(!storage_mode_is_unknown(&cfg));
    cfg.runtime_trace_mode = "  ".into();
    assert!(!storage_mode_is_unknown(&cfg));
    cfg.runtime_trace_mode = "sometimes".into();
    assert!(storage_mode_is_unknown(&cfg));
    cfg.runtime_trace_mode = " none".into();
    assert!(storage_mode_is_unknown(&cfg));
}

#[test]
fn logger_follows_the_configuration() {
    let mut cfg = test_observability_config();
    let logger = init_from_config(&cfg, "/w").expect("a logger");
    assert!(logger.appends());
    assert!(logger.trims());
    assert_eq!(logger.path(), "/w/state/runtime-trace.jsonl");

    cfg.runtime_trace_mode = "full".into();
    let full = init_from_config(&cfg, "/w").expect("a logger");
    assert!(full.appends());
    assert!(!full.trims());

    cfg.runtime_trace_mode = "none".into();
    assert!(init_from_config(&cfg, "/w").is_none());
}

// ── Writing ──────────────────────────────────────────────────────────

#[test]
fn rolling_mode_keeps_latest_entries() {
    let logger = RuntimeTraceLogger::new(RuntimeTraceStorageMode::Rolling, 2, "trace.jsonl".into());
    let mut content = String::new();

    for i in 0..5 {
        let e = event(
            &format!("id-{i}"),
            "test",
            Some(&format!("event-{i}")),
            &format!("{{\"i\": {i}}}"),
        );
        write_event(&logger, &mut content, &written(&e));
    }

    let parsed = event_lines(&content).iter().map(|l| read(l)).collect();
    let events = load_events(parsed, 10, None, None);
    assert_eq!(events.len(), 2);
    assert_eq!(events[0].message.as_deref(), Some("event-4"));
    assert_eq!(events[1].message.as_deref(), Some("event-3"));
}

#[test]
fn trimming_keeps_the_last_entries_and_settles() {
    let logger = RuntimeTraceLogger::new(RuntimeTraceStorageMode::Rolling, 2, "t".into());
    let rewritten = logger
        .trim_to_last_entries("a\n\n  b  \r\nc")
        .expect("rewritten");
    assert_eq!(rewritten, "b\nc\n");
    assert!(logger.trim_to_last_entries(&rewritten).is_none());
    assert!(logger.trim_to_last_entries("").is_none());
}

#[test]
fn at_least_one_entry_is_kept() {
    let logger = RuntimeTraceLogger::new(RuntimeTraceStorageMode::Rolling, 0, "t".into());
    assert!(logger.trim_to_last_entries("a\n").is_none());
    assert_eq!(logger.trim_to_last_entries("a\nb\n").as_deref(), Some("b\n"));
}

#[test]
fn full_mode_keeps_everything_and_off_writes_nothing() {
    let full = RuntimeTraceLogger::new(RuntimeTraceStorageMode::Full, 1, "t".into());
    let mut content = String::new();
    write_event(&full, &mut content, "a");
    write_event(&full, &mut content, "b");
    assert_eq!(content, "a\nb\n");

    let off = RuntimeTraceLogger::new(RuntimeTraceStorageMode::Off, 1, "t".into());
    assert!(off.append("c").is_none());
    write_event(&off, &mut content, "c");
    assert_eq!(content, "a\nb\n");
}

// ── Events ───────────────────────────────────────────────────────────

#[test]
fn recorded_event_has_a_fresh_id_and_the_time() {
    let logger = RuntimeTraceLogger::new(RuntimeTraceStorageMode::Full, 1, "t".into());
    let make = || {
        record_event(
            Some(&logger),
            Some("s-1".into()),
            "tool_call",
            Some("slack"),
            Some("ollama"),
            Some("m"),
            Some("turn-1"),
            Some(true),
            Some("done"),
            Json::Bool(true),
        )
        .expect("an event")
    };
    let e = make();
    assert_eq!(e.event_type, "tool_call");
    assert_eq!(e.channel.as_deref(), Some("slack"));
    assert_eq!(e.provider.as_deref(), Some("ollama"));
    assert_eq!(e.model.as_deref(), Some("m"));
    assert_eq!(e.session_id.as_deref(), Some("s-1"));
    assert_eq!(e.turn_id.as_deref(), Some("turn-1"));
    assert_eq!(e.success, Some(true));
    assert_eq!(e.message.as_deref(), Some("done"));
    assert_eq!(e.payload, Json::Bool(true));
    assert_ne!(e.id, make().id);
    assert!(uuid::Uuid::parse_str(&e.id).is_ok());
    assert!(chrono::DateTime::parse_from_rfc3339(&e.timestamp).is_ok());
}

#[test]
fn nothing_is_recorded_without_a_logger() {
    let none = record_event(None, None, "x", None, None, None, None, None, None, Json::Null);
    assert!(none.is_none());
    let off = RuntimeTraceLogger::new(RuntimeTraceStorageMode::Off, 1, "t".into());
    let off_event = record_event(
        Some(&off),
        None,
        "x",
        None,
        None,
        None,
        None,
        None,
        None,
        Json::Null,
    );
    assert!(off_event.is_none());
    assert!(trace_api_request(None, None, Ok(Json::Null), "p", "m", None).is_none());
}

struct FakeRequest {
    model: String,
    messages: Vec<String>,
}

impl serde::Serialize for FakeRequest {
    fn serialize<S: serde::Serializer>(&self, s: S) -> Result<S::Ok, S::Error> {
        let mut fields = s.serialize_struct("FakeRequest", 2)?;
        fields.serialize_field("model", &self.model)?;
        fields.serialize_field("messages", &self.messages)?;
        fields.end()
    }
}

#[test]
fn trace_api_request_happy_path_unit() {
    let req = FakeRequest {
        model: "test-model".into(),
        messages: vec!["hello".into()],
    };

    let payload = serde_json::to_value(&req).unwrap();
    assert_eq!(payload["model"], "test-model");
    assert_eq!(payload["messages"][0], "hello");

    let logger = RuntimeTraceLogger::new(RuntimeTraceStorageMode::Full, 1, "t".into());
    let e = trace_api_request(
        Some(&logger),
        None,
        Ok(json_from_value(payload)),
        "prov",
        "test-model",
        None,
    )
    .expect("an event");
    assert_eq!(
        e.payload.render(),
        r#"{"messages":["hello"],"model":"test-model"}"#
    );
    assert!(e.message.is_none());
}

struct BadSerialize;

impl serde::Serialize for BadSerialize {
    fn serialize<S: serde::Serializer>(&self, _s: S) -> Result<S::Ok, S::Error> {
        Err(S::Error::custom("intentional failure"))
    }
}

#[test]
fn trace_api_request_serialization_failure_unit() {
    let result = serde_json::to_value(BadSerialize);
    assert!(result.is_err());
    let reason = result.unwrap_err().to_string();
    assert!(reason.contains("intentional failure"));

    let logger = RuntimeTraceLogger::new(RuntimeTraceStorageMode::Full, 1, "t".into());
    let e = trace_api_request(Some(&logger), None, Err(reason), "prov", "m", None)
        .expect("an event");
    assert_eq!(e.success, Some(false));
    assert_eq!(
        e.message.as_deref(),
        Some("serialization failed: intentional failure")
    );
    assert_eq!(e.payload, Json::Null);
}

#[test]
fn trace_api_request_integration() {
    let logger = RuntimeTraceLogger::new(RuntimeTraceStorageMode::Full, 10000, "t".into());
    let payload = parse_json(r#"{"model":"m1"}"#).expect("valid JSON");
    let written = trace_api_request(
        Some(&logger),
        None,
        Ok(payload),
        "prov1",
        "m1",
        Some("tid-1"),
    );

    let events = load_events(vec![written], 100, None, None);
    assert_eq!(events.len(), 1);
    let ev = &events[0];
    assert_eq!(ev.event_type, "provider_api_request");
    assert_eq!(ev.provider.as_deref(), Some("prov1"));
    assert_eq!(ev.model.as_deref(), Some("m1"));
    assert_eq!(ev.turn_id.as_deref(), Some("tid-1"));
    assert!(ev.success.is_none());
    assert_eq!(ev.payload.get("model").and_then(Json::as_str), Some("m1"));
}

// ── Reading ──────────────────────────────────────────────────────────

#[test]
fn find_event_by_id_returns_match() {
    let target_id = "target-event";
    let mut target = event(target_id, "tool_call_result", Some("boom"), r#"{"error": "boom"}"#);
    target.channel = Some("telegram".into());
    target.provider = Some("openrouter".into());
    target.model = Some("x".into());
    target.turn_id = Some("turn-1".into());
    target.success = Some(false);

    let found = find_event_by_id(vec![Some(target)], target_id);
    assert!(found.is_some());
    assert_eq!(found.unwrap().id, target_id);
}

#[test]
fn latest_event_of_an_id_is_found() {
    let parsed = vec![
        Some(event("a", "t", Some("old"), "null")),
        Some(event("a", "t", Some("new"), "null")),
        None,
        Some(event("b", "t", None, "null")),
    ];
    let found = find_event_by_id(parsed, "a").expect("found");
    assert_eq!(found.message.as_deref(), Some("new"));
    assert!(find_event_by_id(vec![None], "a").is_none());
    assert!(find_event_by_id(vec![Some(event("b", "t", None, "null"))], "a").is_none());
}

#[test]
fn search_gives_the_latest_first_within_its_limit() {
    let parsed = || {
        vec![
            Some(event("1", "t", None, "null")),
            None,
            Some(event("2", "t", None, "null")),
            Some(event("3", "t", None, "null")),
        ]
    };
    assert_eq!(ids(&load_events(parsed(), 10, None, None)), vec!["3", "2", "1"]);
    assert_eq!(ids(&load_events(parsed(), 2, None, None)), vec!["3", "2"]);
    assert!(load_events(parsed(), 0, None, None).is_empty());
    assert_eq!(load_events(parsed(), 10, Some("  "), Some("")).len(), 3);
}

#[test]
fn search_filters_by_type_and_text() {
    let parsed = || {
        let mut third = event("3", "Reply", None, "null");
        third.channel = Some("Telegram".into());
        third.provider = Some("ollama".into());
        third.model = Some("gemma".into());
        vec![
            Some(event("1", "Tool_Call", Some("Boom"), "null")),
            Some(event("2", "reply", None, r#"{"command": "ls"}"#)),
            Some(third),
        ]
    };
    assert_eq!(ids(&load_events(parsed(), 10, Some(" REPLY "), None)), vec!["3", "2"]);
    assert_eq!(ids(&load_events(parsed(), 10, None, Some("boom"))), vec!["1"]);
    assert_eq!(ids(&load_events(parsed(), 10, None, Some("\"LS\""))), vec!["2"]);
    assert_eq!(ids(&load_events(parsed(), 10, None, Some("telegramollamagemma"))), vec!["3"]);
    assert_eq!(ids(&load_events(parsed(), 10, None, Some("reply  null"))), vec!["3"]);
    assert!(load_events(parsed(), 10, Some("repl"), None).is_empty());
    assert_eq!(ids(&load_events(parsed(), 10, Some("reply"), Some("ls"))), vec!["2"]);
}

#[test]
fn blank_lines_hold_no_entry() {
    assert_eq!(event_lines(" a \n\n\t\nb\r\n"), vec!["a".to_string(), "b".to_string()]);
    assert!(event_lines("").is_empty());
}
