//! Approval of tool calls.

use mentat::approval::adapter::{PendingApproval, PlatformRef};
use mentat::approval::manager::prompt_cli_text;
use mentat::approval::{
    parse_approval_input, summarize_args, truncate_for_summary, ApprovalManager, ApprovalOutcome,
    ApprovalRequest, ApprovalResponse,
};
use mentat::clock::Timestamp;
use mentat::config::AutonomyConfig;
use mentat::json::{parse_json, Json, JsonMap};
use mentat::security::{AutonomyLevel, CommandRiskLevel, SecurityPolicy};

fn json(source: &str) -> Json {
    parse_json(source).expect("valid JSON")
}

fn supervised_config() -> AutonomyConfig {
    AutonomyConfig {
        level: AutonomyLevel::Supervised,
        auto_approve: vec!["file_read".into(), "memory_recall".into()],
        always_ask: vec!["shell".into()],
        ..AutonomyConfig::default()
    }
}

fn full_config() -> AutonomyConfig {
    AutonomyConfig {
        level: AutonomyLevel::Full,
        ..AutonomyConfig::default()
    }
}

// ── needs_approval ───────────────────────────────────────────────────

#[test]
fn auto_approve_tools_skip_prompt() {
    let mgr = ApprovalManager::from_config(&supervised_config());
    assert!(!mgr.needs_approval("file_read"));
    assert!(!mgr.needs_approval("memory_recall"));
}

#[test]
fn always_ask_tools_always_prompt() {
    let mgr = ApprovalManager::from_config(&supervised_config());
    assert!(mgr.needs_approval("shell"));
}

#[test]
fn unknown_tool_needs_approval_in_supervised() {
    let mgr = ApprovalManager::from_config(&supervised_config());
    assert!(mgr.needs_approval("file_write"));
    assert!(mgr.needs_approval("http_request"));
}

#[test]
fn full_autonomy_never_prompts() {
    let mgr = ApprovalManager::from_config(&full_config());
    assert!(!mgr.needs_approval("shell"));
    assert!(!mgr.needs_approval("file_write"));
    assert!(!mgr.needs_approval("anything"));
}

#[test]
fn readonly_never_prompts() {
    let config = AutonomyConfig {
        level: AutonomyLevel::ReadOnly,
        ..AutonomyConfig::default()
    };
    let mgr = ApprovalManager::from_config(&config);
    assert!(!mgr.needs_approval("shell"));
}

#[test]
fn full_autonomy_ignores_always_ask() {
    let config = AutonomyConfig {
        always_ask: vec!["*".into()],
        ..full_config()
    };
    let mgr = ApprovalManager::from_config(&config);
    assert!(!mgr.needs_approval("shell"));
}

#[test]
fn star_approves_every_tool() {
    let config = AutonomyConfig {
        auto_approve: vec!["*".into()],
        ..supervised_config()
    };
    let mgr = ApprovalManager::from_config(&config);
    assert!(!mgr.needs_approval("file_write"));
    assert!(mgr.needs_approval("shell"));
}

#[test]
fn star_asks_about_every_tool() {
    let config = AutonomyConfig {
        always_ask: vec!["*".into()],
        ..supervised_config()
    };
    let mut mgr = ApprovalManager::from_config(&config);
    assert!(mgr.needs_approval("file_read"));
    mgr.record_decision("file_read", &Json::Null, ApprovalResponse::Always, "cli");
    assert!(mgr.needs_approval("file_read"));
    assert!(mgr.session_allowlist().is_empty());
}

#[test]
fn shell_passes_where_nobody_can_be_asked() {
    let config = AutonomyConfig {
        always_ask: vec![],
        ..supervised_config()
    };
    let mgr = ApprovalManager::for_non_interactive(&config);
    assert!(mgr.is_non_interactive());
    assert!(!mgr.needs_approval("shell"));
    assert!(mgr.needs_approval("file_write"));

    let asked = ApprovalManager::for_non_interactive(&supervised_config());
    assert!(asked.needs_approval("shell"));

    let interactive = ApprovalManager::from_config(&config);
    assert!(!interactive.is_non_interactive());
    assert!(interactive.needs_approval("shell"));
}

// ── Session allowlist ────────────────────────────────────────────────

#[test]
fn always_response_adds_to_session_allowlist() {
    let mut mgr = ApprovalManager::from_config(&supervised_config());
    assert!(mgr.needs_approval("file_write"));

    mgr.record_decision(
        "file_write",
        &json(r#"{"path": "test.txt"}"#),
        ApprovalResponse::Always,
        "cli",
    );

    assert!(!mgr.needs_approval("file_write"));
}

#[test]
fn always_ask_overrides_session_allowlist() {
    let mut mgr = ApprovalManager::from_config(&supervised_config());

    mgr.record_decision(
        "shell",
        &json(r#"{"command": "ls"}"#),
        ApprovalResponse::Always,
        "cli",
    );

    assert!(mgr.needs_approval("shell"));
}

#[test]
fn yes_response_does_not_add_to_allowlist() {
    let mut mgr = ApprovalManager::from_config(&supervised_config());
    mgr.record_decision("file_write", &json("{}"), ApprovalResponse::Yes, "cli");
    assert!(mgr.needs_approval("file_write"));
}

#[test]
fn always_is_listed_once_and_for_one_tool() {
    let mut mgr = ApprovalManager::from_config(&supervised_config());
    mgr.record_decision("file_write", &Json::Null, ApprovalResponse::Always, "cli");
    mgr.record_decision("file_write", &Json::Null, ApprovalResponse::Always, "cli");
    assert_eq!(mgr.session_allowlist(), vec!["file_write".to_string()]);
    assert!(mgr.needs_approval("http_request"));
    assert_eq!(mgr.audit_log().len(), 2);
}

#[test]
fn no_and_timeout_change_no_later_question() {
    let mut mgr = ApprovalManager::from_config(&supervised_config());
    mgr.record_decision("file_write", &Json::Null, ApprovalResponse::No, "cli");
    mgr.record_decision("file_write", &Json::Null, ApprovalResponse::Timeout, "cli");
    assert!(mgr.needs_approval("file_write"));
    assert!(!mgr.needs_approval("file_read"));
    assert!(mgr.session_allowlist().is_empty());
}

// ── Audit log ────────────────────────────────────────────────────────

#[test]
fn audit_log_records_decisions() {
    let mut mgr = ApprovalManager::from_config(&supervised_config());

    mgr.record_decision(
        "shell",
        &json(r#"{"command": "rm -rf ./build/"}"#),
        ApprovalResponse::No,
        "cli",
    );
    mgr.record_decision(
        "file_write",
        &json(r#"{"path": "out.txt", "content": "hello"}"#),
        ApprovalResponse::Yes,
        "cli",
    );

    let log = mgr.audit_log();
    assert_eq!(log.len(), 2);
    assert_eq!(log[0].tool_name, "shell");
    assert_eq!(log[0].decision, ApprovalResponse::No);
    assert_eq!(log[1].tool_name, "file_write");
    assert_eq!(log[1].decision, ApprovalResponse::Yes);
}

#[test]
fn audit_log_contains_timestamp_and_channel() {
    let mut mgr = ApprovalManager::from_config(&supervised_config());
    mgr.record_decision(
        "shell",
        &json(r#"{"command": "ls"}"#),
        ApprovalResponse::Yes,
        "telegram",
    );

    let log = mgr.audit_log();
    assert_eq!(log.len(), 1);
    assert!(!log[0].timestamp.is_empty());
    assert_eq!(log[0].channel, "telegram");
}

#[test]
fn record_decision_ext_includes_risk_and_timing() {
    let mut mgr = ApprovalManager::from_config(&supervised_config());
    mgr.record_decision_ext(
        "shell",
        &json(r#"{"command": "rm -rf ./build/"}"#),
        ApprovalResponse::Yes,
        "telegram",
        Some("high".into()),
        Some("req-123".into()),
        Some(450),
    );

    let log = mgr.audit_log();
    assert_eq!(log.len(), 1);
    assert_eq!(log[0].risk_level.as_deref(), Some("high"));
    assert_eq!(log[0].request_id.as_deref(), Some("req-123"));
    assert_eq!(log[0].response_time_ms, Some(450));
}

#[test]
fn auto_approved_call_is_logged_without_arguments() {
    let mut mgr = ApprovalManager::from_config(&supervised_config());
    mgr.record_auto_approved("file_read", "slack");
    let log = mgr.audit_log();
    assert_eq!(log.len(), 1);
    assert_eq!(log[0].tool_name, "file_read");
    assert_eq!(log[0].arguments_summary, "null");
    assert_eq!(log[0].decision, ApprovalResponse::Yes);
    assert_eq!(log[0].channel, "slack");
    assert!(log[0].risk_level.is_none());
    assert!(log[0].request_id.is_none());
    assert!(log[0].response_time_ms.is_none());
    assert!(mgr.session_allowlist().is_empty());
}

#[test]
fn log_timestamps_are_in_utc() {
    let mut mgr = ApprovalManager::from_config(&supervised_config());
    mgr.record_auto_approved("file_read", "cli");
    let stamp = mgr.audit_log()[0].timestamp.clone();
    assert!(stamp.len() >= 25);
    assert!(stamp.contains('T'));
    assert!(stamp.ends_with("+00:00"));
    assert!(chrono::DateTime::parse_from_rfc3339(&stamp).is_ok());
}

#[test]
fn log_only_grows_at_its_end() {
    let mut mgr = ApprovalManager::from_config(&supervised_config());
    mgr.record_decision("a", &Json::Null, ApprovalResponse::No, "cli");
    let first = mgr.audit_log();
    mgr.record_decision("b", &Json::Null, ApprovalResponse::Yes, "cli");
    let second = mgr.audit_log();
    assert_eq!(second.len(), first.len() + 1);
    assert_eq!(second[0].tool_name, first[0].tool_name);
    assert_eq!(second[0].timestamp, first[0].timestamp);
    assert_eq!(second[1].tool_name, "b");
}

// ── summarize_args ───────────────────────────────────────────────────

#[test]
fn summarize_args_object() {
    let args = json(r#"{"command": "ls -la", "cwd": "/tmp"}"#);
    let summary = summarize_args(&args);
    assert!(summary.contains("command: ls -la"));
    assert!(summary.contains("cwd: /tmp"));
}

#[test]
fn summarize_args_truncates_long_values() {
    let long_val = "x".repeat(200);
    let args = Json::Object(JsonMap::new().with("content", Json::Text(long_val)));
    let summary = summarize_args(&args);
    assert!(summary.contains('…'));
    assert!(summary.len() < 200);
}

#[test]
fn summarize_args_unicode_safe_truncation() {
    let long_val = "🦀".repeat(120);
    let args = Json::Object(JsonMap::new().with("content", Json::Text(long_val)));
    let summary = summarize_args(&args);
    assert!(summary.contains("content:"));
    assert!(summary.contains('…'));
}

#[test]
fn summarize_args_non_object() {
    let args = json(r#""just a string""#);
    let summary = summarize_args(&args);
    assert!(summary.contains("just a string"));
}

#[test]
fn summary_lists_members_by_key() {
    let args = json(r#"{"cwd": "/tmp", "command": "ls", "deep": {"b": 1, "a": [true, null]}}"#);
    assert_eq!(
        summarize_args(&args),
        r#"command: ls, cwd: /tmp, deep: {"a":[true,null],"b":1}"#
    );
    assert_eq!(summarize_args(&json("{}")), "");
    assert_eq!(summarize_args(&json("[1, 2.5]")), "[1,2.5]");
    assert_eq!(summarize_args(&json("true")), "true");
    assert_eq!(summarize_args(&json("false")), "false");
}

#[test]
fn summary_cuts_members_and_values() {
    let member = Json::Object(JsonMap::new().with("k", Json::Text("y".repeat(81))));
    assert_eq!(summarize_args(&member), format!("k: {}…", "y".repeat(80)));
    let fitting = Json::Object(JsonMap::new().with("k", Json::Text("y".repeat(80))));
    assert_eq!(summarize_args(&fitting), format!("k: {}", "y".repeat(80)));
    let value = Json::Text("z".repeat(200));
    assert_eq!(summarize_args(&value), format!("\"{}…", "z".repeat(119)));
}

#[test]
fn truncation_counts_characters() {
    assert_eq!(truncate_for_summary("añb", 3), "añb");
    assert_eq!(truncate_for_summary("añb", 2), "añ…");
    assert_eq!(truncate_for_summary("añb", 0), "…");
    assert_eq!(truncate_for_summary("", 0), "");
}

// ── Requests ─────────────────────────────────────────────────────────

#[test]
fn approval_request_new_has_defaults() {
    let req = ApprovalRequest::new("file_write".into(), json("{}"));
    assert!(!req.request_id.is_empty());
    assert!(req.created_at.is_some());
    assert!(req.risk_level.is_none());
    assert!(req.thread_ts.is_none());
}

#[test]
fn request_ids_are_random_uuids() {
    let a = ApprovalRequest::new("t".into(), Json::Null);
    let b = ApprovalRequest::new("t".into(), Json::Null);
    assert_ne!(a.request_id, b.request_id);
    let id = uuid::Uuid::parse_str(&a.request_id).expect("a UUID");
    assert_eq!(id.get_version_num(), 4);
    assert_eq!(id.to_string(), a.request_id);
}

#[test]
fn request_time_is_now() {
    let before = chrono::Utc::now().timestamp();
    let req = ApprovalRequest::new("t".into(), Json::Null);
    let after = chrono::Utc::now().timestamp();
    let at = req.created_at.expect("a time");
    assert!(before <= at.secs && at.secs <= after);
    assert!(at.nanos < 1_000_000_000);
}

#[test]
fn request_with_identity_keeps_it() {
    let at = Timestamp { secs: 7, nanos: 5 };
    let req = ApprovalRequest::with_identity("t".into(), json("[1]"), "id-1".into(), at);
    assert_eq!(req.tool_name, "t");
    assert_eq!(req.arguments, json("[1]"));
    assert_eq!(req.request_id, "id-1");
    assert_eq!(req.created_at, Some(at));
    assert_eq!(req.channel, "");
    assert_eq!(req.recipient, "");
    let copy = req.clone();
    assert_eq!(copy.arguments, req.arguments);
    assert_eq!(copy.request_id, "id-1");
}

// ── parse_approval_input ─────────────────────────────────────────────

#[test]
fn parse_approval_input_yes_variants() {
    assert_eq!(parse_approval_input("y"), ApprovalResponse::Yes);
    assert_eq!(parse_approval_input("Y"), ApprovalResponse::Yes);
    assert_eq!(parse_approval_input("yes"), ApprovalResponse::Yes);
    assert_eq!(parse_approval_input("YES"), ApprovalResponse::Yes);
    assert_eq!(parse_approval_input("  y  "), ApprovalResponse::Yes);
}

#[test]
fn parse_approval_input_no_variants() {
    assert_eq!(parse_approval_input("n"), ApprovalResponse::No);
    assert_eq!(parse_approval_input("no"), ApprovalResponse::No);
    assert_eq!(parse_approval_input("N"), ApprovalResponse::No);
}

#[test]
fn parse_approval_input_always_variants() {
    assert_eq!(parse_approval_input("a"), ApprovalResponse::Always);
    assert_eq!(parse_approval_input("always"), ApprovalResponse::Always);
    assert_eq!(parse_approval_input("ALWAYS"), ApprovalResponse::Always);
}

#[test]
fn parse_approval_input_unrecognized_is_no() {
    assert_eq!(parse_approval_input("maybe"), ApprovalResponse::No);
    assert_eq!(parse_approval_input(""), ApprovalResponse::No);
    assert_eq!(parse_approval_input("xyz"), ApprovalResponse::No);
}

#[test]
fn prompt_reads_a_line() {
    let mgr = ApprovalManager::from_config(&supervised_config());
    assert_eq!(mgr.prompt_cli(Some("yes\n")), ApprovalResponse::Yes);
    assert_eq!(mgr.prompt_cli(Some("\u{2003}A\r\n")), ApprovalResponse::Always);
    assert_eq!(mgr.prompt_cli(Some("ye s")), ApprovalResponse::No);
    assert_eq!(mgr.prompt_cli(None), ApprovalResponse::No);
}

#[test]
fn prompt_shows_tool_arguments_and_risk() {
    let mut request = ApprovalRequest::new("shell".into(), json(r#"{"command": "ls"}"#));
    assert_eq!(
        prompt_cli_text(&request),
        "\n🔧 Agent wants to execute: shell\n   command: ls\n   [Y]es / [N]o / [A]lways for shell: "
    );
    request.risk_level = Some(CommandRiskLevel::Medium);
    assert_eq!(
        prompt_cli_text(&request),
        "\n🔧 Agent wants to execute: shell\n   command: ls\n   Risk: Medium\n   [Y]es / [N]o / [A]lways for shell: "
    );
}

// ── needs_shell_approval ─────────────────────────────────────────────

#[test]
fn needs_shell_approval_low_risk_no_prompt() {
    let mgr = ApprovalManager::from_config(&supervised_config());
    let security = SecurityPolicy::default();
    assert!(!mgr.needs_shell_approval("ls -la", &security));
    assert!(!mgr.needs_shell_approval("git status", &security));
}

#[test]
fn needs_shell_approval_medium_risk_prompts() {
    let mgr = ApprovalManager::from_config(&supervised_config());
    let security = SecurityPolicy::default();
    assert!(mgr.needs_shell_approval("touch file.txt", &security));
}

#[test]
fn needs_shell_approval_high_risk_prompts() {
    let mgr = ApprovalManager::from_config(&supervised_config());
    let security = SecurityPolicy::default();
    assert!(mgr.needs_shell_approval("rm -rf /tmp/test", &security));
}

#[test]
fn needs_shell_approval_full_autonomy_never_prompts() {
    let mgr = ApprovalManager::from_config(&full_config());
    let security = SecurityPolicy::default();
    assert!(!mgr.needs_shell_approval("rm -rf /tmp/test", &security));
}

#[test]
fn needs_shell_approval_medium_risk_no_prompt_when_disabled() {
    let config = AutonomyConfig {
        level: AutonomyLevel::Supervised,
        require_approval_for_medium_risk: false,
        ..AutonomyConfig::default()
    };
    let mgr = ApprovalManager::from_config(&config);
    let security = SecurityPolicy {
        require_approval_for_medium_risk: false,
        ..SecurityPolicy::default()
    };
    assert!(!mgr.needs_shell_approval("touch file.txt", &security));
}

#[test]
fn needs_shell_approval_readonly_never_prompts() {
    let config = AutonomyConfig {
        level: AutonomyLevel::ReadOnly,
        ..AutonomyConfig::default()
    };
    let mgr = ApprovalManager::from_config(&config);
    assert!(!mgr.needs_shell_approval("rm -rf /tmp/test", &SecurityPolicy::default()));
}

#[test]
fn high_risk_asks_even_where_medium_does_not() {
    let mgr = ApprovalManager::from_config(&supervised_config());
    assert!(!mgr.risk_needs_approval(CommandRiskLevel::Low, true));
    assert!(mgr.risk_needs_approval(CommandRiskLevel::Medium, true));
    assert!(!mgr.risk_needs_approval(CommandRiskLevel::Medium, false));
    assert!(mgr.risk_needs_approval(CommandRiskLevel::High, false));
}

#[test]
fn risk_is_found_behind_pipes_and_paths() {
    let policy = SecurityPolicy::default();
    assert_eq!(policy.command_risk_level("ls | rm x"), CommandRiskLevel::High);
    assert_eq!(policy.command_risk_level("/bin/RM x"), CommandRiskLevel::High);
    assert_eq!(policy.command_risk_level("ls && touch a"), CommandRiskLevel::Medium);
    assert_eq!(policy.command_risk_level("echo alarm"), CommandRiskLevel::Low);
    assert_eq!(policy.command_risk_level(""), CommandRiskLevel::Low);
}

// ── Defaults ─────────────────────────────────────────────────────────

#[test]
fn auto_approve_tools_skip_approval_any_config() {
    let config = AutonomyConfig::default();
    let mgr = ApprovalManager::from_config(&config);

    for tool in &config.auto_approve {
        assert!(
            !mgr.needs_approval(tool),
            "default auto_approve tool '{tool}' should not need approval"
        );
    }
}

#[test]
fn unknown_tools_need_approval() {
    let config = AutonomyConfig::default();
    let mgr = ApprovalManager::from_config(&config);
    assert!(
        mgr.needs_approval("some_unknown_tool"),
        "unknown tool should need approval"
    );
}

#[test]
fn weather_is_auto_approved() {
    let config = AutonomyConfig::default();
    let mgr = ApprovalManager::from_config(&config);
    assert!(
        !mgr.needs_approval("weather"),
        "weather tool must not need approval — it is in the default auto_approve list"
    );
}

#[test]
fn always_ask_overrides_auto_approve() {
    let mut config = AutonomyConfig::default();
    config.always_ask = vec!["weather".into()];
    let mgr = ApprovalManager::from_config(&config);
    assert!(
        mgr.needs_approval("weather"),
        "always_ask must override auto_approve"
    );
}

// ── Requests over a channel ──────────────────────────────────────────

#[test]
fn request_approval_yes_flow() {
    let mut mgr = ApprovalManager::from_config(&supervised_config());
    let request = ApprovalRequest::new("file_write".into(), json(r#"{"path": "test.txt"}"#));

    let outcome = ApprovalOutcome::Answered(ApprovalResponse::Yes);
    let result = mgr.request_approval("mock", &request, outcome, 12);
    assert_eq!(result, ApprovalResponse::Yes);

    let log = mgr.audit_log();
    assert_eq!(log.len(), 1);
    assert_eq!(log[0].decision, ApprovalResponse::Yes);
    assert!(log[0].response_time_ms.is_some());
    assert_eq!(log[0].response_time_ms, Some(12));
    assert_eq!(log[0].channel, "mock");
    assert_eq!(log[0].arguments_summary, "path: test.txt");
    assert_eq!(log[0].request_id.as_deref(), Some(request.request_id.as_str()));
}

#[test]
fn request_approval_always_adds_to_allowlist() {
    let mut mgr = ApprovalManager::from_config(&supervised_config());
    let request = ApprovalRequest::new("file_write".into(), json(r#"{"path": "test.txt"}"#));

    let outcome = ApprovalOutcome::Answered(ApprovalResponse::Always);
    let result = mgr.request_approval("mock", &request, outcome, 0);
    assert_eq!(result, ApprovalResponse::Always);
    assert!(!mgr.needs_approval("file_write"));
}

#[test]
fn request_approval_always_for_always_ask_tool_does_not_allowlist() {
    let mut mgr = ApprovalManager::from_config(&supervised_config());
    let request = ApprovalRequest::new("shell".into(), json(r#"{"command": "ls"}"#));

    let outcome = ApprovalOutcome::Answered(ApprovalResponse::Always);
    let result = mgr.request_approval("mock", &request, outcome, 0);
    assert_eq!(result, ApprovalResponse::Always);
    assert!(mgr.needs_approval("shell"));
}

#[test]
fn request_approval_timeout_flow() {
    let config = AutonomyConfig {
        approval_timeout_secs: 1,
        ..supervised_config()
    };
    let mut mgr = ApprovalManager::from_config(&config);
    assert_eq!(mgr.approval_timeout(), 1);
    let request = ApprovalRequest::new("file_write".into(), json(r#"{"path": "test.txt"}"#));

    let result = mgr.request_approval("hanging", &request, ApprovalOutcome::TimedOut, 1000);
    assert_eq!(result, ApprovalResponse::Timeout);

    let log = mgr.audit_log();
    assert_eq!(log.len(), 1);
    assert_eq!(log[0].decision, ApprovalResponse::Timeout);
}

#[test]
fn request_approval_deny_flow() {
    let mut mgr = ApprovalManager::from_config(&supervised_config());
    let request = ApprovalRequest::new("file_write".into(), json(r#"{"path": "test.txt"}"#));

    let outcome = ApprovalOutcome::Answered(ApprovalResponse::No);
    let result = mgr.request_approval("mock", &request, outcome, 0);
    assert_eq!(result, ApprovalResponse::No);
    assert!(mgr.needs_approval("file_write"));
}

#[test]
fn undelivered_request_is_logged_as_denial() {
    let mut mgr = ApprovalManager::from_config(&supervised_config());
    let mut request = ApprovalRequest::new("file_write".into(), json(r#"{"path": "test.txt"}"#));
    request.risk_level = Some(CommandRiskLevel::Low);
    let result = mgr.request_approval("failing", &request, ApprovalOutcome::NotDelivered, 3);
    assert_eq!(result, ApprovalResponse::No);
    let log = mgr.audit_log();
    assert_eq!(log.len(), 1);
    assert_eq!(log[0].tool_name, "file_write");
    assert_eq!(log[0].decision, ApprovalResponse::No);
    assert_eq!(log[0].channel, "failing");
    assert_eq!(log[0].arguments_summary, "path: test.txt");
    assert_eq!(log[0].risk_level.as_deref(), Some("low"));
    assert_eq!(log[0].request_id.as_deref(), Some(request.request_id.as_str()));
    assert_eq!(log[0].response_time_ms, Some(3));
    assert!(mgr.needs_approval("file_write"));
}

#[test]
fn failed_answer_is_logged_as_denial() {
    let mut mgr = ApprovalManager::from_config(&supervised_config());
    let mut request = ApprovalRequest::new("shell".into(), Json::Null);
    request.risk_level = Some(CommandRiskLevel::High);
    let result = mgr.request_approval("failing", &request, ApprovalOutcome::Failed, 3);
    assert_eq!(result, ApprovalResponse::No);
    let log = mgr.audit_log();
    assert_eq!(log.len(), 1);
    assert_eq!(log[0].decision, ApprovalResponse::No);
    assert_eq!(log[0].risk_level.as_deref(), Some("high"));
}

#[test]
fn pending_approval_names_its_platform() {
    let pending = PendingApproval {
        request_id: "r1".into(),
        platform_ref: PlatformRef::Telegram {
            chat_id: -5,
            message_id: 9,
        },
    };
    let copy = pending.clone();
    assert_eq!(copy.request_id, "r1");
    assert!(matches!(
        copy.platform_ref,
        PlatformRef::Telegram { chat_id: -5, message_id: 9 }
    ));
}
