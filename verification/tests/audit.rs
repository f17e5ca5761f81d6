//! The audit trail: scrubbing, bounding, and what an operator is shown.
use codex_bridge::audit::calls::{console_patch_targets, console_render_tool_call};
use codex_bridge::audit::console::{
    console_excerpt, console_human_bytes, console_redacted_excerpt, console_safe_inline,
    console_scrub_pretty, console_text, CONSOLE_EXCERPT_CHARS,
};
use codex_bridge::audit::events::{
    dropped_events, event_file, line_for_file, log_entry, queue_bytes, queue_entry,
    redact_tool_payload, rotation_steps, summarize, RotationStep,
};
use codex_bridge::audit::line::{
    console_generic_payload, console_line, console_plan, console_pretty_payload,
    console_project,
};
use codex_bridge::audit::logger::{
    AuditLogger, ProjectActivity, PROJECT_ACTIVITY_MAX_ENTRIES,
};
use codex_bridge::audit::queue::EventQueue;
use codex_bridge::audit::redact::{
    bound_event, bound_serialized, cut_event, hide_secret, is_sensitive_key, scrub,
};
use codex_bridge::audit::results::console_render_tool_result;
use codex_bridge::config::LogConfig;
use codex_bridge::error::AppError;
use codex_bridge::json::{from_text, to_text, JsonValue};
use codex_bridge::project::{ProjectContext, ProjectResolver};
use codex_bridge::request_context::{RequestIdentity, TransportMode};
use codex_bridge::storage::Storage;

const ANSI_RESET: &str = "\u{1b}[0m";
const ANSI_GRAY: &str = "\u{1b}[90m";
const ANSI_RED: &str = "\u{1b}[31m";
const ANSI_GREEN: &str = "\u{1b}[32m";
const ANSI_YELLOW: &str = "\u{1b}[33m";
const ANSI_BLUE: &str = "\u{1b}[34m";

fn json(text: &str) -> JsonValue {
    from_text(text).unwrap()
}

fn shown(value: &JsonValue) -> String {
    to_text(value).unwrap()
}

/// A text as it stands in JSON.
fn quoted(text: &str) -> String {
    shown(&JsonValue::text(text))
}

fn at<'a>(value: &'a JsonValue, name: &str) -> &'a JsonValue {
    value.get(name).unwrap()
}

fn log_config() -> LogConfig {
    LogConfig {
        root: "unused".to_owned(),
        queue_capacity: 8,
        queue_max_bytes: 64 * 1024,
        console_param_bytes: 4096,
        console_result_bytes: 8192,
        file_event_bytes: 4096,
        max_file_bytes: 1024 * 1024,
        max_files: 1,
    }
}

fn line(config: &LogConfig, event: &JsonValue) -> String {
    console_line(config, "bridge-secret", event).unwrap()
}

fn plain(text: &str) -> String {
    [
        ANSI_RESET,
        ANSI_GRAY,
        ANSI_RED,
        ANSI_GREEN,
        ANSI_YELLOW,
        ANSI_BLUE,
    ]
    .into_iter()
    .fold(text.to_owned(), |value, code| value.replace(code, ""))
}

fn project(subject: &str) -> ProjectContext {
    let mut resolver = ProjectResolver::new("/work".to_owned(), '/', Storage::new());
    let identity = RequestIdentity {
        openai_subject: subject.to_owned(),
        openai_conversation_id: "conversation".to_owned(),
        mcp_session_id: None,
        transport_mode: TransportMode::Stateless,
    };
    resolver.initialize(&identity, Some("demo")).unwrap().0
}

#[test]
fn secrets_are_recursive_and_auth_token_is_removed_from_strings() {
    let value = json(
        r#"{"nested":{"api_key":"x","AWS_SECRET_ACCESS_KEY":"aws","safe":"url/token-value/mcp"},"array":[{"password":"p"}]}"#,
    );
    let safe = scrub(&value, "token-value", 4096);
    let text = shown(&safe);
    assert!(!text.contains("token-value"));
    assert!(!text.contains("\"x\""));
    assert!(!text.contains("\"p\""));
    assert!(!text.contains("\"aws\""));
    assert!(text.contains("[REDACTED]"));
}

#[test]
fn tool_payloads_preserve_debug_content_before_credential_scrub() {
    let value = json(
        r#"{
            "command":"curl -H 'Authorization: Bearer top-secret' https://example.invalid",
            "content":"source-secret",
            "matches":[{"path":"a.rs","text":"inline-secret","line":1}],
            "path":"a.rs"
        }"#,
    );
    let audit = redact_tool_payload(&value);
    assert_eq!(at(&audit, "content").as_str(), Some("source-secret"));
    assert_eq!(
        at(&at(&audit, "matches").as_array().unwrap()[0], "text").as_str(),
        Some("inline-secret")
    );
    assert_eq!(at(&audit, "path").as_str(), Some("a.rs"));

    let safe = scrub(&audit, "top-secret", 4096);
    let text = shown(&safe);
    assert!(!text.contains("top-secret"));
    assert!(text.contains("source-secret"));
    assert!(text.contains("inline-secret"));
}

#[test]
fn large_strings_are_explicitly_excerpted() {
    let safe = scrub(&json(r#"{"content":"abcdefghij"}"#), "", 4);
    assert_eq!(at(at(&safe, "content"), "truncated").as_bool(), Some(true));
    assert_eq!(at(at(&safe, "content"), "original_bytes").as_u64(), Some(10));
    assert_eq!(at(at(&safe, "content"), "shown_bytes").as_u64(), Some(4));
}

#[test]
fn aggregate_event_size_is_bounded_and_marked() {
    let items: Vec<JsonValue> = (0..10_000)
        .map(|index| JsonValue::text(&format!("item-{index}")))
        .collect();
    let event = JsonValue::object(vec![
        ("event".to_owned(), JsonValue::text("tool_result")),
        ("items".to_owned(), JsonValue::array(items)),
    ]);
    let safe = scrub(&event, "", 128);
    let bounded = bound_event(safe, 4096);
    assert_eq!(at(&bounded, "truncated").as_bool(), Some(true));
    assert_eq!(at(&bounded, "event").as_str(), Some("tool_result"));
    assert!(shown(&bounded).len() < 4608);
}

#[test]
fn project_activity_cache_is_bounded() {
    let config = LogConfig {
        root: "unused".to_owned(),
        queue_capacity: 8,
        queue_max_bytes: 64 * 1024,
        console_param_bytes: 64,
        console_result_bytes: 64,
        file_event_bytes: 4096,
        max_file_bytes: 1024 * 1024,
        max_files: 1,
    };
    let mut logger = AuditLogger::new(config, "secret-token".to_owned());
    for index in 0..=PROJECT_ACTIVITY_MAX_ENTRIES {
        logger.update_project_activity(&format!("project-{index}"), &ProjectActivity::default());
    }
    assert_eq!(logger.project_activity.len(), PROJECT_ACTIVITY_MAX_ENTRIES);
}

#[test]
fn console_output_is_compact_and_tool_focused() {
    let config = LogConfig {
        root: "unused".to_owned(),
        queue_capacity: 8,
        queue_max_bytes: 1024,
        console_param_bytes: 256,
        console_result_bytes: 256,
        file_event_bytes: 4096,
        max_file_bytes: 1024,
        max_files: 1,
    };
    let call = line(
        &config,
        &json(
            r#"{
                "event":"tool_call",
                "tool":"grep",
                "project":{"alias":"demo","effective_key":"opaque"},
                "params":{"query":"needle","token":"must-hide"}
            }"#,
        ),
    );
    assert_eq!(
        call,
        "[\u{1b}[32mdemo\u{1b}[0m] \u{1b}[90m->\u{1b}[0m \u{1b}[31mgrep\u{1b}[0m query=needle  path=."
    );

    let result = line(
        &config,
        &json(
            r#"{
                "event":"tool_result",
                "tool":"grep",
                "project":{"alias":"demo","effective_key":"opaque"},
                "result":{"matches":3,"token":"bridge-secret"}
            }"#,
        ),
    );
    assert_eq!(
        result,
        "[\u{1b}[34mdemo\u{1b}[0m] \u{1b}[90m<-\u{1b}[0m \u{1b}[33mgrep\u{1b}[0m {\"matches\":3,\"token\":\"[REDACTED]\"}"
    );

    let fallback = line(
        &config,
        &json(
            r#"{
                "event":"tool_call",
                "tool":"read_file",
                "project":{"alias":null,"effective_key":"effective-project"},
                "params":{"path":"src/lib.rs"}
            }"#,
        ),
    );
    assert_eq!(
        fallback,
        "[\u{1b}[32meffective-project\u{1b}[0m] \u{1b}[90m->\u{1b}[0m \u{1b}[31mread_file\u{1b}[0m src/lib.rs"
    );

    let error = line(
        &config,
        &json(
            r#"{
                "event":"tool_error",
                "tool":"exec_command",
                "project":{"alias":"demo"},
                "error":{"code":"PROCESS_FAILED","message":"bridge-secret failed"}
            }"#,
        ),
    );
    assert_eq!(
        error,
        "[\u{1b}[34mdemo\u{1b}[0m] \u{1b}[90m<-\u{1b}[0m \u{1b}[33mexec_command\u{1b}[0m tool_error: PROCESS_FAILED: [REDACTED] failed"
    );
}

#[test]
fn console_excerpt_keeps_250_leading_and_trailing_characters() {
    let value = format!(
        "{}{}{}",
        "a".repeat(250),
        "middle".repeat(32),
        "z".repeat(250)
    );
    let excerpt = console_excerpt(&value);

    assert_eq!(
        excerpt,
        format!("{}...{}", "a".repeat(250), "z".repeat(250))
    );
    assert_eq!(excerpt.chars().count(), 503);

    let unicode = format!("{}x{}", "\u{1f642}".repeat(250), "\u{754c}".repeat(250));
    let unicode_excerpt = console_excerpt(&unicode);
    assert_eq!(
        unicode_excerpt,
        format!("{}...{}", "\u{1f642}".repeat(250), "\u{754c}".repeat(250))
    );
}

#[test]
fn console_plan_renders_one_colored_status_per_task() {
    let rendered = console_plan(&json(
        r#"{
            "event":"plan_updated",
            "project":{"alias":"demo"},
            "plan":{
                "items":[
                    {"step":"compile","status":"in_progress"},
                    {"step":"test","status":"pending"},
                    {"step":"ship","status":"completed"}
                ]
            }
        }"#,
    ))
    .unwrap();

    assert_eq!(
        rendered,
        "    compile    \u{1b}[33min_progress\u{1b}[0m\n    test       \u{1b}[90mpending\u{1b}[0m\n    ship       \u{1b}[32mcompleted\u{1b}[0m"
    );
}

#[test]
fn console_plan_has_one_bounded_visible_budget_for_large_valid_plans() {
    let items: Vec<JsonValue> = (0..100)
        .map(|index| {
            JsonValue::object(vec![
                (
                    "status".to_owned(),
                    JsonValue::text(if index == 0 { "in_progress" } else { "pending" }),
                ),
                (
                    "step".to_owned(),
                    JsonValue::text(&format!("task-{index:03}-{}", "x".repeat(180))),
                ),
            ])
        })
        .collect();
    let event = JsonValue::object(vec![(
        "plan".to_owned(),
        JsonValue::object(vec![("items".to_owned(), JsonValue::array(items))]),
    )]);
    let rendered = console_plan(&event).unwrap();
    let plain = plain(&rendered);

    assert!(
        plain.chars().count() <= CONSOLE_EXCERPT_CHARS,
        "large plan escaped console budget: {} chars\n{plain}",
        plain.chars().count()
    );
    assert!(
        plain.contains("... +"),
        "omitted task count missing: {plain}"
    );
    assert!(plain.lines().count() < 100, "large plan was dumped in full");
}

#[test]
fn console_pretty_scrub_bounds_large_strings_before_custom_rendering() {
    let payload = format!(
        "{}bridge-secret{}{}",
        "a".repeat(240),
        "middle".repeat(200_000),
        "z".repeat(300)
    );
    let event = json(&format!(r#"{{"result":{{"output":{}}}}}"#, quoted(&payload)));
    let safe = console_pretty_payload("bridge-secret", &event, "result");
    let output = at(&safe, "output").as_str().unwrap();

    assert!(output.chars().count() <= 503, "{output}");
    assert!(output.contains("[REDACTED]"), "{output}");
    assert!(!output.contains("bridge-secret"), "{output}");
    assert!(output.ends_with(&"z".repeat(250)), "{output}");
    assert!(!output.contains("middlemiddlemiddle"), "{output}");
}

#[test]
fn recall_plan_summary_does_not_embed_nested_ansi_or_dump_plan_lines() {
    let rendered = console_render_tool_result(
        "recall",
        &json(
            r#"{
                "notes":[],"offset":0,"total":0,
                "plan":{"items":[{"step":"compile","status":"in_progress"}]}
            }"#,
        ),
    )
    .unwrap();
    assert!(!rendered.contains('\u{1b}'), "{rendered:?}");
    assert!(rendered.contains("plan=1 task(s)"), "{rendered}");
    assert!(!rendered.contains("compile"), "{rendered}");
}

#[test]
fn update_plan_console_lifecycle_avoids_dumping_plan_json() {
    let config = LogConfig {
        root: "unused".to_owned(),
        queue_capacity: 8,
        queue_max_bytes: 1024,
        console_param_bytes: 4096,
        console_result_bytes: 8192,
        file_event_bytes: 4096,
        max_file_bytes: 1024,
        max_files: 1,
    };

    let call = line(
        &config,
        &json(
            r#"{
                "event":"tool_call",
                "tool":"update_plan",
                "project":{"alias":"demo"},
                "params":{"plan":[{"step":"compile","status":"in_progress"}]}
            }"#,
        ),
    );
    assert_eq!(
        call,
        "[\u{1b}[32mdemo\u{1b}[0m] \u{1b}[90m->\u{1b}[0m \u{1b}[31mupdate_plan\u{1b}[0m"
    );

    let result = line(
        &config,
        &json(
            r#"{
                "event":"tool_result",
                "tool":"update_plan",
                "project":{"alias":"demo"},
                "result":{"updated":true,"plan":{"items":[{"step":"compile","status":"completed"}]}}
            }"#,
        ),
    );
    assert_eq!(
        result,
        "[\u{1b}[34mdemo\u{1b}[0m] \u{1b}[90m<-\u{1b}[0m \u{1b}[33mupdate_plan\u{1b}[0m"
    );
}

#[test]
fn console_line_truncates_large_serialized_payload_in_the_middle() {
    let config = LogConfig {
        root: "unused".to_owned(),
        queue_capacity: 8,
        queue_max_bytes: 1024,
        console_param_bytes: 4096,
        console_result_bytes: 4096,
        file_event_bytes: 4096,
        max_file_bytes: 1024,
        max_files: 1,
    };
    let payload = format!(
        "{}{}{}",
        "a".repeat(300),
        "middle".repeat(50),
        "z".repeat(300)
    );
    let line = line(
        &config,
        &json(&format!(
            r#"{{
                "event":"tool_call",
                "tool":"exec_command",
                "project":{{"alias":"demo"}},
                "params":{{"payload":{}}}
            }}"#,
            quoted(&payload)
        )),
    );

    assert!(line.contains("..."), "{line}");
    assert!(!line.contains("middlemiddlemiddle"), "{line}");
    assert!(line.contains(&"a".repeat(200)), "{line}");
    assert!(line.contains(&"z".repeat(200)), "{line}");
}

#[test]
fn console_pretty_renderers_cover_every_public_tool_shape() {
    let calls = vec![
        (
            "chatgpt_turn_init",
            r#"{"project_key":"demo","previous_turn_ref_present":true}"#,
        ),
        (
            "apply_patch",
            r#"{"input":"*** Begin Patch\n*** Update File: src/lib.rs\n@@\n-old\n+new\n*** End Patch"}"#,
        ),
        ("read_file", r#"{"path":"src/lib.rs","offset":2,"limit":20}"#),
        (
            "list_directory",
            r#"{"path":"src","offset":0,"max_results":20}"#,
        ),
        (
            "tree",
            r#"{"path":"src","max_depth":3,"offset":0,"max_entries":30}"#,
        ),
        ("glob", r#"{"pattern":"**/*.rs","path":"src","offset":0}"#),
        (
            "grep",
            r#"{"query":"needle","path":"src","include":"*.rs","context":1,"files_only":false}"#,
        ),
        ("view_image", r#"{"path":"image.png"}"#),
        (
            "exec_command",
            r#"{"command":"cargo test","workdir":".","timeout_ms":30000,"tty":false}"#,
        ),
        (
            "write_stdin",
            r#"{"session_id":"session-1","chars":"x","close_stdin":false,"wait_for_exit_ms":500}"#,
        ),
        ("skills_list", r#"{"path":"src"}"#),
        (
            "skills_read",
            r#"{"name":"pdfs","resource":"SKILL.md","offset":0,"limit":4096}"#,
        ),
        ("remember", r#"{"key":"decision","value":"keep sqlite"}"#),
        (
            "recall",
            r#"{"offset":0,"max_results":10,"include_plan":true}"#,
        ),
        (
            "update_plan",
            r#"{"plan":[{"step":"test","status":"in_progress"}]}"#,
        ),
    ];
    for (tool, params) in calls {
        let rendered = console_render_tool_call(tool, &json(params))
            .unwrap_or_else(|| panic!("missing call renderer for {tool}: {params}"));
        assert!(!rendered.starts_with('{'), "{tool}: {rendered}");
    }

    let results = vec![
        (
            "chatgpt_turn_init",
            r#"{
                "status":"synchronized","project_key":"demo","workspace_state":"existing",
                "instructions_changed":false,"state_changed":true,"turn_ref":"r_demo"
            }"#,
        ),
        (
            "apply_patch",
            r#"{
                "applied":true,"count":2,
                "files":[
                    {"path":"src/lib.rs","operation":"update"},
                    {"path":"src/new.rs","operation":"create"}
                ]
            }"#,
        ),
        (
            "read_file",
            r#"{
                "path":"src/lib.rs","bytes":1200,"total_lines":40,"shown_lines":10,
                "offset":5,"truncated":false,"content":"line 6\nline 7"
            }"#,
        ),
        (
            "list_directory",
            r#"{
                "path":"src","count":2,
                "entries":[
                    {"name":"lib.rs","type":"file","bytes":1200},
                    {"name":"tools","type":"directory","bytes":null}
                ]
            }"#,
        ),
        (
            "tree",
            r#"{
                "path":"src","entries":[
                    {"path":"src/tools","type":"directory","depth":1},
                    {"path":"src/tools/mod.rs","type":"file","depth":2}
                ]
            }"#,
        ),
        ("glob", r#"{"count":2,"paths":["src/lib.rs","src/main.rs"]}"#),
        (
            "grep",
            r#"{
                "count":1,"incomplete":false,
                "matches":[{"path":"src/lib.rs","line":7,"text":"needle"}]
            }"#,
        ),
        (
            "view_image",
            r#"{"path":"image.png","mime_type":"image/png","bytes":2048}"#,
        ),
        (
            "exec_command",
            r#"{
                "completion_reason":"exited","exit_code":0,"wall_time_seconds":1.25,
                "session_id":null,"truncated":false,"output":"ok"
            }"#,
        ),
        (
            "write_stdin",
            r#"{
                "completion_reason":"running","exit_code":null,"wall_time_seconds":2.0,
                "session_id":"session-1","truncated":false,"output":"more"
            }"#,
        ),
        (
            "skills_list",
            r#"{"skills":[{"name":"pdfs","description":"Work with PDFs"}]}"#,
        ),
        (
            "skills_read",
            r#"{
                "name":"pdfs","resource":"SKILL.md","shown_bytes":4096,
                "total_bytes":8000,"truncated":true
            }"#,
        ),
        (
            "remember",
            r#"{"key":"decision","saved":true,"deleted":false}"#,
        ),
        (
            "recall",
            r#"{
                "notes":[{"key":"decision","value":"keep sqlite"}],
                "offset":0,"total":1,"plan":null
            }"#,
        ),
        ("update_plan", r#"{"updated":true,"plan":null}"#),
    ];
    for (tool, result) in results {
        let rendered = console_render_tool_result(tool, &json(result))
            .unwrap_or_else(|| panic!("missing result renderer for {tool}: {result}"));
        assert!(!rendered.starts_with('{'), "{tool}: {rendered}");
    }
}

#[test]
fn console_rendering_is_read_only_and_file_audit_shape_is_unchanged() {
    let config = log_config();
    let event = json(
        r#"{
            "event":"tool_result",
            "tool":"exec_command",
            "project":{"alias":"demo","effective_key":"demo"},
            "status":"success",
            "result":{
                "completion_reason":"exited","exit_code":0,"output":"hello",
                "output_bytes":5,"output_offset":0,"output_next_offset":5,"truncated":false
            }
        }"#,
    );
    let original = event.copy();
    let file_before = bound_event(
        scrub(&event, "bridge-secret", config.file_event_bytes),
        config.file_event_bytes,
    );

    let rendered = line(&config, &event);
    assert!(rendered.contains("exited"), "{rendered}");

    let file_after = bound_event(
        scrub(&event, "bridge-secret", config.file_event_bytes),
        config.file_event_bytes,
    );
    assert_eq!(
        shown(&event),
        shown(&original),
        "console rendering mutated the audit/tool value"
    );
    assert_eq!(
        shown(&file_before),
        shown(&file_after),
        "console rendering changed the JSON value that the file-audit path would persist"
    );
}

#[test]
fn console_custom_renderers_redact_before_rendering_and_hide_unneeded_values() {
    let config = log_config();
    let exec = line(
        &config,
        &json(
            r#"{
                "event":"tool_call",
                "tool":"exec_command",
                "project":{"alias":"demo"},
                "params":{
                    "command":"echo bridge-secret",
                    "env":{"API_TOKEN":"also-secret"},
                    "stdin":"bridge-secret"
                }
            }"#,
        ),
    );
    assert!(!exec.contains("bridge-secret"), "{exec}");
    assert!(!exec.contains("also-secret"), "{exec}");
    assert!(exec.contains("[REDACTED]"), "{exec}");
    assert!(exec.contains("stdin=<provided>"), "{exec}");

    let remember = line(
        &config,
        &json(
            r#"{
                "event":"tool_call",
                "tool":"remember",
                "project":{"alias":"demo"},
                "params":{"key":"decision","value":"bridge-secret private memory"}
            }"#,
        ),
    );
    assert!(remember.contains("set decision"), "{remember}");
    assert!(!remember.contains("private memory"), "{remember}");
    assert!(!remember.contains("bridge-secret"), "{remember}");
}

#[test]
fn console_custom_renderers_escape_terminal_control_sequences() {
    let config = log_config();
    let call = line(
        &config,
        &json(
            r#"{
                "event":"tool_call",
                "tool":"exec_command",
                "project":{"alias":"demo\u001b[2J"},
                "params":{"command":"echo \u001b[31mred\nnext\rline\tend"}
            }"#,
        ),
    );
    let call_plain = plain(&call);
    assert!(!call_plain.contains('\u{1b}'), "{call:?}");
    assert!(!call_plain.contains('\r'), "{call:?}");
    assert_eq!(call_plain.lines().count(), 1, "{call:?}");
    assert!(call_plain.contains("demo\\x1b[2J"), "{call_plain}");
    assert!(
        call_plain.contains("\\x1b[31mred\\nnext\\rline\\tend"),
        "{call_plain}"
    );

    let plan = line(
        &config,
        &json(
            r#"{
                "event":"plan_updated",
                "project":{"alias":"demo"},
                "plan":{"items":[{"step":"task\u001b[2J\nspoof","status":"completed"}]}
            }"#,
        ),
    );
    let plan_plain = plain(&plan);
    assert!(!plan_plain.contains('\u{1b}'), "{plan:?}");
    assert_eq!(plan_plain.lines().count(), 1, "{plan:?}");
    assert!(plan_plain.contains("task\\x1b[2J\\nspoof"), "{plan_plain}");
}

#[test]
fn console_malformed_custom_shapes_fall_back_without_panicking() {
    let config = log_config();
    for event in [
        r#"{
            "event":"tool_result","tool":"exec_command","project":{"alias":"demo"},
            "result":{"completion_reason":123,"output":"x"}
        }"#,
        r#"{
            "event":"tool_result","tool":"grep","project":{"alias":"demo"},
            "result":{"matches":3,"count":3}
        }"#,
        r#"{
            "event":"tool_call","tool":"read_file","project":{"alias":"demo"},
            "params":{"path":123}
        }"#,
    ] {
        let rendered = line(&config, &json(event));
        assert!(rendered.contains('{'), "expected JSON fallback: {rendered}");
    }
}

#[test]
fn console_process_output_keeps_head_and_tail_after_pretty_rendering() {
    let config = log_config();
    let output = format!(
        "{}{}{}",
        "a".repeat(300),
        "middle".repeat(60),
        "z".repeat(300)
    );
    let line = line(
        &config,
        &json(&format!(
            r#"{{
                "event":"tool_result",
                "tool":"exec_command",
                "project":{{"alias":"demo"}},
                "result":{{
                    "completion_reason":"exited","exit_code":0,"wall_time_seconds":0.1,
                    "session_id":null,"truncated":false,"output":{}
                }}
            }}"#,
            quoted(&output)
        )),
    );
    assert!(line.contains(&"a".repeat(200)), "{line}");
    assert!(line.contains(&"z".repeat(200)), "{line}");
    assert!(line.contains("..."), "{line}");
    assert!(!line.contains("middlemiddlemiddle"), "{line}");
}

#[test]
fn file_events_preserve_content_excerpts_but_redact_credentials() {
    let config = LogConfig {
        root: "/logs".to_owned(),
        queue_capacity: 32,
        queue_max_bytes: 64 * 1024,
        console_param_bytes: 4,
        console_result_bytes: 8,
        file_event_bytes: 4096,
        max_file_bytes: 1024 * 1024,
        max_files: 2,
    };
    let mut logger = AuditLogger::new(config, "auth-token-value".to_owned());
    let mut content = String::new();
    for event in [
        r#"{
            "event":"tool_call",
            "request_id":"request-1",
            "tool":"write_file",
            "params":{
                "content":"abcdefghijklmnopqrstuvwxyz-auth-token-value",
                "openai/subject":"usr_raw",
                "nested":{"MCP_AUTH_TOKEN":"auth-token-value"}
            }
        }"#,
        r#"{"event":"tool_result","request_id":"request-1","tool":"write_file","result":{"content":"abcdefghijklmnopqrstuvwxyz"}}"#,
    ] {
        let done = logger.emit(json(event), "2026-01-01T00:00:00+00:00");
        for queued in done.sent {
            let entry = log_entry(
                &queued.value,
                &logger.auth_token,
                &logger.config.root,
                '/',
                logger.config.file_event_bytes,
                "2026-01-01T00:00:01+00:00",
            );
            assert_eq!(entry.path, "/logs/tool-calls.log");
            content.push_str(&entry.line.unwrap());
        }
    }
    assert_eq!(content.matches("request-1").count(), 2);
    assert!(content.contains("abcdefghijklmnopqrstuvwxyz"));
    assert!(!content.contains("auth-token-value"));
    assert!(!content.contains("usr_raw"));
    assert!(content.contains("[REDACTED]"));
}

#[test]
fn byte_bounded_queue_rejects_an_event_larger_than_available_permits() {
    let mut logger = AuditLogger::new(
        LogConfig {
            root: "unused".to_owned(),
            queue_capacity: 8,
            queue_max_bytes: 64,
            console_param_bytes: 64,
            console_result_bytes: 64,
            file_event_bytes: 4096,
            max_file_bytes: 1024 * 1024,
            max_files: 1,
        },
        "secret-token".to_owned(),
    );
    let event = json(&format!(
        r#"{{"event":"tool_result","result":"{}"}}"#,
        "x".repeat(1024)
    ));
    let done = logger.emit(event, "2026-01-01T00:00:00+00:00");
    assert!(done.sent.is_empty());
    assert_eq!(done.warning, Some(1));
    assert_eq!(logger.dropped_count(), 1);
    assert_eq!(logger.queue_bytes_available(), 64);
}

#[test]
fn names_of_credentials_are_sensitive() {
    for name in [
        "password",
        "API-KEY",
        "openai/subject",
        "OpenAI/Session",
        "mcp-session-id",
        "my_secret_name",
        "Authorization",
        "x-authorization",
        "set-cookie",
    ] {
        assert!(is_sensitive_key(name), "{name}");
    }
    for name in ["path", "command", "tokens", "secretary", "keyboard", ""] {
        assert!(!is_sensitive_key(name), "{name}");
    }
}

#[test]
fn a_secret_is_replaced_wherever_it_stands() {
    assert_eq!(hide_secret("a-key-key", "key"), "a-[REDACTED]-[REDACTED]");
    assert_eq!(hide_secret("a-key", ""), "a-key");
    assert_eq!(hide_secret("aaa", "aa"), "[REDACTED]a");
}

#[test]
fn scrubbed_arrays_keep_their_first_items() {
    let items: Vec<JsonValue> = (0..1030).map(|index| JsonValue::number(index)).collect();
    let safe = scrub(&JsonValue::array(items), "", 64);
    assert_eq!(safe.as_array().unwrap().len(), 1025);
    assert_eq!(
        shown(&safe.as_array().unwrap()[1024]),
        r#"{"original_items":1030,"shown_items":1024,"truncated":true}"#
    );
    assert_eq!(safe.as_array().unwrap()[1023].as_u64(), Some(1023));
}

#[test]
fn a_small_event_is_kept_whole() {
    let event = json(r#"{"event":"x","n":1}"#);
    assert_eq!(shown(&bound_event(event, 4096)), r#"{"event":"x","n":1}"#);
    let unserialized = bound_serialized(json(r#"{"event":"x"}"#), None, 4096);
    assert_eq!(shown(&unserialized), r#"{"event":"serialization_error"}"#);
}

#[test]
fn bytes_are_shown_in_larger_units() {
    for bytes in [
        0u64,
        1,
        1023,
        1024,
        1025,
        1075,
        1076,
        1126,
        1280,
        1536,
        1792,
        10_239,
        10_240,
        102_399,
        102_400,
        1_048_575,
        1_048_576,
        1_100_000,
        5_767_168,
        1_073_741_823,
        1_073_741_824,
        1_181_116_006,
        123_456_789_012,
        9_007_199_254_740_993,
        9_223_372_036_854_775_807,
        u64::MAX,
    ] {
        let size = bytes as f64;
        let expected = if size >= 1024.0 * 1024.0 * 1024.0 {
            format!("{:.1} GiB", size / (1024.0 * 1024.0 * 1024.0))
        } else if size >= 1024.0 * 1024.0 {
            format!("{:.1} MiB", size / (1024.0 * 1024.0))
        } else if size >= 1024.0 {
            format!("{:.1} KiB", size / 1024.0)
        } else {
            format!("{bytes} B")
        };
        assert_eq!(console_human_bytes(bytes), expected, "{bytes}");
    }
}

#[test]
fn control_characters_are_written_out() {
    assert_eq!(
        console_safe_inline("a\nb\rc\td\u{1b}e\u{7f}\u{9f}"),
        "a\\nb\\rc\\td\\x1be\\u{7f}\\u{9f}"
    );
    assert_eq!(console_text(&"x".repeat(600)).chars().count(), 503);
}

#[test]
fn an_excerpt_is_taken_after_the_secret_is_gone() {
    assert_eq!(console_redacted_excerpt("a key b", "key"), "a [REDACTED] b");
    let long = format!("{}key{}", "a".repeat(249), "b".repeat(400));
    let excerpt = console_redacted_excerpt(&long, "key");
    assert!(!excerpt.contains("key"));
    assert!(excerpt.starts_with(&"a".repeat(249)));
    assert!(excerpt.ends_with(&"b".repeat(250)));
}

#[test]
fn pretty_scrubbing_bounds_arrays() {
    let items: Vec<JsonValue> = (0..200).map(|index| JsonValue::number(index)).collect();
    let safe = console_scrub_pretty(&JsonValue::array(items), "");
    assert_eq!(safe.as_array().unwrap().len(), 129);
    assert_eq!(
        shown(&safe.as_array().unwrap()[128]),
        r#"{"original_items":200,"shown_items":128,"truncated":true}"#
    );
    let hidden = console_scrub_pretty(&json(r#"{"token":"x","path":"y"}"#), "");
    assert_eq!(shown(&hidden), r#"{"path":"y","token":"[REDACTED]"}"#);
}

#[test]
fn patch_targets_are_listed() {
    let targets = console_patch_targets(
        "*** Begin Patch\n*** Add File: a.rs\n+x\n*** Update File: b.rs\n*** Delete File: c.rs\n*** End Patch",
    );
    assert_eq!(targets.len(), 3);
    assert!(targets[0].contains("a.rs"));
    assert!(targets[1].contains("b.rs"));
    assert!(targets[2].contains("c.rs"));
}

#[test]
fn events_of_no_interest_are_not_shown() {
    let event = json(r#"{"event":"daemon_started"}"#);
    assert!(console_line(&log_config(), "", &event).is_none());
    assert!(console_plan(&json(r#"{"plan":{"steps":[]}}"#)).is_none());
    assert_eq!(
        console_plan(&json(r#"{"plan":{"items":[]}}"#)).unwrap(),
        "    \u{1b}[90mplan empty\u{1b}[0m"
    );
    assert_eq!(
        console_plan(&json(r#"{"plan":null}"#)).unwrap(),
        "    \u{1b}[90mplan cleared\u{1b}[0m"
    );
}

#[test]
fn a_project_is_shown_by_its_alias_or_its_key() {
    assert_eq!(
        console_project("demo", &json(r#"{"project":{"alias":"demo-one"}}"#)),
        "[REDACTED]-one"
    );
    assert_eq!(
        console_project("", &json(r#"{"project":{"effective_key":"k"}}"#)),
        "k"
    );
    assert_eq!(
        console_generic_payload("", &json(r#"{"params":{"b":1,"a":[true]}}"#), "params", 64),
        r#"{"a":[true],"b":1}"#
    );
}

#[test]
fn events_are_filed_by_their_names() {
    assert_eq!(event_file("/l", "tool_timeout", '/'), "/l/tool-calls.log");
    assert_eq!(event_file("/l", "process_killed", '/'), "/l/tool-calls.log");
    assert_eq!(event_file("/l", "task_added", '/'), "/l/tasks.log");
    assert_eq!(event_file("/l", "tasks_updated", '/'), "/l/tasks.log");
    assert_eq!(event_file("/l", "plan_updated", '/'), "/l/plans.log");
    assert_eq!(event_file("C:\\l", "anything", '\\'), "C:\\l\\rust-agent.log");
}

#[test]
fn a_line_that_is_too_long_is_cut() {
    assert_eq!(line_for_file("{}".to_owned(), "x", 16, "now"), "{}\n");
    let long = "y".repeat(600);
    let cut = line_for_file(long, "x", 520, "now");
    assert!(cut.ends_with('\n'));
    let value = json(cut.trim_end());
    assert_eq!(at(&value, "log_truncated").as_bool(), Some(true));
    assert_eq!(at(&value, "original_bytes").as_u64(), Some(600));
    assert_eq!(at(&value, "stored_bytes").as_u64(), Some(8));
    assert_eq!(at(&value, "event_excerpt").as_str(), Some("yyyyyyyy"));
    assert_eq!(at(&value, "timestamp").as_str(), Some("now"));
    assert_eq!(at(&value, "event").as_str(), Some("x"));
}

#[test]
fn old_files_move_up_and_the_oldest_leaves() {
    assert!(rotation_steps("/l/a.log", '/', 9, 10, 2).is_empty());
    let steps: Vec<String> = rotation_steps("/l/a.log", '/', 10, 10, 2)
        .into_iter()
        .map(|step| match step {
            RotationStep::Remove(path) => format!("remove {path}"),
            RotationStep::RenameIfPresent(from, to) => format!("shift {from} {to}"),
            RotationStep::Rename(from, to) => format!("rename {from} {to}"),
        })
        .collect();
    assert_eq!(
        steps,
        vec![
            "remove /l/a.log.2".to_owned(),
            "shift /l/a.log.1 /l/a.log.2".to_owned(),
            "rename /l/a.log /l/a.log.1".to_owned(),
        ]
    );
}

#[test]
fn an_event_takes_at_least_one_byte() {
    assert_eq!(queue_bytes(&Some(String::new()), 4096), 1);
    assert_eq!(queue_bytes(&Some("\u{754c}".to_owned()), 4096), 3);
    assert_eq!(queue_bytes(&None, 4096), 4096);
    let (event, share) = queue_entry(json(r#"{"event":"x"}"#), "now", "", 4096);
    assert_eq!(shown(&event), r#"{"event":"x","timestamp":"now"}"#);
    assert_eq!(share as usize, shown(&event).len());
    let (kept, _) = queue_entry(json(r#"{"event":"x","timestamp":"then"}"#), "now", "", 4096);
    assert_eq!(shown(&kept), r#"{"event":"x","timestamp":"then"}"#);
}

#[test]
fn a_full_queue_counts_what_it_drops() {
    let mut queue = EventQueue::new(2, 1000);
    let event = || json(r#"{"event":"x"}"#);
    let first = queue.emit(event(), "now", "", 4096);
    assert_eq!(first.sent.len(), 1);
    let held = first.sent[0].share;
    assert_eq!(queue.room, 1000 - held as usize);
    assert_eq!(queue.emit(event(), "now", "", 4096).sent.len(), 1);

    let warnings: Vec<Option<u64>> = (0..5)
        .map(|_| queue.emit(event(), "now", "", 4096).warning)
        .collect();
    assert_eq!(warnings, vec![Some(1), Some(2), None, Some(4), None]);
    assert_eq!(queue.dropped_total, 5);

    queue.take();
    queue.give_back(held);
    queue.take();
    queue.give_back(held);
    assert_eq!(queue.room, 1000);
    let again = queue.emit(event(), "now", "", 4096);
    assert_eq!(again.sent.len(), 2);
    assert_eq!(again.warning, None);
    assert_eq!(
        shown(&again.sent[1].value),
        r#"{"count":5,"event":"log_events_dropped","timestamp":"now"}"#
    );
    assert_eq!(queue.dropped_pending, 0);
    assert_eq!(queue.dropped_total, 5);

    queue.take();
    queue.take();
    queue.close();
    assert!(queue.emit(event(), "now", "", 4096).sent.is_empty());
    assert_eq!(shown(&dropped_events(3)), r#"{"count":3,"event":"log_events_dropped"}"#);
}

#[test]
fn a_note_on_lost_events_can_be_lost_itself() {
    let mut queue = EventQueue::new(1, 1000);
    let event = || json(r#"{"event":"x"}"#);
    queue.emit(event(), "now", "", 4096);
    queue.emit(event(), "now", "", 4096);
    queue.take();
    let again = queue.emit(event(), "now", "", 4096);
    assert_eq!(again.sent.len(), 1);
    assert_eq!(again.warning, Some(1));
    assert_eq!(queue.dropped_pending, 1);
    assert_eq!(queue.dropped_total, 2);
}

#[test]
fn calls_are_followed_from_start_to_end() {
    let mut logger = AuditLogger::new(log_config(), "bridge-secret".to_owned());
    let here = project("one");
    let params = json(r#"{"command":"cargo test","path":"p"}"#);
    assert_eq!(summarize(&params), "cargo test");
    assert_eq!(summarize(&json(r#"{"path":"p"}"#)), "p");
    assert_eq!(summarize(&json(r#"{"command":1}"#)), "");

    let (id, started) = logger.tool_started(&here, "exec_command", &params, 1000, "now");
    assert_eq!(id.len(), 36);
    assert_eq!(logger.running_count(), 1);
    assert_eq!(logger.running_tool(&id).unwrap().tool, "exec_command");
    let listed = logger.running_for_project(&here, 1250);
    assert_eq!(
        shown(&listed[0]),
        format!(
            r#"{{"duration_ms":250,"request_id":"{id}","summary":"cargo test","tool":"exec_command"}}"#
        )
    );
    assert_eq!(at(&started.sent[0].value, "event").as_str(), Some("tool_call"));
    assert_eq!(at(&started.sent[0].value, "request_id").as_str(), Some(id.as_str()));

    let done = logger.tool_finished(&here, &id, "exec_command", 250, &json(r#"{"ok":true}"#), "now");
    assert_eq!(logger.running_count(), 0);
    assert!(logger.running_tool(&id).is_none());
    assert_eq!(at(&done.sent[0].value, "status").as_str(), Some("success"));
    let activity = logger.activity(&here);
    assert_eq!(activity.last_tool.as_deref(), Some("exec_command"));
    assert_eq!(activity.last_successful_operation.as_deref(), Some("exec_command"));
    assert_eq!(activity.last_error, None);

    let (other, _) = logger.tool_started(&here, "grep", &json("{}"), 2000, "now");
    let error = AppError::new("PROCESS_TIMEOUT", "too slow".to_owned());
    let failed = logger.tool_failed(&here, &other, "grep", 9, &error, "now");
    assert_eq!(at(&failed.sent[0].value, "event").as_str(), Some("tool_timeout"));
    let activity = logger.activity(&here);
    assert_eq!(activity.last_tool.as_deref(), Some("grep"));
    assert_eq!(
        activity.last_error,
        Some(("PROCESS_TIMEOUT".to_owned(), "too slow".to_owned()))
    );
    assert_eq!(activity.last_successful_operation.as_deref(), Some("exec_command"));
    assert_eq!(logger.queue_capacity(), 8);
}

#[test]
fn attempts_have_no_project_at_first() {
    let mut logger = AuditLogger::new(log_config(), String::new());
    let (id, started) = logger.tool_attempt_started("chatgpt_turn_init", &json("{}"), "now");
    assert!(at(&started.sent[0].value, "project").is_null());
    assert_eq!(logger.running_count(), 0);
    let here = project("one");
    let done = logger.tool_attempt_finished(
        Some(&here),
        &id,
        "chatgpt_turn_init",
        5,
        &json(r#"{"a":1}"#),
        "now",
    );
    assert_eq!(
        at(at(&done.sent[0].value, "project"), "alias").as_str(),
        Some("demo")
    );
    let error = AppError::new("STALE_TURN_REF", "stale".to_owned());
    let failed = logger.tool_attempt_failed(None, &id, "chatgpt_turn_init", 5, &error, "now");
    assert_eq!(at(&failed.sent[0].value, "event").as_str(), Some("tool_error"));
    assert_eq!(
        shown(at(&failed.sent[0].value, "error")),
        r#"{"code":"STALE_TURN_REF","message":"stale"}"#
    );
}

#[test]
fn calls_are_shown_by_what_they_ask_for() {
    for (tool, params, expected) in [
        (
            "chatgpt_turn_init",
            r#"{"project_key":"demo","previous_turn_ref_present":true}"#,
            "project=demo  previous_turn_ref=true",
        ),
        (
            "apply_patch",
            r#"{"input":"*** Begin Patch\n*** Update File: src/lib.rs\n@@\n*** Move to: b.rs"}"#,
            "patch\n    ~ src/lib.rs\n    \u{2192} b.rs",
        ),
        (
            "read_file",
            r#"{"path":"src/lib.rs","offset":2,"limit":20,"line_byte_offset":0,"max_bytes":2048}"#,
            "src/lib.rs  line=3  limit=20  max=2.0 KiB",
        ),
        (
            "list_directory",
            r#"{"path":"src","offset":0,"max_results":20}"#,
            "src  max=20",
        ),
        (
            "tree",
            r#"{"max_depth":3,"offset":4,"max_entries":30}"#,
            ".  depth=3  offset=4  max=30",
        ),
        (
            "glob",
            r#"{"pattern":"**/*.rs","path":"src","offset":0}"#,
            "pattern=**/*.rs  path=src",
        ),
        (
            "grep",
            r#"{"query":"needle","path":"src","include":"*.rs","context":1,"files_only":true}"#,
            "query=needle  path=src  include=*.rs  context=1  files_only",
        ),
        ("view_image", r#"{"path":"image.png"}"#, "image.png"),
        (
            "exec_command",
            r#"{"command":"cargo test","workdir":".","timeout_ms":30000,"tty":true}"#,
            "$ cargo test  cwd=.  timeout=30000ms  tty",
        ),
        (
            "write_stdin",
            r#"{"session_id":"s","chars":"x","close_stdin":true,"wait_for_exit_ms":500}"#,
            "session=s  input=<provided>  close_stdin  wait=500ms",
        ),
        ("skills_list", r#"{"path":"src"}"#, "path=src"),
        (
            "skills_read",
            r#"{"name":"pdfs","offset":7,"limit":4096}"#,
            "skill=pdfs  resource=SKILL.md  offset=7  limit=4096",
        ),
        ("remember", r#"{"key":"decision","value":""}"#, "delete decision"),
        (
            "recall",
            r#"{"offset":0,"max_results":10,"include_plan":true}"#,
            "memory page  max=10  include_plan",
        ),
        ("recall", r#"{"key":"decision"}"#, "key=decision"),
        ("update_plan", r#"{}"#, ""),
    ] {
        let shown = console_render_tool_call(tool, &json(params));
        assert_eq!(shown.as_deref(), Some(expected), "{tool}");
    }
    assert_eq!(console_render_tool_call("remember", &json(r#"{"key":"k"}"#)), None);
    assert_eq!(console_render_tool_call("unheard_of", &json("{}")), None);
}

#[test]
fn results_are_shown_by_what_came_out() {
    let listing = format!(
        "src  2 entries\n    {:<9} {:>9}  {}\n    {:<9} {:>9}  {}",
        "file", "1.2 KiB", "lib.rs", "directory", "-", "tools"
    );
    for (tool, result, expected) in [
        (
            "chatgpt_turn_init",
            r#"{"status":"synchronized","project_key":"demo","workspace_state":"existing",
                "instructions_changed":false,"state_changed":true,"turn_ref":"r_demo"}"#,
            "synchronized  project=demo  workspace=existing  instructions_changed=false  state_changed=true  turn=r_demo",
        ),
        (
            "chatgpt_turn_init",
            r#"{"status":"soft_error","soft_error":{"code":"STALE_TURN_REF"}}"#,
            "soft_error STALE_TURN_REF",
        ),
        (
            "apply_patch",
            r#"{"applied":true,"count":2,"files":[
                {"path":"src/lib.rs","operation":"update"},
                {"path":"a","operation":"move","destination":"b"}]}"#,
            "applied 2 file(s)\n    ~ src/lib.rs\n    \u{2192} a -> b",
        ),
        (
            "read_file",
            r#"{"path":"src/lib.rs","bytes":1200,"total_lines":40,"shown_lines":10,
                "offset":5,"truncated":true,"content":"line 6\nline 7"}"#,
            "src/lib.rs  1.2 KiB  lines=40  window=6..15  truncated  content=line 6\\nline 7",
        ),
        (
            "list_directory",
            r#"{"path":"src","count":2,"entries":[
                {"name":"lib.rs","type":"file","bytes":1200},
                {"name":"tools","type":"directory","bytes":null}]}"#,
            listing.as_str(),
        ),
        (
            "tree",
            r#"{"path":"src","entries":[
                {"path":"src/tools","type":"directory","depth":1},
                {"path":"src/tools/mod.rs","type":"symlink","depth":2}]}"#,
            "src  2 entries\n    src/tools/\n      src/tools/mod.rs@",
        ),
        (
            "glob",
            r#"{"paths":["src/lib.rs","src/main.rs"]}"#,
            "2 match(es)\n    src/lib.rs\n    src/main.rs",
        ),
        (
            "grep",
            r#"{"count":1,"incomplete":true,"matches":[{"path":"src/lib.rs","line":7,"text":"needle"}]}"#,
            "1 match(es)  incomplete\n    src/lib.rs:7  needle",
        ),
        (
            "view_image",
            r#"{"path":"image.png","mime_type":"image/png","bytes":2048}"#,
            "image.png  image/png  2.0 KiB",
        ),
        (
            "exec_command",
            r#"{"completion_reason":"exited","exit_code":-1,"wall_time_seconds":1.25,
                "session_id":null,"truncated":true,"output":"ok"}"#,
            "exited  exit=-1  1.25s  truncated  output=ok",
        ),
        (
            "write_stdin",
            r#"{"completion_reason":"running","exit_code":null,"wall_time_seconds":2,
                "session_id":"session-1","truncated":false,"output":""}"#,
            "running  2.00s  session=session-1",
        ),
        (
            "skills_list",
            r#"{"skills":[{"name":"pdfs","description":"Work with PDFs"}]}"#,
            "1 skill(s)\n    pdfs \u{2014} Work with PDFs",
        ),
        (
            "skills_read",
            r#"{"name":"pdfs","resource":"SKILL.md","shown_bytes":4096,"total_bytes":8000,"truncated":true}"#,
            "skill=pdfs  resource=SKILL.md  shown=4.0 KiB  total=7.8 KiB  continued",
        ),
        (
            "remember",
            r#"{"key":"decision","saved":false,"deleted":false}"#,
            "unchanged decision",
        ),
        (
            "recall",
            r#"{"notes":[{"key":"decision"}],"offset":0,"total":1,"plan":{"items":[1,2]}}"#,
            "1 memory note(s)  offset=0/1\n    decision  plan=2 task(s)",
        ),
        (
            "recall",
            r#"{"key":"decision","value":null}"#,
            "key=decision  missing",
        ),
    ] {
        let shown = console_render_tool_result(tool, &json(result));
        assert_eq!(shown.as_deref(), Some(expected), "{tool}");
    }
    let many: Vec<String> = (0..12).map(|index| format!("\"p{index}\"")).collect();
    let shown = console_render_tool_result(
        "glob",
        &json(&format!(r#"{{"paths":[{}]}}"#, many.join(","))),
    )
    .unwrap();
    assert!(shown.ends_with("\n    p9\n    ... +2 more"));
}

#[test]
fn the_last_line_number_is_shown() {
    let call = json(r#"{"path":"a","offset":18446744073709551615}"#);
    assert_eq!(
        console_render_tool_call("read_file", &call).as_deref(),
        Some("a  line=18446744073709551615")
    );
    let result = json(
        r#"{"path":"a","bytes":1,"total_lines":1,"shown_lines":7,"offset":18446744073709551615}"#,
    );
    assert_eq!(
        console_render_tool_result("read_file", &result).as_deref(),
        Some("a  1 B  lines=1  window=18446744073709551615..18446744073709551615")
    );
}

#[test]
fn a_cut_event_stays_within_its_limit() {
    for (long, escaped) in [("tool", "x"), ("project", "\\u0001"), ("event", "y")] {
        let event = json(&format!(
            r#"{{"{long}":"{}","status":"ok","zzz":"{}"}}"#,
            escaped.repeat(5000),
            "z".repeat(5000)
        ));
        let size = shown(&event).len() as u64;
        let cut = bound_event(event, 1024);
        assert!(shown(&cut).len() <= 1024);
        assert_eq!(at(&cut, "truncated").as_bool(), Some(true));
        assert_eq!(at(&cut, "original_bytes").as_u64(), Some(size));
        assert_eq!(at(&cut, "status").as_str(), Some("ok"));
        assert!(cut.get(long).is_none());
    }
    let control = json(&format!(r#"{{"event":"e","text":"{}"}}"#, "\\u0001".repeat(5000)));
    let cut = bound_event(control, 4096);
    assert!(shown(&cut).len() <= 4096);
    assert_eq!(at(&cut, "event").as_str(), Some("e"));
    assert!(at(&cut, "shown_bytes").as_u64().unwrap() > 0);
    let least = cut_event(&json(r#"{"event":"e"}"#), "abc", 0, &Vec::new());
    assert_eq!(
        shown(&least),
        r#"{"event_excerpt":"","original_bytes":3,"shown_bytes":0,"truncated":true}"#
    );
}

#[test]
fn older_copies_have_an_ending_of_their_own() {
    for (path, copy) in [
        ("/l/a.log", "/l/a.log.1"),
        ("notes.txt", "notes.log.1"),
        ("/l.d/plain", "/l.d/plain.log.1"),
        ("/l/.hidden", "/l/.hidden.log.1"),
        ("/l/a.b.c/", "/l/a.b.log.1"),
        ("/l/a.txt/.", "/l/a.log.1"),
        ("/l/..", "/l/.."),
        ("", ""),
    ] {
        let steps = rotation_steps(path, '/', 1, 1, 1);
        match steps.last() {
            Some(RotationStep::Rename(from, to)) => {
                assert_eq!(from, path);
                assert_eq!(to, copy);
            }
            _ => panic!("no step for {path}"),
        }
        let expected = std::path::Path::new(path).with_extension("log.1");
        assert_eq!(std::path::Path::new(copy), expected, "{path}");
    }
}
