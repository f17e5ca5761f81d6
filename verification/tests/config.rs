//! Settings: what they are built from, and which are refused.
use codex_bridge::config::building::HostFacts;
use codex_bridge::config::upstream::{
    check_upstream_servers, check_upstream_size, validate_upstream_spec,
    MAX_UPSTREAM_CONFIG_BYTES, MAX_UPSTREAM_SERVERS,
};
use codex_bridge::config::{
    default_upstream_mode, parse_unix_socket_mode, split_list, AuthMode, BindAddress, Config,
    ConfigBuilder, UpstreamMode, UpstreamSpec, DEFAULT_RUST_LOG_FILTER,
};
use codex_bridge::error::AppError;
use codex_bridge::ids::{
    auth_token_of, auth_token_path, new_auth_token, new_request_id, stored_token, temporary_name, workspace_token,
};
use codex_bridge::json::to_text;
use codex_bridge::server::status::server_started;

fn texts(pairs: &[(&str, &str)]) -> Vec<(String, String)> {
    pairs
        .iter()
        .map(|(name, value)| (name.to_string(), value.to_string()))
        .collect()
}

/// A socket address, as far as these tests write any.
fn address(text: &str) -> Option<String> {
    let (host, port) = text.split_once(':')?;
    port.parse::<u16>().ok()?;
    (host.split('.').count() == 4).then_some(text.to_owned())
}

fn host(builder: &ConfigBuilder) -> HostFacts {
    HostFacts {
        parallelism: Some(4),
        socket_address: address(&builder.bind_value()),
        stored_token: Ok("cb_stored-in-the-workspace".to_owned()),
        upstreams: Ok(Vec::new()),
        separator: '/',
    }
}

fn build(builder: ConfigBuilder) -> Result<Config, AppError> {
    assert!(builder.log_size_fits());
    let facts = host(&builder);
    builder.build(facts)
}

fn base_environment() -> Vec<(String, String)> {
    texts(&[("MCP_AUTH_TOKEN", "1234567890abcdef")])
}

fn with(extra: &[(&str, &str)]) -> ConfigBuilder {
    let mut environment = base_environment();
    environment.extend(texts(extra));
    ConfigBuilder::from_map(environment)
}

fn refused(extra: &[(&str, &str)]) -> AppError {
    build(with(extra)).err().unwrap()
}

fn spec(command: &str) -> UpstreamSpec {
    UpstreamSpec {
        command: Some(command.to_owned()),
        args: Vec::new(),
        env: Vec::new(),
        disabled: false,
        transport: None,
        url: None,
        bearer_token_env_var: None,
        env_http_headers: Vec::new(),
        tools: None,
        mode: default_upstream_mode(),
    }
}

#[test]
fn config_builder_precedence_is_override_env_builtin() {
    let environment = texts(&[
        ("MCP_AUTH_TOKEN", "1234567890abcdef"),
        ("MCP_BIND", "127.0.0.1:3102"),
        ("OUTPUT_FILE_BYTES", "65536"),
    ]);
    let config = build(
        ConfigBuilder::from_map(environment).override_value("MCP_BIND", "127.0.0.1:3103"),
    )
    .unwrap();
    assert_eq!(config.bind.to_text(), "127.0.0.1:3103");
    assert_eq!(config.output.file_bytes, 65536);
    assert_eq!(config.output.results, 500);
}

#[test]
fn slash_bind_value_selects_unix_socket() {
    let environment = texts(&[
        ("MCP_AUTH_TOKEN", "1234567890abcdef"),
        ("MCP_BIND", "/tmp/codexbridge.sock"),
    ]);
    let config = build(ConfigBuilder::from_map(environment)).unwrap();
    assert!(matches!(
        &config.bind,
        BindAddress::Unix(path) if path == "/tmp/codexbridge.sock"
    ));
    assert_eq!(config.bind.to_text(), "/tmp/codexbridge.sock");
    assert_eq!(config.unix_socket_mode, 0o777);
}

#[test]
fn unix_socket_mode_is_configured_as_octal() {
    let environment = texts(&[
        ("MCP_AUTH_TOKEN", "1234567890abcdef"),
        ("MCP_UNIX_SOCKET_MODE", "0750"),
    ]);
    let config = build(ConfigBuilder::from_map(environment)).unwrap();
    assert_eq!(config.unix_socket_mode, 0o750);

    for value in ["0899", "1000", "invalid"] {
        let environment = texts(&[
            ("MCP_AUTH_TOKEN", "1234567890abcdef"),
            ("MCP_UNIX_SOCKET_MODE", value),
        ]);
        let error = build(ConfigBuilder::from_map(environment)).err().unwrap();
        assert!(error.message().contains("MCP_UNIX_SOCKET_MODE"), "{value}");
    }
}

#[test]
fn invalid_non_path_bind_value_is_still_rejected() {
    let environment = texts(&[
        ("MCP_AUTH_TOKEN", "1234567890abcdef"),
        ("MCP_BIND", "not-a-socket-address"),
    ]);
    let error = build(ConfigBuilder::from_map(environment)).err().unwrap();
    assert!(error.message().contains("MCP_BIND"));
}

#[test]
fn config_builds_are_independent_in_one_process() {
    let first = build(
        ConfigBuilder::from_map(texts(&[
            ("MCP_AUTH_TOKEN", "first-env-token-0001"),
            ("MCP_BIND", "127.0.0.1:3201"),
            ("MCP_AUTH_MODE", "either"),
            ("OUTPUT_MAX_RESULTS", "101"),
            ("MCP_PROJECT_DOC_FALLBACKS", "FIRST.md,FIRST.local.md"),
        ]))
        .override_value("MCP_AUTH_TOKEN", "first-override-token-0001")
        .override_value("OUTPUT_MAX_RESULTS", "111"),
    )
    .unwrap();
    let second = build(ConfigBuilder::from_map(texts(&[
        ("MCP_AUTH_TOKEN", "second-env-token-0002"),
        ("MCP_BIND", "127.0.0.1:3202"),
        ("MCP_AUTH_MODE", "bearer"),
        ("OUTPUT_MAX_RESULTS", "222"),
        ("MCP_PROJECT_DOC_FALLBACKS", "SECOND.md"),
    ])))
    .unwrap();

    assert_eq!(first.auth_token, "first-override-token-0001");
    assert_eq!(first.bind.to_text(), "127.0.0.1:3201");
    assert_eq!(first.auth_mode, AuthMode::Either);
    assert_eq!(first.output.results, 111);
    assert_eq!(
        first.project_doc_fallbacks,
        vec!["FIRST.md".to_owned(), "FIRST.local.md".to_owned()]
    );

    assert_eq!(second.auth_token, "second-env-token-0002");
    assert_eq!(second.bind.to_text(), "127.0.0.1:3202");
    assert_eq!(second.auth_mode, AuthMode::Bearer);
    assert_eq!(second.output.results, 222);
    assert_eq!(second.project_doc_fallbacks, vec!["SECOND.md".to_owned()]);
}

#[test]
fn generated_auth_token_is_stable_per_workspace() {
    let made = new_auth_token();
    let environment = texts(&[("WORKSPACE_ROOT", "/work")]);
    let mut tokens: Vec<String> = Vec::new();
    for _ in 0..2 {
        let builder = ConfigBuilder::from_map(environment.clone());
        assert!(builder.needs_stored_token());
        let mut facts = host(&builder);
        facts.stored_token = Ok(stored_token(&format!("{made}\n")));
        tokens.push(builder.build(facts).unwrap().auth_token);
    }
    assert_eq!(tokens[0], tokens[1]);
    assert_eq!(tokens[0], made);
    assert!(tokens[0].starts_with("cb_"));
}

#[test]
fn upstream_config_loads_standard_mcp_servers_shape() {
    let mut demo = spec("mock-mcp");
    demo.args = vec!["--stdio".to_owned()];
    demo.tools = Some(vec!["echo".to_owned()]);
    demo.mode = UpstreamMode::Gateway;
    let servers = vec![("demo".to_owned(), demo)];
    check_upstream_servers(&servers).unwrap();
    let builder = ConfigBuilder::from_map(texts(&[
        ("MCP_AUTH_TOKEN", "1234567890abcdef"),
        ("MCP_UPSTREAM_CONFIG", "/etc/upstreams.yaml"),
    ]));
    assert_eq!(builder.upstream_path().as_deref(), Some("/etc/upstreams.yaml"));
    let mut facts = host(&builder);
    facts.upstreams = Ok(servers);
    let config = builder.build(facts).unwrap();
    assert_eq!(config.upstream_config.as_deref(), Some("/etc/upstreams.yaml"));
    let (name, demo) = &config.upstreams[0];
    assert_eq!(name, "demo");
    assert_eq!(demo.command.as_deref(), Some("mock-mcp"));
    assert_eq!(demo.args, vec!["--stdio"]);
    assert_eq!(demo.tools.as_ref().unwrap(), &vec!["echo".to_owned()]);
    assert!(matches!(demo.mode, UpstreamMode::Gateway));
}

#[test]
fn upstream_config_rejects_control_characters_in_commands() {
    let servers = vec![("demo".to_owned(), spec("mock\nother"))];
    let error = check_upstream_servers(&servers).err().unwrap();
    let builder = ConfigBuilder::from_map(texts(&[
        ("MCP_AUTH_TOKEN", "1234567890abcdef"),
        ("MCP_UPSTREAM_CONFIG", "/etc/upstreams.yaml"),
    ]));
    let mut facts = host(&builder);
    facts.upstreams = Err(error);
    assert!(builder.build(facts).is_err());
}

#[test]
fn upstream_mode_defaults_to_gateway_to_protect_tool_context() {
    assert!(matches!(spec("mock").mode, UpstreamMode::Gateway));
}

#[test]
fn upstream_config_rejects_oversized_files_before_parsing() {
    let error = check_upstream_size(MAX_UPSTREAM_CONFIG_BYTES + 1).err().unwrap();
    assert_eq!(error.code(), "CONFIG_ERROR");
    assert!(error.message().contains("exceeds"));
    assert!(check_upstream_size(MAX_UPSTREAM_CONFIG_BYTES).is_ok());
}

#[test]
fn upstream_config_rejects_invalid_environment_keys() {
    let mut demo = spec("mock");
    demo.env = texts(&[("BAD=KEY", "value")]);
    let error = validate_upstream_spec("demo", &demo).err().unwrap();
    assert_eq!(error.code(), "CONFIG_ERROR");
    assert!(error.message().contains("environment"));
}

#[test]
fn default_exec_policy_allows_native_yolo_fallback_without_sandbox() {
    let config = build(ConfigBuilder::from_map(base_environment())).unwrap();
    assert!(
        config.allow_unsandboxed_exec,
        "YOLO mode should fall back to native execution when Bubblewrap is unavailable"
    );
}

#[test]
fn invalid_sandbox_backend_is_rejected() {
    let error = refused(&[("MCP_EXEC_SANDBOX", "magic")]);
    assert_eq!(error.code(), "CONFIG_ERROR");
    assert!(error.message().contains("auto, bwrap, or none"));
}

#[test]
fn zero_positive_limits_are_rejected_with_the_specific_variable_name() {
    for name in [
        "MAX_REQUEST_BODY_BYTES",
        "MAX_WRITE_BYTES",
        "MAX_RESULTS",
        "MAX_CONCURRENT_TOOL_CALLS",
        "MAX_CONCURRENT_PROCESSES",
        "MAX_PROJECT_TOOL_CALLS",
    ] {
        let error = refused(&[(name, "0")]);
        assert_eq!(error.code(), "CONFIG_ERROR", "{name}");
        assert!(
            error.message().contains(name),
            "{name}: {}",
            error.message()
        );
    }
}

#[test]
fn nested_limits_cannot_exceed_their_parent_budget() {
    let cases = [
        (
            [
                ("MAX_REQUEST_BODY_BYTES", "5242880"),
                ("MAX_WRITE_BYTES", "6291456"),
            ],
            "MAX_WRITE_BYTES cannot exceed MAX_REQUEST_BODY_BYTES",
        ),
        (
            [
                ("MAX_CONCURRENT_PROCESSES", "2"),
                ("MAX_PROJECT_PROCESSES", "3"),
            ],
            "MAX_PROJECT_PROCESSES cannot exceed MAX_CONCURRENT_PROCESSES",
        ),
        (
            [("MAX_WRITE_BYTES", "1024"), ("OUTPUT_FILE_BYTES", "2048")],
            "OUTPUT_FILE_BYTES and OUTPUT_MULTI_FILE_BYTES cannot exceed MAX_WRITE_BYTES",
        ),
        (
            [("MAX_RESULTS", "5"), ("OUTPUT_MAX_RESULTS", "6")],
            "OUTPUT_MAX_RESULTS cannot exceed MAX_RESULTS",
        ),
    ];
    for (overrides, expected) in cases {
        let error = refused(&overrides);
        assert!(error.message().contains(expected), "{}", error.message());
    }
}

#[test]
fn default_exec_timeout_cannot_exceed_max_timeout() {
    let error = refused(&[
        ("EXEC_DEFAULT_TIMEOUT_MS", "2000"),
        ("EXEC_MAX_TIMEOUT_MS", "1000"),
    ]);
    assert!(error.message().contains("EXEC_DEFAULT_TIMEOUT_MS"));
}

#[test]
fn diagnostic_summary_never_contains_auth_token() {
    let config = build(ConfigBuilder::from_map(base_environment())).unwrap();
    let rendered = to_text(&config.diagnostic_summary()).unwrap();
    assert!(!rendered.contains(&config.auth_token));
    assert!(rendered.contains("\"init_required\":true"));
    assert!(rendered.contains("\"yolo_tools\":true"));
}

#[test]
fn upstream_validation_rejects_invalid_server_tool_and_argument_shapes() {
    let mut bad_argument = spec("mock");
    bad_argument.args = vec!["bad\narg".to_owned()];
    let mut bad_tool = spec("mock");
    bad_tool.tools = Some(vec![String::new()]);
    for (name, server) in [("", spec("mock")), ("demo", bad_argument), ("demo", bad_tool)] {
        assert_eq!(
            check_upstream_servers(&vec![(name.to_owned(), server)])
                .err()
                .unwrap()
                .code(),
            "CONFIG_ERROR"
        );
    }
}

#[test]
fn rust_log_defaults_to_warning() {
    assert_eq!(DEFAULT_RUST_LOG_FILTER, "warn");
}

#[test]
fn settings_that_are_no_numbers_are_refused() {
    let builder = with(&[("MAX_RESULTS", "many")]);
    let error = builder.usize_value("MAX_RESULTS", 7).err().unwrap();
    assert_eq!(error.code(), "CONFIG_ERROR");
    assert!(error.message().contains("MAX_RESULTS"));
    assert_eq!(builder.usize_value("MISSING", 7).unwrap(), 7);
    assert_eq!(with(&[("N", "12")]).usize_value("N", 7).unwrap(), 12);
    assert!(with(&[("N", "-1")]).usize_value("N", 7).is_err());
}

#[test]
fn switches_are_on_or_off() {
    assert!(with(&[("B", "true")]).bool_value("B", false).unwrap());
    assert!(!with(&[("B", "false")]).bool_value("B", true).unwrap());
    assert!(with(&[]).bool_value("B", true).unwrap());
    assert!(with(&[("B", "perhaps")]).bool_value("B", true).is_err());
}

#[test]
fn socket_modes_have_nine_bits() {
    assert_eq!(parse_unix_socket_mode("0").unwrap(), 0);
    assert_eq!(parse_unix_socket_mode("777").unwrap(), 0o777);
    assert!(parse_unix_socket_mode("").is_err());
    assert!(parse_unix_socket_mode("8").is_err());
    assert!(parse_unix_socket_mode("1000").is_err());
}

#[test]
fn lists_leave_out_what_is_blank() {
    assert_eq!(split_list(" a, ,b ,"), vec!["a".to_owned(), "b".to_owned()]);
    assert!(split_list("").is_empty());
}

#[test]
fn tokens_that_are_too_weak_are_refused() {
    let short = build(ConfigBuilder::from_map(texts(&[("MCP_AUTH_TOKEN", "short")])));
    assert_eq!(short.err().unwrap().code(), "CONFIG_ERROR");
    let slashed = build(ConfigBuilder::from_map(texts(&[(
        "MCP_AUTH_TOKEN",
        "1234567890/abcdef",
    )])));
    assert_eq!(slashed.err().unwrap().code(), "CONFIG_ERROR");
    assert!(build(with(&[("MCP_AUTH_MODE", "nobody")])).is_err());
}

#[test]
fn a_token_that_cannot_be_read_stops_the_build() {
    let builder = ConfigBuilder::from_map(Vec::new());
    let mut facts = host(&builder);
    facts.stored_token = Err(AppError::new("PROCESS_FAILED", "no token".to_owned()));
    let error = builder.build(facts).err().unwrap();
    assert_eq!(error.code(), "PROCESS_FAILED");
    assert_eq!(error.message(), "no token");
}

#[test]
fn too_many_upstreams_are_refused() {
    let servers: Vec<(String, UpstreamSpec)> = (0..=MAX_UPSTREAM_SERVERS)
        .map(|index| (format!("server-{index}"), spec("mock")))
        .collect();
    assert!(check_upstream_servers(&servers).is_err());
    assert!(check_upstream_servers(&servers[1..].to_vec()).is_ok());
}

#[test]
fn made_up_names_are_made_up_anew() {
    let token = new_auth_token();
    assert_eq!(token.len(), 67);
    assert!(token[3..].chars().all(|c| c.is_ascii_hexdigit()));
    assert_ne!(token, new_auth_token());
    let id = new_request_id();
    assert_eq!(id.len(), 36);
    assert_ne!(id, new_request_id());
    let name = temporary_name();
    assert!(name.starts_with(".rust-agent-") && name.ends_with(".tmp"));
    assert_ne!(name, temporary_name());
    assert_eq!(stored_token(" \tabc\u{3000}\n"), "abc");
}

#[test]
fn the_modes_have_names() {
    assert_eq!(AuthMode::Path.as_str(), "path");
    assert_eq!(AuthMode::Bearer.as_str(), "bearer");
    assert_eq!(AuthMode::Either.as_str(), "either");
}

#[test]
fn a_ready_server_tells_what_it_offers() {
    let config = build(with(&[("MCP_BIND", "127.0.0.1:3102"), ("WORKSPACE_ROOT", "/work")])).unwrap();
    let event = to_text(&server_started(&config, 15, 2)).unwrap();
    assert!(event.contains(r#""bind":"127.0.0.1:3102""#));
    assert!(event.contains(r#""exposed_tools":17"#));
    assert!(event.contains(r#""workspace_root":"/work""#));
    assert!(!event.contains(&config.auth_token));
}

#[test]
fn nothing_needs_to_be_set() {
    let config = build(ConfigBuilder::from_map(Vec::new())).unwrap();
    assert_eq!(config.bind.to_text(), "0.0.0.0:3000");
    assert_eq!(config.workspace_root, "/workspace");
    assert_eq!(config.auth_mode, AuthMode::Path);
    assert_eq!(config.sandbox_backend, "auto");
    config.validate().unwrap();
}

#[test]
fn a_workspace_keeps_its_token() {
    assert_eq!(auth_token_path("/work", '/'), "/work/.metadata/auth-token");
    let (token, text) = workspace_token(None);
    let text = text.unwrap();
    assert_eq!(text, format!("{token}\n"));
    for _ in 0..2 {
        let (again, written) = workspace_token(Some(&text));
        assert_eq!(again, token);
        assert_eq!(written, None);
    }
}

#[test]
fn a_token_is_made_of_two_draws() {
    assert_eq!(auth_token_of("ab", "cd"), "cb_abcd");
    let token = new_auth_token();
    assert_ne!(token[3..35], token[35..67]);
}

#[test]
fn an_earlier_mistake_is_told_first() {
    let builder = with(&[
        ("MCP_AUTH_MODE", "nobody"),
        ("LOG_MAX_FILE_SIZE_MB", "18446744073709551615"),
    ]);
    assert!(!builder.log_size_fits());
    let facts = host(&builder);
    assert!(builder.build(facts).err().unwrap().message().contains("MCP_AUTH_MODE"));
}
