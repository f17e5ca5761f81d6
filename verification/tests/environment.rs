//! The machine, the request, and what an agent is told of them.
use codex_bridge::error::AppError;
use codex_bridge::json::{from_text, to_text, JsonValue};
use codex_bridge::platform::{
    upstream_stdio_environment, user_home_dir_from_values, windows_hidden_creation_flags,
    windows_system32_executable, windows_taskkill_arguments,
};
use codex_bridge::project::{derive_native_project_key, ProjectKey};
use codex_bridge::request_context::{identity_from_meta, RequestIdentity, TransportMode};
use codex_bridge::runtime_environment::RuntimeEnvironment;
use codex_bridge::sandbox::podman::PodmanInvocation;
use codex_bridge::sandbox::shell::ShellHost;
use windows_sys::Win32::System::Threading::{CREATE_NEW_PROCESS_GROUP, CREATE_NO_WINDOW};

fn owned(text: &str) -> Option<String> {
    Some(text.to_owned())
}

fn meta(pairs: &[(&str, JsonValue)]) -> JsonValue {
    let mut fields: Vec<(String, JsonValue)> = pairs
        .iter()
        .map(|(name, value)| (name.to_string(), value.copy()))
        .collect();
    fields.sort_by(|a, b| a.0.cmp(&b.0));
    JsonValue::object(fields)
}

#[test]
fn home_resolution_prefers_home_then_windows_fallbacks() {
    assert_eq!(
        user_home_dir_from_values(
            owned("/home/agent"),
            owned(r"C:\Users\agent"),
            None,
            None,
            true,
        ),
        owned("/home/agent")
    );
    assert_eq!(
        user_home_dir_from_values(None, owned(r"C:\Users\agent"), None, None, true),
        owned(r"C:\Users\agent")
    );
    assert_eq!(
        user_home_dir_from_values(None, None, owned("C:"), owned(r"\Users\agent"), true),
        owned(r"C:\Users\agent")
    );
    assert_eq!(
        user_home_dir_from_values(None, None, None, None, false),
        None
    );
}

#[test]
fn homes_of_windows_are_not_looked_at_elsewhere() {
    assert_eq!(
        user_home_dir_from_values(None, owned(r"C:\Users\agent"), None, None, false),
        None
    );
    assert_eq!(
        user_home_dir_from_values(owned(""), None, owned("C:"), None, true),
        None
    );
}

#[test]
fn upstream_environment_is_platform_native() {
    let host = [
        ("PATH", r"C:\Windows\System32"),
        ("SystemRoot", r"C:\Windows"),
        ("TEMP", r"C:\Temp"),
        ("TMP", r"C:\Temp"),
        ("LD_PRELOAD", "x.so"),
    ]
    .iter()
    .map(|(name, value)| (name.to_string(), value.to_string()))
    .collect::<Vec<_>>();
    for windows in [true, false] {
        let env = upstream_stdio_environment(&host, r"C:\Temp", windows);
        let get = |name: &str| {
            env.iter()
                .find(|(key, _)| key.eq_ignore_ascii_case(name))
                .map(|(_, value)| value.as_str())
        };
        let path = get("PATH").expect("PATH must be explicitly provided");
        if windows {
            assert!(!path.contains("/usr/local/bin:/usr/bin:/bin"));
            assert!(!path.trim().is_empty());
            let system_root = get("SystemRoot").expect("SystemRoot baseline");
            assert!(!system_root.trim().is_empty());
            assert_eq!(get("WINDIR"), Some(system_root));
            assert!(get("TEMP").is_some_and(|value| !value.trim().is_empty()));
            assert!(get("TMP").is_some_and(|value| !value.trim().is_empty()));
        } else {
            assert_eq!(path, "/usr/local/bin:/usr/bin:/bin");
            assert_eq!(get("LANG"), Some("C.UTF-8"));
        }
        assert_eq!(get("LD_PRELOAD"), None);
    }
}

#[test]
fn partial_openai_metadata_is_rejected() {
    for (key, value) in [("openai/subject", "usr"), ("openai/session", "conv")] {
        let meta = meta(&[(key, JsonValue::text(value))]);
        let error = identity_from_meta(&meta, None).err().unwrap();
        assert_eq!(error.code(), "INCOMPLETE_OPENAI_CONTEXT");
    }
}

#[test]
fn empty_or_non_string_openai_metadata_is_rejected() {
    for invalid in [JsonValue::text(""), JsonValue::null(), JsonValue::truth(true)] {
        let subject = meta(&[
            ("openai/subject", invalid.copy()),
            ("openai/session", JsonValue::text("conversation")),
        ]);
        assert_eq!(
            identity_from_meta(&subject, None).err().unwrap().code(),
            "INCOMPLETE_OPENAI_CONTEXT"
        );

        let session = meta(&[
            ("openai/subject", JsonValue::text("subject")),
            ("openai/session", invalid),
        ]);
        assert_eq!(
            identity_from_meta(&session, None).err().unwrap().code(),
            "INCOMPLETE_OPENAI_CONTEXT"
        );
    }
}

#[test]
fn complete_metadata_preserves_identity_and_transport_mode() {
    let meta = meta(&[
        ("openai/subject", JsonValue::text("subject")),
        ("openai/session", JsonValue::text("conversation")),
    ]);
    let stateless = identity_from_meta(&meta, None).unwrap();
    assert_eq!(stateless.openai_subject, "subject");
    assert_eq!(stateless.openai_conversation_id, "conversation");
    assert_eq!(stateless.transport_mode, TransportMode::Stateless);
    assert_eq!(stateless.mcp_session_id, None);

    let legacy = identity_from_meta(&meta, Some("transport-session".to_owned())).unwrap();
    assert_eq!(legacy.openai_subject, "subject");
    assert_eq!(legacy.openai_conversation_id, "conversation");
    assert_eq!(legacy.transport_mode, TransportMode::LegacySession);
    assert_eq!(legacy.mcp_session_id.as_deref(), Some("transport-session"));
    assert_eq!(legacy.transport_mode.as_str(), "legacy_session");
    assert_eq!(stateless.transport_mode.as_str(), "stateless");
}

#[test]
fn identity_distinguishes_subject_and_conversation_axes() {
    fn native(subject: &str, conversation: &str) -> ProjectKey {
        let meta = meta(&[
            ("openai/subject", JsonValue::text(subject)),
            ("openai/session", JsonValue::text(conversation)),
        ]);
        let identity: RequestIdentity = identity_from_meta(&meta, None).unwrap();
        derive_native_project_key(&identity.openai_subject, &identity.openai_conversation_id)
    }

    let base = native("usr_a", "conv_1");
    assert_ne!(base.as_str(), native("usr_a", "conv_2").as_str());
    assert_ne!(base.as_str(), native("usr_b", "conv_1").as_str());
    assert_eq!(
        base.as_str(),
        native("usr_a", "conv_1").as_str(),
        "identity must be stable"
    );
    assert!(!base.as_str().contains("usr_a"));
    assert!(!base.as_str().contains("conv_1"));
}

#[test]
fn rendered_environment_is_secret_free_and_names_effective_shell() {
    let auth_token = "1234567890abcdef";
    let workspace_root = "/srv/workspaces";
    let host = ShellHost {
        windows: false,
        shell: Some("/bin/zsh".to_owned()),
        comspec: None,
    };
    for (setting, bwrap_usable) in [("auto", true), ("auto", false), ("none", true)] {
        let environment = RuntimeEnvironment::detect(
            "linux",
            "x86_64",
            '/',
            "",
            setting,
            bwrap_usable,
            PodmanInvocation::Sudo,
            &host,
        );
        let rendered = environment.render_agent_summary();
        assert!(rendered.contains(&environment.shell));
        assert!(rendered.contains(environment.sandbox_backend));
        assert!(rendered.contains(environment.podman_invocation.agent_advice()));
        assert!(rendered.contains("Structured project-tool paths always use `/`"));
        assert!(!rendered.contains(auth_token));
        assert!(!rendered.contains(workspace_root));
    }
}

#[test]
fn verified_podman_sudo_fallback_is_explicit_in_agent_summary() {
    let environment = RuntimeEnvironment {
        os: "linux",
        arch: "x86_64",
        path_separator: '/',
        executable_suffix: "",
        shell: "/bin/sh".to_owned(),
        shell_kind: "posix",
        shell_argv_prefix: vec!["-c".to_owned()],
        sandbox_backend: "native",
        podman_invocation: PodmanInvocation::DirectWithSudoFallback,
    };
    let rendered = environment.render_agent_summary();
    assert!(rendered.contains("retry the same Podman operation once"));
    assert!(rendered.contains("sudo -n podman"));
    assert!(rendered.contains("crun"));
}

#[test]
fn json_is_read_and_written() {
    let value = from_text(r#"{"b":[1,-2,3.5,"x",null,true],"a":{}}"#).unwrap();
    assert_eq!(
        to_text(&value).unwrap(),
        r#"{"a":{},"b":[1,-2,3.5,"x",null,true]}"#
    );
    let items = value.get("b").unwrap().as_array().unwrap();
    assert_eq!(items[0].as_u64(), Some(1));
    assert_eq!(items[1].as_u64(), None);
    assert_eq!(items[1].as_i64(), Some(-2));
    assert_eq!(items[2].as_u64(), None);
    assert!(items[4].is_null());
    assert_eq!(items[5].as_bool(), Some(true));
    assert!(from_text("{").is_err());
    let repeated = from_text(r#"{"a":1,"a":2}"#).unwrap();
    assert_eq!(to_text(&repeated).unwrap(), r#"{"a":2}"#);
    assert_eq!(to_text(&value.copy()).unwrap(), to_text(&value).unwrap());
}

#[test]
fn errors_carry_a_code_and_a_message() {
    let error = AppError::config("bad".to_owned());
    assert_eq!(error.code(), "CONFIG_ERROR");
    assert_eq!(error.message(), "bad");
}

#[test]
fn taskkill_is_resolved_to_system32_without_path_lookup() {
    for root in [None, owned(""), owned(r"D:\Windows")] {
        let taskkill = windows_system32_executable(root, "taskkill.exe");
        assert!(taskkill[1..].starts_with(r":\Windows\"));
        assert!(taskkill.ends_with(r"System32\taskkill.exe"));
    }
    for root in ["Windows", r"\Windows", "D:Windows"] {
        assert_eq!(
            windows_system32_executable(owned(root), "taskkill.exe"),
            r"C:\Windows\System32\taskkill.exe"
        );
    }
    assert_eq!(
        windows_system32_executable(owned(r"\\server\share"), "taskkill.exe"),
        r"\\server\share\System32\taskkill.exe"
    );
    assert_eq!(
        windows_taskkill_arguments(u32::MAX, true),
        vec!["/T", "/PID", "4294967295", "/F"]
    );
    assert_eq!(
        windows_taskkill_arguments(7, false),
        vec!["/T", "/PID", "7"]
    );
}

#[test]
fn hidden_creation_flags_cover_exec_and_internal_taskkill() {
    assert_eq!(
        windows_hidden_creation_flags(true),
        CREATE_NO_WINDOW | CREATE_NEW_PROCESS_GROUP
    );
    assert_eq!(windows_hidden_creation_flags(false), CREATE_NO_WINDOW);
}

#[test]
fn raw_text_is_no_object() {
    let value = JsonValue::object(vec![(
        "$serde_json::private::RawValue".to_owned(),
        JsonValue::text("1"),
    )]);
    let text = to_text(&value).unwrap();
    assert_eq!(text, r#"{"$serde_json::private::RawValue":"1"}"#);
    assert_eq!(from_text(&text).unwrap().as_u64(), Some(1));
}
