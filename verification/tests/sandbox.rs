//! Paths, shells, containers and commands.
use codex_bridge::config::building::HostFacts;
use codex_bridge::config::{Config, ConfigBuilder};
use codex_bridge::error::AppError;
use codex_bridge::project::{ProjectContext, ProjectKey};
use codex_bridge::request_context::TransportMode;
use codex_bridge::sandbox::command::{
    bubblewrap_arguments, build_argv_command, build_command, build_command_with_options,
    check_command, is_command_shell_readable, probe_podman_in_bwrap, sanitized_base_environment,
    shown_path, CommandPlan, ExecHost, HostPath,
};
use codex_bridge::sandbox::files::{
    check_move_source, cpu_limits, open_error, process_result, range_length, read_file_bounded, regular_file,
    remove_path,
    target_mode, BoundedOutput, OpenFailure, SecurePathResolver, TargetState,
};
use codex_bridge::sandbox::paths::{
    components, is_within, lexical_names, PathFact, PathOperation, PathWalk,
};
use codex_bridge::sandbox::podman::{
    effective_default_sandbox_backend, invokes_direct_podman, invokes_podman, invokes_sudo_podman,
    podman_can_use_bwrap, probe_bwrap, probe_direct_podman_runtime, probe_sudo_podman,
    segment_podman_invocation, select_podman_invocation, should_use_bwrap, use_bwrap,
    PodmanInvocation,
};
use codex_bridge::sandbox::shell::{
    default_exec_shell, default_shell, is_cmd_executable, is_shell_readable, powershell_script,
    shell_command, shell_ending_is_whole, shell_kind, valid_shell_executable,
    windows_shell_executable, ShellHost, ShellKind,
};
use codex_bridge::sandbox::writing::{
    AtomicWrite, FileCopy, ParentEvent, ParentStage, ParentWalk, WriteEvent, WriteStage,
};
use base64::Engine;

fn texts(pairs: &[(&str, &str)]) -> Vec<(String, String)> {
    pairs
        .iter()
        .map(|(name, value)| (name.to_string(), value.to_string()))
        .collect()
}

/// A socket address, as far as these tests write any.
fn address(text: &str) -> Option<String> {
    let (host, port) = text.split_once(':')?;
    port.parse::<u16>().ok()?;
    (host.split('.').count() == 4).then_some(text.to_owned())
}

fn host(builder: &ConfigBuilder) -> HostFacts {
    HostFacts {
        parallelism: Some(4),
        socket_address: address(&builder.bind_value()),
        stored_token: Ok("cb_stored-in-the-workspace".to_owned()),
        upstreams: Ok(Vec::new()),
        separator: '/',
    }
}

fn build(builder: ConfigBuilder) -> Result<Config, AppError> {
    assert!(builder.log_size_fits());
    let facts = host(&builder);
    builder.build(facts)
}

fn sandboxed_config(backend: &str) -> Config {
    build(ConfigBuilder::from_map(texts(&[
        ("MCP_AUTH_TOKEN", "1234567890abcdef"),
        ("MCP_EXEC_SANDBOX", backend),
    ])))
    .unwrap()
}

fn project() -> ProjectContext {
    ProjectContext {
        native_project_key: ProjectKey::new("native".to_owned()).unwrap(),
        effective_project_key: ProjectKey::new("effective".to_owned()).unwrap(),
        project_alias: None,
        project_root: "/work/effective".to_owned(),
        metadata_root: "/work/effective/.metadata".to_owned(),
        transport_mode: TransportMode::Stateless,
        mcp_session_present: false,
    }
}

fn unix_shell() -> ShellHost {
    ShellHost {
        windows: false,
        shell: None,
        comspec: None,
    }
}

fn windows_shell(comspec: Option<&str>) -> ShellHost {
    ShellHost {
        windows: true,
        shell: None,
        comspec: comspec.map(str::to_owned),
    }
}

fn exec_host() -> ExecHost {
    ExecHost {
        shell: unix_shell(),
        environment: texts(&[("PATH", "/opt/bin:/usr/bin"), ("SECRET_KEY", "hidden")]),
        temp_dir: "/tmp".to_owned(),
        bwrap_usable: true,
        podman: PodmanInvocation::Unavailable,
        podman_in_bwrap: false,
        present_paths: vec!["/usr".to_owned(), "/bin".to_owned()],
        container_socket: HostPath::Unset,
        container_config_root: HostPath::Unset,
    }
}

fn shell_line(explicit: Option<&str>, text: &str, host: &ShellHost) -> Result<(String, Vec<String>, String), AppError> {
    assert!(is_shell_readable(explicit, host));
    shell_command(explicit, text, host).map(|found| (found.shell, found.args, found.text))
}

fn decoded(payload: &str) -> String {
    let bytes = base64::engine::general_purpose::STANDARD.decode(payload).unwrap();
    assert_eq!(bytes.len() % 2, 0);
    let utf16 = bytes
        .chunks(2)
        .map(|pair| u16::from_le_bytes([pair[0], pair[1]]))
        .collect::<Vec<_>>();
    String::from_utf16(&utf16).unwrap()
}

/// What stands at the names of a path of which the first ones are there.
fn looked_at(root: &str, names: &[&str], missing: usize) -> Vec<PathFact> {
    let mut facts: Vec<PathFact> = Vec::new();
    let mut path = root.to_owned();
    for name in names {
        path = format!("{path}/{name}");
        facts.push(PathFact::Present(path.clone()));
    }
    for _ in 0..missing {
        facts.push(PathFact::Missing);
    }
    facts
}

#[test]
fn yolo_bwrap_keeps_host_network_available() {
    let args = bubblewrap_arguments(
        &exec_host(),
        "/work/effective",
        "/work/effective",
        &HostPath::Unset,
        "",
    )
    .unwrap();
    assert!(
        args.iter().any(|arg| arg == "--share-net"),
        "YOLO mode must keep network access available: {args:?}"
    );
}

#[test]
fn regression_bwrap_probe_and_runtime_must_use_the_same_executable() {
    let config = sandboxed_config("bwrap");
    let host = exec_host();
    assert!(is_command_shell_readable(&config, &host, "echo ok", None));
    let plan = build_command(&config, &host, &project(), "echo ok", false, &Vec::new()).unwrap();
    assert_eq!(plan.program, "/usr/bin/bwrap");
}

#[test]
fn rejects_traversal_and_absolute_paths() {
    let resolver = SecurePathResolver;
    for path in [
        "../secret",
        "../../etc/passwd",
        "/foo",
        r"C:\Windows",
        r"\\server\share",
    ] {
        assert!(
            resolver
                .resolve_project_path("/work", path, '/', Vec::new(), PathOperation::Create)
                .is_err(),
            "{path}"
        );
    }
}

#[test]
fn rejects_symlink_escape_for_existing_and_create() {
    let resolver = SecurePathResolver;
    for (path, operation) in [
        ("link/secret", PathOperation::Existing),
        ("link/new", PathOperation::Create),
    ] {
        let error = resolver
            .resolve_project_path("/work", path, '/', vec![PathFact::Symlink], operation)
            .err()
            .unwrap();
        assert_eq!(error.code(), "SYMLINK_ESCAPE");
    }
}

#[test]
fn capability_apis_reject_cross_platform_absolute_and_traversal_forms() {
    for path in ["../x", "/etc/passwd", r"C:\Windows\x", r"\\host\share"] {
        assert_eq!(
            components(path).err().unwrap().code(),
            "PATH_OUTSIDE_WORKSPACE",
            "accepted {path}"
        );
        assert_eq!(
            remove_path(path).err().unwrap().code(),
            "PATH_OUTSIDE_WORKSPACE",
            "accepted {path}"
        );
        assert_eq!(
            lexical_names(path, '/').err().unwrap().code(),
            "PATH_OUTSIDE_WORKSPACE",
            "accepted {path}"
        );
    }
}

#[test]
fn lexical_resolver_accepts_dot_and_normal_nested_paths() {
    let resolver = SecurePathResolver;
    assert_eq!(
        resolver
            .resolve_project_path("/work", ".", '/', Vec::new(), PathOperation::Existing)
            .unwrap(),
        "/work"
    );
    assert!(resolver
        .resolve_project_path(
            "/work",
            "./src/nested/file.txt",
            '/',
            looked_at("/work", &["src", "nested", "file.txt"], 0),
            PathOperation::Existing
        )
        .unwrap()
        .ends_with("src/nested/file.txt"));
}

#[test]
fn lexical_resolver_rejects_empty_null_backslash_and_oversized_paths() {
    let resolver = SecurePathResolver;
    for path in ["", "a\0b", r"a\b"] {
        assert_eq!(
            resolver
                .resolve_project_path("/work", path, '/', Vec::new(), PathOperation::Create)
                .err()
                .unwrap()
                .code(),
            "PATH_OUTSIDE_WORKSPACE",
            "{path:?}"
        );
    }
    let oversized = "a".repeat(4097);
    assert_eq!(
        resolver
            .resolve_project_path("/work", &oversized, '/', Vec::new(), PathOperation::Create)
            .err()
            .unwrap()
            .code(),
        "PATH_OUTSIDE_WORKSPACE"
    );
}

#[test]
fn create_resolution_allows_missing_tail_but_existing_resolution_does_not() {
    let resolver = SecurePathResolver;
    let create = resolver
        .resolve_project_path(
            "/work",
            "new/deep/file.txt",
            '/',
            vec![PathFact::Missing],
            PathOperation::Create,
        )
        .unwrap();
    assert!(create.ends_with("new/deep/file.txt"));
    assert_eq!(
        resolver
            .resolve_project_path(
                "/work",
                "new/deep/file.txt",
                '/',
                vec![PathFact::Missing],
                PathOperation::Existing,
            )
            .err()
            .unwrap()
            .code(),
        "FILE_NOT_FOUND"
    );
}

#[test]
fn bounded_read_accepts_exact_limit_and_rejects_one_byte_over() {
    assert_eq!(
        read_file_bounded(true, 5, b"12345".to_vec(), 5).unwrap(),
        b"12345"
    );
    assert_eq!(
        read_file_bounded(true, 5, b"12345".to_vec(), 4).err().unwrap().code(),
        "RESOURCE_LIMIT_EXCEEDED"
    );
    assert!(read_file_bounded(true, 4, b"12345".to_vec(), 4).is_err());
}

#[test]
fn ranged_read_does_not_require_the_whole_file_to_fit() {
    assert_eq!(range_length(16, 0, 4).unwrap(), 4);
    assert_eq!(range_length(16, 8, 4).unwrap(), 4);
    assert_eq!(range_length(16, 17, 4).err().unwrap().code(), "INVALID_INPUT");
}

#[test]
fn ranged_read_supports_eof_and_zero_length_windows() {
    assert_eq!(range_length(5, 5, 10).unwrap(), 0);
    assert_eq!(range_length(5, 2, 0).unwrap(), 0);
    assert_eq!(range_length(5, 2, 10).unwrap(), 3);
}

#[test]
fn atomic_overwrite_preserves_executable_mode() {
    assert_eq!(target_mode(TargetState::Present(0o100751)).unwrap(), 0o751);
    assert_eq!(target_mode(TargetState::Absent).unwrap(), 0o600);
    assert_eq!(
        target_mode(TargetState::Symlink).err().unwrap().code(),
        "SYMLINK_ESCAPE"
    );
}

#[test]
fn powershell_script_emits_native_exit_code_propagation_logic() {
    for windows in [false, true] {
        let host = if windows {
            windows_shell(None)
        } else {
            unix_shell()
        };
        let (shell, args, command_payload) =
            shell_line(Some("pwsh"), "native-command", &host).unwrap();
        let script = if windows {
            assert_eq!(shell, "pwsh.exe");
            assert_eq!(args.last().map(String::as_str), Some("-EncodedCommand"));
            decoded(&command_payload)
        } else {
            assert_eq!(shell, "pwsh");
            assert_eq!(args.last().map(String::as_str), Some("-Command"));
            command_payload
        };
        assert!(script.starts_with("$global:LASTEXITCODE = $null\n"));
        assert!(script.contains("$codexbridge_success = $?"));
        assert!(script.contains("$codexbridge_exit_code = $LASTEXITCODE"));
        assert!(script.contains("if ($codexbridge_success) { exit 0 }"));
        assert!(script
            .contains("if ($null -ne $codexbridge_exit_code) { exit $codexbridge_exit_code }"));
        assert!(script.ends_with("\nexit 1"));
        assert!(!script.starts_with("& {"));
    }
}

#[test]
fn windows_shell_resolution_canonicalizes_bare_names_and_preserves_explicit_paths() {
    let comspec = r"D:\Custom Windows\System32\cmd.exe";
    for shell in ["cmd", "cmd.exe", "CMD.EXE"] {
        assert_eq!(
            windows_shell_executable(shell, ShellKind::Cmd, Some(comspec)),
            comspec
        );
    }
    assert_eq!(
        windows_shell_executable("cmd", ShellKind::Cmd, None),
        "cmd.exe"
    );
    assert_eq!(
        windows_shell_executable("cmd.exe", ShellKind::Cmd, Some("powershell.exe")),
        "cmd.exe"
    );
    assert_eq!(
        windows_shell_executable("cmd", ShellKind::Cmd, Some("cmd")),
        "cmd.exe"
    );
    assert_eq!(
        windows_shell_executable("powershell", ShellKind::PowerShell, None),
        "powershell.exe"
    );
    assert_eq!(
        windows_shell_executable("pwsh", ShellKind::PowerShell, None),
        "pwsh.exe"
    );

    let explicit_cmd = r"C:\Windows\System32\cmd.exe";
    assert_eq!(
        windows_shell_executable(explicit_cmd, ShellKind::Cmd, Some(comspec)),
        explicit_cmd
    );
    let relative_cmd = r"tools\cmd.exe";
    // Explicit paths, including relative ones, are intentionally operator-selected
    // executables. Resolution only canonicalizes bare shell names.
    assert_eq!(
        windows_shell_executable(relative_cmd, ShellKind::Cmd, Some(comspec)),
        relative_cmd
    );
}

#[test]
fn windows_shell_command_never_returns_bare_cmd() {
    for comspec in [Some(r"C:\Windows\System32\cmd.exe"), Some("sh.exe"), None] {
        let host = windows_shell(comspec);
        let (shell, args, script) = shell_line(Some("cmd"), "echo ok", &host).unwrap();
        assert!(!shell.eq_ignore_ascii_case("cmd"));
        assert_eq!(shell_kind(&shell), ShellKind::Cmd);
        if let Some(comspec) = comspec {
            if is_cmd_executable(comspec) {
                assert_eq!(shell, comspec);
            }
        }
        assert_eq!(args, ["/d", "/s", "/c"]);
        assert_eq!(script, "echo ok");
    }
}

#[test]
fn windows_default_shell_remains_powershell() {
    let host = windows_shell(None);
    assert_eq!(default_shell(&host), "powershell.exe");
    let (shell, args, _) = shell_line(None, "echo ok", &host).unwrap();
    assert_eq!(shell, "powershell.exe");
    assert_eq!(
        args,
        [
            "-NoLogo",
            "-NoProfile",
            "-NonInteractive",
            "-EncodedCommand"
        ]
    );
}

#[test]
fn shell_classification_strips_exe_case_insensitively() {
    for windows in [false, true] {
        let host = if windows {
            windows_shell(None)
        } else {
            unix_shell()
        };
        for shell in ["cmd.Exe", "PowerShell.Exe", "pwsh.EXE"] {
            let (_, args, _) = shell_line(Some(shell), "echo ok", &host).unwrap();
            if shell.to_ascii_lowercase().starts_with("cmd") {
                assert_eq!(args.last().map(String::as_str), Some("/c"));
            } else if windows {
                assert_eq!(args.last().map(String::as_str), Some("-EncodedCommand"));
            } else {
                assert_eq!(args.last().map(String::as_str), Some("-Command"));
            }
        }
    }
}

#[test]
fn shell_classification_handles_names_paths_and_unknown_shells() {
    for shell in [
        "/bin/sh",
        "/bin/bash",
        "zsh",
        "fish",
        r"C:\Program Files\Git\bin\bash.exe",
    ] {
        assert!(shell_ending_is_whole(shell));
        assert_eq!(shell_kind(shell), ShellKind::Posix, "{shell}");
    }
    for shell in [
        "powershell",
        "pwsh",
        "PowerShell.EXE",
        r"C:\Windows\System32\WindowsPowerShell\v1.0\powershell.exe",
    ] {
        assert_eq!(shell_kind(shell), ShellKind::PowerShell, "{shell}");
    }
    for shell in ["cmd", "cmd.exe", r"C:\Windows\System32\cmd.EXE"] {
        assert_eq!(shell_kind(shell), ShellKind::Cmd, "{shell}");
    }
}

#[test]
fn shell_command_arguments_follow_explicit_shell_not_host_platform() {
    for windows in [false, true] {
        let host = if windows {
            windows_shell(None)
        } else {
            unix_shell()
        };
        let (_, posix_args, posix_script) = shell_line(Some("bash"), "echo ok", &host).unwrap();
        assert_eq!(posix_args, ["-c"]);
        assert_eq!(posix_script, "echo ok");

        let (_, powershell_args, powershell_payload) =
            shell_line(Some("powershell.exe"), "native-command", &host).unwrap();
        let powershell_script = if windows {
            assert_eq!(
                powershell_args,
                [
                    "-NoLogo",
                    "-NoProfile",
                    "-InputFormat",
                    "Text",
                    "-OutputFormat",
                    "Text",
                    "-NonInteractive",
                    "-EncodedCommand"
                ]
            );
            decoded(&powershell_payload)
        } else {
            assert_eq!(powershell_args, ["-NoLogo", "-NoProfile", "-Command"]);
            powershell_payload
        };
        assert!(powershell_script.contains("$LASTEXITCODE"));

        let (_, cmd_args, cmd_script) = shell_line(Some("cmd.exe"), "echo ok", &host).unwrap();
        assert_eq!(cmd_args, ["/d", "/s", "/c"]);
        assert_eq!(cmd_script, "echo ok");
    }
}

#[test]
fn shell_command_rejects_control_characters_and_oversized_executable() {
    let host = unix_shell();
    for shell in ["bad\nshell", "bad\rshell", "bad\0shell"] {
        assert_eq!(
            shell_line(Some(shell), "echo ok", &host).err().unwrap().code(),
            "INVALID_INPUT"
        );
    }
    let long = "s".repeat(4097);
    assert_eq!(
        shell_line(Some(&long), "echo ok", &host).err().unwrap().code(),
        "INVALID_INPUT"
    );
}

#[test]
fn default_exec_shell_reports_args_consistent_with_detected_kind() {
    for (windows, named) in [
        (false, None),
        (false, Some("/usr/bin/pwsh")),
        (false, Some("cmd")),
        (true, None),
    ] {
        let host = ShellHost {
            windows,
            shell: named.map(str::to_owned),
            comspec: None,
        };
        let (shell, kind, args) = default_exec_shell(false, &host);
        assert_eq!(shell_kind(&shell).as_str(), kind);
        match kind {
            "powershell" => {
                let expected = if windows { "-EncodedCommand" } else { "-Command" };
                assert_eq!(args.last().map(String::as_str), Some(expected));
            }
            "cmd" => assert_eq!(args.last().map(String::as_str), Some("/c")),
            _ => assert_eq!(args, ["-c"]),
        }
    }
    let (shell, kind, args) = default_exec_shell(true, &unix_shell());
    assert_eq!((shell.as_str(), kind), ("/bin/sh", "posix"));
    assert_eq!(args, ["-c"]);
}

#[test]
fn podman_commands_are_detected_without_special_casing_other_engines() {
    for command in [
        "podman run --rm alpine true",
        "/usr/bin/podman ps",
        "FOO=1 podman build .",
        "printf x | podman load",
        "env FOO=1 podman ps",
        "sudo -n podman run --rm alpine true",
        "sudo --non-interactive /usr/bin/podman ps",
        "env FOO=1 sudo -n podman build .",
        "rtk sudo -n podman run --rm alpine true",
        "rtk podman ps",
    ] {
        assert!(invokes_podman(command), "{command}");
    }
    for command in [
        "sudo -n podman run --rm alpine true",
        "sudo --non-interactive /usr/bin/podman ps",
        "env FOO=1 sudo -n podman build .",
        "rtk sudo -n podman run --rm alpine true",
    ] {
        assert!(invokes_sudo_podman(command), "{command}");
    }
    for command in [
        "podman run --rm alpine true",
        "/usr/bin/podman ps",
        "FOO=1 podman build .",
    ] {
        assert!(!invokes_sudo_podman(command), "{command}");
    }
    for command in [
        "printf podman-image",
        "echo podman",
        "FOO=1 docker build .",
        "buildah bud .",
    ] {
        assert!(!invokes_podman(command), "{command}");
    }
}

#[test]
fn podman_falls_back_only_when_its_bwrap_probe_fails() {
    assert!(should_use_bwrap("auto", true, false, false, false));
    assert!(should_use_bwrap("auto", true, true, false, true));
    assert!(!should_use_bwrap("auto", true, true, false, false));
    assert!(!should_use_bwrap("auto", false, false, false, false));
    assert!(!should_use_bwrap("none", true, false, false, true));
}

#[test]
fn podman_invocation_is_linux_only_and_tracks_verified_sudo_fallback() {
    assert_eq!(
        select_podman_invocation(false, false, true, true),
        PodmanInvocation::Unavailable
    );
    assert_eq!(
        select_podman_invocation(true, false, true, true),
        PodmanInvocation::DirectWithSudoFallback
    );
    assert_eq!(
        select_podman_invocation(true, false, false, true),
        PodmanInvocation::Sudo
    );
    assert_eq!(
        select_podman_invocation(true, false, true, false),
        PodmanInvocation::Direct
    );
    assert_eq!(
        select_podman_invocation(true, true, true, true),
        PodmanInvocation::Direct
    );
    assert_eq!(
        select_podman_invocation(true, false, false, false),
        PodmanInvocation::Unavailable
    );
}

#[test]
fn podman_runtime_probe_is_disabled_outside_linux() {
    for root in [false, true] {
        assert!(probe_direct_podman_runtime(false, root).is_none());
        assert!(probe_sudo_podman(false, root).is_none());
        assert_eq!(
            select_podman_invocation(false, root, false, false),
            PodmanInvocation::Unavailable
        );
    }
}

#[test]
fn direct_podman_with_sudo_fallback_tells_agent_to_retry_rootless_crun_failures() {
    let advice = PodmanInvocation::DirectWithSudoFallback.agent_advice();
    assert!(advice.contains("crun"));
    assert!(advice.contains("Operation not permitted"));
    assert!(advice.contains("retry the same Podman operation once"));
    assert!(advice.contains("sudo -n podman"));
}

#[test]
fn sudo_podman_never_stays_inside_bwrap() {
    assert!(podman_can_use_bwrap(PodmanInvocation::Direct, true));
    assert!(podman_can_use_bwrap(
        PodmanInvocation::DirectWithSudoFallback,
        true
    ));
    assert!(!podman_can_use_bwrap(PodmanInvocation::Direct, false));
    assert!(!podman_can_use_bwrap(PodmanInvocation::Sudo, true));
    assert!(!podman_can_use_bwrap(PodmanInvocation::Unavailable, true));
    assert!(!should_use_bwrap("auto", true, true, true, true));
}

#[test]
fn posix_invocation_is_not_wrapped_as_powershell() {
    let (_, args, script) = shell_line(Some("/bin/bash"), "printf ok", &unix_shell()).unwrap();
    assert_eq!(args, ["-c"]);
    assert_eq!(script, "printf ok");
}

#[test]
fn exec_env_additions_reject_malformed_keys_and_oversized_values() {
    let config = sandboxed_config("none");
    let host = exec_host();
    let build = |environment: Vec<(String, String)>| -> Result<CommandPlan, AppError> {
        assert!(is_command_shell_readable(&config, &host, "echo ok", None));
        build_command_with_options(
            &config,
            &host,
            &project(),
            "echo ok",
            true,
            &environment,
            "/work/effective",
            None,
        )
    };

    let oversized_value = vec![("BIG".to_owned(), "x".repeat(8193))];
    assert_eq!(build(oversized_value).err().unwrap().code(), "INVALID_INPUT");

    let key_with_equals = texts(&[("BAD=KEY", "v")]);
    assert_eq!(build(key_with_equals).err().unwrap().code(), "INVALID_INPUT");

    // A well-formed addition must pass and reach the command environment.
    let valid = texts(&[("CODEXBRIDGE_ENV_FORWARDING_PROBE", "forwarded-exactly-42")]);
    let plan = build(valid.clone()).unwrap();
    assert!(plan.environment.contains(&valid[0]));
    assert!(!plan.environment.iter().any(|(name, _)| name == "SECRET_KEY"));
}

#[test]
fn the_sandbox_shows_the_project_and_little_else() {
    let args = bubblewrap_arguments(
        &exec_host(),
        "/work/effective",
        "/work/effective/src",
        &HostPath::Found("/work/.metadata/run".to_owned()),
        "/run/codexbridge",
    )
    .unwrap();
    let pair = |first: &str, second: &str| {
        args.windows(2)
            .any(|window| window[0] == first && window[1] == second)
    };
    assert!(pair("--ro-bind", "/usr"));
    assert!(!pair("--ro-bind", "/lib64"));
    assert!(pair("--bind", "/work/effective"));
    assert!(pair("/work/.metadata/run", "/run/codexbridge"));
    let missing = bubblewrap_arguments(
        &exec_host(),
        "/work/effective",
        "/work/effective",
        &HostPath::Unavailable("gone".to_owned()),
        "/run/codexbridge",
    );
    assert!(missing.is_err());
    assert_eq!(shown_path(0), "/usr");
    assert_eq!(shown_path(10), "/etc/group");
}

#[test]
fn programs_are_started_with_their_arguments() {
    let config = sandboxed_config("none");
    let host = exec_host();
    let arguments = vec!["status".to_owned(), "--short".to_owned()];
    let (plan, sandboxed) =
        build_argv_command(&config, &host, &project(), "git", &arguments, &Vec::new()).unwrap();
    assert!(!sandboxed);
    assert_eq!(plan.program, "git");
    assert_eq!(plan.args, arguments);
    assert_eq!(plan.directory.as_deref(), Some("/work/effective"));
    let (plan, sandboxed) = build_argv_command(
        &sandboxed_config("bwrap"),
        &host,
        &project(),
        "git",
        &arguments,
        &Vec::new(),
    )
    .unwrap();
    assert!(sandboxed);
    assert_eq!(plan.program, "/usr/bin/bwrap");
    assert!(plan.args.ends_with(&["git".to_owned(), "status".to_owned(), "--short".to_owned()]));
}

#[test]
fn a_sandbox_that_is_demanded_and_missing_is_an_error() {
    let config = sandboxed_config("bwrap");
    let mut host = exec_host();
    host.bwrap_usable = false;
    let strict = Config {
        allow_unsandboxed_exec: false,
        ..config
    };
    assert!(build_command(&strict, &host, &project(), "echo ok", false, &Vec::new()).is_err());
}

#[test]
fn commands_have_a_length() {
    assert!(check_command("ok", 2).is_ok());
    assert!(check_command("too long", 2).is_err());
    assert!(check_command("", 2).is_err());
}

#[test]
fn secrets_of_the_environment_are_not_handed_on() {
    let list = sanitized_base_environment(&exec_host(), false);
    assert!(!list.iter().any(|(name, _)| name == "SECRET_KEY"));
    assert!(list.iter().any(|(name, _)| name == "PATH"));
}

#[test]
fn a_path_is_followed_name_by_name() {
    let mut walk = PathWalk::start("/work", "a/./b//c", '/').unwrap();
    assert_eq!(walk.next_path().as_deref(), Some("/work/a"));
    walk.step(PathFact::Present("/work/a".to_owned()), PathOperation::Create)
        .unwrap();
    assert_eq!(walk.next_path().as_deref(), Some("/work/a/b"));
    let error = walk
        .step(PathFact::Present("/elsewhere/b".to_owned()), PathOperation::Create)
        .err()
        .unwrap();
    assert_eq!(error.code(), "PATH_OUTSIDE_WORKSPACE");
    walk.step(PathFact::Missing, PathOperation::Create).unwrap();
    assert_eq!(walk.next_path(), None);
    assert_eq!(walk.finish(), "/work/a/b/c");
    let failed = SecurePathResolver.resolve_project_path(
        "/work",
        "a",
        '/',
        vec![PathFact::Failed(AppError::new("PROCESS_FAILED", "denied".to_owned()))],
        PathOperation::Existing,
    );
    assert_eq!(failed.err().unwrap().message(), "denied");
}

#[test]
fn what_is_within_a_root_is_told_by_names() {
    assert!(is_within("/work/a", "/work", '/'));
    assert!(is_within("/work", "/work", '/'));
    assert!(!is_within("/workshop", "/work", '/'));
    assert!(is_within("/anything", "/", '/'));
    for (path, root) in [
        ("/a/b", "/a/b/"),
        ("/a//b", "/a/b"),
        ("/a/./b/c/", "/a/b"),
        ("./a/b", "./a"),
        ("a", ""),
        ("/a", ""),
        ("/a/b/../c", "/a/b"),
    ] {
        assert!(is_within(path, root, '/'), "{path} {root}");
        assert!(std::path::Path::new(path).starts_with(root));
    }
    for (path, root) in [("a/b", "/a"), ("./a", "a"), ("a", "./a"), ("/a", "/a/b")] {
        assert!(!is_within(path, root, '/'), "{path} {root}");
        assert!(!std::path::Path::new(path).starts_with(root));
    }
    assert!(is_within(r"C:\work\a", "C:/work/", '\\'));
}

#[test]
fn removals_name_a_parent_and_a_child() {
    let (parents, name) = remove_path("a/b/c").unwrap();
    assert_eq!(parents, vec!["a".to_owned(), "b".to_owned()]);
    assert_eq!(name, "c");
    assert_eq!(components(".").err().unwrap().code(), "PATH_OUTSIDE_WORKSPACE");
    assert_eq!(
        open_error(OpenFailure::NotFollowed, "x".to_owned()).code(),
        "SYMLINK_ESCAPE"
    );
    assert_eq!(
        open_error(OpenFailure::NotFound, "x".to_owned()).code(),
        "FILE_NOT_FOUND"
    );
    assert_eq!(
        open_error(OpenFailure::Other, "x".to_owned()).code(),
        "PROCESS_FAILED"
    );
    let (bytes, count) = SecurePathResolver.copy_file_secure(Ok(b"abc".to_vec())).unwrap();
    assert_eq!((bytes, count), (b"abc".to_vec(), 3));
}

#[test]
fn output_is_kept_up_to_its_limit_and_counted_in_full() {
    let mut stdout = BoundedOutput::new(4);
    stdout.feed(b"ab");
    assert!(!stdout.truncated());
    stdout.feed(b"cdef");
    assert!(stdout.truncated());
    let mut stderr = BoundedOutput::new(4);
    stderr.feed(&[b'x', 0xff]);
    let result = process_result(Some(3), false, stdout, stderr);
    assert_eq!(result.exit_code, Some(3));
    assert_eq!(result.stdout, "abcd");
    assert_eq!(result.stdout_bytes, 6);
    assert_eq!(result.stderr, "x\u{fffd}");
    assert_eq!(result.stderr_bytes, 2);
    assert!(result.truncated);
    assert!(!result.timed_out);
    assert!(cpu_limits(10).0 <= cpu_limits(10).1);
}

#[test]
fn podman_is_told_from_sudo_podman() {
    assert_eq!(segment_podman_invocation("podman ps"), Some(false));
    assert_eq!(segment_podman_invocation("sudo -n podman ps"), Some(true));
    assert_eq!(segment_podman_invocation("ls"), None);
    assert!(invokes_direct_podman("ls; podman ps"));
    assert!(!invokes_direct_podman("sudo -n podman ps"));
    assert!(use_bwrap("auto", true, PodmanInvocation::Direct, true, Some("podman ps")));
    assert!(!use_bwrap("auto", true, PodmanInvocation::Sudo, true, Some("podman ps")));
    assert!(use_bwrap("auto", true, PodmanInvocation::Sudo, true, None));
    assert_eq!(effective_default_sandbox_backend("auto", false), "native");
    let probe = probe_sudo_podman(true, false).unwrap();
    assert_eq!(probe.program, "sudo");
    assert!(probe.args.contains(&"-n"));
    assert!(probe_sudo_podman(true, true).is_none());
}

#[test]
fn shells_are_named_sensibly() {
    assert!(valid_shell_executable("/bin/sh"));
    assert!(!valid_shell_executable(""));
    assert!(!valid_shell_executable("a\0b"));
    assert!(is_cmd_executable(r"C:\x\CMD.exe"));
    assert!(!is_cmd_executable("sh"));
    assert!(powershell_script("x").contains("x"));
    assert_eq!(default_shell(&unix_shell()), "/bin/sh");
}

#[test]
fn the_sandbox_is_tried_before_it_is_used() {
    let probe = probe_bwrap(true, true).unwrap();
    assert_eq!(probe.program, "/usr/bin/bwrap");
    assert_eq!(probe.args.last(), Some(&"/bin/true"));
    assert!(probe_bwrap(false, true).is_none());
    assert!(probe_bwrap(true, false).is_none());

    let config = sandboxed_config("auto");
    let mut host = exec_host();
    let plan = probe_podman_in_bwrap(&config, &host, &project()).unwrap();
    assert_eq!(plan.program, "/usr/bin/bwrap");
    assert_eq!(
        plan.args[plan.args.len() - 4..],
        ["podman", "info", "--format", "json"]
    );
    host.bwrap_usable = false;
    assert!(probe_podman_in_bwrap(&config, &host, &project()).is_none());
}

#[test]
fn symbolic_links_are_not_moved() {
    assert_eq!(
        check_move_source(TargetState::Symlink).err().unwrap().code(),
        "SYMLINK_ESCAPE"
    );
    assert!(check_move_source(TargetState::Present(0o644)).is_ok());
}

fn failure() -> WriteEvent {
    WriteEvent::Failed(AppError::new("PROCESS_FAILED", "no space left".to_owned()))
}

#[test]
fn a_file_is_written_in_one_piece() {
    let mut write = AtomicWrite::start();
    write.advance(WriteEvent::Target(TargetState::Present(0o100751)));
    assert_eq!(write.mode, 0o751);
    let mut stages: Vec<WriteStage> = Vec::new();
    while write.stage != WriteStage::Finished {
        stages.push(write.stage);
        write.advance(WriteEvent::Done);
    }
    assert_eq!(
        stages,
        vec![
            WriteStage::Create,
            WriteStage::SetMode,
            WriteStage::Write,
            WriteStage::Rename,
            WriteStage::Sync,
        ]
    );
    assert!(write.finish().is_ok());
}

#[test]
fn a_failed_write_takes_its_temporary_file_away() {
    for (at, discards) in [
        (WriteStage::Create, false),
        (WriteStage::SetMode, true),
        (WriteStage::Write, true),
        (WriteStage::Rename, true),
        (WriteStage::Sync, false),
    ] {
        let mut write = AtomicWrite::start();
        write.advance(WriteEvent::Target(TargetState::Absent));
        assert_eq!(write.mode, 0o600);
        while write.stage != at {
            write.advance(WriteEvent::Done);
        }
        write.advance(failure());
        assert_eq!(write.stage == WriteStage::Discard, discards);
        if discards {
            write.advance(WriteEvent::Failed(AppError::new(
                "FILE_NOT_FOUND",
                "already gone".to_owned(),
            )));
        }
        assert_eq!(write.finish().err().unwrap().message(), "no space left");
    }
    let mut link = AtomicWrite::start();
    link.advance(WriteEvent::Target(TargetState::Symlink));
    assert_eq!(link.finish().err().unwrap().code(), "SYMLINK_ESCAPE");
}

#[test]
fn only_regular_files_are_read() {
    assert!(regular_file(true).is_ok());
    let error = regular_file(false).err().unwrap();
    assert_eq!(error.code(), "INVALID_INPUT");
    assert_eq!(error.message(), "path is not a regular file");
    assert_eq!(
        read_file_bounded(false, 0, Vec::new(), 5).err().unwrap().code(),
        "INVALID_INPUT"
    );
}

#[test]
fn paths_of_windows_are_followed_too() {
    let root = r"\\?\C:\work";
    let resolver = SecurePathResolver;
    for path in ["C:x", "C:/x", "/x", "//server/share/x", "c:", "a/../b"] {
        let error = resolver
            .resolve_project_path(root, path, '\\', Vec::new(), PathOperation::Create)
            .err()
            .unwrap();
        assert_eq!(error.code(), "PATH_OUTSIDE_WORKSPACE", "{path}");
        let absolute = path == "C:/x" || path.starts_with("//");
        assert_eq!(error.message().starts_with("absolute"), absolute, "{path}");
    }
    assert!(lexical_names("C:x", '/').is_ok());
    let mut walk = PathWalk::start(root, "a/b", '\\').unwrap();
    assert_eq!(walk.next_path().as_deref(), Some(r"\\?\C:\work\a"));
    walk.step(
        PathFact::Present(r"\\?\C:\work\a".to_owned()),
        PathOperation::Create,
    )
    .unwrap();
    walk.step(PathFact::Missing, PathOperation::Create).unwrap();
    assert_eq!(walk.finish(), r"\\?\C:\work\a\b");
    assert!(!is_within(r"C:\workshop", r"C:\work", '\\'));
}

#[test]
fn a_path_is_followed_to_its_end() {
    let error = SecurePathResolver
        .resolve_project_path(
            "/work",
            "a/b",
            '/',
            looked_at("/work", &["a"], 0),
            PathOperation::Existing,
        )
        .err()
        .unwrap();
    assert_eq!(error.code(), "PROCESS_FAILED");
}

#[test]
fn a_copy_is_whole_or_not_at_all() {
    let copy = FileCopy::start(read_file_bounded(true, 3, b"abc".to_vec(), 3));
    assert_eq!(copy.write.stage, WriteStage::Inspect);
    assert_eq!(copy.data, b"abc");
    assert_eq!(copy.count, 3);
    let refused = FileCopy::start(read_file_bounded(true, 3, b"abc".to_vec(), 2));
    assert_eq!(refused.write.stage, WriteStage::Finished);
    assert_eq!(
        refused.finish().err().unwrap().code(),
        "RESOURCE_LIMIT_EXCEEDED"
    );
}

#[test]
fn directories_are_made_and_entered_in_turn() {
    let names = vec!["a".to_owned(), "b".to_owned()];
    let mut walk = ParentWalk::start(names.clone(), true);
    assert_eq!(walk.stage, ParentStage::Make);
    walk.advance(ParentEvent::Done);
    assert_eq!(walk.stage, ParentStage::Open);
    walk.advance(ParentEvent::Done);
    walk.advance(ParentEvent::AlreadyThere);
    assert_eq!((walk.stage, walk.index), (ParentStage::Open, 1));
    walk.advance(ParentEvent::Done);
    assert_eq!(walk.stage, ParentStage::Finished);
    assert!(walk.finish().is_ok());

    let mut linked = ParentWalk::start(names, false);
    assert_eq!(linked.stage, ParentStage::Open);
    linked.advance(ParentEvent::Failed(open_error(
        OpenFailure::NotFollowed,
        "too many links".to_owned(),
    )));
    assert_eq!(linked.finish().err().unwrap().code(), "SYMLINK_ESCAPE");
    assert!(ParentWalk::start(Vec::new(), true).finish().is_ok());
}

#[test]
fn commands_run_in_the_directory_that_was_meant() {
    for (root, workdir, expected) in [
        ("/a/b", "/a/b", "/workspace"),
        ("/a/b/", "/a/b", "/workspace"),
        ("/a/b", "/a//b", "/workspace"),
        ("/a/b", "/a/b/c/", "/workspace/c"),
        ("/a/b", "/a/b/./c", "/workspace/c"),
        ("/a/b", "/a/b//c", "/workspace/c"),
        ("/a/b", r"/a/b/c\d/e", "/workspace/c/d/e"),
    ] {
        let args =
            bubblewrap_arguments(&exec_host(), root, workdir, &HostPath::Unset, "").unwrap();
        let at = args.iter().position(|arg| arg == "--chdir").unwrap();
        assert_eq!(args[at + 1], expected, "{root} {workdir}");
    }
    for (root, workdir) in [("/a/b", "/a/bc"), ("/a/b", "/a"), ("/a/b", "a/b")] {
        let error = bubblewrap_arguments(&exec_host(), root, workdir, &HostPath::Unset, "")
            .err()
            .unwrap();
        assert_eq!(error.code(), "PATH_OUTSIDE_WORKSPACE");
    }
}

#[test]
fn a_resolved_path_is_the_root_and_its_names() {
    let resolver = SecurePathResolver;
    let resolve = |facts: Vec<PathFact>, operation: PathOperation| {
        resolver.resolve_project_path("/work", "./a//b/c", '/', facts, operation)
    };
    for operation in [PathOperation::Existing, PathOperation::Create] {
        assert_eq!(
            resolve(looked_at("/work", &["a", "b", "c"], 0), operation).unwrap(),
            "/work/a/b/c"
        );
        let mut linked = looked_at("/work", &["a"], 0);
        linked.push(PathFact::Symlink);
        assert_eq!(
            resolve(linked, operation).err().unwrap().code(),
            "SYMLINK_ESCAPE"
        );
    }
    let half = || looked_at("/work", &["a"], 1);
    assert_eq!(resolve(half(), PathOperation::Create).unwrap(), "/work/a/b/c");
    assert_eq!(
        resolve(half(), PathOperation::Existing).err().unwrap().code(),
        "FILE_NOT_FOUND"
    );
}
