//! Building a configuration.
use vstd::prelude::*;

use crate::config::{
    comma_list, config_error, number_answer, number_setting, parse_unix_socket_mode, setting,
    setting_or, socket_mode, split_list, truth_setting, AuthMode, BindAddress, BindView,
    BuilderView, Config, ConfigBuilder, ConfigView, Limits, LogConfig, LogView, OutputLimits,
    UpstreamSpec,
};
use crate::config::validate::{config_refusal, positive_limits, zero_limit};
use crate::error::{AppError, ErrorView};
use crate::project::{join_path, joined_path};
use crate::search::{has_char, texts};
use crate::text::{blank, byte_len, is_blank, lemma_number_range, opt_view, utf8_len};

verus! {

/// What the machine says when a configuration is built.
pub struct HostFacts {
    /// How many threads can run at once, if that is known.
    pub parallelism: Option<usize>,
    /// The value of MCP_BIND as a socket address, if it is one.
    pub socket_address: Option<String>,
    /// The token kept in the workspace, for settings that name none.
    pub stored_token: Result<String, AppError>,
    /// The upstream servers of the file that MCP_UPSTREAM_CONFIG names.
    pub upstreams: Result<Vec<(String, UpstreamSpec)>, AppError>,
    /// What separates the parts of a path.
    pub separator: char,
}

pub open spec fn auth_mode_of(name: Seq<char>) -> Option<AuthMode> {
    if name == "path"@ {
        Some(AuthMode::Path)
    } else if name == "bearer"@ {
        Some(AuthMode::Bearer)
    } else if name == "either"@ {
        Some(AuthMode::Either)
    } else {
        None
    }
}

/// The token that the settings name.
pub open spec fn configured_token(builder: BuilderView) -> Option<Seq<char>> {
    match setting(builder, "MCP_AUTH_TOKEN"@) {
        Some(token) if token.len() > 0 => Some(token),
        _ => None,
    }
}

/// The file of upstream servers that the settings name.
pub open spec fn upstream_path(builder: BuilderView) -> Option<Seq<char>> {
    match setting(builder, "MCP_UPSTREAM_CONFIG"@) {
        Some(path) if !blank(path) => Some(path),
        _ => None,
    }
}

pub open spec fn token_of(builder: BuilderView, host: HostFacts) -> Result<Seq<char>, ErrorView> {
    match configured_token(builder) {
        Some(token) => Ok(token),
        None => match host.stored_token {
            Ok(token) => Ok(token@),
            Err(e) => Err(e@),
        },
    }
}

/// Why a token is refused.
pub open spec fn token_refusal(token: Seq<char>, mode: AuthMode) -> Option<ErrorView> {
    if utf8_len(token) < 16 || utf8_len(token) > 512 {
        Some(config_error("MCP_AUTH_TOKEN must contain between 16 and 512 bytes"))
    } else if mode != AuthMode::Bearer && (token.contains('/') || token.contains('\\')) {
        Some(config_error("MCP_AUTH_TOKEN cannot contain path separators"))
    } else {
        None
    }
}

/// A value with a slash is the path of a Unix socket, any other one a socket
/// address.
pub open spec fn bind_of(value: Seq<char>, address: Option<Seq<char>>) -> Option<BindView> {
    if value.contains('/') {
        Some(BindView::Unix(value))
    } else {
        match address {
            Some(address) => Some(BindView::Tcp(address)),
            None => None,
        }
    }
}

pub open spec fn cpu_default(parallelism: Option<usize>) -> usize {
    match parallelism {
        Some(n) => if n > 2 {
            n
        } else {
            2
        },
        None => 2,
    }
}

/// A name of a file in the directory that it is looked for in.
pub open spec fn simple_file_name(name: Seq<char>) -> bool {
    utf8_len(name) <= 128 && name != "."@ && name != ".."@ && !name.contains('/') && !name.contains(
        '\\',
    ) && !name.contains('\0')
}

pub open spec fn fallbacks_accepted(names: Seq<Seq<char>>) -> bool {
    names.len() <= 16 && forall|i: int|
        0 <= i < names.len() ==> simple_file_name(#[trigger] names[i])
}

/// Number settings in the order in which they are read, with their defaults.
pub open spec fn first_numbers(cpu: usize, processes: usize) -> Seq<(Seq<char>, usize)> {
    seq![
        ("CONSOLE_PARAM_EXCERPT_BYTES"@, 4096),
        ("CONSOLE_RESULT_EXCERPT_BYTES"@, 8192),
        ("LOG_MAX_EVENT_BYTES"@, 1_048_576),
        ("LOG_MAX_FILE_SIZE_MB"@, 100),
        ("LOG_MAX_FILES"@, 10),
        ("MAX_REQUEST_BODY_BYTES"@, 16_777_216),
        ("MAX_INPUT_STRING_BYTES"@, 1_048_576),
        ("MAX_WRITE_BYTES"@, 8_388_608),
        ("MAX_PATCH_BYTES"@, 4_194_304),
        ("MAX_MULTI_PATHS"@, 64),
        ("MAX_RESULTS"@, 1000),
        ("MAX_TRAVERSED_ENTRIES"@, 100_000),
        ("MAX_PROCESS_OUTPUT_BYTES"@, 4_194_304),
        ("MAX_CONCURRENT_TOOL_CALLS"@, 64),
        ("MAX_CONCURRENT_CPU_TASKS"@, cpu),
        ("MAX_CONCURRENT_SEARCHES"@, cpu),
        ("MAX_CONCURRENT_PATCHES"@, 4),
        ("MAX_PROJECT_TOOL_CALLS"@, 8),
        (
            "MAX_PROJECT_PROCESSES"@,
            if processes > 2 {
                (processes - 1) as usize
            } else {
                1
            },
        ),
        ("OVERLOAD_WAIT_MS"@, 500),
        ("OUTPUT_FILE_BYTES"@, 262_144),
        ("OUTPUT_MULTI_FILE_BYTES"@, 1_048_576),
        ("OUTPUT_MAX_RESULTS"@, 500),
        ("OUTPUT_SEARCH_BYTES"@, 524_288),
        ("MAX_LEGACY_MCP_SESSIONS"@, 1024),
        ("MCP_SESSION_IDLE_SECS"@, 3600),
        ("STATUS_INTERVAL_SECS"@, 0),
        ("EXEC_DEFAULT_TIMEOUT_MS"@, 120_000),
        ("EXEC_MAX_TIMEOUT_MS"@, 3_600_000),
    ]
}

pub open spec fn last_numbers() -> Seq<(Seq<char>, usize)> {
    seq![
        ("MAX_INTERACTIVE_PROCESSES"@, 32),
        ("INTERACTIVE_PROCESS_IDLE_SECS"@, 900),
        ("UPSTREAM_CALL_TIMEOUT_MS"@, 120_000),
        ("MAX_CONCURRENT_UPSTREAM_CALLS"@, 8),
        ("MAX_GATEWAY_SKILL_BYTES"@, 1_048_576),
    ]
}

/// The values of number settings, or the first error among them.
pub open spec fn numbers_of(builder: BuilderView, names: Seq<(Seq<char>, usize)>) -> Result<
    Seq<usize>,
    ErrorView,
>
    decreases names.len(),
{
    if names.len() == 0 {
        Ok(Seq::empty())
    } else {
        match numbers_of(builder, names.drop_last()) {
            Err(e) => Err(e),
            Ok(values) => match number_setting(builder, names.last().0, names.last().1) {
                Err(e) => Err(e),
                Ok(n) => Ok(values.push(n)),
            },
        }
    }
}

/// A number setting that must not be zero.
pub open spec fn positive_setting(builder: BuilderView, name: &str, default: usize) -> Result<
    usize,
    ErrorView,
> {
    match number_setting(builder, name@, default) {
        Err(e) => Err(e),
        Ok(n) => if n == 0 {
            Err(
                ErrorView {
                    code: "CONFIG_ERROR"@,
                    message: name@ + " must be greater than zero"@,
                },
            )
        } else {
            Ok(n)
        },
    }
}

pub open spec fn megabytes_fit(n: usize) -> bool {
    n * 1_048_576 <= u64::MAX
}

/// The size of a log file, in MiB, is a size in bytes.
pub open spec fn log_size_fits(builder: BuilderView) -> bool {
    match number_setting(builder, "LOG_MAX_FILE_SIZE_MB"@, 100) {
        Ok(n) => megabytes_fit(n),
        Err(_) => true,
    }
}

/// What is read of the settings before the numbers.
pub struct EarlyView {
    pub auth_mode: AuthMode,
    pub auth_token: Seq<char>,
    pub bind: BindView,
    pub unix_socket_mode: u32,
    pub processes: usize,
    pub fallbacks: Seq<Seq<char>>,
    pub upstreams: Seq<(String, UpstreamSpec)>,
    pub queue_capacity: usize,
    pub queue_max_bytes: usize,
}

pub open spec fn host_address(host: HostFacts) -> Option<Seq<char>> {
    opt_view(host.socket_address)
}

pub open spec fn early_settings(builder: BuilderView, host: HostFacts) -> Result<
    EarlyView,
    ErrorView,
> {
    let cpu = cpu_default(host.parallelism);
    let few = if cpu < 8 {
        cpu
    } else {
        8
    };
    let fallbacks = comma_list(setting_or(builder, "MCP_PROJECT_DOC_FALLBACKS", ""));
    match auth_mode_of(setting_or(builder, "MCP_AUTH_MODE", "path")) {
        None => Err(config_error("MCP_AUTH_MODE must be one of path, bearer, or either")),
        Some(auth_mode) => match token_of(builder, host) {
            Err(e) => Err(e),
            Ok(auth_token) => if token_refusal(auth_token, auth_mode) is Some {
                Err(token_refusal(auth_token, auth_mode)->0)
            } else {
                match bind_of(setting_or(builder, "MCP_BIND", "0.0.0.0:3000"), host_address(host)) {
                    None => Err(config_error("MCP_BIND must be a valid socket address")),
                    Some(bind) => match socket_mode(
                        setting_or(builder, "MCP_UNIX_SOCKET_MODE", "0777"),
                    ) {
                        None => Err(
                            config_error(
                                "MCP_UNIX_SOCKET_MODE must be an octal mode between 0000 and 0777",
                            ),
                        ),
                        Some(mode) => match number_setting(
                            builder,
                            "MAX_CONCURRENT_PROCESSES"@,
                            few,
                        ) {
                            Err(e) => Err(e),
                            Ok(processes) => if !fallbacks_accepted(fallbacks) {
                                Err(
                                    config_error(
                                        "MCP_PROJECT_DOC_FALLBACKS must contain at most 16 simple filenames",
                                    ),
                                )
                            } else {
                                late_settings(
                                    builder,
                                    host,
                                    EarlyView {
                                        auth_mode,
                                        auth_token,
                                        bind,
                                        unix_socket_mode: mode as u32,
                                        processes,
                                        fallbacks,
                                        upstreams: Seq::empty(),
                                        queue_capacity: 0,
                                        queue_max_bytes: 0,
                                    },
                                )
                            },
                        },
                    },
                }
            },
        },
    }
}

/// Upstream servers and the size of the log queue.
pub open spec fn late_settings(builder: BuilderView, host: HostFacts, early: EarlyView) -> Result<
    EarlyView,
    ErrorView,
> {
    let upstreams = if upstream_path(builder) is Some {
        match host.upstreams {
            Ok(servers) => Ok(servers@),
            Err(e) => Err(e@),
        }
    } else {
        Ok(Seq::empty())
    };
    match upstreams {
        Err(e) => Err(e),
        Ok(upstreams) => match positive_setting(builder, "LOG_QUEUE_CAPACITY", 4096) {
            Err(e) => Err(e),
            Ok(queue_capacity) => match positive_setting(
                builder,
                "LOG_QUEUE_MAX_BYTES",
                67_108_864,
            ) {
                Err(e) => Err(e),
                Ok(queue_max_bytes) => Ok(
                    EarlyView { upstreams, queue_capacity, queue_max_bytes, ..early },
                ),
            },
        },
    }
}

/// The configuration that was read, before it is checked as a whole.
pub open spec fn assembled(
    builder: BuilderView,
    host: HostFacts,
    early: EarlyView,
    a: Seq<usize>,
    allow: bool,
    b: Seq<usize>,
) -> ConfigView {
    let workspace_root = setting_or(builder, "WORKSPACE_ROOT", "/workspace");
    ConfigView {
        config_source: "builtins+environment+cli"@,
        bind: early.bind,
        unix_socket_mode: early.unix_socket_mode,
        auth_token: early.auth_token,
        auth_mode: early.auth_mode,
        workspace_root,
        limits: Limits {
            request_body_bytes: a[5],
            input_string_bytes: a[6],
            write_bytes: a[7],
            patch_bytes: a[8],
            multi_path_count: a[9],
            results: a[10],
            traversed_entries: a[11],
            process_output_bytes: a[12],
            max_concurrent_tools: a[13],
            max_concurrent_cpu: a[14],
            max_concurrent_processes: early.processes,
            max_concurrent_searches: a[15],
            max_concurrent_patches: a[16],
            per_project_tools: a[17],
            per_project_processes: a[18],
            overload_wait_ms: a[19] as u64,
        },
        output: OutputLimits {
            file_bytes: a[20],
            multi_file_bytes: a[21],
            results: a[22],
            search_bytes: a[23],
        },
        logs: LogView {
            root: match setting(builder, "LOG_ROOT"@) {
                Some(root) if root.len() > 0 => root,
                _ => joined_path(workspace_root, ".metadata/logs"@, host.separator),
            },
            queue_capacity: early.queue_capacity,
            queue_max_bytes: early.queue_max_bytes,
            console_param_bytes: a[0],
            console_result_bytes: a[1],
            file_event_bytes: a[2],
            max_file_bytes: (a[3] * 1_048_576) as u64,
            max_files: a[4],
        },
        max_sessions: a[24],
        session_idle_secs: a[25] as u64,
        status_interval_secs: a[26] as u64,
        exec_default_timeout_ms: a[27] as u64,
        exec_max_timeout_ms: a[28] as u64,
        sandbox_backend: setting_or(builder, "MCP_EXEC_SANDBOX", "auto"),
        allow_unsandboxed_exec: allow,
        allowed_hosts: comma_list(setting_or(builder, "MCP_ALLOWED_HOSTS", "")),
        max_interactive_processes: b[0],
        interactive_process_idle_secs: b[1] as u64,
        container_socket: setting(builder, "MCP_CONTAINER_SOCKET"@),
        container_config_root: setting(builder, "MCP_CONTAINER_CONFIG_ROOT"@),
        upstream_config: upstream_path(builder),
        upstreams: early.upstreams,
        upstream_call_timeout_ms: b[2] as u64,
        max_concurrent_upstream_calls: b[3],
        max_gateway_skill_bytes: b[4],
        project_doc_fallbacks: early.fallbacks,
    }
}

/// The configuration that settings stand for, or the first thing that is wrong
/// with them.
pub open spec fn built(builder: BuilderView, host: HostFacts) -> Result<ConfigView, ErrorView> {
    match early_settings(builder, host) {
        Err(e) => Err(e),
        Ok(early) => match numbers_of(
            builder,
            first_numbers(cpu_default(host.parallelism), early.processes),
        ) {
            Err(e) => Err(e),
            Ok(a) => match truth_setting(builder, "MCP_ALLOW_UNSANDBOXED_EXEC"@, true) {
                Err(e) => Err(e),
                Ok(allow) => match numbers_of(builder, last_numbers()) {
                    Err(e) => Err(e),
                    Ok(b) => {
                        let config = assembled(builder, host, early, a, allow, b);
                        match config_refusal(config) {
                            Some(e) => Err(e),
                            None => Ok(config),
                        }
                    },
                },
            },
        },
    }
}

/// Settings that were accepted have a token that is strong enough and a known
/// sandbox; no limit is zero, and no part may be larger than the whole it is part
/// of.
pub proof fn built_settings_are_sound(builder: BuilderView, host: HostFacts)
    requires
        built(builder, host) is Ok,
    ensures
        ({
            let config = built(builder, host)->Ok_0;
            let limits = config.limits;
            let output = config.output;
            &&& config_refusal(config) is None
            &&& token_refusal(config.auth_token, config.auth_mode) is None
            &&& config.unix_socket_mode <= 0o777
            &&& config.logs.queue_capacity > 0
            &&& config.logs.queue_max_bytes > 0
            &&& 0 < limits.input_string_bytes <= limits.request_body_bytes
            &&& 0 < limits.write_bytes <= limits.request_body_bytes
            &&& 0 < limits.patch_bytes <= limits.request_body_bytes
            &&& 0 < limits.per_project_processes <= limits.max_concurrent_processes
            &&& 0 < output.file_bytes <= limits.write_bytes
            &&& 0 < output.multi_file_bytes <= limits.write_bytes
            &&& 0 < output.results <= limits.results
            &&& 0 < output.search_bytes <= limits.process_output_bytes
            &&& config.exec_default_timeout_ms <= config.exec_max_timeout_ms
        }),
{
    let config = built(builder, host)->Ok_0;
    let mode = setting_or(builder, "MCP_UNIX_SOCKET_MODE", "0777");
    lemma_number_range(mode, 8, 0o777);
    lemma_number_range(mode.skip(2), 8, 0o777);
    reveal_with_fuel(zero_limit, 16);
    assert(zero_limit(positive_limits(config.limits), 0) is None);
}

pub open spec fn config_answer(result: Result<Config, AppError>) -> Result<ConfigView, ErrorView> {
    match result {
        Ok(config) => Ok(config@),
        Err(e) => Err(e@),
    }
}

pub open spec fn names_view(names: Seq<(&'static str, usize)>) -> Seq<(Seq<char>, usize)> {
    names.map_values(|entry: (&'static str, usize)| (entry.0@, entry.1))
}

fn parse_auth_mode(name: &str) -> (mode: Option<AuthMode>)
    ensures
        mode == auth_mode_of(name@),
{
    if name.eq("path") {
        Some(AuthMode::Path)
    } else if name.eq("bearer") {
        Some(AuthMode::Bearer)
    } else if name.eq("either") {
        Some(AuthMode::Either)
    } else {
        None
    }
}

fn check_fallbacks(names: &Vec<String>) -> (ok: bool)
    ensures
        ok == fallbacks_accepted(texts(names@)),
{
    if names.len() > 16 {
        return false;
    }
    let ghost all = texts(names@);
    let mut i: usize = 0;
    while i < names.len()
        invariant
            i <= names@.len() <= 16,
            all == texts(names@),
            forall|j: int| 0 <= j < i ==> simple_file_name(#[trigger] all[j]),
        decreases names.len() - i,
    {
        let name = names[i].as_str();
        proof {
            assert(all[i as int] == name@);
        }
        if byte_len(name) > 128 || name.eq(".") || name.eq("..") || has_char(name, '/') || has_char(
            name,
            '\\',
        ) || has_char(name, '\0') {
            return false;
        }
        i += 1;
    }
    true
}

pub open spec fn numbers_answer(result: Result<Vec<usize>, AppError>) -> Result<
    Seq<usize>,
    ErrorView,
> {
    match result {
        Ok(values) => Ok(values@),
        Err(e) => Err(e@),
    }
}

proof fn lemma_numbers_prefix(builder: BuilderView, names: Seq<(Seq<char>, usize)>, n: int)
    requires
        0 <= n <= names.len(),
        numbers_of(builder, names.take(n)) is Err,
    ensures
        numbers_of(builder, names) == numbers_of(builder, names.take(n)),
    decreases names.len() - n,
{
    if n == names.len() {
        assert(names.take(n) =~= names);
    } else {
        assert(names.take(n + 1).drop_last() =~= names.take(n));
        lemma_numbers_prefix(builder, names, n + 1);
    }
}

proof fn lemma_numbers_len(builder: BuilderView, names: Seq<(Seq<char>, usize)>)
    ensures
        match numbers_of(builder, names) {
            Ok(values) => values.len() == names.len() && forall|i: int|
                0 <= i < names.len() ==> number_setting(builder, names[i].0, names[i].1) == Ok::<
                    usize,
                    ErrorView,
                >(#[trigger] values[i]),
            Err(_) => true,
        },
    decreases names.len(),
{
    if names.len() > 0 {
        lemma_numbers_len(builder, names.drop_last());
    }
}

fn refuse(message: &str) -> (e: AppError)
    ensures
        e@ == config_error(message),
{
    AppError::config(message.to_owned())
}

/// What is read of the settings before the numbers.
struct Early {
    auth_mode: AuthMode,
    auth_token: String,
    bind: BindAddress,
    unix_socket_mode: u32,
    processes: usize,
    fallbacks: Vec<String>,
    upstreams: Vec<(String, UpstreamSpec)>,
    queue_capacity: usize,
    queue_max_bytes: usize,
}

impl View for Early {
    type V = EarlyView;

    closed spec fn view(&self) -> EarlyView {
        EarlyView {
            auth_mode: self.auth_mode,
            auth_token: self.auth_token@,
            bind: self.bind@,
            unix_socket_mode: self.unix_socket_mode,
            processes: self.processes,
            fallbacks: texts(self.fallbacks@),
            upstreams: self.upstreams@,
            queue_capacity: self.queue_capacity,
            queue_max_bytes: self.queue_max_bytes,
        }
    }
}

impl ConfigBuilder {
    fn read_numbers(&self, names: &Vec<(&'static str, usize)>) -> (result: Result<
        Vec<usize>,
        AppError,
    >)
        ensures
            numbers_answer(result) == numbers_of(self@, names_view(names@)),
    {
        let ghost all = names_view(names@);
        let mut values: Vec<usize> = Vec::new();
        let mut i: usize = 0;
        while i < names.len()
            invariant
                i <= names@.len(),
                all == names_view(names@),
                numbers_of(self@, all.take(i as int)) == Ok::<Seq<usize>, ErrorView>(values@),
            decreases names.len() - i,
        {
            proof {
                assert(all.take(i + 1).drop_last() =~= all.take(i as int));
                assert(all.take(i + 1).last() == (names@[i as int].0@, names@[i as int].1));
            }
            match self.usize_value(names[i].0, names[i].1) {
                Ok(n) => {
                    values.push(n);
                },
                Err(e) => {
                    proof {
                        lemma_numbers_prefix(self@, all, i + 1);
                    }
                    return Err(e);
                },
            }
            i += 1;
        }
        proof {
            assert(all.take(i as int) =~= all);
        }
        Ok(values)
    }

    fn positive_value(&self, name: &str, default: usize) -> (result: Result<usize, AppError>)
        ensures
            number_answer(result) == positive_setting(self@, name, default),
    {
        match self.usize_value(name, default) {
            Ok(n) => if n == 0 {
                Err(AppError::config(crate::text::join2(name, " must be greater than zero")))
            } else {
                Ok(n)
            },
            Err(e) => Err(e),
        }
    }

    /// Whether the token kept in the workspace is asked for: the settings name
    /// none, and nothing is wrong with them before that.
    pub fn needs_stored_token(&self) -> (r: bool)
        ensures
            r == (auth_mode_of(setting_or(self@, "MCP_AUTH_MODE", "path")) is Some
                && configured_token(self@) is None),
    {
        if parse_auth_mode(self.value("MCP_AUTH_MODE", "path").as_str()).is_none() {
            return false;
        }
        match self.optional_value("MCP_AUTH_TOKEN") {
            Some(token) => token.as_str().is_empty(),
            None => true,
        }
    }

    /// The value that says where the server listens.
    pub fn bind_value(&self) -> (value: String)
        ensures
            value@ == setting_or(self@, "MCP_BIND", "0.0.0.0:3000"),
    {
        self.value("MCP_BIND", "0.0.0.0:3000")
    }

    pub fn workspace_value(&self) -> (value: String)
        ensures
            value@ == setting_or(self@, "WORKSPACE_ROOT", "/workspace"),
    {
        self.value("WORKSPACE_ROOT", "/workspace")
    }

    /// The file of upstream servers that the settings name.
    pub fn upstream_path(&self) -> (path: Option<String>)
        ensures
            opt_view(path) == upstream_path(self@),
    {
        match self.optional_value("MCP_UPSTREAM_CONFIG") {
            Some(path) => if is_blank(path.as_str()) {
                None
            } else {
                Some(path)
            },
            None => None,
        }
    }

    /// Whether the size of a log file, given in MiB, is a size in bytes.
    pub fn log_size_fits(&self) -> (r: bool)
        ensures
            r == log_size_fits(self@),
    {
        match self.usize_value("LOG_MAX_FILE_SIZE_MB", 100) {
            Ok(n) => (n as u128) * 1_048_576 <= u64::MAX as u128,
            Err(_) => true,
        }
    }

    fn read_token(&self, stored: Result<String, AppError>, Ghost(host): Ghost<HostFacts>) -> (result:
        Result<String, AppError>)
        requires
            host.stored_token == stored,
        ensures
            match result {
                Ok(token) => token_of(self@, host) == Ok::<Seq<char>, ErrorView>(token@),
                Err(e) => token_of(self@, host) == Err::<Seq<char>, ErrorView>(e@),
            },
    {
        match self.optional_value("MCP_AUTH_TOKEN") {
            Some(token) => if token.as_str().is_empty() {
                stored
            } else {
                Ok(token)
            },
            None => stored,
        }
    }

    fn read_early(&self, host: HostFacts) -> (result: Result<Early, AppError>)
        ensures
            match result {
                Ok(early) => early_settings(self@, host) == Ok::<EarlyView, ErrorView>(early@),
                Err(e) => early_settings(self@, host) == Err::<EarlyView, ErrorView>(e@),
            },
    {
        let ghost facts = host;
        let auth_mode = match parse_auth_mode(self.value("MCP_AUTH_MODE", "path").as_str()) {
            Some(mode) => mode,
            None => {
                return Err(refuse("MCP_AUTH_MODE must be one of path, bearer, or either"));
            },
        };
        let auth_token = match self.read_token(host.stored_token, Ghost(facts)) {
            Ok(token) => token,
            Err(e) => {
                return Err(e);
            },
        };
        if byte_len(auth_token.as_str()) < 16 || byte_len(auth_token.as_str()) > 512 {
            return Err(refuse("MCP_AUTH_TOKEN must contain between 16 and 512 bytes"));
        }
        let in_path = match auth_mode {
            AuthMode::Bearer => false,
            _ => true,
        };
        if in_path && (has_char(auth_token.as_str(), '/') || has_char(auth_token.as_str(), '\\')) {
            return Err(refuse("MCP_AUTH_TOKEN cannot contain path separators"));
        }
        let bind_value = self.bind_value();
        let bind = if has_char(bind_value.as_str(), '/') {
            BindAddress::Unix(bind_value)
        } else {
            match host.socket_address {
                Some(address) => BindAddress::Tcp(address),
                None => {
                    return Err(refuse("MCP_BIND must be a valid socket address"));
                },
            }
        };
        let unix_socket_mode = match parse_unix_socket_mode(
            self.value("MCP_UNIX_SOCKET_MODE", "0777").as_str(),
        ) {
            Ok(mode) => mode,
            Err(e) => {
                return Err(e);
            },
        };
        let cpu = cpu_count(host.parallelism);
        let few: usize = if cpu < 8 {
            cpu
        } else {
            8
        };
        let processes = match self.usize_value("MAX_CONCURRENT_PROCESSES", few) {
            Ok(n) => n,
            Err(e) => {
                return Err(e);
            },
        };
        let fallbacks = split_list(self.value("MCP_PROJECT_DOC_FALLBACKS", "").as_str());
        if !check_fallbacks(&fallbacks) {
            return Err(
                refuse(
                    "MCP_PROJECT_DOC_FALLBACKS must contain at most 16 simple filenames",
                ),
            );
        }
        let upstreams = if self.upstream_path().is_some() {
            match host.upstreams {
                Ok(servers) => servers,
                Err(e) => {
                    return Err(e);
                },
            }
        } else {
            Vec::new()
        };
        let queue_capacity = match self.positive_value("LOG_QUEUE_CAPACITY", 4096) {
            Ok(n) => n,
            Err(e) => {
                return Err(e);
            },
        };
        let queue_max_bytes = match self.positive_value("LOG_QUEUE_MAX_BYTES", 67_108_864) {
            Ok(n) => n,
            Err(e) => {
                return Err(e);
            },
        };
        Ok(
            Early {
                auth_mode,
                auth_token,
                bind,
                unix_socket_mode,
                processes,
                fallbacks,
                upstreams,
                queue_capacity,
                queue_max_bytes,
            },
        )
    }

    /// The configuration that the settings stand for.
    pub fn build(self, host: HostFacts) -> (result: Result<Config, AppError>)
        requires
            early_settings(self@, host) is Ok ==> log_size_fits(self@),
        ensures
            config_answer(result) == built(self@, host),
    {
        let ghost facts = host;
        let separator = host.separator;
        let cpu = cpu_count(host.parallelism);
        let early = match self.read_early(host) {
            Ok(early) => early,
            Err(e) => {
                return Err(e);
            },
        };
        let names = first_names(cpu, early.processes);
        let a = match self.read_numbers(&names) {
            Ok(values) => values,
            Err(e) => {
                return Err(e);
            },
        };
        proof {
            lemma_numbers_len(self@, first_numbers(cpu, early.processes));
        }
        let allow = match self.bool_value("MCP_ALLOW_UNSANDBOXED_EXEC", true) {
            Ok(b) => b,
            Err(e) => {
                return Err(e);
            },
        };
        let names = last_names();
        let b = match self.read_numbers(&names) {
            Ok(values) => values,
            Err(e) => {
                return Err(e);
            },
        };
        proof {
            lemma_numbers_len(self@, last_numbers());
            assert(first_numbers(cpu, early.processes)[3] == ("LOG_MAX_FILE_SIZE_MB"@, 100usize));
            assert(number_setting(self@, "LOG_MAX_FILE_SIZE_MB"@, 100) == Ok::<usize, ErrorView>(
                a@[3],
            ));
        }
        let workspace_root = self.workspace_value();
        let root = match self.optional_value("LOG_ROOT") {
            Some(root) => if root.as_str().is_empty() {
                join_path(workspace_root.as_str(), ".metadata/logs", separator)
            } else {
                root
            },
            None => join_path(workspace_root.as_str(), ".metadata/logs", separator),
        };
        let config = Config {
            config_source: "builtins+environment+cli".to_owned(),
            bind: early.bind,
            unix_socket_mode: early.unix_socket_mode,
            auth_token: early.auth_token,
            auth_mode: early.auth_mode,
            workspace_root,
            limits: Limits {
                request_body_bytes: a[5],
                input_string_bytes: a[6],
                write_bytes: a[7],
                patch_bytes: a[8],
                multi_path_count: a[9],
                results: a[10],
                traversed_entries: a[11],
                process_output_bytes: a[12],
                max_concurrent_tools: a[13],
                max_concurrent_cpu: a[14],
                max_concurrent_processes: early.processes,
                max_concurrent_searches: a[15],
                max_concurrent_patches: a[16],
                per_project_tools: a[17],
                per_project_processes: a[18],
                overload_wait_ms: a[19] as u64,
            },
            output: OutputLimits {
                file_bytes: a[20],
                multi_file_bytes: a[21],
                results: a[22],
                search_bytes: a[23],
            },
            logs: LogConfig {
                root,
                queue_capacity: early.queue_capacity,
                queue_max_bytes: early.queue_max_bytes,
                console_param_bytes: a[0],
                console_result_bytes: a[1],
                file_event_bytes: a[2],
                max_file_bytes: a[3] as u64 * 1_048_576,
                max_files: a[4],
            },
            max_sessions: a[24],
            session_idle_secs: a[25] as u64,
            status_interval_secs: a[26] as u64,
            exec_default_timeout_ms: a[27] as u64,
            exec_max_timeout_ms: a[28] as u64,
            sandbox_backend: self.value("MCP_EXEC_SANDBOX", "auto"),
            allow_unsandboxed_exec: allow,
            allowed_hosts: split_list(self.value("MCP_ALLOWED_HOSTS", "").as_str()),
            max_interactive_processes: b[0],
            interactive_process_idle_secs: b[1] as u64,
            container_socket: self.optional_value("MCP_CONTAINER_SOCKET"),
            container_config_root: self.optional_value("MCP_CONTAINER_CONFIG_ROOT"),
            upstream_config: self.upstream_path(),
            upstreams: early.upstreams,
            upstream_call_timeout_ms: b[2] as u64,
            max_concurrent_upstream_calls: b[3],
            max_gateway_skill_bytes: b[4],
            project_doc_fallbacks: early.fallbacks,
        };
        match config.validate() {
            Ok(_) => Ok(config),
            Err(e) => Err(e),
        }
    }
}

fn cpu_count(parallelism: Option<usize>) -> (n: usize)
    ensures
        n == cpu_default(parallelism),
{
    match parallelism {
        Some(n) => if n > 2 {
            n
        } else {
            2
        },
        None => 2,
    }
}

fn first_names(cpu: usize, processes: usize) -> (names: Vec<(&'static str, usize)>)
    ensures
        names_view(names@) == first_numbers(cpu, processes),
{
    let mut names: Vec<(&'static str, usize)> = Vec::new();
    let per_project: usize = if processes > 2 {
        processes - 1
    } else {
        1
    };
    names.push(("CONSOLE_PARAM_EXCERPT_BYTES", 4096));
    names.push(("CONSOLE_RESULT_EXCERPT_BYTES", 8192));
    names.push(("LOG_MAX_EVENT_BYTES", 1_048_576));
    names.push(("LOG_MAX_FILE_SIZE_MB", 100));
    names.push(("LOG_MAX_FILES", 10));
    names.push(("MAX_REQUEST_BODY_BYTES", 16_777_216));
    names.push(("MAX_INPUT_STRING_BYTES", 1_048_576));
    names.push(("MAX_WRITE_BYTES", 8_388_608));
    names.push(("MAX_PATCH_BYTES", 4_194_304));
    names.push(("MAX_MULTI_PATHS", 64));
    names.push(("MAX_RESULTS", 1000));
    names.push(("MAX_TRAVERSED_ENTRIES", 100_000));
    names.push(("MAX_PROCESS_OUTPUT_BYTES", 4_194_304));
    names.push(("MAX_CONCURRENT_TOOL_CALLS", 64));
    names.push(("MAX_CONCURRENT_CPU_TASKS", cpu));
    names.push(("MAX_CONCURRENT_SEARCHES", cpu));
    names.push(("MAX_CONCURRENT_PATCHES", 4));
    names.push(("MAX_PROJECT_TOOL_CALLS", 8));
    names.push(("MAX_PROJECT_PROCESSES", per_project));
    names.push(("OVERLOAD_WAIT_MS", 500));
    names.push(("OUTPUT_FILE_BYTES", 262_144));
    names.push(("OUTPUT_MULTI_FILE_BYTES", 1_048_576));
    names.push(("OUTPUT_MAX_RESULTS", 500));
    names.push(("OUTPUT_SEARCH_BYTES", 524_288));
    names.push(("MAX_LEGACY_MCP_SESSIONS", 1024));
    names.push(("MCP_SESSION_IDLE_SECS", 3600));
    names.push(("STATUS_INTERVAL_SECS", 0));
    names.push(("EXEC_DEFAULT_TIMEOUT_MS", 120_000));
    names.push(("EXEC_MAX_TIMEOUT_MS", 3_600_000));
    proof {
        assert(names_view(names@) =~= first_numbers(cpu, processes));
    }
    names
}

fn last_names() -> (names: Vec<(&'static str, usize)>)
    ensures
        names_view(names@) == last_numbers(),
{
    let mut names: Vec<(&'static str, usize)> = Vec::new();
    names.push(("MAX_INTERACTIVE_PROCESSES", 32));
    names.push(("INTERACTIVE_PROCESS_IDLE_SECS", 900));
    names.push(("UPSTREAM_CALL_TIMEOUT_MS", 120_000));
    names.push(("MAX_CONCURRENT_UPSTREAM_CALLS", 8));
    names.push(("MAX_GATEWAY_SKILL_BYTES", 1_048_576));
    proof {
        assert(names_view(names@) =~= last_numbers());
    }
    names
}

}
