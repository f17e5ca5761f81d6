//! Settings: where they come from, what they mean, and which are refused.
use vstd::prelude::*;

use crate::error::{error_view, AppError, ErrorView};
use crate::search::{split, split_text, starts_with, texts};
use crate::text::{blank, join2, opt_view, parse_unsigned, to_chars, trim, trimmed, unsigned_number};

pub mod building;
pub mod laws;
pub mod summary;
pub mod upstream;
pub mod validate;

verus! {

pub const DEFAULT_RUST_LOG_FILTER: &'static str = "warn";

/// Hard limits on requests and work.
#[derive(Clone, Copy, Debug, PartialEq, Eq, Structural)]
pub struct Limits {
    pub request_body_bytes: usize,
    pub input_string_bytes: usize,
    pub write_bytes: usize,
    pub patch_bytes: usize,
    pub multi_path_count: usize,
    pub results: usize,
    pub traversed_entries: usize,
    pub process_output_bytes: usize,
    pub max_concurrent_tools: usize,
    pub max_concurrent_cpu: usize,
    pub max_concurrent_processes: usize,
    pub max_concurrent_searches: usize,
    pub max_concurrent_patches: usize,
    pub per_project_tools: usize,
    pub per_project_processes: usize,
    pub overload_wait_ms: u64,
}

#[derive(Clone, Copy, Debug, PartialEq, Eq, Structural)]
pub struct OutputLimits {
    /// Bytes that one read returns when the caller names no limit.
    pub file_bytes: usize,
    /// Bytes that a read of several files returns in all.
    pub multi_file_bytes: usize,
    /// Page size of listings and searches. The hard limit on results still
    /// applies.
    pub results: usize,
    /// Bytes of text that a search keeps in all.
    pub search_bytes: usize,
}

/// How the audit trail is written.
#[derive(Clone, Debug)]
pub struct LogConfig {
    pub root: String,
    pub queue_capacity: usize,
    pub queue_max_bytes: usize,
    pub console_param_bytes: usize,
    pub console_result_bytes: usize,
    pub file_event_bytes: usize,
    pub max_file_bytes: u64,
    pub max_files: usize,
}

/// Where the server listens: a socket address, or the path of a Unix socket.
#[derive(Clone, Debug)]
pub enum BindAddress {
    Tcp(String),
    Unix(String),
}

pub enum BindView {
    Tcp(Seq<char>),
    Unix(Seq<char>),
}

impl View for BindAddress {
    type V = BindView;

    open spec fn view(&self) -> BindView {
        match *self {
            BindAddress::Tcp(address) => BindView::Tcp(address@),
            BindAddress::Unix(path) => BindView::Unix(path@),
        }
    }
}

impl BindAddress {
    pub fn to_text(&self) -> (text: String)
        ensures
            text@ == bind_text(self@),
    {
        match self {
            BindAddress::Tcp(address) => address.clone(),
            BindAddress::Unix(path) => path.clone(),
        }
    }
}

pub open spec fn bind_text(bind: BindView) -> Seq<char> {
    match bind {
        BindView::Tcp(address) => address,
        BindView::Unix(path) => path,
    }
}

/// Where a request carries the token.
#[derive(Clone, Copy, Debug, PartialEq, Eq, Structural)]
pub enum AuthMode {
    Path,
    Bearer,
    Either,
}

pub open spec fn auth_mode_name(mode: AuthMode) -> Seq<char> {
    match mode {
        AuthMode::Path => "path"@,
        AuthMode::Bearer => "bearer"@,
        AuthMode::Either => "either"@,
    }
}

impl AuthMode {
    pub fn as_str(self) -> (name: &'static str)
        ensures
            name@ == auth_mode_name(self),
    {
        match self {
            AuthMode::Path => "path",
            AuthMode::Bearer => "bearer",
            AuthMode::Either => "either",
        }
    }
}

/// How the tools of an upstream server are offered.
#[derive(Clone, Copy, Debug, PartialEq, Eq, Structural)]
pub enum UpstreamMode {
    Direct,
    Gateway,
}

/// Upstream tools are not offered one by one unless that is asked for.
pub fn default_upstream_mode() -> (mode: UpstreamMode)
    ensures
        mode == UpstreamMode::Gateway,
{
    UpstreamMode::Gateway
}

/// An upstream server. Secrets are named by environment variables and never
/// stand here themselves.
#[derive(Clone, Debug)]
pub struct UpstreamSpec {
    pub command: Option<String>,
    pub args: Vec<String>,
    pub env: Vec<(String, String)>,
    pub disabled: bool,
    pub transport: Option<String>,
    pub url: Option<String>,
    pub bearer_token_env_var: Option<String>,
    pub env_http_headers: Vec<(String, String)>,
    pub tools: Option<Vec<String>>,
    pub mode: UpstreamMode,
}

/// All settings.
#[derive(Clone, Debug)]
pub struct Config {
    pub config_source: String,
    pub bind: BindAddress,
    pub unix_socket_mode: u32,
    pub auth_token: String,
    pub auth_mode: AuthMode,
    pub workspace_root: String,
    pub limits: Limits,
    pub output: OutputLimits,
    pub logs: LogConfig,
    pub max_sessions: usize,
    pub session_idle_secs: u64,
    pub status_interval_secs: u64,
    pub exec_default_timeout_ms: u64,
    pub exec_max_timeout_ms: u64,
    pub sandbox_backend: String,
    pub allow_unsandboxed_exec: bool,
    pub allowed_hosts: Vec<String>,
    pub max_interactive_processes: usize,
    pub interactive_process_idle_secs: u64,
    pub container_socket: Option<String>,
    pub container_config_root: Option<String>,
    pub upstream_config: Option<String>,
    pub upstreams: Vec<(String, UpstreamSpec)>,
    pub upstream_call_timeout_ms: u64,
    pub max_concurrent_upstream_calls: usize,
    pub max_gateway_skill_bytes: usize,
    /// Names of instruction files that are looked for after AGENTS.md.
    pub project_doc_fallbacks: Vec<String>,
}

pub struct LogView {
    pub root: Seq<char>,
    pub queue_capacity: usize,
    pub queue_max_bytes: usize,
    pub console_param_bytes: usize,
    pub console_result_bytes: usize,
    pub file_event_bytes: usize,
    pub max_file_bytes: u64,
    pub max_files: usize,
}

impl View for LogConfig {
    type V = LogView;

    open spec fn view(&self) -> LogView {
        LogView {
            root: self.root@,
            queue_capacity: self.queue_capacity,
            queue_max_bytes: self.queue_max_bytes,
            console_param_bytes: self.console_param_bytes,
            console_result_bytes: self.console_result_bytes,
            file_event_bytes: self.file_event_bytes,
            max_file_bytes: self.max_file_bytes,
            max_files: self.max_files,
        }
    }
}

pub struct ConfigView {
    pub config_source: Seq<char>,
    pub bind: BindView,
    pub unix_socket_mode: u32,
    pub auth_token: Seq<char>,
    pub auth_mode: AuthMode,
    pub workspace_root: Seq<char>,
    pub limits: Limits,
    pub output: OutputLimits,
    pub logs: LogView,
    pub max_sessions: usize,
    pub session_idle_secs: u64,
    pub status_interval_secs: u64,
    pub exec_default_timeout_ms: u64,
    pub exec_max_timeout_ms: u64,
    pub sandbox_backend: Seq<char>,
    pub allow_unsandboxed_exec: bool,
    pub allowed_hosts: Seq<Seq<char>>,
    pub max_interactive_processes: usize,
    pub interactive_process_idle_secs: u64,
    pub container_socket: Option<Seq<char>>,
    pub container_config_root: Option<Seq<char>>,
    pub upstream_config: Option<Seq<char>>,
    pub upstreams: Seq<(String, UpstreamSpec)>,
    pub upstream_call_timeout_ms: u64,
    pub max_concurrent_upstream_calls: usize,
    pub max_gateway_skill_bytes: usize,
    pub project_doc_fallbacks: Seq<Seq<char>>,
}

impl View for Config {
    type V = ConfigView;

    open spec fn view(&self) -> ConfigView {
        ConfigView {
            config_source: self.config_source@,
            bind: self.bind@,
            unix_socket_mode: self.unix_socket_mode,
            auth_token: self.auth_token@,
            auth_mode: self.auth_mode,
            workspace_root: self.workspace_root@,
            limits: self.limits,
            output: self.output,
            logs: self.logs@,
            max_sessions: self.max_sessions,
            session_idle_secs: self.session_idle_secs,
            status_interval_secs: self.status_interval_secs,
            exec_default_timeout_ms: self.exec_default_timeout_ms,
            exec_max_timeout_ms: self.exec_max_timeout_ms,
            sandbox_backend: self.sandbox_backend@,
            allow_unsandboxed_exec: self.allow_unsandboxed_exec,
            allowed_hosts: texts(self.allowed_hosts@),
            max_interactive_processes: self.max_interactive_processes,
            interactive_process_idle_secs: self.interactive_process_idle_secs,
            container_socket: opt_view(self.container_socket),
            container_config_root: opt_view(self.container_config_root),
            upstream_config: opt_view(self.upstream_config),
            upstreams: self.upstreams@,
            upstream_call_timeout_ms: self.upstream_call_timeout_ms,
            max_concurrent_upstream_calls: self.max_concurrent_upstream_calls,
            max_gateway_skill_bytes: self.max_gateway_skill_bytes,
            project_doc_fallbacks: texts(self.project_doc_fallbacks@),
        }
    }
}

pub open spec fn config_error(message: &str) -> ErrorView {
    error_view("CONFIG_ERROR", message)
}

/// The settings that a configuration is built from: those of the environment,
/// and those that override them.
#[derive(Clone, Debug)]
pub struct ConfigBuilder {
    environment: Vec<(String, String)>,
    overrides: Vec<(String, String)>,
}

pub struct BuilderView {
    pub environment: Seq<(Seq<char>, Seq<char>)>,
    pub overrides: Seq<(Seq<char>, Seq<char>)>,
}

pub open spec fn pairs(list: Seq<(String, String)>) -> Seq<(Seq<char>, Seq<char>)> {
    list.map_values(|entry: (String, String)| (entry.0@, entry.1@))
}

impl View for ConfigBuilder {
    type V = BuilderView;

    closed spec fn view(&self) -> BuilderView {
        BuilderView { environment: pairs(self.environment@), overrides: pairs(self.overrides@) }
    }
}

/// What a name stands for; the last entry counts.
pub open spec fn entry_of(list: Seq<(Seq<char>, Seq<char>)>, name: Seq<char>) -> Option<Seq<char>>
    decreases list.len(),
{
    if list.len() == 0 {
        None
    } else if list.last().0 == name {
        Some(list.last().1)
    } else {
        entry_of(list.drop_last(), name)
    }
}

/// A setting: an override, else what the environment says.
pub open spec fn setting(builder: BuilderView, name: Seq<char>) -> Option<Seq<char>> {
    match entry_of(builder.overrides, name) {
        Some(value) => Some(value),
        None => entry_of(builder.environment, name),
    }
}

pub open spec fn setting_or(builder: BuilderView, name: &str, default: &str) -> Seq<char> {
    match setting(builder, name@) {
        Some(value) => value,
        None => default@,
    }
}

/// A setting that is a whole number.
pub open spec fn number_setting(builder: BuilderView, name: Seq<char>, default: usize) -> Result<
    usize,
    ErrorView,
> {
    match setting(builder, name) {
        None => Ok(default),
        Some(text) => match unsigned_number(text, 10, usize::MAX as int) {
            Some(n) => Ok(n as usize),
            None => Err(
                ErrorView {
                    code: "CONFIG_ERROR"@,
                    message: name + " must be a positive integer"@,
                },
            ),
        },
    }
}

/// A setting that is true or false.
pub open spec fn truth_setting(builder: BuilderView, name: Seq<char>, default: bool) -> Result<
    bool,
    ErrorView,
> {
    match setting(builder, name) {
        None => Ok(default),
        Some(text) => if text == "true"@ {
            Ok(true)
        } else if text == "false"@ {
            Ok(false)
        } else {
            Err(ErrorView { code: "CONFIG_ERROR"@, message: name + " must be true or false"@ })
        },
    }
}

pub(crate) fn find_entry(list: &Vec<(String, String)>, name: &str) -> (found: Option<String>)
    ensures
        opt_view(found) == entry_of(pairs(list@), name@),
{
    let ghost all = pairs(list@);
    let mut i: usize = list.len();
    proof {
        assert(all.take(i as int) =~= all);
    }
    while i > 0
        invariant
            i <= list@.len(),
            all == pairs(list@),
            entry_of(all, name@) == entry_of(all.take(i as int), name@),
        decreases i,
    {
        if list[i - 1].0.as_str().eq(name) {
            return Some(list[i - 1].1.clone());
        }
        proof {
            assert(all.take(i as int).drop_last() =~= all.take(i - 1));
        }
        i -= 1;
    }
    None
}

pub open spec fn number_answer(result: Result<usize, AppError>) -> Result<usize, ErrorView> {
    match result {
        Ok(n) => Ok(n),
        Err(e) => Err(e@),
    }
}

pub open spec fn truth_answer(result: Result<bool, AppError>) -> Result<bool, ErrorView> {
    match result {
        Ok(b) => Ok(b),
        Err(e) => Err(e@),
    }
}

impl ConfigBuilder {
    pub fn from_map(environment: Vec<(String, String)>) -> (builder: ConfigBuilder)
        ensures
            builder@ == (BuilderView { environment: pairs(environment@), overrides: Seq::empty() }),
    {
        let builder = ConfigBuilder { environment, overrides: Vec::new() };
        proof {
            assert(builder@.overrides =~= Seq::empty());
        }
        builder
    }

    pub fn override_value(self, name: &str, value: &str) -> (builder: ConfigBuilder)
        ensures
            builder@ == (BuilderView {
                overrides: self@.overrides.push((name@, value@)),
                ..self@
            }),
    {
        let environment = self.environment;
        let mut overrides = self.overrides;
        let ghost before = pairs(overrides@);
        overrides.push((name.to_owned(), value.to_owned()));
        proof {
            assert(pairs(overrides@) =~= before.push((name@, value@)));
        }
        ConfigBuilder { environment, overrides }
    }

    pub fn optional_value(&self, name: &str) -> (found: Option<String>)
        ensures
            opt_view(found) == setting(self@, name@),
    {
        match find_entry(&self.overrides, name) {
            Some(value) => Some(value),
            None => find_entry(&self.environment, name),
        }
    }

    pub fn value(&self, name: &str, default: &str) -> (value: String)
        ensures
            value@ == setting_or(self@, name, default),
    {
        match self.optional_value(name) {
            Some(value) => value,
            None => default.to_owned(),
        }
    }

    pub fn usize_value(&self, name: &str, default: usize) -> (result: Result<usize, AppError>)
        ensures
            number_answer(result) == number_setting(self@, name@, default),
    {
        match self.optional_value(name) {
            None => Ok(default),
            Some(text) => match parse_unsigned(text.as_str(), 10, usize::MAX as u64) {
                Some(n) => Ok(n as usize),
                None => Err(AppError::config(join2(name, " must be a positive integer"))),
            },
        }
    }

    pub fn bool_value(&self, name: &str, default: bool) -> (result: Result<bool, AppError>)
        ensures
            truth_answer(result) == truth_setting(self@, name@, default),
    {
        match self.optional_value(name) {
            None => Ok(default),
            Some(text) => if text.as_str().eq("true") {
                Ok(true)
            } else if text.as_str().eq("false") {
                Ok(false)
            } else {
                Err(AppError::config(join2(name, " must be true or false")))
            },
        }
    }
}

/// An override counts, whatever the environment says; other settings stay.
pub proof fn override_wins(builder: BuilderView, name: Seq<char>, value: Seq<char>, other: Seq<char>)
    ensures
        setting(
            BuilderView { overrides: builder.overrides.push((name, value)), ..builder },
            name,
        ) == Some(value),
        other != name ==> setting(
            BuilderView { overrides: builder.overrides.push((name, value)), ..builder },
            other,
        ) == setting(builder, other),
{
    assert(builder.overrides.push((name, value)).drop_last() =~= builder.overrides);
}

/// The permissions of a Unix socket that a text stands for.
pub open spec fn socket_mode(value: Seq<char>) -> Option<int> {
    let digits = if starts_with(value, "0o"@) {
        value.skip(2)
    } else {
        value
    };
    unsigned_number(digits, 8, 0o777)
}

pub fn parse_unix_socket_mode(value: &str) -> (result: Result<u32, AppError>)
    ensures
        match result {
            Ok(mode) => socket_mode(value@) == Some(mode as int),
            Err(e) => socket_mode(value@) is None && e@ == config_error(
                "MCP_UNIX_SOCKET_MODE must be an octal mode between 0000 and 0777",
            ),
        },
{
    let chars = to_chars(value);
    proof {
        reveal_strlit("0o");
        assert(starts_with(value@, "0o"@) == (value@.len() >= 2 && value@[0] == '0' && value@[1]
            == 'o')) by {
            if value@.len() >= 2 {
                let start = value@.subrange(0, 2);
                assert(start[0] == value@[0] && start[1] == value@[1]);
                if value@[0] == '0' && value@[1] == 'o' {
                    assert(start =~= "0o"@);
                }
            }
        }
    }
    let digits = if chars.len() >= 2 && chars[0] == '0' && chars[1] == 'o' {
        proof {
            assert(chars@.subrange(2, chars@.len() as int) =~= value@.skip(2));
        }
        crate::text::from_chars(&chars, 2, chars.len())
    } else {
        value.to_owned()
    };
    match parse_unsigned(digits.as_str(), 8, 0o777) {
        Some(mode) => Ok(mode as u32),
        None => Err(
            AppError::config(
                "MCP_UNIX_SOCKET_MODE must be an octal mode between 0000 and 0777".to_owned(),
            ),
        ),
    }
}

/// The parts of a list between commas, trimmed; blank ones are left out.
pub open spec fn listed_names(parts: Seq<Seq<char>>) -> Seq<Seq<char>>
    decreases parts.len(),
{
    if parts.len() == 0 {
        Seq::empty()
    } else if trimmed(parts.last()).len() == 0 {
        listed_names(parts.drop_last())
    } else {
        listed_names(parts.drop_last()).push(trimmed(parts.last()))
    }
}

pub open spec fn comma_list(text: Seq<char>) -> Seq<Seq<char>> {
    listed_names(split(text, ','))
}

pub fn split_list(text: &str) -> (names: Vec<String>)
    ensures
        texts(names@) == comma_list(text@),
{
    let parts = split_text(text, ',');
    let ghost all = texts(parts@);
    let mut names: Vec<String> = Vec::new();
    let mut i: usize = 0;
    proof {
        assert(texts(names@) =~= Seq::empty());
    }
    while i < parts.len()
        invariant
            i <= parts@.len(),
            all == texts(parts@),
            texts(names@) == listed_names(all.take(i as int)),
        decreases parts.len() - i,
    {
        proof {
            assert(all.take(i + 1).drop_last() =~= all.take(i as int));
            assert(all.take(i + 1).last() == parts@[i as int]@);
        }
        let ghost before = texts(names@);
        let name = trim(parts[i].as_str());
        let ghost shown = name@;
        if !name.as_str().is_empty() {
            names.push(name);
            proof {
                assert(texts(names@) =~= before.push(shown));
            }
        }
        i += 1;
    }
    proof {
        assert(all.take(i as int) =~= all);
    }
    names
}

}
