//! What always holds of settings.
use vstd::prelude::*;

use crate::audit::redact::number_json;
use crate::config::building::{
    built, cpu_default, early_settings, fallbacks_accepted, first_numbers, last_numbers, numbers_of,
    simple_file_name, token_refusal, HostFacts,
};
use crate::config::summary::{
    lemma_limits_ordered, lemma_output_ordered, lemma_summary_ordered, limits_json, output_json,
    summary_json, text_list,
};
use crate::config::upstream::{
    servers_refusal, upstream_refusal, MAX_UPSTREAM_CONFIG_BYTES, MAX_UPSTREAM_SERVERS,
};
use crate::config::validate::{config_refusal, positive_limits, zero_limit};
use crate::config::{
    auth_mode_name, bind_text, comma_list, entry_of, listed_names, number_setting, setting,
    socket_mode, truth_setting, AuthMode, BindView, BuilderView, ConfigView, UpstreamSpec,
};
use crate::json::{field, field_from, fields_ascend, JsonView};
use crate::search::{split, starts_with};
use crate::text::{
    blank, blank_texts_trim_to_nothing, control, lemma_less_irreflexive, trimmed, unsigned_number,
    utf8_len,
};
use crate::text_laws::separator_starts_a_part;

verus! {

/// The last entry of a name counts, and a name without one has none.
pub proof fn last_entry_counts(list: Seq<(Seq<char>, Seq<char>)>, name: Seq<char>)
    ensures
        match entry_of(list, name) {
            Some(value) => exists|i: int|
                0 <= i < list.len() && #[trigger] list[i] == (name, value) && forall|j: int|
                    i < j < list.len() ==> (#[trigger] list[j]).0 != name,
            None => forall|i: int| 0 <= i < list.len() ==> (#[trigger] list[i]).0 != name,
        },
    decreases list.len(),
{
    if list.len() > 0 {
        let last = list.len() - 1;
        let rest = list.drop_last();
        if list[last].0 == name {
            assert(list[last] == (name, list[last].1));
        } else {
            last_entry_counts(rest, name);
            assert forall|i: int| 0 <= i < rest.len() implies #[trigger] list[i] == rest[i] by {}
            if let Some(value) = entry_of(rest, name) {
                let i = choose|i: int|
                    0 <= i < rest.len() && #[trigger] rest[i] == (name, value) && forall|j: int|
                        i < j < rest.len() ==> (#[trigger] rest[j]).0 != name;
                assert(list[i] == (name, value));
                assert forall|j: int| i < j < list.len() implies (#[trigger] list[j]).0 != name by {
                    if j < last {
                        assert(rest[j] == list[j]);
                    }
                }
            }
        }
    }
}

/// A setting is what an override says, else what the environment says.
pub proof fn overrides_come_before_the_environment(builder: BuilderView, name: Seq<char>)
    ensures
        entry_of(builder.overrides, name) is Some ==> setting(builder, name) == entry_of(
            builder.overrides,
            name,
        ),
        entry_of(builder.overrides, name) is None ==> setting(builder, name) == entry_of(
            builder.environment,
            name,
        ),
{
}

/// The value is the number that the setting of this name says, or the default
/// where it says nothing.
pub open spec fn says(builder: BuilderView, name: &str, default: int, value: int) -> bool {
    match setting(builder, name@) {
        Some(text) => unsigned_number(text, 10, usize::MAX as int) == Some(value),
        None => value == default,
    }
}

proof fn lemma_numbers(builder: BuilderView, names: Seq<(Seq<char>, usize)>)
    requires
        numbers_of(builder, names) is Ok,
    ensures
        numbers_of(builder, names)->Ok_0.len() == names.len(),
        forall|i: int|
            0 <= i < names.len() ==> number_setting(builder, (#[trigger] names[i]).0, names[i].1)
                == Ok::<usize, crate::error::ErrorView>(numbers_of(builder, names)->Ok_0[i]),
    decreases names.len(),
{
    if names.len() > 0 {
        let rest = names.drop_last();
        lemma_numbers(builder, rest);
        let before = numbers_of(builder, rest)->Ok_0;
        let all = numbers_of(builder, names)->Ok_0;
        assert forall|i: int| 0 <= i < names.len() implies number_setting(
            builder,
            (#[trigger] names[i]).0,
            names[i].1,
        ) == Ok::<usize, crate::error::ErrorView>(all[i]) by {
            if i < rest.len() {
                assert(rest[i] == names[i]);
                assert(all[i] == before[i]);
            }
        }
    }
}

proof fn lemma_says(builder: BuilderView, name: &str, default: usize, value: usize)
    requires
        number_setting(builder, name@, default) == Ok::<usize, crate::error::ErrorView>(value),
    ensures
        says(builder, name, default as int, value as int),
{
    if let Some(text) = setting(builder, name@) {
        crate::text::lemma_number_range(text, 10, usize::MAX as int);
    }
}

/// The default for what is done at once by the processors: their number, two at
/// least.
pub open spec fn processors(host: HostFacts) -> int {
    match host.parallelism {
        Some(n) if n > 2 => n as int,
        _ => 2,
    }
}

/// Each limit is the number that the setting of its name says, or its default.
#[verifier::rlimit(40)]
pub proof fn limits_are_what_settings_say(builder: BuilderView, host: HostFacts)
    requires
        built(builder, host) is Ok,
    ensures
        ({
            let config = built(builder, host)->Ok_0;
            let limits = config.limits;
            let cpu = processors(host);
            let few: int = if cpu < 8 {
                cpu
            } else {
                8
            };
            let processes = limits.max_concurrent_processes;
            &&& says(builder, "MAX_CONCURRENT_PROCESSES", few, processes as int)
            &&& says(
                builder,
                "MAX_REQUEST_BODY_BYTES",
                16_777_216,
                limits.request_body_bytes as int,
            )
            &&& says(builder, "MAX_INPUT_STRING_BYTES", 1_048_576, limits.input_string_bytes as int)
            &&& says(builder, "MAX_WRITE_BYTES", 8_388_608, limits.write_bytes as int)
            &&& says(builder, "MAX_PATCH_BYTES", 4_194_304, limits.patch_bytes as int)
            &&& says(builder, "MAX_MULTI_PATHS", 64, limits.multi_path_count as int)
            &&& says(builder, "MAX_RESULTS", 1000, limits.results as int)
            &&& says(builder, "MAX_TRAVERSED_ENTRIES", 100_000, limits.traversed_entries as int)
            &&& says(
                builder,
                "MAX_PROCESS_OUTPUT_BYTES",
                4_194_304,
                limits.process_output_bytes as int,
            )
            &&& says(builder, "MAX_CONCURRENT_TOOL_CALLS", 64, limits.max_concurrent_tools as int)
            &&& says(builder, "MAX_CONCURRENT_CPU_TASKS", cpu, limits.max_concurrent_cpu as int)
            &&& says(builder, "MAX_CONCURRENT_SEARCHES", cpu, limits.max_concurrent_searches as int)
            &&& says(builder, "MAX_CONCURRENT_PATCHES", 4, limits.max_concurrent_patches as int)
            &&& says(builder, "MAX_PROJECT_TOOL_CALLS", 8, limits.per_project_tools as int)
            &&& says(
                builder,
                "MAX_PROJECT_PROCESSES",
                if processes > 2 {
                    processes - 1
                } else {
                    1
                },
                limits.per_project_processes as int,
            )
            &&& says(builder, "OVERLOAD_WAIT_MS", 500, limits.overload_wait_ms as int)
        }),
{
    let config = built(builder, host)->Ok_0;
    let limits = config.limits;
    let early = early_settings(builder, host)->Ok_0;
    let cpu = cpu_default(host.parallelism);
    let few: usize = if cpu < 8 {
        cpu
    } else {
        8
    };
    let names = first_numbers(cpu, early.processes);
    lemma_numbers(builder, names);
    let a = numbers_of(builder, names)->Ok_0;
    lemma_says(builder, "MAX_CONCURRENT_PROCESSES", few, early.processes);
    assert(names[5].0 == "MAX_REQUEST_BODY_BYTES"@);
    lemma_says(builder, "MAX_REQUEST_BODY_BYTES", 16_777_216, a[5]);
    assert(names[6].0 == "MAX_INPUT_STRING_BYTES"@);
    lemma_says(builder, "MAX_INPUT_STRING_BYTES", 1_048_576, a[6]);
    assert(names[7].0 == "MAX_WRITE_BYTES"@);
    lemma_says(builder, "MAX_WRITE_BYTES", 8_388_608, a[7]);
    assert(names[8].0 == "MAX_PATCH_BYTES"@);
    lemma_says(builder, "MAX_PATCH_BYTES", 4_194_304, a[8]);
    assert(names[9].0 == "MAX_MULTI_PATHS"@);
    lemma_says(builder, "MAX_MULTI_PATHS", 64, a[9]);
    assert(names[10].0 == "MAX_RESULTS"@);
    lemma_says(builder, "MAX_RESULTS", 1000, a[10]);
    assert(names[11].0 == "MAX_TRAVERSED_ENTRIES"@);
    lemma_says(builder, "MAX_TRAVERSED_ENTRIES", 100_000, a[11]);
    assert(names[12].0 == "MAX_PROCESS_OUTPUT_BYTES"@);
    lemma_says(builder, "MAX_PROCESS_OUTPUT_BYTES", 4_194_304, a[12]);
    assert(names[13].0 == "MAX_CONCURRENT_TOOL_CALLS"@);
    lemma_says(builder, "MAX_CONCURRENT_TOOL_CALLS", 64, a[13]);
    assert(names[14].0 == "MAX_CONCURRENT_CPU_TASKS"@);
    lemma_says(builder, "MAX_CONCURRENT_CPU_TASKS", cpu, a[14]);
    assert(names[15].0 == "MAX_CONCURRENT_SEARCHES"@);
    lemma_says(builder, "MAX_CONCURRENT_SEARCHES", cpu, a[15]);
    assert(names[16].0 == "MAX_CONCURRENT_PATCHES"@);
    lemma_says(builder, "MAX_CONCURRENT_PATCHES", 4, a[16]);
    assert(names[17].0 == "MAX_PROJECT_TOOL_CALLS"@);
    lemma_says(builder, "MAX_PROJECT_TOOL_CALLS", 8, a[17]);
    assert(names[18].0 == "MAX_PROJECT_PROCESSES"@);
    lemma_says(builder, "MAX_PROJECT_PROCESSES", names[18].1, a[18]);
    assert(names[19].0 == "OVERLOAD_WAIT_MS"@);
    lemma_says(builder, "OVERLOAD_WAIT_MS", 500, a[19]);
}

/// So is each size of what is shown and logged, and each time and number of
/// sessions and processes.
#[verifier::rlimit(40)]
pub proof fn sizes_and_times_are_what_settings_say(builder: BuilderView, host: HostFacts)
    requires
        built(builder, host) is Ok,
        crate::config::building::log_size_fits(builder),
    ensures
        ({
            let config = built(builder, host)->Ok_0;
            let logs = config.logs;
            let output = config.output;
            &&& says(
                builder,
                "CONSOLE_PARAM_EXCERPT_BYTES",
                4096,
                logs.console_param_bytes as int,
            )
            &&& says(
                builder,
                "CONSOLE_RESULT_EXCERPT_BYTES",
                8192,
                logs.console_result_bytes as int,
            )
            &&& says(builder, "LOG_MAX_EVENT_BYTES", 1_048_576, logs.file_event_bytes as int)
            &&& logs.max_file_bytes % 1_048_576 == 0
            &&& says(
                builder,
                "LOG_MAX_FILE_SIZE_MB",
                100,
                logs.max_file_bytes as int / 1_048_576,
            )
            &&& says(builder, "LOG_MAX_FILES", 10, logs.max_files as int)
            &&& says(builder, "LOG_QUEUE_CAPACITY", 4096, logs.queue_capacity as int)
            &&& says(builder, "LOG_QUEUE_MAX_BYTES", 67_108_864, logs.queue_max_bytes as int)
            &&& says(builder, "OUTPUT_FILE_BYTES", 262_144, output.file_bytes as int)
            &&& says(builder, "OUTPUT_MULTI_FILE_BYTES", 1_048_576, output.multi_file_bytes as int)
            &&& says(builder, "OUTPUT_MAX_RESULTS", 500, output.results as int)
            &&& says(builder, "OUTPUT_SEARCH_BYTES", 524_288, output.search_bytes as int)
            &&& says(builder, "MAX_LEGACY_MCP_SESSIONS", 1024, config.max_sessions as int)
            &&& says(builder, "MCP_SESSION_IDLE_SECS", 3600, config.session_idle_secs as int)
            &&& says(builder, "STATUS_INTERVAL_SECS", 0, config.status_interval_secs as int)
            &&& says(
                builder,
                "EXEC_DEFAULT_TIMEOUT_MS",
                120_000,
                config.exec_default_timeout_ms as int,
            )
            &&& says(
                builder,
                "EXEC_MAX_TIMEOUT_MS",
                3_600_000,
                config.exec_max_timeout_ms as int,
            )
            &&& says(
                builder,
                "MAX_INTERACTIVE_PROCESSES",
                32,
                config.max_interactive_processes as int,
            )
            &&& says(
                builder,
                "INTERACTIVE_PROCESS_IDLE_SECS",
                900,
                config.interactive_process_idle_secs as int,
            )
            &&& says(
                builder,
                "UPSTREAM_CALL_TIMEOUT_MS",
                120_000,
                config.upstream_call_timeout_ms as int,
            )
            &&& says(
                builder,
                "MAX_CONCURRENT_UPSTREAM_CALLS",
                8,
                config.max_concurrent_upstream_calls as int,
            )
            &&& says(
                builder,
                "MAX_GATEWAY_SKILL_BYTES",
                1_048_576,
                config.max_gateway_skill_bytes as int,
            )
        }),
{
    let early = early_settings(builder, host)->Ok_0;
    let cpu = cpu_default(host.parallelism);
    let names = first_numbers(cpu, early.processes);
    lemma_numbers(builder, names);
    let a = numbers_of(builder, names)->Ok_0;
    let last = last_numbers();
    lemma_numbers(builder, last);
    let b = numbers_of(builder, last)->Ok_0;
    assert(names[0].0 == "CONSOLE_PARAM_EXCERPT_BYTES"@);
    lemma_says(builder, "CONSOLE_PARAM_EXCERPT_BYTES", 4096, a[0]);
    assert(names[1].0 == "CONSOLE_RESULT_EXCERPT_BYTES"@);
    lemma_says(builder, "CONSOLE_RESULT_EXCERPT_BYTES", 8192, a[1]);
    assert(names[2].0 == "LOG_MAX_EVENT_BYTES"@);
    lemma_says(builder, "LOG_MAX_EVENT_BYTES", 1_048_576, a[2]);
    assert(names[3].0 == "LOG_MAX_FILE_SIZE_MB"@);
    lemma_says(builder, "LOG_MAX_FILE_SIZE_MB", 100, a[3]);
    assert(names[4].0 == "LOG_MAX_FILES"@);
    lemma_says(builder, "LOG_MAX_FILES", 10, a[4]);
    lemma_says(builder, "LOG_QUEUE_CAPACITY", 4096, early.queue_capacity);
    lemma_says(builder, "LOG_QUEUE_MAX_BYTES", 67_108_864, early.queue_max_bytes);
    assert(names[20].0 == "OUTPUT_FILE_BYTES"@);
    lemma_says(builder, "OUTPUT_FILE_BYTES", 262_144, a[20]);
    assert(names[21].0 == "OUTPUT_MULTI_FILE_BYTES"@);
    lemma_says(builder, "OUTPUT_MULTI_FILE_BYTES", 1_048_576, a[21]);
    assert(names[22].0 == "OUTPUT_MAX_RESULTS"@);
    lemma_says(builder, "OUTPUT_MAX_RESULTS", 500, a[22]);
    assert(names[23].0 == "OUTPUT_SEARCH_BYTES"@);
    lemma_says(builder, "OUTPUT_SEARCH_BYTES", 524_288, a[23]);
    assert(names[24].0 == "MAX_LEGACY_MCP_SESSIONS"@);
    lemma_says(builder, "MAX_LEGACY_MCP_SESSIONS", 1024, a[24]);
    assert(names[25].0 == "MCP_SESSION_IDLE_SECS"@);
    lemma_says(builder, "MCP_SESSION_IDLE_SECS", 3600, a[25]);
    assert(names[26].0 == "STATUS_INTERVAL_SECS"@);
    lemma_says(builder, "STATUS_INTERVAL_SECS", 0, a[26]);
    assert(names[27].0 == "EXEC_DEFAULT_TIMEOUT_MS"@);
    lemma_says(builder, "EXEC_DEFAULT_TIMEOUT_MS", 120_000, a[27]);
    assert(names[28].0 == "EXEC_MAX_TIMEOUT_MS"@);
    lemma_says(builder, "EXEC_MAX_TIMEOUT_MS", 3_600_000, a[28]);
    assert(last[0].0 == "MAX_INTERACTIVE_PROCESSES"@);
    lemma_says(builder, "MAX_INTERACTIVE_PROCESSES", 32, b[0]);
    assert(last[1].0 == "INTERACTIVE_PROCESS_IDLE_SECS"@);
    lemma_says(builder, "INTERACTIVE_PROCESS_IDLE_SECS", 900, b[1]);
    assert(last[2].0 == "UPSTREAM_CALL_TIMEOUT_MS"@);
    lemma_says(builder, "UPSTREAM_CALL_TIMEOUT_MS", 120_000, b[2]);
    assert(last[3].0 == "MAX_CONCURRENT_UPSTREAM_CALLS"@);
    lemma_says(builder, "MAX_CONCURRENT_UPSTREAM_CALLS", 8, b[3]);
    assert(last[4].0 == "MAX_GATEWAY_SKILL_BYTES"@);
    lemma_says(builder, "MAX_GATEWAY_SKILL_BYTES", 1_048_576, b[4]);
}

/// The text is what the setting of this name says, or the default.
pub open spec fn reads(builder: BuilderView, name: &str, default: &str, text: Seq<char>) -> bool {
    match setting(builder, name@) {
        Some(value) => text == value,
        None => text == default@,
    }
}

/// Settings that are texts, true or false, or names: each under its own name.
#[verifier::rlimit(40)]
pub proof fn texts_are_what_settings_say(builder: BuilderView, host: HostFacts)
    requires
        built(builder, host) is Ok,
    ensures
        ({
            let config = built(builder, host)->Ok_0;
            let mode = setting(builder, "MCP_AUTH_MODE"@);
            let token = setting(builder, "MCP_AUTH_TOKEN"@);
            let allow = setting(builder, "MCP_ALLOW_UNSANDBOXED_EXEC"@);
            let bind = setting(builder, "MCP_BIND"@);
            let logs = setting(builder, "LOG_ROOT"@);
            let servers = setting(builder, "MCP_UPSTREAM_CONFIG"@);
            &&& reads(builder, "WORKSPACE_ROOT", "/workspace", config.workspace_root)
            &&& reads(builder, "MCP_EXEC_SANDBOX", "auto", config.sandbox_backend)
            &&& config.container_socket == setting(builder, "MCP_CONTAINER_SOCKET"@)
            &&& config.container_config_root == setting(builder, "MCP_CONTAINER_CONFIG_ROOT"@)
            &&& mode is None ==> config.auth_mode == AuthMode::Path
            &&& mode is Some ==> (config.auth_mode == AuthMode::Path <==> mode->0 == "path"@) && (
            config.auth_mode == AuthMode::Bearer <==> mode->0 == "bearer"@) && (config.auth_mode
                == AuthMode::Either <==> mode->0 == "either"@)
            &&& token is Some && (token->0).len() > 0 ==> config.auth_token == token->0
            &&& token is None || (token->0).len() == 0 ==> host.stored_token is Ok
                && config.auth_token == host.stored_token->Ok_0@
            &&& allow is None ==> config.allow_unsandboxed_exec
            &&& allow is Some ==> (config.allow_unsandboxed_exec <==> allow->0 == "true"@) && (
            !config.allow_unsandboxed_exec <==> allow->0 == "false"@)
            &&& bind is Some && (bind->0).contains('/') ==> config.bind == BindView::Unix(bind->0)
            &&& bind is Some && !(bind->0).contains('/') ==> host.socket_address is Some
                && config.bind == BindView::Tcp(host.socket_address->0@)
            &&& logs is Some && (logs->0).len() > 0 ==> config.logs.root == logs->0
            &&& servers is Some && !blank(servers->0) ==> config.upstream_config == servers
                && host.upstreams is Ok && config.upstreams == host.upstreams->Ok_0@
            &&& servers is None || blank(servers->0) ==> config.upstream_config is None
                && config.upstreams.len() == 0
        }),
{
    reveal_strlit("path");
    reveal_strlit("bearer");
    reveal_strlit("either");
    reveal_strlit("true");
    reveal_strlit("false");
    assert("path"@.len() == 4 && "bearer"@.len() == 6 && "either"@.len() == 6);
    assert("bearer"@[0] == 'b' && "either"@[0] == 'e');
    assert("true"@.len() != "false"@.len());
}

/// Behind a comma a list goes on: with what stands there, without white space
/// around it, or with nothing where that is all.
pub proof fn comma_parts_a_list(front: Seq<char>, part: Seq<char>)
    requires
        !part.contains(','),
    ensures
        comma_list(front.push(',') + part) == if blank(part) {
            comma_list(front)
        } else {
            comma_list(front).push(trimmed(part))
        },
        comma_list(part) == if blank(part) {
            Seq::<Seq<char>>::empty()
        } else {
            seq![trimmed(part)]
        },
{
    separator_starts_a_part(front, ',', part);
    blank_texts_trim_to_nothing(part);
    assert(split(front.push(',') + part, ',').drop_last() =~= split(front, ','));
    let alone = split(part, ',');
    assert(alone.drop_last() =~= Seq::<Seq<char>>::empty());
    assert(listed_names(alone.drop_last()) =~= Seq::<Seq<char>>::empty());
    assert(comma_list(part) =~= if blank(part) {
        Seq::<Seq<char>>::empty()
    } else {
        seq![trimmed(part)]
    });
}

/// Permissions are octal, with or without "0o" before them, up to 777.
pub proof fn socket_modes_are_octal(digits: Seq<char>)
    requires
        !starts_with(digits, "0o"@),
    ensures
        socket_mode("0o"@ + digits) == unsigned_number(digits, 8, 511),
        socket_mode(digits) == unsigned_number(digits, 8, 511),
{
    reveal_strlit("0o");
    let whole = "0o"@ + digits;
    assert(whole.subrange(0, 2) =~= "0o"@);
    assert(whole.skip(2) =~= digits);
}

/// A token has 16 to 512 bytes, and no separator of paths unless it is never
/// part of a path.
pub proof fn acceptable_token_is_taken(token: Seq<char>, mode: AuthMode)
    ensures
        token_refusal(token, mode) is None <==> 16 <= utf8_len(token) <= 512 && (mode
            == AuthMode::Bearer || (!token.contains('/') && !token.contains('\\'))),
{
}

proof fn lemma_zero_limit(limits: Seq<(Seq<char>, usize)>, from: int)
    requires
        0 <= from <= limits.len(),
    ensures
        zero_limit(limits, from) is None <==> forall|i: int|
            from <= i < limits.len() ==> (#[trigger] limits[i]).1 > 0,
    decreases limits.len() - from,
{
    if from < limits.len() && limits[from].1 != 0 {
        lemma_zero_limit(limits, from + 1);
    }
}

/// Settings are taken exactly if the sandbox is one of the three, no limit is
/// zero, and none is above the limit that it is part of.
#[verifier::rlimit(40)]
pub proof fn acceptable_settings_are_taken(config: ConfigView)
    ensures
        config_refusal(config) is None <==> {
            let limits = config.limits;
            let output = config.output;
            &&& config.sandbox_backend == "auto"@ || config.sandbox_backend == "bwrap"@
                || config.sandbox_backend == "none"@
            &&& 0 < limits.request_body_bytes
            &&& 0 < limits.input_string_bytes <= limits.request_body_bytes
            &&& 0 < limits.write_bytes <= limits.request_body_bytes
            &&& 0 < limits.patch_bytes <= limits.request_body_bytes
            &&& 0 < limits.multi_path_count
            &&& 0 < limits.results
            &&& 0 < limits.traversed_entries
            &&& 0 < limits.process_output_bytes
            &&& 0 < limits.max_concurrent_tools
            &&& 0 < limits.max_concurrent_cpu
            &&& 0 < limits.max_concurrent_searches
            &&& 0 < limits.max_concurrent_patches
            &&& 0 < limits.per_project_tools
            &&& 0 < limits.per_project_processes <= limits.max_concurrent_processes
            &&& 0 < config.max_sessions
            &&& 0 < config.max_interactive_processes
            &&& 0 < config.max_concurrent_upstream_calls
            &&& config.exec_default_timeout_ms <= config.exec_max_timeout_ms
            &&& 0 < config.logs.max_files
            &&& 0 < config.logs.max_file_bytes
            &&& 0 < output.file_bytes <= limits.write_bytes
            &&& 0 < output.multi_file_bytes <= limits.write_bytes
            &&& 0 < output.results <= limits.results
            &&& 0 < output.search_bytes <= limits.process_output_bytes
        },
{
    let limits = config.limits;
    let all = positive_limits(limits);
    lemma_zero_limit(all, 0);
    assert(all.len() == 15);
    assert(all[0].1 == limits.request_body_bytes && all[1].1 == limits.input_string_bytes
        && all[2].1 == limits.write_bytes && all[3].1 == limits.patch_bytes && all[4].1
        == limits.multi_path_count && all[5].1 == limits.results && all[6].1
        == limits.traversed_entries && all[7].1 == limits.process_output_bytes && all[8].1
        == limits.max_concurrent_tools && all[9].1 == limits.max_concurrent_cpu && all[10].1
        == limits.max_concurrent_processes && all[11].1 == limits.max_concurrent_searches
        && all[12].1 == limits.max_concurrent_patches && all[13].1 == limits.per_project_tools
        && all[14].1 == limits.per_project_processes);
}

/// A text of so many bytes, without NUL characters and line breaks.
pub open spec fn one_line(text: Seq<char>, limit: int) -> bool {
    utf8_len(text) <= limit && !text.contains('\0') && !text.contains('\n') && !text.contains('\r')
}

/// A text of 1 to 128 bytes without control characters.
pub open spec fn short_name(text: Seq<char>) -> bool {
    0 < text.len() && utf8_len(text) <= 128 && forall|i: int|
        0 <= i < text.len() ==> !control(#[trigger] text[i])
}

/// A name of an environment variable.
pub open spec fn variable(text: Seq<char>) -> bool {
    0 < text.len() && one_line(text, 128) && !text.contains('=')
}

/// An upstream server is taken exactly if its name, its command, each argument,
/// variable, header and tool is one, and there are not too many of them.
#[verifier::rlimit(40)]
pub proof fn acceptable_server_is_taken(name: Seq<char>, server: UpstreamSpec)
    ensures
        upstream_refusal(name, server) is None <==> {
            &&& short_name(name)
            &&& server.args@.len() <= 256
            &&& server.env@.len() <= 256
            &&& server.command is Some ==> 0 < server.command->0@.len() && one_line(
                server.command->0@,
                4096,
            )
            &&& forall|i: int|
                0 <= i < server.args@.len() ==> one_line((#[trigger] server.args@[i])@, 8192)
            &&& forall|i: int|
                0 <= i < server.env@.len() ==> variable((#[trigger] server.env@[i]).0@) && utf8_len(
                    server.env@[i].1@,
                ) <= 8192 && !server.env@[i].1@.contains('\0')
            &&& server.tools is Some ==> server.tools->0@.len() <= 512 && forall|i: int|
                0 <= i < server.tools->0@.len() ==> short_name((#[trigger] server.tools->0@[i])@)
            &&& server.bearer_token_env_var is Some ==> variable(server.bearer_token_env_var->0@)
            &&& forall|i: int|
                0 <= i < server.env_http_headers@.len() ==> 0 < (
                #[trigger] server.env_http_headers@[i]).0@.len() && one_line(
                    server.env_http_headers@[i].0@,
                    256,
                ) && variable(server.env_http_headers@[i].1@)
        },
{
    assert forall|text: Seq<char>| #[trigger] short_name(text)
        == crate::config::upstream::plain_name(text, 128) by {}
    assert forall|text: Seq<char>| #[trigger] variable(text)
        == crate::config::upstream::variable_name(text) by {}
    assert forall|i: int| 0 <= i < server.args@.len() implies one_line(
        (#[trigger] server.args@[i])@,
        8192,
    ) == crate::config::upstream::valid_argument(server.args@[i]@) by {}
    assert forall|i: int| 0 <= i < server.env@.len() implies (variable(
        (#[trigger] server.env@[i]).0@,
    ) && utf8_len(server.env@[i].1@) <= 8192 && !server.env@[i].1@.contains('\0'))
        == crate::config::upstream::valid_variable(server.env@[i].0@, server.env@[i].1@) by {}
    assert forall|i: int| 0 <= i < server.env_http_headers@.len() implies (0 < (
    #[trigger] server.env_http_headers@[i]).0@.len() && one_line(
        server.env_http_headers@[i].0@,
        256,
    ) && variable(server.env_http_headers@[i].1@)) == crate::config::upstream::valid_header(
        server.env_http_headers@[i].0@,
        server.env_http_headers@[i].1@,
    ) by {}
    if server.tools is Some {
        let tools = server.tools->0@;
        assert forall|i: int| 0 <= i < tools.len() implies short_name((#[trigger] tools[i])@)
            == crate::config::upstream::plain_name(tools[i]@, 128) by {}
    }
}

/// All servers of a file are taken exactly if each is; else the first that is
/// not decides.
pub proof fn first_bad_server_is_told(servers: Seq<(String, UpstreamSpec)>, from: int)
    requires
        0 <= from <= servers.len(),
    ensures
        match servers_refusal(servers, from) {
            None => forall|i: int|
                from <= i < servers.len() ==> upstream_refusal(
                    (#[trigger] servers[i]).0@,
                    servers[i].1,
                ) is None,
            Some(e) => exists|i: int|
                from <= i < servers.len() && upstream_refusal(
                    (#[trigger] servers[i]).0@,
                    servers[i].1,
                ) == Some(e) && forall|j: int|
                    from <= j < i ==> upstream_refusal(
                        (#[trigger] servers[j]).0@,
                        servers[j].1,
                    ) is None,
        },
    decreases servers.len() - from,
{
    if from < servers.len() {
        if upstream_refusal(servers[from].0@, servers[from].1) is None {
            first_bad_server_is_told(servers, from + 1);
            if let Some(e) = servers_refusal(servers, from + 1) {
                let i = choose|i: int|
                    from + 1 <= i < servers.len() && upstream_refusal(
                        (#[trigger] servers[i]).0@,
                        servers[i].1,
                    ) == Some(e) && forall|j: int|
                        from + 1 <= j < i ==> upstream_refusal(
                            (#[trigger] servers[j]).0@,
                            servers[j].1,
                        ) is None;
                assert(upstream_refusal(servers[i].0@, servers[i].1) == Some(e));
            }
        } else {
            assert(upstream_refusal(servers[from].0@, servers[from].1) is Some);
        }
    }
}

/// Where the names of an object ascend, each field is found under its name.
pub proof fn field_is_found_by_its_name(fields: Seq<(Seq<char>, JsonView)>, i: int, from: int)
    requires
        fields_ascend(fields),
        0 <= from <= i < fields.len(),
    ensures
        field_from(fields, fields[i].0, from) == Some(fields[i].1),
    decreases i - from,
{
    if from < i {
        assert(crate::text::text_less(fields[from].0, fields[i].0));
        lemma_less_irreflexive(fields[i].0);
        field_is_found_by_its_name(fields, i, from + 1);
    }
}

/// What a summary shows under which name.
#[verifier::rlimit(40)]
pub proof fn summary_names_its_settings(config: ConfigView)
    ensures
        ({
            let shown = summary_json(config);
            &&& field(shown, "workspace_root"@) == Some(JsonView::Text(config.workspace_root))
            &&& field(shown, "log_root"@) == Some(JsonView::Text(config.logs.root))
            &&& field(shown, "sandbox_backend"@) == Some(JsonView::Text(config.sandbox_backend))
            &&& field(shown, "allow_unsandboxed_exec"@) == Some(
                JsonView::Bool(config.allow_unsandboxed_exec),
            )
            &&& field(shown, "config_source"@) == Some(JsonView::Text(config.config_source))
            &&& field(shown, "limits"@) == Some(limits_json(config))
            &&& field(shown, "output"@) == Some(output_json(config))
            &&& field(shown, "init_required"@) == Some(JsonView::Bool(true))
            &&& field(shown, "yolo_tools"@) == Some(JsonView::Bool(true))
        }),
{
    lemma_summary_ordered(config);
    let fields = summary_json(config)->Object_0;
    field_is_found_by_its_name(fields, 0, 0);
    field_is_found_by_its_name(fields, 4, 0);
    field_is_found_by_its_name(fields, 6, 0);
    field_is_found_by_its_name(fields, 7, 0);
    field_is_found_by_its_name(fields, 8, 0);
    field_is_found_by_its_name(fields, 9, 0);
    field_is_found_by_its_name(fields, 11, 0);
    field_is_found_by_its_name(fields, 13, 0);
    field_is_found_by_its_name(fields, 14, 0);
}

/// What it shows of the limits.
pub proof fn summary_names_its_limits(config: ConfigView)
    ensures
        ({
            let shown = limits_json(config);
            let output = output_json(config);
            &&& field(shown, "exec_default_timeout_ms"@) == Some(
                number_json(config.exec_default_timeout_ms as int),
            )
            &&& field(shown, "exec_max_timeout_ms"@) == Some(
                number_json(config.exec_max_timeout_ms as int),
            )
            &&& field(shown, "max_concurrent_processes"@) == Some(
                number_json(config.limits.max_concurrent_processes as int),
            )
            &&& field(shown, "max_concurrent_tools"@) == Some(
                number_json(config.limits.max_concurrent_tools as int),
            )
            &&& field(shown, "max_process_output_bytes"@) == Some(
                number_json(config.limits.process_output_bytes as int),
            )
            &&& field(shown, "max_write_bytes"@) == Some(
                number_json(config.limits.write_bytes as int),
            )
            &&& field(output, "file_bytes"@) == Some(
                number_json(config.output.file_bytes as int),
            )
            &&& field(output, "max_results"@) == Some(
                number_json(config.output.results as int),
            )
            &&& field(output, "multi_file_bytes"@) == Some(
                number_json(config.output.multi_file_bytes as int),
            )
            &&& field(output, "search_bytes"@) == Some(
                number_json(config.output.search_bytes as int),
            )
        }),
{
    lemma_limits_ordered(config);
    lemma_output_ordered(config);
    let fields = limits_json(config)->Object_0;
    field_is_found_by_its_name(fields, 0, 0);
    field_is_found_by_its_name(fields, 1, 0);
    field_is_found_by_its_name(fields, 2, 0);
    field_is_found_by_its_name(fields, 3, 0);
    field_is_found_by_its_name(fields, 4, 0);
    field_is_found_by_its_name(fields, 5, 0);
    let shown = output_json(config)->Object_0;
    field_is_found_by_its_name(shown, 0, 0);
    field_is_found_by_its_name(shown, 1, 0);
    field_is_found_by_its_name(shown, 2, 0);
    field_is_found_by_its_name(shown, 3, 0);
}

/// The names of further instruction files: sixteen at most, each of a file in the directory
/// itself, of no more than 128 bytes.
pub proof fn fallbacks_are_names_of_files(names: Seq<Seq<char>>)
    ensures
        fallbacks_accepted(names) <==> names.len() <= 16 && forall|i: int|
            0 <= i < names.len() ==> utf8_len(#[trigger] names[i]) <= 128 && names[i] != "."@
                && names[i] != ".."@ && !names[i].contains('/') && !names[i].contains('\\')
                && !names[i].contains('\0'),
{
    assert forall|i: int| 0 <= i < names.len() implies simple_file_name(#[trigger] names[i]) == (
    utf8_len(names[i]) <= 128 && names[i] != "."@ && names[i] != ".."@ && !names[i].contains('/')
        && !names[i].contains('\\') && !names[i].contains('\0')) by {}
}

/// A setting that should be a number or a truth value, and is not, is refused under its name.
pub proof fn odd_setting_is_refused(builder: BuilderView, name: Seq<char>, text: Seq<char>)
    requires
        setting(builder, name) == Some(text),
    ensures
        unsigned_number(text, 10, usize::MAX as int) is None ==> number_setting(builder, name, 0)
            == Err::<usize, crate::error::ErrorView>(
            crate::error::ErrorView {
                code: "CONFIG_ERROR"@,
                message: name + " must be a positive integer"@,
            },
        ),
        text != "true"@ && text != "false"@ ==> truth_setting(builder, name, true) == Err::<
            bool,
            crate::error::ErrorView,
        >(
            crate::error::ErrorView {
                code: "CONFIG_ERROR"@,
                message: name + " must be true or false"@,
            },
        ),
        text == "true"@ ==> truth_setting(builder, name, false) == Ok::<
            bool,
            crate::error::ErrorView,
        >(true),
        text == "false"@ ==> truth_setting(builder, name, true) == Ok::<
            bool,
            crate::error::ErrorView,
        >(false),
{
    reveal_strlit("true");
    reveal_strlit("false");
    assert("true"@.len() != "false"@.len());
}

/// A summary shows besides how requests are told to be allowed, where the server is found,
/// and what else it serves.
pub proof fn summary_names_the_server(config: ConfigView)
    ensures
        ({
            let shown = summary_json(config);
            &&& field(shown, "auth"@) == Some(JsonView::Text(auth_mode_name(config.auth_mode)))
            &&& field(shown, "bind"@) == Some(JsonView::Text(bind_text(config.bind)))
            &&& field(shown, "configured_upstreams"@) == Some(
                number_json(config.upstreams.len() as int),
            )
            &&& field(shown, "allowed_hosts"@) == Some(text_list(config.allowed_hosts))
            &&& field(shown, "project_doc_fallbacks"@) == Some(
                text_list(config.project_doc_fallbacks),
            )
            &&& field(shown, "upstream_config"@) == Some(
                match config.upstream_config {
                    Some(path) => JsonView::Text(path),
                    None => JsonView::Null,
                },
            )
        }),
        auth_mode_name(AuthMode::Path) == "path"@,
        auth_mode_name(AuthMode::Bearer) == "bearer"@,
        auth_mode_name(AuthMode::Either) == "either"@,
{
    lemma_summary_ordered(config);
    let fields = summary_json(config)->Object_0;
    field_is_found_by_its_name(fields, 1, 0);
    field_is_found_by_its_name(fields, 2, 0);
    field_is_found_by_its_name(fields, 3, 0);
    field_is_found_by_its_name(fields, 5, 0);
    field_is_found_by_its_name(fields, 10, 0);
    field_is_found_by_its_name(fields, 12, 0);
}

/// The limits of the file of upstream servers are those that their errors name.
pub proof fn upstream_limits_are_those_that_are_named(bytes: int, servers: int)
    ensures
        bytes > MAX_UPSTREAM_CONFIG_BYTES <==> bytes > 1_048_576,
        servers > MAX_UPSTREAM_SERVERS <==> servers > 64,
{
}

}
