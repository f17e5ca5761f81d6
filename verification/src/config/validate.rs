//! Which settings contradict each other.
use vstd::prelude::*;

use crate::config::{config_error, Config, ConfigView, Limits};
use crate::error::{unit_view, AppError, ErrorView};
use crate::text::join2;

verus! {

/// The limits that must not be zero, by their names.
pub open spec fn positive_limits(limits: Limits) -> Seq<(Seq<char>, usize)> {
    seq![
        ("MAX_REQUEST_BODY_BYTES"@, limits.request_body_bytes),
        ("MAX_INPUT_STRING_BYTES"@, limits.input_string_bytes),
        ("MAX_WRITE_BYTES"@, limits.write_bytes),
        ("MAX_PATCH_BYTES"@, limits.patch_bytes),
        ("MAX_MULTI_PATHS"@, limits.multi_path_count),
        ("MAX_RESULTS"@, limits.results),
        ("MAX_TRAVERSED_ENTRIES"@, limits.traversed_entries),
        ("MAX_PROCESS_OUTPUT_BYTES"@, limits.process_output_bytes),
        ("MAX_CONCURRENT_TOOL_CALLS"@, limits.max_concurrent_tools),
        ("MAX_CONCURRENT_CPU_TASKS"@, limits.max_concurrent_cpu),
        ("MAX_CONCURRENT_PROCESSES"@, limits.max_concurrent_processes),
        ("MAX_CONCURRENT_SEARCHES"@, limits.max_concurrent_searches),
        ("MAX_CONCURRENT_PATCHES"@, limits.max_concurrent_patches),
        ("MAX_PROJECT_TOOL_CALLS"@, limits.per_project_tools),
        ("MAX_PROJECT_PROCESSES"@, limits.per_project_processes),
    ]
}

/// The first limit, from `from` on, that is zero.
pub open spec fn zero_limit(limits: Seq<(Seq<char>, usize)>, from: int) -> Option<Seq<char>>
    decreases limits.len() - from,
{
    if from < 0 || from >= limits.len() {
        None
    } else if limits[from].1 == 0 {
        Some(limits[from].0)
    } else {
        zero_limit(limits, from + 1)
    }
}

/// What cannot be larger than a whole request.
pub open spec fn oversized_part(limits: Limits) -> Option<Seq<char>> {
    if limits.input_string_bytes > limits.request_body_bytes {
        Some("MAX_INPUT_STRING_BYTES"@)
    } else if limits.write_bytes > limits.request_body_bytes {
        Some("MAX_WRITE_BYTES"@)
    } else if limits.patch_bytes > limits.request_body_bytes {
        Some("MAX_PATCH_BYTES"@)
    } else {
        None
    }
}

pub open spec fn named_error(name: Seq<char>, about: &str) -> ErrorView {
    ErrorView { code: "CONFIG_ERROR"@, message: name + about@ }
}

/// Why settings are refused.
pub open spec fn config_refusal(config: ConfigView) -> Option<ErrorView> {
    let limits = config.limits;
    let output = config.output;
    if config.sandbox_backend != "auto"@ && config.sandbox_backend != "bwrap"@
        && config.sandbox_backend != "none"@ {
        Some(config_error("MCP_EXEC_SANDBOX must be one of auto, bwrap, or none"))
    } else if zero_limit(positive_limits(limits), 0) is Some {
        Some(
            named_error(
                zero_limit(positive_limits(limits), 0)->0,
                " must be greater than zero",
            ),
        )
    } else if oversized_part(limits) is Some {
        Some(named_error(oversized_part(limits)->0, " cannot exceed MAX_REQUEST_BODY_BYTES"))
    } else if limits.per_project_processes > limits.max_concurrent_processes {
        Some(config_error("MAX_PROJECT_PROCESSES cannot exceed MAX_CONCURRENT_PROCESSES"))
    } else if config.max_sessions == 0 || config.max_interactive_processes == 0 {
        Some(config_error("session and interactive process limits must be greater than zero"))
    } else if config.max_concurrent_upstream_calls == 0 {
        Some(config_error("MAX_CONCURRENT_UPSTREAM_CALLS must be greater than zero"))
    } else if config.exec_default_timeout_ms > config.exec_max_timeout_ms {
        Some(config_error("EXEC_DEFAULT_TIMEOUT_MS cannot exceed EXEC_MAX_TIMEOUT_MS"))
    } else if config.logs.max_files == 0 || config.logs.max_file_bytes == 0 {
        Some(config_error("log rotation limits must be greater than zero"))
    } else if output.file_bytes == 0 || output.multi_file_bytes == 0 || output.results == 0
        || output.search_bytes == 0 {
        Some(config_error("output presentation limits must be greater than zero"))
    } else if output.file_bytes > limits.write_bytes || output.multi_file_bytes
        > limits.write_bytes {
        Some(
            config_error(
                "OUTPUT_FILE_BYTES and OUTPUT_MULTI_FILE_BYTES cannot exceed MAX_WRITE_BYTES",
            ),
        )
    } else if output.results > limits.results {
        Some(config_error("OUTPUT_MAX_RESULTS cannot exceed MAX_RESULTS"))
    } else if output.search_bytes > limits.process_output_bytes {
        Some(config_error("OUTPUT_SEARCH_BYTES cannot exceed MAX_PROCESS_OUTPUT_BYTES"))
    } else {
        None
    }
}

fn positive_limit(limits: &Limits, i: usize) -> (entry: (&'static str, usize))
    requires
        i < 15,
    ensures
        entry.0@ == positive_limits(*limits)[i as int].0,
        entry.1 == positive_limits(*limits)[i as int].1,
{
    match i {
        0 => ("MAX_REQUEST_BODY_BYTES", limits.request_body_bytes),
        1 => ("MAX_INPUT_STRING_BYTES", limits.input_string_bytes),
        2 => ("MAX_WRITE_BYTES", limits.write_bytes),
        3 => ("MAX_PATCH_BYTES", limits.patch_bytes),
        4 => ("MAX_MULTI_PATHS", limits.multi_path_count),
        5 => ("MAX_RESULTS", limits.results),
        6 => ("MAX_TRAVERSED_ENTRIES", limits.traversed_entries),
        7 => ("MAX_PROCESS_OUTPUT_BYTES", limits.process_output_bytes),
        8 => ("MAX_CONCURRENT_TOOL_CALLS", limits.max_concurrent_tools),
        9 => ("MAX_CONCURRENT_CPU_TASKS", limits.max_concurrent_cpu),
        10 => ("MAX_CONCURRENT_PROCESSES", limits.max_concurrent_processes),
        11 => ("MAX_CONCURRENT_SEARCHES", limits.max_concurrent_searches),
        12 => ("MAX_CONCURRENT_PATCHES", limits.max_concurrent_patches),
        13 => ("MAX_PROJECT_TOOL_CALLS", limits.per_project_tools),
        _ => ("MAX_PROJECT_PROCESSES", limits.per_project_processes),
    }
}

fn find_zero_limit(limits: &Limits) -> (found: Option<&'static str>)
    ensures
        crate::text::opt_str_view(found) == zero_limit(positive_limits(*limits), 0),
{
    let mut i: usize = 0;
    while i < 15
        invariant
            i <= 15,
            zero_limit(positive_limits(*limits), 0) == zero_limit(
                positive_limits(*limits),
                i as int,
            ),
        decreases 15 - i,
    {
        let (name, amount) = positive_limit(limits, i);
        if amount == 0 {
            return Some(name);
        }
        i += 1;
    }
    None
}

fn refuse(message: &str) -> (e: AppError)
    ensures
        e@ == config_error(message),
{
    AppError::config(message.to_owned())
}

fn refuse_named(name: &str, about: &str) -> (e: AppError)
    ensures
        e@ == named_error(name@, about),
{
    AppError::config(join2(name, about))
}

impl Config {
    pub fn validate(&self) -> (result: Result<(), AppError>)
        ensures
            unit_view(result) == match config_refusal(self@) {
                Some(e) => Err(e),
                None => Ok(()),
            },
    {
        let limits = &self.limits;
        let output = &self.output;
        let backend = self.sandbox_backend.as_str();
        if !backend.eq("auto") && !backend.eq("bwrap") && !backend.eq("none") {
            return Err(refuse("MCP_EXEC_SANDBOX must be one of auto, bwrap, or none"));
        }
        if let Some(name) = find_zero_limit(limits) {
            return Err(refuse_named(name, " must be greater than zero"));
        }
        if limits.input_string_bytes > limits.request_body_bytes {
            return Err(
                refuse_named("MAX_INPUT_STRING_BYTES", " cannot exceed MAX_REQUEST_BODY_BYTES"),
            );
        }
        if limits.write_bytes > limits.request_body_bytes {
            return Err(refuse_named("MAX_WRITE_BYTES", " cannot exceed MAX_REQUEST_BODY_BYTES"));
        }
        if limits.patch_bytes > limits.request_body_bytes {
            return Err(refuse_named("MAX_PATCH_BYTES", " cannot exceed MAX_REQUEST_BODY_BYTES"));
        }
        if limits.per_project_processes > limits.max_concurrent_processes {
            return Err(refuse("MAX_PROJECT_PROCESSES cannot exceed MAX_CONCURRENT_PROCESSES"));
        }
        if self.max_sessions == 0 || self.max_interactive_processes == 0 {
            return Err(
                refuse("session and interactive process limits must be greater than zero"),
            );
        }
        if self.max_concurrent_upstream_calls == 0 {
            return Err(refuse("MAX_CONCURRENT_UPSTREAM_CALLS must be greater than zero"));
        }
        if self.exec_default_timeout_ms > self.exec_max_timeout_ms {
            return Err(refuse("EXEC_DEFAULT_TIMEOUT_MS cannot exceed EXEC_MAX_TIMEOUT_MS"));
        }
        if self.logs.max_files == 0 || self.logs.max_file_bytes == 0 {
            return Err(refuse("log rotation limits must be greater than zero"));
        }
        if output.file_bytes == 0 || output.multi_file_bytes == 0 || output.results == 0
            || output.search_bytes == 0 {
            return Err(refuse("output presentation limits must be greater than zero"));
        }
        if output.file_bytes > limits.write_bytes || output.multi_file_bytes > limits.write_bytes {
            return Err(
                refuse(
                    "OUTPUT_FILE_BYTES and OUTPUT_MULTI_FILE_BYTES cannot exceed MAX_WRITE_BYTES",
                ),
            );
        }
        if output.results > limits.results {
            return Err(refuse("OUTPUT_MAX_RESULTS cannot exceed MAX_RESULTS"));
        }
        if output.search_bytes > limits.process_output_bytes {
            return Err(refuse("OUTPUT_SEARCH_BYTES cannot exceed MAX_PROCESS_OUTPUT_BYTES"));
        }
        Ok(())
    }
}

}
