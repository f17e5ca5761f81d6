//! Checks on upstream servers.
use vstd::prelude::*;

use crate::config::{config_error, UpstreamSpec};
use crate::error::{unit_view, AppError, ErrorView};
use crate::search::has_char;
use crate::text::{byte_len, control, is_control, join3, to_chars, utf8_len};

verus! {

pub const MAX_UPSTREAM_CONFIG_BYTES: usize = 1_048_576;

pub const MAX_UPSTREAM_SERVERS: usize = 64;

pub const MAX_UPSTREAM_ARGS: usize = 256;

pub const MAX_UPSTREAM_ENV_VARS: usize = 256;

/// Some character of the text is a control character.
pub open spec fn has_control(text: Seq<char>) -> bool {
    exists|i: int| 0 <= i < text.len() && control(#[trigger] text[i])
}

fn contains_control(text: &str) -> (r: bool)
    ensures
        r == has_control(text@),
{
    let chars = to_chars(text);
    let mut i: usize = 0;
    while i < chars.len()
        invariant
            i <= chars@.len(),
            chars@ == text@,
            forall|j: int| 0 <= j < i ==> !control(#[trigger] chars@[j]),
        decreases chars.len() - i,
    {
        if is_control(chars[i]) {
            proof {
                assert(control(text@[i as int]));
            }
            return true;
        }
        i += 1;
    }
    false
}

/// A text of 1 to `limit` bytes without control characters.
pub open spec fn plain_name(text: Seq<char>, limit: int) -> bool {
    text.len() > 0 && utf8_len(text) <= limit && !has_control(text)
}

fn is_plain_name(text: &str, limit: usize) -> (r: bool)
    ensures
        r == plain_name(text@, limit as int),
{
    !text.is_empty() && byte_len(text) <= limit && !contains_control(text)
}

pub open spec fn breaks_line(text: Seq<char>) -> bool {
    text.contains('\0') || text.contains('\n') || text.contains('\r')
}

fn is_breaking_line(text: &str) -> (r: bool)
    ensures
        r == breaks_line(text@),
{
    has_char(text, '\0') || has_char(text, '\n') || has_char(text, '\r')
}

/// A name that an environment variable can have.
pub open spec fn variable_name(text: Seq<char>) -> bool {
    text.len() > 0 && utf8_len(text) <= 128 && !text.contains('=') && !breaks_line(text)
}

fn is_variable_name(text: &str) -> (r: bool)
    ensures
        r == variable_name(text@),
{
    !text.is_empty() && byte_len(text) <= 128 && !has_char(text, '=') && !is_breaking_line(text)
}

pub open spec fn valid_command(text: Seq<char>) -> bool {
    text.len() > 0 && utf8_len(text) <= 4096 && !breaks_line(text)
}

pub open spec fn valid_argument(text: Seq<char>) -> bool {
    utf8_len(text) <= 8192 && !breaks_line(text)
}

pub open spec fn valid_variable(name: Seq<char>, value: Seq<char>) -> bool {
    variable_name(name) && utf8_len(value) <= 8192 && !value.contains('\0')
}

pub open spec fn valid_header(name: Seq<char>, variable: Seq<char>) -> bool {
    name.len() > 0 && utf8_len(name) <= 256 && !breaks_line(name) && variable_name(variable)
}

/// What is wrong with an upstream server of some name.
pub open spec fn upstream_fault(name: Seq<char>, about: &str) -> ErrorView {
    ErrorView { code: "CONFIG_ERROR"@, message: "upstream MCP `"@ + name + about@ }
}

/// Why an upstream server is refused.
pub open spec fn upstream_refusal(name: Seq<char>, server: UpstreamSpec) -> Option<ErrorView> {
    if !plain_name(name, 128) {
        Some(config_error("upstream MCP server name is invalid"))
    } else if server.args@.len() > MAX_UPSTREAM_ARGS || server.env@.len() > MAX_UPSTREAM_ENV_VARS {
        Some(upstream_fault(name, "` exceeds argument or environment limits"))
    } else if server.command is Some && !valid_command(server.command->0@) {
        Some(upstream_fault(name, "` has an invalid command"))
    } else if exists|i: int|
        0 <= i < server.args@.len() && !valid_argument(#[trigger] server.args@[i]@) {
        Some(upstream_fault(name, "` has an invalid argument"))
    } else if exists|i: int|
        0 <= i < server.env@.len() && !valid_variable(
            (#[trigger] server.env@[i]).0@,
            server.env@[i].1@,
        ) {
        Some(upstream_fault(name, "` has an invalid environment entry"))
    } else if server.tools is Some && !valid_tools(server.tools->0@) {
        Some(upstream_fault(name, "` has an invalid tool allowlist"))
    } else if server.bearer_token_env_var is Some && !variable_name(
        server.bearer_token_env_var->0@,
    ) {
        Some(upstream_fault(name, "` has an invalid bearer_token_env_var"))
    } else if exists|i: int|
        0 <= i < server.env_http_headers@.len() && !valid_header(
            (#[trigger] server.env_http_headers@[i]).0@,
            server.env_http_headers@[i].1@,
        ) {
        Some(upstream_fault(name, "` has an invalid env_http_headers entry"))
    } else {
        None
    }
}

pub open spec fn valid_tools(tools: Seq<String>) -> bool {
    tools.len() <= 512 && forall|i: int|
        0 <= i < tools.len() ==> plain_name((#[trigger] tools[i])@, 128)
}

fn fault(name: &str, about: &str) -> (e: AppError)
    ensures
        e@ == upstream_fault(name@, about),
{
    AppError::config(join3("upstream MCP `", name, about))
}

fn check_args(args: &Vec<String>) -> (ok: bool)
    ensures
        ok == !(exists|i: int| 0 <= i < args@.len() && !valid_argument(#[trigger] args@[i]@)),
{
    let mut i: usize = 0;
    while i < args.len()
        invariant
            i <= args@.len(),
            forall|j: int| 0 <= j < i ==> valid_argument(#[trigger] args@[j]@),
        decreases args.len() - i,
    {
        let text = args[i].as_str();
        if byte_len(text) > 8192 || is_breaking_line(text) {
            proof {
                assert(!valid_argument(args@[i as int]@));
            }
            return false;
        }
        i += 1;
    }
    true
}

fn check_env(env: &Vec<(String, String)>) -> (ok: bool)
    ensures
        ok == !(exists|i: int|
            0 <= i < env@.len() && !valid_variable((#[trigger] env@[i]).0@, env@[i].1@)),
{
    let mut i: usize = 0;
    while i < env.len()
        invariant
            i <= env@.len(),
            forall|j: int|
                0 <= j < i ==> valid_variable((#[trigger] env@[j]).0@, env@[j].1@),
        decreases env.len() - i,
    {
        let name = env[i].0.as_str();
        let value = env[i].1.as_str();
        if !is_variable_name(name) || byte_len(value) > 8192 || has_char(value, '\0') {
            proof {
                assert(!valid_variable(env@[i as int].0@, env@[i as int].1@));
            }
            return false;
        }
        i += 1;
    }
    true
}

fn check_headers(headers: &Vec<(String, String)>) -> (ok: bool)
    ensures
        ok == !(exists|i: int|
            0 <= i < headers@.len() && !valid_header(
                (#[trigger] headers@[i]).0@,
                headers@[i].1@,
            )),
{
    let mut i: usize = 0;
    while i < headers.len()
        invariant
            i <= headers@.len(),
            forall|j: int|
                0 <= j < i ==> valid_header((#[trigger] headers@[j]).0@, headers@[j].1@),
        decreases headers.len() - i,
    {
        let name = headers[i].0.as_str();
        let variable = headers[i].1.as_str();
        if name.is_empty() || byte_len(name) > 256 || is_breaking_line(name) || !is_variable_name(
            variable,
        ) {
            proof {
                assert(!valid_header(headers@[i as int].0@, headers@[i as int].1@));
            }
            return false;
        }
        i += 1;
    }
    true
}

fn check_tools(tools: &Vec<String>) -> (ok: bool)
    ensures
        ok == valid_tools(tools@),
{
    if tools.len() > 512 {
        return false;
    }
    let mut i: usize = 0;
    while i < tools.len()
        invariant
            i <= tools@.len(),
            forall|j: int| 0 <= j < i ==> plain_name((#[trigger] tools@[j])@, 128),
        decreases tools.len() - i,
    {
        if !is_plain_name(tools[i].as_str(), 128) {
            proof {
                assert(!plain_name(tools@[i as int]@, 128));
            }
            return false;
        }
        i += 1;
    }
    true
}

pub fn validate_upstream_spec(name: &str, server: &UpstreamSpec) -> (result: Result<(), AppError>)
    ensures
        unit_view(result) == match upstream_refusal(name@, *server) {
            Some(e) => Err(e),
            None => Ok(()),
        },
{
    if !is_plain_name(name, 128) {
        return Err(AppError::config("upstream MCP server name is invalid".to_owned()));
    }
    if server.args.len() > MAX_UPSTREAM_ARGS || server.env.len() > MAX_UPSTREAM_ENV_VARS {
        return Err(fault(name, "` exceeds argument or environment limits"));
    }
    if let Some(command) = &server.command {
        let text = command.as_str();
        if text.is_empty() || byte_len(text) > 4096 || is_breaking_line(text) {
            return Err(fault(name, "` has an invalid command"));
        }
    }
    if !check_args(&server.args) {
        return Err(fault(name, "` has an invalid argument"));
    }
    if !check_env(&server.env) {
        return Err(fault(name, "` has an invalid environment entry"));
    }
    if let Some(tools) = &server.tools {
        if !check_tools(tools) {
            return Err(fault(name, "` has an invalid tool allowlist"));
        }
    }
    if let Some(variable) = &server.bearer_token_env_var {
        if !is_variable_name(variable.as_str()) {
            return Err(fault(name, "` has an invalid bearer_token_env_var"));
        }
    }
    if !check_headers(&server.env_http_headers) {
        return Err(fault(name, "` has an invalid env_http_headers entry"));
    }
    Ok(())
}

/// The file that names upstream servers may not be larger than this.
pub fn check_upstream_size(bytes: usize) -> (result: Result<(), AppError>)
    ensures
        unit_view(result) == if bytes > MAX_UPSTREAM_CONFIG_BYTES {
            Err(config_error("MCP_UPSTREAM_CONFIG exceeds 1048576 bytes"))
        } else {
            Ok(())
        },
{
    if bytes > MAX_UPSTREAM_CONFIG_BYTES {
        Err(AppError::config("MCP_UPSTREAM_CONFIG exceeds 1048576 bytes".to_owned()))
    } else {
        Ok(())
    }
}

/// The first reason, from server `from` on, why one of them is refused.
pub open spec fn servers_refusal(servers: Seq<(String, UpstreamSpec)>, from: int) -> Option<
    ErrorView,
>
    decreases servers.len() - from,
{
    if from < 0 || from >= servers.len() {
        None
    } else if upstream_refusal(servers[from].0@, servers[from].1) is Some {
        upstream_refusal(servers[from].0@, servers[from].1)
    } else {
        servers_refusal(servers, from + 1)
    }
}

/// Check the upstream servers of a file, in the order of their names.
pub fn check_upstream_servers(servers: &Vec<(String, UpstreamSpec)>) -> (result: Result<
    (),
    AppError,
>)
    ensures
        unit_view(result) == if servers@.len() > MAX_UPSTREAM_SERVERS {
            Err(config_error("MCP_UPSTREAM_CONFIG may define at most 64 servers"))
        } else {
            match servers_refusal(servers@, 0) {
                Some(e) => Err(e),
                None => Ok(()),
            }
        },
{
    if servers.len() > MAX_UPSTREAM_SERVERS {
        return Err(
            AppError::config("MCP_UPSTREAM_CONFIG may define at most 64 servers".to_owned()),
        );
    }
    let mut i: usize = 0;
    while i < servers.len()
        invariant
            i <= servers@.len() <= MAX_UPSTREAM_SERVERS,
            servers_refusal(servers@, 0) == servers_refusal(servers@, i as int),
        decreases servers.len() - i,
    {
        if let Err(e) = validate_upstream_spec(servers[i].0.as_str(), &servers[i].1) {
            return Err(e);
        }
        i += 1;
    }
    Ok(())
}

}
