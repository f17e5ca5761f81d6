//! What the server reports of itself.
use vstd::prelude::*;

use crate::audit::events::{object_from, object_with};
use crate::audit::redact::number_json;
use crate::config::{bind_text, Config, ConfigView};
use crate::json::{fields_view, push_field, well_ordered, JsonValue, JsonView};

verus! {

/// What a running server counts.
#[derive(Clone, Copy, Debug, PartialEq, Eq, Structural)]
pub struct StatusFacts {
    pub active_requests: usize,
    pub active_processes: usize,
    pub active_sessions: usize,
    pub running_tools: usize,
    pub tracked_process_tasks: usize,
    pub project_cache_entries: usize,
    pub dropped_log_events: u64,
    pub log_queue_capacity: usize,
    pub log_queue_bytes_available: usize,
}

/// The answer to a question for the server's health.
pub open spec fn health_fields(active_requests: usize, sessions: usize) -> Seq<(Seq<char>, JsonView)> {
    seq![
        ("status"@, JsonView::Text("ok"@)),
        ("active_requests"@, number_json(active_requests as int)),
        ("active_legacy_mcp_sessions"@, number_json(sessions as int)),
    ]
}

pub fn health(active_requests: usize, sessions: usize) -> (body: JsonValue)
    ensures
        body@ == object_with(health_fields(active_requests, sessions)),
        well_ordered(body@),
{
    let mut fields: Vec<(String, JsonValue)> = Vec::new();
    push_field(&mut fields, "status", JsonValue::text("ok"));
    push_field(&mut fields, "active_requests", JsonValue::number(active_requests as u64));
    push_field(&mut fields, "active_legacy_mcp_sessions", JsonValue::number(sessions as u64));
    proof {
        assert(fields_view(fields@) =~= health_fields(active_requests, sessions));
    }
    object_from(&fields)
}

/// The event of a server that is ready, with the tools it offers.
pub open spec fn ready_fields(config: ConfigView, native_tools: usize, upstream_tools: usize) -> Seq<(Seq<char>, JsonView)> {
    seq![
        ("event"@, JsonView::Text("server_started"@)),
        ("bind"@, JsonView::Text(bind_text(config.bind))),
        ("endpoint"@, JsonView::Text("/[REDACTED]/mcp"@)),
        ("workspace_root"@, JsonView::Text(config.workspace_root)),
        ("logs"@, JsonView::Text(config.logs.root)),
        ("stateless_mcp"@, JsonView::Bool(true)),
        ("legacy_stateful_mcp"@, JsonView::Bool(true)),
        ("yolo_tools"@, JsonView::Bool(true)),
        ("native_tools"@, number_json(native_tools as int)),
        ("upstream_tools"@, number_json(upstream_tools as int)),
        ("exposed_tools"@, number_json(native_tools + upstream_tools)),
        ("max_concurrent_tools"@, number_json(config.limits.max_concurrent_tools as int)),
        (
            "max_concurrent_processes"@,
            number_json(config.limits.max_concurrent_processes as int),
        ),
    ]
}

pub fn server_started(config: &Config, native_tools: usize, upstream_tools: usize) -> (event:
    JsonValue)
    requires
        native_tools + upstream_tools <= usize::MAX,
    ensures
        event@ == object_with(ready_fields(config@, native_tools, upstream_tools)),
        well_ordered(event@),
{
    let mut fields: Vec<(String, JsonValue)> = Vec::new();
    push_field(&mut fields, "event", JsonValue::text("server_started"));
    push_field(&mut fields, "bind", JsonValue::text(config.bind.to_text().as_str()));
    push_field(&mut fields, "endpoint", JsonValue::text("/[REDACTED]/mcp"));
    push_field(&mut fields, "workspace_root", JsonValue::text(config.workspace_root.as_str()));
    push_field(&mut fields, "logs", JsonValue::text(config.logs.root.as_str()));
    push_field(&mut fields, "stateless_mcp", JsonValue::truth(true));
    push_field(&mut fields, "legacy_stateful_mcp", JsonValue::truth(true));
    push_field(&mut fields, "yolo_tools", JsonValue::truth(true));
    push_field(&mut fields, "native_tools", JsonValue::number(native_tools as u64));
    push_field(&mut fields, "upstream_tools", JsonValue::number(upstream_tools as u64));
    push_field(
        &mut fields,
        "exposed_tools",
        JsonValue::number((native_tools + upstream_tools) as u64),
    );
    push_field(
        &mut fields,
        "max_concurrent_tools",
        JsonValue::number(config.limits.max_concurrent_tools as u64),
    );
    push_field(
        &mut fields,
        "max_concurrent_processes",
        JsonValue::number(config.limits.max_concurrent_processes as u64),
    );
    proof {
        assert(fields_view(fields@) =~= ready_fields(config@, native_tools, upstream_tools));
    }
    object_from(&fields)
}

/// The event that tells now and then how busy the server is.
pub open spec fn status_fields(facts: StatusFacts) -> Seq<(Seq<char>, JsonView)> {
    seq![
        ("event"@, JsonView::Text("daemon_status"@)),
        ("active_requests"@, number_json(facts.active_requests as int)),
        ("active_processes"@, number_json(facts.active_processes as int)),
        ("active_legacy_mcp_sessions"@, number_json(facts.active_sessions as int)),
        ("running_tools"@, number_json(facts.running_tools as int)),
        ("tracked_process_tasks"@, number_json(facts.tracked_process_tasks as int)),
        ("project_cache_entries"@, number_json(facts.project_cache_entries as int)),
        ("dropped_log_events"@, number_json(facts.dropped_log_events as int)),
        ("log_queue_capacity"@, number_json(facts.log_queue_capacity as int)),
        (
            "log_queue_bytes_available"@,
            number_json(facts.log_queue_bytes_available as int),
        ),
    ]
}

pub fn daemon_status(facts: StatusFacts) -> (event: JsonValue)
    ensures
        event@ == object_with(status_fields(facts)),
        well_ordered(event@),
{
    let mut fields: Vec<(String, JsonValue)> = Vec::new();
    push_field(&mut fields, "event", JsonValue::text("daemon_status"));
    push_field(&mut fields, "active_requests", JsonValue::number(facts.active_requests as u64));
    push_field(&mut fields, "active_processes", JsonValue::number(facts.active_processes as u64));
    push_field(
        &mut fields,
        "active_legacy_mcp_sessions",
        JsonValue::number(facts.active_sessions as u64),
    );
    push_field(&mut fields, "running_tools", JsonValue::number(facts.running_tools as u64));
    push_field(
        &mut fields,
        "tracked_process_tasks",
        JsonValue::number(facts.tracked_process_tasks as u64),
    );
    push_field(
        &mut fields,
        "project_cache_entries",
        JsonValue::number(facts.project_cache_entries as u64),
    );
    push_field(&mut fields, "dropped_log_events", JsonValue::number(facts.dropped_log_events));
    push_field(
        &mut fields,
        "log_queue_capacity",
        JsonValue::number(facts.log_queue_capacity as u64),
    );
    push_field(
        &mut fields,
        "log_queue_bytes_available",
        JsonValue::number(facts.log_queue_bytes_available as u64),
    );
    proof {
        assert(fields_view(fields@) =~= status_fields(facts));
    }
    object_from(&fields)
}

/// The event of a server that begins to stop.
pub open spec fn stopping_fields(facts: StatusFacts) -> Seq<(Seq<char>, JsonView)> {
    seq![
        ("event"@, JsonView::Text("server_stopping"@)),
        ("active_requests"@, number_json(facts.active_requests as int)),
        ("active_processes"@, number_json(facts.active_processes as int)),
        ("active_legacy_mcp_sessions"@, number_json(facts.active_sessions as int)),
    ]
}

pub fn server_stopping(facts: StatusFacts) -> (event: JsonValue)
    ensures
        event@ == object_with(stopping_fields(facts)),
        well_ordered(event@),
{
    let mut fields: Vec<(String, JsonValue)> = Vec::new();
    push_field(&mut fields, "event", JsonValue::text("server_stopping"));
    push_field(&mut fields, "active_requests", JsonValue::number(facts.active_requests as u64));
    push_field(&mut fields, "active_processes", JsonValue::number(facts.active_processes as u64));
    push_field(
        &mut fields,
        "active_legacy_mcp_sessions",
        JsonValue::number(facts.active_sessions as u64),
    );
    proof {
        assert(fields_view(fields@) =~= stopping_fields(facts));
    }
    object_from(&fields)
}

/// The event of a server that has stopped, with what it left behind.
pub open spec fn stopped_fields(requested: usize, tools: usize, processes: usize, sessions: usize) -> Seq<(Seq<char>, JsonView)> {
    seq![
        ("event"@, JsonView::Text("server_stopped"@)),
        ("shutdown_requested_processes"@, number_json(requested as int)),
        ("remaining_tasks"@, number_json(tools as int)),
        ("remaining_processes"@, number_json(processes as int)),
        ("remaining_sessions"@, number_json(sessions as int)),
    ]
}

pub fn server_stopped(requested: usize, tools: usize, processes: usize, sessions: usize) -> (event:
    JsonValue)
    ensures
        event@ == object_with(stopped_fields(requested, tools, processes, sessions)),
        well_ordered(event@),
{
    let mut fields: Vec<(String, JsonValue)> = Vec::new();
    push_field(&mut fields, "event", JsonValue::text("server_stopped"));
    push_field(&mut fields, "shutdown_requested_processes", JsonValue::number(requested as u64));
    push_field(&mut fields, "remaining_tasks", JsonValue::number(tools as u64));
    push_field(&mut fields, "remaining_processes", JsonValue::number(processes as u64));
    push_field(&mut fields, "remaining_sessions", JsonValue::number(sessions as u64));
    proof {
        assert(fields_view(fields@) =~= stopped_fields(requested, tools, processes, sessions));
    }
    object_from(&fields)
}

/// The event of a server that has more sessions than it should.
pub open spec fn surplus_fields(maximum: usize) -> Seq<(Seq<char>, JsonView)> {
    seq![
        ("event"@, JsonView::Text("resource_limit_hit"@)),
        ("resource"@, JsonView::Text("legacy_mcp_sessions"@)),
        ("maximum"@, number_json(maximum as int)),
    ]
}

/// What is reported of the number of sessions, if it is too large.
pub fn surplus_sessions(sessions: usize, maximum: usize) -> (event: Option<JsonValue>)
    ensures
        match event {
            Some(event) => sessions > maximum && event@ == object_with(surplus_fields(maximum)) && well_ordered(
                event@,
            ),
            None => sessions <= maximum,
        },
{
    if sessions <= maximum {
        return None;
    }
    let mut fields: Vec<(String, JsonValue)> = Vec::new();
    push_field(&mut fields, "event", JsonValue::text("resource_limit_hit"));
    push_field(&mut fields, "resource", JsonValue::text("legacy_mcp_sessions"));
    push_field(&mut fields, "maximum", JsonValue::number(maximum as u64));
    proof {
        assert(fields_view(fields@) =~= surplus_fields(maximum));
    }
    Some(object_from(&fields))
}

}
