//! What events tell, and under which names.
use vstd::prelude::*;

use crate::audit::events::{
    call_event, drop_event, error_value, failure_event, object_with, optional_project,
    project_value, result_event,
};
use crate::audit::laws::object_has_the_fields_it_is_made_of;
use crate::config::{bind_text, ConfigView};
use crate::json::{field, field_from, JsonView, NumberView};
use crate::project::ContextView;
use crate::request_context::mode_name;
use crate::server::admission::{finished_event, started_event};
use crate::server::status::{
    health_fields, ready_fields, status_fields, stopped_fields, stopping_fields, surplus_fields,
    StatusFacts,
};

verus! {

/// Where the names of an object are distinct, each field is found under its name.
pub proof fn field_is_found_among_others(fields: Seq<(Seq<char>, JsonView)>, i: int)
    requires
        0 <= i < fields.len(),
        forall|a: int, b: int|
            0 <= a < b < fields.len() ==> (#[trigger] fields[a]).0 != (#[trigger] fields[b]).0,
    ensures
        field(JsonView::Object(fields), fields[i].0) == Some(fields[i].1),
{
    lemma_found_behind(fields, i, 0);
}

proof fn lemma_found_behind(fields: Seq<(Seq<char>, JsonView)>, i: int, from: int)
    requires
        0 <= from <= i < fields.len(),
        forall|a: int, b: int|
            0 <= a < b < fields.len() ==> (#[trigger] fields[a]).0 != (#[trigger] fields[b]).0,
    ensures
        field_from(fields, fields[i].0, from) == Some(fields[i].1),
    decreases i - from,
{
    if from < i {
        assert(fields[from].0 != fields[i].0);
        lemma_found_behind(fields, i, from + 1);
    }
}

/// The event of a call names the tool, the request, the project and the parameters.
pub proof fn call_event_tells_the_call(
    request_id: Seq<char>,
    tool: Seq<char>,
    project: Option<ContextView>,
    params: JsonView,
)
    ensures
        ({
            let event = call_event(request_id, tool, project, params);
            &&& field(event, "event"@) == Some(JsonView::Text("tool_call"@))
            &&& field(event, "params"@) == Some(params)
            &&& field(event, "project"@) == Some(optional_project(project))
            &&& field(event, "request_id"@) == Some(JsonView::Text(request_id))
            &&& field(event, "tool"@) == Some(JsonView::Text(tool))
        }),
{
    let fields = call_event(request_id, tool, project, params)->Object_0;
    reveal_strlit("event");
    reveal_strlit("params");
    reveal_strlit("project");
    reveal_strlit("request_id");
    reveal_strlit("tool");
    assert(fields.len() == 5);
    assert(fields[0].0 == "event"@ && fields[0].0.len() == 5 && fields[0].0[0] == 'e');
    assert(fields[1].0 == "params"@ && fields[1].0.len() == 6 && fields[1].0[0] == 'p');
    assert(fields[2].0 == "project"@ && fields[2].0.len() == 7 && fields[2].0[0] == 'p');
    assert(fields[3].0 == "request_id"@ && fields[3].0.len() == 10 && fields[3].0[0] == 'r');
    assert(fields[4].0 == "tool"@ && fields[4].0.len() == 4 && fields[4].0[0] == 't');
    assert forall|a: int, b: int| 0 <= a < b < fields.len() implies (#[trigger] fields[a]).0 != (
    #[trigger] fields[b]).0 by {
        assert(a == 0 || a == 1 || a == 2 || a == 3);
        assert(b == 1 || b == 2 || b == 3 || b == 4);
    }
    field_is_found_among_others(fields, 0);
    field_is_found_among_others(fields, 1);
    field_is_found_among_others(fields, 2);
    field_is_found_among_others(fields, 3);
    field_is_found_among_others(fields, 4);
}

/// That of a result tells besides how long it took.
#[verifier::rlimit(40)]
pub proof fn result_event_tells_the_result(
    request_id: Seq<char>,
    tool: Seq<char>,
    project: Option<ContextView>,
    duration_ms: u64,
    result: JsonView,
)
    ensures
        ({
            let event = result_event(request_id, tool, project, duration_ms, result);
            &&& field(event, "duration_ms"@) == Some(
                JsonView::Number(NumberView::Unsigned(duration_ms as u64)),
            )
            &&& field(event, "event"@) == Some(JsonView::Text("tool_result"@))
            &&& field(event, "project"@) == Some(optional_project(project))
            &&& field(event, "request_id"@) == Some(JsonView::Text(request_id))
            &&& field(event, "result"@) == Some(result)
            &&& field(event, "status"@) == Some(JsonView::Text("success"@))
            &&& field(event, "tool"@) == Some(JsonView::Text(tool))
        }),
{
    let fields = result_event(request_id, tool, project, duration_ms, result)->Object_0;
    reveal_strlit("duration_ms");
    reveal_strlit("event");
    reveal_strlit("project");
    reveal_strlit("request_id");
    reveal_strlit("result");
    reveal_strlit("status");
    reveal_strlit("tool");
    assert(fields.len() == 7);
    assert(fields[0].0 == "duration_ms"@ && fields[0].0.len() == 11 && fields[0].0[0] == 'd');
    assert(fields[1].0 == "event"@ && fields[1].0.len() == 5 && fields[1].0[0] == 'e');
    assert(fields[2].0 == "project"@ && fields[2].0.len() == 7 && fields[2].0[0] == 'p');
    assert(fields[3].0 == "request_id"@ && fields[3].0.len() == 10 && fields[3].0[0] == 'r');
    assert(fields[4].0 == "result"@ && fields[4].0.len() == 6 && fields[4].0[0] == 'r');
    assert(fields[5].0 == "status"@ && fields[5].0.len() == 6 && fields[5].0[0] == 's');
    assert(fields[6].0 == "tool"@ && fields[6].0.len() == 4 && fields[6].0[0] == 't');
    assert forall|a: int, b: int| 0 <= a < b < fields.len() implies (#[trigger] fields[a]).0 != (
    #[trigger] fields[b]).0 by {
        assert(a == 0 || a == 1 || a == 2 || a == 3 || a == 4 || a == 5);
        assert(b == 1 || b == 2 || b == 3 || b == 4 || b == 5 || b == 6);
    }
    field_is_found_among_others(fields, 0);
    field_is_found_among_others(fields, 1);
    field_is_found_among_others(fields, 2);
    field_is_found_among_others(fields, 3);
    field_is_found_among_others(fields, 4);
    field_is_found_among_others(fields, 5);
    field_is_found_among_others(fields, 6);
}

/// That of a failure tells the error; a timeout has a name of its own.
#[verifier::rlimit(40)]
pub proof fn failure_event_tells_the_error(
    request_id: Seq<char>,
    tool: Seq<char>,
    project: Option<ContextView>,
    duration_ms: u64,
    code: Seq<char>,
    message: Seq<char>,
)
    ensures
        ({
            let event = failure_event(request_id, tool, project, duration_ms, code, message);
            &&& field(event, "duration_ms"@) == Some(
                JsonView::Number(NumberView::Unsigned(duration_ms as u64)),
            )
            &&& field(event, "error"@) == Some(error_value(code, message))
            &&& field(event, "event"@) == Some(
                JsonView::Text(
                    if code == "PROCESS_TIMEOUT"@ {
                        "tool_timeout"@
                    } else {
                        "tool_error"@
                    },
                ),
            )
            &&& field(event, "project"@) == Some(optional_project(project))
            &&& field(event, "request_id"@) == Some(JsonView::Text(request_id))
            &&& field(event, "status"@) == Some(JsonView::Text("error"@))
            &&& field(event, "tool"@) == Some(JsonView::Text(tool))
        }),
{
    let fields = failure_event(request_id, tool, project, duration_ms, code, message)->Object_0;
    reveal_strlit("duration_ms");
    reveal_strlit("error");
    reveal_strlit("event");
    reveal_strlit("project");
    reveal_strlit("request_id");
    reveal_strlit("status");
    reveal_strlit("tool");
    assert(fields.len() == 7);
    assert(fields[0].0 == "duration_ms"@ && fields[0].0.len() == 11 && fields[0].0[0] == 'd');
    assert(fields[1].0 == "error"@ && fields[1].0.len() == 5 && fields[1].0[0] == 'e');
    assert(fields[2].0 == "event"@ && fields[2].0.len() == 5 && fields[2].0[0] == 'e');
    assert(fields[3].0 == "project"@ && fields[3].0.len() == 7 && fields[3].0[0] == 'p');
    assert(fields[4].0 == "request_id"@ && fields[4].0.len() == 10 && fields[4].0[0] == 'r');
    assert(fields[5].0 == "status"@ && fields[5].0.len() == 6 && fields[5].0[0] == 's');
    assert(fields[6].0 == "tool"@ && fields[6].0.len() == 4 && fields[6].0[0] == 't');
    assert(fields[1].0[1] != fields[2].0[1]);
    assert forall|a: int, b: int| 0 <= a < b < fields.len() implies (#[trigger] fields[a]).0 != (
    #[trigger] fields[b]).0 by {
        assert(a == 0 || a == 1 || a == 2 || a == 3 || a == 4 || a == 5);
        assert(b == 1 || b == 2 || b == 3 || b == 4 || b == 5 || b == 6);
    }
    field_is_found_among_others(fields, 0);
    field_is_found_among_others(fields, 1);
    field_is_found_among_others(fields, 2);
    field_is_found_among_others(fields, 3);
    field_is_found_among_others(fields, 4);
    field_is_found_among_others(fields, 5);
    field_is_found_among_others(fields, 6);
}

/// An error has its code and its message.
pub proof fn error_has_code_and_message(code: Seq<char>, message: Seq<char>)
    ensures
        ({
            let event = error_value(code, message);
            &&& field(event, "code"@) == Some(JsonView::Text(code))
            &&& field(event, "message"@) == Some(JsonView::Text(message))
        }),
{
    let fields = error_value(code, message)->Object_0;
    reveal_strlit("code");
    reveal_strlit("message");
    assert(fields.len() == 2);
    assert(fields[0].0 == "code"@ && fields[0].0.len() == 4 && fields[0].0[0] == 'c');
    assert(fields[1].0 == "message"@ && fields[1].0.len() == 7 && fields[1].0[0] == 'm');
    assert forall|a: int, b: int| 0 <= a < b < fields.len() implies (#[trigger] fields[a]).0 != (
    #[trigger] fields[b]).0 by {
        assert(a == 0);
        assert(b == 1);
    }
    field_is_found_among_others(fields, 0);
    field_is_found_among_others(fields, 1);
}

/// A project is named by its alias, if it has one, its keys, and how it was reached.
pub proof fn event_names_the_project(project: ContextView)
    ensures
        ({
            let event = optional_project(Some(project));
            &&& field(event, "alias"@) == Some(
                match project.project_alias {
                    Some(alias) => JsonView::Text(alias),
                    None => JsonView::Null,
                },
            )
            &&& field(event, "effective_key"@) == Some(
                JsonView::Text(project.effective_project_key),
            )
            &&& field(event, "native_key"@) == Some(JsonView::Text(project.native_project_key))
            &&& field(event, "transport_mode"@) == Some(
                JsonView::Text(mode_name(project.transport_mode)),
            )
        }),
{
    let fields = project_value(project)->Object_0;
    reveal_strlit("alias");
    reveal_strlit("effective_key");
    reveal_strlit("native_key");
    reveal_strlit("transport_mode");
    assert(fields.len() == 4);
    assert(fields[0].0 == "alias"@ && fields[0].0.len() == 5 && fields[0].0[0] == 'a');
    assert(fields[1].0 == "effective_key"@ && fields[1].0.len() == 13 && fields[1].0[0] == 'e');
    assert(fields[2].0 == "native_key"@ && fields[2].0.len() == 10 && fields[2].0[0] == 'n');
    assert(fields[3].0 == "transport_mode"@ && fields[3].0.len() == 14 && fields[3].0[0] == 't');
    assert forall|a: int, b: int| 0 <= a < b < fields.len() implies (#[trigger] fields[a]).0 != (
    #[trigger] fields[b]).0 by {
        assert(a == 0 || a == 1 || a == 2);
        assert(b == 1 || b == 2 || b == 3);
    }
    field_is_found_among_others(fields, 0);
    field_is_found_among_others(fields, 1);
    field_is_found_among_others(fields, 2);
    field_is_found_among_others(fields, 3);
}

/// The event of a request that was let in tells the method and how many are at work.
pub proof fn request_event_tells_the_request(method: Seq<char>, active: usize)
    ensures
        ({
            let event = started_event(method, active);
            &&& field(event, "active_requests"@) == Some(
                JsonView::Number(NumberView::Unsigned(active as u64)),
            )
            &&& field(event, "endpoint"@) == Some(JsonView::Text("/[REDACTED]/mcp"@))
            &&& field(event, "event"@) == Some(JsonView::Text("mcp_request_started"@))
            &&& field(event, "method"@) == Some(JsonView::Text(method))
        }),
{
    let fields = started_event(method, active)->Object_0;
    reveal_strlit("active_requests");
    reveal_strlit("endpoint");
    reveal_strlit("event");
    reveal_strlit("method");
    assert(fields.len() == 4);
    assert(fields[0].0 == "active_requests"@ && fields[0].0.len() == 15 && fields[0].0[0] == 'a');
    assert(fields[1].0 == "endpoint"@ && fields[1].0.len() == 8 && fields[1].0[0] == 'e');
    assert(fields[2].0 == "event"@ && fields[2].0.len() == 5 && fields[2].0[0] == 'e');
    assert(fields[3].0 == "method"@ && fields[3].0.len() == 6 && fields[3].0[0] == 'm');
    assert forall|a: int, b: int| 0 <= a < b < fields.len() implies (#[trigger] fields[a]).0 != (
    #[trigger] fields[b]).0 by {
        assert(a == 0 || a == 1 || a == 2);
        assert(b == 1 || b == 2 || b == 3);
    }
    field_is_found_among_others(fields, 0);
    field_is_found_among_others(fields, 1);
    field_is_found_among_others(fields, 2);
    field_is_found_among_others(fields, 3);
}

/// That of an answer tells its status, how long it took, and how many others are at work.
pub proof fn answer_event_tells_the_answer(
    method: Seq<char>,
    status: u16,
    duration_ms: u64,
    active: usize,
)
    ensures
        ({
            let event = finished_event(method, status, duration_ms, active);
            &&& field(event, "active_requests"@) == Some(
                JsonView::Number(NumberView::Unsigned((if active > 0 {
                    active - 1
                } else {
                    0
                }) as u64)),
            )
            &&& field(event, "duration_ms"@) == Some(
                JsonView::Number(NumberView::Unsigned(duration_ms as u64)),
            )
            &&& field(event, "endpoint"@) == Some(JsonView::Text("/[REDACTED]/mcp"@))
            &&& field(event, "event"@) == Some(JsonView::Text("mcp_request_finished"@))
            &&& field(event, "method"@) == Some(JsonView::Text(method))
            &&& field(event, "status_code"@) == Some(
                JsonView::Number(NumberView::Unsigned(status as u64)),
            )
        }),
{
    let fields = finished_event(method, status, duration_ms, active)->Object_0;
    reveal_strlit("active_requests");
    reveal_strlit("duration_ms");
    reveal_strlit("endpoint");
    reveal_strlit("event");
    reveal_strlit("method");
    reveal_strlit("status_code");
    assert(fields.len() == 6);
    assert(fields[0].0 == "active_requests"@ && fields[0].0.len() == 15 && fields[0].0[0] == 'a');
    assert(fields[1].0 == "duration_ms"@ && fields[1].0.len() == 11 && fields[1].0[0] == 'd');
    assert(fields[2].0 == "endpoint"@ && fields[2].0.len() == 8 && fields[2].0[0] == 'e');
    assert(fields[3].0 == "event"@ && fields[3].0.len() == 5 && fields[3].0[0] == 'e');
    assert(fields[4].0 == "method"@ && fields[4].0.len() == 6 && fields[4].0[0] == 'm');
    assert(fields[5].0 == "status_code"@ && fields[5].0.len() == 11 && fields[5].0[0] == 's');
    assert forall|a: int, b: int| 0 <= a < b < fields.len() implies (#[trigger] fields[a]).0 != (
    #[trigger] fields[b]).0 by {
        assert(a == 0 || a == 1 || a == 2 || a == 3 || a == 4);
        assert(b == 1 || b == 2 || b == 3 || b == 4 || b == 5);
    }
    field_is_found_among_others(fields, 0);
    field_is_found_among_others(fields, 1);
    field_is_found_among_others(fields, 2);
    field_is_found_among_others(fields, 3);
    field_is_found_among_others(fields, 4);
    field_is_found_among_others(fields, 5);
}

/// The event of dropped events tells how many there were.
pub proof fn drop_event_tells_the_number(count: u64)
    ensures
        ({
            let event = drop_event(count);
            &&& field(event, "count"@) == Some(JsonView::Number(NumberView::Unsigned(count as u64)))
            &&& field(event, "event"@) == Some(JsonView::Text("log_events_dropped"@))
        }),
{
    let fields = drop_event(count)->Object_0;
    reveal_strlit("count");
    reveal_strlit("event");
    assert(fields.len() == 2);
    assert(fields[0].0 == "count"@ && fields[0].0.len() == 5 && fields[0].0[0] == 'c');
    assert(fields[1].0 == "event"@ && fields[1].0.len() == 5 && fields[1].0[0] == 'e');
    assert forall|a: int, b: int| 0 <= a < b < fields.len() implies (#[trigger] fields[a]).0 != (
    #[trigger] fields[b]).0 by {
        assert(a == 0);
        assert(b == 1);
    }
    field_is_found_among_others(fields, 0);
    field_is_found_among_others(fields, 1);
}

/// The server's health: requests at work and open sessions.
pub proof fn health_tells_the_load(active_requests: usize, sessions: usize)
    ensures
        ({
            let event = object_with(health_fields(active_requests, sessions));
            &&& field(event, "status"@) == Some(JsonView::Text("ok"@))
            &&& field(event, "active_requests"@) == Some(
                JsonView::Number(NumberView::Unsigned(active_requests as u64)),
            )
            &&& field(event, "active_legacy_mcp_sessions"@) == Some(
                JsonView::Number(NumberView::Unsigned(sessions as u64)),
            )
        }),
{
    let fields = health_fields(active_requests, sessions);
    reveal_strlit("status");
    reveal_strlit("active_requests");
    reveal_strlit("active_legacy_mcp_sessions");
    assert(fields.len() == 3);
    assert(fields[0].0 == "status"@ && fields[0].0.len() == 6 && fields[0].0[0] == 's');
    assert(fields[1].0 == "active_requests"@ && fields[1].0.len() == 15 && fields[1].0[0] == 'a');
    assert(fields[2].0 == "active_legacy_mcp_sessions"@ && fields[2].0.len() == 26
        && fields[2].0[0] == 'a');
    assert forall|a: int, b: int| 0 <= a < b < fields.len() implies (#[trigger] fields[a]).0 != (
    #[trigger] fields[b]).0 by {
        assert(a == 0 || a == 1);
        assert(b == 1 || b == 2);
    }
    object_has_the_fields_it_is_made_of(fields, 0);
    object_has_the_fields_it_is_made_of(fields, 1);
    object_has_the_fields_it_is_made_of(fields, 2);
}

/// The server's status: each count under its name.
#[verifier::rlimit(40)]
pub proof fn status_tells_each_count(facts: StatusFacts)
    ensures
        ({
            let event = object_with(status_fields(facts));
            &&& field(event, "event"@) == Some(JsonView::Text("daemon_status"@))
            &&& field(event, "active_requests"@) == Some(
                JsonView::Number(NumberView::Unsigned(facts.active_requests as u64)),
            )
            &&& field(event, "active_processes"@) == Some(
                JsonView::Number(NumberView::Unsigned(facts.active_processes as u64)),
            )
            &&& field(event, "active_legacy_mcp_sessions"@) == Some(
                JsonView::Number(NumberView::Unsigned(facts.active_sessions as u64)),
            )
            &&& field(event, "running_tools"@) == Some(
                JsonView::Number(NumberView::Unsigned(facts.running_tools as u64)),
            )
            &&& field(event, "tracked_process_tasks"@) == Some(
                JsonView::Number(NumberView::Unsigned(facts.tracked_process_tasks as u64)),
            )
            &&& field(event, "project_cache_entries"@) == Some(
                JsonView::Number(NumberView::Unsigned(facts.project_cache_entries as u64)),
            )
            &&& field(event, "dropped_log_events"@) == Some(
                JsonView::Number(NumberView::Unsigned(facts.dropped_log_events as u64)),
            )
            &&& field(event, "log_queue_capacity"@) == Some(
                JsonView::Number(NumberView::Unsigned(facts.log_queue_capacity as u64)),
            )
            &&& field(event, "log_queue_bytes_available"@) == Some(
                JsonView::Number(NumberView::Unsigned(facts.log_queue_bytes_available as u64)),
            )
        }),
{
    let fields = status_fields(facts);
    reveal_strlit("event");
    reveal_strlit("active_requests");
    reveal_strlit("active_processes");
    reveal_strlit("active_legacy_mcp_sessions");
    reveal_strlit("running_tools");
    reveal_strlit("tracked_process_tasks");
    reveal_strlit("project_cache_entries");
    reveal_strlit("dropped_log_events");
    reveal_strlit("log_queue_capacity");
    reveal_strlit("log_queue_bytes_available");
    assert(fields.len() == 10);
    assert(fields[0].0 == "event"@ && fields[0].0.len() == 5 && fields[0].0[0] == 'e');
    assert(fields[1].0 == "active_requests"@ && fields[1].0.len() == 15 && fields[1].0[0] == 'a');
    assert(fields[2].0 == "active_processes"@ && fields[2].0.len() == 16 && fields[2].0[0] == 'a');
    assert(fields[3].0 == "active_legacy_mcp_sessions"@ && fields[3].0.len() == 26
        && fields[3].0[0] == 'a');
    assert(fields[4].0 == "running_tools"@ && fields[4].0.len() == 13 && fields[4].0[0] == 'r');
    assert(fields[5].0 == "tracked_process_tasks"@ && fields[5].0.len() == 21
        && fields[5].0[0] == 't');
    assert(fields[6].0 == "project_cache_entries"@ && fields[6].0.len() == 21
        && fields[6].0[0] == 'p');
    assert(fields[7].0 == "dropped_log_events"@ && fields[7].0.len() == 18
        && fields[7].0[0] == 'd');
    assert(fields[8].0 == "log_queue_capacity"@ && fields[8].0.len() == 18
        && fields[8].0[0] == 'l');
    assert(fields[9].0 == "log_queue_bytes_available"@ && fields[9].0.len() == 25
        && fields[9].0[0] == 'l');
    assert forall|a: int, b: int| 0 <= a < b < fields.len() implies (#[trigger] fields[a]).0 != (
    #[trigger] fields[b]).0 by {
        assert(a == 0 || a == 1 || a == 2 || a == 3 || a == 4 || a == 5 || a == 6 || a == 7
            || a == 8);
        assert(b == 1 || b == 2 || b == 3 || b == 4 || b == 5 || b == 6 || b == 7 || b == 8
            || b == 9);
    }
    object_has_the_fields_it_is_made_of(fields, 0);
    object_has_the_fields_it_is_made_of(fields, 1);
    object_has_the_fields_it_is_made_of(fields, 2);
    object_has_the_fields_it_is_made_of(fields, 3);
    object_has_the_fields_it_is_made_of(fields, 4);
    object_has_the_fields_it_is_made_of(fields, 5);
    object_has_the_fields_it_is_made_of(fields, 6);
    object_has_the_fields_it_is_made_of(fields, 7);
    object_has_the_fields_it_is_made_of(fields, 8);
    object_has_the_fields_it_is_made_of(fields, 9);
}

/// A server that stops: what still runs.
pub proof fn stopping_tells_what_runs(facts: StatusFacts)
    ensures
        ({
            let event = object_with(stopping_fields(facts));
            &&& field(event, "event"@) == Some(JsonView::Text("server_stopping"@))
            &&& field(event, "active_requests"@) == Some(
                JsonView::Number(NumberView::Unsigned(facts.active_requests as u64)),
            )
            &&& field(event, "active_processes"@) == Some(
                JsonView::Number(NumberView::Unsigned(facts.active_processes as u64)),
            )
            &&& field(event, "active_legacy_mcp_sessions"@) == Some(
                JsonView::Number(NumberView::Unsigned(facts.active_sessions as u64)),
            )
        }),
{
    let fields = stopping_fields(facts);
    reveal_strlit("event");
    reveal_strlit("active_requests");
    reveal_strlit("active_processes");
    reveal_strlit("active_legacy_mcp_sessions");
    assert(fields.len() == 4);
    assert(fields[0].0 == "event"@ && fields[0].0.len() == 5 && fields[0].0[0] == 'e');
    assert(fields[1].0 == "active_requests"@ && fields[1].0.len() == 15 && fields[1].0[0] == 'a');
    assert(fields[2].0 == "active_processes"@ && fields[2].0.len() == 16 && fields[2].0[0] == 'a');
    assert(fields[3].0 == "active_legacy_mcp_sessions"@ && fields[3].0.len() == 26
        && fields[3].0[0] == 'a');
    assert forall|a: int, b: int| 0 <= a < b < fields.len() implies (#[trigger] fields[a]).0 != (
    #[trigger] fields[b]).0 by {
        assert(a == 0 || a == 1 || a == 2);
        assert(b == 1 || b == 2 || b == 3);
    }
    object_has_the_fields_it_is_made_of(fields, 0);
    object_has_the_fields_it_is_made_of(fields, 1);
    object_has_the_fields_it_is_made_of(fields, 2);
    object_has_the_fields_it_is_made_of(fields, 3);
}

/// A server that has stopped: what it left behind.
pub proof fn stopped_tells_what_is_left(
    requested: usize,
    tools: usize,
    processes: usize,
    sessions: usize,
)
    ensures
        ({
            let event = object_with(stopped_fields(requested, tools, processes, sessions));
            &&& field(event, "event"@) == Some(JsonView::Text("server_stopped"@))
            &&& field(event, "shutdown_requested_processes"@) == Some(
                JsonView::Number(NumberView::Unsigned(requested as u64)),
            )
            &&& field(event, "remaining_tasks"@) == Some(
                JsonView::Number(NumberView::Unsigned(tools as u64)),
            )
            &&& field(event, "remaining_processes"@) == Some(
                JsonView::Number(NumberView::Unsigned(processes as u64)),
            )
            &&& field(event, "remaining_sessions"@) == Some(
                JsonView::Number(NumberView::Unsigned(sessions as u64)),
            )
        }),
{
    let fields = stopped_fields(requested, tools, processes, sessions);
    reveal_strlit("event");
    reveal_strlit("shutdown_requested_processes");
    reveal_strlit("remaining_tasks");
    reveal_strlit("remaining_processes");
    reveal_strlit("remaining_sessions");
    assert(fields.len() == 5);
    assert(fields[0].0 == "event"@ && fields[0].0.len() == 5 && fields[0].0[0] == 'e');
    assert(fields[1].0 == "shutdown_requested_processes"@ && fields[1].0.len() == 28
        && fields[1].0[0] == 's');
    assert(fields[2].0 == "remaining_tasks"@ && fields[2].0.len() == 15 && fields[2].0[0] == 'r');
    assert(fields[3].0 == "remaining_processes"@ && fields[3].0.len() == 19
        && fields[3].0[0] == 'r');
    assert(fields[4].0 == "remaining_sessions"@ && fields[4].0.len() == 18
        && fields[4].0[0] == 'r');
    assert forall|a: int, b: int| 0 <= a < b < fields.len() implies (#[trigger] fields[a]).0 != (
    #[trigger] fields[b]).0 by {
        assert(a == 0 || a == 1 || a == 2 || a == 3);
        assert(b == 1 || b == 2 || b == 3 || b == 4);
    }
    object_has_the_fields_it_is_made_of(fields, 0);
    object_has_the_fields_it_is_made_of(fields, 1);
    object_has_the_fields_it_is_made_of(fields, 2);
    object_has_the_fields_it_is_made_of(fields, 3);
    object_has_the_fields_it_is_made_of(fields, 4);
}

/// Too many sessions: what there are too many of, and how many there may be.
pub proof fn surplus_tells_the_limit(maximum: usize)
    ensures
        ({
            let event = object_with(surplus_fields(maximum));
            &&& field(event, "event"@) == Some(JsonView::Text("resource_limit_hit"@))
            &&& field(event, "resource"@) == Some(JsonView::Text("legacy_mcp_sessions"@))
            &&& field(event, "maximum"@) == Some(
                JsonView::Number(NumberView::Unsigned(maximum as u64)),
            )
        }),
{
    let fields = surplus_fields(maximum);
    reveal_strlit("event");
    reveal_strlit("resource");
    reveal_strlit("maximum");
    assert(fields.len() == 3);
    assert(fields[0].0 == "event"@ && fields[0].0.len() == 5 && fields[0].0[0] == 'e');
    assert(fields[1].0 == "resource"@ && fields[1].0.len() == 8 && fields[1].0[0] == 'r');
    assert(fields[2].0 == "maximum"@ && fields[2].0.len() == 7 && fields[2].0[0] == 'm');
    assert forall|a: int, b: int| 0 <= a < b < fields.len() implies (#[trigger] fields[a]).0 != (
    #[trigger] fields[b]).0 by {
        assert(a == 0 || a == 1);
        assert(b == 1 || b == 2);
    }
    object_has_the_fields_it_is_made_of(fields, 0);
    object_has_the_fields_it_is_made_of(fields, 1);
    object_has_the_fields_it_is_made_of(fields, 2);
}

/// A server that is ready: where it is found, and the tools that it offers, its own and those
/// of others.
#[verifier::rlimit(40)]
pub proof fn ready_tells_the_tools(config: ConfigView, native_tools: usize, upstream_tools: usize)
    ensures
        ({
            let event = object_with(ready_fields(config, native_tools, upstream_tools));
            &&& field(event, "event"@) == Some(JsonView::Text("server_started"@))
            &&& field(event, "bind"@) == Some(JsonView::Text(bind_text(config.bind)))
            &&& field(event, "endpoint"@) == Some(JsonView::Text("/[REDACTED]/mcp"@))
            &&& field(event, "workspace_root"@) == Some(JsonView::Text(config.workspace_root))
            &&& field(event, "logs"@) == Some(JsonView::Text(config.logs.root))
            &&& field(event, "stateless_mcp"@) == Some(JsonView::Bool(true))
            &&& field(event, "legacy_stateful_mcp"@) == Some(JsonView::Bool(true))
            &&& field(event, "yolo_tools"@) == Some(JsonView::Bool(true))
            &&& field(event, "native_tools"@) == Some(
                JsonView::Number(NumberView::Unsigned(native_tools as u64)),
            )
            &&& field(event, "upstream_tools"@) == Some(
                JsonView::Number(NumberView::Unsigned(upstream_tools as u64)),
            )
            &&& field(event, "exposed_tools"@) == Some(
                JsonView::Number(NumberView::Unsigned((native_tools + upstream_tools) as u64)),
            )
            &&& field(event, "max_concurrent_tools"@) == Some(
                JsonView::Number(NumberView::Unsigned(config.limits.max_concurrent_tools as u64)),
            )
            &&& field(event, "max_concurrent_processes"@) == Some(
                JsonView::Number(NumberView::Unsigned(config.limits.max_concurrent_processes as u64)),
            )
        }),
{
    let fields = ready_fields(config, native_tools, upstream_tools);
    reveal_strlit("event");
    reveal_strlit("bind");
    reveal_strlit("endpoint");
    reveal_strlit("workspace_root");
    reveal_strlit("logs");
    reveal_strlit("stateless_mcp");
    reveal_strlit("legacy_stateful_mcp");
    reveal_strlit("yolo_tools");
    reveal_strlit("native_tools");
    reveal_strlit("upstream_tools");
    reveal_strlit("exposed_tools");
    reveal_strlit("max_concurrent_tools");
    reveal_strlit("max_concurrent_processes");
    assert(fields.len() == 13);
    assert(fields[0].0 == "event"@ && fields[0].0.len() == 5 && fields[0].0[0] == 'e');
    assert(fields[1].0 == "bind"@ && fields[1].0.len() == 4 && fields[1].0[0] == 'b');
    assert(fields[2].0 == "endpoint"@ && fields[2].0.len() == 8 && fields[2].0[0] == 'e');
    assert(fields[3].0 == "workspace_root"@ && fields[3].0.len() == 14 && fields[3].0[0] == 'w');
    assert(fields[4].0 == "logs"@ && fields[4].0.len() == 4 && fields[4].0[0] == 'l');
    assert(fields[5].0 == "stateless_mcp"@ && fields[5].0.len() == 13 && fields[5].0[0] == 's');
    assert(fields[6].0 == "legacy_stateful_mcp"@ && fields[6].0.len() == 19
        && fields[6].0[0] == 'l');
    assert(fields[7].0 == "yolo_tools"@ && fields[7].0.len() == 10 && fields[7].0[0] == 'y');
    assert(fields[8].0 == "native_tools"@ && fields[8].0.len() == 12 && fields[8].0[0] == 'n');
    assert(fields[9].0 == "upstream_tools"@ && fields[9].0.len() == 14 && fields[9].0[0] == 'u');
    assert(fields[10].0 == "exposed_tools"@ && fields[10].0.len() == 13 && fields[10].0[0] == 'e');
    assert(fields[11].0 == "max_concurrent_tools"@ && fields[11].0.len() == 20
        && fields[11].0[0] == 'm');
    assert(fields[12].0 == "max_concurrent_processes"@ && fields[12].0.len() == 24
        && fields[12].0[0] == 'm');
    assert forall|a: int, b: int| 0 <= a < b < fields.len() implies (#[trigger] fields[a]).0 != (
    #[trigger] fields[b]).0 by {
        assert(a == 0 || a == 1 || a == 2 || a == 3 || a == 4 || a == 5 || a == 6 || a == 7
            || a == 8 || a == 9 || a == 10 || a == 11);
        assert(b == 1 || b == 2 || b == 3 || b == 4 || b == 5 || b == 6 || b == 7 || b == 8
            || b == 9 || b == 10 || b == 11 || b == 12);
    }
    object_has_the_fields_it_is_made_of(fields, 0);
    object_has_the_fields_it_is_made_of(fields, 1);
    object_has_the_fields_it_is_made_of(fields, 2);
    object_has_the_fields_it_is_made_of(fields, 3);
    object_has_the_fields_it_is_made_of(fields, 4);
    object_has_the_fields_it_is_made_of(fields, 5);
    object_has_the_fields_it_is_made_of(fields, 6);
    object_has_the_fields_it_is_made_of(fields, 7);
    object_has_the_fields_it_is_made_of(fields, 8);
    object_has_the_fields_it_is_made_of(fields, 9);
    object_has_the_fields_it_is_made_of(fields, 10);
    object_has_the_fields_it_is_made_of(fields, 11);
    object_has_the_fields_it_is_made_of(fields, 12);
}

}
