//! Which requests are let in.
use vstd::prelude::*;
use vstd::utf8::encode_utf8_decode_utf8;

use crate::audit::events::{error_json, error_value};
use crate::config::AuthMode;
use crate::audit::events::lemma_error_ordered;
use crate::audit::redact::number_json;
use crate::json::{lemma_object_ordered, push_field, well_ordered, JsonValue, JsonView};
use crate::search::{has_prefix, split, split_text, starts_with, texts};
use crate::text::{
    from_chars, opt_str_view, opt_view, parse_unsigned, text_less, to_chars, unsigned_number,
};

verus! {

/// `ct_eq` of subtle's `ConstantTimeEq` for slices: whether they hold the same
/// bytes. That the time it takes tells nothing of them is not stated.
#[verifier::external_body]
fn constant_time_eq(a: &[u8], b: &[u8]) -> (same: bool)
    ensures
        same == (a@ == b@),
{
    subtle::ConstantTimeEq::ct_eq(a, b).into()
}

/// Whether a token is the expected one.
pub fn token_matches(candidate: &str, expected: &str) -> (same: bool)
    ensures
        same == (candidate@ == expected@),
{
    proof {
        encode_utf8_decode_utf8(candidate@);
        encode_utf8_decode_utf8(expected@);
    }
    candidate.as_bytes().len() == expected.as_bytes().len() && constant_time_eq(
        candidate.as_bytes(),
        expected.as_bytes(),
    )
}

/// Whether a request carries the token where it is looked for.
pub open spec fn authenticated(
    mode: AuthMode,
    path_token: Seq<char>,
    bearer_token: Option<Seq<char>>,
    expected: Seq<char>,
) -> bool {
    match mode {
        AuthMode::Path => path_token == expected,
        AuthMode::Bearer => bearer_token == Some(expected),
        AuthMode::Either => path_token == expected || bearer_token == Some(expected),
    }
}

pub fn auth_matches(
    mode: AuthMode,
    path_candidate: &str,
    bearer_candidate: Option<&str>,
    expected: &str,
) -> (r: bool)
    ensures
        r == authenticated(mode, path_candidate@, opt_str_view(bearer_candidate), expected@),
{
    let in_path = token_matches(path_candidate, expected);
    let in_header = match bearer_candidate {
        Some(candidate) => token_matches(candidate, expected),
        None => false,
    };
    match mode {
        AuthMode::Path => in_path,
        AuthMode::Bearer => in_header,
        AuthMode::Either => in_path || in_header,
    }
}

/// A text without the slashes at its start.
pub open spec fn after_slashes(path: Seq<char>) -> Seq<char>
    decreases path.len(),
{
    if path.len() > 0 && path[0] == '/' {
        after_slashes(path.skip(1))
    } else {
        path
    }
}

/// The first part of a path.
pub open spec fn first_segment(path: Seq<char>) -> Seq<char> {
    split(after_slashes(path), '/')[0]
}

/// The part of a request's path that may be a token.
pub fn path_token(path: &str) -> (token: String)
    ensures
        token@ == first_segment(path@),
{
    let chars = to_chars(path);
    let mut start: usize = 0;
    proof {
        assert(chars@.skip(0) =~= path@);
    }
    while start < chars.len() && chars[start] == '/'
        invariant
            start <= chars@.len(),
            chars@ == path@,
            after_slashes(path@) == after_slashes(chars@.skip(start as int)),
        decreases chars.len() - start,
    {
        proof {
            assert(chars@.skip(start as int).skip(1) =~= chars@.skip(start + 1));
        }
        start += 1;
    }
    proof {
        assert(chars@.subrange(start as int, chars@.len() as int) =~= chars@.skip(start as int));
    }
    let rest = from_chars(&chars, start, chars.len());
    let parts = split_text(rest.as_str(), '/');
    proof {
        crate::search::lemma_split_not_empty(rest@, '/');
        assert(parts@.len() == texts(parts@).len());
        assert(texts(parts@)[0] == parts@[0]@);
    }
    parts[0].clone()
}

/// The token of an authorization header.
pub open spec fn bearer_of(header: Option<Seq<char>>) -> Option<Seq<char>> {
    match header {
        Some(value) if starts_with(value, "Bearer "@) => Some(value.skip(7)),
        _ => None,
    }
}

pub fn bearer_token(header: Option<&str>) -> (token: Option<String>)
    ensures
        opt_view(token) == bearer_of(opt_str_view(header)),
{
    match header {
        Some(value) => if has_prefix(value, "Bearer ") {
            let chars = to_chars(value);
            proof {
                reveal_strlit("Bearer ");
                assert(chars@.subrange(7, chars@.len() as int) =~= value@.skip(7));
            }
            Some(from_chars(&chars, 7, chars.len()))
        } else {
            None
        },
        None => None,
    }
}

/// The date that a protocol version is named by: year, month, day.
pub open spec fn version_date(version: Seq<char>) -> Option<(int, int, int)> {
    let parts = split(version, '-');
    if parts.len() == 3 {
        match (
            unsigned_number(parts[0], 10, u16::MAX as int),
            unsigned_number(parts[1], 10, u8::MAX as int),
            unsigned_number(parts[2], 10, u8::MAX as int),
        ) {
            (Some(year), Some(month), Some(day)) => if 1 <= month <= 12 && 1 <= day <= 31 {
                Some((year, month, day))
            } else {
                None
            },
            _ => None,
        }
    } else {
        None
    }
}

/// Protocol versions from 2026-07-28 on need no session.
pub open spec fn modern_protocol(version: Seq<char>) -> bool {
    match version_date(version) {
        Some((year, month, day)) => year > 2026 || (year == 2026 && (month > 7 || (month == 7
            && day >= 28))),
        None => false,
    }
}

pub fn is_modern_stateless_protocol(version: &str) -> (r: bool)
    ensures
        r == modern_protocol(version@),
{
    let parts = split_text(version, '-');
    proof {
        assert(parts@.len() == texts(parts@).len());
    }
    if parts.len() != 3 {
        return false;
    }
    proof {
        assert(texts(parts@)[0] == parts@[0]@);
        assert(texts(parts@)[1] == parts@[1]@);
        assert(texts(parts@)[2] == parts@[2]@);
    }
    match (
        parse_unsigned(parts[0].as_str(), 10, 65_535),
        parse_unsigned(parts[1].as_str(), 10, 255),
        parse_unsigned(parts[2].as_str(), 10, 255),
    ) {
        (Some(year), Some(month), Some(day)) => {
            if month < 1 || month > 12 || day < 1 || day > 31 {
                return false;
            }
            year > 2026 || (year == 2026 && (month > 7 || (month == 7 && day >= 28)))
        },
        _ => false,
    }
}

/// What is known of a request and of the server when it comes.
#[derive(Clone, Copy)]
pub struct RequestFacts<'a> {
    pub path: &'a str,
    pub authorization: Option<&'a str>,
    pub protocol_version: Option<&'a str>,
    pub has_session: bool,
    pub sessions: usize,
    pub active_requests: usize,
}

pub struct FactsView {
    pub path: Seq<char>,
    pub authorization: Option<Seq<char>>,
    pub protocol_version: Option<Seq<char>>,
    pub has_session: bool,
    pub sessions: nat,
    pub active_requests: nat,
}

impl<'a> View for RequestFacts<'a> {
    type V = FactsView;

    open spec fn view(&self) -> FactsView {
        FactsView {
            path: self.path@,
            authorization: opt_str_view(self.authorization),
            protocol_version: opt_str_view(self.protocol_version),
            has_session: self.has_session,
            sessions: self.sessions as nat,
            active_requests: self.active_requests as nat,
        }
    }
}

/// What becomes of a request.
#[derive(Clone, Copy, Debug, PartialEq, Eq, Structural)]
pub enum Admission {
    Unauthorized,
    SessionsBusy,
    RequestsBusy,
    Admitted,
}

pub open spec fn request_authenticated(mode: AuthMode, token: Seq<char>, facts: FactsView) -> bool {
    authenticated(mode, first_segment(facts.path), bearer_of(facts.authorization), token)
}

/// Whether a request opens a session: it belongs to none, and its protocol
/// needs one.
pub open spec fn opens_session(facts: FactsView) -> bool {
    !facts.has_session && !(facts.protocol_version is Some && modern_protocol(
        facts.protocol_version->0,
    ))
}

/// Which requests are let in: those that carry the token, open no session over
/// the limit, and are not too many at once.
pub open spec fn admission(
    mode: AuthMode,
    token: Seq<char>,
    facts: FactsView,
    max_sessions: nat,
    max_active: nat,
) -> Admission {
    if !request_authenticated(mode, token, facts) {
        Admission::Unauthorized
    } else if opens_session(facts) && facts.sessions >= max_sessions {
        Admission::SessionsBusy
    } else if facts.active_requests >= max_active {
        Admission::RequestsBusy
    } else {
        Admission::Admitted
    }
}

/// Whether a request carries the token. Only then is anything else done for it.
pub fn authenticate(mode: AuthMode, token: &str, facts: RequestFacts<'_>) -> (r: bool)
    ensures
        r == request_authenticated(mode, token@, facts@),
{
    let in_path = path_token(facts.path);
    let in_header = bearer_token(facts.authorization);
    auth_matches(mode, in_path.as_str(), crate::text::opt_str(&in_header), token)
}

/// Decide on a request.
pub fn decide(
    mode: AuthMode,
    token: &str,
    facts: RequestFacts<'_>,
    max_sessions: usize,
    max_active: usize,
) -> (verdict: Admission)
    ensures
        verdict == admission(mode, token@, facts@, max_sessions as nat, max_active as nat),
{
    if !authenticate(mode, token, facts) {
        return Admission::Unauthorized;
    }
    let modern = match facts.protocol_version {
        Some(version) => is_modern_stateless_protocol(version),
        None => false,
    };
    if !modern && !facts.has_session && facts.sessions >= max_sessions {
        return Admission::SessionsBusy;
    }
    if facts.active_requests >= max_active {
        return Admission::RequestsBusy;
    }
    Admission::Admitted
}

/// The number of requests at work once this one was decided on.
pub open spec fn active_after(verdict: Admission, active: nat) -> nat {
    if verdict == Admission::Admitted {
        active + 1
    } else {
        active
    }
}

/// No more requests are at work than may be.
pub proof fn admissions_stay_within_limits(
    mode: AuthMode,
    token: Seq<char>,
    facts: FactsView,
    max_sessions: nat,
    max_active: nat,
)
    requires
        facts.active_requests <= max_active,
    ensures
        active_after(
            admission(mode, token, facts, max_sessions, max_active),
            facts.active_requests,
        ) <= max_active,
        admission(mode, token, facts, max_sessions, max_active) == Admission::Admitted
            && opens_session(facts) ==> facts.sessions < max_sessions,
{
}

/// A request without the token is turned away, whatever else it holds and
/// however busy the server is.
pub proof fn wrong_token_is_turned_away(
    mode: AuthMode,
    token: Seq<char>,
    facts: FactsView,
    max_sessions: nat,
    max_active: nat,
)
    ensures
        (admission(mode, token, facts, max_sessions, max_active) == Admission::Unauthorized)
            == !request_authenticated(mode, token, facts),
        mode == AuthMode::Path && first_segment(facts.path) != token ==> admission(
            mode,
            token,
            facts,
            max_sessions,
            max_active,
        ) == Admission::Unauthorized,
        mode == AuthMode::Bearer && bearer_of(facts.authorization) != Some(token) ==> admission(
            mode,
            token,
            facts,
            max_sessions,
            max_active,
        ) == Admission::Unauthorized,
{
}

/// The answer to a request that is not let in: status and body.
pub open spec fn refusal(verdict: Admission) -> Option<(u16, JsonView)> {
    match verdict {
        Admission::Unauthorized => Some(
            (401, error_body("AUTH_FAILED", "authentication failed")),
        ),
        Admission::SessionsBusy => Some(
            (
                503,
                error_body("SERVER_BUSY", "legacy MCP session capacity reached; retry later"),
            ),
        ),
        Admission::RequestsBusy => Some(
            (503, error_body("SERVER_BUSY", "request concurrency limit reached; retry later")),
        ),
        Admission::Admitted => None,
    }
}

pub open spec fn error_body(code: &str, message: &str) -> JsonView {
    JsonView::Object(seq![("error"@, error_value(code@, message@))])
}

fn make_error_body(code: &str, message: &str) -> (value: JsonValue)
    ensures
        value@ == error_body(code, message),
{
    let mut fields: Vec<(String, JsonValue)> = Vec::new();
    push_field(&mut fields, "error", error_json(code, message));
    let value = JsonValue::object(fields);
    proof {
        assert(value@->Object_0 =~= error_body(code, message)->Object_0);
    }
    value
}

pub fn refuse(verdict: Admission) -> (answer: Option<(u16, JsonValue)>)
    ensures
        match (answer, refusal(verdict)) {
            (Some((status, body)), Some(expected)) => status == expected.0 && body@ == expected.1
                && well_ordered(body@),
            (None, None) => true,
            _ => false,
        },
{
    proof {
        lemma_error_body_ordered("AUTH_FAILED", "authentication failed");
        lemma_error_body_ordered("SERVER_BUSY", "legacy MCP session capacity reached; retry later");
        lemma_error_body_ordered("SERVER_BUSY", "request concurrency limit reached; retry later");
    }
    match verdict {
        Admission::Unauthorized => Some(
            (401, make_error_body("AUTH_FAILED", "authentication failed")),
        ),
        Admission::SessionsBusy => Some(
            (
                503,
                make_error_body(
                    "SERVER_BUSY",
                    "legacy MCP session capacity reached; retry later",
                ),
            ),
        ),
        Admission::RequestsBusy => Some(
            (503, make_error_body("SERVER_BUSY", "request concurrency limit reached; retry later")),
        ),
        Admission::Admitted => None,
    }
}

/// The event that tells of a request that is not let in.
pub open spec fn refusal_event(verdict: Admission) -> Option<JsonView> {
    match verdict {
        Admission::Unauthorized => Some(
            JsonView::Object(
                seq![
                    ("endpoint"@, JsonView::Text("/[REDACTED]/mcp"@)),
                    (
                        "error"@,
                        error_value("AUTH_FAILED"@, "invalid endpoint authentication"@),
                    ),
                    ("event"@, JsonView::Text("mcp_request_finished"@)),
                    ("status"@, JsonView::Text("rejected"@)),
                ],
            ),
        ),
        Admission::SessionsBusy => Some(busy_event("legacy_mcp_sessions")),
        Admission::RequestsBusy => Some(busy_event("active_http_requests")),
        Admission::Admitted => None,
    }
}

pub open spec fn busy_event(resource: &str) -> JsonView {
    JsonView::Object(
        seq![
            ("event"@, JsonView::Text("server_busy"@)),
            ("resource"@, JsonView::Text(resource@)),
            ("retryable"@, JsonView::Bool(true)),
        ],
    )
}

fn make_busy_event(resource: &str) -> (event: JsonValue)
    ensures
        event@ == busy_event(resource),
{
    let mut fields: Vec<(String, JsonValue)> = Vec::new();
    push_field(&mut fields, "event", JsonValue::text("server_busy"));
    push_field(&mut fields, "resource", JsonValue::text(resource));
    push_field(&mut fields, "retryable", JsonValue::truth(true));
    let event = JsonValue::object(fields);
    proof {
        assert(event@->Object_0 =~= busy_event(resource)->Object_0);
    }
    event
}

pub fn event_of_refusal(verdict: Admission) -> (event: Option<JsonValue>)
    ensures
        match (event, refusal_event(verdict)) {
            (Some(event), Some(expected)) => event@ == expected && well_ordered(event@),
            (None, None) => true,
            _ => false,
        },
{
    proof {
        lemma_refusal_ordered(verdict);
    }
    match verdict {
        Admission::Unauthorized => {
            let mut fields: Vec<(String, JsonValue)> = Vec::new();
            push_field(&mut fields, "endpoint", JsonValue::text("/[REDACTED]/mcp"));
            push_field(
                &mut fields,
                "error",
                error_json("AUTH_FAILED", "invalid endpoint authentication"),
            );
            push_field(&mut fields, "event", JsonValue::text("mcp_request_finished"));
            push_field(&mut fields, "status", JsonValue::text("rejected"));
            let event = JsonValue::object(fields);
            proof {
                assert(event@->Object_0 =~= refusal_event(verdict)->0->Object_0);
            }
            Some(event)
        },
        Admission::SessionsBusy => Some(make_busy_event("legacy_mcp_sessions")),
        Admission::RequestsBusy => Some(make_busy_event("active_http_requests")),
        Admission::Admitted => None,
    }
}

proof fn lemma_error_body_ordered(code: &str, message: &str)
    ensures
        well_ordered(error_body(code, message)),
{
    lemma_error_ordered(code@, message@);
    let fields = error_body(code, message)->Object_0;
    assert(fields.len() == 1);
    assert(fields[0].1 == error_value(code@, message@));
    lemma_object_ordered(fields);
}

proof fn lemma_refusal_ordered(verdict: Admission)
    ensures
        refusal_event(verdict) is Some ==> well_ordered(refusal_event(verdict)->0),
{
    if verdict == Admission::Unauthorized {
        reveal_strlit("endpoint");
        reveal_strlit("error");
        reveal_strlit("event");
        reveal_strlit("status");
        reveal_with_fuel(text_less, 3);
        lemma_error_ordered("AUTH_FAILED"@, "invalid endpoint authentication"@);
        let fields = refusal_event(verdict)->0->Object_0;
        assert(fields.len() == 4);
        assert(text_less(fields[0].0, fields[1].0));
        assert(text_less(fields[1].0, fields[2].0));
        assert(text_less(fields[2].0, fields[3].0));
        assert forall|k: int| 0 <= k < fields.len() - 1 implies text_less(
            fields[k].0,
            #[trigger] fields[k + 1].0,
        ) by {
            if k == 0 {
            } else if k == 1 {
            } else {
                assert(k == 2);
            }
        }
        assert forall|k: int| 0 <= k < fields.len() implies well_ordered(
            (#[trigger] fields[k]).1,
        ) by {
            if k == 0 {
            } else if k == 1 {
            } else if k == 2 {
            } else {
                assert(k == 3);
            }
        }
        lemma_object_ordered(fields);
    } else if verdict != Admission::Admitted {
        reveal_strlit("event");
        reveal_strlit("resource");
        reveal_strlit("retryable");
        reveal_with_fuel(text_less, 4);
        let fields = refusal_event(verdict)->0->Object_0;
        assert(fields.len() == 3);
        assert(text_less(fields[0].0, fields[1].0));
        assert(text_less(fields[1].0, fields[2].0));
        assert forall|k: int| 0 <= k < fields.len() - 1 implies text_less(
            fields[k].0,
            #[trigger] fields[k + 1].0,
        ) by {
            if k == 0 {
            } else {
                assert(k == 1);
            }
        }
        assert forall|k: int| 0 <= k < fields.len() implies well_ordered(
            (#[trigger] fields[k]).1,
        ) by {
            if k == 0 {
            } else if k == 1 {
            } else {
                assert(k == 2);
            }
        }
        lemma_object_ordered(fields);
    }
}

/// The event of a request that was let in, with the number of requests at work.
pub open spec fn started_event(method: Seq<char>, active: usize) -> JsonView {
    JsonView::Object(
        seq![
            ("active_requests"@, number_json(active as int)),
            ("endpoint"@, JsonView::Text("/[REDACTED]/mcp"@)),
            ("event"@, JsonView::Text("mcp_request_started"@)),
            ("method"@, JsonView::Text(method)),
        ],
    )
}

pub fn request_started_event(method: &str, active: usize) -> (event: JsonValue)
    ensures
        event@ == started_event(method@, active),
        well_ordered(event@),
{
    let mut fields: Vec<(String, JsonValue)> = Vec::new();
    push_field(&mut fields, "active_requests", JsonValue::number(active as u64));
    push_field(&mut fields, "endpoint", JsonValue::text("/[REDACTED]/mcp"));
    push_field(&mut fields, "event", JsonValue::text("mcp_request_started"));
    push_field(&mut fields, "method", JsonValue::text(method));
    let event = JsonValue::object(fields);
    proof {
        let shown = started_event(method@, active)->Object_0;
        assert(event@->Object_0 =~= shown);
        reveal_strlit("active_requests");
        reveal_strlit("endpoint");
        reveal_strlit("event");
        reveal_strlit("method");
        reveal_with_fuel(text_less, 3);
        assert(shown.len() == 4);
        assert(text_less(shown[0].0, shown[1].0));
        assert(text_less(shown[1].0, shown[2].0));
        assert(text_less(shown[2].0, shown[3].0));
        assert forall|k: int| 0 <= k < shown.len() - 1 implies text_less(
            shown[k].0,
            #[trigger] shown[k + 1].0,
        ) by {
            if k == 0 {
            } else if k == 1 {
            } else {
                assert(k == 2);
            }
        }
        assert forall|k: int| 0 <= k < shown.len() implies well_ordered((#[trigger] shown[k]).1) by {
            if k == 0 {
            } else if k == 1 {
            } else if k == 2 {
            } else {
                assert(k == 3);
            }
        }
        lemma_object_ordered(shown);
    }
    event
}

/// The event of a request that was answered. The request itself is still
/// counted among those at work, and left out here.
pub open spec fn finished_event(method: Seq<char>, status: u16, duration_ms: u64, active: usize) -> JsonView {
    JsonView::Object(
        seq![
            (
                "active_requests"@,
                number_json(
                    if active > 0 {
                        active - 1
                    } else {
                        0
                    },
                ),
            ),
            ("duration_ms"@, number_json(duration_ms as int)),
            ("endpoint"@, JsonView::Text("/[REDACTED]/mcp"@)),
            ("event"@, JsonView::Text("mcp_request_finished"@)),
            ("method"@, JsonView::Text(method)),
            ("status_code"@, number_json(status as int)),
        ],
    )
}

pub fn request_finished_event(method: &str, status: u16, duration_ms: u64, active: usize) -> (event:
    JsonValue)
    ensures
        event@ == finished_event(method@, status, duration_ms, active),
        well_ordered(event@),
{
    let others: usize = if active > 0 {
        active - 1
    } else {
        0
    };
    let mut fields: Vec<(String, JsonValue)> = Vec::new();
    push_field(&mut fields, "active_requests", JsonValue::number(others as u64));
    push_field(&mut fields, "duration_ms", JsonValue::number(duration_ms));
    push_field(&mut fields, "endpoint", JsonValue::text("/[REDACTED]/mcp"));
    push_field(&mut fields, "event", JsonValue::text("mcp_request_finished"));
    push_field(&mut fields, "method", JsonValue::text(method));
    push_field(&mut fields, "status_code", JsonValue::number(status as u64));
    let event = JsonValue::object(fields);
    proof {
        let shown = finished_event(method@, status, duration_ms, active)->Object_0;
        assert(event@->Object_0 =~= shown);
        reveal_strlit("active_requests");
        reveal_strlit("duration_ms");
        reveal_strlit("endpoint");
        reveal_strlit("event");
        reveal_strlit("method");
        reveal_strlit("status_code");
        reveal_with_fuel(text_less, 3);
        assert(shown.len() == 6);
        assert(text_less(shown[0].0, shown[1].0));
        assert(text_less(shown[1].0, shown[2].0));
        assert(text_less(shown[2].0, shown[3].0));
        assert(text_less(shown[3].0, shown[4].0));
        assert(text_less(shown[4].0, shown[5].0));
        assert forall|k: int| 0 <= k < shown.len() - 1 implies text_less(
            shown[k].0,
            #[trigger] shown[k + 1].0,
        ) by {
            if k == 0 {
            } else if k == 1 {
            } else if k == 2 {
            } else if k == 3 {
            } else {
                assert(k == 4);
            }
        }
        assert forall|k: int| 0 <= k < shown.len() implies well_ordered((#[trigger] shown[k]).1) by {
            if k == 0 {
            } else if k == 1 {
            } else if k == 2 {
            } else if k == 3 {
            } else if k == 4 {
            } else {
                assert(k == 5);
            }
        }
        lemma_object_ordered(shown);
    }
    event
}

/// Where the service is found.
pub open spec fn routes_of(mode: AuthMode) -> Seq<Seq<char>> {
    match mode {
        AuthMode::Path => seq!["/{auth_token}/mcp"@],
        AuthMode::Bearer => seq!["/mcp"@],
        AuthMode::Either => seq!["/{auth_token}/mcp"@, "/mcp"@],
    }
}

pub fn service_routes(mode: AuthMode) -> (routes: Vec<&'static str>)
    ensures
        routes@.map_values(|route: &'static str| route@) == routes_of(mode),
{
    let mut routes: Vec<&'static str> = Vec::new();
    match mode {
        AuthMode::Path => {
            routes.push("/{auth_token}/mcp");
        },
        AuthMode::Bearer => {
            routes.push("/mcp");
        },
        AuthMode::Either => {
            routes.push("/{auth_token}/mcp");
            routes.push("/mcp");
        },
    }
    proof {
        assert(routes@.map_values(|route: &'static str| route@) =~= routes_of(mode));
    }
    routes
}

}
