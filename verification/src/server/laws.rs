//! What always holds of requests and sessions.
use vstd::prelude::*;

use crate::audit::events::error_value;
use crate::config::AuthMode;
use crate::json::{field, JsonView};
use crate::search::split;
use crate::server::admission::{
    admission, after_slashes, bearer_of, error_body, first_segment, modern_protocol, refusal,
    refusal_event, routes_of, Admission, FactsView,
};
use crate::server::listener::{socket_path_error, SocketPathState};
use crate::server::sessions::{
    age, busy_sessions, closed_sessions, idle_sessions, lemma_oldest, lemma_partition,
    lemma_take_oldest_len, oldest, refreshed, take_oldest, without_names,
};
use crate::text::unsigned_number;
use crate::text_laws::{first_part_ends_at_the_separator, separator_starts_a_part};

verus! {

proof fn lemma_idle(seen: Map<Seq<char>, u64>, ids: Seq<Seq<char>>, now: u64, idle: u64)
    ensures
        forall|name: Seq<char>| #[trigger]
            idle_sessions(seen, ids, now, idle).contains(name) <==> ids.contains(name) && age(
                seen[name],
                now,
            ) >= idle,
        forall|name: Seq<char>| #[trigger]
            busy_sessions(seen, ids, now, idle).contains(name) <==> ids.contains(name) && age(
                seen[name],
                now,
            ) < idle,
    decreases ids.len(),
{
    if ids.len() > 0 {
        let rest = ids.drop_last();
        let last = ids.last();
        lemma_idle(seen, rest, now, idle);
        let before = idle_sessions(seen, rest, now, idle);
        let after = idle_sessions(seen, ids, now, idle);
        let busy_before = busy_sessions(seen, rest, now, idle);
        let busy_after = busy_sessions(seen, ids, now, idle);
        assert forall|name: Seq<char>| #[trigger] ids.contains(name) <==> rest.contains(name)
            || name == last by {
            lemma_push_contains(rest, last, name);
            assert(rest.push(last) =~= ids);
        }
        assert forall|name: Seq<char>| #[trigger] after.contains(name) <==> ids.contains(name)
            && age(seen[name], now) >= idle by {
            lemma_push_contains(before, last, name);
        }
        assert forall|name: Seq<char>| #[trigger] busy_after.contains(name) <==> ids.contains(name)
            && age(seen[name], now) < idle by {
            lemma_push_contains(busy_before, last, name);
        }
    }
}

proof fn lemma_push_contains(names: Seq<Seq<char>>, last: Seq<char>, name: Seq<char>)
    ensures
        names.push(last).contains(name) <==> names.contains(name) || name == last,
{
    let all = names.push(last);
    if names.contains(name) {
        let i = choose|i: int| 0 <= i < names.len() && names[i] == name;
        assert(all[i] == name);
    }
    assert(all[names.len() as int] == last);
    if all.contains(name) && name != last {
        let i = choose|i: int| 0 <= i < all.len() && all[i] == name;
        assert(names[i] == name);
    }
}

#[verifier::rlimit(40)]
proof fn lemma_take_oldest(
    seen: Map<Seq<char>, u64>,
    ids: Seq<Seq<char>>,
    now: u64,
    count: int,
)
    ensures
        forall|name: Seq<char>| #[trigger]
            take_oldest(seen, ids, now, count).contains(name) ==> ids.contains(name),
        forall|closed: Seq<char>, open: Seq<char>|
            #[trigger] take_oldest(seen, ids, now, count).contains(closed)
                && #[trigger] ids.contains(open) && !take_oldest(seen, ids, now, count).contains(
                open,
            ) ==> age(seen[open], now) <= age(seen[closed], now),
    decreases count,
{
    if count > 0 && ids.len() > 0 {
        lemma_oldest(seen, ids, now);
        let first = oldest(seen, ids, now);
        let rest = ids.remove(first);
        let more = take_oldest(seen, rest, now, count - 1);
        let all = take_oldest(seen, ids, now, count);
        lemma_take_oldest(seen, rest, now, count - 1);
        assert forall|name: Seq<char>| #[trigger] all.contains(name) <==> name == ids[first]
            || more.contains(name) by {
            assert(all[0] == ids[first]);
            if more.contains(name) {
                let i = choose|i: int| 0 <= i < more.len() && more[i] == name;
                assert(all[i + 1] == name);
            }
            if all.contains(name) && name != ids[first] {
                let i = choose|i: int| 0 <= i < all.len() && all[i] == name;
                assert(more[i - 1] == name);
            }
        }
        assert forall|name: Seq<char>| #[trigger] rest.contains(name) implies ids.contains(
            name,
        ) by {
            let i = choose|i: int| 0 <= i < rest.len() && rest[i] == name;
            if i < first {
                assert(ids[i] == name);
            } else {
                assert(ids[i + 1] == name);
            }
        }
        assert forall|name: Seq<char>| #[trigger] all.contains(name) implies ids.contains(name) by {
            if name == ids[first] {
                assert(ids.contains(ids[first]));
            }
        }
        assert forall|closed: Seq<char>, open: Seq<char>|
            #[trigger] all.contains(closed) && #[trigger] ids.contains(open) && !all.contains(
                open,
            ) implies age(seen[open], now) <= age(seen[closed], now) by {
            let i = choose|i: int| 0 <= i < ids.len() && ids[i] == open;
            assert(age(seen[ids[i]], now) <= age(seen[ids[first]], now));
            if closed != ids[first] {
                assert(open != ids[first]);
                if i < first {
                    assert(rest[i] == open);
                } else {
                    assert(rest[i - 1] == open);
                }
                assert(rest.contains(open));
            }
        }
    }
}

/// Which sessions are closed: all that were not used for the idle time, and of
/// the others, where more than the maximum would stay, those that were not used
/// for longest, until the maximum stays.
#[verifier::rlimit(40)]
pub proof fn idle_and_oldest_sessions_are_closed(
    seen: Map<Seq<char>, u64>,
    ids: Seq<Seq<char>>,
    now: u64,
    idle: u64,
    maximum: int,
)
    requires
        maximum >= 0,
        idle > 0,
        forall|name: Seq<char>| #[trigger] ids.contains(name) ==> seen[name] <= now,
    ensures
        ({
            let closed = closed_sessions(seen, ids, now, idle, maximum);
            &&& forall|name: Seq<char>| #[trigger]
                closed.contains(name) ==> ids.contains(name)
            &&& forall|name: Seq<char>|
                #[trigger] ids.contains(name) && seen[name] + idle <= now ==> closed.contains(name)
            &&& forall|name: Seq<char>, open: Seq<char>|
                #[trigger] closed.contains(name) && seen[name] + idle > now
                    && #[trigger] ids.contains(open) && !closed.contains(open) ==> seen[name]
                    <= seen[open]
            &&& forall|name: Seq<char>|
                #[trigger] closed.contains(name) && seen[name] + idle > now ==> ids.len()
                    - closed.len() == maximum
            &&& ids.len() - closed.len() <= maximum
        }),
{
    let closed = closed_sessions(seen, ids, now, idle, maximum);
    let expired = idle_sessions(seen, ids, now, idle);
    let busy = busy_sessions(seen, ids, now, idle);
    lemma_idle(seen, ids, now, idle);
    lemma_partition(seen, ids, now, idle);
    if ids.len() - expired.len() > maximum {
        let count = ids.len() - expired.len() - maximum;
        let taken = take_oldest(seen, busy, now, count);
        lemma_take_oldest(seen, busy, now, count);
        lemma_take_oldest_len(seen, busy, now, count);
        assert forall|name: Seq<char>| #[trigger] closed.contains(name) <==> expired.contains(name)
            || taken.contains(name) by {
            if expired.contains(name) {
                let i = choose|i: int| 0 <= i < expired.len() && expired[i] == name;
                assert(closed[i] == name);
            }
            if taken.contains(name) {
                let i = choose|i: int| 0 <= i < taken.len() && taken[i] == name;
                assert(closed[expired.len() + i] == name);
            }
            if closed.contains(name) {
                let i = choose|i: int| 0 <= i < closed.len() && closed[i] == name;
                if i < expired.len() {
                    assert(expired[i] == name);
                } else {
                    assert(taken[i - expired.len()] == name);
                }
            }
        }
        assert forall|name: Seq<char>, open: Seq<char>|
            #[trigger] closed.contains(name) && seen[name] + idle > now && #[trigger] ids.contains(
                open,
            ) && !closed.contains(open) implies seen[name] <= seen[open] by {
            assert(ids.contains(name));
            assert(taken.contains(name));
            assert(busy.contains(open));
        }
    }
}

/// How long ago a time is, and that a time to come is not long ago.
pub proof fn age_is_the_time_since(then: u64, now: u64)
    ensures
        then <= now ==> then + age(then, now) == now,
        then >= now ==> age(then, now) == 0,
{
}

/// A live session keeps the time at which it was last used, and one that was not
/// known is new. Nothing else changes.
pub proof fn live_sessions_are_known(
    seen: Map<Seq<char>, u64>,
    ids: Seq<Seq<char>>,
    now: u64,
    name: Seq<char>,
)
    ensures
        refreshed(seen, ids, now).contains_key(name) <==> seen.contains_key(name) || ids.contains(
            name,
        ),
        seen.contains_key(name) ==> refreshed(seen, ids, now)[name] == seen[name],
        !seen.contains_key(name) && ids.contains(name) ==> refreshed(seen, ids, now)[name] == now,
    decreases ids.len(),
{
    if ids.len() > 0 {
        let rest = ids.drop_last();
        live_sessions_are_known(seen, rest, now, name);
        live_sessions_are_known(seen, rest, now, ids.last());
        lemma_push_contains(rest, ids.last(), name);
        assert(rest.push(ids.last()) =~= ids);
    }
}

/// A closed session is forgotten, and every other is as it was.
pub proof fn closed_sessions_are_forgotten(
    seen: Map<Seq<char>, u64>,
    names: Seq<Seq<char>>,
    name: Seq<char>,
)
    ensures
        without_names(seen, names).contains_key(name) <==> seen.contains_key(name)
            && !names.contains(name),
        without_names(seen, names).contains_key(name) ==> without_names(seen, names)[name]
            == seen[name],
    decreases names.len(),
{
    if names.len() > 0 {
        let rest = names.drop_last();
        closed_sessions_are_forgotten(seen, rest, name);
        lemma_push_contains(rest, names.last(), name);
        assert(rest.push(names.last()) =~= names);
    }
}

/// The token of a path is what stands between its first slashes.
pub proof fn token_is_found_in_the_path(token: Seq<char>, rest: Seq<char>)
    requires
        token.len() > 0,
        !token.contains('/'),
    ensures
        first_segment(seq!['/'] + token.push('/') + rest) == token,
        first_segment(seq!['/'] + token) == token,
        first_segment(token.push('/') + rest) == token,
{
    reveal_with_fuel(after_slashes, 2);
    assert(token.contains(token[0]));
    let inner = token.push('/') + rest;
    assert(inner[0] == token[0]);
    let path = seq!['/'] + token.push('/') + rest;
    assert(path.skip(1) =~= inner);
    assert(after_slashes(path) == inner);
    first_part_ends_at_the_separator(token, '/', rest);
    assert((seq!['/'] + token).skip(1) =~= token);
    assert(after_slashes(seq!['/'] + token) == token);
    separator_starts_a_part(token, '/', token);
}

/// A bearer token is what follows the word "Bearer " of a header, and nothing
/// else is one.
pub proof fn token_is_found_in_the_header(token: Seq<char>, header: Seq<char>)
    ensures
        bearer_of(Some("Bearer "@ + token)) == Some(token),
        bearer_of(None) is None,
        bearer_of(Some(header)) is Some ==> header == "Bearer "@ + bearer_of(Some(header))->0,
{
    reveal_strlit("Bearer ");
    let whole = "Bearer "@ + token;
    assert(whole.subrange(0, 7) =~= "Bearer "@);
    assert(whole.skip(7) =~= token);
    if bearer_of(Some(header)) is Some {
        assert(header.subrange(0, 7) == "Bearer "@);
        assert(header =~= header.subrange(0, 7) + header.skip(7));
    }
}

/// A protocol version is one of those that need no session exactly if it is a
/// date, year, month and day between dashes, from 28 July 2026 on.
pub proof fn new_protocols_need_no_session(
    year: Seq<char>,
    month: Seq<char>,
    day: Seq<char>,
    y: int,
    m: int,
    d: int,
)
    requires
        !year.contains('-') && !month.contains('-') && !day.contains('-'),
        unsigned_number(year, 10, 65_535) == Some(y),
        unsigned_number(month, 10, 255) == Some(m),
        unsigned_number(day, 10, 255) == Some(d),
        m <= 99 && d <= 99,
    ensures
        modern_protocol(year.push('-') + (month.push('-') + day)) <==> 1 <= m <= 12 && 1 <= d <= 31
            && 10_000 * y + 100 * m + d >= 20_260_728,
        !modern_protocol(year),
        !modern_protocol(year.push('-') + month),
{
    crate::text::lemma_number_range(year, 10, 65_535);
    crate::text::lemma_number_range(month, 10, 255);
    crate::text::lemma_number_range(day, 10, 255);
    first_part_ends_at_the_separator(year, '-', month.push('-') + day);
    first_part_ends_at_the_separator(month, '-', day);
    separator_starts_a_part(year, '-', day);
    separator_starts_a_part(year, '-', year);
    separator_starts_a_part(year, '-', month);
    let parts = split(year.push('-') + (month.push('-') + day), '-');
    assert(parts =~= seq![year, month, day]);
}

/// A request is answered 401 exactly if it lacks the token where the mode looks
/// for it: in the path, in the header, or in either. With the token it is
/// answered 503 exactly if it would open a session over the limit, or is one
/// over the limit of requests. Else it is let in.
pub proof fn refused_request_is_answered(
    mode: AuthMode,
    token: Seq<char>,
    facts: FactsView,
    max_sessions: nat,
    max_active: nat,
)
    ensures
        ({
            let verdict = admission(mode, token, facts, max_sessions, max_active);
            let answer = refusal(verdict);
            let in_path = first_segment(facts.path) == token;
            let in_header = bearer_of(facts.authorization) == Some(token);
            let known = match mode {
                AuthMode::Path => in_path,
                AuthMode::Bearer => in_header,
                AuthMode::Either => in_path || in_header,
            };
            let needs_session = !facts.has_session && (facts.protocol_version is None
                || !modern_protocol(facts.protocol_version->0));
            &&& !known <==> answer is Some && (answer->0).0 == 401
            &&& (known && ((needs_session && facts.sessions >= max_sessions)
                || facts.active_requests >= max_active)) <==> answer is Some && (answer->0).0 == 503
            &&& answer is None <==> verdict == Admission::Admitted
            &&& verdict == Admission::Admitted <==> known && (!needs_session || facts.sessions
                < max_sessions) && facts.active_requests < max_active
        }),
{
}

/// Every way to carry a token that a mode accepts has its route.
pub proof fn routes_follow_the_mode(mode: AuthMode)
    ensures
        routes_of(mode).contains("/{auth_token}/mcp"@) <==> mode != AuthMode::Bearer,
        routes_of(mode).contains("/mcp"@) <==> mode != AuthMode::Path,
{
    reveal_strlit("/{auth_token}/mcp");
    reveal_strlit("/mcp");
    let routes = routes_of(mode);
    assert("/{auth_token}/mcp"@.len() != "/mcp"@.len());
    if mode == AuthMode::Path {
        assert(routes[0] == "/{auth_token}/mcp"@);
    } else if mode == AuthMode::Bearer {
        assert(routes[0] == "/mcp"@);
    } else {
        assert(routes[0] == "/{auth_token}/mcp"@);
        assert(routes[1] == "/mcp"@);
    }
}

/// The body of an answer to a request that is not let in names the error.
pub proof fn refusal_names_the_error(verdict: Admission)
    ensures
        verdict == Admission::Unauthorized ==> (refusal(verdict)->0).1 == error_body(
            "AUTH_FAILED",
            "authentication failed",
        ),
        verdict == Admission::SessionsBusy || verdict == Admission::RequestsBusy ==> exists|
            message: &str,
        | (refusal(verdict)->0).1 == #[trigger] error_body("SERVER_BUSY", message),
        refusal_event(verdict) is None <==> verdict == Admission::Admitted,
{
    if verdict == Admission::SessionsBusy {
        assert((refusal(verdict)->0).1 == error_body(
            "SERVER_BUSY",
            "legacy MCP session capacity reached; retry later",
        ));
    } else if verdict == Admission::RequestsBusy {
        assert((refusal(verdict)->0).1 == error_body(
            "SERVER_BUSY",
            "request concurrency limit reached; retry later",
        ));
    }
}

/// A body of an error holds its code and its message.
pub proof fn error_body_holds_code_and_message(code: &str, message: &str)
    ensures
        field(error_body(code, message), "error"@) is Some,
        ({
            let error = field(error_body(code, message), "error"@)->0;
            &&& field(error, "code"@) == Some(JsonView::Text(code@))
            &&& field(error, "message"@) == Some(JsonView::Text(message@))
        }),
{
    let fields = error_body(code, message)->Object_0;
    crate::audit::event_laws::field_is_found_among_others(fields, 0);
    crate::audit::event_laws::error_has_code_and_message(code@, message@);
}

/// The event of a request that was turned away names the reason; that of a server which is
/// too busy names what there is too much of.
pub proof fn refusal_event_names_the_reason()
    ensures
        ({
            let event = refusal_event(Admission::Unauthorized)->0;
            &&& event is Object
            &&& event->Object_0.contains(
                (
                    "error"@,
                    error_value("AUTH_FAILED"@, "invalid endpoint authentication"@),
                ),
            )
            &&& event->Object_0.contains(("event"@, JsonView::Text("mcp_request_finished"@)))
            &&& event->Object_0.contains(("status"@, JsonView::Text("rejected"@)))
            &&& event->Object_0.contains(("endpoint"@, JsonView::Text("/[REDACTED]/mcp"@)))
        }),
        ({
            let sessions = refusal_event(Admission::SessionsBusy)->0;
            let requests = refusal_event(Admission::RequestsBusy)->0;
            &&& sessions->Object_0.contains(("event"@, JsonView::Text("server_busy"@)))
            &&& requests->Object_0.contains(("event"@, JsonView::Text("server_busy"@)))
            &&& sessions->Object_0.contains(("resource"@, JsonView::Text("legacy_mcp_sessions"@)))
            &&& requests->Object_0.contains(
                ("resource"@, JsonView::Text("active_http_requests"@)),
            )
        }),
{
    let event = refusal_event(Admission::Unauthorized)->0->Object_0;
    assert(event[0] == ("endpoint"@, JsonView::Text("/[REDACTED]/mcp"@)));
    assert(event[1] == (
        "error"@,
        error_value("AUTH_FAILED"@, "invalid endpoint authentication"@),
    ));
    assert(event[2] == ("event"@, JsonView::Text("mcp_request_finished"@)));
    assert(event[3] == ("status"@, JsonView::Text("rejected"@)));
    let sessions = refusal_event(Admission::SessionsBusy)->0->Object_0;
    let requests = refusal_event(Admission::RequestsBusy)->0->Object_0;
    assert(sessions[0] == ("event"@, JsonView::Text("server_busy"@)));
    assert(requests[0] == ("event"@, JsonView::Text("server_busy"@)));
    assert(sessions[1] == ("resource"@, JsonView::Text("legacy_mcp_sessions"@)));
    assert(requests[1] == ("resource"@, JsonView::Text("active_http_requests"@)));
}

/// What stands at the path of the socket is kept unless it is a socket.
pub proof fn only_a_socket_makes_way(path: Seq<char>, state: SocketPathState)
    ensures
        socket_path_error(path, state) is None <==> state is Absent || state is Socket,
        socket_path_error(path, state) is Some ==> (socket_path_error(path, state)->0).code
            == "PROCESS_FAILED"@,
{
}

}
