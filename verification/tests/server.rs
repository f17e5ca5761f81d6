//! Who is let in, and which sessions stay.
use codex_bridge::config::AuthMode;
use codex_bridge::json::to_text;
use codex_bridge::server::admission::{
    auth_matches, authenticate, bearer_token, decide, event_of_refusal,
    is_modern_stateless_protocol, path_token, refuse, request_finished_event,
    request_started_event, service_routes, token_matches, Admission, RequestFacts,
};
use codex_bridge::server::listener::{socket_path_step, SocketPathState};
use codex_bridge::server::sessions::DashTimestamps;
use codex_bridge::server::status::{
    daemon_status, health, server_stopped, server_stopping, surplus_sessions, StatusFacts,
};

#[test]
fn session_activity_touch_tracks_last_activity_not_creation_age() {
    let mut timestamps = DashTimestamps::new();
    let started: u64 = 1_000_000;
    timestamps.touch("transport-a", started);
    timestamps.touch("transport-a", started + 10_000);
    assert_eq!(timestamps.age("transport-a", started + 15_000), Some(5_000));
}

#[test]
fn protocol_version_comparison_is_structured_not_lexical() {
    assert!(is_modern_stateless_protocol("2026-07-28"));
    assert!(is_modern_stateless_protocol("2027-01-01"));
    assert!(!is_modern_stateless_protocol("2026-07-27"));
    assert!(!is_modern_stateless_protocol("2026-13-01"));
    assert!(!is_modern_stateless_protocol("2026-00-01"));
    assert!(!is_modern_stateless_protocol("2026-01-00"));
    assert!(!is_modern_stateless_protocol("2026-7-9"));
    assert!(!is_modern_stateless_protocol("2026-07-28-extra"));
    assert!(!is_modern_stateless_protocol("not-a-version"));
}

#[test]
fn auth_modes_accept_only_the_configured_transport() {
    let token = "1234567890abcdef";
    assert!(auth_matches(AuthMode::Path, token, None, token));
    assert!(!auth_matches(AuthMode::Path, "mcp", Some(token), token));
    assert!(auth_matches(AuthMode::Bearer, "mcp", Some(token), token));
    assert!(!auth_matches(AuthMode::Bearer, token, None, token));
    assert!(auth_matches(AuthMode::Either, token, None, token));
    assert!(auth_matches(AuthMode::Either, "mcp", Some(token), token));
    assert!(!auth_matches(AuthMode::Either, "mcp", Some("wrong"), token));
    assert!(!auth_matches(
        AuthMode::Path,
        "1234567890abcde",
        None,
        token
    ));
    assert!(!auth_matches(
        AuthMode::Bearer,
        "mcp",
        Some("1234567890abcdefx"),
        token
    ));
}

#[test]
fn auth_rejects_wrong_prefix_and_unicode_lookalikes() {
    let token = "1234567890abcdef";
    // A correct-length but wrong-content candidate must fail; so must a
    // longer candidate that merely starts with the token.
    assert!(!token_matches("9234567890abcdef", token));
    assert!(!token_matches(&format!("{token}extra"), token));
    assert!(token_matches(token, token));
    // Empty candidates never authenticate any mode.
    assert!(!auth_matches(AuthMode::Path, "", None, token));
    assert!(!auth_matches(AuthMode::Bearer, "mcp", Some(""), token));
}

#[test]
fn unix_listener_preserves_existing_non_socket_path() {
    let error = socket_path_step("/run/codexbridge.sock", SocketPathState::Other)
        .err()
        .unwrap();
    assert!(error.message().contains("is not a socket"));
}

#[test]
fn stale_sockets_are_replaced() {
    assert!(socket_path_step("/run/s", SocketPathState::Socket).unwrap());
    assert!(!socket_path_step("/run/s", SocketPathState::Absent).unwrap());
    let unknown = SocketPathState::Unknown("permission denied".to_owned());
    let error = socket_path_step("/run/s", unknown).err().unwrap();
    assert!(error.message().contains("permission denied"));
}

fn facts<'a>(path: &'a str, authorization: Option<&'a str>) -> RequestFacts<'a> {
    RequestFacts {
        path,
        authorization,
        protocol_version: None,
        has_session: false,
        sessions: 0,
        active_requests: 0,
    }
}

#[test]
fn tokens_are_found_in_paths_and_headers() {
    assert_eq!(path_token("/abc/mcp"), "abc");
    assert_eq!(path_token("/mcp"), "mcp");
    assert_eq!(path_token("/"), "");
    assert_eq!(bearer_token(Some("Bearer abc")).as_deref(), Some("abc"));
    assert_eq!(bearer_token(Some("Basic abc")), None);
    assert_eq!(bearer_token(None), None);
}

#[test]
fn requests_are_let_in_or_turned_away() {
    let token = "1234567890abcdef";
    let path = "/1234567890abcdef/mcp";
    assert!(authenticate(AuthMode::Path, token, facts(path, None)));
    assert!(!authenticate(AuthMode::Bearer, token, facts(path, None)));
    assert!(authenticate(
        AuthMode::Bearer,
        token,
        facts("/mcp", Some("Bearer 1234567890abcdef"))
    ));
    assert_eq!(
        decide(AuthMode::Path, token, facts("/wrong/mcp", None), 2, 2),
        Admission::Unauthorized
    );
    assert_eq!(
        decide(AuthMode::Path, token, facts(path, None), 2, 2),
        Admission::Admitted
    );
    let full = RequestFacts {
        sessions: 2,
        ..facts(path, None)
    };
    assert_eq!(
        decide(AuthMode::Path, token, full, 2, 2),
        Admission::SessionsBusy
    );
    let known = RequestFacts {
        has_session: true,
        ..full
    };
    assert_eq!(
        decide(AuthMode::Path, token, known, 2, 2),
        Admission::Admitted
    );
    let modern = RequestFacts {
        protocol_version: Some("2026-07-28"),
        ..full
    };
    assert_eq!(
        decide(AuthMode::Path, token, modern, 2, 2),
        Admission::Admitted
    );
    let busy = RequestFacts {
        active_requests: 2,
        ..facts(path, None)
    };
    assert_eq!(
        decide(AuthMode::Path, token, busy, 2, 2),
        Admission::RequestsBusy
    );
}

#[test]
fn refusals_have_answers_and_events() {
    let (status, body) = refuse(Admission::Unauthorized).unwrap();
    assert_eq!(status, 401);
    assert_eq!(
        to_text(&body).unwrap(),
        r#"{"error":{"code":"AUTH_FAILED","message":"authentication failed"}}"#
    );
    let (status, body) = refuse(Admission::SessionsBusy).unwrap();
    assert_eq!(status, 503);
    assert!(to_text(&body).unwrap().contains("SERVER_BUSY"));
    let (status, body) = refuse(Admission::RequestsBusy).unwrap();
    assert_eq!(status, 503);
    assert!(to_text(&body).unwrap().contains("request concurrency limit"));
    assert!(refuse(Admission::Admitted).is_none());
    assert!(event_of_refusal(Admission::Admitted).is_none());
    let event = event_of_refusal(Admission::Unauthorized).unwrap();
    assert!(to_text(&event).unwrap().contains("invalid endpoint authentication"));
    assert!(event_of_refusal(Admission::RequestsBusy).is_some());
}

#[test]
fn requests_are_reported_when_they_start_and_end() {
    assert_eq!(
        to_text(&request_started_event("POST", 3)).unwrap(),
        r#"{"active_requests":3,"endpoint":"/[REDACTED]/mcp","event":"mcp_request_started","method":"POST"}"#
    );
    assert_eq!(
        to_text(&request_finished_event("POST", 200, 12, 3)).unwrap(),
        r#"{"active_requests":2,"duration_ms":12,"endpoint":"/[REDACTED]/mcp","event":"mcp_request_finished","method":"POST","status_code":200}"#
    );
    assert!(to_text(&request_finished_event("GET", 503, 0, 0))
        .unwrap()
        .starts_with(r#"{"active_requests":0,"#));
}

#[test]
fn every_mode_has_its_routes() {
    assert_eq!(service_routes(AuthMode::Bearer), vec!["/mcp"]);
    assert_eq!(service_routes(AuthMode::Path).len(), 1);
    assert_eq!(service_routes(AuthMode::Either).len(), 2);
}

#[test]
fn idle_and_surplus_sessions_are_closed() {
    let ids: Vec<String> = ["a", "b", "c"].iter().map(|id| id.to_string()).collect();
    let mut seen = DashTimestamps::new();
    seen.touch("a", 100);
    seen.touch("b", 900);
    seen.touch("gone", 950);
    seen.touch_if_missing("b", 10);
    assert_eq!(seen.age("b", 1000), Some(100));

    let closed = seen.maintain(&ids, 1000, 500, 10);
    assert_eq!(closed, vec!["a".to_owned()]);
    assert_eq!(seen.age("gone", 1000), None);
    assert_eq!(seen.age("c", 1000), Some(0));

    let left: Vec<String> = ids[1..].to_vec();
    let closed = seen.maintain(&left, 1100, 500, 1);
    assert_eq!(closed, vec!["b".to_owned()]);
    seen.remove("b");
    assert_eq!(seen.age("b", 1100), None);
    seen.retain(&Vec::new());
    assert_eq!(seen.age("c", 1100), None);
}

#[test]
fn the_server_reports_on_itself() {
    assert_eq!(
        to_text(&health(2, 3)).unwrap(),
        r#"{"active_legacy_mcp_sessions":3,"active_requests":2,"status":"ok"}"#
    );
    let facts = StatusFacts {
        active_requests: 1,
        active_processes: 2,
        active_sessions: 3,
        running_tools: 4,
        tracked_process_tasks: 5,
        project_cache_entries: 6,
        dropped_log_events: 7,
        log_queue_capacity: 8,
        log_queue_bytes_available: 9,
    };
    assert_eq!(
        to_text(&daemon_status(facts)).unwrap(),
        r#"{"active_legacy_mcp_sessions":3,"active_processes":2,"active_requests":1,"dropped_log_events":7,"event":"daemon_status","log_queue_bytes_available":9,"log_queue_capacity":8,"project_cache_entries":6,"running_tools":4,"tracked_process_tasks":5}"#
    );
    assert_eq!(
        to_text(&server_stopping(facts)).unwrap(),
        r#"{"active_legacy_mcp_sessions":3,"active_processes":2,"active_requests":1,"event":"server_stopping"}"#
    );
    assert_eq!(
        to_text(&server_stopped(1, 2, 3, 4)).unwrap(),
        r#"{"event":"server_stopped","remaining_processes":3,"remaining_sessions":4,"remaining_tasks":2,"shutdown_requested_processes":1}"#
    );
    assert!(surplus_sessions(4, 4).is_none());
    assert_eq!(
        to_text(&surplus_sessions(5, 4).unwrap()).unwrap(),
        r#"{"event":"resource_limit_hit","maximum":4,"resource":"legacy_mcp_sessions"}"#
    );
}
