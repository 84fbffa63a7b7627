use oai_proxy::json::parse_bytes;
use oai_proxy::proxy::attempt::{AttemptFailure, Committed};
use oai_proxy::proxy::errors::openai_error_payload;
use oai_proxy::proxy::routes::{
    build_attempt_plan, is_control_plane_path, new_id, Action, Event, Session, Step,
};
use oai_proxy::proxy::semantic_token::EndpointKind;
use oai_proxy::recording::RecordEvent;
use oai_proxy::runtime::RuntimeSnapshot;
use oai_proxy::storage::settings::RuntimeSettings;
use oai_proxy::storage::upstreams::Upstream;

fn settings() -> RuntimeSettings {
    RuntimeSettings {
        policy_enabled: true,
        request_record_enabled: true,
        response_header_timeout_ms: 1000,
        first_token_timeout_ms: 1000,
        max_attempts: 2,
        auto_retry_enabled: true,
    }
}

fn upstream(id: i64) -> Upstream {
    Upstream {
        id,
        name: format!("up-{id}"),
        base_url: "https://api.example.test".to_string(),
        created_at: "t".to_string(),
        updated_at: "t".to_string(),
    }
}

fn begin(settings: RuntimeSettings, upstreams: usize, path: &str) -> (Session, Step) {
    let snapshot = RuntimeSnapshot {
        settings,
        upstreams: (0..upstreams).map(|i| upstream(i as i64 + 10)).collect(),
    };
    Session::begin_as(&snapshot, "POST", path, Some(&format!("{path}?trace=1")), "req".to_string())
}

fn next(session: Session, event: Event, id: &str) -> (Session, Step) {
    session.advance_as(event, id.to_string())
}

fn timeout() -> AttemptFailure {
    AttemptFailure {
        status: "first_token_timeout".to_string(),
        final_http_status: 504,
        upstream_http_status: Some(200),
        response_header_ms: Some(3),
        first_token_ms: Some(50),
        timeout_reason: Some("first_token_timeout".to_string()),
        error_message: "waiting for first semantic token timed out".to_string(),
    }
}

fn committed(records_deferred: bool) -> Committed {
    Committed {
        http_status: 200,
        response_header_ms: 4,
        first_token_ms: Some(9),
        emitted_to_client: true,
        records_deferred,
    }
}

fn error_code(body: &[u8]) -> String {
    let json = parse_bytes(body).expect("an error is a JSON document");
    let error = json.get("error").expect("it tells of an error");
    assert_eq!(error.get("type").unwrap().as_str(), Some("oai_proxy_error"));
    error.get("code").unwrap().as_str().unwrap().to_string()
}

#[test]
fn control_plane_paths_are_not_forwarded() {
    for path in [
        "/healthz",
        "/metrics",
        "/favicon.ico",
        "/admin",
        "/admin/not-found",
        "/admin/partials/missing",
        "/static",
        "/static/app.css",
        "/.well-known/appspecific/com.chrome.devtools.json",
    ] {
        assert!(is_control_plane_path(path));
        let (_, step) = begin(settings(), 1, path);
        assert!(step.records.is_empty());
        assert!(matches!(
            step.action,
            Action::Respond(reply) if reply.status == 404 && !reply.json && reply.body.is_empty()
        ));
    }
    for path in ["/", "/missing", "/administrator", "/staticfile", "/v1/responses", "/.well-known/x"] {
        assert!(!is_control_plane_path(path));
    }
}

#[test]
fn without_an_upstream_the_proxy_is_unavailable() {
    for policy_enabled in [false, true] {
        let (session, step) =
            begin(RuntimeSettings { policy_enabled, ..settings() }, 0, "/v1/chat/completions");
        assert!(matches!(
            &step.action,
            Action::Offer(RecordEvent::CreateRequest(record))
                if record.id == "req" && record.method == "POST" && record.model.is_none()
                    && record.endpoint == "/v1/chat/completions?trace=1"
        ));
        let (_, step) = next(session, Event::Offered(true), "unused");
        let body = match &step.action {
            Action::Respond(reply) => {
                assert_eq!(reply.status, 503);
                assert!(reply.json);
                reply.body.clone()
            }
            other => panic!("{other:?}"),
        };
        assert_eq!(error_code(&body), "no_upstream");
        assert!(String::from_utf8_lossy(&body).contains("\"code\":\"no_upstream\""));
        assert_eq!(step.records.len(), 2);
        assert!(matches!(
            &step.records[0],
            RecordEvent::CompleteRequest(end)
                if end.status == "no_upstream" && end.attempt_count == 0
                    && end.final_http_status == Some(503) && end.upstream_name.is_none()
        ));
        assert!(matches!(
            &step.records[1],
            RecordEvent::SaveResponseBody(chunk) if chunk.body == body
        ));
    }
    let (_, step) = begin(
        RuntimeSettings { request_record_enabled: false, ..settings() },
        0,
        "/missing",
    );
    assert!(step.records.is_empty());
    assert!(matches!(step.action, Action::Respond(reply) if reply.status == 503));
}

#[test]
fn with_the_policy_off_a_request_passes_directly() {
    let off = RuntimeSettings { policy_enabled: false, ..settings() };
    let (session, step) = begin(off, 1, "/v1/responses");
    assert!(matches!(step.action, Action::Offer(RecordEvent::CreateRequest(_))));
    let (session, step) = next(session, Event::Offered(true), "att-1");
    assert!(matches!(
        &step.action,
        Action::Offer(RecordEvent::CreateAttempt(record))
            if record.id == "att-1" && record.request_id == "req" && record.attempt_index == 1
                && record.upstream_id == Some(10) && record.upstream_name == "up-10"
    ));
    let (_, step) = next(session, Event::Offered(false), "unused");
    match step.action {
        Action::PassDirect { upstream: 0, context: Some(context) } => {
            assert_eq!(context.request_id, "req");
            assert_eq!(context.attempt_id, None);
            assert_eq!(context.upstream_name, "up-10");
            assert_eq!(context.endpoint, EndpointKind::Responses);
        }
        other => panic!("{other:?}"),
    }
    let (session, _) = begin(off, 1, "/v1/responses");
    let (_, step) = next(session, Event::Offered(false), "att-1");
    assert!(matches!(step.action, Action::PassDirect { upstream: 0, context: None }));
}

fn first_attempt(settings: RuntimeSettings) -> (Session, Step) {
    let (session, step) = begin(settings, 1, "/v1/chat/completions");
    assert!(matches!(step.action, Action::ReadBody));
    let body = br#"{"model":"test-model","stream":true}"#.to_vec();
    let (session, step) = next(session, Event::BodyRead(body.clone()), "att-1");
    if !settings.request_record_enabled {
        return (session, step);
    }
    assert!(matches!(
        &step.action,
        Action::Offer(RecordEvent::CreateRequest(record))
            if record.model.as_deref() == Some("test-model")
    ));
    let (session, step) = next(session, Event::Offered(true), "att-1");
    assert!(matches!(
        &step.records[..],
        [RecordEvent::SaveRequestBody(chunk)] if chunk.body == body
    ));
    assert!(matches!(
        &step.action,
        Action::Offer(RecordEvent::CreateAttempt(record))
            if record.id == "att-1" && record.attempt_index == 1
    ));
    next(session, Event::Offered(true), "unused")
}

#[test]
fn a_failed_attempt_is_followed_by_another() {
    let (session, step) = first_attempt(settings());
    match step.action {
        Action::Attempt { upstream: 0, context: Some(context) } => {
            assert_eq!(context.attempt_id, "att-1");
            assert_eq!(context.request_status_on_success, "success");
            assert_eq!(context.attempt_count, 1);
        }
        other => panic!("{other:?}"),
    }
    let (session, step) = next(session, Event::Failed(timeout()), "att-2");
    assert!(matches!(
        &step.records[..],
        [RecordEvent::FinishAttempt(end)]
            if end.attempt_id == "att-1" && end.update.status == "first_token_timeout"
                && end.update.timeout_reason.as_deref() == Some("first_token_timeout")
                && end.update.first_token_ms == Some(50) && !end.update.emitted_to_client
    ));
    assert!(matches!(
        &step.action,
        Action::Offer(RecordEvent::CreateAttempt(record))
            if record.id == "att-2" && record.attempt_index == 2
    ));
    let (session, step) = next(session, Event::Offered(true), "unused");
    match &step.action {
        Action::Attempt { upstream: 0, context: Some(context) } => {
            assert_eq!(context.request_status_on_success, "retried_success");
            assert_eq!(context.attempt_count, 2);
        }
        other => panic!("{other:?}"),
    }
    let (session, step) = next(session, Event::Committed(committed(true)), "unused");
    assert!(step.records.is_empty());
    assert!(matches!(step.action, Action::Deliver));
    let (_, step) = next(session, Event::Failed(timeout()), "unused");
    assert!(step.records.is_empty());
    assert!(matches!(step.action, Action::Ignore));
}

#[test]
fn a_request_is_answered_and_ended_once() {
    let (mut session, _) = begin(settings(), 1, "/v1/chat/completions");
    let mut answers = 0;
    let mut ends = 0;
    for (number, event) in [
        Event::Broken,
        Event::BodyRead(b"{}".to_vec()),
        Event::BodyRead(b"{}".to_vec()),
        Event::Offered(true),
        Event::Committed(committed(false)),
        Event::Offered(true),
        Event::Offered(true),
        Event::Failed(timeout()),
        Event::Offered(true),
        Event::Broken,
        Event::Committed(committed(false)),
        Event::Failed(timeout()),
        Event::Offered(true),
    ]
    .into_iter()
    .enumerate()
    {
        let (next_session, step) = next(session, event, &format!("att-{number}"));
        session = next_session;
        answers += usize::from(matches!(
            step.action,
            Action::Respond(_) | Action::Deliver | Action::PassDirect { .. }
        ));
        for record in &step.records {
            ends += usize::from(matches!(
                record,
                RecordEvent::CompleteRequest(end) if end.request_id == "req"
            ));
        }
    }
    assert_eq!((answers, ends), (1, 1));
}

#[test]
fn used_up_attempts_are_answered_with_the_last_failure() {
    let (session, _) = first_attempt(settings());
    let (session, _) = next(session, Event::Broken, "att-2");
    let (session, _) = next(session, Event::Offered(true), "unused");
    let (_, step) = next(session, Event::Failed(timeout()), "unused");
    assert_eq!(step.records.len(), 3);
    assert!(matches!(
        &step.records[1],
        RecordEvent::CompleteRequest(end)
            if end.status == "exhausted_timeout" && end.attempt_count == 2
                && end.final_http_status == Some(504)
                && end.upstream_name.as_deref() == Some("up-10")
    ));
    match &step.action {
        Action::Respond(reply) => {
            assert_eq!(reply.status, 504);
            assert_eq!(error_code(&reply.body), "first_token_timeout");
        }
        other => panic!("{other:?}"),
    }
}

#[test]
fn a_broken_attempt_is_a_failure_without_a_timeout() {
    let one = RuntimeSettings { auto_retry_enabled: false, ..settings() };
    let (session, _) = first_attempt(one);
    let (_, step) = next(session, Event::Broken, "unused");
    assert!(matches!(
        &step.records[0],
        RecordEvent::FinishAttempt(end)
            if end.update.status == "proxy_attempt_error"
                && end.update.error_message.as_deref()
                    == Some("proxy attempt failed before contacting upstream")
    ));
    assert!(matches!(
        &step.records[1],
        RecordEvent::CompleteRequest(end)
            if end.status == "exhausted_failure" && end.attempt_count == 1
    ));
    assert!(matches!(
        step.action,
        Action::Respond(reply) if reply.status == 502 && error_code(&reply.body) == "proxy_attempt_error"
    ));
}

#[test]
fn a_request_ends_on_record_when_its_attempt_was_not_taken() {
    let (session, _) = begin(settings(), 1, "/v1/chat/completions");
    let (session, _) = next(session, Event::BodyRead(b"{}".to_vec()), "att-1");
    let (session, _) = next(session, Event::Offered(true), "att-1");
    let (session, step) = next(session, Event::Offered(false), "unused");
    assert!(matches!(step.action, Action::Attempt { upstream: 0, context: None }));
    let (_, step) = next(session, Event::Committed(committed(false)), "unused");
    assert!(matches!(
        &step.records[..],
        [RecordEvent::CompleteRequest(end)]
            if end.status == "success" && end.attempt_count == 1
                && end.final_http_status == Some(200) && end.error_message.is_none()
    ));
    assert!(matches!(step.action, Action::Deliver));
}

#[test]
fn an_undeferred_attempt_ends_at_once() {
    let (session, _) = first_attempt(settings());
    let (_, step) = next(session, Event::Committed(committed(false)), "unused");
    assert!(matches!(
        &step.records[..],
        [RecordEvent::FinishAttempt(end), RecordEvent::CompleteRequest(_)]
            if end.update.status == "success" && end.update.http_status == Some(200)
                && end.update.first_token_ms == Some(9) && end.update.emitted_to_client
    ));
}

#[test]
fn with_recording_off_nothing_is_recorded() {
    let off = RuntimeSettings { request_record_enabled: false, ..settings() };
    let (session, step) = first_attempt(off);
    assert!(step.records.is_empty());
    assert!(matches!(step.action, Action::Attempt { upstream: 0, context: None }));
    let (session, step) = next(session, Event::Failed(timeout()), "att-2");
    assert!(step.records.is_empty());
    assert!(matches!(step.action, Action::Attempt { upstream: 0, context: None }));
    let (_, step) = next(session, Event::Failed(timeout()), "att-3");
    assert!(step.records.is_empty());
    assert!(matches!(step.action, Action::Respond(reply) if reply.status == 504));
}

#[test]
fn an_unreadable_body_is_a_bad_request() {
    let (session, _) = begin(settings(), 1, "/v1/chat/completions");
    let (_, step) = next(session, Event::BodyFailed("cut off".to_string()), "unused");
    assert!(step.records.is_empty());
    match step.action {
        Action::Respond(reply) => {
            assert_eq!(reply.status, 400);
            assert_eq!(error_code(&reply.body), "invalid_request_body");
            let json = parse_bytes(&reply.body).unwrap();
            assert_eq!(
                json.get("error").unwrap().get("message").unwrap().as_str(),
                Some("failed to read request body: cut off")
            );
        }
        other => panic!("{other:?}"),
    }
}

#[test]
fn attempts_take_the_upstreams_in_turn() {
    let upstreams = [upstream(1), upstream(2)];
    let five = RuntimeSettings { max_attempts: 5, ..settings() };
    assert_eq!(build_attempt_plan(&five, &upstreams), vec![0, 1, 0, 1, 0]);
    assert_eq!(build_attempt_plan(&five, &upstreams[..1]), vec![0, 0, 0, 0, 0]);
    assert_eq!(build_attempt_plan(&five, &[]), vec![0]);
    let none = RuntimeSettings { max_attempts: 0, ..settings() };
    assert_eq!(build_attempt_plan(&none, &upstreams), vec![0]);
    let single = RuntimeSettings { auto_retry_enabled: false, ..five };
    assert_eq!(build_attempt_plan(&single, &upstreams), vec![0]);
}

#[test]
fn an_error_reads_back_as_it_was_told() {
    let body = openai_error_payload("a\"b", "line\nzwei 中");
    let json = parse_bytes(&body).unwrap();
    let error = json.get("error").unwrap();
    assert_eq!(error.get("code").unwrap().as_str(), Some("a\"b"));
    assert_eq!(error.get("message").unwrap().as_str(), Some("line\nzwei 中"));
    assert_eq!(error.get("type").unwrap().as_str(), Some("oai_proxy_error"));
    assert_eq!(
        openai_error_payload("c", "m"),
        br#"{"error":{"code":"c","message":"m","type":"oai_proxy_error"}}"#
    );
}

#[test]
fn identifiers_are_random_uuids() {
    let id = new_id();
    assert_eq!(id.len(), 36);
    for (i, c) in id.chars().enumerate() {
        match i {
            8 | 13 | 18 | 23 => assert_eq!(c, '-'),
            14 => assert_eq!(c, '4'),
            19 => assert!("89ab".contains(c)),
            _ => assert!(c.is_ascii_digit() || ('a'..='f').contains(&c)),
        }
    }
    assert_ne!(id, new_id());
    let snapshot = RuntimeSnapshot { settings: settings(), upstreams: vec![upstream(1)] };
    let (session, step) = Session::begin(&snapshot, "GET", "/x", None);
    assert!(matches!(step.action, Action::ReadBody));
    let (_, step) = session.advance(Event::BodyRead(Vec::new()));
    assert!(matches!(
        &step.action,
        Action::Offer(RecordEvent::CreateRequest(record))
            if record.id.len() == 36 && record.endpoint == "/x" && record.method == "GET"
    ));
}

/// What a session does as `events` happen, records left aside; each offered
/// record is taken or not, as `taken` says.
fn deeds(settings: RuntimeSettings, events: Vec<Event>, taken: bool) -> Vec<String> {
    let mut done = Vec::new();
    let (mut session, mut step) = begin(settings, 2, "/v1/responses");
    let mut events = events.into_iter();
    loop {
        let event = match &step.action {
            Action::Offer(_) => Some(Event::Offered(taken)),
            Action::PassDirect { upstream, .. } => {
                done.push(format!("pass {upstream}"));
                None
            }
            Action::Attempt { upstream, .. } => {
                done.push(format!("try {upstream}"));
                events.next()
            }
            Action::Respond(reply) => {
                done.push(format!("{} {}", reply.status, error_code(&reply.body)));
                None
            }
            Action::ReadBody => {
                done.push("read".to_string());
                events.next()
            }
            Action::Deliver => {
                done.push("deliver".to_string());
                None
            }
            Action::Ignore => panic!("nothing was asked for"),
        };
        match event {
            Some(event) => (session, step) = next(session, event, "att"),
            None => return done,
        }
    }
}

#[test]
fn recording_does_not_change_how_a_request_is_served() {
    let served = |policy_enabled: bool, fails: usize, expected: &[&str]| {
        for (request_record_enabled, taken) in [(false, false), (true, false), (true, true)] {
            let mut events = vec![Event::BodyRead(b"{}".to_vec())];
            for _ in 0..fails {
                events.push(Event::Failed(timeout()));
            }
            events.push(Event::Committed(committed(request_record_enabled && taken)));
            let settings = RuntimeSettings { policy_enabled, request_record_enabled, ..settings() };
            assert_eq!(deeds(settings, events, taken), expected);
        }
    };
    served(true, 0, &["read", "try 0", "deliver"]);
    served(true, 1, &["read", "try 0", "try 1", "deliver"]);
    served(true, 2, &["read", "try 0", "try 1", "504 first_token_timeout"]);
    served(false, 0, &["pass 0"]);
}
