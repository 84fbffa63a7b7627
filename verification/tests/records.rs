use oai_proxy::admin::handlers::{
    complete_label, dashboard, format_optional_ms, request_counts, RequestRecordView,
    TrafficStatsView,
};
use oai_proxy::observability::metrics::metrics;
use oai_proxy::recording::{
    event_name, write_event, CompleteRequest, FinishAttemptRecord, FinishBody, RecordBodyChunk,
    RecordEvent, RECORD_QUEUE_CAPACITY,
};
use oai_proxy::storage::records::{
    change_payload, count_attempt_timeout_reason, count_by_status, retry_count, total_requests,
    traffic_stats, AttemptRecord, FinishAttempt, NewAttemptRecord, NewRequestRecord,
    PayloadChange, RecordWrite, RequestPayload, RequestRecord,
};
use oai_proxy::storage::settings::RuntimeSettings;

fn request(id: &str, status: &str, duration_ms: Option<i64>) -> RequestRecord {
    RequestRecord {
        id: id.to_string(),
        method: "POST".to_string(),
        endpoint: "/responses".to_string(),
        model: Some("model-a".to_string()),
        status: status.to_string(),
        upstream_name: Some("default".to_string()),
        attempt_count: 1,
        final_http_status: Some(200),
        error_message: None,
        retry_count: 0,
        response_header_ms: None,
        first_token_ms: None,
        request_body_bytes: None,
        request_body_complete: None,
        response_body_bytes: None,
        response_body_complete: None,
        created_at: "2026-07-14T00:00:00.000Z".to_string(),
        completed_at: None,
        duration_ms,
    }
}

fn attempt(id: &str, first_token_ms: Option<i64>, reason: Option<&str>, emitted: i64) -> AttemptRecord {
    AttemptRecord {
        id: id.to_string(),
        request_id: "req".to_string(),
        attempt_index: 1,
        upstream_id: Some(1),
        upstream_name: "default".to_string(),
        status: "success".to_string(),
        http_status: Some(200),
        response_header_ms: Some(10),
        first_token_ms,
        timeout_reason: reason.map(str::to_string),
        error_message: reason.map(str::to_string),
        emitted_to_client: emitted,
        started_at: "2026-07-14T00:00:00.000Z".to_string(),
        completed_at: None,
        duration_ms: None,
    }
}

fn sample() -> (Vec<RequestRecord>, Vec<AttemptRecord>) {
    (
        vec![
            request("req-success", "success", Some(120)),
            request("req-token-timeout", "exhausted_timeout", Some(340)),
            request("req-header-timeout", "exhausted_timeout", Some(220)),
        ],
        vec![
            attempt("attempt-success", Some(35), None, 1),
            attempt("attempt-token-timeout", Some(1000), Some("first_token_timeout"), 0),
            attempt("attempt-header-timeout", None, Some("response_header_timeout"), 0),
        ],
    )
}

#[test]
fn traffic_stats_summarize_latencies_and_timeout_attempts() {
    let (requests, attempts) = sample();
    let stats = traffic_stats(&requests, &attempts);
    assert_eq!(stats.first_token_min_ms, Some(35));
    assert_eq!(stats.first_token_max_ms, Some(35));
    assert_eq!(stats.response_min_ms, Some(120));
    assert_eq!(stats.response_max_ms, Some(340));
    assert_eq!(stats.timeout_filtered_attempts, 2);
    assert_eq!(stats.response_header_timeout_attempts, 1);
    assert_eq!(stats.first_token_timeout_attempts, 1);
    let none = traffic_stats(&[], &[]);
    assert_eq!(none.first_token_min_ms, None);
    assert_eq!(none.response_max_ms, None);
    assert_eq!(none.timeout_filtered_attempts, 0);
}

#[test]
fn every_value_lies_between_the_extremes() {
    let attempts: Vec<AttemptRecord> = [30, 10, 20]
        .iter()
        .map(|ms| attempt("a", Some(*ms), None, 1))
        .collect();
    let stats = traffic_stats(&[request("r", "started", None)], &attempts);
    assert_eq!((stats.first_token_min_ms, stats.first_token_max_ms), (Some(10), Some(30)));
    assert_eq!((stats.response_min_ms, stats.response_max_ms), (None, None));
}

#[test]
fn metrics_returns_request_and_timeout_counters() {
    let requests = vec![
        request("req-success", "success", Some(100)),
        request("req-token-timeout", "exhausted_timeout", Some(200)),
        request("req-header-timeout", "exhausted_timeout", Some(150)),
    ];
    let attempts = vec![
        attempt("attempt-success", Some(25), None, 1),
        attempt("attempt-token-timeout", Some(50), Some("first_token_timeout"), 0),
        attempt("attempt-header-timeout", None, Some("response_header_timeout"), 0),
    ];
    let snapshot = metrics(&requests, &attempts);
    assert_eq!(snapshot.requests_total, 3);
    assert_eq!(snapshot.first_token_min_ms, Some(25));
    assert_eq!(snapshot.first_token_max_ms, Some(25));
    assert_eq!(snapshot.response_min_ms, Some(100));
    assert_eq!(snapshot.response_max_ms, Some(200));
    assert_eq!(snapshot.timeout_filtered_attempts, 2);
    assert_eq!(snapshot.attempts_response_header_timeout, 1);
    assert_eq!(snapshot.attempts_first_token_timeout, 1);
}

#[test]
fn metrics_count_requests_and_timeouts() {
    let (requests, attempts) = sample();
    let snapshot = metrics(&requests, &attempts);
    assert_eq!(snapshot.requests_total, 3);
    assert_eq!(snapshot.requests_success, 1);
    assert_eq!(snapshot.requests_retried_success, 0);
    assert_eq!(snapshot.requests_exhausted_timeout, 2);
    assert_eq!(snapshot.first_token_min_ms, Some(35));
    assert_eq!(snapshot.first_token_max_ms, Some(35));
    assert_eq!(snapshot.response_min_ms, Some(120));
    assert_eq!(snapshot.response_max_ms, Some(340));
    assert_eq!(snapshot.timeout_filtered_attempts, 2);
    assert_eq!(snapshot.attempts_response_header_timeout, 1);
    assert_eq!(snapshot.attempts_first_token_timeout, 1);
    assert_eq!(total_requests(&requests), 3);
    assert_eq!(count_by_status(&requests, "exhausted_timeout"), 2);
    assert_eq!(count_by_status(&requests, "exhausted"), 0);
    assert_eq!(count_attempt_timeout_reason(&attempts, "first_token_timeout"), 1);
}

#[test]
fn the_dashboard_counts_retried_requests_as_successes() {
    let (mut requests, attempts) = sample();
    requests.push(request("req-retried", "retried_success", None));
    let counts = request_counts(&requests);
    assert_eq!(counts.total_requests, 4);
    assert_eq!(counts.success_requests, 2);
    assert_eq!(counts.timeout_requests, 2);

    let settings = RuntimeSettings {
        policy_enabled: true,
        request_record_enabled: true,
        response_header_timeout_ms: 1,
        first_token_timeout_ms: 2,
        max_attempts: 3,
        auto_retry_enabled: true,
    };
    let recent = vec![request("b", "success", None), request("a", "success", None)];
    let page = dashboard(settings, &[], &requests, &attempts, recent);
    assert_eq!(page.settings, settings);
    assert_eq!(page.upstream_count, 0);
    assert_eq!(page.counts, counts);
    assert_eq!(page.traffic_stats.response_max_ms, "340 ms");
    let ids: Vec<&str> = page.requests.iter().map(|view| view.id.as_str()).collect();
    assert_eq!(ids, vec!["b", "a"]);
}

#[test]
fn a_request_is_shown_with_dashes_for_what_is_missing() {
    let mut record = request("r", "started", None);
    record.model = None;
    record.upstream_name = None;
    record.final_http_status = None;
    let view = RequestRecordView::from_record(record);
    assert_eq!(view.id, "r");
    assert_eq!(view.method, "POST");
    assert_eq!(view.endpoint, "/responses");
    assert_eq!(view.model, "-");
    assert_eq!(view.status, "started");
    assert_eq!(view.upstream_name, "-");
    assert_eq!(view.attempt_count, 1);
    assert_eq!(view.final_http_status, "-");
    assert_eq!(view.response_header_ms, "-");
    assert_eq!(view.request_body_complete, "-");
    assert_eq!(view.duration_ms, "-");
    assert_eq!(view.error_message, "");

    let mut record = request("r", "success", Some(-7));
    record.retry_count = 2;
    record.response_header_ms = Some(12);
    record.first_token_ms = Some(i64::MIN);
    record.request_body_bytes = Some(19);
    record.request_body_complete = Some(1);
    record.response_body_bytes = Some(0);
    record.response_body_complete = Some(0);
    record.error_message = Some("timeout".to_string());
    let view = RequestRecordView::from_record(record);
    assert_eq!(view.model, "model-a");
    assert_eq!(view.upstream_name, "default");
    assert_eq!(view.final_http_status, "200");
    assert_eq!(view.retry_count, 2);
    assert_eq!(view.response_header_ms, "12");
    assert_eq!(view.first_token_ms, "-9223372036854775808");
    assert_eq!(view.request_body_bytes, "19");
    assert_eq!(view.request_body_complete, "完整");
    assert_eq!(view.response_body_bytes, "0");
    assert_eq!(view.response_body_complete, "部分");
    assert_eq!(view.created_at, "2026-07-14T00:00:00.000Z");
    assert_eq!(view.duration_ms, "-7");
    assert_eq!(view.error_message, "timeout");
}

#[test]
fn labels_tell_times_and_bodies() {
    assert_eq!(format_optional_ms(Some(35)), "35 ms");
    assert_eq!(format_optional_ms(None), "-");
    assert_eq!(complete_label(Some(1)), "完整");
    assert_eq!(complete_label(Some(2)), "部分");
    assert_eq!(complete_label(None), "-");
    let (requests, attempts) = sample();
    let view = TrafficStatsView::from_stats(traffic_stats(&requests, &attempts));
    assert_eq!(view.first_token_min_ms, "35 ms");
    assert_eq!(view.first_token_max_ms, "35 ms");
    assert_eq!(view.response_min_ms, "120 ms");
    assert_eq!(view.timeout_filtered_attempts, 2);
    assert_eq!(view.response_header_timeout_attempts, 1);
    assert_eq!(view.first_token_timeout_attempts, 1);
}

#[test]
fn all_attempts_but_the_first_are_retries() {
    assert_eq!(retry_count(0), 0);
    assert_eq!(retry_count(1), 0);
    assert_eq!(retry_count(3), 2);
    assert_eq!(retry_count(i64::MIN), 0);
    assert_eq!(retry_count(i64::MAX), i64::MAX - 1);
}

#[test]
fn events_become_writes() {
    let write = write_event(
        RecordEvent::CreateRequest(NewRequestRecord {
            id: "req-1".to_string(),
            method: "POST".to_string(),
            endpoint: "/v1/chat/completions".to_string(),
            model: Some("model-a".to_string()),
        }),
        "t1",
    );
    assert!(matches!(
        write,
        RecordWrite::InsertRequest { id, method, endpoint, model, status, created_at }
            if id == "req-1" && method == "POST" && endpoint == "/v1/chat/completions"
                && model.as_deref() == Some("model-a") && status == "started" && created_at == "t1"
    ));

    let write = write_event(
        RecordEvent::CompleteRequest(CompleteRequest {
            request_id: "req-1".to_string(),
            status: "exhausted_timeout".to_string(),
            upstream_name: Some("default".to_string()),
            attempt_count: 3,
            final_http_status: Some(504),
            error_message: Some("timeout".to_string()),
        }),
        "t2",
    );
    assert!(matches!(
        write,
        RecordWrite::UpdateRequest {
            id, status, upstream_name, attempt_count: 3, final_http_status: Some(504),
            error_message, retry_count: 2, completed_at,
        } if id == "req-1" && status == "exhausted_timeout"
            && upstream_name.as_deref() == Some("default")
            && error_message.as_deref() == Some("timeout") && completed_at == "t2"
    ));

    let write = write_event(
        RecordEvent::CreateAttempt(NewAttemptRecord {
            id: "attempt-1".to_string(),
            request_id: "req-1".to_string(),
            attempt_index: 1,
            upstream_id: Some(1),
            upstream_name: "default".to_string(),
        }),
        "t3",
    );
    assert!(matches!(
        write,
        RecordWrite::InsertAttempt {
            id, request_id, attempt_index: 1, upstream_id: Some(1), upstream_name, status, started_at,
        } if id == "attempt-1" && request_id == "req-1" && upstream_name == "default"
            && status == "started" && started_at == "t3"
    ));

    let write = write_event(
        RecordEvent::FinishAttempt(FinishAttemptRecord {
            attempt_id: "attempt-1".to_string(),
            update: FinishAttempt {
                status: "first_token_timeout".to_string(),
                http_status: Some(200),
                response_header_ms: Some(10),
                first_token_ms: Some(50),
                timeout_reason: Some("first_token_timeout".to_string()),
                error_message: Some("timeout".to_string()),
                emitted_to_client: true,
            },
        }),
        "t4",
    );
    assert!(matches!(
        write,
        RecordWrite::UpdateAttempt {
            id, status, http_status: Some(200), response_header_ms: Some(10),
            first_token_ms: Some(50), timeout_reason, error_message, emitted_to_client: 1,
            completed_at,
        } if id == "attempt-1" && status == "first_token_timeout"
            && timeout_reason.as_deref() == Some("first_token_timeout")
            && error_message.as_deref() == Some("timeout") && completed_at == "t4"
    ));
}

fn applied(payload: Option<RequestPayload>, event: RecordEvent) -> Option<RequestPayload> {
    match write_event(event, "now") {
        RecordWrite::ChangePayload { request_id, change } => {
            Some(change_payload(payload, &request_id, &change))
        }
        other => panic!("{other:?} changes no body"),
    }
}

fn chunk(body: &[u8]) -> RecordBodyChunk {
    RecordBodyChunk {
        request_id: "req-1".to_string(),
        body: body.to_vec(),
    }
}

#[test]
fn saved_bodies_are_whole() {
    let payload = applied(None, RecordEvent::SaveRequestBody(chunk(br#"{"model":"model-a"}"#)));
    let payload = applied(payload, RecordEvent::SaveResponseBody(chunk(b"data: done\n\n"))).unwrap();
    assert_eq!(payload.request_id, "req-1");
    assert_eq!(payload.request_body, br#"{"model":"model-a"}"#);
    assert_eq!(payload.request_body_bytes, 19);
    assert_eq!(payload.request_body_complete, 1);
    assert_eq!(payload.request_body_error, None);
    assert_eq!(payload.response_body, b"data: done\n\n");
    assert_eq!(payload.response_body_bytes, 12);
    assert_eq!(payload.response_body_complete, 1);
    assert_eq!(payload.response_body_error, None);
}

#[test]
fn appended_bodies_add_up() {
    let mut payload = None;
    for part in [b"one ".as_slice(), b"two ".as_slice(), b"three".as_slice()] {
        payload = applied(payload, RecordEvent::AppendResponseBody(chunk(part)));
    }
    payload = applied(payload, RecordEvent::AppendRequestBody(chunk(b"ask")));
    payload = applied(
        payload,
        RecordEvent::FinishRequestBody(FinishBody {
            request_id: "req-1".to_string(),
            complete: false,
            error_message: Some("cut".to_string()),
        }),
    );
    payload = applied(
        payload,
        RecordEvent::FinishResponseBody(FinishBody {
            request_id: "req-1".to_string(),
            complete: true,
            error_message: None,
        }),
    );
    let payload = payload.unwrap();
    assert_eq!(payload.response_body, b"one two three");
    assert_eq!(payload.response_body_bytes, 13);
    assert_eq!(payload.response_body_complete, 1);
    assert_eq!(payload.response_body_error, None);
    assert_eq!(payload.request_body, b"ask");
    assert_eq!(payload.request_body_bytes, 3);
    assert_eq!(payload.request_body_complete, 0);
    assert_eq!(payload.request_body_error, Some("cut".to_string()));
}

#[test]
fn streaming_a_response_equals_saving_it() {
    let mut streamed = None;
    for part in [b"ab".as_slice(), b"".as_slice(), b"c".as_slice()] {
        streamed = Some(change_payload(streamed, "r", &PayloadChange::AppendResponse(part.to_vec())));
    }
    let streamed = change_payload(
        streamed,
        "r",
        &PayloadChange::FinishResponse { complete: true, error_message: None },
    );
    let saved = change_payload(None, "r", &PayloadChange::SaveResponse(b"abc".to_vec()));
    assert_eq!(streamed.response_body, saved.response_body);
    assert_eq!(streamed.response_body_bytes, saved.response_body_bytes);
    assert_eq!(streamed.response_body_complete, saved.response_body_complete);
    assert_eq!(streamed.request_body_complete, 0);
}

#[test]
fn the_bodies_do_not_get_in_each_others_way() {
    let on_request = [
        PayloadChange::AppendRequest(b"as".to_vec()),
        PayloadChange::AppendRequest(b"k".to_vec()),
        PayloadChange::FinishRequest { complete: true, error_message: None },
    ];
    let on_response = [
        PayloadChange::AppendResponse(b"ans".to_vec()),
        PayloadChange::AppendResponse(b"wer".to_vec()),
        PayloadChange::FinishResponse { complete: false, error_message: Some("cut".to_string()) },
    ];
    let apply = |changes: Vec<&PayloadChange>| {
        let mut payload = None;
        for change in changes {
            payload = Some(change_payload(payload, "r", change));
        }
        payload.unwrap()
    };
    let one_then_other = apply(on_request.iter().chain(on_response.iter()).collect());
    let in_turn = apply(
        on_response.iter().zip(on_request.iter()).flat_map(|(a, b)| [a, b]).collect(),
    );
    for payload in [one_then_other, in_turn] {
        assert_eq!(payload.request_body, b"ask");
        assert_eq!(payload.request_body_bytes, 3);
        assert_eq!(payload.request_body_complete, 1);
        assert_eq!(payload.response_body, b"answer");
        assert_eq!(payload.response_body_bytes, 6);
        assert_eq!(payload.response_body_complete, 0);
        assert_eq!(payload.response_body_error, Some("cut".to_string()));
    }
}

#[test]
fn events_have_names() {
    assert_eq!(event_name(&RecordEvent::SaveRequestBody(chunk(b""))), "save_request_body");
    assert_eq!(event_name(&RecordEvent::AppendRequestBody(chunk(b""))), "append_request_body");
    assert_eq!(event_name(&RecordEvent::SaveResponseBody(chunk(b""))), "save_response_body");
    assert_eq!(event_name(&RecordEvent::AppendResponseBody(chunk(b""))), "append_response_body");
    assert_eq!(RECORD_QUEUE_CAPACITY, 4096);
    let update = FinishAttempt::default();
    assert_eq!(update.status, "");
    assert!(!update.emitted_to_client);
}
