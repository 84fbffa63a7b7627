use axum::http::{HeaderMap, HeaderValue};
use oai_proxy::proxy::attempt::{
    client_status, elapsed_ms, first_token_wait_ms, is_retryable_status, prepare_sse_response,
    response_header_wait_ms, run, AttemptFailure, AttemptOutcome, AttemptRequest, PendingStream,
    Sent, StreamStep,
};
use oai_proxy::proxy::gate::{GateEvent, PREFIX_BUFFER_LIMIT};
use oai_proxy::proxy::relay::{FinalizedSseStream, StreamItem, StreamRecordContext};
use oai_proxy::proxy::semantic_token::EndpointKind;
use oai_proxy::recording::RecordEvent;
use oai_proxy::storage::settings::RuntimeSettings;

const CREATED: &[u8] = b"event: response.created\ndata: {\"type\":\"response.created\"}\n\n";
const TOKEN: &[u8] =
    b"event: response.output_text.delta\ndata: {\"type\":\"response.output_text.delta\",\"delta\":\"hello\"}\n\n";

fn headers(content_type: &str) -> HeaderMap {
    let mut headers = HeaderMap::new();
    headers.insert("content-type", HeaderValue::from_str(content_type).unwrap());
    headers.insert("connection", HeaderValue::from_static("x-hop"));
    headers.insert("x-hop", HeaderValue::from_static("1"));
    headers
}

fn context() -> StreamRecordContext {
    StreamRecordContext {
        request_id: "req".to_string(),
        attempt_id: "att".to_string(),
        request_status_on_success: "retried_success".to_string(),
        upstream_name: "default".to_string(),
        attempt_count: 2,
    }
}

fn input(context: Option<StreamRecordContext>) -> AttemptRequest<'static> {
    AttemptRequest {
        request_body: br#"{"stream":true}"#,
        endpoint: EndpointKind::Responses,
        stream_record_context: context,
    }
}

fn pending(context: Option<StreamRecordContext>) -> PendingStream {
    let map = headers("text/event-stream");
    match run(input(context), Sent::Answered { status: 200, headers: &map }, 12) {
        AttemptOutcome::AwaitToken { status, headers, pending } => {
            assert_eq!(status, 200);
            assert_eq!(headers.len(), 1);
            assert_eq!(headers[0].name, "content-type");
            pending
        }
        other => panic!("{other:?}"),
    }
}

fn waits(step: StreamStep) -> PendingStream {
    match step {
        StreamStep::Wait(pending) => pending,
        other => panic!("{other:?}"),
    }
}

fn fails(step: StreamStep) -> AttemptFailure {
    match step {
        StreamStep::Fail(failure) => failure,
        other => panic!("{other:?}"),
    }
}

fn initial_of(stream: &mut FinalizedSseStream) -> Vec<u8> {
    stream.take_initial().0.expect("something was held back").to_vec()
}

#[test]
fn an_unreachable_upstream_is_a_bad_gateway() {
    match run(input(None), Sent::Failed, 0) {
        AttemptOutcome::RetryableFailure(failure) => {
            assert_eq!(failure.status, "upstream_error");
            assert_eq!(failure.final_http_status, 502);
            assert_eq!(failure.upstream_http_status, None);
            assert_eq!(failure.timeout_reason, None);
            assert_eq!(failure.error_message, "upstream request failed");
        }
        other => panic!("{other:?}"),
    }
}

#[test]
fn a_late_header_is_a_gateway_timeout() {
    match run(input(None), Sent::TimedOut, 0) {
        AttemptOutcome::RetryableFailure(failure) => {
            assert_eq!(failure.status, "response_header_timeout");
            assert_eq!(failure.final_http_status, 504);
            assert_eq!(failure.timeout_reason.as_deref(), Some("response_header_timeout"));
            assert_eq!(
                failure.error_message,
                "waiting for upstream response header timed out"
            );
        }
        other => panic!("{other:?}"),
    }
}

#[test]
fn some_statuses_are_worth_another_attempt() {
    for status in [500, 503, 599, 408, 429] {
        assert!(is_retryable_status(status));
        let map = headers("text/event-stream");
        match run(input(None), Sent::Answered { status, headers: &map }, 9) {
            AttemptOutcome::RetryableFailure(failure) => {
                assert_eq!(failure.status, format!("upstream_http_{status}"));
                assert_eq!(failure.final_http_status, status);
                assert_eq!(failure.upstream_http_status, Some(status as i64));
                assert_eq!(failure.response_header_ms, Some(9));
                assert_eq!(failure.first_token_ms, None);
                assert_eq!(failure.timeout_reason, None);
                assert_eq!(failure.error_message, format!("upstream returned HTTP {status}"));
            }
            other => panic!("{other:?}"),
        }
    }
    for status in [200, 404, 400, 600, 499] {
        assert!(!is_retryable_status(status));
    }
}

#[test]
fn a_plain_answer_is_committed_at_once() {
    for (status, content_type) in [(200, "application/json"), (404, "text/event-stream")] {
        let map = headers(content_type);
        match run(input(Some(context())), Sent::Answered { status, headers: &map }, 7) {
            AttemptOutcome::Committed { status: sent, headers, committed, mut stream } => {
                assert_eq!(sent, status);
                assert_eq!(headers.len(), 1);
                assert_eq!(committed.http_status, status as i64);
                assert_eq!(committed.response_header_ms, 7);
                assert_eq!(committed.first_token_ms, None);
                assert!(!committed.emitted_to_client);
                assert!(committed.records_deferred);
                assert!(stream.take_initial().0.is_none());
            }
            other => panic!("{other:?}"),
        }
    }
}

#[test]
fn the_first_token_opens_the_stream_with_all_before_it() {
    let pending = waits(prepare_sse_response(pending(None), GateEvent::Chunk(CREATED), 20));
    let pending = waits(prepare_sse_response(pending, GateEvent::Chunk(b": ping\n\ndata: "), 30));
    let mut rest = b"{\"delta\":\"x\"}\n\n".to_vec();
    rest.extend_from_slice(TOKEN);
    rest.extend_from_slice(b"data: begun");
    match prepare_sse_response(pending, GateEvent::Chunk(&rest), 40) {
        StreamStep::Commit { committed, mut stream } => {
            assert_eq!(committed.http_status, 200);
            assert_eq!(committed.response_header_ms, 12);
            assert_eq!(committed.first_token_ms, Some(40));
            assert!(committed.emitted_to_client);
            assert!(!committed.records_deferred);
            let mut all = CREATED.to_vec();
            all.extend_from_slice(b": ping\n\ndata: ");
            all.extend_from_slice(&rest);
            assert_eq!(initial_of(&mut stream), all);
        }
        other => panic!("{other:?}"),
    }
}

#[test]
fn the_verdict_does_not_depend_on_the_chunks() {
    let mut all = CREATED.to_vec();
    all.extend_from_slice(TOKEN);
    for at in 0..all.len() {
        let pending = waits(prepare_sse_response(pending(None), GateEvent::Chunk(&all[..at]), 1));
        match prepare_sse_response(pending, GateEvent::Chunk(&all[at..]), 2) {
            StreamStep::Commit { mut stream, .. } => assert_eq!(initial_of(&mut stream), all),
            other => panic!("cut at {at}: {other:?}"),
        }
    }
}

#[test]
fn a_stream_without_a_token_fails() {
    let timeout = fails(prepare_sse_response(pending(None), GateEvent::Deadline, 50));
    assert_eq!(timeout.status, "first_token_timeout");
    assert_eq!(timeout.final_http_status, 504);
    assert_eq!(timeout.upstream_http_status, Some(200));
    assert_eq!(timeout.response_header_ms, Some(12));
    assert_eq!(timeout.first_token_ms, Some(50));
    assert_eq!(timeout.timeout_reason.as_deref(), Some("first_token_timeout"));
    assert_eq!(timeout.error_message, "waiting for first semantic token timed out");

    let ended = fails(prepare_sse_response(pending(None), GateEvent::StreamEnd, 51));
    assert_eq!(ended.status, "first_token_missing");
    assert_eq!(ended.final_http_status, 504);
    assert_eq!(ended.timeout_reason.as_deref(), Some("first_token_timeout"));
    assert_eq!(ended.error_message, "upstream SSE ended before first semantic token");

    let broken = fails(prepare_sse_response(pending(None), GateEvent::StreamError, 52));
    assert_eq!(broken.status, "upstream_stream_error");
    assert_eq!(broken.final_http_status, 502);
    assert_eq!(broken.timeout_reason, None);
    assert_eq!(broken.first_token_ms, Some(52));
    assert_eq!(broken.error_message, "upstream stream failed before first semantic token");
}

#[test]
fn too_much_without_a_token_fails() {
    let partial = vec![b'x'; PREFIX_BUFFER_LIMIT];
    let held = waits(prepare_sse_response(pending(None), GateEvent::Chunk(&partial), 1));
    let failure = fails(prepare_sse_response(held, GateEvent::Chunk(b"x"), 2));
    assert_eq!(failure.status, "prefix_buffer_overflow");
    assert_eq!(failure.final_http_status, 504);
    assert_eq!(failure.timeout_reason.as_deref(), Some("first_token_timeout"));

    let mut whole = b": ".to_vec();
    whole.extend_from_slice(&partial);
    whole.extend_from_slice(b"\n\n");
    let failure = fails(prepare_sse_response(pending(None), GateEvent::Chunk(&whole), 3));
    assert_eq!(failure.status, "prefix_buffer_overflow");
    assert_eq!(failure.timeout_reason.as_deref(), Some("prefix_buffer_overflow"));
    assert_eq!(
        failure.error_message,
        "SSE prefix exceeded buffer limit before first semantic token"
    );

    let mut token_first = TOKEN.to_vec();
    token_first.extend_from_slice(&whole);
    assert!(matches!(
        prepare_sse_response(pending(None), GateEvent::Chunk(&token_first), 4),
        StreamStep::Commit { .. }
    ));
}

fn committed_stream() -> FinalizedSseStream {
    match prepare_sse_response(pending(Some(context())), GateEvent::Chunk(TOKEN), 40) {
        StreamStep::Commit { committed, stream } => {
            assert!(committed.records_deferred);
            stream
        }
        other => panic!("{other:?}"),
    }
}

fn appended(events: &[RecordEvent]) -> Vec<u8> {
    let mut all = Vec::new();
    for event in events {
        if let RecordEvent::AppendResponseBody(chunk) = event {
            assert_eq!(chunk.request_id, "req");
            all.extend_from_slice(&chunk.body);
        }
    }
    all
}

fn completions(events: &[RecordEvent]) -> usize {
    events
        .iter()
        .filter(|event| matches!(event, RecordEvent::CompleteRequest(_)))
        .count()
}

#[test]
fn a_committed_stream_is_recorded_to_its_end() {
    let mut stream = committed_stream();
    let (initial, mut events) = stream.take_initial();
    assert_eq!(initial.unwrap().as_ref(), TOKEN);
    assert!(stream.take_initial().0.is_none());
    events.extend(stream.on_item(StreamItem::Chunk(b"data: more\n\n")));
    events.extend(stream.on_item(StreamItem::End));
    events.extend(stream.on_drop());
    let mut sent = TOKEN.to_vec();
    sent.extend_from_slice(b"data: more\n\n");
    assert_eq!(appended(&events), sent);
    assert_eq!(completions(&events), 1);
    assert_eq!(events.len(), 5);
    assert!(matches!(
        &events[2],
        RecordEvent::FinishResponseBody(end)
            if end.complete && end.error_message.is_none() && end.request_id == "req"
    ));
    assert!(matches!(
        &events[3],
        RecordEvent::FinishAttempt(end)
            if end.attempt_id == "att" && end.update.status == "success"
                && end.update.http_status == Some(200)
                && end.update.response_header_ms == Some(12)
                && end.update.first_token_ms == Some(40)
                && end.update.timeout_reason.is_none()
                && end.update.emitted_to_client
    ));
    assert!(matches!(
        &events[4],
        RecordEvent::CompleteRequest(end)
            if end.request_id == "req" && end.status == "retried_success"
                && end.upstream_name.as_deref() == Some("default") && end.attempt_count == 2
                && end.final_http_status == Some(200) && end.error_message.is_none()
    ));
}

#[test]
fn a_broken_or_abandoned_stream_is_recorded_once() {
    let mut stream = committed_stream();
    let mut events = stream.take_initial().1;
    events.extend(stream.on_item(StreamItem::Error("connection reset")));
    events.extend(stream.on_item(StreamItem::End));
    events.extend(stream.on_drop());
    assert_eq!(completions(&events), 1);
    assert_eq!(appended(&events), TOKEN);
    assert!(matches!(
        &events[1],
        RecordEvent::FinishResponseBody(end)
            if !end.complete && end.error_message.as_deref() == Some("connection reset")
    ));
    assert!(matches!(
        &events[3],
        RecordEvent::CompleteRequest(end) if end.status == "stream_error"
    ));

    let mut stream = committed_stream();
    let mut events = stream.take_initial().1;
    events.extend(stream.on_item(StreamItem::Chunk(b"part")));
    events.extend(stream.on_drop());
    events.extend(stream.on_drop());
    assert_eq!(completions(&events), 1);
    let mut sent = TOKEN.to_vec();
    sent.extend_from_slice(b"part");
    assert_eq!(appended(&events), sent);
    assert!(matches!(
        &events[4],
        RecordEvent::CompleteRequest(end)
            if end.status == "client_disconnected"
                && end.error_message.as_deref()
                    == Some("downstream client disconnected before stream completed")
    ));
}

#[test]
fn an_unrecorded_stream_records_nothing() {
    match prepare_sse_response(pending(None), GateEvent::Chunk(TOKEN), 40) {
        StreamStep::Commit { mut stream, .. } => {
            assert!(stream.take_initial().1.is_empty());
            assert!(stream.on_item(StreamItem::Chunk(b"x")).is_empty());
            assert!(stream.on_item(StreamItem::End).is_empty());
            assert!(stream.on_drop().is_empty());
        }
        other => panic!("{other:?}"),
    }
}

#[test]
fn each_wait_comes_from_its_own_setting() {
    let mut settings = RuntimeSettings {
        policy_enabled: true,
        request_record_enabled: true,
        response_header_timeout_ms: 5000,
        first_token_timeout_ms: 700,
        max_attempts: 3,
        auto_retry_enabled: true,
    };
    assert_eq!(response_header_wait_ms(&settings), 5000);
    assert_eq!(first_token_wait_ms(&settings), 700);
    settings.response_header_timeout_ms = -1;
    settings.first_token_timeout_ms = 0;
    assert_eq!(response_header_wait_ms(&settings), u64::MAX);
    assert_eq!(first_token_wait_ms(&settings), 0);
}

#[test]
fn times_and_statuses_stay_in_range() {
    assert_eq!(elapsed_ms(0), 0);
    assert_eq!(elapsed_ms(1234), 1234);
    assert_eq!(elapsed_ms(u128::MAX), i64::MAX);
    assert_eq!(client_status(200), 200);
    assert_eq!(client_status(99), 502);
    assert_eq!(client_status(1000), 502);
}
