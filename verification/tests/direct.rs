use axum::http::{HeaderMap, HeaderValue};
use oai_proxy::json::parse_bytes;
use oai_proxy::proxy::direct::{
    pass, pass_failed, response_from_upstream, RecordContext, RecordedRequestStream,
    OBSERVED_SSE_BUFFER_LIMIT,
};
use oai_proxy::proxy::relay::StreamItem;
use oai_proxy::proxy::semantic_token::EndpointKind;
use oai_proxy::recording::RecordEvent;
use oai_proxy::storage::upstreams::Upstream;

fn context(attempt_id: Option<&str>) -> RecordContext {
    RecordContext {
        request_id: "req".to_string(),
        attempt_id: attempt_id.map(str::to_string),
        upstream_name: "default".to_string(),
        endpoint: EndpointKind::ChatCompletions,
    }
}

fn upstream(base_url: &str) -> Upstream {
    Upstream {
        id: 1,
        name: "default".to_string(),
        base_url: base_url.to_string(),
        created_at: "t".to_string(),
        updated_at: "t".to_string(),
    }
}

fn map(content_type: &str) -> HeaderMap {
    let mut headers = HeaderMap::new();
    headers.insert("content-type", HeaderValue::from_str(content_type).unwrap());
    headers.insert("location", HeaderValue::from_static("/redirected"));
    headers.insert("upgrade", HeaderValue::from_static("h2c"));
    headers
}

#[test]
fn a_request_goes_where_its_upstream_is() {
    let (url, kept) = pass(
        &upstream("https://api.example.test"),
        Some("/v1/chat/completions?direct=1"),
        Some(context(Some("att"))),
    )
    .unwrap();
    assert_eq!(url, "https://api.example.test/v1/chat/completions?direct=1");
    assert_eq!(kept.unwrap().attempt_id.as_deref(), Some("att"));
}

#[test]
fn a_request_without_a_place_to_go_is_refused() {
    let refusal = pass(&upstream("nowhere"), Some("/x"), Some(context(Some("att")))).unwrap_err();
    assert_eq!(refusal.reply.status, 502);
    assert!(refusal.reply.json);
    let error = parse_bytes(&refusal.reply.body).unwrap();
    let error = error.get("error").unwrap();
    assert_eq!(error.get("code").unwrap().as_str(), Some("invalid_upstream_url"));
    assert_eq!(error.get("message").unwrap().as_str(), Some("invalid upstream url"));
    assert_eq!(error.get("type").unwrap().as_str(), Some("oai_proxy_error"));
    assert_eq!(refusal.records.len(), 3);
    assert!(matches!(
        &refusal.records[0],
        RecordEvent::SaveResponseBody(chunk)
            if chunk.request_id == "req" && chunk.body == refusal.reply.body
    ));
    assert!(matches!(
        &refusal.records[1],
        RecordEvent::FinishAttempt(end)
            if end.attempt_id == "att" && end.update.status == "invalid_upstream_url"
                && end.update.http_status.is_none() && !end.update.emitted_to_client
                && end.update.error_message.as_deref()
                    == Some("invalid upstream url: relative URL without a base")
    ));
    assert!(matches!(
        &refusal.records[2],
        RecordEvent::CompleteRequest(end)
            if end.status == "invalid_upstream_url" && end.attempt_count == 1
                && end.final_http_status == Some(502)
                && end.upstream_name.as_deref() == Some("default")
    ));
    assert!(pass(&upstream("nowhere"), None, None).unwrap_err().records.is_empty());
}

#[test]
fn an_unreachable_upstream_is_told_and_recorded() {
    let refusal = pass_failed(Some(context(None)));
    assert_eq!(refusal.reply.status, 502);
    assert_eq!(refusal.records.len(), 2);
    assert!(matches!(
        &refusal.records[1],
        RecordEvent::CompleteRequest(end)
            if end.status == "upstream_error"
                && end.error_message.as_deref() == Some("upstream request failed")
    ));
    assert!(pass_failed(None).records.is_empty());
}

#[test]
fn a_request_body_is_recorded_on_its_way() {
    let mut stream = RecordedRequestStream::new(&Some(context(None)));
    let mut events = stream.on_item(StreamItem::Chunk(b"{\"a\":"));
    events.extend(stream.on_item(StreamItem::Chunk(b"1}")));
    events.extend(stream.on_item(StreamItem::End));
    events.extend(stream.on_drop());
    assert_eq!(events.len(), 3);
    assert!(matches!(&events[0], RecordEvent::AppendRequestBody(chunk) if chunk.body == b"{\"a\":"));
    assert!(matches!(&events[1], RecordEvent::AppendRequestBody(chunk) if chunk.body == b"1}"));
    assert!(matches!(
        &events[2],
        RecordEvent::FinishRequestBody(end) if end.complete && end.error_message.is_none()
    ));

    let mut stream = RecordedRequestStream::new(&Some(context(None)));
    let mut events = stream.on_item(StreamItem::Error("reset"));
    events.extend(stream.on_drop());
    assert_eq!(events.len(), 1);
    assert!(matches!(
        &events[0],
        RecordEvent::FinishRequestBody(end)
            if !end.complete && end.error_message.as_deref() == Some("reset")
    ));

    let mut stream = RecordedRequestStream::new(&Some(context(None)));
    let events = stream.on_drop();
    assert!(matches!(
        &events[0],
        RecordEvent::FinishRequestBody(end)
            if !end.complete && end.error_message.as_deref()
                == Some("request body stream dropped before completion")
    ));
    assert!(stream.on_drop().is_empty());

    let mut unrecorded = RecordedRequestStream::new(&None);
    assert!(unrecorded.on_item(StreamItem::Chunk(b"x")).is_empty());
    assert!(unrecorded.on_item(StreamItem::End).is_empty());
    assert!(unrecorded.on_drop().is_empty());
}

#[test]
fn a_redirect_passes_through_and_counts_as_success() {
    let mut response = response_from_upstream(307, &map("text/plain"), Some(context(Some("att"))), 5);
    assert_eq!(response.status, 307);
    let names: Vec<&str> = response.headers.iter().map(|entry| entry.name.as_str()).collect();
    assert_eq!(names, vec!["content-type", "location"]);
    let mut events = response.body.on_item(StreamItem::Chunk(b"redirect"), 6);
    events.extend(response.body.on_item(StreamItem::End, 7));
    events.extend(response.body.on_drop());
    assert_eq!(events.len(), 4);
    assert!(matches!(
        &events[0],
        RecordEvent::AppendResponseBody(chunk) if chunk.body == b"redirect"
    ));
    assert!(matches!(&events[1], RecordEvent::FinishResponseBody(end) if end.complete));
    assert!(matches!(
        &events[2],
        RecordEvent::FinishAttempt(end)
            if end.update.status == "success" && end.update.http_status == Some(307)
                && end.update.response_header_ms == Some(5)
                && end.update.first_token_ms.is_none() && end.update.emitted_to_client
    ));
    assert!(matches!(
        &events[3],
        RecordEvent::CompleteRequest(end)
            if end.status == "success" && end.attempt_count == 1
                && end.final_http_status == Some(307)
    ));
}

#[test]
fn an_error_status_is_recorded_by_its_number() {
    let mut response = response_from_upstream(404, &map("application/json"), Some(context(None)), 5);
    let events = response.body.on_item(StreamItem::End, 7);
    assert!(matches!(
        &events[1],
        RecordEvent::CompleteRequest(end)
            if end.status == "upstream_http_404" && end.final_http_status == Some(404)
    ));
}

#[test]
fn the_first_token_is_timed_once() {
    let mut response =
        response_from_upstream(200, &map("text/event-stream"), Some(context(Some("att"))), 5);
    let mut events = response
        .body
        .on_item(StreamItem::Chunk(b"data: {\"choices\":[{\"delta\":{\"role\":\"assistant\"}}]}\n\n"), 10);
    events.extend(response.body.on_item(StreamItem::Chunk(b"data: {\"choices\":[{\"delta\":{"), 20));
    events.extend(response.body.on_item(StreamItem::Chunk(b"\"content\":\"a\"}}]}\n\n"), 30));
    events.extend(response.body.on_item(
        StreamItem::Chunk(b"data: {\"choices\":[{\"delta\":{\"content\":\"b\"}}]}\n\n"),
        40,
    ));
    events.extend(response.body.on_item(StreamItem::Error("broke"), 50));
    assert_eq!(events.len(), 7);
    assert!(matches!(
        &events[5],
        RecordEvent::FinishAttempt(end)
            if end.update.first_token_ms == Some(30) && end.update.status == "stream_error"
                && end.update.error_message.as_deref() == Some("broke")
    ));
}

#[test]
fn looking_for_the_token_stops_at_the_limit() {
    let mut response =
        response_from_upstream(200, &map("text/event-stream"), Some(context(Some("att"))), 5);
    let long = vec![b'x'; OBSERVED_SSE_BUFFER_LIMIT + 1];
    let mut events = response.body.on_item(StreamItem::Chunk(&long), 10);
    events.extend(response.body.on_item(
        StreamItem::Chunk(b"data: {\"choices\":[{\"delta\":{\"content\":\"b\"}}]}\n\n"),
        20,
    ));
    events.extend(response.body.on_drop());
    assert!(matches!(
        &events[3],
        RecordEvent::FinishAttempt(end)
            if end.update.first_token_ms.is_none() && end.update.status == "client_disconnected"
    ));
    assert!(matches!(
        &events[4],
        RecordEvent::CompleteRequest(end)
            if end.error_message.as_deref()
                == Some("downstream client disconnected before response completed")
    ));
    assert!(response.body.on_drop().is_empty());
}

#[test]
fn an_unrecorded_response_records_nothing() {
    let mut response = response_from_upstream(200, &map("text/event-stream"), None, 5);
    assert!(response.body.on_item(StreamItem::Chunk(b"x"), 1).is_empty());
    assert!(response.body.on_item(StreamItem::End, 2).is_empty());
    assert!(response.body.on_drop().is_empty());
}
