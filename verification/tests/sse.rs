use oai_proxy::proxy::sse::SseParser;

#[test]
fn parses_multiple_events_and_keeps_partial_buffer() {
    let mut parser = SseParser::new();
    let events = parser.push(
        b"event: response.created\ndata: {\"type\":\"response.created\"}\n\ndata: {\"x\":1}\n\npartial",
    );

    assert_eq!(events.len(), 2);
    assert_eq!(events[0].event.as_deref(), Some("response.created"));
    assert_eq!(events[1].data, "{\"x\":1}");
    assert_eq!(parser.buffered_len(), "partial".len());
}
