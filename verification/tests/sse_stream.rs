use oai_proxy::proxy::sse::{
    find_event_delimiter, find_subsequence, parse_event, read_event, SseParser,
};

#[test]
fn events_and_rest_add_up_to_the_input() {
    let input: &[u8] = b"data: a\r\n\r\n: ping\n\nevent: x\ndata: b\n\ndata: tail";
    let mut parser = SseParser::new();
    let mut all: Vec<u8> = Vec::new();
    for event in parser.push(input) {
        all.extend_from_slice(&event.raw);
    }
    all.extend_from_slice(&parser.take_buffer());
    assert_eq!(all, input);
    assert_eq!(parser.buffered_len(), 0);
}

#[test]
fn cutting_the_stream_anywhere_gives_the_same_events() {
    let input: &[u8] = b"event: e\r\ndata: one\r\n\r\ndata: two\n\n\r\n\r\ndata: three\n\nrest";
    let mut whole = SseParser::new();
    let expected: Vec<(Vec<u8>, Option<String>, String)> = whole
        .push(input)
        .into_iter()
        .map(|event| (event.raw.to_vec(), event.event, event.data))
        .collect();
    for at in 0..=input.len() {
        let mut parser = SseParser::default();
        let mut events = parser.push(&input[..at]);
        events.extend(parser.push(&input[at..]));
        let found: Vec<(Vec<u8>, Option<String>, String)> = events
            .into_iter()
            .map(|event| (event.raw.to_vec(), event.event, event.data))
            .collect();
        assert_eq!(found, expected, "cut at {at}");
        assert_eq!(parser.buffered_len(), whole.buffered_len());
    }
}

#[test]
fn what_is_kept_back_holds_no_event() {
    let mut parser = SseParser::new();
    assert_eq!(parser.push(b"data: x\n\ndata: y\r\n").len(), 1);
    assert_eq!(find_event_delimiter(&parser.take_buffer()), None);
}

#[test]
fn the_earlier_blank_line_ends_the_event() {
    assert_eq!(find_event_delimiter(b"a\n\nb\r\n\r\n"), Some((1, 2)));
    assert_eq!(find_event_delimiter(b"a\r\n\r\nb\n\n"), Some((1, 4)));
    assert_eq!(find_event_delimiter(b"a\nb"), None);
    assert_eq!(find_event_delimiter(b""), None);
}

#[test]
fn a_subsequence_is_found_at_its_first_place() {
    assert_eq!(find_subsequence(b"abcabc", b"ca"), Some(2));
    assert_eq!(find_subsequence(b"abcabc", b"abc"), Some(0));
    assert_eq!(find_subsequence(b"ab", b"abc"), None);
}

#[test]
fn the_last_event_line_counts_and_data_lines_are_joined() {
    let event = parse_event(bytes::Bytes::from_static(
        b"event: first\r\n: note\r\ndata:  one\r\nid: 7\r\nevent:second\r\ndata:two \r\n\r\n",
    ));
    assert_eq!(event.event.as_deref(), Some("second"));
    assert_eq!(event.data, "one\ntwo ");
}

#[test]
fn an_event_without_fields_is_empty() {
    let event = parse_event(bytes::Bytes::from_static(b": ping\n\n"));
    assert_eq!(event.event, None);
    assert_eq!(event.data, "");
    assert_eq!(&event.raw[..], b": ping\n\n");
}

#[test]
fn bytes_that_are_no_text_are_replaced() {
    let event = parse_event(bytes::Bytes::from_static(b"data: a\xffb\n\n"));
    assert_eq!(event.data, "a\u{fffd}b");
    let event = parse_event(bytes::Bytes::from("data: 你好\n\n".as_bytes().to_vec()));
    assert_eq!(event.data, "你好");
}

#[test]
fn a_copied_event_is_the_same_event() {
    let event = parse_event(bytes::Bytes::from_static(b"event: e\ndata: d\n\n"));
    let copy = event.clone();
    assert_eq!(copy.raw, event.raw);
    assert_eq!(copy.event, event.event);
    assert_eq!(copy.data, event.data);
}

#[test]
fn an_event_is_read_from_its_text() {
    let raw = bytes::Bytes::from_static(b"\xff\n\n");
    let event = read_event(raw, "event: e\r\ndata: one\ndata:two\n\n");
    assert_eq!(&event.raw[..], b"\xff\n\n");
    assert_eq!(event.event.as_deref(), Some("e"));
    assert_eq!(event.data, "one\ntwo");
    let event = read_event(bytes::Bytes::new(), "data:  a\rb \ndatum: x\ndata:");
    assert_eq!(event.event, None);
    assert_eq!(event.data, "a\rb \n");
}

#[test]
fn line_ends_do_not_change_the_event() {
    let text = "event: grüße\n: note\ndata: a\rb\ndata: 你好\n\n";
    let crlf = text.replace('\n', "\r\n");
    let mut parser = SseParser::new();
    let mut events = parser.push(text.as_bytes());
    events.extend(parser.push(crlf.as_bytes()));
    assert_eq!(events.len(), 2);
    assert_eq!(events[0].event.as_deref(), Some("grüße"));
    assert_eq!(events[0].data, "a\rb\n你好");
    assert_eq!(events[1].event, events[0].event);
    assert_eq!(events[1].data, events[0].data);
    assert_eq!(&events[0].raw[..], text.as_bytes());
    assert_eq!(&events[1].raw[..], crlf.as_bytes());
}

#[test]
fn an_event_ends_with_its_first_blank_line() {
    let mut parser = SseParser::new();
    for event in parser.push(b"\n\n\ndata: a\r\n\r\n\r\n\r\nb\r\n\n") {
        let (at, len) = find_event_delimiter(&event.raw).unwrap();
        assert_eq!(at + len, event.raw.len());
    }
}
