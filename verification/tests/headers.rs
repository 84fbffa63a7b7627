use axum::http::{HeaderMap, HeaderName, HeaderValue};
use oai_proxy::interop::http::HeaderEntry;
use oai_proxy::proxy::headers::{
    connection_header_tokens, copy_request_headers, header_text, is_hop_by_hop_name,
    is_sse_response, response_headers, should_skip_header, value_text,
};

fn map(lines: &[(&str, &str)]) -> HeaderMap {
    let mut headers = HeaderMap::new();
    for (name, value) in lines {
        headers.append(
            HeaderName::from_bytes(name.as_bytes()).unwrap(),
            HeaderValue::from_str(value).unwrap(),
        );
    }
    headers
}

fn plain(entries: &[HeaderEntry]) -> Vec<(String, String)> {
    entries
        .iter()
        .map(|entry| {
            (
                entry.name.clone(),
                String::from_utf8_lossy(&entry.value).into_owned(),
            )
        })
        .collect()
}

#[test]
fn a_request_keeps_its_credentials_and_loses_its_hops() {
    let headers = map(&[
        ("authorization", "Bearer client-key"),
        ("cookie", "browser_cookie=should-forward"),
        ("connection", "x-test-hop"),
        ("x-trace", "abc"),
        ("x-test-hop", "must-not-forward"),
        ("host", "proxy.example.test"),
        ("content-length", "12"),
        ("content-type", "application/json"),
    ]);
    assert_eq!(
        plain(&copy_request_headers(&headers)),
        vec![
            ("authorization".to_string(), "Bearer client-key".to_string()),
            ("cookie".to_string(), "browser_cookie=should-forward".to_string()),
            ("x-trace".to_string(), "abc".to_string()),
            ("content-type".to_string(), "application/json".to_string()),
        ]
    );
}

#[test]
fn a_response_keeps_every_cookie_in_order() {
    let headers = map(&[
        ("set-cookie", "sid=upstream; Path=/"),
        ("set-cookie", "second=1"),
        ("connection", "x-upstream-hop"),
        ("x-upstream-hop", "must-not-forward"),
        ("transfer-encoding", "chunked"),
    ]);
    assert_eq!(
        plain(&response_headers(&headers)),
        vec![
            ("set-cookie".to_string(), "sid=upstream; Path=/".to_string()),
            ("set-cookie".to_string(), "second=1".to_string()),
        ]
    );
}

#[test]
fn the_connection_lines_list_names() {
    let mut headers = map(&[("connection", "Keep-Alive, X-One ,,"), ("connection", "x-two")]);
    assert_eq!(
        connection_header_tokens(&headers),
        vec!["keep-alive".to_string(), "x-one".to_string(), "x-two".to_string()]
    );
    headers.append("connection", HeaderValue::from_bytes(b"x-\xffthree").unwrap());
    assert_eq!(connection_header_tokens(&headers).len(), 3);
}

#[test]
fn names_are_compared_in_lower_case() {
    let listed = vec!["x-one".to_string()];
    assert!(should_skip_header("X-One", &listed));
    assert!(should_skip_header("Upgrade", &listed));
    assert!(!should_skip_header("x-two", &listed));
    for name in [
        "connection",
        "keep-alive",
        "proxy-connection",
        "proxy-authenticate",
        "proxy-authorization",
        "te",
        "trailer",
        "transfer-encoding",
        "upgrade",
        "host",
        "content-length",
    ] {
        assert!(is_hop_by_hop_name(name));
    }
    assert!(!is_hop_by_hop_name("authorization"));
}

#[test]
fn the_content_type_announces_events() {
    assert!(is_sse_response(&map(&[("content-type", "Text/Event-Stream; charset=utf-8")])));
    assert!(!is_sse_response(&map(&[("content-type", "application/json")])));
    assert!(!is_sse_response(&map(&[])));
    assert!(!is_sse_response(&map(&[
        ("content-type", "application/json"),
        ("content-type", "text/event-stream"),
    ])));
}

#[test]
fn only_a_visible_value_has_a_text() {
    assert_eq!(value_text(b"a\tb ~"), Some("a\tb ~".to_string()));
    assert_eq!(value_text(b"a\xe4"), None);
    assert_eq!(value_text(b"\x7f"), None);
    assert_eq!(value_text(b""), Some(String::new()));
    assert_eq!(header_text(&map(&[("x-a", "1"), ("x-a", "2")]), "X-A"), Some("1".to_string()));
    assert_eq!(header_text(&map(&[("x-a", "1")]), "x-b"), None);
}

#[test]
fn a_text_that_cannot_be_a_name_finds_nothing() {
    let mut headers = map(&[("x-a", "1")]);
    headers.insert(HeaderName::from_static("a\"b"), HeaderValue::from_static("x"));
    assert_eq!(header_text(&headers, "a\"b"), None);
    assert_eq!(header_text(&headers, "x a"), None);
    assert_eq!(header_text(&headers, ""), None);
    assert_eq!(header_text(&headers, "x-a"), Some("1".to_string()));
    assert!(plain(&copy_request_headers(&headers)).contains(&("a\"b".to_string(), "x".to_string())));
    let long = "x-".to_string() + &"Long".repeat(20);
    assert_eq!(header_text(&map(&[(&long, "2")]), &long), Some("2".to_string()));
}
