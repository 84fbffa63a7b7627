use oai_proxy::json::{parse_bytes, parse_text, JsonValue};
use oai_proxy::proxy::body::{extract_model, model_in, read_failure, stream_in, wants_stream};
use oai_proxy::proxy::semantic_token::{
    is_chat_semantic, is_responses_semantic, is_semantic_value, non_empty_string,
    tool_call_arguments, EndpointKind,
};

fn json(text: &str) -> JsonValue {
    parse_text(text).expect("a JSON document")
}

#[test]
fn the_path_tells_the_interface() {
    assert_eq!(
        EndpointKind::from_path("/v1/chat/completions"),
        EndpointKind::ChatCompletions
    );
    assert_eq!(
        EndpointKind::from_path("/prefix/v1/responses"),
        EndpointKind::Responses
    );
    assert_eq!(EndpointKind::from_path("/responses"), EndpointKind::Unknown);
    assert_eq!(EndpointKind::from_path(""), EndpointKind::Unknown);
}

#[test]
fn a_status_event_is_no_token_whatever_it_holds() {
    let value = json(r#"{"delta":"text","text":"more"}"#);
    for name in [
        "response.created",
        "response.in_progress",
        "response.completed",
        "response.queued",
        "response.output_item.added",
        "response.content_part.added",
    ] {
        assert!(!is_responses_semantic(Some(name), &value));
        assert!(!is_semantic_value(EndpointKind::Responses, Some(name), &value));
    }
    assert!(is_responses_semantic(Some("response.other"), &value));
}

#[test]
fn the_type_stands_in_for_a_missing_name() {
    assert!(!is_responses_semantic(
        None,
        &json(r#"{"type":"response.created","delta":"x"}"#)
    ));
    assert!(is_responses_semantic(
        None,
        &json(r#"{"type":"response.function_call_arguments.delta","arguments":"{"}"#)
    ));
    assert!(!is_responses_semantic(
        None,
        &json(r#"{"type":"response.x.delta","output_text":"x"}"#)
    ));
    assert!(is_responses_semantic(None, &json(r#"{"output_text":"x"}"#)));
    assert!(!is_responses_semantic(None, &json(r#"{"arguments":"x"}"#)));
}

#[test]
fn a_chat_chunk_needs_a_delta_that_brings_something() {
    assert!(!is_chat_semantic(&json(r#"{"choices":[]}"#)));
    assert!(!is_chat_semantic(&json(r#"{"choices":{"delta":{"content":"x"}}}"#)));
    assert!(!is_chat_semantic(&json(
        r#"{"choices":[{"delta":{"role":"assistant"}},{"delta":{"role":"assistant"}}]}"#
    )));
    assert!(is_chat_semantic(&json(
        r#"{"choices":[{"delta":{"role":"assistant"}},{"delta":{"content":"x"}}]}"#
    )));
    assert!(!is_chat_semantic(&json(r#"{"usage":{"total_tokens":3},"choices":[]}"#)));
}

#[test]
fn tool_calls_need_arguments() {
    assert!(!tool_call_arguments(&json(r#"{"tool_calls":[{"function":{"name":"f"}}]}"#)));
    assert!(!tool_call_arguments(&json(
        r#"{"tool_calls":[{"function":{"arguments":""}}]}"#
    )));
    assert!(tool_call_arguments(&json(
        r#"{"tool_calls":[{},{"function":{"arguments":"{"}}]}"#
    )));
    assert!(!tool_call_arguments(&json(r#"{}"#)));
}

#[test]
fn an_unknown_interface_takes_either_form() {
    let chat = json(r#"{"choices":[{"delta":{"content":"x"}}]}"#);
    let response = json(r#"{"delta":"x"}"#);
    assert!(is_semantic_value(EndpointKind::Unknown, None, &chat));
    assert!(is_semantic_value(EndpointKind::Unknown, None, &response));
    assert!(!is_semantic_value(EndpointKind::ChatCompletions, None, &response));
    assert!(!is_semantic_value(EndpointKind::Responses, None, &chat));
}

#[test]
fn only_a_text_with_something_in_it_speaks() {
    assert!(non_empty_string(Some(&JsonValue::Text("x".to_string()))));
    assert!(!non_empty_string(Some(&JsonValue::Text(String::new()))));
    assert!(!non_empty_string(Some(&JsonValue::Bool(true))));
    assert!(!non_empty_string(Some(&JsonValue::Number)));
    assert!(!non_empty_string(None));
}

#[test]
fn documents_are_read_as_they_are() {
    assert!(matches!(json("null"), JsonValue::Null));
    assert!(matches!(json("12.5"), JsonValue::Number));
    assert!(matches!(json("true"), JsonValue::Bool(true)));
    assert_eq!(json(r#""a\n你""#).as_str(), Some("a\n你"));
    assert_eq!(json(r#"{"k":"v"}"#).get("k").and_then(|value| value.as_str()), Some("v"));
    assert!(json(r#"{"k":"v"}"#).get("x").is_none());
    assert!(json(r#"["k"]"#).get("k").is_none());
    assert!(parse_text("{").is_none());
    assert!(parse_bytes(b"\xff").is_none());
    assert!(parse_bytes(b"[1]").is_some());
}

#[test]
fn the_body_tells_model_and_stream() {
    let body = br#"{"model":"gpt-example","stream":true,"messages":[]}"#;
    assert_eq!(extract_model(body), Some("gpt-example".to_string()));
    assert!(wants_stream(body));
    assert_eq!(extract_model(br#"{"model":1}"#), None);
    assert!(!wants_stream(br#"{"stream":"true"}"#));
    assert_eq!(extract_model(b"not json"), None);
    assert!(!wants_stream(b""));
    assert_eq!(model_in(&json(r#"{"model":"m"}"#)), Some("m".to_string()));
    assert!(!stream_in(&json(r#"{"stream":false}"#)));
    assert_eq!(read_failure("cut off"), "failed to read request body: cut off");
}
