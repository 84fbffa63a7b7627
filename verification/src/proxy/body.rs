//! What the proxy reads out of a request body.

use vstd::prelude::*;

use crate::interop::json::json_parse_bytes;
use crate::json::{as_text, member, parse_bytes, Json, JsonValue};
use crate::text::opt_text;

verus! {

/// The model that a document asks for.
pub open spec fn model_of(json: Json) -> Option<Seq<char>> {
    as_text(member(json, "model"@))
}

/// Whether a document asks for a stream.
pub open spec fn streams(json: Json) -> bool {
    member(json, "stream"@) == Some(Json::Bool(true))
}

/// The model that a body asks for, if the body is a JSON document.
pub open spec fn body_model(body: Seq<u8>) -> Option<Seq<char>> {
    match json_parse_bytes(body) {
        Some(json) => model_of(json),
        None => None,
    }
}

/// Whether a body asks for a stream.
pub open spec fn body_streams(body: Seq<u8>) -> bool {
    match json_parse_bytes(body) {
        Some(json) => streams(json),
        None => false,
    }
}

/// The model is the text under `model`, and anything else under it is none. A
/// stream is asked for exactly by `true` under `stream`.
pub proof fn lemma_what_a_request_asks_for(json: Json)
    ensures
        match member(json, "model"@) {
            Some(Json::Text(text)) => model_of(json) == Some(text),
            _ => model_of(json) is None,
        },
        match member(json, "stream"@) {
            Some(Json::Bool(flag)) => streams(json) == flag,
            _ => !streams(json),
        },
{
}

/// A body that is no JSON document asks for no model and no stream; any other
/// asks for what its document does.
pub proof fn lemma_a_body_asks_for_what_its_document_does(body: Seq<u8>)
    ensures
        match json_parse_bytes(body) {
            Some(json) => body_model(body) == model_of(json) && body_streams(body) == streams(json),
            None => body_model(body) is None && !body_streams(body),
        },
{
}

/// The model that a document asks for.
pub fn model_in(value: &JsonValue) -> (model: Option<String>)
    ensures
        opt_text(model) == model_of(value.model()),
{
    match value.get("model") {
        Some(JsonValue::Text(text)) => Some(text.clone()),
        _ => None,
    }
}

/// Whether a document asks for a stream.
pub fn stream_in(value: &JsonValue) -> (found: bool)
    ensures
        found == streams(value.model()),
{
    match value.get("stream") {
        Some(JsonValue::Bool(flag)) => *flag,
        _ => false,
    }
}

/// The model that a body asks for.
pub fn extract_model(body: &[u8]) -> (model: Option<String>)
    ensures
        opt_text(model) == body_model(body@),
{
    match parse_bytes(body) {
        Some(value) => model_in(&value),
        None => None,
    }
}

/// Whether a body asks for a stream.
pub fn wants_stream(body: &[u8]) -> (found: bool)
    ensures
        found == body_streams(body@),
{
    match parse_bytes(body) {
        Some(value) => stream_in(&value),
        None => false,
    }
}

/// What is said of a request body that could not be read to its end.
pub fn read_failure(error: &str) -> (message: String)
    ensures
        message@ == "failed to read request body: "@ + error@,
{
    let mut message = "failed to read request body: ".to_string();
    message.append(error);
    message
}

}
