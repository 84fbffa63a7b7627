//! The JSON documents of `serde_json`.

use serde_json::{Map as JsonMap, Value};
use vstd::prelude::*;

use crate::json::{plain_document, rising_keys, two_levels, Json};

verus! {

/// `serde_json::Value`, a parsed JSON document.
#[verifier::external_type_specification]
#[verifier::external_body]
pub struct ExValue(Value);

/// The document that a `Value` holds. The members of an object stand in the
/// order in which `serde_json` walks them, each key once.
pub uninterp spec fn json_content(value: Value) -> Json;

/// The document that `serde_json::from_str` reads from a text, if it reads one.
pub uninterp spec fn json_parse(text: Seq<char>) -> Option<Json>;

/// The document that `serde_json::from_slice` reads from bytes, if it reads one.
pub uninterp spec fn json_parse_bytes(bytes: Seq<u8>) -> Option<Json>;

/// The bytes that `serde_json::to_vec` writes for a document without numbers.
pub uninterp spec fn json_bytes(json: Json) -> Seq<u8>;

/// One level of a `Value`, taken apart.
pub(crate) enum Shape<'a> {
    Null,
    Bool(bool),
    Number,
    Text(String),
    List(&'a Vec<Value>),
    Object(Vec<(String, &'a Value)>),
}

/// `serde_json::from_str` reads a document from a text, or refuses the text.
#[verifier::external_body]
pub(crate) fn json_from_text(text: &str) -> (value: Option<Value>)
    ensures
        value is Some == json_parse(text@) is Some,
        value is Some ==> json_content(value->0) == json_parse(text@)->0,
{
    serde_json::from_str::<Value>(text).ok()
}

/// `serde_json::from_slice` reads a document from bytes, or refuses the bytes.
#[verifier::external_body]
pub(crate) fn json_from_bytes(bytes: &[u8]) -> (value: Option<Value>)
    ensures
        value is Some == json_parse_bytes(bytes@) is Some,
        value is Some ==> json_content(value->0) == json_parse_bytes(bytes@)->0,
{
    serde_json::from_slice::<Value>(bytes).ok()
}

/// The variants of `serde_json::Value`, told apart: the top level of the
/// document, with the parts below it as they are.
#[verifier::external_body]
pub(crate) fn json_shape(value: &Value) -> (shape: Shape<'_>)
    ensures
        match json_content(*value) {
            Json::Null => shape is Null,
            Json::Bool(flag) => shape == Shape::Bool(flag),
            Json::Number => shape is Number,
            Json::Text(text) => shape is Text && shape->Text_0@ == text,
            Json::List(items) => {
                &&& shape is List
                &&& shape->List_0@.map_values(|item: Value| json_content(item)) == items
            },
            Json::Object(members) => {
                &&& shape is Object
                &&& shape->Object_0@.map_values(
                    |member: (String, &Value)| (member.0@, json_content(*member.1)),
                ) == members
            },
        },
{
    match value {
        Value::Null => Shape::Null,
        Value::Bool(flag) => Shape::Bool(*flag),
        Value::Number(_) => Shape::Number,
        Value::String(text) => Shape::Text(text.clone()),
        Value::Array(items) => Shape::List(items),
        Value::Object(members) => {
            Shape::Object(members.iter().map(|(key, item)| (key.clone(), item)).collect())
        },
    }
}

/// `serde_json::Value::String` holds a text.
#[verifier::external_body]
pub(crate) fn json_text(text: &str) -> (value: Value)
    ensures
        json_content(value) == Json::Text(text@),
{
    Value::String(text.to_string())
}

/// `serde_json::Value::Object` of a map collected from `members`. The map walks
/// them by key, and they are given in that order.
#[verifier::external_body]
pub(crate) fn json_object(members: Vec<(String, Value)>) -> (value: Value)
    requires
        rising_keys(
            members@.map_values(|member: (String, Value)| (member.0@, json_content(member.1))),
        ),
    ensures
        json_content(value) == Json::Object(
            members@.map_values(|member: (String, Value)| (member.0@, json_content(member.1))),
        ),
{
    Value::Object(members.into_iter().collect::<JsonMap<String, Value>>())
}

/// `serde_json::to_vec` writes an object of texts, or of objects of texts, and
/// never fails on one. What it writes reads back as the same document where no
/// key begins with a dollar sign. The crate gives the key
/// `$serde_json::private::RawValue` a meaning of its own when it reads an object,
/// so nothing is said of what reads back otherwise.
#[verifier::external_body]
pub(crate) fn json_to_bytes(value: &Value) -> (bytes: Vec<u8>)
    requires
        two_levels(json_content(*value)),
    ensures
        bytes@ == json_bytes(json_content(*value)),
        plain_document(json_content(*value)) ==> json_parse_bytes(bytes@) == Some(
            json_content(*value),
        ),
{
    serde_json::to_vec(value).expect("an object of texts has a JSON form")
}

}
