//! JSON documents as plain values, and looking into them.

use serde_json::Value;
use vstd::prelude::*;

use crate::interop::json::{
    json_content, json_from_bytes, json_from_text, json_parse, json_parse_bytes, json_shape, Shape,
};
use crate::text::same_text;

verus! {

/// A JSON document as a mathematical value. What a number is does not matter
/// to this library.
pub enum Json {
    Null,
    Bool(bool),
    Number,
    Text(Seq<char>),
    List(Seq<Json>),
    Object(Seq<(Seq<char>, Json)>),
}

/// A JSON document.
#[derive(Debug)]
pub enum JsonValue {
    Null,
    Bool(bool),
    Number,
    Text(String),
    List(Vec<JsonValue>),
    Object(Vec<(String, JsonValue)>),
}

/// The first member of `members` under `key`.
pub open spec fn find_member(members: Seq<(Seq<char>, Json)>, key: Seq<char>) -> Option<Json>
    decreases members.len(),
{
    if members.len() == 0 {
        None
    } else if members[0].0 == key {
        Some(members[0].1)
    } else {
        find_member(members.skip(1), key)
    }
}

/// The member of an object under `key`; nothing has members but an object.
pub open spec fn member(json: Json, key: Seq<char>) -> Option<Json> {
    match json {
        Json::Object(members) => find_member(members, key),
        _ => None,
    }
}

/// The text that an optional document is.
pub open spec fn as_text(json: Option<Json>) -> Option<Seq<char>> {
    match json {
        Some(Json::Text(text)) => Some(text),
        _ => None,
    }
}

/// The list that an optional document is.
pub open spec fn as_list(json: Option<Json>) -> Option<Seq<Json>> {
    match json {
        Some(Json::List(items)) => Some(items),
        _ => None,
    }
}

/// Whether `json` is a text.
pub open spec fn is_text(json: Json) -> bool {
    json is Text
}

/// Whether `json` is an object of texts.
pub open spec fn one_level(json: Json) -> bool {
    &&& json is Object
    &&& forall|i: int| 0 <= i < json->Object_0.len() ==> is_text(#[trigger] json->Object_0[i].1)
}

/// Whether `json` is an object of texts and of objects of texts.
pub open spec fn two_levels(json: Json) -> bool {
    &&& json is Object
    &&& forall|i: int|
        0 <= i < json->Object_0.len() ==> is_text((#[trigger] json->Object_0[i]).1) || one_level(
            json->Object_0[i].1,
        )
}

/// Whether no key of `members` begins with a dollar sign. `serde_json` keeps such
/// keys to itself: it does not read every object back that has one.
pub open spec fn plain_keys(members: Seq<(Seq<char>, Json)>) -> bool {
    forall|i: int|
        0 <= i < members.len() && (#[trigger] members[i]).0.len() > 0 ==> members[i].0[0] != '$'
}

/// Whether no key of an object, nor of an object in it, begins with a dollar sign.
pub open spec fn plain_document(json: Json) -> bool {
    &&& json is Object ==> plain_keys(json->Object_0)
    &&& json is Object ==> forall|i: int|
        0 <= i < json->Object_0.len() && (#[trigger] json->Object_0[i]).1 is Object ==> plain_keys(
            json->Object_0[i].1->Object_0,
        )
}

/// Whether the first letters of the keys rise from each member to the next, so
/// that the keys are in order and none occurs twice.
pub open spec fn rising_keys(members: Seq<(Seq<char>, Json)>) -> bool {
    &&& forall|i: int| 0 <= i < members.len() ==> (#[trigger] members[i]).0.len() > 0
    &&& forall|i: int, j: int|
        0 <= i < j < members.len() ==> (#[trigger] members[i]).0[0] < (#[trigger] members[j]).0[0]
}

/// Looking up a key gives the first member under it.
pub proof fn lemma_member_is_found(members: Seq<(Seq<char>, Json)>, key: Seq<char>, at: int)
    requires
        0 <= at < members.len(),
        members[at].0 == key,
        forall|i: int| 0 <= i < at ==> (#[trigger] members[i]).0 != key,
    ensures
        member(Json::Object(members), key) == Some(members[at].1),
    decreases members.len(),
{
    if at > 0 {
        assert(members[0].0 != key);
        let rest = members.skip(1);
        assert forall|i: int| 0 <= i < at - 1 implies (#[trigger] rest[i]).0 != key by {
            assert(rest[i] == members[i + 1]);
        }
        lemma_member_is_found(rest, key, at - 1);
    }
}

/// Looking up a key that no member has gives nothing.
pub proof fn lemma_member_is_missing(members: Seq<(Seq<char>, Json)>, key: Seq<char>)
    requires
        forall|i: int| 0 <= i < members.len() ==> (#[trigger] members[i]).0 != key,
    ensures
        member(Json::Object(members), key) is None,
    decreases members.len(),
{
    if members.len() > 0 {
        assert(members[0].0 != key);
        let rest = members.skip(1);
        assert forall|i: int| 0 <= i < rest.len() implies (#[trigger] rest[i]).0 != key by {
            assert(rest[i] == members[i + 1]);
        }
        lemma_member_is_missing(rest, key);
    }
}

/// Nothing but an object has members.
pub proof fn lemma_only_objects_have_members(json: Json, key: Seq<char>)
    ensures
        member(json, key) is Some ==> json is Object,
{
}

impl JsonValue {
    /// The document as a mathematical value.
    pub open spec fn model(self) -> Json
        decreases self,
    {
        match self {
            JsonValue::Null => Json::Null,
            JsonValue::Bool(flag) => Json::Bool(flag),
            JsonValue::Number => Json::Number,
            JsonValue::Text(text) => Json::Text(text@),
            JsonValue::List(items) => Json::List(
                Seq::new(
                    items@.len(),
                    |i: int|
                        if 0 <= i < items@.len() {
                            items@[i].model()
                        } else {
                            Json::Null
                        },
                ),
            ),
            JsonValue::Object(members) => Json::Object(
                Seq::new(
                    members@.len(),
                    |i: int|
                        if 0 <= i < members@.len() {
                            (members@[i].0@, members@[i].1.model())
                        } else {
                            (Seq::empty(), Json::Null)
                        },
                ),
            ),
        }
    }

    /// The member of an object under `key`.
    pub fn get(&self, key: &str) -> (found: Option<&JsonValue>)
        ensures
            match found {
                Some(value) => member(self.model(), key@) == Some(value.model()),
                None => member(self.model(), key@) is None,
            },
    {
        match self {
            JsonValue::Object(members) => {
                let ghost models = self.model()->Object_0;
                let mut i: usize = 0;
                assert(models.skip(0) =~= models);
                while i < members.len()
                    invariant
                        i <= members@.len(),
                        models.len() == members@.len(),
                        member(self.model(), key@) == find_member(models, key@),
                        forall|k: int|
                            0 <= k < members@.len() ==> models[k] == (
                                (#[trigger] members@[k]).0@,
                                members@[k].1.model(),
                            ),
                        find_member(models, key@) == find_member(models.skip(i as int), key@),
                    decreases members@.len() - i,
                {
                    assert(models.skip(i as int)[0] == models[i as int]);
                    assert(models[i as int] == (members@[i as int].0@, members@[i as int].1.model()));
                    if same_text(members[i].0.as_str(), key) {
                        return Some(&members[i].1);
                    }
                    assert(models.skip(i as int).skip(1) =~= models.skip(i + 1));
                    i += 1;
                }
                None
            },
            _ => None,
        }
    }

    /// The text that the document is.
    pub fn as_str(&self) -> (text: Option<&str>)
        ensures
            crate::text::opt_str(text) == as_text(Some(self.model())),
    {
        match self {
            JsonValue::Text(text) => Some(text.as_str()),
            _ => None,
        }
    }
}

/// The document that `value` holds.
fn json_of(value: &Value) -> (json: JsonValue)
    ensures
        json.model() == json_content(*value),
    decreases json_content(*value),
{
    match json_shape(value) {
        Shape::Null => JsonValue::Null,
        Shape::Bool(flag) => JsonValue::Bool(flag),
        Shape::Number => JsonValue::Number,
        Shape::Text(text) => JsonValue::Text(text),
        Shape::List(items) => {
            let mut list: Vec<JsonValue> = Vec::new();
            let ghost models = items@.map_values(|v: Value| json_content(v));
            let mut i: usize = 0;
            while i < items.len()
                invariant
                    i <= items@.len(),
                    models == items@.map_values(|v: Value| json_content(v)),
                    json_content(*value) == Json::List(models),
                    list@.len() == i,
                    forall|k: int| 0 <= k < i ==> #[trigger] list@[k].model() == models[k],
                decreases items@.len() - i,
            {
                assert(models[i as int] == json_content(items@[i as int]));
                assert(decreases_to!(
                    json_content(*value) => json_content(*value)->List_0[i as int]
                ));
                list.push(json_of(&items[i]));
                i += 1;
            }
            let json = JsonValue::List(list);
            assert forall|k: int| 0 <= k < models.len() implies #[trigger] json.model()->List_0[k]
                == models[k] by {
                assert(list@[k].model() == models[k]);
            }
            assert(json.model()->List_0 =~= models);
            json
        },
        Shape::Object(members) => {
            let mut list: Vec<(String, JsonValue)> = Vec::new();
            let ghost models = members@.map_values(
                |m: (String, &Value)| (m.0@, json_content(*m.1)),
            );
            let mut i: usize = 0;
            while i < members.len()
                invariant
                    i <= members@.len(),
                    models == members@.map_values(
                        |m: (String, &Value)| (m.0@, json_content(*m.1)),
                    ),
                    json_content(*value) == Json::Object(models),
                    list@.len() == i,
                    forall|k: int|
                        0 <= k < i ==> (#[trigger] list@[k].0@, list@[k].1.model()) == models[k],
                decreases members@.len() - i,
            {
                assert(models[i as int].1 == json_content(*members@[i as int].1));
                assert(decreases_to!(
                    json_content(*value) => json_content(*value)->Object_0[i as int].1
                ));
                let item = json_of(members[i].1);
                list.push((members[i].0.clone(), item));
                i += 1;
            }
            let json = JsonValue::Object(list);
            assert(json.model()->Object_0 =~= models);
            json
        },
    }
}

/// Reads a document from a text.
pub fn parse_text(text: &str) -> (json: Option<JsonValue>)
    ensures
        match json {
            Some(json) => json_parse(text@) == Some(json.model()),
            None => json_parse(text@) is None,
        },
{
    match json_from_text(text) {
        Some(value) => Some(json_of(&value)),
        None => None,
    }
}

/// Reads a document from bytes.
pub fn parse_bytes(bytes: &[u8]) -> (json: Option<JsonValue>)
    ensures
        match json {
            Some(json) => json_parse_bytes(bytes@) == Some(json.model()),
            None => json_parse_bytes(bytes@) is None,
        },
{
    match json_from_bytes(bytes) {
        Some(value) => Some(json_of(&value)),
        None => None,
    }
}

}
