//! The errors that the proxy itself answers with.

use vstd::prelude::*;

use crate::interop::json::{
    json_bytes, json_content, json_object, json_parse_bytes, json_text, json_to_bytes,
};
use crate::json::{
    as_text, find_member, is_text, member, one_level, plain_document, plain_keys, two_levels, Json,
};

verus! {

/// An answer that the proxy makes up itself.
#[derive(Debug)]
pub struct Reply {
    pub status: u16,
    /// Whether the body is a JSON document; without one there is no body.
    pub json: bool,
    pub body: Vec<u8>,
}

/// Such an answer as a mathematical value.
pub struct ReplyModel {
    pub status: u16,
    pub json: bool,
    pub body: Seq<u8>,
}

impl View for Reply {
    type V = ReplyModel;

    open spec fn view(&self) -> ReplyModel {
        ReplyModel { status: self.status, json: self.json, body: self.body@ }
    }
}

/// The members of an error.
pub open spec fn error_members(code: Seq<char>, message: Seq<char>) -> Seq<(Seq<char>, Json)> {
    seq![
        ("code"@, Json::Text(code)),
        ("message"@, Json::Text(message)),
        ("type"@, Json::Text("oai_proxy_error"@)),
    ]
}

/// The document that tells of an error.
pub open spec fn error_json(code: Seq<char>, message: Seq<char>) -> Json {
    Json::Object(seq![("error"@, Json::Object(error_members(code, message)))])
}

/// The body that tells of an error.
pub open spec fn error_body(code: Seq<char>, message: Seq<char>) -> Seq<u8> {
    json_bytes(error_json(code, message))
}

/// The answer that tells of an error.
pub open spec fn error_reply(status: u16, code: Seq<char>, message: Seq<char>) -> ReplyModel {
    ReplyModel { status, json: true, body: error_body(code, message) }
}

/// The document that tells of an error holds, under `error`, the code, the
/// message and the type that clients of this interface look for.
pub proof fn lemma_error_document_reads_back(code: Seq<char>, message: Seq<char>)
    ensures
        member(error_json(code, message), "error"@) is Some,
        ({
            let error = member(error_json(code, message), "error"@)->0;
            &&& as_text(member(error, "code"@)) == Some(code)
            &&& as_text(member(error, "message"@)) == Some(message)
            &&& as_text(member(error, "type"@)) == Some("oai_proxy_error"@)
        }),
{
    reveal_strlit("code");
    reveal_strlit("message");
    reveal_strlit("type");
    reveal_with_fuel(find_member, 4);
    let members = error_members(code, message);
    assert("code"@[0] == 'c' && "message"@[0] == 'm' && "type"@[0] == 't');
    assert(members.skip(1)[0] == members[1]);
    assert(members.skip(1).skip(1)[0] == members[2]);
}

/// An error is answered with its own status and a JSON document: the one that
/// tells of its code and its message.
pub proof fn lemma_errors_are_told(status: u16, code: Seq<char>, message: Seq<char>)
    ensures
        error_reply(status, code, message).status == status,
        error_reply(status, code, message).json,
        error_reply(status, code, message).body == json_bytes(
            Json::Object(
                seq![
                    (
                        "error"@,
                        Json::Object(
                            seq![
                                ("code"@, Json::Text(code)),
                                ("message"@, Json::Text(message)),
                                ("type"@, Json::Text("oai_proxy_error"@)),
                            ],
                        ),
                    ),
                ],
            ),
        ),
{
}

/// The body that tells of an error. It reads back as the document it stands for.
pub fn openai_error_payload(code: &str, message: &str) -> (body: Vec<u8>)
    ensures
        body@ == error_body(code@, message@),
        json_parse_bytes(body@) == Some(error_json(code@, message@)),
{
    proof {
        reveal_strlit("code");
        reveal_strlit("message");
        reveal_strlit("type");
        reveal_strlit("error");
    }
    let members = vec![
        ("code".to_string(), json_text(code)),
        ("message".to_string(), json_text(message)),
        ("type".to_string(), json_text("oai_proxy_error")),
    ];
    let ghost models = members@.map_values(
        |member: (String, serde_json::Value)| (member.0@, json_content(member.1)),
    );
    assert(models =~= error_members(code@, message@));
    let error = json_object(members);
    let outer = vec![("error".to_string(), error)];
    let ghost outer_models = outer@.map_values(
        |member: (String, serde_json::Value)| (member.0@, json_content(member.1)),
    );
    assert(outer_models =~= seq![("error"@, Json::Object(error_members(code@, message@)))]);
    let document = json_object(outer);
    proof {
        let json = json_content(document);
        assert(one_level(json->Object_0[0].1)) by {
            let inner = json->Object_0[0].1;
            assert forall|i: int| 0 <= i < inner->Object_0.len() implies is_text(
                (#[trigger] inner->Object_0[i]).1,
            ) by {}
        }
        assert(two_levels(json));
        assert("code"@[0] == 'c' && "message"@[0] == 'm' && "type"@[0] == 't');
        assert("error"@[0] == 'e');
        assert(plain_keys(json->Object_0[0].1->Object_0));
        assert(plain_document(json));
    }
    json_to_bytes(&document)
}

/// The answer that tells of an error.
pub fn openai_error(status: u16, code: &str, message: &str) -> (reply: Reply)
    ensures
        reply@ == error_reply(status, code@, message@),
        json_parse_bytes(reply@.body) == Some(error_json(code@, message@)),
{
    Reply { status, json: true, body: openai_error_payload(code, message) }
}

/// The answer to a request for something that is not there.
pub fn not_found() -> (reply: Reply)
    ensures
        reply@ == (ReplyModel { status: 404, json: false, body: Seq::empty() }),
{
    Reply { status: 404, json: false, body: Vec::new() }
}

}
