//! Which server-sent events carry a token that the model produced.

use vstd::prelude::*;

use super::sse::{SseEvent, SseEventView};
use crate::interop::json::json_parse;
use crate::json::{as_list, as_text, member, parse_text, Json, JsonValue};
use crate::text::{
    chars_of, ends_with_chars, lemma_trim_leaves_the_rest, lemma_trim_takes_off_white_space,
    opt_str, same_text, text_of, trim, trim_chars,
};

verus! {

/// The interface that a request speaks.
#[derive(Clone, Copy, Debug, PartialEq, Eq, Structural)]
pub enum EndpointKind {
    ChatCompletions,
    Responses,
    Unknown,
}

/// The interface behind a path.
pub open spec fn endpoint_of(path: Seq<char>) -> EndpointKind {
    if "/v1/chat/completions"@.is_suffix_of(path) {
        EndpointKind::ChatCompletions
    } else if "/v1/responses"@.is_suffix_of(path) {
        EndpointKind::Responses
    } else {
        EndpointKind::Unknown
    }
}

/// Whether a member is a text that is not empty.
pub open spec fn speaks(json: Option<Json>) -> bool {
    as_text(json) matches Some(text) && text.len() > 0
}

/// Whether a tool call brings arguments.
pub open spec fn call_speaks(call: Json) -> bool {
    match member(call, "function"@) {
        Some(function) => speaks(member(function, "arguments"@)),
        None => false,
    }
}

/// Whether a delta brings arguments for a tool call.
pub open spec fn tools_speak(delta: Json) -> bool {
    match as_list(member(delta, "tool_calls"@)) {
        Some(calls) => exists|i: int| 0 <= i < calls.len() && call_speaks(#[trigger] calls[i]),
        None => false,
    }
}

/// Whether a delta brings content, reasoning, a refusal or tool arguments.
pub open spec fn delta_speaks(delta: Json) -> bool {
    ||| speaks(member(delta, "content"@))
    ||| speaks(member(delta, "reasoning_content"@))
    ||| speaks(member(delta, "refusal"@))
    ||| tools_speak(delta)
}

/// Whether a choice has a delta that brings something.
pub open spec fn choice_speaks(choice: Json) -> bool {
    match member(choice, "delta"@) {
        Some(delta) => delta_speaks(delta),
        None => false,
    }
}

/// Whether a chunk of a chat completion brings something.
pub open spec fn chat_speaks(json: Json) -> bool {
    match as_list(member(json, "choices"@)) {
        Some(choices) => exists|i: int|
            0 <= i < choices.len() && choice_speaks(#[trigger] choices[i]),
        None => false,
    }
}

/// The type of an event of the responses interface: its name, or else what it
/// says of itself.
pub open spec fn event_type(name: Option<Seq<char>>, json: Json) -> Seq<char> {
    match name {
        Some(name) => name,
        None => match as_text(member(json, "type"@)) {
            Some(text) => text,
            None => Seq::empty(),
        },
    }
}

/// The types that only report on the state of a response.
pub open spec fn is_status_type(kind: Seq<char>) -> bool {
    ||| kind == "response.created"@
    ||| kind == "response.in_progress"@
    ||| kind == "response.completed"@
    ||| kind == "response.queued"@
    ||| kind == "response.output_item.added"@
    ||| kind == "response.content_part.added"@
}

/// Whether an event of the responses interface brings something.
pub open spec fn response_speaks(name: Option<Seq<char>>, json: Json) -> bool {
    let kind = event_type(name, json);
    if is_status_type(kind) {
        false
    } else if ".delta"@.is_suffix_of(kind) {
        ||| speaks(member(json, "delta"@))
        ||| speaks(member(json, "text"@))
        ||| speaks(member(json, "arguments"@))
    } else {
        ||| speaks(member(json, "delta"@))
        ||| speaks(member(json, "output_text"@))
        ||| speaks(member(json, "text"@))
    }
}

/// Whether the document of an event carries a token, by the rules of `endpoint`.
pub open spec fn document_speaks(
    endpoint: EndpointKind,
    name: Option<Seq<char>>,
    json: Json,
) -> bool {
    match endpoint {
        EndpointKind::ChatCompletions => chat_speaks(json),
        EndpointKind::Responses => response_speaks(name, json),
        EndpointKind::Unknown => chat_speaks(json) || response_speaks(name, json),
    }
}

/// Whether an event carries a token, by the rules of `endpoint`.
pub open spec fn semantic(endpoint: EndpointKind, event: SseEventView) -> bool {
    let data = trim(event.data);
    &&& data.len() > 0
    &&& data != "[DONE]"@
    &&& json_parse(data) is Some
    &&& document_speaks(endpoint, event.event, json_parse(data)->0)
}

// ---------------------------------------------------------------------------
// Laws
// ---------------------------------------------------------------------------

/// An event without data, such as a ping or a comment, is never a token.
pub proof fn lemma_no_data_no_token(endpoint: EndpointKind, event: SseEventView)
    requires
        trim(event.data).len() == 0,
    ensures
        !semantic(endpoint, event),
{
}

/// The end marker is never a token.
pub proof fn lemma_end_marker_is_no_token(endpoint: EndpointKind, event: SseEventView)
    requires
        trim(event.data) == "[DONE]"@,
    ensures
        !semantic(endpoint, event),
{
}

/// Data that is no JSON document is never a token.
pub proof fn lemma_malformed_data_is_no_token(endpoint: EndpointKind, event: SseEventView)
    requires
        json_parse(trim(event.data)) is None,
    ensures
        !semantic(endpoint, event),
{
}

/// An event that only reports on the state of a response, by its name or by what
/// it says of itself, is never a token of the responses interface, whatever else
/// it holds. Where the interface is unknown it can only be one as a chat chunk.
pub proof fn lemma_status_event_is_no_token(event: SseEventView)
    requires
        is_status_type(event_type(event.event, json_parse(trim(event.data))->0)),
    ensures
        !semantic(EndpointKind::Responses, event),
        semantic(EndpointKind::Unknown, event) ==> chat_speaks(json_parse(trim(event.data))->0),
{
}

/// A chat chunk without choices, such as one that only tells of usage, is never
/// a token.
pub proof fn lemma_chunk_without_choices_is_no_token(event: SseEventView)
    requires
        as_list(member(json_parse(trim(event.data))->0, "choices"@)) matches Some(choices)
            ==> choices.len() == 0,
    ensures
        !semantic(EndpointKind::ChatCompletions, event),
{
}

/// A chat chunk each of whose deltas names only a role is never a token.
pub proof fn lemma_role_delta_is_no_token(event: SseEventView, choices: Seq<Json>)
    requires
        as_list(member(json_parse(trim(event.data))->0, "choices"@)) == Some(choices),
        forall|i: int|
            0 <= i < choices.len() ==> match member(#[trigger] choices[i], "delta"@) {
                Some(Json::Object(members)) => forall|k: int|
                    0 <= k < members.len() ==> (#[trigger] members[k]).0 == "role"@,
                _ => true,
            },
    ensures
        !semantic(EndpointKind::ChatCompletions, event),
{
    assert forall|i: int| 0 <= i < choices.len() implies !choice_speaks(#[trigger] choices[i]) by {
        if let Some(delta) = member(choices[i], "delta"@) {
            if let Json::Object(members) = delta {
                reveal_strlit("role");
                reveal_strlit("content");
                reveal_strlit("reasoning_content");
                reveal_strlit("refusal");
                reveal_strlit("tool_calls");
                lemma_absent(members, "role"@, "content"@);
                lemma_absent(members, "role"@, "reasoning_content"@);
                lemma_absent(members, "role"@, "refusal"@);
                lemma_absent(members, "role"@, "tool_calls"@);
            }
        }
    }
}

/// A chat chunk with a choice whose delta has a text under `content`,
/// `reasoning_content` or `refusal` that is not empty is a token, whatever else
/// that delta, that choice or the chunk holds.
pub proof fn lemma_spoken_delta_is_a_token(
    event: SseEventView,
    json: Json,
    choices: Seq<Json>,
    at: int,
    delta: Json,
    key: Seq<char>,
    text: Seq<char>,
)
    requires
        trim(event.data).len() > 0,
        trim(event.data) != "[DONE]"@,
        json_parse(trim(event.data)) == Some(json),
        member(json, "choices"@) == Some(Json::List(choices)),
        0 <= at < choices.len(),
        member(choices[at], "delta"@) == Some(delta),
        key == "content"@ || key == "reasoning_content"@ || key == "refusal"@,
        member(delta, key) == Some(Json::Text(text)),
        text.len() > 0,
    ensures
        semantic(EndpointKind::ChatCompletions, event),
        semantic(EndpointKind::Unknown, event),
{
    assert(choice_speaks(as_list(member(json, "choices"@))->0[at]));
}

/// A chat chunk with a choice whose delta brings arguments for the function of a
/// tool call is a token, whatever else it holds.
pub proof fn lemma_tool_arguments_are_a_token(
    event: SseEventView,
    json: Json,
    choices: Seq<Json>,
    at: int,
    delta: Json,
    calls: Seq<Json>,
    call: int,
    function: Json,
    text: Seq<char>,
)
    requires
        trim(event.data).len() > 0,
        trim(event.data) != "[DONE]"@,
        json_parse(trim(event.data)) == Some(json),
        member(json, "choices"@) == Some(Json::List(choices)),
        0 <= at < choices.len(),
        member(choices[at], "delta"@) == Some(delta),
        member(delta, "tool_calls"@) == Some(Json::List(calls)),
        0 <= call < calls.len(),
        member(calls[call], "function"@) == Some(function),
        member(function, "arguments"@) == Some(Json::Text(text)),
        text.len() > 0,
    ensures
        semantic(EndpointKind::ChatCompletions, event),
        semantic(EndpointKind::Unknown, event),
{
    assert(call_speaks(as_list(member(delta, "tool_calls"@))->0[call]));
    assert(tools_speak(delta));
    assert(choice_speaks(as_list(member(json, "choices"@))->0[at]));
}

/// A chat chunk none of whose deltas has any of the four is no token.
pub proof fn lemma_silent_chunk_is_no_token(event: SseEventView, json: Json)
    requires
        json_parse(trim(event.data)) == Some(json),
        member(json, "choices"@) matches Some(Json::List(choices)) ==> forall|i: int|
            0 <= i < choices.len() ==> (member(#[trigger] choices[i], "delta"@) matches Some(
                delta,
            ) ==> {
                &&& !(member(delta, "content"@) matches Some(Json::Text(text)) && text.len() > 0)
                &&& !(member(delta, "reasoning_content"@) matches Some(Json::Text(text))
                    && text.len() > 0)
                &&& !(member(delta, "refusal"@) matches Some(Json::Text(text)) && text.len() > 0)
                &&& member(delta, "tool_calls"@) matches Some(Json::List(calls)) ==> forall|k: int|
                    0 <= k < calls.len() ==> (member(#[trigger] calls[k], "function"@) matches Some(
                        function,
                    ) ==> !(member(function, "arguments"@) matches Some(Json::Text(text))
                        && text.len() > 0))
            }),
    ensures
        !semantic(EndpointKind::ChatCompletions, event),
{
    if chat_speaks(json) {
        let choices = as_list(member(json, "choices"@))->0;
        let i = choose|i: int| 0 <= i < choices.len() && choice_speaks(#[trigger] choices[i]);
        let delta = member(choices[i], "delta"@)->0;
        if tools_speak(delta) {
            let calls = as_list(member(delta, "tool_calls"@))->0;
            let k = choose|k: int| 0 <= k < calls.len() && call_speaks(#[trigger] calls[k]);
            let function = member(calls[k], "function"@)->0;
            assert(member(function, "arguments"@) is Some);
        }
    }
}

/// Two chat chunks whose deltas agree on `content`, `reasoning_content`, `refusal`
/// and `tool_calls` are both a token or neither is: nothing else in them matters,
/// nor does the name of the event.
pub proof fn lemma_only_four_members_of_a_delta_matter(
    left: SseEventView,
    right: SseEventView,
    left_json: Json,
    right_json: Json,
    left_choices: Seq<Json>,
    right_choices: Seq<Json>,
)
    requires
        trim(left.data).len() > 0 && trim(left.data) != "[DONE]"@,
        trim(right.data).len() > 0 && trim(right.data) != "[DONE]"@,
        json_parse(trim(left.data)) == Some(left_json),
        json_parse(trim(right.data)) == Some(right_json),
        member(left_json, "choices"@) == Some(Json::List(left_choices)),
        member(right_json, "choices"@) == Some(Json::List(right_choices)),
        left_choices.len() == right_choices.len(),
        forall|i: int|
            0 <= i < left_choices.len() ==> match (
                member(#[trigger] left_choices[i], "delta"@),
                member(right_choices[i], "delta"@),
            ) {
                (Some(one), Some(other)) => {
                    &&& member(one, "content"@) == member(other, "content"@)
                    &&& member(one, "reasoning_content"@) == member(other, "reasoning_content"@)
                    &&& member(one, "refusal"@) == member(other, "refusal"@)
                    &&& member(one, "tool_calls"@) == member(other, "tool_calls"@)
                },
                (None, None) => true,
                _ => false,
            },
    ensures
        semantic(EndpointKind::ChatCompletions, left) == semantic(
            EndpointKind::ChatCompletions,
            right,
        ),
{
    assert(forall|i: int|
        0 <= i < left_choices.len() ==> choice_speaks(#[trigger] left_choices[i]) == choice_speaks(
            right_choices[i],
        ));
    if chat_speaks(left_json) {
        let i = choose|i: int|
            0 <= i < left_choices.len() && choice_speaks(#[trigger] left_choices[i]);
        assert(choice_speaks(as_list(member(right_json, "choices"@))->0[i]));
    }
    if chat_speaks(right_json) {
        let i = choose|i: int|
            0 <= i < right_choices.len() && choice_speaks(#[trigger] right_choices[i]);
        assert(choice_speaks(as_list(member(left_json, "choices"@))->0[i]));
    }
}

/// An event of the responses interface is a token if its type, which is its name
/// or else what it says of itself, reports no mere state, and it has a text under
/// `delta` or `text` that is not empty. In a type that ends in `.delta` a text
/// under `arguments` does as well, in any other one under `output_text`.
pub proof fn lemma_spoken_response_is_a_token(
    event: SseEventView,
    json: Json,
    kind: Seq<char>,
    key: Seq<char>,
    text: Seq<char>,
)
    requires
        trim(event.data).len() > 0,
        trim(event.data) != "[DONE]"@,
        json_parse(trim(event.data)) == Some(json),
        kind == match event.event {
            Some(name) => name,
            None => match member(json, "type"@) {
                Some(Json::Text(kind)) => kind,
                _ => Seq::empty(),
            },
        },
        kind != "response.created"@ && kind != "response.in_progress"@,
        kind != "response.completed"@ && kind != "response.queued"@,
        kind != "response.output_item.added"@ && kind != "response.content_part.added"@,
        ({
            ||| key == "delta"@ || key == "text"@
            ||| key == "arguments"@ && ".delta"@.is_suffix_of(kind)
            ||| key == "output_text"@ && !".delta"@.is_suffix_of(kind)
        }),
        member(json, key) == Some(Json::Text(text)),
        text.len() > 0,
    ensures
        semantic(EndpointKind::Responses, event),
        semantic(EndpointKind::Unknown, event),
{
}

/// An event of the responses interface without such a text is no token.
pub proof fn lemma_silent_response_is_no_token(event: SseEventView, json: Json, kind: Seq<char>)
    requires
        json_parse(trim(event.data)) == Some(json),
        kind == match event.event {
            Some(name) => name,
            None => match member(json, "type"@) {
                Some(Json::Text(kind)) => kind,
                _ => Seq::empty(),
            },
        },
        !(member(json, "delta"@) matches Some(Json::Text(text)) && text.len() > 0),
        !(member(json, "text"@) matches Some(Json::Text(text)) && text.len() > 0),
        ".delta"@.is_suffix_of(kind) ==> !(member(json, "arguments"@) matches Some(
            Json::Text(text),
        ) && text.len() > 0),
        !".delta"@.is_suffix_of(kind) ==> !(member(json, "output_text"@) matches Some(
            Json::Text(text),
        ) && text.len() > 0),
    ensures
        !semantic(EndpointKind::Responses, event),
{
}

/// The six types that report a mere state are never a token of the responses
/// interface. The name of an event counts before what it says of itself.
pub proof fn lemma_six_types_report_a_state(event: SseEventView, json: Json, kind: Seq<char>)
    requires
        json_parse(trim(event.data)) == Some(json),
        event.event == Some(kind) || event.event is None && member(json, "type"@) == Some(
            Json::Text(kind),
        ),
        kind == "response.created"@ || kind == "response.in_progress"@ || kind
            == "response.completed"@ || kind == "response.queued"@ || kind
            == "response.output_item.added"@ || kind == "response.content_part.added"@,
    ensures
        !semantic(EndpointKind::Responses, event),
{
}

/// Where the interface is unknown, an event is a token if it is one by either
/// interface.
pub proof fn lemma_unknown_interface_tries_both(event: SseEventView)
    ensures
        semantic(EndpointKind::Unknown, event) == (semantic(EndpointKind::ChatCompletions, event)
            || semantic(EndpointKind::Responses, event)),
{
}

/// Neither the bytes of an event nor white space around its data matter.
pub proof fn lemma_only_name_and_data_matter(
    endpoint: EndpointKind,
    event: SseEventView,
    raw: Seq<u8>,
)
    ensures
        semantic(endpoint, event) == semantic(
            endpoint,
            SseEventView { raw, data: trim(event.data), ..event },
        ),
{
    lemma_trim_takes_off_white_space(event.data);
    lemma_trim_leaves_the_rest(trim(event.data));
}

/// A path belongs to the interface that it ends in, whatever comes before.
pub proof fn lemma_paths_end_in_their_interface(path: Seq<char>, front: Seq<char>)
    ensures
        endpoint_of(front + "/v1/chat/completions"@) == EndpointKind::ChatCompletions,
        endpoint_of(front + "/v1/responses"@) == EndpointKind::Responses,
        !"/v1/chat/completions"@.is_suffix_of(path) && !"/v1/responses"@.is_suffix_of(path)
            ==> endpoint_of(path) == EndpointKind::Unknown,
{
    reveal_strlit("/v1/chat/completions");
    reveal_strlit("/v1/responses");
    let chat = front + "/v1/chat/completions"@;
    let responses = front + "/v1/responses"@;
    assert(chat.subrange(chat.len() - 20, chat.len() as int) =~= "/v1/chat/completions"@);
    assert(responses.subrange(responses.len() - 13, responses.len() as int) =~= "/v1/responses"@);
    assert(responses.last() == "/v1/responses"@[12]);
    if "/v1/chat/completions"@.is_suffix_of(responses) {
        let tail = responses.subrange(responses.len() - 20, responses.len() as int);
        assert(tail[18] == "/v1/chat/completions"@[18]);
        assert(tail[18] == responses[responses.len() - 2]);
        assert(responses[responses.len() - 2] == "/v1/responses"@[11]);
    }
}

proof fn lemma_absent(members: Seq<(Seq<char>, Json)>, only: Seq<char>, key: Seq<char>)
    requires
        only.len() != key.len(),
        forall|k: int| 0 <= k < members.len() ==> (#[trigger] members[k]).0 == only,
    ensures
        crate::json::find_member(members, key) is None,
    decreases members.len(),
{
    if members.len() > 0 {
        assert(members[0].0 == only);
        lemma_absent(members.skip(1), only, key);
    }
}

// ---------------------------------------------------------------------------
// Operations
// ---------------------------------------------------------------------------

impl EndpointKind {
    /// The interface behind a path.
    pub fn from_path(path: &str) -> (kind: Self)
        ensures
            kind == endpoint_of(path@),
    {
        let chars = chars_of(path);
        let chat = chars_of("/v1/chat/completions");
        let responses = chars_of("/v1/responses");
        if ends_with_chars(chars.as_slice(), chat.as_slice()) {
            EndpointKind::ChatCompletions
        } else if ends_with_chars(chars.as_slice(), responses.as_slice()) {
            EndpointKind::Responses
        } else {
            EndpointKind::Unknown
        }
    }
}

/// Whether an event carries a token, by the rules of `endpoint`.
pub fn is_semantic_event(endpoint: EndpointKind, event: &SseEvent) -> (found: bool)
    ensures
        found == semantic(endpoint, event@),
{
    let chars = chars_of(event.data.as_str());
    let data = trim_chars(chars.as_slice());
    let text = text_of(data);
    if data.len() == 0 || same_text(text.as_str(), "[DONE]") {
        return false;
    }
    let name: Option<&str> = match &event.event {
        Some(name) => Some(name.as_str()),
        None => None,
    };
    match parse_text(text.as_str()) {
        Some(value) => is_semantic_value(endpoint, name, &value),
        None => false,
    }
}

/// Whether the document of an event carries a token.
pub fn is_semantic_value(
    endpoint: EndpointKind,
    event_name: Option<&str>,
    value: &JsonValue,
) -> (found: bool)
    ensures
        found == document_speaks(endpoint, opt_str(event_name), value.model()),
{
    match endpoint {
        EndpointKind::ChatCompletions => is_chat_semantic(value),
        EndpointKind::Responses => is_responses_semantic(event_name, value),
        EndpointKind::Unknown => is_chat_semantic(value) || is_responses_semantic(
            event_name,
            value,
        ),
    }
}

/// Whether a chunk of a chat completion brings something.
pub fn is_chat_semantic(value: &JsonValue) -> (found: bool)
    ensures
        found == chat_speaks(value.model()),
{
    match value.get("choices") {
        Some(JsonValue::List(choices)) => {
            let ghost models = as_list(member(value.model(), "choices"@))->0;
            let mut i: usize = 0;
            while i < choices.len()
                invariant
                    i <= choices@.len(),
                    models.len() == choices@.len(),
                    as_list(member(value.model(), "choices"@)) == Some(models),
                    forall|k: int|
                        0 <= k < choices@.len() ==> #[trigger] models[k] == choices@[k].model(),
                    forall|k: int| 0 <= k < i ==> !choice_speaks(#[trigger] models[k]),
                decreases choices@.len() - i,
            {
                let choice = &choices[i];
                assert(models[i as int] == choice.model());
                if let Some(delta) = choice.get("delta") {
                    if non_empty_string(delta.get("content")) || non_empty_string(
                        delta.get("reasoning_content"),
                    ) || non_empty_string(delta.get("refusal")) || tool_call_arguments(delta) {
                        assert(choice_speaks(
                            as_list(member(value.model(), "choices"@))->0[i as int],
                        ));
                        return true;
                    }
                }
                i += 1;
            }
            false
        },
        _ => false,
    }
}

/// Whether an event of the responses interface brings something.
pub fn is_responses_semantic(event_name: Option<&str>, value: &JsonValue) -> (found: bool)
    ensures
        found == response_speaks(opt_str(event_name), value.model()),
{
    let kind: &str = match event_name {
        Some(name) => name,
        None => match value.get("type") {
            Some(JsonValue::Text(text)) => text.as_str(),
            _ => {
                proof {
                    reveal_strlit("");
                }
                ""
            },
        },
    };
    proof {
        reveal_strlit("");
        assert(kind@ =~= event_type(opt_str(event_name), value.model()));
    }
    if same_text(kind, "response.created") || same_text(kind, "response.in_progress") || same_text(
        kind,
        "response.completed",
    ) || same_text(kind, "response.queued") || same_text(kind, "response.output_item.added")
        || same_text(kind, "response.content_part.added") {
        return false;
    }
    let chars = chars_of(kind);
    let delta = chars_of(".delta");
    if ends_with_chars(chars.as_slice(), delta.as_slice()) {
        return non_empty_string(value.get("delta")) || non_empty_string(value.get("text"))
            || non_empty_string(value.get("arguments"));
    }
    non_empty_string(value.get("delta")) || non_empty_string(value.get("output_text"))
        || non_empty_string(value.get("text"))
}

/// Whether a delta brings arguments for a tool call.
pub fn tool_call_arguments(delta: &JsonValue) -> (found: bool)
    ensures
        found == tools_speak(delta.model()),
{
    match delta.get("tool_calls") {
        Some(JsonValue::List(calls)) => {
            let ghost models = as_list(member(delta.model(), "tool_calls"@))->0;
            let mut i: usize = 0;
            while i < calls.len()
                invariant
                    i <= calls@.len(),
                    models.len() == calls@.len(),
                    as_list(member(delta.model(), "tool_calls"@)) == Some(models),
                    forall|k: int|
                        0 <= k < calls@.len() ==> #[trigger] models[k] == calls@[k].model(),
                    forall|k: int| 0 <= k < i ==> !call_speaks(#[trigger] models[k]),
                decreases calls@.len() - i,
            {
                let call = &calls[i];
                assert(models[i as int] == call.model());
                if let Some(function) = call.get("function") {
                    if non_empty_string(function.get("arguments")) {
                        assert(call_speaks(
                            as_list(member(delta.model(), "tool_calls"@))->0[i as int],
                        ));
                        return true;
                    }
                }
                i += 1;
            }
            false
        },
        _ => false,
    }
}

/// Whether a member is a text that is not empty.
pub fn non_empty_string(value: Option<&JsonValue>) -> (found: bool)
    ensures
        found == speaks(
            match value {
                Some(value) => Some(value.model()),
                None => None,
            },
        ),
{
    match value {
        Some(JsonValue::Text(text)) => text.as_str().unicode_len() > 0,
        _ => false,
    }
}

}
