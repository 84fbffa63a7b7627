//! The events that the proxy reports while it works, and what each one writes.

use vstd::prelude::*;

use crate::storage::records::{
    self, FinishAttempt, FinishAttemptModel, NewAttemptModel, NewAttemptRecord, NewRequestModel,
    NewRequestRecord, PayloadChange, PayloadChangeModel, RecordWrite, RecordWriteModel,
};
use crate::text::opt_text;

verus! {

/// How many events may wait to be written. One more is dropped, so that writing
/// never holds up forwarding.
pub const RECORD_QUEUE_CAPACITY: usize = 4096;

/// The end of a request.
#[derive(Clone, Debug)]
pub struct CompleteRequest {
    pub request_id: String,
    pub status: String,
    pub upstream_name: Option<String>,
    pub attempt_count: i64,
    pub final_http_status: Option<i64>,
    pub error_message: Option<String>,
}

/// The end of an attempt.
#[derive(Clone, Debug)]
pub struct FinishAttemptRecord {
    pub attempt_id: String,
    pub update: FinishAttempt,
}

/// A piece of a body.
#[derive(Clone, Debug)]
pub struct RecordBodyChunk {
    pub request_id: String,
    pub body: Vec<u8>,
}

/// The end of a body.
#[derive(Clone, Debug)]
pub struct FinishBody {
    pub request_id: String,
    pub complete: bool,
    pub error_message: Option<String>,
}

/// Something to record.
#[derive(Clone, Debug)]
pub enum RecordEvent {
    CreateRequest(NewRequestRecord),
    CompleteRequest(CompleteRequest),
    CreateAttempt(NewAttemptRecord),
    FinishAttempt(FinishAttemptRecord),
    SaveRequestBody(RecordBodyChunk),
    AppendRequestBody(RecordBodyChunk),
    FinishRequestBody(FinishBody),
    SaveResponseBody(RecordBodyChunk),
    AppendResponseBody(RecordBodyChunk),
    FinishResponseBody(FinishBody),
}

/// The end of a request as a mathematical value.
pub struct CompleteRequestModel {
    pub request_id: Seq<char>,
    pub status: Seq<char>,
    pub upstream_name: Option<Seq<char>>,
    pub attempt_count: int,
    pub final_http_status: Option<i64>,
    pub error_message: Option<Seq<char>>,
}

/// Something to record, as a mathematical value.
pub enum EventModel {
    CreateRequest(NewRequestModel),
    CompleteRequest(CompleteRequestModel),
    CreateAttempt(NewAttemptModel),
    FinishAttempt { attempt_id: Seq<char>, update: FinishAttemptModel },
    SaveRequestBody { request_id: Seq<char>, body: Seq<u8> },
    AppendRequestBody { request_id: Seq<char>, body: Seq<u8> },
    FinishRequestBody { request_id: Seq<char>, complete: bool, error_message: Option<Seq<char>> },
    SaveResponseBody { request_id: Seq<char>, body: Seq<u8> },
    AppendResponseBody { request_id: Seq<char>, body: Seq<u8> },
    FinishResponseBody { request_id: Seq<char>, complete: bool, error_message: Option<Seq<char>> },
}

impl View for CompleteRequest {
    type V = CompleteRequestModel;

    open spec fn view(&self) -> CompleteRequestModel {
        CompleteRequestModel {
            request_id: self.request_id@,
            status: self.status@,
            upstream_name: opt_text(self.upstream_name),
            attempt_count: self.attempt_count as int,
            final_http_status: self.final_http_status,
            error_message: opt_text(self.error_message),
        }
    }
}

impl View for RecordEvent {
    type V = EventModel;

    open spec fn view(&self) -> EventModel {
        match self {
            RecordEvent::CreateRequest(record) => EventModel::CreateRequest(record@),
            RecordEvent::CompleteRequest(record) => EventModel::CompleteRequest(record@),
            RecordEvent::CreateAttempt(record) => EventModel::CreateAttempt(record@),
            RecordEvent::FinishAttempt(record) => EventModel::FinishAttempt {
                attempt_id: record.attempt_id@,
                update: record.update@,
            },
            RecordEvent::SaveRequestBody(chunk) => EventModel::SaveRequestBody {
                request_id: chunk.request_id@,
                body: chunk.body@,
            },
            RecordEvent::AppendRequestBody(chunk) => EventModel::AppendRequestBody {
                request_id: chunk.request_id@,
                body: chunk.body@,
            },
            RecordEvent::FinishRequestBody(end) => EventModel::FinishRequestBody {
                request_id: end.request_id@,
                complete: end.complete,
                error_message: opt_text(end.error_message),
            },
            RecordEvent::SaveResponseBody(chunk) => EventModel::SaveResponseBody {
                request_id: chunk.request_id@,
                body: chunk.body@,
            },
            RecordEvent::AppendResponseBody(chunk) => EventModel::AppendResponseBody {
                request_id: chunk.request_id@,
                body: chunk.body@,
            },
            RecordEvent::FinishResponseBody(end) => EventModel::FinishResponseBody {
                request_id: end.request_id@,
                complete: end.complete,
                error_message: opt_text(end.error_message),
            },
        }
    }
}

/// The views of `events`.
pub open spec fn event_models(events: Seq<RecordEvent>) -> Seq<EventModel> {
    events.map_values(|event: RecordEvent| event@)
}

/// The request that an event is about; the end of an attempt names the attempt only.
pub open spec fn request_of(event: EventModel) -> Option<Seq<char>> {
    match event {
        EventModel::CreateRequest(record) => Some(record.id),
        EventModel::CompleteRequest(record) => Some(record.request_id),
        EventModel::CreateAttempt(record) => Some(record.request_id),
        EventModel::FinishAttempt { .. } => None,
        EventModel::SaveRequestBody { request_id, .. } => Some(request_id),
        EventModel::AppendRequestBody { request_id, .. } => Some(request_id),
        EventModel::FinishRequestBody { request_id, .. } => Some(request_id),
        EventModel::SaveResponseBody { request_id, .. } => Some(request_id),
        EventModel::AppendResponseBody { request_id, .. } => Some(request_id),
        EventModel::FinishResponseBody { request_id, .. } => Some(request_id),
    }
}

/// What recording an event at the time `now` writes.
pub open spec fn write_of(event: EventModel, now: Seq<char>) -> RecordWriteModel {
    match event {
        EventModel::CreateRequest(record) => RecordWriteModel::InsertRequest {
            record,
            status: "started"@,
            created_at: now,
        },
        EventModel::CompleteRequest(record) => RecordWriteModel::UpdateRequest {
            id: record.request_id,
            status: record.status,
            upstream_name: record.upstream_name,
            attempt_count: record.attempt_count,
            final_http_status: record.final_http_status,
            error_message: record.error_message,
            retry_count: records::retries(record.attempt_count),
            completed_at: now,
        },
        EventModel::CreateAttempt(record) => RecordWriteModel::InsertAttempt {
            record,
            status: "started"@,
            started_at: now,
        },
        EventModel::FinishAttempt { attempt_id, update } => RecordWriteModel::UpdateAttempt {
            id: attempt_id,
            update,
            emitted_flag: if update.emitted_to_client {
                1int
            } else {
                0int
            },
            completed_at: now,
        },
        EventModel::SaveRequestBody { request_id, body } => RecordWriteModel::ChangePayload {
            request_id,
            change: PayloadChangeModel::SaveRequest(body),
        },
        EventModel::AppendRequestBody { request_id, body } => RecordWriteModel::ChangePayload {
            request_id,
            change: PayloadChangeModel::AppendRequest(body),
        },
        EventModel::FinishRequestBody {
            request_id,
            complete,
            error_message,
        } => RecordWriteModel::ChangePayload {
            request_id,
            change: PayloadChangeModel::FinishRequest { complete, error_message },
        },
        EventModel::SaveResponseBody { request_id, body } => RecordWriteModel::ChangePayload {
            request_id,
            change: PayloadChangeModel::SaveResponse(body),
        },
        EventModel::AppendResponseBody { request_id, body } => RecordWriteModel::ChangePayload {
            request_id,
            change: PayloadChangeModel::AppendResponse(body),
        },
        EventModel::FinishResponseBody {
            request_id,
            complete,
            error_message,
        } => RecordWriteModel::ChangePayload {
            request_id,
            change: PayloadChangeModel::FinishResponse { complete, error_message },
        },
    }
}

/// What recording `events` changes about the stored bodies of a request.
pub open spec fn payload_changes(
    events: Seq<EventModel>,
    request_id: Seq<char>,
) -> Seq<PayloadChangeModel>
    decreases events.len(),
{
    if events.len() == 0 {
        Seq::empty()
    } else {
        let before = payload_changes(events.drop_last(), request_id);
        match write_of(events.last(), Seq::empty()) {
            RecordWriteModel::ChangePayload {
                request_id: changed,
                change,
            } if changed == request_id => before.push(change),
            _ => before,
        }
    }
}

/// Changes are collected piece by piece.
pub proof fn lemma_payload_changes_append(
    left: Seq<EventModel>,
    right: Seq<EventModel>,
    request_id: Seq<char>,
)
    ensures
        payload_changes(left + right, request_id) == payload_changes(left, request_id)
            + payload_changes(right, request_id),
    decreases right.len(),
{
    if right.len() == 0 {
        assert(left + right =~= left);
        assert(payload_changes(left, request_id) + Seq::<PayloadChangeModel>::empty()
            =~= payload_changes(left, request_id));
    } else {
        lemma_payload_changes_append(left, right.drop_last(), request_id);
        assert((left + right).drop_last() =~= left + right.drop_last());
        assert(payload_changes(left + right, request_id) =~= payload_changes(left, request_id)
            + payload_changes(right, request_id));
    }
}

/// The events that record a response piece by piece.
pub open spec fn appended(request_id: Seq<char>, chunks: Seq<Seq<u8>>) -> Seq<EventModel> {
    chunks.map_values(|body: Seq<u8>| EventModel::AppendResponseBody { request_id, body })
}

/// A response that is recorded piece by piece and then ended changes the stored
/// bodies by those pieces, in order, and by that end.
pub proof fn lemma_streamed_changes(
    request_id: Seq<char>,
    chunks: Seq<Seq<u8>>,
    complete: bool,
    error_message: Option<Seq<char>>,
    rest: Seq<EventModel>,
)
    requires
        payload_changes(rest, request_id) == Seq::<PayloadChangeModel>::empty(),
    ensures
        payload_changes(
            appended(request_id, chunks) + seq![
                EventModel::FinishResponseBody { request_id, complete, error_message },
            ] + rest,
            request_id,
        ) == records::streamed_body(false, chunks, complete, error_message),
{
    let end = seq![EventModel::FinishResponseBody { request_id, complete, error_message }];
    lemma_appended_changes(request_id, chunks);
    lemma_payload_changes_append(appended(request_id, chunks), end, request_id);
    lemma_payload_changes_append(appended(request_id, chunks) + end, rest, request_id);
    reveal_with_fuel(payload_changes, 2);
    assert(end.drop_last() =~= Seq::<EventModel>::empty());
    assert(payload_changes(end, request_id) =~= seq![
        PayloadChangeModel::FinishResponse { complete, error_message },
    ]);
    assert(payload_changes(
        appended(request_id, chunks) + end + rest,
        request_id,
    ) =~= records::streamed_body(false, chunks, complete, error_message));
}

proof fn lemma_appended_changes(request_id: Seq<char>, chunks: Seq<Seq<u8>>)
    ensures
        payload_changes(appended(request_id, chunks), request_id) == records::appends(
            false,
            chunks,
        ),
    decreases chunks.len(),
{
    let events = appended(request_id, chunks);
    if chunks.len() > 0 {
        lemma_appended_changes(request_id, chunks.drop_last());
        assert(events.drop_last() =~= appended(request_id, chunks.drop_last()));
    }
    assert(payload_changes(events, request_id) =~= records::appends(false, chunks));
}

/// Events and what they stand for come one for one.
pub proof fn lemma_events_come_one_for_one(events: Seq<RecordEvent>, at: int)
    ensures
        event_models(events).len() == events.len(),
        0 <= at < events.len() ==> event_models(events)[at] == events[at]@,
        RECORD_QUEUE_CAPACITY == 4096,
{
}

/// A request and an attempt are written as started when they begin, with all that
/// is known of them then.
pub proof fn lemma_what_a_beginning_writes(
    request: NewRequestModel,
    attempt: NewAttemptModel,
    now: Seq<char>,
)
    ensures
        write_of(EventModel::CreateRequest(request), now) == (RecordWriteModel::InsertRequest {
            record: request,
            status: "started"@,
            created_at: now,
        }),
        write_of(EventModel::CreateAttempt(attempt), now) == (RecordWriteModel::InsertAttempt {
            record: attempt,
            status: "started"@,
            started_at: now,
        }),
{
}

/// The end of a request writes how it ended, under its own identifier, and how
/// many of its attempts were retries; the end of an attempt writes how it ended,
/// and whether the client saw anything of it as one or zero.
pub proof fn lemma_what_an_end_writes(
    end: CompleteRequestModel,
    attempt_id: Seq<char>,
    update: FinishAttemptModel,
    now: Seq<char>,
)
    ensures
        write_of(EventModel::CompleteRequest(end), now) matches RecordWriteModel::UpdateRequest {
            id,
            status,
            upstream_name,
            attempt_count,
            final_http_status,
            error_message,
            retry_count,
            completed_at,
        } && {
            &&& id == end.request_id
            &&& status == end.status
            &&& upstream_name == end.upstream_name
            &&& attempt_count == end.attempt_count
            &&& final_http_status == end.final_http_status
            &&& error_message == end.error_message
            &&& end.attempt_count >= 1 ==> retry_count == end.attempt_count - 1
            &&& end.attempt_count <= 0 ==> retry_count == 0
            &&& completed_at == now
        },
        write_of(EventModel::FinishAttempt { attempt_id, update }, now) == (
        RecordWriteModel::UpdateAttempt {
            id: attempt_id,
            update,
            emitted_flag: if update.emitted_to_client {
                1
            } else {
                0
            },
            completed_at: now,
        }),
{
}

/// What is recorded of a body changes that body of that request: whole bodies are
/// saved, pieces are appended, and ends are ends.
pub proof fn lemma_what_a_body_writes(
    request_id: Seq<char>,
    body: Seq<u8>,
    complete: bool,
    error_message: Option<Seq<char>>,
    now: Seq<char>,
)
    ensures
        write_of(EventModel::SaveRequestBody { request_id, body }, now) == (
        RecordWriteModel::ChangePayload {
            request_id,
            change: PayloadChangeModel::SaveRequest(body),
        }),
        write_of(EventModel::AppendRequestBody { request_id, body }, now) == (
        RecordWriteModel::ChangePayload {
            request_id,
            change: PayloadChangeModel::AppendRequest(body),
        }),
        write_of(EventModel::FinishRequestBody { request_id, complete, error_message }, now) == (
        RecordWriteModel::ChangePayload {
            request_id,
            change: PayloadChangeModel::FinishRequest { complete, error_message },
        }),
        write_of(EventModel::SaveResponseBody { request_id, body }, now) == (
        RecordWriteModel::ChangePayload {
            request_id,
            change: PayloadChangeModel::SaveResponse(body),
        }),
        write_of(EventModel::AppendResponseBody { request_id, body }, now) == (
        RecordWriteModel::ChangePayload {
            request_id,
            change: PayloadChangeModel::AppendResponse(body),
        }),
        write_of(EventModel::FinishResponseBody { request_id, complete, error_message }, now) == (
        RecordWriteModel::ChangePayload {
            request_id,
            change: PayloadChangeModel::FinishResponse { complete, error_message },
        }),
{
}

/// What recording `event` at the time `now` writes.
pub fn write_event(event: RecordEvent, now: &str) -> (write: RecordWrite)
    ensures
        write@ == write_of(event@, now@),
{
    match event {
        RecordEvent::CreateRequest(record) => records::create_request(&record, now),
        RecordEvent::CompleteRequest(record) => records::complete_request(
            record.request_id.as_str(),
            record.status.as_str(),
            &record.upstream_name,
            record.attempt_count,
            record.final_http_status,
            &record.error_message,
            now,
        ),
        RecordEvent::CreateAttempt(record) => records::create_attempt(&record, now),
        RecordEvent::FinishAttempt(record) => records::finish_attempt(
            record.attempt_id.as_str(),
            &record.update,
            now,
        ),
        RecordEvent::SaveRequestBody(chunk) => RecordWrite::ChangePayload {
            request_id: chunk.request_id,
            change: PayloadChange::SaveRequest(chunk.body),
        },
        RecordEvent::AppendRequestBody(chunk) => RecordWrite::ChangePayload {
            request_id: chunk.request_id,
            change: PayloadChange::AppendRequest(chunk.body),
        },
        RecordEvent::FinishRequestBody(end) => RecordWrite::ChangePayload {
            request_id: end.request_id,
            change: PayloadChange::FinishRequest {
                complete: end.complete,
                error_message: end.error_message,
            },
        },
        RecordEvent::SaveResponseBody(chunk) => RecordWrite::ChangePayload {
            request_id: chunk.request_id,
            change: PayloadChange::SaveResponse(chunk.body),
        },
        RecordEvent::AppendResponseBody(chunk) => RecordWrite::ChangePayload {
            request_id: chunk.request_id,
            change: PayloadChange::AppendResponse(chunk.body),
        },
        RecordEvent::FinishResponseBody(end) => RecordWrite::ChangePayload {
            request_id: end.request_id,
            change: PayloadChange::FinishResponse {
                complete: end.complete,
                error_message: end.error_message,
            },
        },
    }
}

/// The name of an event, for a message about one that was dropped.
pub fn event_name(event: &RecordEvent) -> (name: &'static str)
    ensures
        name@ == match event@ {
            EventModel::CreateRequest(_) => "create_request"@,
            EventModel::CompleteRequest(_) => "complete_request"@,
            EventModel::CreateAttempt(_) => "create_attempt"@,
            EventModel::FinishAttempt { .. } => "finish_attempt"@,
            EventModel::SaveRequestBody { .. } => "save_request_body"@,
            EventModel::AppendRequestBody { .. } => "append_request_body"@,
            EventModel::FinishRequestBody { .. } => "finish_request_body"@,
            EventModel::SaveResponseBody { .. } => "save_response_body"@,
            EventModel::AppendResponseBody { .. } => "append_response_body"@,
            EventModel::FinishResponseBody { .. } => "finish_response_body"@,
        },
{
    match event {
        RecordEvent::CreateRequest(_) => "create_request",
        RecordEvent::CompleteRequest(_) => "complete_request",
        RecordEvent::CreateAttempt(_) => "create_attempt",
        RecordEvent::FinishAttempt(_) => "finish_attempt",
        RecordEvent::SaveRequestBody(_) => "save_request_body",
        RecordEvent::AppendRequestBody(_) => "append_request_body",
        RecordEvent::FinishRequestBody(_) => "finish_request_body",
        RecordEvent::SaveResponseBody(_) => "save_response_body",
        RecordEvent::AppendResponseBody(_) => "append_response_body",
        RecordEvent::FinishResponseBody(_) => "finish_response_body",
    }
}

}
