//! Sending a committed answer to the client, and recording what was sent and how
//! it ended.

use bytes::Bytes;
use vstd::prelude::*;

use super::sse::concat;
use crate::interop::buffers::{bytes_content, bytes_slice};
use crate::recording::{
    appended, event_models, lemma_streamed_changes, payload_changes, CompleteRequest,
    CompleteRequestModel, EventModel, FinishAttemptRecord, FinishBody, RecordBodyChunk,
    RecordEvent,
};
use crate::storage::records::{
    changed_all, lemma_streamed_body_is_stored_whole, no_body, BodyModel, FinishAttempt,
    FinishAttemptModel, PayloadChangeModel, PayloadModel,
};
use crate::text::{copy_opt, opt_text};

verus! {

/// What the records of a committed attempt are about.
#[derive(Clone, Debug)]
pub struct StreamRecordContext {
    pub request_id: String,
    pub attempt_id: String,
    pub request_status_on_success: String,
    pub upstream_name: String,
    pub attempt_count: i64,
}

/// What the records are about, as a mathematical value.
pub struct StreamContextModel {
    pub request_id: Seq<char>,
    pub attempt_id: Seq<char>,
    pub request_status_on_success: Seq<char>,
    pub upstream_name: Seq<char>,
    pub attempt_count: int,
}

impl View for StreamRecordContext {
    type V = StreamContextModel;

    open spec fn view(&self) -> StreamContextModel {
        StreamContextModel {
            request_id: self.request_id@,
            attempt_id: self.attempt_id@,
            request_status_on_success: self.request_status_on_success@,
            upstream_name: self.upstream_name@,
            attempt_count: self.attempt_count as int,
        }
    }
}

/// Records how a committed stream ends.
#[derive(Debug)]
pub struct StreamFinalizer {
    pub context: StreamRecordContext,
    pub http_status: i64,
    pub response_header_ms: i64,
    pub first_token_ms: Option<i64>,
    pub emitted_to_client: bool,
}

/// The recorder of a stream's end as a mathematical value.
pub struct FinalizerModel {
    pub context: StreamContextModel,
    pub http_status: i64,
    pub response_header_ms: i64,
    pub first_token_ms: Option<i64>,
    pub emitted_to_client: bool,
}

impl View for StreamFinalizer {
    type V = FinalizerModel;

    open spec fn view(&self) -> FinalizerModel {
        FinalizerModel {
            context: self.context@,
            http_status: self.http_status,
            response_header_ms: self.response_header_ms,
            first_token_ms: self.first_token_ms,
            emitted_to_client: self.emitted_to_client,
        }
    }
}

impl FinalizerModel {
    /// What is recorded at the end of the stream.
    pub open spec fn finish(
        self,
        attempt_status: Seq<char>,
        request_status: Seq<char>,
        error_message: Option<Seq<char>>,
    ) -> Seq<EventModel> {
        seq![
            EventModel::FinishResponseBody {
                request_id: self.context.request_id,
                complete: error_message is None,
                error_message,
            },
            EventModel::FinishAttempt {
                attempt_id: self.context.attempt_id,
                update: FinishAttemptModel {
                    status: attempt_status,
                    http_status: Some(self.http_status),
                    response_header_ms: Some(self.response_header_ms),
                    first_token_ms: self.first_token_ms,
                    timeout_reason: None,
                    error_message,
                    emitted_to_client: self.emitted_to_client,
                },
            },
            EventModel::CompleteRequest(
                CompleteRequestModel {
                    request_id: self.context.request_id,
                    status: request_status,
                    upstream_name: Some(self.context.upstream_name),
                    attempt_count: self.context.attempt_count,
                    final_http_status: Some(self.http_status),
                    error_message,
                },
            ),
        ]
    }

    /// What is recorded when the stream came to its end.
    pub open spec fn success(self) -> Seq<EventModel> {
        self.finish("success"@, self.context.request_status_on_success, None)
    }

    /// What is recorded when the stream broke.
    pub open spec fn broken(self, message: Seq<char>) -> Seq<EventModel> {
        self.finish("stream_error"@, "stream_error"@, Some(message))
    }

    /// What is recorded when the client went away.
    pub open spec fn abandoned(self) -> Seq<EventModel> {
        self.finish(
            "client_disconnected"@,
            "client_disconnected"@,
            Some("downstream client disconnected before stream completed"@),
        )
    }
}

/// The three ends that a stream can come to. One that came to its end counts as
/// what the attempt was to count as; one that broke, or that the client left, is
/// incomplete and says why. The body ends on record first, then the attempt, then
/// the request.
pub proof fn lemma_how_streams_end(finalizer: FinalizerModel, message: Seq<char>)
    ensures
        ({
            let ends = |events: Seq<EventModel>,
                attempt: Seq<char>,
                request: Seq<char>,
                error: Option<Seq<char>>|
                {
                    &&& events.len() == 3
                    &&& events[0] == (EventModel::FinishResponseBody {
                        request_id: finalizer.context.request_id,
                        complete: error is None,
                        error_message: error,
                    })
                    &&& events[1] matches EventModel::FinishAttempt { attempt_id, update } && {
                        &&& attempt_id == finalizer.context.attempt_id
                        &&& update.status == attempt
                        &&& update.http_status == Some(finalizer.http_status)
                        &&& update.response_header_ms == Some(finalizer.response_header_ms)
                        &&& update.first_token_ms == finalizer.first_token_ms
                        &&& update.timeout_reason is None
                        &&& update.error_message == error
                        &&& update.emitted_to_client == finalizer.emitted_to_client
                    }
                    &&& events[2] matches EventModel::CompleteRequest(end) && {
                        &&& end.request_id == finalizer.context.request_id
                        &&& end.status == request
                        &&& end.upstream_name == Some(finalizer.context.upstream_name)
                        &&& end.attempt_count == finalizer.context.attempt_count
                        &&& end.final_http_status == Some(finalizer.http_status)
                        &&& end.error_message == error
                    }
                };
            &&& ends(
                finalizer.success(),
                "success"@,
                finalizer.context.request_status_on_success,
                None,
            )
            &&& ends(finalizer.broken(message), "stream_error"@, "stream_error"@, Some(message))
            &&& ends(
                finalizer.abandoned(),
                "client_disconnected"@,
                "client_disconnected"@,
                Some("downstream client disconnected before stream completed"@),
            )
        }),
{
}

/// What a stream of a recorded attempt records: each piece as it is, and from then
/// on that the client was sent something; its end or its breaking once. A stream
/// of an attempt that is not recorded records nothing.
pub proof fn lemma_what_a_stream_records(relay: RelayModel, bytes: Seq<u8>, message: Seq<char>)
    ensures
        relay.finalizer matches Some(finalizer) ==> {
            &&& relay.on(ItemModel::Chunk(bytes)).1 == seq![
                EventModel::AppendResponseBody {
                    request_id: finalizer.context.request_id,
                    body: bytes,
                },
            ]
            &&& relay.on(ItemModel::Chunk(bytes)).0.finalizer matches Some(next)
                && next.emitted_to_client && next.context == finalizer.context && next.http_status
                == finalizer.http_status && next.response_header_ms == finalizer.response_header_ms
                && next.first_token_ms == finalizer.first_token_ms
            &&& relay.on(ItemModel::End).1 == finalizer.success()
            &&& relay.on(ItemModel::Error(message)).1 == finalizer.broken(message)
            &&& !relay.finished ==> relay.on_drop() == finalizer.abandoned()
        },
        relay.finalizer is None ==> relay.on(ItemModel::Chunk(bytes)).1.len() == 0 && relay.on(
            ItemModel::End,
        ).1.len() == 0 && relay.on(ItemModel::Error(message)).1.len() == 0
            && relay.on_drop().len() == 0,
        relay.on(ItemModel::End).0.finalizer is None && relay.on(ItemModel::End).0.finished,
        relay.on(ItemModel::Error(message)).0.finalizer is None,
        relay.on(ItemModel::Error(message)).0.finished,
        relay.on(ItemModel::Chunk(bytes)).0.finished == relay.finished,
        relay.finished ==> relay.on_drop().len() == 0,
{
}

/// What was held back is recorded as the first piece that was sent.
pub proof fn lemma_what_was_held_back_is_recorded_first(relay: RelayModel, bytes: Seq<u8>)
    ensures
        relay.initial == Some(bytes) ==> relay.open().1 == relay.on(ItemModel::Chunk(bytes)).1
            && relay.open().0.finalizer == relay.on(ItemModel::Chunk(bytes)).0.finalizer
            && relay.open().0.initial is None && relay.open().0.finished == relay.finished,
        relay.initial is None ==> relay.open() == (relay, Seq::<EventModel>::empty()),
{
}

/// A copy of `bytes`.
pub(crate) fn bytes_to_vec(bytes: &[u8]) -> (copy: Vec<u8>)
    ensures
        copy@ == bytes@,
{
    vstd::slice::slice_to_vec(bytes)
}

impl StreamFinalizer {
    /// Records a piece that is sent to the client.
    pub fn record_emitted_chunk(&mut self, bytes: &[u8]) -> (event: RecordEvent)
        ensures
            event@ == (EventModel::AppendResponseBody {
                request_id: old(self)@.context.request_id,
                body: bytes@,
            }),
            final(self)@ == (FinalizerModel { emitted_to_client: true, ..old(self)@ }),
    {
        self.emitted_to_client = true;
        RecordEvent::AppendResponseBody(
            RecordBodyChunk {
                request_id: self.context.request_id.clone(),
                body: bytes_to_vec(bytes),
            },
        )
    }

    /// What to record when the stream came to its end.
    pub fn finish_success(self) -> (events: Vec<RecordEvent>)
        ensures
            event_models(events@) == self@.success(),
    {
        let request_status = self.context.request_status_on_success.clone();
        self.spawn_finish("success", request_status.as_str(), None)
    }

    /// What to record when the stream broke.
    pub fn finish_stream_error(self, error_message: &str) -> (events: Vec<RecordEvent>)
        ensures
            event_models(events@) == self@.broken(error_message@),
    {
        self.spawn_finish("stream_error", "stream_error", Some(error_message.to_string()))
    }

    /// What to record when the client went away.
    pub fn finish_client_disconnected(self) -> (events: Vec<RecordEvent>)
        ensures
            event_models(events@) == self@.abandoned(),
    {
        self.spawn_finish(
            "client_disconnected",
            "client_disconnected",
            Some("downstream client disconnected before stream completed".to_string()),
        )
    }

    fn spawn_finish(
        self,
        attempt_status: &str,
        request_status: &str,
        error_message: Option<String>,
    ) -> (events: Vec<RecordEvent>)
        ensures
            event_models(events@) == self@.finish(
                attempt_status@,
                request_status@,
                opt_text(error_message),
            ),
    {
        let mut events: Vec<RecordEvent> = Vec::new();
        events.push(
            RecordEvent::FinishResponseBody(
                FinishBody {
                    request_id: self.context.request_id.clone(),
                    complete: error_message.is_none(),
                    error_message: copy_opt(&error_message),
                },
            ),
        );
        events.push(
            RecordEvent::FinishAttempt(
                FinishAttemptRecord {
                    attempt_id: self.context.attempt_id.clone(),
                    update: FinishAttempt {
                        status: attempt_status.to_string(),
                        http_status: Some(self.http_status),
                        response_header_ms: Some(self.response_header_ms),
                        first_token_ms: self.first_token_ms,
                        timeout_reason: None,
                        error_message: copy_opt(&error_message),
                        emitted_to_client: self.emitted_to_client,
                    },
                },
            ),
        );
        events.push(
            RecordEvent::CompleteRequest(
                CompleteRequest {
                    request_id: self.context.request_id.clone(),
                    status: request_status.to_string(),
                    upstream_name: Some(self.context.upstream_name.clone()),
                    attempt_count: self.context.attempt_count,
                    final_http_status: Some(self.http_status),
                    error_message: copy_opt(&error_message),
                },
            ),
        );
        assert(event_models(events@) =~= self@.finish(
            attempt_status@,
            request_status@,
            opt_text(error_message),
        ));
        events
    }
}

/// What comes out of an upstream's stream.
#[derive(Debug)]
pub enum StreamItem<'a> {
    Chunk(&'a [u8]),
    Error(&'a str),
    End,
}

/// What comes out of a stream, as a mathematical value.
pub enum ItemModel {
    Chunk(Seq<u8>),
    Error(Seq<char>),
    End,
}

impl<'a> View for StreamItem<'a> {
    type V = ItemModel;

    open spec fn view(&self) -> ItemModel {
        match self {
            StreamItem::Chunk(bytes) => ItemModel::Chunk(bytes@),
            StreamItem::Error(message) => ItemModel::Error(message@),
            StreamItem::End => ItemModel::End,
        }
    }
}

/// A committed stream on its way to the client: what was held back goes first.
#[derive(Debug)]
pub struct FinalizedSseStream {
    initial: Option<Bytes>,
    finalizer: Option<StreamFinalizer>,
    finished: bool,
}

/// A committed stream as a mathematical value.
pub struct RelayModel {
    pub initial: Option<Seq<u8>>,
    pub finalizer: Option<FinalizerModel>,
    pub finished: bool,
}

impl View for FinalizedSseStream {
    type V = RelayModel;

    closed spec fn view(&self) -> RelayModel {
        RelayModel {
            initial: match self.initial {
                Some(bytes) => Some(bytes_content(bytes)),
                None => None,
            },
            finalizer: match self.finalizer {
                Some(finalizer) => Some(finalizer@),
                None => None,
            },
            finished: self.finished,
        }
    }
}

impl RelayModel {
    /// The stream after a piece was sent, and what is recorded of that.
    pub open spec fn sent(self, bytes: Seq<u8>) -> (RelayModel, Seq<EventModel>) {
        match self.finalizer {
            Some(finalizer) => (
                RelayModel {
                    finalizer: Some(FinalizerModel { emitted_to_client: true, ..finalizer }),
                    ..self
                },
                seq![
                    EventModel::AppendResponseBody {
                        request_id: finalizer.context.request_id,
                        body: bytes,
                    },
                ],
            ),
            None => (self, Seq::empty()),
        }
    }

    /// The stream after what was held back was sent, and what is recorded of that.
    pub open spec fn open(self) -> (RelayModel, Seq<EventModel>) {
        match self.initial {
            Some(bytes) => (RelayModel { initial: None, ..self }).sent(bytes),
            None => (self, Seq::empty()),
        }
    }

    /// The stream after an item, and what is recorded of that.
    pub open spec fn on(self, item: ItemModel) -> (RelayModel, Seq<EventModel>) {
        match item {
            ItemModel::Chunk(bytes) => self.sent(bytes),
            ItemModel::Error(message) => (
                RelayModel { finalizer: None, finished: true, ..self },
                match self.finalizer {
                    Some(finalizer) => finalizer.broken(message),
                    None => Seq::empty(),
                },
            ),
            ItemModel::End => (
                RelayModel { finalizer: None, finished: true, ..self },
                match self.finalizer {
                    Some(finalizer) => finalizer.success(),
                    None => Seq::empty(),
                },
            ),
        }
    }

    /// What is recorded when the stream is dropped.
    pub open spec fn on_drop(self) -> Seq<EventModel> {
        match self.finalizer {
            Some(finalizer) if !self.finished => finalizer.abandoned(),
            _ => Seq::empty(),
        }
    }

    /// A stream that has finished has nothing left to record.
    pub open spec fn well_formed(self) -> bool {
        self.finished ==> self.finalizer is None
    }

    /// All that is recorded of a stream that yields `items` and is then dropped.
    pub open spec fn recorded(self, items: Seq<ItemModel>) -> Seq<EventModel>
        decreases items.len(),
    {
        if items.len() == 0 {
            self.on_drop()
        } else {
            let (next, events) = self.on(items[0]);
            events + next.recorded(items.skip(1))
        }
    }
}

/// How many of `events` end a request.
pub open spec fn completions(events: Seq<EventModel>) -> nat
    decreases events.len(),
{
    if events.len() == 0 {
        0
    } else {
        completions(events.drop_last()) + if events.last() is CompleteRequest {
            1nat
        } else {
            0nat
        }
    }
}

/// Completions are counted piece by piece.
pub proof fn lemma_completions_append(left: Seq<EventModel>, right: Seq<EventModel>)
    ensures
        completions(left + right) == completions(left) + completions(right),
    decreases right.len(),
{
    if right.len() == 0 {
        assert(left + right =~= left);
    } else {
        lemma_completions_append(left, right.drop_last());
        assert((left + right).drop_last() =~= left + right.drop_last());
    }
}

proof fn lemma_finish_completes_once(
    finalizer: FinalizerModel,
    attempt_status: Seq<char>,
    request_status: Seq<char>,
    error_message: Option<Seq<char>>,
)
    ensures
        completions(finalizer.finish(attempt_status, request_status, error_message)) == 1,
{
    let events = finalizer.finish(attempt_status, request_status, error_message);
    assert(events.drop_last().drop_last().drop_last() =~= Seq::<EventModel>::empty());
    reveal_with_fuel(completions, 4);
}

/// However a committed stream goes on (more pieces, an error, its end, or a
/// client that goes away) the end of its request is recorded exactly once, and
/// never for a stream that is not recorded.
pub proof fn lemma_stream_is_finished_once(relay: RelayModel, items: Seq<ItemModel>)
    requires
        relay.well_formed(),
    ensures
        completions(relay.recorded(items)) == if relay.finalizer is Some {
            1nat
        } else {
            0nat
        },
    decreases items.len(),
{
    if items.len() == 0 {
        if let Some(finalizer) = relay.finalizer {
            lemma_finish_completes_once(
                finalizer,
                "client_disconnected"@,
                "client_disconnected"@,
                Some("downstream client disconnected before stream completed"@),
            );
        }
    } else {
        let (next, events) = relay.on(items[0]);
        lemma_stream_is_finished_once(next, items.skip(1));
        lemma_completions_append(events, next.recorded(items.skip(1)));
        if let Some(finalizer) = relay.finalizer {
            match items[0] {
                ItemModel::Chunk(_) => {
                    assert(events.drop_last() =~= Seq::<EventModel>::empty());
                    reveal_with_fuel(completions, 2);
                },
                ItemModel::Error(message) => {
                    lemma_finish_completes_once(
                        finalizer,
                        "stream_error"@,
                        "stream_error"@,
                        Some(message),
                    );
                },
                ItemModel::End => {
                    lemma_finish_completes_once(
                        finalizer,
                        "success"@,
                        finalizer.context.request_status_on_success,
                        None,
                    );
                },
            }
        }
    }
}

/// How a stream can end.
pub enum Ending {
    Complete,
    Broken(Seq<char>),
    Dropped,
}

impl Ending {
    /// The items of a stream of `chunks` that ends this way.
    pub open spec fn items(self, chunks: Seq<Seq<u8>>) -> Seq<ItemModel> {
        let pieces = chunks.map_values(|chunk: Seq<u8>| ItemModel::Chunk(chunk));
        match self {
            Ending::Complete => pieces.push(ItemModel::End),
            Ending::Broken(message) => pieces.push(ItemModel::Error(message)),
            Ending::Dropped => pieces,
        }
    }

    /// Why the stream is not complete, if it is not; `dropped` tells of a
    /// client that went away.
    pub open spec fn error(self, dropped: Seq<char>) -> Option<Seq<char>> {
        match self {
            Ending::Complete => None,
            Ending::Broken(message) => Some(message),
            Ending::Dropped => Some(dropped),
        }
    }
}

impl FinalizerModel {
    /// What is recorded when the stream ends this way.
    pub open spec fn ended(self, ending: Ending) -> Seq<EventModel> {
        match ending {
            Ending::Complete => self.success(),
            Ending::Broken(message) => self.broken(message),
            Ending::Dropped => self.abandoned(),
        }
    }
}

/// A stream is recorded piece by piece, in order and with nothing left out, and
/// then as it ended.
pub proof fn lemma_stream_is_recorded_in_order(
    relay: RelayModel,
    finalizer: FinalizerModel,
    chunks: Seq<Seq<u8>>,
    ending: Ending,
)
    requires
        relay.finalizer == Some(finalizer),
        !relay.finished,
    ensures
        relay.recorded(ending.items(chunks)) == appended(finalizer.context.request_id, chunks) + (
        FinalizerModel {
            emitted_to_client: finalizer.emitted_to_client || chunks.len() > 0,
            ..finalizer
        }).ended(ending),
    decreases chunks.len(),
{
    let items = ending.items(chunks);
    let id = finalizer.context.request_id;
    if chunks.len() == 0 {
        assert(appended(id, chunks) + finalizer.ended(ending) =~= finalizer.ended(ending));
        if items.len() > 0 {
            let (next, events) = relay.on(items[0]);
            assert(items.skip(1) =~= Seq::<ItemModel>::empty());
            assert(next.recorded(items.skip(1)) =~= Seq::<EventModel>::empty());
            assert(relay.recorded(items) =~= finalizer.ended(ending));
        }
    } else {
        let (next, events) = relay.on(items[0]);
        let after = FinalizerModel { emitted_to_client: true, ..finalizer };
        lemma_stream_is_recorded_in_order(next, after, chunks.skip(1), ending);
        assert(items.skip(1) =~= ending.items(chunks.skip(1)));
        assert(events + appended(id, chunks.skip(1)) =~= appended(id, chunks));
        assert(relay.recorded(items) =~= appended(id, chunks) + after.ended(ending));
    }
}

proof fn lemma_finish_is_no_body(
    finalizer: FinalizerModel,
    attempt_status: Seq<char>,
    request_status: Seq<char>,
    error_message: Option<Seq<char>>,
)
    ensures
        ({
            let events = finalizer.finish(attempt_status, request_status, error_message);
            let id = finalizer.context.request_id;
            &&& events == seq![
                EventModel::FinishResponseBody {
                    request_id: id,
                    complete: error_message is None,
                    error_message,
                },
            ] + events.skip(1)
            &&& payload_changes(events.skip(1), id) == Seq::<PayloadChangeModel>::empty()
        }),
{
    let events = finalizer.finish(attempt_status, request_status, error_message);
    let rest = events.skip(1);
    assert(events =~= seq![events[0]] + rest);
    reveal_with_fuel(payload_changes, 3);
    assert(rest.drop_last().drop_last() =~= Seq::<EventModel>::empty());
    assert(rest.last() is CompleteRequest);
    assert(rest.drop_last().last() is FinishAttempt);
}

/// The pieces that are sent: what was held back, and what follows it.
pub open spec fn sent_pieces(initial: Option<Seq<u8>>, chunks: Seq<Seq<u8>>) -> Seq<Seq<u8>> {
    match initial {
        Some(bytes) => seq![bytes] + chunks,
        None => chunks,
    }
}

/// What is stored of a committed answer is exactly what was sent to the client,
/// byte for byte, marked as complete if and only if the stream came to its end.
pub proof fn lemma_stored_response_is_what_was_sent(
    relay: RelayModel,
    finalizer: FinalizerModel,
    chunks: Seq<Seq<u8>>,
    ending: Ending,
    request: BodyModel,
)
    requires
        relay.finalizer == Some(finalizer),
        !relay.finished,
    ensures
        ({
            let id = finalizer.context.request_id;
            let (opened, first) = relay.open();
            let events = first + opened.recorded(ending.items(chunks));
            let error = ending.error("downstream client disconnected before stream completed"@);
            changed_all(
                PayloadModel { request_id: id, request, response: no_body() },
                payload_changes(events, id),
            ) == (PayloadModel {
                request_id: id,
                request,
                response: BodyModel {
                    bytes: concat(sent_pieces(relay.initial, chunks)),
                    complete: ending is Complete,
                    error,
                },
            })
        }),
{
    let id = finalizer.context.request_id;
    let (opened, first) = relay.open();
    let error = ending.error("downstream client disconnected before stream completed"@);
    let sent = sent_pieces(relay.initial, chunks);
    let started = opened.finalizer->0;
    lemma_stream_is_recorded_in_order(opened, started, chunks, ending);
    let last = FinalizerModel {
        emitted_to_client: started.emitted_to_client || chunks.len() > 0,
        ..started
    };
    let events = first + opened.recorded(ending.items(chunks));
    match ending {
        Ending::Complete => {
            lemma_finish_is_no_body(last, "success"@, last.context.request_status_on_success, None);
        },
        Ending::Broken(message) => {
            lemma_finish_is_no_body(last, "stream_error"@, "stream_error"@, Some(message));
        },
        Ending::Dropped => {
            lemma_finish_is_no_body(
                last,
                "client_disconnected"@,
                "client_disconnected"@,
                Some("downstream client disconnected before stream completed"@),
            );
        },
    }
    let end = last.ended(ending);
    assert(first + appended(id, chunks) =~= appended(id, sent));
    assert(events =~= appended(id, sent) + seq![
        EventModel::FinishResponseBody {
            request_id: id,
            complete: error is None,
            error_message: error,
        },
    ] + end.skip(1));
    lemma_streamed_changes(id, sent, error is None, error, end.skip(1));
    lemma_streamed_body_is_stored_whole(
        PayloadModel { request_id: id, request, response: no_body() },
        false,
        sent,
        error is None,
        error,
    );
}

impl FinalizedSseStream {
    /// A committed stream, with what was held back of it and how its end is
    /// to be recorded.
    pub fn new(initial: Option<Bytes>, finalizer: Option<StreamFinalizer>) -> (stream: Self)
        ensures
            stream@ == (RelayModel {
                initial: match initial {
                    Some(bytes) => Some(bytes_content(bytes)),
                    None => None,
                },
                finalizer: match finalizer {
                    Some(finalizer) => Some(finalizer@),
                    None => None,
                },
                finished: false,
            }),
            stream@.well_formed(),
    {
        FinalizedSseStream { initial, finalizer, finished: false }
    }

    /// Hands out what was held back, the first time.
    pub fn take_initial(&mut self) -> (sent: (Option<Bytes>, Vec<RecordEvent>))
        ensures
            (final(self)@, event_models(sent.1@)) == old(self)@.open(),
            match sent.0 {
                Some(bytes) => old(self)@.initial == Some(bytes_content(bytes)),
                None => old(self)@.initial is None,
            },
            final(self)@.initial is None,
            old(self)@.well_formed() ==> final(self)@.well_formed(),
    {
        let mut events: Vec<RecordEvent> = Vec::new();
        let ghost before = self@;
        let initial = self.initial.take();
        if let Some(bytes) = &initial {
            if let Some(mut finalizer) = self.finalizer.take() {
                events.push(finalizer.record_emitted_chunk(bytes_slice(bytes)));
                self.finalizer = Some(finalizer);
            }
        }
        assert(event_models(events@) =~= before.open().1);
        (initial, events)
    }

    /// What to record when the upstream's stream yields `item`. What was held
    /// back has to be taken first, so that it goes out before the rest.
    pub fn on_item(&mut self, item: StreamItem<'_>) -> (events: Vec<RecordEvent>)
        requires
            old(self)@.initial is None,
        ensures
            (final(self)@, event_models(events@)) == old(self)@.on(item@),
            final(self)@.initial is None,
            old(self)@.well_formed() ==> final(self)@.well_formed(),
    {
        let ghost before = self@;
        match item {
            StreamItem::Chunk(bytes) => {
                let mut events: Vec<RecordEvent> = Vec::new();
                if let Some(mut finalizer) = self.finalizer.take() {
                    events.push(finalizer.record_emitted_chunk(bytes));
                    self.finalizer = Some(finalizer);
                }
                assert(event_models(events@) =~= before.on(item@).1);
                events
            },
            StreamItem::Error(message) => {
                self.finished = true;
                match self.finalizer.take() {
                    Some(finalizer) => finalizer.finish_stream_error(message),
                    None => {
                        let events: Vec<RecordEvent> = Vec::new();
                        assert(event_models(events@) =~= Seq::<EventModel>::empty());
                        events
                    },
                }
            },
            StreamItem::End => {
                self.finished = true;
                match self.finalizer.take() {
                    Some(finalizer) => finalizer.finish_success(),
                    None => {
                        let events: Vec<RecordEvent> = Vec::new();
                        assert(event_models(events@) =~= Seq::<EventModel>::empty());
                        events
                    },
                }
            },
        }
    }

    /// What to record when the stream is dropped.
    pub fn on_drop(&mut self) -> (events: Vec<RecordEvent>)
        ensures
            event_models(events@) == old(self)@.on_drop(),
            final(self)@ == (RelayModel {
                finalizer: if old(self)@.finished {
                    old(self)@.finalizer
                } else {
                    None
                },
                ..old(self)@
            }),
    {
        if !self.finished {
            if let Some(finalizer) = self.finalizer.take() {
                return finalizer.finish_client_disconnected();
            }
        }
        let events: Vec<RecordEvent> = Vec::new();
        assert(event_models(events@) =~= Seq::<EventModel>::empty());
        events
    }
}

}
