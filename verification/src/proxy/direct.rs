//! Forwarding without a policy: one attempt, passed through as it comes.

use axum::http::HeaderMap;
use vstd::prelude::*;

use super::attempt::{carried_status, client_status, success_status};
use super::errors::{error_body, openai_error, Reply, ReplyModel};
use super::gate::no_token;
use super::headers::{
    announces_events, is_sse_response, lemma_events_are_announced_by_the_content_type, passed,
    response_headers, visible_text, Line,
};
use super::relay::{
    bytes_to_vec, completions, lemma_completions_append, Ending, ItemModel, StreamItem,
};
use super::semantic_token::{is_semantic_event, semantic, EndpointKind};
use super::sse::{
    concat, delimiter, event_of, event_views, events_of, frames, lemma_chunking_does_not_matter,
    SseEventView, SseParser,
};
use super::upstream::{build_url, target_url};
use crate::decimal::{decimal, decimal_text};
use crate::interop::buffers::fits_buffer;
use crate::interop::http::{entry_views, header_lines, values_named, HeaderEntry};
use crate::recording::{
    appended, event_models, lemma_payload_changes_append, lemma_streamed_changes, payload_changes,
    CompleteRequest, CompleteRequestModel, EventModel, FinishAttemptRecord, FinishBody,
    RecordBodyChunk, RecordEvent,
};
use crate::storage::records::{
    changed_all, lemma_streamed_body_is_stored_whole, no_body, streamed_body, BodyModel,
    FinishAttempt, FinishAttemptModel, PayloadChangeModel, PayloadModel,
};
use crate::storage::upstreams::Upstream;
use crate::text::{copy_opt, lower, occurs_at, opt_str, opt_text};

verus! {

/// How many bytes of a stream are kept while looking for its first token.
pub const OBSERVED_SSE_BUFFER_LIMIT: usize = 262144;

/// What the records of a directly forwarded request are about.
#[derive(Clone, Debug)]
pub struct RecordContext {
    pub request_id: String,
    pub attempt_id: Option<String>,
    pub upstream_name: String,
    pub endpoint: EndpointKind,
}

/// What the records are about, as a mathematical value.
pub struct DirectContextModel {
    pub request_id: Seq<char>,
    pub attempt_id: Option<Seq<char>>,
    pub upstream_name: Seq<char>,
    pub endpoint: EndpointKind,
}

impl View for RecordContext {
    type V = DirectContextModel;

    open spec fn view(&self) -> DirectContextModel {
        DirectContextModel {
            request_id: self.request_id@,
            attempt_id: opt_text(self.attempt_id),
            upstream_name: self.upstream_name@,
            endpoint: self.endpoint,
        }
    }
}

/// The view of an optional context.
pub open spec fn context_view(context: Option<RecordContext>) -> Option<DirectContextModel> {
    match context {
        Some(context) => Some(context@),
        None => None,
    }
}

impl DirectContextModel {
    /// What is recorded of the attempt and of the request at their end.
    pub open spec fn ended(
        self,
        update: FinishAttemptModel,
        final_http_status: Option<i64>,
    ) -> Seq<EventModel> {
        let attempt = match self.attempt_id {
            Some(attempt_id) => seq![EventModel::FinishAttempt { attempt_id, update }],
            None => Seq::empty(),
        };
        attempt.push(
            EventModel::CompleteRequest(
                CompleteRequestModel {
                    request_id: self.request_id,
                    status: update.status,
                    upstream_name: Some(self.upstream_name),
                    attempt_count: 1,
                    final_http_status,
                    error_message: update.error_message,
                },
            ),
        )
    }

    /// What is recorded of a request that was answered without an upstream's answer.
    pub open spec fn refused(
        self,
        status: Seq<char>,
        final_http_status: u16,
        error_message: Seq<char>,
        response_body: Seq<u8>,
    ) -> Seq<EventModel> {
        seq![
            EventModel::SaveResponseBody { request_id: self.request_id, body: response_body },
        ] + self.ended(
            FinishAttemptModel {
                status,
                http_status: None,
                response_header_ms: None,
                first_token_ms: None,
                timeout_reason: None,
                error_message: Some(error_message),
                emitted_to_client: false,
            },
            Some(final_http_status as i64),
        )
    }
}

fn push_end(
    events: &mut Vec<RecordEvent>,
    context: RecordContext,
    update: FinishAttempt,
    final_http_status: Option<i64>,
)
    ensures
        event_models(final(events)@) == event_models(old(events)@) + context@.ended(
            update@,
            final_http_status,
        ),
{
    let ghost before = event_models(events@);
    let status = update.status.clone();
    let error_message = copy_opt(&update.error_message);
    if let Some(attempt_id) = context.attempt_id {
        events.push(
            RecordEvent::FinishAttempt(FinishAttemptRecord { attempt_id, update }),
        );
    }
    events.push(
        RecordEvent::CompleteRequest(
            CompleteRequest {
                request_id: context.request_id,
                status,
                upstream_name: Some(context.upstream_name),
                attempt_count: 1,
                final_http_status,
                error_message,
            },
        ),
    );
    assert(event_models(events@) =~= before + context@.ended(update@, final_http_status));
}

impl RecordContext {
    /// What to record of a request that is answered without an upstream's answer.
    pub fn finish_before_response(
        self,
        status: &str,
        final_http_status: u16,
        error_message: &str,
        response_body: &[u8],
    ) -> (events: Vec<RecordEvent>)
        ensures
            event_models(events@) == self@.refused(
                status@,
                final_http_status,
                error_message@,
                response_body@,
            ),
    {
        let mut events: Vec<RecordEvent> = Vec::new();
        events.push(
            RecordEvent::SaveResponseBody(
                RecordBodyChunk {
                    request_id: self.request_id.clone(),
                    body: bytes_to_vec(response_body),
                },
            ),
        );
        assert(event_models(events@) =~= seq![
            EventModel::SaveResponseBody { request_id: self@.request_id, body: response_body@ },
        ]);
        push_end(
            &mut events,
            self,
            FinishAttempt {
                status: status.to_string(),
                http_status: None,
                response_header_ms: None,
                first_token_ms: None,
                timeout_reason: None,
                error_message: Some(error_message.to_string()),
                emitted_to_client: false,
            },
            Some(final_http_status as i64),
        );
        events
    }
}

// ---------------------------------------------------------------------------
// Before the upstream answers
// ---------------------------------------------------------------------------

/// A request that is answered without an upstream's answer.
#[derive(Debug)]
pub struct Refusal {
    pub reply: Reply,
    pub records: Vec<RecordEvent>,
}

/// Such a request as a mathematical value.
pub struct RefusalModel {
    pub reply: ReplyModel,
    pub records: Seq<EventModel>,
}

impl View for Refusal {
    type V = RefusalModel;

    open spec fn view(&self) -> RefusalModel {
        RefusalModel { reply: self.reply@, records: event_models(self.records@) }
    }
}

/// A request refused as a bad gateway: what the client is told and what is recorded.
pub open spec fn bad_gateway(
    context: Option<DirectContextModel>,
    code: Seq<char>,
    message: Seq<char>,
    recorded_message: Seq<char>,
) -> RefusalModel {
    let body = error_body(code, message);
    RefusalModel {
        reply: ReplyModel { status: 502, json: true, body },
        records: match context {
            Some(context) => context.refused(code, 502, recorded_message, body),
            None => Seq::empty(),
        },
    }
}

/// Whether a refused request is recorded does not change what the client is told.
pub proof fn lemma_recording_does_not_change_the_refusal(
    context: Option<DirectContextModel>,
    code: Seq<char>,
    message: Seq<char>,
    recorded_message: Seq<char>,
)
    ensures
        bad_gateway(context, code, message, recorded_message).reply == bad_gateway(
            None,
            code,
            message,
            recorded_message,
        ).reply,
{
}

fn refuse(
    context: Option<RecordContext>,
    code: &str,
    message: &str,
    recorded_message: &str,
) -> (refusal: Refusal)
    ensures
        refusal@ == bad_gateway(context_view(context), code@, message@, recorded_message@),
{
    let reply = openai_error(502, code, message);
    let records: Vec<RecordEvent> = match context {
        Some(context) => context.finish_before_response(
            code,
            502,
            recorded_message,
            reply.body.as_slice(),
        ),
        None => {
            let events: Vec<RecordEvent> = Vec::new();
            assert(event_models(events@) =~= Seq::<EventModel>::empty());
            events
        },
    };
    Refusal { reply, records }
}

/// Where to send a request, or how to answer it where there is no such place.
/// The context comes back where it is needed further on.
pub fn pass(
    upstream: &Upstream,
    path_and_query: Option<&str>,
    record_context: Option<RecordContext>,
) -> (target: Result<(String, Option<RecordContext>), Refusal>)
    ensures
        match target {
            Ok((url, context)) => {
                &&& target_url(upstream.base_url@, opt_str(path_and_query)) == Ok::<
                    Seq<char>,
                    Seq<char>,
                >(url@)
                &&& context == record_context
            },
            Err(refusal) => {
                &&& target_url(upstream.base_url@, opt_str(path_and_query)) is Err
                &&& refusal@ == bad_gateway(
                    context_view(record_context),
                    "invalid_upstream_url"@,
                    "invalid upstream url"@,
                    target_url(upstream.base_url@, opt_str(path_and_query))->Err_0,
                )
            },
        },
{
    match build_url(upstream, path_and_query) {
        Ok(url) => Ok((url, record_context)),
        Err(error) => {
            let message = error.message();
            Err(
                refuse(
                    record_context,
                    "invalid_upstream_url",
                    "invalid upstream url",
                    message.as_str(),
                ),
            )
        },
    }
}

/// How to answer a request whose upstream could not be reached.
pub fn pass_failed(record_context: Option<RecordContext>) -> (refusal: Refusal)
    ensures
        refusal@ == bad_gateway(
            context_view(record_context),
            "upstream_error"@,
            "upstream request failed"@,
            "upstream request failed"@,
        ),
{
    refuse(
        record_context,
        "upstream_error",
        "upstream request failed",
        "upstream request failed",
    )
}

// ---------------------------------------------------------------------------
// Recording the request body on its way
// ---------------------------------------------------------------------------

/// A request body on its way to the upstream, and whether it is recorded.
#[derive(Debug)]
pub struct RecordedRequestStream {
    recorder: Option<String>,
    finished: bool,
}

/// A request body on its way, as a mathematical value: the request that it is
/// recorded for.
pub struct RequestStreamModel {
    pub recorder: Option<Seq<char>>,
    pub finished: bool,
}

impl View for RecordedRequestStream {
    type V = RequestStreamModel;

    closed spec fn view(&self) -> RequestStreamModel {
        RequestStreamModel { recorder: opt_text(self.recorder), finished: self.finished }
    }
}

impl RequestStreamModel {
    /// The body after an item, and what is recorded of that.
    pub open spec fn on(self, item: ItemModel) -> (RequestStreamModel, Seq<EventModel>) {
        match (self.recorder, item) {
            (Some(request_id), ItemModel::Chunk(body)) => (
                self,
                seq![EventModel::AppendRequestBody { request_id, body }],
            ),
            (None, ItemModel::Chunk(_)) => (self, Seq::empty()),
            (Some(request_id), ItemModel::Error(message)) => (
                RequestStreamModel { recorder: None, finished: true },
                seq![
                    EventModel::FinishRequestBody {
                        request_id,
                        complete: false,
                        error_message: Some(message),
                    },
                ],
            ),
            (Some(request_id), ItemModel::End) => (
                RequestStreamModel { recorder: None, finished: true },
                seq![
                    EventModel::FinishRequestBody { request_id, complete: true, error_message: None },
                ],
            ),
            (None, _) => (RequestStreamModel { recorder: None, finished: true }, Seq::empty()),
        }
    }

    /// What is recorded when the body is dropped.
    pub open spec fn on_drop(self) -> Seq<EventModel> {
        match self.recorder {
            Some(request_id) if !self.finished => seq![
                EventModel::FinishRequestBody {
                    request_id,
                    complete: false,
                    error_message: Some("request body stream dropped before completion"@),
                },
            ],
            _ => Seq::empty(),
        }
    }

    /// All that is recorded of a body that yields `items` and is then dropped.
    pub open spec fn recorded(self, items: Seq<ItemModel>) -> Seq<EventModel>
        decreases items.len(),
    {
        if items.len() == 0 {
            self.on_drop()
        } else {
            let (next, events) = self.on(items[0]);
            events + next.recorded(items.skip(1))
        }
    }
}

/// How many of `events` end a request body.
pub open spec fn request_ends(events: Seq<EventModel>) -> nat
    decreases events.len(),
{
    if events.len() == 0 {
        0
    } else {
        request_ends(events.drop_last()) + if events.last() is FinishRequestBody {
            1nat
        } else {
            0nat
        }
    }
}

proof fn lemma_request_ends_append(left: Seq<EventModel>, right: Seq<EventModel>)
    ensures
        request_ends(left + right) == request_ends(left) + request_ends(right),
    decreases right.len(),
{
    if right.len() == 0 {
        assert(left + right =~= left);
    } else {
        lemma_request_ends_append(left, right.drop_last());
        assert((left + right).drop_last() =~= left + right.drop_last());
    }
}

/// However a request body goes on its way, its end is recorded exactly once,
/// and never where it is not recorded.
pub proof fn lemma_request_body_is_finished_once(
    stream: RequestStreamModel,
    items: Seq<ItemModel>,
)
    requires
        stream.finished ==> stream.recorder is None,
    ensures
        request_ends(stream.recorded(items)) == if stream.recorder is Some {
            1nat
        } else {
            0nat
        },
    decreases items.len(),
{
    reveal_with_fuel(request_ends, 2);
    if items.len() == 0 {
        assert(stream.on_drop().len() > 0 ==> stream.on_drop().drop_last() =~= Seq::<
            EventModel,
        >::empty());
    } else {
        let (next, events) = stream.on(items[0]);
        lemma_request_body_is_finished_once(next, items.skip(1));
        lemma_request_ends_append(events, next.recorded(items.skip(1)));
        assert(events.len() > 0 ==> events.drop_last() =~= Seq::<EventModel>::empty());
    }
}

proof fn lemma_request_changes(
    stream: RequestStreamModel,
    request_id: Seq<char>,
    chunks: Seq<Seq<u8>>,
    ending: Ending,
)
    requires
        stream.recorder == Some(request_id),
        !stream.finished,
    ensures
        ({
            let error = ending.error("request body stream dropped before completion"@);
            payload_changes(stream.recorded(ending.items(chunks)), request_id) == streamed_body(
                true,
                chunks,
                error is None,
                error,
            )
        }),
    decreases chunks.len(),
{
    let items = ending.items(chunks);
    let error = ending.error("request body stream dropped before completion"@);
    reveal_with_fuel(payload_changes, 2);
    if chunks.len() == 0 {
        let end = seq![
            EventModel::FinishRequestBody {
                request_id,
                complete: error is None,
                error_message: error,
            },
        ];
        if items.len() > 0 {
            let (next, events) = stream.on(items[0]);
            assert(items.skip(1) =~= Seq::<ItemModel>::empty());
            assert(next.recorded(items.skip(1)) =~= Seq::<EventModel>::empty());
        }
        assert(stream.recorded(items) =~= end);
        assert(end.drop_last() =~= Seq::<EventModel>::empty());
        assert(payload_changes(end, request_id) =~= streamed_body(
            true,
            chunks,
            error is None,
            error,
        ));
    } else {
        let (next, events) = stream.on(items[0]);
        let first = seq![EventModel::AppendRequestBody { request_id, body: chunks[0] }];
        assert(events =~= first);
        assert(next == stream);
        assert(items.skip(1) =~= ending.items(chunks.skip(1)));
        lemma_request_changes(stream, request_id, chunks.skip(1), ending);
        lemma_payload_changes_append(first, stream.recorded(items.skip(1)), request_id);
        assert(first.drop_last() =~= Seq::<EventModel>::empty());
        assert(payload_changes(first, request_id) =~= seq![
            PayloadChangeModel::AppendRequest(chunks[0]),
        ]);
        assert(payload_changes(stream.recorded(items), request_id) =~= streamed_body(
            true,
            chunks,
            error is None,
            error,
        ));
    }
}

/// What is stored of a request body is exactly what was sent to the upstream,
/// byte for byte, marked as complete if and only if the body came to its end.
pub proof fn lemma_stored_request_is_what_was_sent(
    stream: RequestStreamModel,
    request_id: Seq<char>,
    chunks: Seq<Seq<u8>>,
    ending: Ending,
    response: BodyModel,
)
    requires
        stream.recorder == Some(request_id),
        !stream.finished,
    ensures
        changed_all(
            PayloadModel { request_id, request: no_body(), response },
            payload_changes(stream.recorded(ending.items(chunks)), request_id),
        ) == (PayloadModel {
            request_id,
            request: BodyModel {
                bytes: concat(chunks),
                complete: ending is Complete,
                error: ending.error("request body stream dropped before completion"@),
            },
            response,
        }),
{
    let error = ending.error("request body stream dropped before completion"@);
    lemma_request_changes(stream, request_id, chunks, ending);
    lemma_streamed_body_is_stored_whole(
        PayloadModel { request_id, request: no_body(), response },
        true,
        chunks,
        error is None,
        error,
    );
}

impl RecordedRequestStream {
    /// A request body, recorded where there is a context.
    pub fn new(record_context: &Option<RecordContext>) -> (stream: Self)
        ensures
            stream@ == (RequestStreamModel {
                recorder: match context_view(*record_context) {
                    Some(context) => Some(context.request_id),
                    None => None,
                },
                finished: false,
            }),
    {
        RecordedRequestStream {
            recorder: match record_context {
                Some(context) => Some(context.request_id.clone()),
                None => None,
            },
            finished: false,
        }
    }

    /// What to record when the client's body yields `item`.
    pub fn on_item(&mut self, item: StreamItem<'_>) -> (events: Vec<RecordEvent>)
        ensures
            (final(self)@, event_models(events@)) == old(self)@.on(item@),
    {
        let ghost before = self@;
        let mut events: Vec<RecordEvent> = Vec::new();
        match item {
            StreamItem::Chunk(bytes) => {
                if let Some(request_id) = &self.recorder {
                    events.push(
                        RecordEvent::AppendRequestBody(
                            RecordBodyChunk {
                                request_id: request_id.clone(),
                                body: bytes_to_vec(bytes),
                            },
                        ),
                    );
                }
            },
            StreamItem::Error(message) => {
                self.finished = true;
                if let Some(request_id) = self.recorder.take() {
                    events.push(
                        RecordEvent::FinishRequestBody(
                            FinishBody {
                                request_id,
                                complete: false,
                                error_message: Some(message.to_string()),
                            },
                        ),
                    );
                }
            },
            StreamItem::End => {
                self.finished = true;
                if let Some(request_id) = self.recorder.take() {
                    events.push(
                        RecordEvent::FinishRequestBody(
                            FinishBody { request_id, complete: true, error_message: None },
                        ),
                    );
                }
            },
        }
        assert(event_models(events@) =~= before.on(item@).1);
        events
    }

    /// What to record when the body is dropped.
    pub fn on_drop(&mut self) -> (events: Vec<RecordEvent>)
        ensures
            event_models(events@) == old(self)@.on_drop(),
            old(self)@.finished || final(self)@.recorder is None,
            final(self)@.finished == old(self)@.finished,
            old(self)@.finished ==> final(self)@ == old(self)@,
    {
        let ghost before = self@;
        let mut events: Vec<RecordEvent> = Vec::new();
        if !self.finished {
            if let Some(request_id) = self.recorder.take() {
                events.push(
                    RecordEvent::FinishRequestBody(
                        FinishBody {
                            request_id,
                            complete: false,
                            error_message: Some(
                                "request body stream dropped before completion".to_string(),
                            ),
                        },
                    ),
                );
            }
        }
        assert(event_models(events@) =~= before.on_drop());
        events
    }
}

// ---------------------------------------------------------------------------
// Recording the response on its way
// ---------------------------------------------------------------------------

/// Records a response on its way to the client, and when its first token came.
#[derive(Debug)]
pub struct DirectFinalizer {
    context: RecordContext,
    http_status: i64,
    response_header_ms: i64,
    first_token_ms: Option<i64>,
    observe_sse: bool,
    parser: SseParser,
    emitted_to_client: bool,
}

/// The recorder of a response as a mathematical value.
pub struct DirectModel {
    pub context: DirectContextModel,
    pub http_status: i64,
    pub response_header_ms: i64,
    pub first_token_ms: Option<i64>,
    pub observe_sse: bool,
    pub pending: Seq<u8>,
    pub emitted_to_client: bool,
}

impl View for DirectFinalizer {
    type V = DirectModel;

    closed spec fn view(&self) -> DirectModel {
        DirectModel {
            context: self.context@,
            http_status: self.http_status,
            response_header_ms: self.response_header_ms,
            first_token_ms: self.first_token_ms,
            observe_sse: self.observe_sse,
            pending: self.parser@,
            emitted_to_client: self.emitted_to_client,
        }
    }
}

/// Whether one of `events` is a token.
pub open spec fn any_token(endpoint: EndpointKind, events: Seq<SseEventView>) -> bool {
    exists|i: int| 0 <= i < events.len() && semantic(endpoint, #[trigger] events[i])
}

/// What a response that came through whole is recorded as.
pub open spec fn direct_status(http_status: i64) -> Seq<char> {
    if 200 <= http_status < 400 {
        "success"@
    } else {
        "upstream_http_"@ + decimal(http_status as int)
    }
}

impl DirectModel {
    /// Whether the first token is still looked for.
    pub open spec fn looking(self) -> bool {
        self.observe_sse && self.first_token_ms is None
    }

    /// While a token is looked for, no more is kept than may be.
    pub open spec fn within_limit(self) -> bool {
        self.looking() ==> self.pending.len() <= OBSERVED_SSE_BUFFER_LIMIT
    }

    /// Whether a piece fits into memory besides what may be kept, which matters
    /// while a token is looked for.
    pub open spec fn room_for(self, bytes: Seq<u8>) -> bool {
        self.looking() ==> fits_buffer(OBSERVED_SSE_BUFFER_LIMIT as nat + bytes.len())
    }

    /// The recorder after a piece of the response, `elapsed_ms` after the
    /// request was taken up.
    pub open spec fn observed(self, bytes: Seq<u8>, elapsed_ms: i64) -> DirectModel {
        let seen = DirectModel { emitted_to_client: true, ..self };
        if !self.looking() {
            seen
        } else if any_token(self.context.endpoint, events_of(self.pending + bytes)) {
            DirectModel {
                first_token_ms: Some(elapsed_ms),
                observe_sse: false,
                pending: frames(self.pending + bytes).1,
                ..seen
            }
        } else if frames(self.pending + bytes).1.len() > OBSERVED_SSE_BUFFER_LIMIT {
            DirectModel { observe_sse: false, pending: Seq::empty(), ..seen }
        } else {
            DirectModel { pending: frames(self.pending + bytes).1, ..seen }
        }
    }

    /// What is recorded at the end of the response.
    pub open spec fn finish(
        self,
        status: Seq<char>,
        error_message: Option<Seq<char>>,
    ) -> Seq<EventModel> {
        seq![
            EventModel::FinishResponseBody {
                request_id: self.context.request_id,
                complete: error_message is None,
                error_message,
            },
        ] + self.context.ended(
            FinishAttemptModel {
                status,
                http_status: Some(self.http_status),
                response_header_ms: Some(self.response_header_ms),
                first_token_ms: self.first_token_ms,
                timeout_reason: None,
                error_message,
                emitted_to_client: self.emitted_to_client,
            },
            Some(self.http_status),
        )
    }

    /// What is recorded when the response came to its end.
    pub open spec fn success(self) -> Seq<EventModel> {
        self.finish(direct_status(self.http_status), None)
    }

    /// What is recorded when the response broke off.
    pub open spec fn broken(self, message: Seq<char>) -> Seq<EventModel> {
        self.finish("stream_error"@, Some(message))
    }

    /// What is recorded when the client went away.
    pub open spec fn abandoned(self) -> Seq<EventModel> {
        self.finish(
            "client_disconnected"@,
            Some("downstream client disconnected before response completed"@),
        )
    }
}

/// A response that came through whole counts as a success if its status is from
/// 200 to 399, and otherwise as that status.
pub proof fn lemma_whole_responses_count_by_their_status(http_status: i64)
    ensures
        200 <= http_status <= 399 ==> direct_status(http_status) == "success"@,
        http_status < 200 || http_status > 399 ==> direct_status(http_status) == "upstream_http_"@
            + decimal(http_status as int),
{
}

/// The three ends that a response can come to, and what is recorded then: the end
/// of the body, of the attempt if that is on record, and of the request.
pub proof fn lemma_how_direct_responses_end(model: DirectModel, message: Seq<char>)
    ensures
        ({
            let ends = |events: Seq<EventModel>, status: Seq<char>, error: Option<Seq<char>>|
                {
                    let last = events.len() - 1;
                    &&& events.len() == if model.context.attempt_id is Some {
                        3nat
                    } else {
                        2nat
                    }
                    &&& events[0] == (EventModel::FinishResponseBody {
                        request_id: model.context.request_id,
                        complete: error is None,
                        error_message: error,
                    })
                    &&& model.context.attempt_id matches Some(attempt) ==> (events[1] matches
                        EventModel::FinishAttempt { attempt_id, update } && {
                        &&& attempt_id == attempt
                        &&& update.status == status
                        &&& update.http_status == Some(model.http_status)
                        &&& update.response_header_ms == Some(model.response_header_ms)
                        &&& update.first_token_ms == model.first_token_ms
                        &&& update.timeout_reason is None
                        &&& update.error_message == error
                        &&& update.emitted_to_client == model.emitted_to_client
                    })
                    &&& events[last] matches EventModel::CompleteRequest(end) && {
                        &&& end.request_id == model.context.request_id
                        &&& end.status == status
                        &&& end.upstream_name == Some(model.context.upstream_name)
                        &&& end.attempt_count == 1
                        &&& end.final_http_status == Some(model.http_status)
                        &&& end.error_message == error
                    }
                };
            &&& ends(model.success(), direct_status(model.http_status), None)
            &&& ends(model.broken(message), "stream_error"@, Some(message))
            &&& ends(
                model.abandoned(),
                "client_disconnected"@,
                Some("downstream client disconnected before response completed"@),
            )
        }),
{
}

/// A request that is refused before an upstream answers is told of as a bad
/// gateway. What the client is told is recorded as its response, and the attempt,
/// if it is on record, and the request end with the reason.
pub proof fn lemma_refusals_are_recorded(
    context: DirectContextModel,
    code: Seq<char>,
    message: Seq<char>,
    reason: Seq<char>,
)
    ensures
        ({
            let refusal = bad_gateway(Some(context), code, message, reason);
            let last = refusal.records.len() - 1;
            &&& refusal.reply.status == 502 && refusal.reply.json
            &&& refusal.reply.body == error_body(code, message)
            &&& bad_gateway(None, code, message, reason).records.len() == 0
            &&& refusal.records.len() == if context.attempt_id is Some {
                3nat
            } else {
                2nat
            }
            &&& refusal.records[0] == (EventModel::SaveResponseBody {
                request_id: context.request_id,
                body: error_body(code, message),
            })
            &&& context.attempt_id matches Some(attempt) ==> (refusal.records[1] matches
                EventModel::FinishAttempt { attempt_id, update } && {
                &&& attempt_id == attempt
                &&& update.status == code
                &&& update.http_status is None
                &&& update.response_header_ms is None
                &&& update.first_token_ms is None
                &&& update.timeout_reason is None
                &&& update.error_message == Some(reason)
                &&& !update.emitted_to_client
            })
            &&& refusal.records[last] matches EventModel::CompleteRequest(end) && {
                &&& end.request_id == context.request_id
                &&& end.status == code
                &&& end.upstream_name == Some(context.upstream_name)
                &&& end.attempt_count == 1
                &&& end.final_http_status == Some(502i64)
                &&& end.error_message == Some(reason)
            }
        }),
{
}

/// What a request body on its way records: each piece as it is, and its end, with
/// whether it came to its end and why not.
pub proof fn lemma_what_a_request_body_records(
    stream: RequestStreamModel,
    id: Seq<char>,
    body: Seq<u8>,
    message: Seq<char>,
)
    requires
        stream.recorder == Some(id),
    ensures
        stream.on(ItemModel::Chunk(body)) == (
            stream,
            seq![EventModel::AppendRequestBody { request_id: id, body }],
        ),
        stream.on(ItemModel::End).1 == seq![
            EventModel::FinishRequestBody { request_id: id, complete: true, error_message: None },
        ],
        stream.on(ItemModel::Error(message)).1 == seq![
            EventModel::FinishRequestBody {
                request_id: id,
                complete: false,
                error_message: Some(message),
            },
        ],
        !stream.finished ==> stream.on_drop() == seq![
            EventModel::FinishRequestBody {
                request_id: id,
                complete: false,
                error_message: Some("request body stream dropped before completion"@),
            },
        ],
        stream.on(ItemModel::End).0.recorder is None && stream.on(ItemModel::End).0.finished,
        stream.on(ItemModel::Error(message)).0.recorder is None,
        stream.on(ItemModel::Error(message)).0.finished,
{
}

/// What a response on its way records at its end, and that it records nothing
/// where it is not on record or has ended.
pub proof fn lemma_what_a_direct_response_records(
    stream: TransparentModel,
    bytes: Seq<u8>,
    message: Seq<char>,
    elapsed_ms: i64,
)
    ensures
        stream.finalizer matches Some(model) ==> {
            &&& stream.on(ItemModel::End, elapsed_ms).1 == model.success()
            &&& stream.on(ItemModel::Error(message), elapsed_ms).1 == model.broken(message)
            &&& !stream.finished ==> stream.on_drop() == model.abandoned()
        },
        stream.finalizer is None ==> stream.on(ItemModel::Chunk(bytes), elapsed_ms).1.len() == 0
            && stream.on(ItemModel::End, elapsed_ms).1.len() == 0 && stream.on(
            ItemModel::Error(message),
            elapsed_ms,
        ).1.len() == 0 && stream.on_drop().len() == 0,
        stream.on(ItemModel::End, elapsed_ms).0.finished,
        stream.on(ItemModel::End, elapsed_ms).0.finalizer is None,
        stream.on(ItemModel::Error(message), elapsed_ms).0.finished,
        stream.on(ItemModel::Error(message), elapsed_ms).0.finalizer is None,
        stream.finished ==> stream.on_drop().len() == 0,
{
}

/// A token is looked for until it has come, or until more than 262144 bytes have
/// come of one event: then no more is looked at.
pub proof fn lemma_a_long_event_ends_the_search(
    model: DirectModel,
    bytes: Seq<u8>,
    elapsed_ms: i64,
)
    requires
        model.observe_sse,
        model.first_token_ms is None,
    ensures
        ({
            let next = model.observed(bytes, elapsed_ms);
            let rest = frames(model.pending + bytes).1;
            &&& next.first_token_ms is None && rest.len() <= 262144 ==> next.observe_sse
                && next.pending == rest
            &&& next.first_token_ms is None && rest.len() > 262144 ==> !next.observe_sse
            &&& next.context == model.context && next.http_status == model.http_status
            &&& next.response_header_ms == model.response_header_ms
        }),
{
}

/// A token is among events exactly if one of them is a token.
pub proof fn lemma_any_event_may_be_the_token(
    endpoint: EndpointKind,
    events: Seq<SseEventView>,
    at: int,
)
    ensures
        0 <= at < events.len() && semantic(endpoint, events[at]) ==> any_token(endpoint, events),
        (forall|i: int| 0 <= i < events.len() ==> !semantic(endpoint, #[trigger] events[i]))
            ==> !any_token(endpoint, events),
{
}

/// The time of the first token is recorded once and never changed again.
pub proof fn lemma_first_token_time_is_kept(
    model: DirectModel,
    bytes: Seq<u8>,
    elapsed_ms: i64,
)
    requires
        model.first_token_ms is Some,
    ensures
        model.observed(bytes, elapsed_ms).first_token_ms == model.first_token_ms,
{
}

/// A time is recorded exactly when a token is among the events that are whole now.
pub proof fn lemma_first_token_time_needs_a_token(
    model: DirectModel,
    bytes: Seq<u8>,
    elapsed_ms: i64,
)
    requires
        model.first_token_ms is None,
    ensures
        model.observed(bytes, elapsed_ms).first_token_ms is Some <==> model.observe_sse
            && any_token(model.context.endpoint, events_of(model.pending + bytes)),
        model.observed(bytes, elapsed_ms).first_token_ms is Some ==> model.observed(
            bytes,
            elapsed_ms,
        ).first_token_ms == Some(elapsed_ms),
{
}

impl DirectFinalizer {
    /// A recorder for the response with `http_status`.
    pub fn new(
        context: RecordContext,
        http_status: u16,
        response_header_ms: i64,
        observe_sse: bool,
    ) -> (finalizer: Self)
        ensures
            finalizer@ == (DirectModel {
                context: context@,
                http_status: http_status as i64,
                response_header_ms,
                first_token_ms: None,
                observe_sse,
                pending: Seq::empty(),
                emitted_to_client: false,
            }),
            finalizer@.within_limit(),
    {
        DirectFinalizer {
            context,
            http_status: http_status as i64,
            response_header_ms,
            first_token_ms: None,
            observe_sse,
            parser: SseParser::new(),
            emitted_to_client: false,
        }
    }

    /// Records a piece of the response, and looks for the first token in it.
    pub fn observe_chunk(&mut self, bytes: &[u8], elapsed_ms: i64) -> (event: RecordEvent)
        requires
            old(self)@.within_limit(),
            old(self)@.room_for(bytes@),
        ensures
            event@ == (EventModel::AppendResponseBody {
                request_id: old(self)@.context.request_id,
                body: bytes@,
            }),
            final(self)@ == old(self)@.observed(bytes@, elapsed_ms),
            final(self)@.first_token_ms == if old(self)@.first_token_ms is Some {
                old(self)@.first_token_ms
            } else if old(self)@.observe_sse && any_token(
                old(self)@.context.endpoint,
                events_of(old(self)@.pending + bytes@),
            ) {
                Some(elapsed_ms)
            } else {
                None
            },
            final(self)@.within_limit(),
    {
        let ghost before = self@;
        self.emitted_to_client = true;
        let event = RecordEvent::AppendResponseBody(
            RecordBodyChunk {
                request_id: self.context.request_id.clone(),
                body: bytes_to_vec(bytes),
            },
        );
        if !self.observe_sse || self.first_token_ms.is_some() {
            return event;
        }
        let events = self.parser.push(bytes);
        let ghost seen = events_of(before.pending + bytes@);
        let endpoint = self.context.endpoint;
        let mut found = false;
        let mut i: usize = 0;
        while i < events.len()
            invariant
                i <= events@.len(),
                event_views(events@) == seen,
                endpoint == before.context.endpoint,
                found == exists|k: int| 0 <= k < i && semantic(endpoint, #[trigger] seen[k]),
            decreases events@.len() - i,
        {
            assert(seen[i as int] == events@[i as int]@);
            if is_semantic_event(endpoint, &events[i]) {
                found = true;
            }
            i += 1;
        }
        assert(found == any_token(endpoint, seen)) by {
            assert(seen.len() == events@.len());
        }
        if found {
            self.first_token_ms = Some(elapsed_ms);
            self.observe_sse = false;
            return event;
        }
        if self.parser.buffered_len() > OBSERVED_SSE_BUFFER_LIMIT {
            let dropped = self.parser.take_buffer();
            self.observe_sse = false;
        }
        event
    }

    /// What to record when the response came to its end.
    pub fn finish_success(self) -> (events: Vec<RecordEvent>)
        ensures
            event_models(events@) == self@.success(),
    {
        let status = if 200 <= self.http_status && self.http_status < 400 {
            "success".to_string()
        } else {
            let mut text = "upstream_http_".to_string();
            let number = decimal_text(self.http_status);
            text.append(number.as_str());
            text
        };
        self.finish(status.as_str(), None)
    }

    /// What to record when the response broke off.
    pub fn finish_stream_error(self, error_message: &str) -> (events: Vec<RecordEvent>)
        ensures
            event_models(events@) == self@.broken(error_message@),
    {
        self.finish("stream_error", Some(error_message.to_string()))
    }

    /// What to record when the client went away.
    pub fn finish_client_disconnected(self) -> (events: Vec<RecordEvent>)
        ensures
            event_models(events@) == self@.abandoned(),
    {
        self.finish(
            "client_disconnected",
            Some("downstream client disconnected before response completed".to_string()),
        )
    }

    fn finish(self, status: &str, error_message: Option<String>) -> (events: Vec<RecordEvent>)
        ensures
            event_models(events@) == self@.finish(status@, opt_text(error_message)),
    {
        let mut events: Vec<RecordEvent> = Vec::new();
        events.push(
            RecordEvent::FinishResponseBody(
                FinishBody {
                    request_id: self.context.request_id.clone(),
                    complete: error_message.is_none(),
                    error_message: copy_opt(&error_message),
                },
            ),
        );
        assert(event_models(events@) =~= seq![
            EventModel::FinishResponseBody {
                request_id: self@.context.request_id,
                complete: opt_text(error_message) is None,
                error_message: opt_text(error_message),
            },
        ]);
        push_end(
            &mut events,
            self.context,
            FinishAttempt {
                status: status.to_string(),
                http_status: Some(self.http_status),
                response_header_ms: Some(self.response_header_ms),
                first_token_ms: self.first_token_ms,
                timeout_reason: None,
                error_message: copy_opt(&error_message),
                emitted_to_client: self.emitted_to_client,
            },
            Some(self.http_status),
        );
        events
    }
}

/// A response on its way to the client, and whether it is recorded.
#[derive(Debug)]
pub struct RecordedTransparentStream {
    finalizer: Option<DirectFinalizer>,
    finished: bool,
}

/// A response on its way, as a mathematical value.
pub struct TransparentModel {
    pub finalizer: Option<DirectModel>,
    pub finished: bool,
}

impl View for RecordedTransparentStream {
    type V = TransparentModel;

    closed spec fn view(&self) -> TransparentModel {
        TransparentModel {
            finalizer: match self.finalizer {
                Some(finalizer) => Some(finalizer@),
                None => None,
            },
            finished: self.finished,
        }
    }
}

impl TransparentModel {
    /// The response after an item that came `elapsed_ms` after the request was
    /// taken up, and what is recorded of that.
    pub open spec fn on(
        self,
        item: ItemModel,
        elapsed_ms: i64,
    ) -> (TransparentModel, Seq<EventModel>) {
        match (self.finalizer, item) {
            (Some(finalizer), ItemModel::Chunk(body)) => (
                TransparentModel {
                    finalizer: Some(finalizer.observed(body, elapsed_ms)),
                    ..self
                },
                seq![
                    EventModel::AppendResponseBody {
                        request_id: finalizer.context.request_id,
                        body,
                    },
                ],
            ),
            (None, ItemModel::Chunk(_)) => (self, Seq::empty()),
            (Some(finalizer), ItemModel::Error(message)) => (
                TransparentModel { finalizer: None, finished: true },
                finalizer.broken(message),
            ),
            (Some(finalizer), ItemModel::End) => (
                TransparentModel { finalizer: None, finished: true },
                finalizer.success(),
            ),
            (None, _) => (TransparentModel { finalizer: None, finished: true }, Seq::empty()),
        }
    }

    /// What is recorded when the response is dropped.
    pub open spec fn on_drop(self) -> Seq<EventModel> {
        match self.finalizer {
            Some(finalizer) if !self.finished => finalizer.abandoned(),
            _ => Seq::empty(),
        }
    }

    /// A response that has finished has nothing left to record, and no more is
    /// kept of one than may be.
    pub open spec fn well_formed(self) -> bool {
        &&& self.finished ==> self.finalizer is None
        &&& self.finalizer matches Some(finalizer) ==> finalizer.within_limit()
    }

    /// All that is recorded of a response that yields `items`, each at its time,
    /// and is then dropped.
    pub open spec fn recorded(self, items: Seq<(ItemModel, i64)>) -> Seq<EventModel>
        decreases items.len(),
    {
        if items.len() == 0 {
            self.on_drop()
        } else {
            let (next, events) = self.on(items[0].0, items[0].1);
            events + next.recorded(items.skip(1))
        }
    }
}

proof fn lemma_direct_finish_completes_once(
    model: DirectModel,
    status: Seq<char>,
    error_message: Option<Seq<char>>,
)
    ensures
        completions(model.finish(status, error_message)) == 1,
{
    let events = model.finish(status, error_message);
    reveal_with_fuel(completions, 4);
    let two = events.drop_last();
    assert(events.last() is CompleteRequest);
    if model.context.attempt_id is Some {
        assert(two.len() == 2);
        assert(two.last() is FinishAttempt);
        assert(two.drop_last().len() == 1);
        assert(two.drop_last().last() is FinishResponseBody);
        assert(two.drop_last().drop_last().len() == 0);
    } else {
        assert(two.len() == 1);
        assert(two.last() is FinishResponseBody);
        assert(two.drop_last().len() == 0);
    }
}

/// Each piece of a recorded response is recorded, once and as it is, whatever the
/// recorder has seen before. The time of the first token is set by the piece that
/// completes one while it is looked for, and never changes again.
pub proof fn lemma_each_piece_is_recorded_and_watched(
    stream: TransparentModel,
    model: DirectModel,
    bytes: Seq<u8>,
    elapsed_ms: i64,
)
    requires
        stream.finalizer == Some(model),
    ensures
        ({
            let (next, events) = stream.on(ItemModel::Chunk(bytes), elapsed_ms);
            let found = any_token(model.context.endpoint, events_of(model.pending + bytes));
            &&& events == seq![
                EventModel::AppendResponseBody { request_id: model.context.request_id, body: bytes },
            ]
            &&& next.finalizer is Some
            &&& next.finalizer->0.context == model.context
            &&& next.finalizer->0.emitted_to_client
            &&& next.finalizer->0.first_token_ms == if model.first_token_ms is Some {
                model.first_token_ms
            } else if model.observe_sse && found {
                Some(elapsed_ms)
            } else {
                None
            }
        }),
{
}

/// However a response goes on its way, the end of its request is recorded
/// exactly once, and never where it is not recorded.
pub proof fn lemma_direct_response_is_finished_once(
    stream: TransparentModel,
    items: Seq<(ItemModel, i64)>,
)
    requires
        stream.finished ==> stream.finalizer is None,
    ensures
        completions(stream.recorded(items)) == if stream.finalizer is Some {
            1nat
        } else {
            0nat
        },
    decreases items.len(),
{
    if items.len() == 0 {
        if let Some(finalizer) = stream.finalizer {
            lemma_direct_finish_completes_once(
                finalizer,
                "client_disconnected"@,
                Some("downstream client disconnected before response completed"@),
            );
        }
    } else {
        let (next, events) = stream.on(items[0].0, items[0].1);
        lemma_direct_response_is_finished_once(next, items.skip(1));
        lemma_completions_append(events, next.recorded(items.skip(1)));
        if let Some(finalizer) = stream.finalizer {
            match items[0].0 {
                ItemModel::Chunk(_) => {
                    assert(events.drop_last() =~= Seq::<EventModel>::empty());
                    reveal_with_fuel(completions, 2);
                },
                ItemModel::Error(message) => {
                    lemma_direct_finish_completes_once(finalizer, "stream_error"@, Some(message));
                },
                ItemModel::End => {
                    lemma_direct_finish_completes_once(
                        finalizer,
                        direct_status(finalizer.http_status),
                        None,
                    );
                },
            }
        }
    }
}

/// The recorder after each of `pieces`, which came at their times.
pub open spec fn observed_all(model: DirectModel, pieces: Seq<(Seq<u8>, i64)>) -> DirectModel
    decreases pieces.len(),
{
    if pieces.len() == 0 {
        model
    } else {
        observed_all(model.observed(pieces[0].0, pieces[0].1), pieces.skip(1))
    }
}

proof fn lemma_observed_append(
    model: DirectModel,
    pieces: Seq<(Seq<u8>, i64)>,
    piece: (Seq<u8>, i64),
)
    ensures
        observed_all(model, pieces.push(piece)) == observed_all(model, pieces).observed(
            piece.0,
            piece.1,
        ),
    decreases pieces.len(),
{
    let all = pieces.push(piece);
    if pieces.len() == 0 {
        assert(all.skip(1) =~= Seq::<(Seq<u8>, i64)>::empty());
        reveal_with_fuel(observed_all, 2);
    } else {
        assert(all.skip(1) =~= pieces.skip(1).push(piece));
        lemma_observed_append(model.observed(pieces[0].0, pieces[0].1), pieces.skip(1), piece);
    }
}

proof fn lemma_tokens_are_found(endpoint: EndpointKind, buffer: Seq<u8>)
    ensures
        any_token(endpoint, events_of(buffer)) <==> !no_token(endpoint, frames(buffer).0),
{
    let parts = frames(buffer).0;
    let events = events_of(buffer);
    if any_token(endpoint, events) {
        let i = choose|i: int| 0 <= i < events.len() && semantic(endpoint, #[trigger] events[i]);
        assert(events[i] == event_of(parts[i]));
    }
    if !no_token(endpoint, parts) {
        let i = choose|i: int|
            0 <= i < parts.len() && semantic(endpoint, event_of(#[trigger] parts[i]));
        assert(semantic(endpoint, events[i]));
    }
}

proof fn lemma_token_in_two_chunks(endpoint: EndpointKind, left: Seq<u8>, right: Seq<u8>)
    requires
        no_token(endpoint, frames(left).0),
    ensures
        no_token(endpoint, frames(left + right).0) <==> no_token(
            endpoint,
            frames(frames(left).1 + right).0,
        ),
{
    lemma_chunking_does_not_matter(left, right);
    let earlier = frames(left).0;
    let later = frames(frames(left).1 + right).0;
    let all = frames(left + right).0;
    assert(all == earlier + later);
    if no_token(endpoint, all) {
        assert forall|i: int| 0 <= i < later.len() implies !semantic(
            endpoint,
            event_of(#[trigger] later[i]),
        ) by {
            assert(all[earlier.len() + i] == later[i]);
        }
    }
    if no_token(endpoint, later) {
        assert forall|i: int| 0 <= i < all.len() implies !semantic(
            endpoint,
            event_of(#[trigger] all[i]),
        ) by {
            if i < earlier.len() {
                assert(all[i] == earlier[i]);
            } else {
                assert(all[i] == later[i - earlier.len()]);
            }
        }
    }
}

/// The time that is recorded is that of the piece which brought the first token,
/// however the response was cut into pieces: as long as a token is looked for
/// none has come, and the next piece sets the time exactly if a token is among
/// all that came with it.
pub proof fn lemma_first_token_time_is_that_of_the_token(
    model: DirectModel,
    pieces: Seq<(Seq<u8>, i64)>,
    bytes: Seq<u8>,
    elapsed_ms: i64,
)
    requires
        model.looking(),
        model.pending == Seq::<u8>::empty(),
        observed_all(model, pieces).looking(),
    ensures
        ({
            let endpoint = model.context.endpoint;
            let so_far = concat(piece_bytes(pieces));
            let next = observed_all(model, pieces).observed(bytes, elapsed_ms);
            &&& observed_all(model, pieces).pending == frames(so_far).1
            &&& observed_all(model, pieces).context == model.context
            &&& no_token(endpoint, frames(so_far).0)
            &&& next.first_token_ms == if no_token(endpoint, frames(so_far + bytes).0) {
                None
            } else {
                Some(elapsed_ms)
            }
        }),
    decreases pieces.len(),
{
    let endpoint = model.context.endpoint;
    let so_far = concat(piece_bytes(pieces));
    if pieces.len() == 0 {
        assert(delimiter(so_far) is None);
        assert(frames(so_far).1 =~= model.pending);
    } else {
        let before = pieces.drop_last();
        let (last, at) = pieces.last();
        assert(pieces =~= before.push(pieces.last()));
        lemma_observed_append(model, before, pieces.last());
        let earlier = concat(piece_bytes(before));
        assert(observed_all(model, before).looking());
        lemma_first_token_time_is_that_of_the_token(model, before, last, at);
        assert(piece_bytes(pieces).drop_last() =~= piece_bytes(before));
        assert(piece_bytes(pieces).last() == last);
        assert(so_far == earlier + last);
        lemma_chunking_does_not_matter(earlier, last);
    }
    lemma_tokens_are_found(endpoint, frames(so_far).1 + bytes);
    lemma_token_in_two_chunks(endpoint, so_far, bytes);
}

/// The bytes of `pieces`.
pub open spec fn piece_bytes(pieces: Seq<(Seq<u8>, i64)>) -> Seq<Seq<u8>> {
    pieces.map_values(|piece: (Seq<u8>, i64)| piece.0)
}

/// The items of a response of `pieces` that ends this way at the time `at`.
pub open spec fn timed_items(
    pieces: Seq<(Seq<u8>, i64)>,
    ending: Ending,
    at: i64,
) -> Seq<(ItemModel, i64)> {
    let items = pieces.map_values(|piece: (Seq<u8>, i64)| (ItemModel::Chunk(piece.0), piece.1));
    match ending {
        Ending::Complete => items.push((ItemModel::End, at)),
        Ending::Broken(message) => items.push((ItemModel::Error(message), at)),
        Ending::Dropped => items,
    }
}

impl DirectModel {
    /// What is recorded when the response ends this way.
    pub open spec fn ended(self, ending: Ending) -> Seq<EventModel> {
        match ending {
            Ending::Complete => self.success(),
            Ending::Broken(message) => self.broken(message),
            Ending::Dropped => self.abandoned(),
        }
    }
}

proof fn lemma_observing_keeps_context(model: DirectModel, pieces: Seq<(Seq<u8>, i64)>)
    ensures
        observed_all(model, pieces).context == model.context,
    decreases pieces.len(),
{
    if pieces.len() > 0 {
        lemma_observing_keeps_context(
            model.observed(pieces[0].0, pieces[0].1),
            pieces.skip(1),
        );
    }
}

/// A response is recorded piece by piece, in order and with nothing left out,
/// and then as it ended.
pub proof fn lemma_direct_response_is_recorded_in_order(
    stream: TransparentModel,
    model: DirectModel,
    pieces: Seq<(Seq<u8>, i64)>,
    ending: Ending,
    at: i64,
)
    requires
        stream.finalizer == Some(model),
        !stream.finished,
    ensures
        stream.recorded(timed_items(pieces, ending, at)) == appended(
            model.context.request_id,
            piece_bytes(pieces),
        ) + observed_all(model, pieces).ended(ending),
    decreases pieces.len(),
{
    let items = timed_items(pieces, ending, at);
    let id = model.context.request_id;
    let bytes = piece_bytes(pieces);
    if pieces.len() == 0 {
        assert(appended(id, bytes) + model.ended(ending) =~= model.ended(ending));
        if items.len() > 0 {
            let (next, events) = stream.on(items[0].0, items[0].1);
            assert(items.skip(1) =~= Seq::<(ItemModel, i64)>::empty());
            assert(next.recorded(items.skip(1)) =~= Seq::<EventModel>::empty());
            assert(stream.recorded(items) =~= model.ended(ending));
        }
    } else {
        let (next, events) = stream.on(items[0].0, items[0].1);
        let after = model.observed(pieces[0].0, pieces[0].1);
        lemma_direct_response_is_recorded_in_order(next, after, pieces.skip(1), ending, at);
        assert(items.skip(1) =~= timed_items(pieces.skip(1), ending, at));
        assert(bytes.skip(1) =~= piece_bytes(pieces.skip(1)));
        assert(events + appended(id, bytes.skip(1)) =~= appended(id, bytes));
        assert(stream.recorded(items) =~= appended(id, bytes) + observed_all(
            model,
            pieces,
        ).ended(ending));
    }
}

proof fn lemma_direct_finish_is_no_body(
    model: DirectModel,
    status: Seq<char>,
    error_message: Option<Seq<char>>,
)
    ensures
        ({
            let events = model.finish(status, error_message);
            let id = model.context.request_id;
            &&& events == seq![
                EventModel::FinishResponseBody {
                    request_id: id,
                    complete: error_message is None,
                    error_message,
                },
            ] + events.skip(1)
            &&& payload_changes(events.skip(1), id) == Seq::<PayloadChangeModel>::empty()
        }),
{
    let events = model.finish(status, error_message);
    let rest = events.skip(1);
    assert(events =~= seq![events[0]] + rest);
    reveal_with_fuel(payload_changes, 3);
    assert(rest.last() is CompleteRequest);
    if model.context.attempt_id is Some {
        assert(rest.len() == 2);
        assert(rest.drop_last().last() is FinishAttempt);
        assert(rest.drop_last().drop_last() =~= Seq::<EventModel>::empty());
    } else {
        assert(rest.drop_last() =~= Seq::<EventModel>::empty());
    }
}

/// What is stored of a directly forwarded response is exactly what was sent to
/// the client, byte for byte, marked as complete if and only if the response
/// came to its end.
pub proof fn lemma_stored_direct_response_is_what_was_sent(
    stream: TransparentModel,
    model: DirectModel,
    pieces: Seq<(Seq<u8>, i64)>,
    ending: Ending,
    at: i64,
    request: BodyModel,
)
    requires
        stream.finalizer == Some(model),
        !stream.finished,
    ensures
        ({
            let id = model.context.request_id;
            changed_all(
                PayloadModel { request_id: id, request, response: no_body() },
                payload_changes(stream.recorded(timed_items(pieces, ending, at)), id),
            ) == (PayloadModel {
                request_id: id,
                request,
                response: BodyModel {
                    bytes: concat(piece_bytes(pieces)),
                    complete: ending is Complete,
                    error: ending.error("downstream client disconnected before response completed"@),
                },
            })
        }),
{
    let id = model.context.request_id;
    let error = ending.error("downstream client disconnected before response completed"@);
    let bytes = piece_bytes(pieces);
    let last = observed_all(model, pieces);
    lemma_observing_keeps_context(model, pieces);
    lemma_direct_response_is_recorded_in_order(stream, model, pieces, ending, at);
    match ending {
        Ending::Complete => {
            lemma_direct_finish_is_no_body(last, direct_status(last.http_status), None);
        },
        Ending::Broken(message) => {
            lemma_direct_finish_is_no_body(last, "stream_error"@, Some(message));
        },
        Ending::Dropped => {
            lemma_direct_finish_is_no_body(
                last,
                "client_disconnected"@,
                Some("downstream client disconnected before response completed"@),
            );
        },
    }
    let end = last.ended(ending);
    let events = stream.recorded(timed_items(pieces, ending, at));
    assert(events =~= appended(id, bytes) + seq![
        EventModel::FinishResponseBody {
            request_id: id,
            complete: error is None,
            error_message: error,
        },
    ] + end.skip(1));
    lemma_streamed_changes(id, bytes, error is None, error, end.skip(1));
    lemma_streamed_body_is_stored_whole(
        PayloadModel { request_id: id, request, response: no_body() },
        false,
        bytes,
        error is None,
        error,
    );
}

impl RecordedTransparentStream {
    /// A response, recorded where there is a recorder.
    fn new(finalizer: Option<DirectFinalizer>) -> (stream: Self)
        ensures
            stream@ == (TransparentModel {
                finalizer: match finalizer {
                    Some(finalizer) => Some(finalizer@),
                    None => None,
                },
                finished: false,
            }),
    {
        RecordedTransparentStream { finalizer, finished: false }
    }

    /// What to record when the upstream's response yields `item`.
    pub fn on_item(&mut self, item: StreamItem<'_>, elapsed_ms: i64) -> (events: Vec<RecordEvent>)
        requires
            old(self)@.well_formed(),
            old(self)@.finalizer matches Some(finalizer) ==> (item@ matches ItemModel::Chunk(bytes)
                ==> finalizer.room_for(bytes)),
        ensures
            (final(self)@, event_models(events@)) == old(self)@.on(item@, elapsed_ms),
            final(self)@.well_formed(),
    {
        let ghost before = self@;
        match item {
            StreamItem::Chunk(bytes) => {
                let mut events: Vec<RecordEvent> = Vec::new();
                if let Some(mut finalizer) = self.finalizer.take() {
                    events.push(finalizer.observe_chunk(bytes, elapsed_ms));
                    self.finalizer = Some(finalizer);
                }
                assert(event_models(events@) =~= before.on(item@, elapsed_ms).1);
                events
            },
            StreamItem::Error(message) => {
                self.finished = true;
                match self.finalizer.take() {
                    Some(finalizer) => finalizer.finish_stream_error(message),
                    None => {
                        let events: Vec<RecordEvent> = Vec::new();
                        assert(event_models(events@) =~= Seq::<EventModel>::empty());
                        events
                    },
                }
            },
            StreamItem::End => {
                self.finished = true;
                match self.finalizer.take() {
                    Some(finalizer) => finalizer.finish_success(),
                    None => {
                        let events: Vec<RecordEvent> = Vec::new();
                        assert(event_models(events@) =~= Seq::<EventModel>::empty());
                        events
                    },
                }
            },
        }
    }

    /// What to record when the response is dropped.
    pub fn on_drop(&mut self) -> (events: Vec<RecordEvent>)
        ensures
            event_models(events@) == old(self)@.on_drop(),
            final(self)@.finished == old(self)@.finished,
            final(self)@.finalizer == if old(self)@.finished {
                old(self)@.finalizer
            } else {
                None
            },
    {
        if !self.finished {
            if let Some(finalizer) = self.finalizer.take() {
                return finalizer.finish_client_disconnected();
            }
        }
        let events: Vec<RecordEvent> = Vec::new();
        assert(event_models(events@) =~= Seq::<EventModel>::empty());
        events
    }
}

/// An upstream's response as the client gets it.
#[derive(Debug)]
pub struct DirectResponse {
    pub status: u16,
    pub headers: Vec<HeaderEntry>,
    pub body: RecordedTransparentStream,
}

/// How the body of a response is recorded.
pub open spec fn response_recorder(
    context: Option<DirectContextModel>,
    status: u16,
    lines: Seq<Line>,
    response_header_ms: i64,
) -> TransparentModel {
    TransparentModel {
        finalizer: match context {
            Some(context) => Some(
                DirectModel {
                    context,
                    http_status: carried_status(status) as i64,
                    response_header_ms,
                    first_token_ms: None,
                    observe_sse: announces_events(lines) && success_status(carried_status(status)),
                    pending: Seq::empty(),
                    emitted_to_client: false,
                },
            ),
            None => None,
        },
        finished: false,
    }
}

/// A response is recorded exactly if its request is, with its own status. Its
/// first token is looked for exactly if it is a stream of events with a status
/// from 200 to 299, whatever the interface; nothing of it was sent yet.
pub proof fn lemma_which_responses_are_watched(
    context: Option<DirectContextModel>,
    status: u16,
    lines: Seq<Line>,
    response_header_ms: i64,
)
    requires
        100 <= status <= 999,
    ensures
        ({
            let stream = response_recorder(context, status, lines, response_header_ms);
            let values = values_named(lines, "content-type"@);
            let events = values.len() > 0 && (visible_text(values[0]) matches Some(text)
                && exists|at: int| occurs_at(lower(text), "text/event-stream"@, at));
            &&& !stream.finished
            &&& stream.finalizer is Some == context is Some
            &&& stream.finalizer matches Some(model) ==> {
                &&& Some(model.context) == context
                &&& model.http_status == status
                &&& model.response_header_ms == response_header_ms
                &&& model.first_token_ms is None
                &&& model.observe_sse <==> 200 <= status <= 299 && events
                &&& model.pending.len() == 0
                &&& !model.emitted_to_client
            }
        }),
{
    lemma_events_are_announced_by_the_content_type(lines);
}

/// An upstream's response as the client gets it: its status, the lines that
/// pass, and a body that is recorded where there is a context.
pub fn response_from_upstream(
    status: u16,
    headers: &HeaderMap,
    record_context: Option<RecordContext>,
    response_header_ms: i64,
) -> (response: DirectResponse)
    ensures
        response.status == carried_status(status),
        entry_views(response.headers@) == passed(header_lines(*headers)),
        response.body@ == response_recorder(
            context_view(record_context),
            status,
            header_lines(*headers),
            response_header_ms,
        ),
        response.body@ == (TransparentModel {
            finalizer: match context_view(record_context) {
                Some(context) => Some(
                    DirectModel {
                        context,
                        http_status: carried_status(status) as i64,
                        response_header_ms,
                        first_token_ms: None,
                        observe_sse: announces_events(header_lines(*headers)) && success_status(
                            carried_status(status),
                        ),
                        pending: Seq::empty(),
                        emitted_to_client: false,
                    },
                ),
                None => None,
            },
            finished: false,
        }),
        response.body@.well_formed(),
{
    let status = client_status(status);
    let is_sse = is_sse_response(headers);
    let kept = response_headers(headers);
    let finalizer = match record_context {
        Some(context) => Some(
            DirectFinalizer::new(
                context,
                status,
                response_header_ms,
                is_sse && 200 <= status && status < 300,
            ),
        ),
        None => None,
    };
    DirectResponse { status, headers: kept, body: RecordedTransparentStream::new(finalizer) }
}

}
