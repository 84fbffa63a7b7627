//! Records of requests and attempts: what is written of them, and what is read
//! out of them again.

use vstd::prelude::*;

use crate::proxy::sse::concat;
use crate::text::{copy_opt, opt_text, same_text};

verus! {

/// A request that has begun.
#[derive(Clone, Debug)]
pub struct NewRequestRecord {
    pub id: String,
    pub method: String,
    pub endpoint: String,
    pub model: Option<String>,
}

/// An attempt that has begun.
#[derive(Clone, Debug)]
pub struct NewAttemptRecord {
    pub id: String,
    pub request_id: String,
    pub attempt_index: i64,
    pub upstream_id: Option<i64>,
    pub upstream_name: String,
}

/// How an attempt ended.
#[derive(Clone, Debug)]
pub struct FinishAttempt {
    pub status: String,
    pub http_status: Option<i64>,
    pub response_header_ms: Option<i64>,
    pub first_token_ms: Option<i64>,
    pub timeout_reason: Option<String>,
    pub error_message: Option<String>,
    pub emitted_to_client: bool,
}

impl Default for FinishAttempt {
    fn default() -> (update: Self)
        ensures
            update@ == (FinishAttemptModel {
                status: Seq::empty(),
                http_status: None,
                response_header_ms: None,
                first_token_ms: None,
                timeout_reason: None,
                error_message: None,
                emitted_to_client: false,
            }),
    {
        FinishAttempt {
            status: String::new(),
            http_status: None,
            response_header_ms: None,
            first_token_ms: None,
            timeout_reason: None,
            error_message: None,
            emitted_to_client: false,
        }
    }
}

/// A stored request.
#[derive(Clone, Debug)]
pub struct RequestRecord {
    pub id: String,
    pub method: String,
    pub endpoint: String,
    pub model: Option<String>,
    pub status: String,
    pub upstream_name: Option<String>,
    pub attempt_count: i64,
    pub final_http_status: Option<i64>,
    pub error_message: Option<String>,
    pub retry_count: i64,
    pub response_header_ms: Option<i64>,
    pub first_token_ms: Option<i64>,
    pub request_body_bytes: Option<i64>,
    pub request_body_complete: Option<i64>,
    pub response_body_bytes: Option<i64>,
    pub response_body_complete: Option<i64>,
    pub created_at: String,
    pub completed_at: Option<String>,
    pub duration_ms: Option<i64>,
}

/// A stored attempt.
#[derive(Clone, Debug)]
pub struct AttemptRecord {
    pub id: String,
    pub request_id: String,
    pub attempt_index: i64,
    pub upstream_id: Option<i64>,
    pub upstream_name: String,
    pub status: String,
    pub http_status: Option<i64>,
    pub response_header_ms: Option<i64>,
    pub first_token_ms: Option<i64>,
    pub timeout_reason: Option<String>,
    pub error_message: Option<String>,
    pub emitted_to_client: i64,
    pub started_at: String,
    pub completed_at: Option<String>,
    pub duration_ms: Option<i64>,
}

/// The stored bodies of one request.
#[derive(Clone, Debug)]
pub struct RequestPayload {
    pub request_id: String,
    pub request_body: Vec<u8>,
    pub request_body_bytes: i64,
    pub request_body_complete: i64,
    pub request_body_error: Option<String>,
    pub response_body: Vec<u8>,
    pub response_body_bytes: i64,
    pub response_body_complete: i64,
    pub response_body_error: Option<String>,
}

/// How fast requests were answered, and what was abandoned.
#[derive(Clone, Copy, Debug, PartialEq, Eq, Structural)]
pub struct TrafficStats {
    pub first_token_min_ms: Option<i64>,
    pub first_token_max_ms: Option<i64>,
    pub response_min_ms: Option<i64>,
    pub response_max_ms: Option<i64>,
    pub timeout_filtered_attempts: i64,
    pub response_header_timeout_attempts: i64,
    pub first_token_timeout_attempts: i64,
}

// ---------------------------------------------------------------------------
// Models
// ---------------------------------------------------------------------------

/// A request that has begun, as a mathematical value.
pub struct NewRequestModel {
    pub id: Seq<char>,
    pub method: Seq<char>,
    pub endpoint: Seq<char>,
    pub model: Option<Seq<char>>,
}

/// An attempt that has begun, as a mathematical value.
pub struct NewAttemptModel {
    pub id: Seq<char>,
    pub request_id: Seq<char>,
    pub attempt_index: int,
    pub upstream_id: Option<i64>,
    pub upstream_name: Seq<char>,
}

/// How an attempt ended, as a mathematical value.
pub struct FinishAttemptModel {
    pub status: Seq<char>,
    pub http_status: Option<i64>,
    pub response_header_ms: Option<i64>,
    pub first_token_ms: Option<i64>,
    pub timeout_reason: Option<Seq<char>>,
    pub error_message: Option<Seq<char>>,
    pub emitted_to_client: bool,
}

/// One stored body as a mathematical value.
#[verifier::ext_equal]
pub struct BodyModel {
    pub bytes: Seq<u8>,
    pub complete: bool,
    pub error: Option<Seq<char>>,
}

/// The stored bodies of one request as a mathematical value.
#[verifier::ext_equal]
pub struct PayloadModel {
    pub request_id: Seq<char>,
    pub request: BodyModel,
    pub response: BodyModel,
}

impl View for NewRequestRecord {
    type V = NewRequestModel;

    open spec fn view(&self) -> NewRequestModel {
        NewRequestModel {
            id: self.id@,
            method: self.method@,
            endpoint: self.endpoint@,
            model: opt_text(self.model),
        }
    }
}

impl View for NewAttemptRecord {
    type V = NewAttemptModel;

    open spec fn view(&self) -> NewAttemptModel {
        NewAttemptModel {
            id: self.id@,
            request_id: self.request_id@,
            attempt_index: self.attempt_index as int,
            upstream_id: self.upstream_id,
            upstream_name: self.upstream_name@,
        }
    }
}

impl View for FinishAttempt {
    type V = FinishAttemptModel;

    open spec fn view(&self) -> FinishAttemptModel {
        FinishAttemptModel {
            status: self.status@,
            http_status: self.http_status,
            response_header_ms: self.response_header_ms,
            first_token_ms: self.first_token_ms,
            timeout_reason: opt_text(self.timeout_reason),
            error_message: opt_text(self.error_message),
            emitted_to_client: self.emitted_to_client,
        }
    }
}

impl View for RequestPayload {
    type V = PayloadModel;

    open spec fn view(&self) -> PayloadModel {
        PayloadModel {
            request_id: self.request_id@,
            request: BodyModel {
                bytes: self.request_body@,
                complete: self.request_body_complete == 1,
                error: opt_text(self.request_body_error),
            },
            response: BodyModel {
                bytes: self.response_body@,
                complete: self.response_body_complete == 1,
                error: opt_text(self.response_body_error),
            },
        }
    }
}

impl RequestPayload {
    /// The counts are the lengths of the bodies, and the marks are zero or one.
    pub open spec fn well_formed(self) -> bool {
        &&& self.request_body_bytes == self.request_body@.len()
        &&& self.response_body_bytes == self.response_body@.len()
        &&& (self.request_body_complete == 0 || self.request_body_complete == 1)
        &&& (self.response_body_complete == 0 || self.response_body_complete == 1)
    }
}

// ---------------------------------------------------------------------------
// Writing requests and attempts
// ---------------------------------------------------------------------------

/// One change of the stored records, with every value that it writes.
#[derive(Clone, Debug)]
pub enum RecordWrite {
    InsertRequest {
        id: String,
        method: String,
        endpoint: String,
        model: Option<String>,
        status: String,
        created_at: String,
    },
    UpdateRequest {
        id: String,
        status: String,
        upstream_name: Option<String>,
        attempt_count: i64,
        final_http_status: Option<i64>,
        error_message: Option<String>,
        retry_count: i64,
        completed_at: String,
    },
    InsertAttempt {
        id: String,
        request_id: String,
        attempt_index: i64,
        upstream_id: Option<i64>,
        upstream_name: String,
        status: String,
        started_at: String,
    },
    UpdateAttempt {
        id: String,
        status: String,
        http_status: Option<i64>,
        response_header_ms: Option<i64>,
        first_token_ms: Option<i64>,
        timeout_reason: Option<String>,
        error_message: Option<String>,
        emitted_to_client: i64,
        completed_at: String,
    },
    ChangePayload { request_id: String, change: PayloadChange },
}

/// One change of the stored bodies of a request.
#[derive(Clone, Debug)]
pub enum PayloadChange {
    SaveRequest(Vec<u8>),
    AppendRequest(Vec<u8>),
    FinishRequest { complete: bool, error_message: Option<String> },
    SaveResponse(Vec<u8>),
    AppendResponse(Vec<u8>),
    FinishResponse { complete: bool, error_message: Option<String> },
}

/// A change of the stored records as a mathematical value.
pub enum RecordWriteModel {
    InsertRequest { record: NewRequestModel, status: Seq<char>, created_at: Seq<char> },
    UpdateRequest {
        id: Seq<char>,
        status: Seq<char>,
        upstream_name: Option<Seq<char>>,
        attempt_count: int,
        final_http_status: Option<i64>,
        error_message: Option<Seq<char>>,
        retry_count: int,
        completed_at: Seq<char>,
    },
    InsertAttempt { record: NewAttemptModel, status: Seq<char>, started_at: Seq<char> },
    UpdateAttempt {
        id: Seq<char>,
        update: FinishAttemptModel,
        emitted_flag: int,
        completed_at: Seq<char>,
    },
    ChangePayload { request_id: Seq<char>, change: PayloadChangeModel },
}

/// A change of the stored bodies as a mathematical value.
pub enum PayloadChangeModel {
    SaveRequest(Seq<u8>),
    AppendRequest(Seq<u8>),
    FinishRequest { complete: bool, error_message: Option<Seq<char>> },
    SaveResponse(Seq<u8>),
    AppendResponse(Seq<u8>),
    FinishResponse { complete: bool, error_message: Option<Seq<char>> },
}

impl View for PayloadChange {
    type V = PayloadChangeModel;

    open spec fn view(&self) -> PayloadChangeModel {
        match self {
            PayloadChange::SaveRequest(body) => PayloadChangeModel::SaveRequest(body@),
            PayloadChange::AppendRequest(body) => PayloadChangeModel::AppendRequest(body@),
            PayloadChange::FinishRequest {
                complete,
                error_message,
            } => PayloadChangeModel::FinishRequest {
                complete: *complete,
                error_message: opt_text(*error_message),
            },
            PayloadChange::SaveResponse(body) => PayloadChangeModel::SaveResponse(body@),
            PayloadChange::AppendResponse(body) => PayloadChangeModel::AppendResponse(body@),
            PayloadChange::FinishResponse {
                complete,
                error_message,
            } => PayloadChangeModel::FinishResponse {
                complete: *complete,
                error_message: opt_text(*error_message),
            },
        }
    }
}

impl View for RecordWrite {
    type V = RecordWriteModel;

    open spec fn view(&self) -> RecordWriteModel {
        match self {
            RecordWrite::InsertRequest {
                id,
                method,
                endpoint,
                model,
                status,
                created_at,
            } => RecordWriteModel::InsertRequest {
                record: NewRequestModel {
                    id: id@,
                    method: method@,
                    endpoint: endpoint@,
                    model: opt_text(*model),
                },
                status: status@,
                created_at: created_at@,
            },
            RecordWrite::UpdateRequest {
                id,
                status,
                upstream_name,
                attempt_count,
                final_http_status,
                error_message,
                retry_count,
                completed_at,
            } => RecordWriteModel::UpdateRequest {
                id: id@,
                status: status@,
                upstream_name: opt_text(*upstream_name),
                attempt_count: *attempt_count as int,
                final_http_status: *final_http_status,
                error_message: opt_text(*error_message),
                retry_count: *retry_count as int,
                completed_at: completed_at@,
            },
            RecordWrite::InsertAttempt {
                id,
                request_id,
                attempt_index,
                upstream_id,
                upstream_name,
                status,
                started_at,
            } => RecordWriteModel::InsertAttempt {
                record: NewAttemptModel {
                    id: id@,
                    request_id: request_id@,
                    attempt_index: *attempt_index as int,
                    upstream_id: *upstream_id,
                    upstream_name: upstream_name@,
                },
                status: status@,
                started_at: started_at@,
            },
            RecordWrite::UpdateAttempt {
                id,
                status,
                http_status,
                response_header_ms,
                first_token_ms,
                timeout_reason,
                error_message,
                emitted_to_client,
                completed_at,
            } => RecordWriteModel::UpdateAttempt {
                id: id@,
                update: FinishAttemptModel {
                    status: status@,
                    http_status: *http_status,
                    response_header_ms: *response_header_ms,
                    first_token_ms: *first_token_ms,
                    timeout_reason: opt_text(*timeout_reason),
                    error_message: opt_text(*error_message),
                    emitted_to_client: *emitted_to_client == 1,
                },
                emitted_flag: *emitted_to_client as int,
                completed_at: completed_at@,
            },
            RecordWrite::ChangePayload {
                request_id,
                change,
            } => RecordWriteModel::ChangePayload { request_id: request_id@, change: change@ },
        }
    }
}

/// How many of `attempts` were retries: all but the first.
pub open spec fn retries(attempts: int) -> int {
    if attempts > 0 {
        attempts - 1
    } else {
        0
    }
}

/// How many of `attempts` were retries.
pub fn retry_count(attempts: i64) -> (count: i64)
    ensures
        count == retries(attempts as int),
{
    if attempts > 0 {
        attempts - 1
    } else {
        0
    }
}

/// The change that records a request that has begun.
pub fn create_request(record: &NewRequestRecord, now: &str) -> (write: RecordWrite)
    ensures
        write@ == (RecordWriteModel::InsertRequest {
            record: record@,
            status: "started"@,
            created_at: now@,
        }),
{
    RecordWrite::InsertRequest {
        id: record.id.clone(),
        method: record.method.clone(),
        endpoint: record.endpoint.clone(),
        model: copy_opt(&record.model),
        status: "started".to_string(),
        created_at: now.to_string(),
    }
}

/// The change that records the end of a request.
pub fn complete_request(
    request_id: &str,
    status: &str,
    upstream_name: &Option<String>,
    attempt_count: i64,
    final_http_status: Option<i64>,
    error_message: &Option<String>,
    now: &str,
) -> (write: RecordWrite)
    ensures
        write@ == (RecordWriteModel::UpdateRequest {
            id: request_id@,
            status: status@,
            upstream_name: opt_text(*upstream_name),
            attempt_count: attempt_count as int,
            final_http_status,
            error_message: opt_text(*error_message),
            retry_count: retries(attempt_count as int),
            completed_at: now@,
        }),
{
    RecordWrite::UpdateRequest {
        id: request_id.to_string(),
        status: status.to_string(),
        upstream_name: copy_opt(upstream_name),
        attempt_count,
        final_http_status,
        error_message: copy_opt(error_message),
        retry_count: retry_count(attempt_count),
        completed_at: now.to_string(),
    }
}

/// The change that records an attempt that has begun.
pub fn create_attempt(record: &NewAttemptRecord, now: &str) -> (write: RecordWrite)
    ensures
        write@ == (RecordWriteModel::InsertAttempt {
            record: record@,
            status: "started"@,
            started_at: now@,
        }),
{
    RecordWrite::InsertAttempt {
        id: record.id.clone(),
        request_id: record.request_id.clone(),
        attempt_index: record.attempt_index,
        upstream_id: record.upstream_id,
        upstream_name: record.upstream_name.clone(),
        status: "started".to_string(),
        started_at: now.to_string(),
    }
}

/// The change that records the end of an attempt.
pub fn finish_attempt(attempt_id: &str, update: &FinishAttempt, now: &str) -> (write: RecordWrite)
    ensures
        write@ == (RecordWriteModel::UpdateAttempt {
            id: attempt_id@,
            update: update@,
            emitted_flag: if update.emitted_to_client {
                1int
            } else {
                0int
            },
            completed_at: now@,
        }),
{
    RecordWrite::UpdateAttempt {
        id: attempt_id.to_string(),
        status: update.status.clone(),
        http_status: update.http_status,
        response_header_ms: update.response_header_ms,
        first_token_ms: update.first_token_ms,
        timeout_reason: copy_opt(&update.timeout_reason),
        error_message: copy_opt(&update.error_message),
        emitted_to_client: if update.emitted_to_client {
            1
        } else {
            0
        },
        completed_at: now.to_string(),
    }
}

// ---------------------------------------------------------------------------
// Writing bodies
// ---------------------------------------------------------------------------

/// A body of which nothing is stored.
pub open spec fn no_body() -> BodyModel {
    BodyModel { bytes: Seq::empty(), complete: false, error: None }
}

/// The bodies of a request of which nothing is stored.
pub open spec fn no_payload(request_id: Seq<char>) -> PayloadModel {
    PayloadModel { request_id, request: no_body(), response: no_body() }
}

/// A whole body.
pub open spec fn saved_body(bytes: Seq<u8>) -> BodyModel {
    BodyModel { bytes, complete: true, error: None }
}

/// A body with more bytes behind it.
pub open spec fn appended_body(body: BodyModel, bytes: Seq<u8>) -> BodyModel {
    BodyModel { bytes: body.bytes + bytes, ..body }
}

/// A body of which no more will come.
pub open spec fn finished_body(
    body: BodyModel,
    complete: bool,
    error: Option<Seq<char>>,
) -> BodyModel {
    BodyModel { complete, error, ..body }
}

/// The bodies after one change.
pub open spec fn changed(payload: PayloadModel, change: PayloadChangeModel) -> PayloadModel {
    match change {
        PayloadChangeModel::SaveRequest(bytes) => PayloadModel {
            request: saved_body(bytes),
            ..payload
        },
        PayloadChangeModel::AppendRequest(bytes) => PayloadModel {
            request: appended_body(payload.request, bytes),
            ..payload
        },
        PayloadChangeModel::FinishRequest { complete, error_message } => PayloadModel {
            request: finished_body(payload.request, complete, error_message),
            ..payload
        },
        PayloadChangeModel::SaveResponse(bytes) => PayloadModel {
            response: saved_body(bytes),
            ..payload
        },
        PayloadChangeModel::AppendResponse(bytes) => PayloadModel {
            response: appended_body(payload.response, bytes),
            ..payload
        },
        PayloadChangeModel::FinishResponse { complete, error_message } => PayloadModel {
            response: finished_body(payload.response, complete, error_message),
            ..payload
        },
    }
}

/// The bodies after several changes, in order.
pub open spec fn changed_all(
    payload: PayloadModel,
    changes: Seq<PayloadChangeModel>,
) -> PayloadModel
    decreases changes.len(),
{
    if changes.len() == 0 {
        payload
    } else {
        changed(changed_all(payload, changes.drop_last()), changes.last())
    }
}

/// One of the two bodies of a request.
pub open spec fn body_of(payload: PayloadModel, of_request: bool) -> BodyModel {
    if of_request {
        payload.request
    } else {
        payload.response
    }
}

/// The bodies with one of them replaced.
pub open spec fn with_body(
    payload: PayloadModel,
    of_request: bool,
    body: BodyModel,
) -> PayloadModel {
    if of_request {
        PayloadModel { request: body, ..payload }
    } else {
        PayloadModel { response: body, ..payload }
    }
}

/// The change that appends to one of the bodies.
pub open spec fn append_to(of_request: bool, bytes: Seq<u8>) -> PayloadChangeModel {
    if of_request {
        PayloadChangeModel::AppendRequest(bytes)
    } else {
        PayloadChangeModel::AppendResponse(bytes)
    }
}

/// The change that ends one of the bodies.
pub open spec fn finish_of(
    of_request: bool,
    complete: bool,
    error_message: Option<Seq<char>>,
) -> PayloadChangeModel {
    if of_request {
        PayloadChangeModel::FinishRequest { complete, error_message }
    } else {
        PayloadChangeModel::FinishResponse { complete, error_message }
    }
}

/// The changes that append to one of the bodies piece by piece.
pub open spec fn appends(of_request: bool, chunks: Seq<Seq<u8>>) -> Seq<PayloadChangeModel> {
    chunks.map_values(|chunk: Seq<u8>| append_to(of_request, chunk))
}

/// The changes that append to one of the bodies piece by piece and then end it.
pub open spec fn streamed_body(
    of_request: bool,
    chunks: Seq<Seq<u8>>,
    complete: bool,
    error_message: Option<Seq<char>>,
) -> Seq<PayloadChangeModel> {
    appends(of_request, chunks).push(finish_of(of_request, complete, error_message))
}

proof fn lemma_appends(payload: PayloadModel, of_request: bool, chunks: Seq<Seq<u8>>)
    ensures
        changed_all(payload, appends(of_request, chunks)) == with_body(
            payload,
            of_request,
            appended_body(body_of(payload, of_request), concat(chunks)),
        ),
    decreases chunks.len(),
{
    let body = body_of(payload, of_request);
    let changes = appends(of_request, chunks);
    if chunks.len() == 0 {
        assert(body.bytes + Seq::<u8>::empty() =~= body.bytes);
    } else {
        lemma_appends(payload, of_request, chunks.drop_last());
        assert(changes.drop_last() =~= appends(of_request, chunks.drop_last()));
        assert(body_of(changed_all(payload, changes), of_request).bytes =~= body.bytes + concat(
            chunks,
        ));
    }
}

/// What one change does to a body: saving replaces it by a whole one, appending
/// adds bytes behind it, and ending it says whether it is whole and what went
/// wrong. The other body stays as it is.
pub proof fn lemma_what_a_change_does(
    payload: PayloadModel,
    bytes: Seq<u8>,
    complete: bool,
    error_message: Option<Seq<char>>,
)
    ensures
        changed(payload, PayloadChangeModel::SaveRequest(bytes)) == (PayloadModel {
            request: BodyModel { bytes, complete: true, error: None },
            ..payload
        }),
        changed(payload, PayloadChangeModel::SaveResponse(bytes)) == (PayloadModel {
            response: BodyModel { bytes, complete: true, error: None },
            ..payload
        }),
        changed(payload, PayloadChangeModel::AppendRequest(bytes)) == (PayloadModel {
            request: BodyModel { bytes: payload.request.bytes + bytes, ..payload.request },
            ..payload
        }),
        changed(payload, PayloadChangeModel::AppendResponse(bytes)) == (PayloadModel {
            response: BodyModel { bytes: payload.response.bytes + bytes, ..payload.response },
            ..payload
        }),
        changed(payload, PayloadChangeModel::FinishRequest { complete, error_message }) == (
        PayloadModel {
            request: BodyModel { bytes: payload.request.bytes, complete, error: error_message },
            ..payload
        }),
        changed(payload, PayloadChangeModel::FinishResponse { complete, error_message }) == (
        PayloadModel {
            response: BodyModel { bytes: payload.response.bytes, complete, error: error_message },
            ..payload
        }),
{
}

/// A request of which nothing is stored has two empty bodies that are not whole.
pub proof fn lemma_nothing_is_stored_at_first(request_id: Seq<char>)
    ensures
        payload_or_none(None, request_id).request_id == request_id,
        payload_or_none(None, request_id).request.bytes.len() == 0,
        payload_or_none(None, request_id).response.bytes.len() == 0,
        !payload_or_none(None, request_id).request.complete,
        !payload_or_none(None, request_id).response.complete,
        payload_or_none(None, request_id).request.error is None,
        payload_or_none(None, request_id).response.error is None,
{
}

/// The stored counts and marks tell the lengths of the bodies and whether they are
/// whole.
pub proof fn lemma_counts_tell_the_lengths(payload: RequestPayload)
    requires
        payload.well_formed(),
    ensures
        payload.request_body_bytes == payload@.request.bytes.len(),
        payload.response_body_bytes == payload@.response.bytes.len(),
        payload.request_body_complete == if payload@.request.complete {
            1i64
        } else {
            0i64
        },
        payload.response_body_complete == if payload@.response.complete {
            1i64
        } else {
            0i64
        },
        payload@.request.bytes == payload.request_body@,
        payload@.response.bytes == payload.response_body@,
        payload@.request_id == payload.request_id@,
{
}

/// All attempts but the first are retries.
pub proof fn lemma_all_but_the_first_are_retries(attempts: int)
    ensures
        attempts >= 1 ==> retries(attempts) == attempts - 1,
        attempts <= 0 ==> retries(attempts) == 0,
{
}

/// A body that was appended piece by piece and then ended is stored whole and in
/// order, with the other body untouched.
pub proof fn lemma_streamed_body_is_stored_whole(
    payload: PayloadModel,
    of_request: bool,
    chunks: Seq<Seq<u8>>,
    complete: bool,
    error_message: Option<Seq<char>>,
)
    requires
        body_of(payload, of_request) == no_body(),
    ensures
        changed_all(payload, streamed_body(of_request, chunks, complete, error_message))
            == with_body(
            payload,
            of_request,
            BodyModel { bytes: concat(chunks), complete, error: error_message },
        ),
{
    let changes = streamed_body(of_request, chunks, complete, error_message);
    lemma_appends(payload, of_request, chunks);
    assert(changes.drop_last() =~= appends(of_request, chunks));
    assert(body_of(changed_all(payload, changes), of_request).bytes =~= concat(chunks));
}

/// A response that arrives piece by piece and comes to its end is stored as if
/// it had been saved at once.
pub proof fn lemma_streaming_equals_saving(payload: PayloadModel, chunks: Seq<Seq<u8>>)
    requires
        payload.response == no_body(),
    ensures
        changed_all(payload, streamed_body(false, chunks, true, None)) == changed(
            payload,
            PayloadChangeModel::SaveResponse(concat(chunks)),
        ),
{
    lemma_streamed_body_is_stored_whole(payload, false, chunks, true, None);
}

/// Whether a change is one of the request body; any other is one of the response.
pub open spec fn is_request_change(change: PayloadChangeModel) -> bool {
    ||| change is SaveRequest
    ||| change is AppendRequest
    ||| change is FinishRequest
}

/// The two bodies of a request do not get in each other's way: however their
/// changes are interleaved, each body becomes what its own changes make of it.
pub proof fn lemma_bodies_are_independent(
    payload: PayloadModel,
    changes: Seq<PayloadChangeModel>,
)
    ensures
        changed_all(payload, changes).request == changed_all(
            payload,
            changes.filter(|change: PayloadChangeModel| is_request_change(change)),
        ).request,
        changed_all(payload, changes).response == changed_all(
            payload,
            changes.filter(|change: PayloadChangeModel| !is_request_change(change)),
        ).response,
        changed_all(payload, changes).request_id == payload.request_id,
    decreases changes.len(),
{
    reveal(Seq::filter);
    if changes.len() > 0 {
        let of_request = |change: PayloadChangeModel| is_request_change(change);
        let of_response = |change: PayloadChangeModel| !is_request_change(change);
        let before = changes.drop_last();
        let last = changes.last();
        lemma_bodies_are_independent(payload, before);
        if is_request_change(last) {
            let kept = before.filter(of_request).push(last);
            assert(changes.filter(of_request) =~= kept);
            assert(kept.drop_last() =~= before.filter(of_request));
            assert(changes.filter(of_response) =~= before.filter(of_response));
        } else {
            let kept = before.filter(of_response).push(last);
            assert(changes.filter(of_response) =~= kept);
            assert(kept.drop_last() =~= before.filter(of_response));
            assert(changes.filter(of_request) =~= before.filter(of_request));
        }
    }
}

fn flag(value: bool) -> (number: i64)
    ensures
        number == if value {
            1i64
        } else {
            0i64
        },
{
    if value {
        1
    } else {
        0
    }
}

fn joined(mut left: Vec<u8>, right: &Vec<u8>) -> (all: Vec<u8>)
    ensures
        all@ == left@ + right@,
{
    let mut i: usize = 0;
    let ghost start = left@;
    assert(left@ =~= start + right@.take(0));
    while i < right.len()
        invariant
            i <= right@.len(),
            left@ == start + right@.take(i as int),
        decreases right@.len() - i,
    {
        left.push(right[i]);
        assert(left@ =~= start + right@.take(i + 1));
        i += 1;
    }
    assert(right@.take(right@.len() as int) =~= right@);
    left
}

/// Whether the bodies, and what a change adds to them, fit into memory.
pub open spec fn payload_fits(payload: PayloadModel, change: PayloadChangeModel) -> bool {
    let after = changed(payload, change);
    after.request.bytes.len() <= isize::MAX && after.response.bytes.len() <= isize::MAX
}

/// The bodies that are stored, or those of a request of which nothing is.
pub open spec fn payload_or_none(
    existing: Option<RequestPayload>,
    request_id: Seq<char>,
) -> PayloadModel {
    match existing {
        Some(existing) => existing@,
        None => no_payload(request_id),
    }
}

/// The stored bodies of a request after one change, with nothing stored to
/// begin with where `existing` is absent.
pub fn change_payload(
    existing: Option<RequestPayload>,
    request_id: &str,
    change: &PayloadChange,
) -> (payload: RequestPayload)
    requires
        existing is Some ==> existing->0.well_formed(),
        payload_fits(payload_or_none(existing, request_id@), change@),
    ensures
        payload.well_formed(),
        payload@ == changed(payload_or_none(existing, request_id@), change@),
{
    let mut payload = match existing {
        Some(existing) => existing,
        None => RequestPayload {
            request_id: request_id.to_string(),
            request_body: Vec::new(),
            request_body_bytes: 0,
            request_body_complete: 0,
            request_body_error: None,
            response_body: Vec::new(),
            response_body_bytes: 0,
            response_body_complete: 0,
            response_body_error: None,
        },
    };
    let ghost before = payload@;
    assert(before == payload_or_none(existing, request_id@));
    match change {
        PayloadChange::SaveRequest(body) => {
            payload.request_body = joined(Vec::new(), body);
            assert(payload.request_body@ =~= body@);
            payload.request_body_bytes = payload.request_body.len() as i64;
            payload.request_body_complete = 1;
            payload.request_body_error = None;
        },
        PayloadChange::AppendRequest(body) => {
            payload.request_body = joined(payload.request_body, body);
            payload.request_body_bytes = payload.request_body.len() as i64;
        },
        PayloadChange::FinishRequest { complete, error_message } => {
            payload.request_body_complete = flag(*complete);
            payload.request_body_error = copy_opt(error_message);
        },
        PayloadChange::SaveResponse(body) => {
            payload.response_body = joined(Vec::new(), body);
            assert(payload.response_body@ =~= body@);
            payload.response_body_bytes = payload.response_body.len() as i64;
            payload.response_body_complete = 1;
            payload.response_body_error = None;
        },
        PayloadChange::AppendResponse(body) => {
            payload.response_body = joined(payload.response_body, body);
            payload.response_body_bytes = payload.response_body.len() as i64;
        },
        PayloadChange::FinishResponse { complete, error_message } => {
            payload.response_body_complete = flag(*complete);
            payload.response_body_error = copy_opt(error_message);
        },
    }
    payload
}

// ---------------------------------------------------------------------------
// Reading
// ---------------------------------------------------------------------------

/// How many of `requests` have the status `status`.
pub open spec fn with_status(requests: Seq<RequestRecord>, status: Seq<char>) -> nat
    decreases requests.len(),
{
    if requests.len() == 0 {
        0
    } else {
        with_status(requests.drop_last(), status) + if requests.last().status@ == status {
            1nat
        } else {
            0nat
        }
    }
}

/// How many of `attempts` were abandoned for `reason`.
pub open spec fn with_reason(attempts: Seq<AttemptRecord>, reason: Seq<char>) -> nat
    decreases attempts.len(),
{
    if attempts.len() == 0 {
        0
    } else {
        with_reason(attempts.drop_last(), reason) + if opt_text(attempts.last().timeout_reason)
            == Some(reason) {
            1nat
        } else {
            0nat
        }
    }
}

/// How many of `attempts` were abandoned for whatever reason.
pub open spec fn with_any_reason(attempts: Seq<AttemptRecord>) -> nat
    decreases attempts.len(),
{
    if attempts.len() == 0 {
        0
    } else {
        with_any_reason(attempts.drop_last()) + if attempts.last().timeout_reason is Some {
            1nat
        } else {
            0nat
        }
    }
}

/// The least of the values that are there.
pub open spec fn least(values: Seq<Option<i64>>) -> Option<i64>
    decreases values.len(),
{
    if values.len() == 0 {
        None
    } else {
        match (least(values.drop_last()), values.last()) {
            (Some(least), Some(value)) => Some(
                if value < least {
                    value
                } else {
                    least
                },
            ),
            (Some(least), None) => Some(least),
            (None, value) => value,
        }
    }
}

/// The greatest of the values that are there.
pub open spec fn greatest(values: Seq<Option<i64>>) -> Option<i64>
    decreases values.len(),
{
    if values.len() == 0 {
        None
    } else {
        match (greatest(values.drop_last()), values.last()) {
            (Some(greatest), Some(value)) => Some(
                if value > greatest {
                    value
                } else {
                    greatest
                },
            ),
            (Some(greatest), None) => Some(greatest),
            (None, value) => value,
        }
    }
}

/// Every value lies between the least and the greatest.
pub proof fn lemma_values_lie_between(values: Seq<Option<i64>>, at: int)
    requires
        0 <= at < values.len(),
        values[at] is Some,
    ensures
        least(values) is Some,
        greatest(values) is Some,
        least(values)->0 <= values[at]->0 <= greatest(values)->0,
    decreases values.len(),
{
    if at < values.len() - 1 {
        lemma_values_lie_between(values.drop_last(), at);
    }
}

/// One more request counts under its own status and under no other.
pub proof fn lemma_requests_count_by_status(
    requests: Seq<RequestRecord>,
    request: RequestRecord,
    status: Seq<char>,
)
    ensures
        with_status(Seq::empty(), status) == 0,
        with_status(requests.push(request), status) == with_status(requests, status)
            + if request.status@ == status {
            1nat
        } else {
            0nat
        },
{
    assert(requests.push(request).drop_last() =~= requests);
}

/// One more attempt counts under the reason it was abandoned for, and as abandoned
/// if it has one.
pub proof fn lemma_attempts_count_by_reason(
    attempts: Seq<AttemptRecord>,
    attempt: AttemptRecord,
    reason: Seq<char>,
)
    ensures
        with_reason(Seq::empty(), reason) == 0,
        with_any_reason(Seq::empty()) == 0,
        with_reason(attempts.push(attempt), reason) == with_reason(attempts, reason) + if (
        attempt.timeout_reason matches Some(text) && text@ == reason) {
            1nat
        } else {
            0nat
        },
        with_any_reason(attempts.push(attempt)) == with_any_reason(attempts)
            + if attempt.timeout_reason is Some {
            1nat
        } else {
            0nat
        },
{
    assert(attempts.push(attempt).drop_last() =~= attempts);
}

/// The least and the greatest are among the values, and there are none exactly if
/// there is no value.
pub proof fn lemma_bounds_are_among_the_values(values: Seq<Option<i64>>)
    ensures
        least(values) is Some ==> values.contains(least(values)),
        greatest(values) is Some ==> values.contains(greatest(values)),
        least(values) is None <==> forall|i: int| 0 <= i < values.len() ==> #[trigger] values[i]
            is None,
        greatest(values) is None <==> forall|i: int| 0 <= i < values.len() ==> #[trigger] values[i]
            is None,
    decreases values.len(),
{
    if values.len() > 0 {
        let before = values.drop_last();
        let last = values.last();
        lemma_bounds_are_among_the_values(before);
        assert(values[values.len() - 1] == last);
        assert(forall|i: int| 0 <= i < before.len() ==> values[i] == #[trigger] before[i]);
        if least(before) is Some {
            let k = choose|k: int| 0 <= k < before.len() && before[k] == least(before);
            assert(values[k] == least(before));
        } else {
            assert forall|i: int| 0 <= i < before.len() implies values[i] is None by {
                assert(before[i] is None);
            }
        }
        if greatest(before) is Some {
            let k = choose|k: int| 0 <= k < before.len() && before[k] == greatest(before);
            assert(values[k] == greatest(before));
        }
        if forall|i: int| 0 <= i < values.len() ==> #[trigger] values[i] is None {
            assert forall|i: int| 0 <= i < before.len() implies #[trigger] before[i] is None by {
                assert(values[i] is None);
            }
        }
    }
}

/// The times of the first token run from the least to the greatest of the
/// attempts that reached the client, and those of the responses over all requests
/// that ended. Attempts count as abandoned under the two reasons by name, and under
/// any.
pub proof fn lemma_what_the_traffic_was(
    requests: Seq<RequestRecord>,
    attempts: Seq<AttemptRecord>,
    at: int,
)
    requires
        attempts.len() <= i64::MAX,
    ensures
        ({
            let stats = stats_of(requests, attempts);
            &&& 0 <= at < attempts.len() && attempts[at].emitted_to_client == 1
                && attempts[at].first_token_ms is Some ==> stats.first_token_min_ms is Some
                && stats.first_token_max_ms is Some && stats.first_token_min_ms->0
                <= attempts[at].first_token_ms->0 <= stats.first_token_max_ms->0
            &&& stats.first_token_min_ms is Some ==> exists|i: int|
                0 <= i < attempts.len() && (#[trigger] attempts[i]).emitted_to_client == 1
                    && attempts[i].first_token_ms == stats.first_token_min_ms
            &&& stats.first_token_max_ms is Some ==> exists|i: int|
                0 <= i < attempts.len() && (#[trigger] attempts[i]).emitted_to_client == 1
                    && attempts[i].first_token_ms == stats.first_token_max_ms
            &&& 0 <= at < requests.len() && requests[at].duration_ms is Some
                ==> stats.response_min_ms is Some && stats.response_max_ms is Some
                && stats.response_min_ms->0 <= requests[at].duration_ms->0
                <= stats.response_max_ms->0
            &&& stats.response_min_ms is Some ==> exists|i: int|
                0 <= i < requests.len() && (#[trigger] requests[i]).duration_ms
                    == stats.response_min_ms
            &&& stats.response_max_ms is Some ==> exists|i: int|
                0 <= i < requests.len() && (#[trigger] requests[i]).duration_ms
                    == stats.response_max_ms
            &&& stats.timeout_filtered_attempts == with_any_reason(attempts)
            &&& stats.response_header_timeout_attempts == with_reason(
                attempts,
                "response_header_timeout"@,
            )
            &&& stats.first_token_timeout_attempts == with_reason(attempts, "first_token_timeout"@)
        }),
{
    let times = token_times(attempts);
    let spans = durations(requests);
    lemma_counts_stay_below(attempts, "response_header_timeout"@);
    lemma_counts_stay_below(attempts, "first_token_timeout"@);
    lemma_bounds_are_among_the_values(times);
    lemma_bounds_are_among_the_values(spans);
    if 0 <= at < attempts.len() && times[at] is Some {
        lemma_values_lie_between(times, at);
    }
    if 0 <= at < requests.len() && spans[at] is Some {
        lemma_values_lie_between(spans, at);
    }
    if least(times) is Some {
        let i = choose|i: int| 0 <= i < times.len() && times[i] == least(times);
        assert(attempts[i].emitted_to_client == 1);
        let j = choose|j: int| 0 <= j < times.len() && times[j] == greatest(times);
        lemma_values_lie_between(times, i);
        assert(attempts[j].emitted_to_client == 1);
    }
    if greatest(times) is Some {
        let j = choose|j: int| 0 <= j < times.len() && times[j] == greatest(times);
        assert(attempts[j].emitted_to_client == 1);
    }
    if least(spans) is Some {
        let i = choose|i: int| 0 <= i < spans.len() && spans[i] == least(spans);
        assert(requests[i].duration_ms == least(spans));
    }
    if greatest(spans) is Some {
        let i = choose|i: int| 0 <= i < spans.len() && spans[i] == greatest(spans);
        assert(requests[i].duration_ms == greatest(spans));
    }
}

/// No more requests have a status, and no more attempts were abandoned, than there
/// are.
pub proof fn lemma_counts_are_bounded(
    requests: Seq<RequestRecord>,
    attempts: Seq<AttemptRecord>,
    status: Seq<char>,
    reason: Seq<char>,
)
    ensures
        with_status(requests, status) <= requests.len(),
        with_reason(attempts, reason) <= with_any_reason(attempts) <= attempts.len(),
    decreases requests.len(),
{
    lemma_counts_stay_below(attempts, reason);
    if requests.len() > 0 {
        lemma_counts_are_bounded(requests.drop_last(), attempts, status, reason);
    }
}

proof fn lemma_counts_stay_below(attempts: Seq<AttemptRecord>, reason: Seq<char>)
    ensures
        with_reason(attempts, reason) <= with_any_reason(attempts) <= attempts.len(),
    decreases attempts.len(),
{
    if attempts.len() > 0 {
        lemma_counts_stay_below(attempts.drop_last(), reason);
    }
}

/// When the first token of each attempt came, of those that reached the client.
pub open spec fn token_times(attempts: Seq<AttemptRecord>) -> Seq<Option<i64>> {
    attempts.map_values(
        |attempt: AttemptRecord|
            if attempt.emitted_to_client == 1 {
                attempt.first_token_ms
            } else {
                None
            },
    )
}

/// How long each request took, of those that ended.
pub open spec fn durations(requests: Seq<RequestRecord>) -> Seq<Option<i64>> {
    requests.map_values(|request: RequestRecord| request.duration_ms)
}

/// What the records say about the traffic.
pub open spec fn stats_of(
    requests: Seq<RequestRecord>,
    attempts: Seq<AttemptRecord>,
) -> TrafficStats {
    TrafficStats {
        first_token_min_ms: least(token_times(attempts)),
        first_token_max_ms: greatest(token_times(attempts)),
        response_min_ms: least(durations(requests)),
        response_max_ms: greatest(durations(requests)),
        timeout_filtered_attempts: with_any_reason(attempts) as i64,
        response_header_timeout_attempts: with_reason(
            attempts,
            "response_header_timeout"@,
        ) as i64,
        first_token_timeout_attempts: with_reason(attempts, "first_token_timeout"@) as i64,
    }
}

/// How many requests there are.
pub fn total_requests(requests: &[RequestRecord]) -> (total: i64)
    requires
        requests@.len() <= i64::MAX,
    ensures
        total == requests@.len(),
{
    requests.len() as i64
}

/// How many requests have the status `status`.
pub fn count_by_status(requests: &[RequestRecord], status: &str) -> (count: i64)
    requires
        requests@.len() <= i64::MAX,
    ensures
        count == with_status(requests@, status@),
        count <= requests@.len(),
{
    let mut count: i64 = 0;
    let mut i: usize = 0;
    while i < requests.len()
        invariant
            i <= requests@.len() <= i64::MAX,
            0 <= count <= i,
            count == with_status(requests@.take(i as int), status@),
        decreases requests@.len() - i,
    {
        assert(requests@.take(i + 1).drop_last() =~= requests@.take(i as int));
        assert(requests@.take(i + 1).last() == requests@[i as int]);
        if same_text(requests[i].status.as_str(), status) {
            count += 1;
        }
        i += 1;
    }
    assert(requests@.take(requests@.len() as int) =~= requests@);
    count
}

/// How many attempts were abandoned for `reason`.
pub fn count_attempt_timeout_reason(attempts: &[AttemptRecord], reason: &str) -> (count: i64)
    requires
        attempts@.len() <= i64::MAX,
    ensures
        count == with_reason(attempts@, reason@),
{
    let mut count: i64 = 0;
    let mut i: usize = 0;
    while i < attempts.len()
        invariant
            i <= attempts@.len() <= i64::MAX,
            0 <= count <= i,
            count == with_reason(attempts@.take(i as int), reason@),
        decreases attempts@.len() - i,
    {
        assert(attempts@.take(i + 1).drop_last() =~= attempts@.take(i as int));
        assert(attempts@.take(i + 1).last() == attempts@[i as int]);
        if let Some(text) = &attempts[i].timeout_reason {
            if same_text(text.as_str(), reason) {
                count += 1;
            }
        }
        i += 1;
    }
    assert(attempts@.take(attempts@.len() as int) =~= attempts@);
    count
}

/// How many attempts were abandoned for whatever reason.
fn count_abandoned(attempts: &[AttemptRecord]) -> (count: i64)
    requires
        attempts@.len() <= i64::MAX,
    ensures
        count == with_any_reason(attempts@),
{
    let mut count: i64 = 0;
    let mut i: usize = 0;
    while i < attempts.len()
        invariant
            i <= attempts@.len() <= i64::MAX,
            0 <= count <= i,
            count == with_any_reason(attempts@.take(i as int)),
        decreases attempts@.len() - i,
    {
        assert(attempts@.take(i + 1).drop_last() =~= attempts@.take(i as int));
        assert(attempts@.take(i + 1).last() == attempts@[i as int]);
        if attempts[i].timeout_reason.is_some() {
            count += 1;
        }
        i += 1;
    }
    assert(attempts@.take(attempts@.len() as int) =~= attempts@);
    count
}

/// The least and the greatest of the values that are there.
fn range_of(values: &[Option<i64>]) -> (range: (Option<i64>, Option<i64>))
    ensures
        range.0 == least(values@),
        range.1 == greatest(values@),
{
    let mut low: Option<i64> = None;
    let mut high: Option<i64> = None;
    let mut i: usize = 0;
    while i < values.len()
        invariant
            i <= values@.len(),
            low == least(values@.take(i as int)),
            high == greatest(values@.take(i as int)),
        decreases values@.len() - i,
    {
        assert(values@.take(i + 1).drop_last() =~= values@.take(i as int));
        assert(values@.take(i + 1).last() == values@[i as int]);
        let value = values[i];
        low = match (low, value) {
            (Some(low), Some(value)) => Some(
                if value < low {
                    value
                } else {
                    low
                },
            ),
            (Some(low), None) => Some(low),
            (None, value) => value,
        };
        high = match (high, value) {
            (Some(high), Some(value)) => Some(
                if value > high {
                    value
                } else {
                    high
                },
            ),
            (Some(high), None) => Some(high),
            (None, value) => value,
        };
        i += 1;
    }
    assert(values@.take(values@.len() as int) =~= values@);
    (low, high)
}

/// What the records say about the traffic.
pub fn traffic_stats(requests: &[RequestRecord], attempts: &[AttemptRecord]) -> (stats: TrafficStats)
    requires
        attempts@.len() <= i64::MAX,
    ensures
        stats == stats_of(requests@, attempts@),
{
    let mut tokens: Vec<Option<i64>> = Vec::new();
    let mut i: usize = 0;
    while i < attempts.len()
        invariant
            i <= attempts@.len(),
            tokens@ == token_times(attempts@).take(i as int),
        decreases attempts@.len() - i,
    {
        let time = if attempts[i].emitted_to_client == 1 {
            attempts[i].first_token_ms
        } else {
            None
        };
        assert(time == token_times(attempts@)[i as int]);
        tokens.push(time);
        assert(tokens@ =~= token_times(attempts@).take(i + 1));
        i += 1;
    }
    assert(tokens@ =~= token_times(attempts@));
    let mut lengths: Vec<Option<i64>> = Vec::new();
    let mut j: usize = 0;
    while j < requests.len()
        invariant
            j <= requests@.len(),
            lengths@ == durations(requests@).take(j as int),
        decreases requests@.len() - j,
    {
        lengths.push(requests[j].duration_ms);
        assert(lengths@ =~= durations(requests@).take(j + 1));
        j += 1;
    }
    assert(lengths@ =~= durations(requests@));
    let token_range = range_of(tokens.as_slice());
    let length_range = range_of(lengths.as_slice());
    TrafficStats {
        first_token_min_ms: token_range.0,
        first_token_max_ms: token_range.1,
        response_min_ms: length_range.0,
        response_max_ms: length_range.1,
        timeout_filtered_attempts: count_abandoned(attempts),
        response_header_timeout_attempts: count_attempt_timeout_reason(
            attempts,
            "response_header_timeout",
        ),
        first_token_timeout_attempts: count_attempt_timeout_reason(attempts, "first_token_timeout"),
    }
}

}
