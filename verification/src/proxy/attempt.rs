//! One attempt at an upstream: what came of sending the request, and what to do
//! with the answer.

use axum::http::HeaderMap;
use bytes::Bytes;
use vstd::prelude::*;

use super::body;
use super::gate::{
    lemma_gate_opens_for_a_token_only, no_token, GateEvent, GateEventModel, GateModel, GateStep,
    GateStepModel, SseGate, PREFIX_BUFFER_LIMIT,
};
use super::headers::{
    announces_events, is_sse_response, lemma_events_are_announced_by_the_content_type, passed,
    response_headers, visible_text, Line,
};
use super::relay::{
    FinalizedSseStream, FinalizerModel, RelayModel, StreamContextModel, StreamFinalizer,
    StreamRecordContext,
};
use super::semantic_token::{semantic, EndpointKind};
use super::sse::{event_of, frames};
use crate::decimal::{decimal, decimal_text};
use crate::interop::buffers::{bytes_content, fits_buffer};
use crate::interop::http::{entry_views, header_lines, values_named, HeaderEntry};
use crate::storage::settings::RuntimeSettings;
use crate::text::{lower, occurs_at, opt_text};

verus! {

/// Why an attempt came to nothing before the client saw any of it.
#[derive(Clone, Debug)]
pub struct AttemptFailure {
    pub status: String,
    pub final_http_status: u16,
    pub upstream_http_status: Option<i64>,
    pub response_header_ms: Option<i64>,
    pub first_token_ms: Option<i64>,
    pub timeout_reason: Option<String>,
    pub error_message: String,
}

/// A failure as a mathematical value.
pub struct FailureModel {
    pub status: Seq<char>,
    pub final_http_status: u16,
    pub upstream_http_status: Option<i64>,
    pub response_header_ms: Option<i64>,
    pub first_token_ms: Option<i64>,
    pub timeout_reason: Option<Seq<char>>,
    pub error_message: Seq<char>,
}

impl View for AttemptFailure {
    type V = FailureModel;

    open spec fn view(&self) -> FailureModel {
        FailureModel {
            status: self.status@,
            final_http_status: self.final_http_status,
            upstream_http_status: self.upstream_http_status,
            response_header_ms: self.response_header_ms,
            first_token_ms: self.first_token_ms,
            timeout_reason: opt_text(self.timeout_reason),
            error_message: self.error_message@,
        }
    }
}

// ---------------------------------------------------------------------------
// Times and statuses
// ---------------------------------------------------------------------------

/// Elapsed milliseconds, cut off at the greatest number that a record holds.
pub fn elapsed_ms(millis: u128) -> (ms: i64)
    ensures
        ms == if millis > i64::MAX {
            i64::MAX as int
        } else {
            millis as int
        },
{
    if millis > 9_223_372_036_854_775_807 {
        9_223_372_036_854_775_807
    } else {
        millis as i64
    }
}

/// `status` where HTTP can carry it, and that of a bad gateway where it cannot.
pub open spec fn carried_status(status: u16) -> u16 {
    if 100 <= status <= 999 {
        status
    } else {
        502
    }
}

/// The status to answer a client with that an upstream answered with `status`.
pub fn client_status(status: u16) -> (carried: u16)
    ensures
        carried == carried_status(status),
{
    if 100 <= status && status <= 999 {
        status
    } else {
        502
    }
}

/// Whether a status stands for success.
pub open spec fn success_status(status: u16) -> bool {
    200 <= status < 300
}

/// Whether it is worth trying again after `status`.
pub open spec fn retryable_status(status: u16) -> bool {
    500 <= status < 600 || status == 408 || status == 429
}

/// Whether it is worth trying again after `status`.
pub fn is_retryable_status(status: u16) -> (retry: bool)
    ensures
        retry == retryable_status(status),
        retry <==> 500 <= status <= 599 || status == 408 || status == 429,
{
    (500 <= status && status < 600) || status == 408 || status == 429
}

// ---------------------------------------------------------------------------
// Failures
// ---------------------------------------------------------------------------

/// The upstream could not be reached.
pub open spec fn send_failure() -> FailureModel {
    FailureModel {
        status: "upstream_error"@,
        final_http_status: 502,
        upstream_http_status: None,
        response_header_ms: None,
        first_token_ms: None,
        timeout_reason: None,
        error_message: "upstream request failed"@,
    }
}

/// The upstream did not begin to answer in time.
pub open spec fn header_timeout() -> FailureModel {
    FailureModel {
        status: "response_header_timeout"@,
        final_http_status: 504,
        upstream_http_status: None,
        response_header_ms: None,
        first_token_ms: None,
        timeout_reason: Some("response_header_timeout"@),
        error_message: "waiting for upstream response header timed out"@,
    }
}

/// The upstream answered with a status after which it is worth trying again.
pub open spec fn status_failure(status: u16, response_header_ms: i64) -> FailureModel {
    FailureModel {
        status: "upstream_http_"@ + decimal(status as int),
        final_http_status: carried_status(status),
        upstream_http_status: Some(status as i64),
        response_header_ms: Some(response_header_ms),
        first_token_ms: None,
        timeout_reason: None,
        error_message: "upstream returned HTTP "@ + decimal(status as int),
    }
}

/// A failure while waiting for the first token.
pub open spec fn token_failure(
    status: Seq<char>,
    final_http_status: u16,
    upstream_status: u16,
    response_header_ms: i64,
    elapsed_ms: i64,
    timeout_reason: Option<Seq<char>>,
    error_message: Seq<char>,
) -> FailureModel {
    FailureModel {
        status,
        final_http_status,
        upstream_http_status: Some(upstream_status as i64),
        response_header_ms: Some(response_header_ms),
        first_token_ms: Some(elapsed_ms),
        timeout_reason,
        error_message,
    }
}

/// The first token did not come in time.
pub open spec fn token_timeout(status: u16, header_ms: i64, elapsed_ms: i64) -> FailureModel {
    token_failure(
        "first_token_timeout"@,
        504,
        status,
        header_ms,
        elapsed_ms,
        Some("first_token_timeout"@),
        "waiting for first semantic token timed out"@,
    )
}

/// The stream ended without a token.
pub open spec fn token_missing(status: u16, header_ms: i64, elapsed_ms: i64) -> FailureModel {
    token_failure(
        "first_token_missing"@,
        504,
        status,
        header_ms,
        elapsed_ms,
        Some("first_token_timeout"@),
        "upstream SSE ended before first semantic token"@,
    )
}

/// The stream broke before a token.
pub open spec fn stream_failure(status: u16, header_ms: i64, elapsed_ms: i64) -> FailureModel {
    token_failure(
        "upstream_stream_error"@,
        502,
        status,
        header_ms,
        elapsed_ms,
        None,
        "upstream stream failed before first semantic token"@,
    )
}

/// Too much came without a token.
pub open spec fn prefix_overflow(
    status: u16,
    header_ms: i64,
    elapsed_ms: i64,
    reason: Seq<char>,
) -> FailureModel {
    token_failure(
        "prefix_buffer_overflow"@,
        504,
        status,
        header_ms,
        elapsed_ms,
        Some(reason),
        "SSE prefix exceeded buffer limit before first semantic token"@,
    )
}

/// The failure of an attempt whose upstream could not be reached.
pub fn send_failed() -> (failure: AttemptFailure)
    ensures
        failure@ == send_failure(),
{
    AttemptFailure {
        status: "upstream_error".to_string(),
        final_http_status: 502,
        upstream_http_status: None,
        response_header_ms: None,
        first_token_ms: None,
        timeout_reason: None,
        error_message: "upstream request failed".to_string(),
    }
}

/// The failure of an attempt whose upstream did not begin to answer in time.
pub fn header_timed_out() -> (failure: AttemptFailure)
    ensures
        failure@ == header_timeout(),
{
    AttemptFailure {
        status: "response_header_timeout".to_string(),
        final_http_status: 504,
        upstream_http_status: None,
        response_header_ms: None,
        first_token_ms: None,
        timeout_reason: Some("response_header_timeout".to_string()),
        error_message: "waiting for upstream response header timed out".to_string(),
    }
}

fn status_failed(status: u16, response_header_ms: i64) -> (failure: AttemptFailure)
    ensures
        failure@ == status_failure(status, response_header_ms),
{
    let number = decimal_text(status as i64);
    let mut text = "upstream_http_".to_string();
    text.append(number.as_str());
    let mut message = "upstream returned HTTP ".to_string();
    message.append(number.as_str());
    AttemptFailure {
        status: text,
        final_http_status: client_status(status),
        upstream_http_status: Some(status as i64),
        response_header_ms: Some(response_header_ms),
        first_token_ms: None,
        timeout_reason: None,
        error_message: message,
    }
}

pub(crate) fn token_failed(
    status: &str,
    final_http_status: u16,
    upstream_status: u16,
    response_header_ms: i64,
    elapsed_ms: i64,
    timeout_reason: Option<&str>,
    error_message: &str,
) -> (failure: AttemptFailure)
    ensures
        failure@ == token_failure(
            status@,
            final_http_status,
            upstream_status,
            response_header_ms,
            elapsed_ms,
            crate::text::opt_str(timeout_reason),
            error_message@,
        ),
{
    AttemptFailure {
        status: status.to_string(),
        final_http_status,
        upstream_http_status: Some(upstream_status as i64),
        response_header_ms: Some(response_header_ms),
        first_token_ms: Some(elapsed_ms),
        timeout_reason: match timeout_reason {
            Some(reason) => Some(reason.to_string()),
            None => None,
        },
        error_message: error_message.to_string(),
    }
}

/// A failure that counts as a timeout is answered with 504.
pub proof fn lemma_timeouts_are_gateway_timeouts(
    status: u16,
    header_ms: i64,
    elapsed_ms: i64,
    reason: Seq<char>,
)
    ensures
        header_timeout().timeout_reason is Some && header_timeout().final_http_status == 504,
        token_timeout(status, header_ms, elapsed_ms).timeout_reason is Some && token_timeout(
            status,
            header_ms,
            elapsed_ms,
        ).final_http_status == 504,
        token_missing(status, header_ms, elapsed_ms).timeout_reason is Some && token_missing(
            status,
            header_ms,
            elapsed_ms,
        ).final_http_status == 504,
        prefix_overflow(status, header_ms, elapsed_ms, reason).timeout_reason is Some
            && prefix_overflow(status, header_ms, elapsed_ms, reason).final_http_status == 504,
        send_failure().timeout_reason is None,
        stream_failure(status, header_ms, elapsed_ms).timeout_reason is None,
        status_failure(status, header_ms).timeout_reason is None,
{
}

/// How long to wait for an upstream to begin its answer, in milliseconds.
pub fn response_header_wait_ms(settings: &RuntimeSettings) -> (millis: u64)
    ensures
        millis == settings.response_header_timeout_ms as u64,
        settings.response_header_timeout_ms >= 0 ==> millis == settings.response_header_timeout_ms,
{
    settings.response_header_timeout_ms as u64
}

/// How long to wait for the first token of a stream, in milliseconds.
pub fn first_token_wait_ms(settings: &RuntimeSettings) -> (millis: u64)
    ensures
        millis == settings.first_token_timeout_ms as u64,
        settings.first_token_timeout_ms >= 0 ==> millis == settings.first_token_timeout_ms,
{
    settings.first_token_timeout_ms as u64
}

/// What the records say of an attempt whose answer goes to the client.
#[derive(Clone, Copy, Debug, PartialEq, Eq, Structural)]
pub struct Committed {
    pub http_status: i64,
    pub response_header_ms: i64,
    pub first_token_ms: Option<i64>,
    pub emitted_to_client: bool,
    pub records_deferred: bool,
}

// ---------------------------------------------------------------------------
// The whole attempt
// ---------------------------------------------------------------------------

/// What came of sending the request to the upstream.
#[derive(Debug)]
pub enum Sent<'a> {
    /// It could not be sent.
    Failed,
    /// No answer began in time.
    TimedOut,
    /// An answer began, with this status and these header lines.
    Answered { status: u16, headers: &'a HeaderMap },
}

/// What an attempt is, besides its upstream.
#[derive(Debug)]
pub struct AttemptRequest<'a> {
    pub request_body: &'a [u8],
    pub endpoint: EndpointKind,
    pub stream_record_context: Option<StreamRecordContext>,
}

/// The view of an optional context.
pub open spec fn stream_context_view(
    context: Option<StreamRecordContext>,
) -> Option<StreamContextModel> {
    match context {
        Some(context) => Some(context@),
        None => None,
    }
}

/// A stream of events that is held back until its first token.
#[derive(Debug)]
pub struct PendingStream {
    gate: SseGate,
    context: Option<StreamRecordContext>,
}

/// A stream that is held back, as a mathematical value.
pub struct PendingModel {
    pub gate: GateModel,
    pub context: Option<StreamContextModel>,
}

impl View for PendingStream {
    type V = PendingModel;

    closed spec fn view(&self) -> PendingModel {
        PendingModel { gate: self.gate@, context: stream_context_view(self.context) }
    }
}

/// Where an attempt stands.
#[derive(Debug)]
pub enum AttemptOutcome {
    /// It came to nothing; the client has seen none of it.
    RetryableFailure(AttemptFailure),
    /// Its answer goes to the client, with these lines.
    Committed {
        status: u16,
        headers: Vec<HeaderEntry>,
        committed: Committed,
        stream: FinalizedSseStream,
    },
    /// Its answer is a stream that is held back until its first token.
    AwaitToken { status: u16, headers: Vec<HeaderEntry>, pending: PendingStream },
}

/// Where an attempt stands, as a mathematical value.
pub enum OutcomeModel {
    RetryableFailure(FailureModel),
    Committed { status: u16, headers: Seq<Line>, committed: Committed, stream: RelayModel },
    AwaitToken { status: u16, headers: Seq<Line>, pending: PendingModel },
}

impl View for AttemptOutcome {
    type V = OutcomeModel;

    open spec fn view(&self) -> OutcomeModel {
        match self {
            AttemptOutcome::RetryableFailure(failure) => OutcomeModel::RetryableFailure(failure@),
            AttemptOutcome::Committed {
                status,
                headers,
                committed,
                stream,
            } => OutcomeModel::Committed {
                status: *status,
                headers: entry_views(headers@),
                committed: *committed,
                stream: stream@,
            },
            AttemptOutcome::AwaitToken { status, headers, pending } => OutcomeModel::AwaitToken {
                status: *status,
                headers: entry_views(headers@),
                pending: pending@,
            },
        }
    }
}

/// The summary of an answer that is committed to.
pub open spec fn commit_summary(
    context: Option<StreamContextModel>,
    status: u16,
    response_header_ms: i64,
    first_token_ms: Option<i64>,
) -> Committed {
    Committed {
        http_status: status as i64,
        response_header_ms,
        first_token_ms,
        emitted_to_client: first_token_ms is Some,
        records_deferred: context is Some,
    }
}

/// The stream of an answer that is committed to. Where the attempt is recorded,
/// its end is recorded once the stream has ended.
pub open spec fn commit_stream(
    context: Option<StreamContextModel>,
    status: u16,
    response_header_ms: i64,
    initial: Option<Seq<u8>>,
    first_token_ms: Option<i64>,
) -> RelayModel {
    RelayModel {
        initial,
        finalizer: match context {
            Some(context) => Some(
                FinalizerModel {
                    context,
                    http_status: status as i64,
                    response_header_ms,
                    first_token_ms,
                    emitted_to_client: false,
                },
            ),
            None => None,
        },
        finished: false,
    }
}

/// Where an attempt stands once an answer has begun.
pub open spec fn answered(
    status: u16,
    lines: Seq<Line>,
    endpoint: EndpointKind,
    context: Option<StreamContextModel>,
    response_header_ms: i64,
) -> OutcomeModel {
    if retryable_status(status) {
        OutcomeModel::RetryableFailure(status_failure(status, response_header_ms))
    } else if announces_events(lines) && success_status(status) {
        OutcomeModel::AwaitToken {
            status: carried_status(status),
            headers: passed(lines),
            pending: PendingModel {
                gate: GateModel {
                    endpoint,
                    http_status: status,
                    response_header_ms,
                    prefix: Seq::empty(),
                    pending: Seq::empty(),
                },
                context,
            },
        }
    } else {
        OutcomeModel::Committed {
            status: carried_status(status),
            headers: passed(lines),
            committed: commit_summary(context, status, response_header_ms, None),
            stream: commit_stream(context, status, response_header_ms, None, None),
        }
    }
}

/// After a status from 500 to 599, 408 or 429 the next attempt is made; after any
/// other it is not. The failure tells of that status.
pub proof fn lemma_retried_statuses(
    status: u16,
    lines: Seq<Line>,
    endpoint: EndpointKind,
    context: Option<StreamContextModel>,
    response_header_ms: i64,
)
    ensures
        answered(status, lines, endpoint, context, response_header_ms) is RetryableFailure <==> 500
            <= status <= 599 || status == 408 || status == 429,
        answered(status, lines, endpoint, context, response_header_ms) matches
            OutcomeModel::RetryableFailure(failure) ==> {
            &&& failure.final_http_status == status
            &&& failure.upstream_http_status == Some(status as i64)
            &&& failure.response_header_ms == Some(response_header_ms)
            &&& failure.first_token_ms is None
            &&& failure.timeout_reason is None
            &&& failure.status == "upstream_http_"@ + decimal(status as int)
            &&& failure.error_message == "upstream returned HTTP "@ + decimal(status as int)
        },
{
}

/// Whatever the interface, a stream of events that comes with a status from 200
/// to 299 is held back, with nothing of it received yet, and no other answer is.
pub proof fn lemma_event_streams_are_held_back(
    status: u16,
    lines: Seq<Line>,
    endpoint: EndpointKind,
    context: Option<StreamContextModel>,
    response_header_ms: i64,
)
    ensures
        ({
            let outcome = answered(status, lines, endpoint, context, response_header_ms);
            let values = values_named(lines, "content-type"@);
            let events = values.len() > 0 && (visible_text(values[0]) matches Some(text)
                && exists|at: int| occurs_at(lower(text), "text/event-stream"@, at));
            &&& outcome is AwaitToken <==> 200 <= status <= 299 && events
            &&& outcome matches OutcomeModel::AwaitToken { status: told, headers, pending } ==> {
                &&& told == status
                &&& headers == passed(lines)
                &&& pending.context == context
                &&& pending.gate.endpoint == endpoint
                &&& pending.gate.http_status == status
                &&& pending.gate.response_header_ms == response_header_ms
                &&& pending.gate.prefix.len() == 0
                &&& pending.gate.pending.len() == 0
            }
        }),
{
    lemma_events_are_announced_by_the_content_type(lines);
}

/// Any answer that is neither retried nor held back goes to the client as it is:
/// its status, where HTTP can carry it, and its lines, with nothing sent ahead.
pub proof fn lemma_other_answers_are_passed_on(
    status: u16,
    lines: Seq<Line>,
    endpoint: EndpointKind,
    context: Option<StreamContextModel>,
    response_header_ms: i64,
)
    ensures
        answered(status, lines, endpoint, context, response_header_ms) matches
            OutcomeModel::Committed { status: told, headers, committed, stream } ==> {
            &&& 100 <= status <= 999 ==> told == status
            &&& status < 100 || status > 999 ==> told == 502
            &&& headers == passed(lines)
            &&& committed.http_status == status
            &&& committed.response_header_ms == response_header_ms
            &&& committed.first_token_ms is None
            &&& !committed.emitted_to_client
            &&& committed.records_deferred == (context is Some)
            &&& stream.initial is None
            &&& !stream.finished
            &&& stream.finalizer is Some == context is Some
            &&& stream.finalizer matches Some(finalizer) ==> {
                &&& Some(finalizer.context) == context
                &&& finalizer.http_status == status
                &&& finalizer.response_header_ms == response_header_ms
                &&& finalizer.first_token_ms is None
                &&& !finalizer.emitted_to_client
            }
        },
{
}

/// How a failure is told: what went wrong before an answer began, and while the
/// first token was awaited.
pub proof fn lemma_failures_are_told_apart(
    status: u16,
    header_ms: i64,
    elapsed_ms: i64,
    reason: Seq<char>,
)
    ensures
        send_failure().status == "upstream_error"@ && send_failure().final_http_status == 502,
        header_timeout().status == "response_header_timeout"@ && header_timeout().timeout_reason
            == Some("response_header_timeout"@),
        token_timeout(status, header_ms, elapsed_ms).status == "first_token_timeout"@
            && token_timeout(status, header_ms, elapsed_ms).timeout_reason == Some(
            "first_token_timeout"@,
        ),
        token_missing(status, header_ms, elapsed_ms).status == "first_token_missing"@
            && token_missing(status, header_ms, elapsed_ms).timeout_reason == Some(
            "first_token_timeout"@,
        ),
        stream_failure(status, header_ms, elapsed_ms).status == "upstream_stream_error"@
            && stream_failure(status, header_ms, elapsed_ms).final_http_status == 502,
        prefix_overflow(status, header_ms, elapsed_ms, reason).status == "prefix_buffer_overflow"@
            && prefix_overflow(status, header_ms, elapsed_ms, reason).timeout_reason == Some(
            reason,
        ),
        send_failure().error_message == "upstream request failed"@,
        header_timeout().error_message == "waiting for upstream response header timed out"@,
        token_timeout(status, header_ms, elapsed_ms).error_message
            == "waiting for first semantic token timed out"@,
        token_missing(status, header_ms, elapsed_ms).error_message
            == "upstream SSE ended before first semantic token"@,
        stream_failure(status, header_ms, elapsed_ms).error_message
            == "upstream stream failed before first semantic token"@,
        prefix_overflow(status, header_ms, elapsed_ms, reason).error_message
            == "SSE prefix exceeded buffer limit before first semantic token"@,
{
}

/// A failure while the first token was awaited keeps what the upstream answered
/// and when; one before an answer began has nothing to keep.
pub proof fn lemma_failures_keep_the_times(
    status: u16,
    header_ms: i64,
    elapsed_ms: i64,
    reason: Seq<char>,
    failure: FailureModel,
)
    requires
        failure == token_timeout(status, header_ms, elapsed_ms) || failure == token_missing(
            status,
            header_ms,
            elapsed_ms,
        ) || failure == stream_failure(status, header_ms, elapsed_ms) || failure
            == prefix_overflow(status, header_ms, elapsed_ms, reason),
    ensures
        failure.upstream_http_status == Some(status as i64),
        failure.response_header_ms == Some(header_ms),
        failure.first_token_ms == Some(elapsed_ms),
        send_failure().upstream_http_status is None && header_timeout().upstream_http_status is None,
        send_failure().response_header_ms is None && header_timeout().response_header_ms is None,
        send_failure().first_token_ms is None && header_timeout().first_token_ms is None,
{
}

/// An answer that is committed to, with nothing of it recorded.
pub open spec fn undeferred(committed: Committed) -> Committed {
    Committed { records_deferred: false, ..committed }
}

impl OutcomeModel {
    /// Where the attempt stands, with nothing of it recorded.
    pub open spec fn unrecorded(self) -> OutcomeModel {
        match self {
            OutcomeModel::RetryableFailure(failure) => OutcomeModel::RetryableFailure(failure),
            OutcomeModel::Committed {
                status,
                headers,
                committed,
                stream,
            } => OutcomeModel::Committed {
                status,
                headers,
                committed: undeferred(committed),
                stream: RelayModel { finalizer: None, ..stream },
            },
            OutcomeModel::AwaitToken { status, headers, pending } => OutcomeModel::AwaitToken {
                status,
                headers,
                pending: PendingModel { context: None, ..pending },
            },
        }
    }
}

/// Whether an attempt is recorded changes nothing else about it: it fails for the
/// same reason, or is answered with the same status, lines and stream.
pub proof fn lemma_recording_does_not_change_the_attempt(
    status: u16,
    lines: Seq<Line>,
    endpoint: EndpointKind,
    context: Option<StreamContextModel>,
    response_header_ms: i64,
)
    ensures
        answered(status, lines, endpoint, context, response_header_ms).unrecorded() == answered(
            status,
            lines,
            endpoint,
            None,
            response_header_ms,
        ),
{
}

fn commit(
    context: Option<StreamRecordContext>,
    status: u16,
    response_header_ms: i64,
    initial: Option<Bytes>,
    first_token_ms: Option<i64>,
) -> (committed: (Committed, FinalizedSseStream))
    ensures
        committed.0 == commit_summary(
            stream_context_view(context),
            status,
            response_header_ms,
            first_token_ms,
        ),
        committed.1@ == commit_stream(
            stream_context_view(context),
            status,
            response_header_ms,
            match initial {
                Some(bytes) => Some(bytes_content(bytes)),
                None => None,
            },
            first_token_ms,
        ),
        committed.1@.well_formed(),
{
    let summary = Committed {
        http_status: status as i64,
        response_header_ms,
        first_token_ms,
        emitted_to_client: first_token_ms.is_some(),
        records_deferred: context.is_some(),
    };
    let finalizer = match context {
        Some(context) => Some(
            StreamFinalizer {
                context,
                http_status: status as i64,
                response_header_ms,
                first_token_ms,
                emitted_to_client: false,
            },
        ),
        None => None,
    };
    (summary, FinalizedSseStream::new(initial, finalizer))
}

/// Where an attempt stands once the request was sent, `response_header_ms`
/// after the attempt began. Only a successful stream of events is held back.
pub fn run(input: AttemptRequest<'_>, sent: Sent<'_>, response_header_ms: i64) -> (outcome:
    AttemptOutcome)
    ensures
        outcome@ == match sent {
            Sent::Failed => OutcomeModel::RetryableFailure(send_failure()),
            Sent::TimedOut => OutcomeModel::RetryableFailure(header_timeout()),
            Sent::Answered { status, headers } => answered(
                status,
                header_lines(*headers),
                input.endpoint,
                stream_context_view(input.stream_record_context),
                response_header_ms,
            ),
        },
        outcome matches AttemptOutcome::AwaitToken { pending, .. }
            ==> pending@.gate.within_limit(),
        sent matches Sent::Answered { status, .. } ==> (outcome is RetryableFailure <==> 500
            <= status <= 599 || status == 408 || status == 429),
        !(sent is Answered) ==> outcome is RetryableFailure,
        sent matches Sent::Answered { status, headers } ==> (outcome is AwaitToken <==> 200
            <= status <= 299 && announces_events(header_lines(*headers))),
{
    match sent {
        Sent::Failed => AttemptOutcome::RetryableFailure(send_failed()),
        Sent::TimedOut => AttemptOutcome::RetryableFailure(header_timed_out()),
        Sent::Answered { status, headers } => {
            if is_retryable_status(status) {
                return AttemptOutcome::RetryableFailure(status_failed(status, response_header_ms));
            }
            let is_sse = body::wants_stream(input.request_body) || is_sse_response(headers);
            let kept = response_headers(headers);
            let success = 200 <= status && status < 300;
            if is_sse && is_sse_response(headers) && success {
                AttemptOutcome::AwaitToken {
                    status: client_status(status),
                    headers: kept,
                    pending: PendingStream {
                        gate: SseGate::new(input.endpoint, status, response_header_ms),
                        context: input.stream_record_context,
                    },
                }
            } else {
                let (committed, stream) = commit(
                    input.stream_record_context,
                    status,
                    response_header_ms,
                    None,
                    None,
                );
                AttemptOutcome::Committed {
                    status: client_status(status),
                    headers: kept,
                    committed,
                    stream,
                }
            }
        },
    }
}

/// What to do with a stream that is held back.
#[derive(Debug)]
pub enum StreamStep {
    /// Wait for more.
    Wait(PendingStream),
    /// Send this stream to the client.
    Commit { committed: Committed, stream: FinalizedSseStream },
    /// Give this attempt up.
    Fail(AttemptFailure),
}

/// What to do, as a mathematical value.
pub enum StreamStepModel {
    Wait(PendingModel),
    Commit { committed: Committed, stream: RelayModel },
    Fail(FailureModel),
}

impl View for StreamStep {
    type V = StreamStepModel;

    open spec fn view(&self) -> StreamStepModel {
        match self {
            StreamStep::Wait(pending) => StreamStepModel::Wait(pending@),
            StreamStep::Commit { committed, stream } => StreamStepModel::Commit {
                committed: *committed,
                stream: stream@,
            },
            StreamStep::Fail(failure) => StreamStepModel::Fail(failure@),
        }
    }
}

impl PendingModel {
    /// What to do after `event`, `elapsed_ms` after the attempt began.
    pub open spec fn step(self, event: GateEventModel, elapsed_ms: i64) -> StreamStepModel {
        let status = self.gate.http_status;
        let header_ms = self.gate.response_header_ms;
        match self.gate.step(event, elapsed_ms) {
            GateStepModel::Wait(gate) => StreamStepModel::Wait(PendingModel { gate, ..self }),
            GateStepModel::Commit { initial, first_token_ms } => StreamStepModel::Commit {
                committed: commit_summary(self.context, status, header_ms, Some(first_token_ms)),
                stream: commit_stream(
                    self.context,
                    status,
                    header_ms,
                    Some(initial),
                    Some(first_token_ms),
                ),
            },
            GateStepModel::Fail(failure) => StreamStepModel::Fail(failure),
        }
    }
}

/// A stream that is held back goes to the client only once a token is among what
/// came, and then all that came is sent first.
pub proof fn lemma_held_stream_goes_on_with_a_token(
    pending: PendingModel,
    event: GateEventModel,
    elapsed_ms: i64,
)
    requires
        pending.gate.holds(),
    ensures
        pending.step(event, elapsed_ms) matches StreamStepModel::Commit { committed, stream } ==> {
            &&& event matches GateEventModel::Chunk(chunk) && {
                let all = pending.gate.prefix + pending.gate.pending + chunk;
                &&& stream.initial == Some(all)
                &&& exists|i: int|
                    0 <= i < frames(all).0.len() && semantic(
                        pending.gate.endpoint,
                        event_of(#[trigger] frames(all).0[i]),
                    )
            }
            &&& committed.http_status == pending.gate.http_status
            &&& committed.response_header_ms == pending.gate.response_header_ms
            &&& committed.first_token_ms == Some(elapsed_ms)
            &&& committed.emitted_to_client
            &&& committed.records_deferred == (pending.context is Some)
            &&& stream.finalizer is Some == pending.context is Some
            &&& stream.finalizer matches Some(finalizer) ==> {
                &&& Some(finalizer.context) == pending.context
                &&& finalizer.http_status == pending.gate.http_status
                &&& finalizer.response_header_ms == pending.gate.response_header_ms
                &&& finalizer.first_token_ms == Some(elapsed_ms)
            }
            &&& !stream.finished
        },
{
    if let GateEventModel::Chunk(chunk) = event {
        lemma_gate_opens_for_a_token_only(pending.gate, chunk, elapsed_ms);
        let all = pending.gate.received() + chunk;
        if !no_token(pending.gate.endpoint, frames(all).0) {
            let i = choose|i: int|
                0 <= i < frames(all).0.len() && semantic(
                    pending.gate.endpoint,
                    event_of(#[trigger] frames(all).0[i]),
                );
            assert(semantic(pending.gate.endpoint, event_of(frames(all).0[i])));
        }
    }
}

/// A token that is late, a stream that ends without one and a stream that breaks
/// before one fail the attempt, whatever came so far and whatever is recorded. A
/// stream that waits on keeps its record and all that came.
pub proof fn lemma_a_late_token_fails_the_attempt(
    pending: PendingModel,
    chunk: Seq<u8>,
    elapsed_ms: i64,
)
    requires
        pending.gate.holds(),
    ensures
        pending.step(GateEventModel::Deadline, elapsed_ms) matches StreamStepModel::Fail(failure)
            && failure.status == "first_token_timeout"@ && failure.final_http_status == 504
            && failure.timeout_reason == Some("first_token_timeout"@),
        pending.step(GateEventModel::StreamEnd, elapsed_ms) matches StreamStepModel::Fail(failure)
            && failure.status == "first_token_missing"@ && failure.final_http_status == 504
            && failure.timeout_reason == Some("first_token_timeout"@),
        pending.step(GateEventModel::StreamError, elapsed_ms) matches StreamStepModel::Fail(failure)
            && failure.status == "upstream_stream_error"@ && failure.final_http_status == 502
            && failure.timeout_reason is None,
        pending.step(GateEventModel::Chunk(chunk), elapsed_ms) matches StreamStepModel::Wait(next)
            ==> {
            &&& next.context == pending.context
            &&& next.gate.endpoint == pending.gate.endpoint
            &&& next.gate.http_status == pending.gate.http_status
            &&& next.gate.response_header_ms == pending.gate.response_header_ms
            &&& next.gate.prefix + next.gate.pending == pending.gate.prefix + pending.gate.pending
                + chunk
            &&& next.gate.holds()
        },
        pending.step(GateEventModel::Chunk(chunk), elapsed_ms) matches StreamStepModel::Fail(
            failure,
        ) ==> failure.status == "prefix_buffer_overflow"@ && failure.final_http_status == 504
            && pending.gate.prefix.len() + pending.gate.pending.len() + chunk.len() > 262144,
{
    lemma_gate_opens_for_a_token_only(pending.gate, chunk, elapsed_ms);
}

impl StreamStepModel {
    /// What to do, with nothing of it recorded.
    pub open spec fn unrecorded(self) -> StreamStepModel {
        match self {
            StreamStepModel::Wait(pending) => StreamStepModel::Wait(
                PendingModel { context: None, ..pending },
            ),
            StreamStepModel::Commit { committed, stream } => StreamStepModel::Commit {
                committed: undeferred(committed),
                stream: RelayModel { finalizer: None, ..stream },
            },
            StreamStepModel::Fail(failure) => StreamStepModel::Fail(failure),
        }
    }
}

/// Whether a stream is recorded does not change when it is let go, what of it is
/// sent first, or why it is given up.
pub proof fn lemma_recording_does_not_change_the_stream(
    pending: PendingModel,
    event: GateEventModel,
    elapsed_ms: i64,
)
    ensures
        pending.step(event, elapsed_ms).unrecorded() == (PendingModel {
            context: None,
            ..pending
        }).step(event, elapsed_ms),
{
}

/// What to do with a stream that is held back after `event`, `elapsed_ms` after
/// the attempt began.
pub fn prepare_sse_response(
    pending: PendingStream,
    event: GateEvent<'_>,
    elapsed_ms: i64,
) -> (step: StreamStep)
    requires
        pending@.gate.within_limit(),
        event@ matches GateEventModel::Chunk(chunk) ==> fits_buffer(
            PREFIX_BUFFER_LIMIT as nat + chunk.len(),
        ),
    ensures
        step@ == pending@.step(event@, elapsed_ms),
        step matches StreamStep::Wait(next) ==> next@.gate.within_limit(),
        step matches StreamStep::Commit { stream, .. } ==> stream@.well_formed(),
{
    let PendingStream { gate, context } = pending;
    let status = gate.http_status();
    let response_header_ms = gate.response_header_ms();
    match gate.step(event, elapsed_ms) {
        GateStep::Wait(gate) => StreamStep::Wait(PendingStream { gate, context }),
        GateStep::Commit { initial, first_token_ms } => {
            let (committed, stream) = commit(
                context,
                status,
                response_header_ms,
                Some(initial),
                Some(first_token_ms),
            );
            StreamStep::Commit { committed, stream }
        },
        GateStep::Fail(failure) => StreamStep::Fail(failure),
    }
}

}
