//! One request to the proxy, from its arrival to its answer: which layer takes
//! it, which upstreams are tried, what is answered, and what is recorded.
//!
//! A [`Session`] holds where a request stands. It is told what happened and
//! says what to record and what to do next; whoever runs it does just that.

use vstd::prelude::*;

use super::attempt::{
    commit_stream, commit_summary, undeferred, AttemptFailure, Committed, FailureModel,
};
use super::body::{body_model, extract_model, read_failure};
use super::direct::{context_view, DirectContextModel, RecordContext};
use super::errors::{error_reply, not_found, openai_error, Reply, ReplyModel};
use super::relay::{
    bytes_to_vec, completions, lemma_completions_append, lemma_stream_is_finished_once, ItemModel,
    StreamContextModel, StreamRecordContext,
};
use super::semantic_token::{endpoint_of, EndpointKind};
use crate::interop::random::{is_uuid_text, random_id};
use crate::recording::{
    event_models, request_of, CompleteRequest, CompleteRequestModel, EventModel,
    FinishAttemptRecord, RecordBodyChunk, RecordEvent,
};
use crate::runtime::RuntimeSnapshot;
use crate::storage::records::{
    FinishAttempt, FinishAttemptModel, NewAttemptModel, NewAttemptRecord, NewRequestModel,
    NewRequestRecord,
};
use crate::storage::settings::{attempt_limit, RuntimeSettings};
use crate::storage::upstreams::{upstream_views, Upstream, UpstreamModel};
use crate::text::{chars_of, copy_opt, opt_str, opt_text, same_text, starts_with_chars};

verus! {

// ---------------------------------------------------------------------------
// Paths and plans
// ---------------------------------------------------------------------------

/// The paths that belong to the proxy itself and are never forwarded.
pub open spec fn control_plane(path: Seq<char>) -> bool {
    ||| path == "/healthz"@
    ||| path == "/metrics"@
    ||| path == "/favicon.ico"@
    ||| path == "/admin"@
    ||| "/admin/"@.is_prefix_of(path)
    ||| path == "/static"@
    ||| "/static/"@.is_prefix_of(path)
    ||| "/.well-known/appspecific/"@.is_prefix_of(path)
}

/// Whether a path belongs to the proxy itself.
pub fn is_control_plane_path(path: &str) -> (found: bool)
    ensures
        found == control_plane(path@),
{
    let chars = chars_of(path);
    let admin = chars_of("/admin/");
    let assets = chars_of("/static/");
    let well_known = chars_of("/.well-known/appspecific/");
    same_text(path, "/healthz") || same_text(path, "/metrics") || same_text(path, "/favicon.ico")
        || same_text(path, "/admin") || starts_with_chars(chars.as_slice(), admin.as_slice())
        || same_text(path, "/static") || starts_with_chars(chars.as_slice(), assets.as_slice())
        || starts_with_chars(chars.as_slice(), well_known.as_slice())
}

/// How many attempts a request may take.
pub open spec fn plan_len(settings: RuntimeSettings, upstreams: nat) -> nat {
    if !settings.auto_retry_enabled || upstreams == 0 || attempt_limit(settings) == 0 {
        1
    } else {
        attempt_limit(settings) as nat
    }
}

/// Which upstream each attempt goes to: each of them in turn, over and over.
pub open spec fn attempt_plan(settings: RuntimeSettings, upstreams: nat) -> Seq<usize> {
    if !settings.auto_retry_enabled || upstreams == 0 {
        seq![0usize]
    } else {
        Seq::new(
            plan_len(settings, upstreams),
            |i: int| (i % upstreams as int) as usize,
        )
    }
}

/// Every attempt goes to an upstream that there is.
pub proof fn lemma_plan_stays_in_range(settings: RuntimeSettings, upstreams: nat, at: int)
    requires
        upstreams > 0,
        upstreams <= usize::MAX,
        0 <= at < attempt_plan(settings, upstreams).len(),
    ensures
        attempt_plan(settings, upstreams)[at] < upstreams,
        attempt_plan(settings, upstreams).len() == plan_len(settings, upstreams),
{
    assert(0 <= at % upstreams as int && at % upstreams as int <= upstreams - 1) by (nonlinear_arith)
        requires
            upstreams > 0,
            0 <= at,
    ;
}

/// With retrying switched off there is one attempt, whatever else is set.
pub proof fn lemma_no_retry_means_one_attempt(settings: RuntimeSettings, upstreams: nat)
    requires
        !settings.auto_retry_enabled,
    ensures
        attempt_plan(settings, upstreams) == seq![0usize],
        plan_len(settings, upstreams) == 1,
{
}

/// With retrying on, there are as many attempts as are set, at least one, and they
/// take the upstreams in turn, from the first on.
pub proof fn lemma_attempts_take_turns(settings: RuntimeSettings, upstreams: nat, at: int)
    requires
        settings.auto_retry_enabled,
        0 < upstreams <= usize::MAX,
        settings.max_attempts <= usize::MAX,
        0 <= at < attempt_plan(settings, upstreams).len(),
    ensures
        attempt_plan(settings, upstreams).len() == if settings.max_attempts >= 1 {
            settings.max_attempts as int
        } else {
            1
        },
        attempt_plan(settings, upstreams)[0] == 0,
        attempt_plan(settings, upstreams)[at] == at % (upstreams as int),
        plan_len(settings, upstreams) == attempt_plan(settings, upstreams).len(),
{
    lemma_plan_stays_in_range(settings, upstreams, at);
    lemma_plan_stays_in_range(settings, upstreams, 0);
    assert(0int % (upstreams as int) == 0) by (nonlinear_arith)
        requires
            upstreams > 0,
    ;
    assert(0 <= at % (upstreams as int) <= upstreams - 1) by (nonlinear_arith)
        requires
            upstreams > 0,
            0 <= at,
    ;
}

/// These paths, and whatever lies below three of them, belong to the proxy itself.
pub proof fn lemma_own_paths(rest: Seq<char>)
    ensures
        control_plane("/healthz"@) && control_plane("/metrics"@) && control_plane("/favicon.ico"@),
        control_plane("/admin"@) && control_plane("/static"@),
        control_plane("/admin/"@ + rest) && control_plane("/static/"@ + rest),
        control_plane("/.well-known/appspecific/"@ + rest),
{
    assert(("/admin/"@ + rest).subrange(0, "/admin/"@.len() as int) =~= "/admin/"@);
    assert(("/static/"@ + rest).subrange(0, "/static/"@.len() as int) =~= "/static/"@);
    assert(("/.well-known/appspecific/"@ + rest).subrange(
        0,
        "/.well-known/appspecific/"@.len() as int,
    ) =~= "/.well-known/appspecific/"@);
}

/// Any other path is forwarded.
pub proof fn lemma_other_paths_are_forwarded(path: Seq<char>)
    requires
        path != "/healthz"@ && path != "/metrics"@ && path != "/favicon.ico"@,
        path != "/admin"@ && path != "/static"@,
        !"/admin/"@.is_prefix_of(path) && !"/static/"@.is_prefix_of(path),
        !"/.well-known/appspecific/"@.is_prefix_of(path),
    ensures
        !control_plane(path),
{
}

/// Which upstream each attempt goes to.
pub fn build_attempt_plan(runtime_settings: &RuntimeSettings, upstreams: &[Upstream]) -> (plan: Vec<
    usize,
>)
    ensures
        plan@ == attempt_plan(*runtime_settings, upstreams@.len()),
{
    let mut plan: Vec<usize> = Vec::new();
    if !runtime_settings.auto_retry_enabled {
        plan.push(0);
        assert(plan@ =~= seq![0usize]);
        return plan;
    }
    let limit = runtime_settings.max_attempts_for_request();
    let count: usize = upstreams.len();
    if count == 0 {
        plan.push(0);
        assert(plan@ =~= seq![0usize]);
        return plan;
    }
    while plan.len() < limit
        invariant
            count > 0,
            plan@.len() <= limit,
            forall|i: int| 0 <= i < plan@.len() ==> plan@[i] == (i % count as int) as usize,
        decreases limit - plan@.len(),
    {
        let next: usize = plan.len() % count;
        plan.push(next);
    }
    if plan.len() == 0 {
        plan.push(0);
        assert(0int % count as int == 0) by (nonlinear_arith)
            requires
                count > 0,
        ;
    }
    assert(plan@ =~= attempt_plan(*runtime_settings, upstreams@.len()));
    plan
}

// ---------------------------------------------------------------------------
// What a session is about
// ---------------------------------------------------------------------------

/// A request, and what the proxy runs with while it is served.
#[derive(Debug)]
pub struct RequestCase {
    pub settings: RuntimeSettings,
    pub upstreams: Vec<Upstream>,
    pub request_id: String,
    pub method: String,
    pub endpoint: String,
    pub kind: EndpointKind,
}

/// A request as a mathematical value.
pub struct CaseModel {
    pub settings: RuntimeSettings,
    pub upstreams: Seq<UpstreamModel>,
    pub request_id: Seq<char>,
    pub method: Seq<char>,
    pub endpoint: Seq<char>,
    pub kind: EndpointKind,
}

impl View for RequestCase {
    type V = CaseModel;

    open spec fn view(&self) -> CaseModel {
        CaseModel {
            settings: self.settings,
            upstreams: upstream_views(self.upstreams@),
            request_id: self.request_id@,
            method: self.method@,
            endpoint: self.endpoint@,
            kind: self.kind,
        }
    }
}

/// Where a request stands.
#[derive(Debug)]
enum Phase {
    /// Its record was offered; it goes on without a body.
    OfferRequest,
    /// Its body is being read.
    AwaitBody,
    /// Its record was offered, together with its body.
    OfferBodyRequest { body: Vec<u8> },
    /// The record of its one direct attempt was offered.
    OfferDirectAttempt { attempt_id: String },
    /// The record of an attempt was offered.
    OfferAttempt { plan: Vec<usize>, index: usize, attempt_id: String },
    /// An attempt is under way.
    AwaitOutcome {
        plan: Vec<usize>,
        index: usize,
        recording: bool,
        attempt_id: Option<String>,
    },
    /// It is answered.
    Done,
}

/// Where a request stands, as a mathematical value.
pub enum PhaseModel {
    OfferRequest,
    AwaitBody,
    OfferBodyRequest { body: Seq<u8> },
    OfferDirectAttempt { attempt_id: Seq<char> },
    OfferAttempt { index: nat, attempt_id: Seq<char> },
    AwaitOutcome { index: nat, recording: bool, attempt_id: Option<Seq<char>> },
    Done,
}

/// A request that is being served.
#[derive(Debug)]
pub struct Session {
    case: RequestCase,
    phase: Phase,
}

/// A request that is being served, as a mathematical value.
pub struct SessionModel {
    pub case: CaseModel,
    pub phase: PhaseModel,
}

impl View for Session {
    type V = SessionModel;

    closed spec fn view(&self) -> SessionModel {
        SessionModel {
            case: self.case@,
            phase: match self.phase {
                Phase::OfferRequest => PhaseModel::OfferRequest,
                Phase::AwaitBody => PhaseModel::AwaitBody,
                Phase::OfferBodyRequest { body } => PhaseModel::OfferBodyRequest { body: body@ },
                Phase::OfferDirectAttempt { attempt_id } => PhaseModel::OfferDirectAttempt {
                    attempt_id: attempt_id@,
                },
                Phase::OfferAttempt { plan, index, attempt_id } => PhaseModel::OfferAttempt {
                    index: index as nat,
                    attempt_id: attempt_id@,
                },
                Phase::AwaitOutcome {
                    plan,
                    index,
                    recording,
                    attempt_id,
                } => PhaseModel::AwaitOutcome {
                    index: index as nat,
                    recording,
                    attempt_id: opt_text(attempt_id),
                },
                Phase::Done => PhaseModel::Done,
            },
        }
    }
}

// ---------------------------------------------------------------------------
// What happens and what to do
// ---------------------------------------------------------------------------

/// What happened to a request.
#[derive(Debug)]
pub enum Event {
    /// The offered record was taken, or was not.
    Offered(bool),
    /// The whole body was read.
    BodyRead(Vec<u8>),
    /// The body could not be read to its end, for this reason.
    BodyFailed(String),
    /// The attempt came to nothing before its upstream was contacted.
    Broken,
    /// The attempt's answer is ready to be sent.
    Committed(Committed),
    /// The attempt came to nothing.
    Failed(AttemptFailure),
}

/// What happened, as a mathematical value.
pub enum HappeningModel {
    Offered(bool),
    BodyRead(Seq<u8>),
    BodyFailed(Seq<char>),
    Broken,
    Committed(Committed),
    Failed(FailureModel),
}

impl View for Event {
    type V = HappeningModel;

    open spec fn view(&self) -> HappeningModel {
        match self {
            Event::Offered(taken) => HappeningModel::Offered(*taken),
            Event::BodyRead(body) => HappeningModel::BodyRead(body@),
            Event::BodyFailed(error) => HappeningModel::BodyFailed(error@),
            Event::Broken => HappeningModel::Broken,
            Event::Committed(committed) => HappeningModel::Committed(*committed),
            Event::Failed(failure) => HappeningModel::Failed(failure@),
        }
    }
}

/// What to do for a request.
#[derive(Debug)]
pub enum Action {
    /// Answer it.
    Respond(Reply),
    /// Offer this record, and report whether it was taken.
    Offer(RecordEvent),
    /// Read its whole body.
    ReadBody,
    /// Forward it directly to this upstream, which ends the session.
    PassDirect { upstream: usize, context: Option<RecordContext> },
    /// Try this upstream.
    Attempt { upstream: usize, context: Option<StreamRecordContext> },
    /// Send the answer that the attempt has ready.
    Deliver,
    /// Nothing: what happened does not concern the request any more.
    Ignore,
}

/// What to do, as a mathematical value.
pub enum ActionModel {
    Respond(ReplyModel),
    Offer(EventModel),
    ReadBody,
    PassDirect { upstream: int, context: Option<DirectContextModel> },
    Attempt { upstream: int, context: Option<StreamContextModel> },
    Deliver,
    Ignore,
}

impl View for Action {
    type V = ActionModel;

    open spec fn view(&self) -> ActionModel {
        match self {
            Action::Respond(reply) => ActionModel::Respond(reply@),
            Action::Offer(event) => ActionModel::Offer(event@),
            Action::ReadBody => ActionModel::ReadBody,
            Action::PassDirect { upstream, context } => ActionModel::PassDirect {
                upstream: *upstream as int,
                context: context_view(*context),
            },
            Action::Attempt { upstream, context } => ActionModel::Attempt {
                upstream: *upstream as int,
                context: match context {
                    Some(context) => Some(context@),
                    None => None,
                },
            },
            Action::Deliver => ActionModel::Deliver,
            Action::Ignore => ActionModel::Ignore,
        }
    }
}

/// What to record, and then what to do.
#[derive(Debug)]
pub struct Step {
    pub records: Vec<RecordEvent>,
    pub action: Action,
}

/// What to record and to do, as a mathematical value.
pub struct StepModel {
    pub records: Seq<EventModel>,
    pub action: ActionModel,
}

impl View for Step {
    type V = StepModel;

    open spec fn view(&self) -> StepModel {
        StepModel { records: event_models(self.records@), action: self.action@ }
    }
}

impl StepModel {
    /// The same step with `records` recorded first.
    pub open spec fn after(self, records: Seq<EventModel>) -> StepModel {
        StepModel { records: records + self.records, action: self.action }
    }
}

// ---------------------------------------------------------------------------
// The rules
// ---------------------------------------------------------------------------

/// The failure of an attempt that came to nothing before its upstream was contacted.
pub open spec fn broken_failure() -> FailureModel {
    FailureModel {
        status: "proxy_attempt_error"@,
        final_http_status: 502,
        upstream_http_status: None,
        response_header_ms: None,
        first_token_ms: None,
        timeout_reason: None,
        error_message: "proxy attempt failed before contacting upstream"@,
    }
}

/// What a request is recorded as that succeeds at its `index`-th retry.
pub open spec fn success_name(index: nat) -> Seq<char> {
    if index > 0 {
        "retried_success"@
    } else {
        "success"@
    }
}

/// What a request is recorded as whose last attempt failed with `failure`.
pub open spec fn exhausted_name(failure: FailureModel) -> Seq<char> {
    if failure.timeout_reason is Some {
        "exhausted_timeout"@
    } else {
        "exhausted_failure"@
    }
}

impl CaseModel {
    /// The request stands at `phase`, with nothing to record and `action` to do.
    pub open spec fn go(self, phase: PhaseModel, action: ActionModel) -> (SessionModel, StepModel) {
        (SessionModel { case: self, phase }, StepModel { records: Seq::empty(), action })
    }

    /// The record of the request.
    pub open spec fn record(self, model: Option<Seq<char>>) -> EventModel {
        EventModel::CreateRequest(
            NewRequestModel {
                id: self.request_id,
                method: self.method,
                endpoint: self.endpoint,
                model,
            },
        )
    }

    /// The end of the request.
    pub open spec fn completed(
        self,
        status: Seq<char>,
        upstream_name: Option<Seq<char>>,
        attempt_count: int,
        final_http_status: i64,
        error_message: Option<Seq<char>>,
    ) -> EventModel {
        EventModel::CompleteRequest(
            CompleteRequestModel {
                request_id: self.request_id,
                status,
                upstream_name,
                attempt_count,
                final_http_status: Some(final_http_status),
                error_message,
            },
        )
    }

    /// The upstream of the attempt `index`.
    pub open spec fn upstream_at(self, index: nat) -> int {
        attempt_plan(self.settings, self.upstreams.len())[index as int] as int
    }

    /// The record of the attempt `index`.
    pub open spec fn attempt_record(self, index: nat, upstream: int, id: Seq<char>) -> EventModel {
        EventModel::CreateAttempt(
            NewAttemptModel {
                id,
                request_id: self.request_id,
                attempt_index: index as int + 1,
                upstream_id: Some(self.upstreams[upstream].id as i64),
                upstream_name: self.upstreams[upstream].name,
            },
        )
    }

    /// A request on the path `path` has arrived.
    pub open spec fn begin(self, path: Seq<char>) -> (SessionModel, StepModel) {
        if control_plane(path) {
            self.go(
                PhaseModel::Done,
                ActionModel::Respond(ReplyModel { status: 404, json: false, body: Seq::empty() }),
            )
        } else if self.settings.policy_enabled && self.upstreams.len() > 0 {
            self.go(PhaseModel::AwaitBody, ActionModel::ReadBody)
        } else if self.settings.request_record_enabled {
            self.go(PhaseModel::OfferRequest, ActionModel::Offer(self.record(None)))
        } else {
            self.request_offered(false, Seq::empty())
        }
    }

    /// The request goes on without a body; its record was taken, or was not.
    pub open spec fn request_offered(
        self,
        taken: bool,
        id: Seq<char>,
    ) -> (SessionModel, StepModel) {
        if self.upstreams.len() == 0 {
            let reply = error_reply(503, "no_upstream"@, "no upstream configured"@);
            let (session, step) = self.go(PhaseModel::Done, ActionModel::Respond(reply));
            (
                session,
                step.after(
                    if taken {
                        seq![
                            self.completed(
                                "no_upstream"@,
                                None,
                                0,
                                503,
                                Some("no upstream configured"@),
                            ),
                            EventModel::SaveResponseBody {
                                request_id: self.request_id,
                                body: reply.body,
                            },
                        ]
                    } else {
                        Seq::empty()
                    },
                ),
            )
        } else if taken {
            self.go(
                PhaseModel::OfferDirectAttempt { attempt_id: id },
                ActionModel::Offer(self.attempt_record(0, 0, id)),
            )
        } else {
            self.go(PhaseModel::Done, ActionModel::PassDirect { upstream: 0, context: None })
        }
    }

    /// The request is forwarded directly; the record of its attempt was taken, or was not.
    pub open spec fn direct_offered(self, taken: bool, id: Seq<char>) -> (SessionModel, StepModel) {
        self.go(
            PhaseModel::Done,
            ActionModel::PassDirect {
                upstream: 0,
                context: Some(
                    DirectContextModel {
                        request_id: self.request_id,
                        attempt_id: if taken {
                            Some(id)
                        } else {
                            None
                        },
                        upstream_name: self.upstreams[0].name,
                        endpoint: self.kind,
                    },
                ),
            },
        )
    }

    /// The body of the request was read.
    pub open spec fn body_read(self, body: Seq<u8>, id: Seq<char>) -> (SessionModel, StepModel) {
        if self.settings.request_record_enabled {
            self.go(
                PhaseModel::OfferBodyRequest { body },
                ActionModel::Offer(self.record(body_model(body))),
            )
        } else {
            self.try_attempt(0, false, id)
        }
    }

    /// The body of the request could not be read to its end.
    pub open spec fn body_failed(self, error: Seq<char>) -> (SessionModel, StepModel) {
        self.go(
            PhaseModel::Done,
            ActionModel::Respond(
                error_reply(
                    400,
                    "invalid_request_body"@,
                    "failed to read request body: "@ + error,
                ),
            ),
        )
    }

    /// The record of the request, with its body, was taken, or was not.
    pub open spec fn body_offered(
        self,
        body: Seq<u8>,
        taken: bool,
        id: Seq<char>,
    ) -> (SessionModel, StepModel) {
        let (session, step) = self.try_attempt(0, taken, id);
        (
            session,
            step.after(
                if taken {
                    seq![EventModel::SaveRequestBody { request_id: self.request_id, body }]
                } else {
                    Seq::empty()
                },
            ),
        )
    }

    /// The attempt `index` comes next.
    pub open spec fn try_attempt(
        self,
        index: nat,
        recording: bool,
        id: Seq<char>,
    ) -> (SessionModel, StepModel) {
        if recording {
            self.go(
                PhaseModel::OfferAttempt { index, attempt_id: id },
                ActionModel::Offer(self.attempt_record(index, self.upstream_at(index), id)),
            )
        } else {
            self.run_attempt(index, false, None)
        }
    }

    /// The attempt `index` is made, and recorded under `attempt_id`.
    pub open spec fn run_attempt(
        self,
        index: nat,
        recording: bool,
        attempt_id: Option<Seq<char>>,
    ) -> (SessionModel, StepModel) {
        let upstream = self.upstream_at(index);
        self.go(
            PhaseModel::AwaitOutcome { index, recording, attempt_id },
            ActionModel::Attempt {
                upstream,
                context: match attempt_id {
                    Some(attempt_id) => Some(
                        StreamContextModel {
                            request_id: self.request_id,
                            attempt_id,
                            request_status_on_success: success_name(index),
                            upstream_name: self.upstreams[upstream].name,
                            attempt_count: index as int + 1,
                        },
                    ),
                    None => None,
                },
            },
        )
    }

    /// The answer of the attempt `index` is ready.
    pub open spec fn committed(
        self,
        index: nat,
        recording: bool,
        attempt_id: Option<Seq<char>>,
        committed: Committed,
    ) -> (SessionModel, StepModel) {
        let (session, step) = self.go(PhaseModel::Done, ActionModel::Deliver);
        let attempt = match attempt_id {
            Some(attempt_id) if !committed.records_deferred => seq![
                EventModel::FinishAttempt {
                    attempt_id,
                    update: FinishAttemptModel {
                        status: "success"@,
                        http_status: Some(committed.http_status),
                        response_header_ms: Some(committed.response_header_ms),
                        first_token_ms: committed.first_token_ms,
                        timeout_reason: None,
                        error_message: None,
                        emitted_to_client: committed.emitted_to_client,
                    },
                },
            ],
            _ => Seq::empty(),
        };
        let request = if recording && !committed.records_deferred {
            seq![
                self.completed(
                    success_name(index),
                    Some(self.upstreams[self.upstream_at(index)].name),
                    index as int + 1,
                    committed.http_status,
                    None,
                ),
            ]
        } else {
            Seq::empty()
        };
        (session, step.after(attempt + request))
    }

    /// The attempt `index` came to nothing.
    pub open spec fn failed(
        self,
        index: nat,
        recording: bool,
        attempt_id: Option<Seq<char>>,
        failure: FailureModel,
        id: Seq<char>,
    ) -> (SessionModel, StepModel) {
        let attempt = match attempt_id {
            Some(attempt_id) => seq![
                EventModel::FinishAttempt {
                    attempt_id,
                    update: FinishAttemptModel {
                        status: failure.status,
                        http_status: failure.upstream_http_status,
                        response_header_ms: failure.response_header_ms,
                        first_token_ms: failure.first_token_ms,
                        timeout_reason: failure.timeout_reason,
                        error_message: Some(failure.error_message),
                        emitted_to_client: false,
                    },
                },
            ],
            None => Seq::empty(),
        };
        let (session, step) = if index + 1 < plan_len(self.settings, self.upstreams.len()) {
            self.try_attempt(index + 1, recording, id)
        } else {
            self.give_up(index, recording, failure)
        };
        (session, step.after(attempt))
    }

    /// The last attempt, `index`, came to nothing.
    pub open spec fn give_up(
        self,
        index: nat,
        recording: bool,
        failure: FailureModel,
    ) -> (SessionModel, StepModel) {
        let reply = error_reply(failure.final_http_status, failure.status, failure.error_message);
        let (session, step) = self.go(PhaseModel::Done, ActionModel::Respond(reply));
        (
            session,
            step.after(
                if recording {
                    seq![
                        self.completed(
                            exhausted_name(failure),
                            Some(self.upstreams[self.upstream_at(index)].name),
                            index as int + 1,
                            failure.final_http_status as i64,
                            Some(failure.error_message),
                        ),
                        EventModel::SaveResponseBody {
                            request_id: self.request_id,
                            body: reply.body,
                        },
                    ]
                } else {
                    Seq::empty()
                },
            ),
        )
    }
}

impl SessionModel {
    /// What to do after `event`, with `id` at hand for a new attempt. What does
    /// not concern the phase changes nothing.
    pub open spec fn next(
        self,
        event: HappeningModel,
        id: Seq<char>,
    ) -> (SessionModel, StepModel) {
        let case = self.case;
        match (self.phase, event) {
            (PhaseModel::OfferRequest, HappeningModel::Offered(taken)) => case.request_offered(
                taken,
                id,
            ),
            (
                PhaseModel::OfferDirectAttempt { attempt_id },
                HappeningModel::Offered(taken),
            ) => case.direct_offered(taken, attempt_id),
            (PhaseModel::AwaitBody, HappeningModel::BodyRead(body)) => case.body_read(body, id),
            (PhaseModel::AwaitBody, HappeningModel::BodyFailed(error)) => case.body_failed(error),
            (PhaseModel::OfferBodyRequest { body }, HappeningModel::Offered(taken)) => {
                case.body_offered(body, taken, id)
            },
            (PhaseModel::OfferAttempt { index, attempt_id }, HappeningModel::Offered(taken)) => {
                case.run_attempt(
                    index,
                    true,
                    if taken {
                        Some(attempt_id)
                    } else {
                        None
                    },
                )
            },
            (
                PhaseModel::AwaitOutcome { index, recording, attempt_id },
                HappeningModel::Committed(committed),
            ) => case.committed(index, recording, attempt_id, committed),
            (
                PhaseModel::AwaitOutcome { index, recording, attempt_id },
                HappeningModel::Failed(failure),
            ) => case.failed(index, recording, attempt_id, failure, id),
            (
                PhaseModel::AwaitOutcome { index, recording, attempt_id },
                HappeningModel::Broken,
            ) => case.failed(index, recording, attempt_id, broken_failure(), id),
            _ => (self, StepModel { records: Seq::empty(), action: ActionModel::Ignore }),
        }
    }
}

impl SessionModel {
    /// An attempt, or a request that will lead to one, has an upstream to go to
    /// and a place in the plan.
    pub open spec fn well_formed(self) -> bool {
        let upstreams = self.case.upstreams.len();
        let attempts = plan_len(self.case.settings, upstreams);
        match self.phase {
            PhaseModel::OfferRequest => true,
            PhaseModel::AwaitBody => upstreams > 0,
            PhaseModel::OfferBodyRequest { .. } => upstreams > 0,
            PhaseModel::OfferDirectAttempt { .. } => upstreams > 0,
            PhaseModel::OfferAttempt { index, .. } => upstreams > 0 && index < attempts,
            PhaseModel::AwaitOutcome { index, .. } => upstreams > 0 && index < attempts,
            PhaseModel::Done => true,
        }
    }
}

impl Session {
    /// The session stands where a session can stand, and its plan is that of
    /// its settings.
    pub closed spec fn well_formed(self) -> bool {
        &&& self@.well_formed()
        &&& match self.phase {
            Phase::OfferAttempt { plan, .. } => plan@ == attempt_plan(
                self.case.settings,
                self.case.upstreams@.len(),
            ),
            Phase::AwaitOutcome { plan, .. } => plan@ == attempt_plan(
                self.case.settings,
                self.case.upstreams@.len(),
            ),
            _ => true,
        }
    }
}

// ---------------------------------------------------------------------------
// Laws
// ---------------------------------------------------------------------------

/// A request for one of the proxy's own paths is answered as not found, and
/// neither forwarded nor recorded.
pub proof fn lemma_control_plane_is_never_forwarded(case: CaseModel, path: Seq<char>)
    requires
        control_plane(path),
    ensures
        case.begin(path).0.phase is Done,
        case.begin(path).1.records.len() == 0,
        case.begin(path).1.action matches ActionModel::Respond(reply) && reply.status == 404
            && reply.body.len() == 0,
{
}

/// Without an upstream a request is answered with 503 and its body is never
/// read, whichever layer takes it and whether or not it is recorded.
pub proof fn lemma_no_upstream_is_unavailable(
    case: CaseModel,
    path: Seq<char>,
    taken: bool,
    id: Seq<char>,
)
    requires
        !control_plane(path),
        case.upstreams.len() == 0,
    ensures
        !case.settings.request_record_enabled ==> case.begin(path).1.action == ActionModel::Respond(
            error_reply(503, "no_upstream"@, "no upstream configured"@),
        ),
        case.settings.request_record_enabled ==> {
            let (session, step) = case.begin(path);
            &&& step.action is Offer
            &&& session.next(HappeningModel::Offered(taken), id).1.action
                == ActionModel::Respond(
                error_reply(503, "no_upstream"@, "no upstream configured"@),
            )
        },
{
}

/// With the policy switched off no body is read and no attempt is watched: the
/// request goes straight to the first upstream.
pub proof fn lemma_policy_off_passes_directly(
    case: CaseModel,
    path: Seq<char>,
    request_taken: bool,
    attempt_taken: bool,
    id: Seq<char>,
    other: Seq<char>,
)
    requires
        !control_plane(path),
        case.upstreams.len() > 0,
        !case.settings.policy_enabled,
    ensures
        !case.settings.request_record_enabled ==> case.begin(path).1.action
            == (ActionModel::PassDirect { upstream: 0, context: None }),
        case.settings.request_record_enabled ==> {
            let offered = case.begin(path).0.next(HappeningModel::Offered(request_taken), id);
            if request_taken {
                offered.0.next(HappeningModel::Offered(attempt_taken), other).1.action matches
                    ActionModel::PassDirect { upstream, context } && upstream == 0 && context is Some
            } else {
                offered.1.action == (ActionModel::PassDirect { upstream: 0, context: None })
            }
        },
{
}

/// With the policy on and an upstream configured, the whole body is read before
/// anything else is done.
pub proof fn lemma_policy_on_reads_the_body(case: CaseModel, path: Seq<char>)
    requires
        !control_plane(path),
        case.upstreams.len() > 0,
        case.settings.policy_enabled,
    ensures
        case.begin(path).1.action is ReadBody,
        case.begin(path).1.records.len() == 0,
        case.begin(path).0.phase is AwaitBody,
        case.begin(path).0.case == case,
{
}

/// A request is put on record as it came: before it is passed on directly without
/// its model, and otherwise with the model that its body asks for.
pub proof fn lemma_a_request_is_recorded_as_it_came(
    case: CaseModel,
    path: Seq<char>,
    body: Seq<u8>,
    id: Seq<char>,
)
    requires
        !control_plane(path),
        case.settings.request_record_enabled,
    ensures
        !case.settings.policy_enabled || case.upstreams.len() == 0 ==> case.begin(path).1.action
            == ActionModel::Offer(
            EventModel::CreateRequest(
                NewRequestModel {
                    id: case.request_id,
                    method: case.method,
                    endpoint: case.endpoint,
                    model: None,
                },
            ),
        ) && case.begin(path).1.records.len() == 0,
        (SessionModel { case, phase: PhaseModel::AwaitBody }).next(
            HappeningModel::BodyRead(body),
            id,
        ).1.action == ActionModel::Offer(
            EventModel::CreateRequest(
                NewRequestModel {
                    id: case.request_id,
                    method: case.method,
                    endpoint: case.endpoint,
                    model: body_model(body),
                },
            ),
        ),
        (SessionModel { case, phase: PhaseModel::AwaitBody }).next(
            HappeningModel::BodyRead(body),
            id,
        ).1.records.len() == 0,
{
}

/// Once its record is taken, the body of a request is saved whole and its first
/// attempt is put on record. If the record is not taken, nothing of the request
/// is recorded, and its first attempt is made.
pub proof fn lemma_a_taken_request_saves_its_body(
    case: CaseModel,
    body: Seq<u8>,
    taken: bool,
    id: Seq<char>,
)
    ensures
        ({
            let offered = SessionModel { case, phase: PhaseModel::OfferBodyRequest { body } };
            let (next, step) = offered.next(HappeningModel::Offered(taken), id);
            let first = attempt_plan(case.settings, case.upstreams.len())[0] as int;
            if taken {
                &&& step.records == seq![
                    EventModel::SaveRequestBody { request_id: case.request_id, body },
                ]
                &&& step.action == ActionModel::Offer(
                    EventModel::CreateAttempt(
                        NewAttemptModel {
                            id,
                            request_id: case.request_id,
                            attempt_index: 1,
                            upstream_id: Some(case.upstreams[first].id as i64),
                            upstream_name: case.upstreams[first].name,
                        },
                    ),
                )
                &&& next.phase == (PhaseModel::OfferAttempt { index: 0, attempt_id: id })
            } else {
                &&& step.records.len() == 0
                &&& step.action == (ActionModel::Attempt { upstream: first, context: None })
                &&& next.phase == (PhaseModel::AwaitOutcome {
                    index: 0,
                    recording: false,
                    attempt_id: None,
                })
            }
        }),
{
    let offered = SessionModel { case, phase: PhaseModel::OfferBodyRequest { body } };
    let (next, step) = offered.next(HappeningModel::Offered(taken), id);
    if taken {
        assert(step.records =~= seq![
            EventModel::SaveRequestBody { request_id: case.request_id, body },
        ]);
    }
}

/// An attempt on record is made at the upstream that the plan names for it, and
/// its stream is recorded under its identifier if its record was taken.
pub proof fn lemma_an_offered_attempt_is_made(
    case: CaseModel,
    index: nat,
    attempt_id: Seq<char>,
    taken: bool,
    id: Seq<char>,
)
    ensures
        ({
            let offered = SessionModel {
                case,
                phase: PhaseModel::OfferAttempt { index, attempt_id },
            };
            let (next, step) = offered.next(HappeningModel::Offered(taken), id);
            let upstream = attempt_plan(case.settings, case.upstreams.len())[index as int] as int;
            &&& step.records.len() == 0
            &&& step.action matches ActionModel::Attempt { upstream: to, context } && {
                &&& to == upstream
                &&& context is Some == taken
                &&& context matches Some(context) ==> {
                    &&& context.request_id == case.request_id
                    &&& context.attempt_id == attempt_id
                    &&& context.upstream_name == case.upstreams[upstream].name
                    &&& context.attempt_count == index + 1
                    &&& index == 0 ==> context.request_status_on_success == "success"@
                    &&& index > 0 ==> context.request_status_on_success == "retried_success"@
                }
            }
            &&& next.phase == (PhaseModel::AwaitOutcome {
                index,
                recording: true,
                attempt_id: if taken {
                    Some(attempt_id)
                } else {
                    None
                },
            })
        }),
{
}

/// The record of a failed attempt tells all that is known of the failure, and that
/// the client saw none of it. It comes before anything else is done.
pub proof fn lemma_a_failed_attempt_is_recorded(
    session: SessionModel,
    index: nat,
    recording: bool,
    attempt_id: Seq<char>,
    failure: FailureModel,
    id: Seq<char>,
)
    requires
        session.phase == (PhaseModel::AwaitOutcome {
            index,
            recording,
            attempt_id: Some(attempt_id),
        }),
    ensures
        ({
            let (next, step) = session.next(HappeningModel::Failed(failure), id);
            &&& step.records.len() > 0
            &&& step.records[0] matches EventModel::FinishAttempt { attempt_id: ended, update } && {
                &&& ended == attempt_id
                &&& update.status == failure.status
                &&& update.http_status == failure.upstream_http_status
                &&& update.response_header_ms == failure.response_header_ms
                &&& update.first_token_ms == failure.first_token_ms
                &&& update.timeout_reason == failure.timeout_reason
                &&& update.error_message == Some(failure.error_message)
                &&& !update.emitted_to_client
            }
        }),
{
}

/// An attempt that came to nothing before its upstream was contacted is a failure
/// of the proxy's own, answered as a bad gateway and not counted as a timeout.
pub proof fn lemma_a_broken_attempt_is_a_failure(session: SessionModel, id: Seq<char>)
    requires
        session.phase is AwaitOutcome,
    ensures
        session.next(HappeningModel::Broken, id) == session.next(
            HappeningModel::Failed(broken_failure()),
            id,
        ),
        broken_failure().status == "proxy_attempt_error"@,
        broken_failure().final_http_status == 502,
        broken_failure().timeout_reason is None,
        broken_failure().upstream_http_status is None,
        broken_failure().response_header_ms is None,
        broken_failure().first_token_ms is None,
        broken_failure().error_message == "proxy attempt failed before contacting upstream"@,
{
}

/// While attempts are left, the next one goes to the next upstream of the plan,
/// and is put on record first if the request is.
pub proof fn lemma_the_next_attempt_follows_the_plan(
    session: SessionModel,
    index: nat,
    recording: bool,
    attempt_id: Option<Seq<char>>,
    failure: FailureModel,
    id: Seq<char>,
)
    requires
        session.phase == (PhaseModel::AwaitOutcome { index, recording, attempt_id }),
        index + 1 < plan_len(session.case.settings, session.case.upstreams.len()),
    ensures
        ({
            let case = session.case;
            let (next, step) = session.next(HappeningModel::Failed(failure), id);
            let upstream = attempt_plan(case.settings, case.upstreams.len())[index as int + 1] as int;
            &&& !recording ==> step.action == (ActionModel::Attempt { upstream, context: None })
            &&& recording ==> step.action == ActionModel::Offer(
                EventModel::CreateAttempt(
                    NewAttemptModel {
                        id,
                        request_id: case.request_id,
                        attempt_index: index as int + 2,
                        upstream_id: Some(case.upstreams[upstream].id as i64),
                        upstream_name: case.upstreams[upstream].name,
                    },
                ),
            )
            &&& step.records.len() == if attempt_id is Some {
                1nat
            } else {
                0nat
            }
        }),
{
}

/// When the last attempt of a recorded request fails, the request ends on record
/// with that failure, the upstream of that attempt and the number of attempts, and
/// what the client is told is saved as its response.
pub proof fn lemma_a_failed_request_ends_on_record(
    session: SessionModel,
    index: nat,
    attempt_id: Option<Seq<char>>,
    failure: FailureModel,
    id: Seq<char>,
)
    requires
        session.phase == (PhaseModel::AwaitOutcome { index, recording: true, attempt_id }),
        index + 1 >= plan_len(session.case.settings, session.case.upstreams.len()),
    ensures
        ({
            let case = session.case;
            let (next, step) = session.next(HappeningModel::Failed(failure), id);
            let upstream = attempt_plan(case.settings, case.upstreams.len())[index as int] as int;
            let last = step.records.len() - 1;
            &&& last >= 1
            &&& step.action matches ActionModel::Respond(reply) && step.records[last] == (
            EventModel::SaveResponseBody { request_id: case.request_id, body: reply.body })
            &&& step.records[last - 1] matches EventModel::CompleteRequest(end) && {
                &&& end.request_id == case.request_id
                &&& failure.timeout_reason is Some ==> end.status == "exhausted_timeout"@
                &&& failure.timeout_reason is None ==> end.status == "exhausted_failure"@
                &&& end.upstream_name == Some(case.upstreams[upstream].name)
                &&& end.attempt_count == index + 1
                &&& end.final_http_status == Some(failure.final_http_status as i64)
                &&& end.error_message == Some(failure.error_message)
            }
        }),
{
}

/// When an answer is delivered whose end is not recorded with its stream, the
/// attempt, if it is on record, and the request end there and then, as successes.
pub proof fn lemma_a_delivered_answer_ends_on_record(
    session: SessionModel,
    index: nat,
    attempt_id: Option<Seq<char>>,
    committed: Committed,
    id: Seq<char>,
)
    requires
        session.phase == (PhaseModel::AwaitOutcome { index, recording: true, attempt_id }),
    ensures
        ({
            let case = session.case;
            let (next, step) = session.next(HappeningModel::Committed(committed), id);
            let upstream = attempt_plan(case.settings, case.upstreams.len())[index as int] as int;
            &&& step.action is Deliver
            &&& next.phase is Done
            &&& committed.records_deferred ==> step.records.len() == 0
            &&& !committed.records_deferred ==> {
                let last = step.records.len() - 1;
                &&& step.records.len() == if attempt_id is Some {
                    2nat
                } else {
                    1nat
                }
                &&& attempt_id matches Some(attempt_id) ==> (step.records[0] matches
                    EventModel::FinishAttempt { attempt_id: ended, update } && {
                    &&& ended == attempt_id
                    &&& update.status == "success"@
                    &&& update.http_status == Some(committed.http_status)
                    &&& update.response_header_ms == Some(committed.response_header_ms)
                    &&& update.first_token_ms == committed.first_token_ms
                    &&& update.timeout_reason is None
                    &&& update.error_message is None
                    &&& update.emitted_to_client == committed.emitted_to_client
                })
                &&& step.records[last] matches EventModel::CompleteRequest(end) && {
                    &&& end.request_id == case.request_id
                    &&& index == 0 ==> end.status == "success"@
                    &&& index > 0 ==> end.status == "retried_success"@
                    &&& end.upstream_name == Some(case.upstreams[upstream].name)
                    &&& end.attempt_count == index + 1
                    &&& end.final_http_status == Some(committed.http_status)
                    &&& end.error_message is None
                }
            }
        }),
{
}

/// A body that could not be read is a bad request: it is told why, and nothing of
/// it is recorded or forwarded.
pub proof fn lemma_an_unreadable_body_is_refused(
    session: SessionModel,
    error: Seq<char>,
    id: Seq<char>,
)
    requires
        session.phase is AwaitBody,
    ensures
        ({
            let (next, step) = session.next(HappeningModel::BodyFailed(error), id);
            &&& step.records.len() == 0
            &&& step.action == ActionModel::Respond(
                error_reply(
                    400,
                    "invalid_request_body"@,
                    "failed to read request body: "@ + error,
                ),
            )
            &&& next.phase is Done
        }),
{
}

/// A request without an upstream ends on record, if it is on record, as one that
/// was answered with 503, and that answer is saved.
pub proof fn lemma_an_unavailable_proxy_is_recorded(
    session: SessionModel,
    taken: bool,
    id: Seq<char>,
)
    requires
        session.phase is OfferRequest,
        session.case.upstreams.len() == 0,
    ensures
        ({
            let (next, step) = session.next(HappeningModel::Offered(taken), id);
            let reply = error_reply(503, "no_upstream"@, "no upstream configured"@);
            &&& step.action == ActionModel::Respond(reply)
            &&& !taken ==> step.records.len() == 0
            &&& taken ==> step.records == seq![
                EventModel::CompleteRequest(
                    CompleteRequestModel {
                        request_id: session.case.request_id,
                        status: "no_upstream"@,
                        upstream_name: None,
                        attempt_count: 0,
                        final_http_status: Some(503i64),
                        error_message: Some("no upstream configured"@),
                    },
                ),
                EventModel::SaveResponseBody {
                    request_id: session.case.request_id,
                    body: reply.body,
                },
            ]
        }),
{
    let (next, step) = session.next(HappeningModel::Offered(taken), id);
    let reply = error_reply(503, "no_upstream"@, "no upstream configured"@);
    if taken {
        assert(step.records =~= seq![
            EventModel::CompleteRequest(
                CompleteRequestModel {
                    request_id: session.case.request_id,
                    status: "no_upstream"@,
                    upstream_name: None,
                    attempt_count: 0,
                    final_http_status: Some(503i64),
                    error_message: Some("no upstream configured"@),
                },
            ),
            EventModel::SaveResponseBody { request_id: session.case.request_id, body: reply.body },
        ]);
    }
}

/// A request that is passed on directly has one attempt, at the first upstream. It
/// is put on record if the request is, and the answer is recorded under it if its
/// record was taken.
pub proof fn lemma_a_direct_attempt_is_recorded(
    case: CaseModel,
    taken: bool,
    id: Seq<char>,
    other: Seq<char>,
)
    requires
        case.upstreams.len() > 0,
    ensures
        ({
            let asked = SessionModel { case, phase: PhaseModel::OfferRequest };
            let (offered, step) = asked.next(HappeningModel::Offered(true), id);
            let (passed, last) = offered.next(HappeningModel::Offered(taken), other);
            &&& step.records.len() == 0 && last.records.len() == 0
            &&& step.action == ActionModel::Offer(
                EventModel::CreateAttempt(
                    NewAttemptModel {
                        id,
                        request_id: case.request_id,
                        attempt_index: 1,
                        upstream_id: Some(case.upstreams[0].id as i64),
                        upstream_name: case.upstreams[0].name,
                    },
                ),
            )
            &&& passed.phase is Done
            &&& last.action matches ActionModel::PassDirect { upstream, context } && {
                &&& upstream == 0
                &&& context matches Some(context) && {
                    &&& context.request_id == case.request_id
                    &&& context.attempt_id == if taken {
                        Some(id)
                    } else {
                        None
                    }
                    &&& context.upstream_name == case.upstreams[0].name
                    &&& context.endpoint == case.kind
                }
            }
        }),
{
}

/// Wherever a session stands, it still stands where a session can after
/// whatever happens.
pub proof fn lemma_sessions_stay_well_formed(
    session: SessionModel,
    event: HappeningModel,
    id: Seq<char>,
)
    requires
        session.well_formed(),
    ensures
        session.next(event, id).0.well_formed(),
        session.next(event, id).0.case == session.case,
{
    lemma_plan_fits(session.case.settings, session.case.upstreams.len());
}

/// A request is answered once: after its answer nothing that happens is
/// recorded or acted on.
pub proof fn lemma_answered_once(session: SessionModel, event: HappeningModel, id: Seq<char>)
    requires
        session.phase is Done,
    ensures
        session.next(event, id).0 == session,
        session.next(event, id).1.records.len() == 0,
        session.next(event, id).1.action is Ignore,
{
}

/// Whatever ends a session (an answer of the proxy's own, an answer of an
/// upstream, or forwarding directly) leaves it done.
pub proof fn lemma_answer_ends_session(session: SessionModel, event: HappeningModel, id: Seq<char>)
    ensures
        ({
            let (next, step) = session.next(event, id);
            step.action is Respond || step.action is Deliver || step.action is PassDirect
                ==> next.phase is Done
        }),
{
}

/// What a session does as `events` happen one after the other, with `ids` at
/// hand for its attempts.
pub open spec fn run(
    session: SessionModel,
    events: Seq<HappeningModel>,
    ids: Seq<Seq<char>>,
) -> Seq<StepModel>
    decreases events.len(),
{
    if events.len() == 0 || ids.len() == 0 {
        Seq::empty()
    } else {
        let (next, step) = session.next(events[0], ids[0]);
        seq![step] + run(next, events.skip(1), ids.skip(1))
    }
}

/// How many of `steps` try an upstream.
pub open spec fn attempts_in(steps: Seq<StepModel>) -> nat
    decreases steps.len(),
{
    if steps.len() == 0 {
        0
    } else {
        attempts_in(steps.skip(1)) + if steps[0].action is Attempt {
            1nat
        } else {
            0nat
        }
    }
}

/// How many attempts a session has left.
pub open spec fn attempts_left(session: SessionModel) -> nat {
    let attempts = plan_len(session.case.settings, session.case.upstreams.len());
    match session.phase {
        PhaseModel::AwaitBody => attempts,
        PhaseModel::OfferBodyRequest { .. } => attempts,
        PhaseModel::OfferAttempt { index, .. } => (attempts - index) as nat,
        PhaseModel::AwaitOutcome { index, .. } => (attempts - index - 1) as nat,
        _ => 0,
    }
}

proof fn lemma_attempts_are_counted(
    session: SessionModel,
    events: Seq<HappeningModel>,
    ids: Seq<Seq<char>>,
)
    requires
        session.well_formed(),
    ensures
        attempts_in(run(session, events, ids)) <= attempts_left(session),
    decreases events.len(),
{
    if events.len() > 0 && ids.len() > 0 {
        let (next, step) = session.next(events[0], ids[0]);
        lemma_sessions_stay_well_formed(session, events[0], ids[0]);
        lemma_attempts_are_counted(next, events.skip(1), ids.skip(1));
        let steps = run(session, events, ids);
        assert(steps[0] == step);
        assert(steps.skip(1) =~= run(next, events.skip(1), ids.skip(1)));
        lemma_plan_fits(session.case.settings, session.case.upstreams.len());
    }
}

/// Whatever happens, a request never takes more attempts than it may, and none
/// at all with the policy switched off.
pub proof fn lemma_attempts_are_bounded(
    case: CaseModel,
    path: Seq<char>,
    events: Seq<HappeningModel>,
    ids: Seq<Seq<char>>,
)
    ensures
        attempts_in(run(case.begin(path).0, events, ids)) <= plan_len(
            case.settings,
            case.upstreams.len(),
        ),
        !case.settings.policy_enabled ==> attempts_in(run(case.begin(path).0, events, ids)) == 0,
{
    lemma_attempts_are_counted(case.begin(path).0, events, ids);
}

/// How many more things have to happen to a request, at most, until it is answered.
pub open spec fn steps_left(session: SessionModel) -> nat {
    let attempts = plan_len(session.case.settings, session.case.upstreams.len());
    match session.phase {
        PhaseModel::OfferRequest => 2,
        PhaseModel::OfferDirectAttempt { .. } => 1,
        PhaseModel::AwaitBody => 2 * attempts + 2,
        PhaseModel::OfferBodyRequest { .. } => 2 * attempts + 1,
        PhaseModel::OfferAttempt { index, .. } => (2 * (attempts - index)) as nat,
        PhaseModel::AwaitOutcome { index, .. } => (2 * (attempts - index) - 1) as nat,
        PhaseModel::Done => 0,
    }
}

/// No request is left hanging: whatever concerns it brings it nearer to its
/// answer, and what does not concern it changes nothing.
pub proof fn lemma_every_step_leads_on(session: SessionModel, event: HappeningModel, id: Seq<char>)
    requires
        session.well_formed(),
    ensures
        ({
            let (next, step) = session.next(event, id);
            if step.action is Ignore {
                next == session && step.records.len() == 0
            } else {
                steps_left(next) < steps_left(session)
            }
        }),
        steps_left(session) == 0 <==> session.phase is Done,
{
    lemma_plan_fits(session.case.settings, session.case.upstreams.len());
}

/// Attempts are made one after the other: while one is under way, only its
/// failure leads to the next.
pub proof fn lemma_attempts_do_not_overlap(
    session: SessionModel,
    event: HappeningModel,
    id: Seq<char>,
)
    requires
        session.phase is AwaitOutcome,
        !(event is Failed) && !(event is Broken),
    ensures
        !(session.next(event, id).1.action is Attempt),
        !(session.next(event, id).1.action is Offer),
        event is Committed || session.next(event, id).0 == session,
{
}

/// Nothing of a session is recorded.
pub open spec fn unrecorded(step: StepModel) -> bool {
    &&& step.records.len() == 0
    &&& !(step.action is Offer)
    &&& step.action matches ActionModel::PassDirect { context, .. } ==> context is None
    &&& step.action matches ActionModel::Attempt { context, .. } ==> context is None
}

/// A session of which nothing was or will be recorded.
pub open spec fn unrecorded_phase(phase: PhaseModel) -> bool {
    match phase {
        PhaseModel::AwaitBody => true,
        PhaseModel::AwaitOutcome { recording, attempt_id, .. } => !recording && attempt_id is None,
        PhaseModel::Done => true,
        _ => false,
    }
}

proof fn lemma_unrecorded_run(
    session: SessionModel,
    events: Seq<HappeningModel>,
    ids: Seq<Seq<char>>,
    at: int,
)
    requires
        !session.case.settings.request_record_enabled,
        unrecorded_phase(session.phase),
        0 <= at < run(session, events, ids).len(),
    ensures
        unrecorded(run(session, events, ids)[at]),
    decreases events.len(),
{
    let (next, step) = session.next(events[0], ids[0]);
    let steps = run(session, events, ids);
    assert(steps[0] == step);
    if at > 0 {
        lemma_unrecorded_run(next, events.skip(1), ids.skip(1), at - 1);
        assert(steps[at] == run(next, events.skip(1), ids.skip(1))[at - 1]);
    }
}

/// With recording switched off nothing is ever recorded: not the request, not
/// an attempt, and not the stream of an answer.
pub proof fn lemma_recording_off_records_nothing(
    case: CaseModel,
    path: Seq<char>,
    events: Seq<HappeningModel>,
    ids: Seq<Seq<char>>,
    at: int,
)
    requires
        !case.settings.request_record_enabled,
        0 <= at < run(case.begin(path).0, events, ids).len(),
    ensures
        unrecorded(case.begin(path).1),
        unrecorded(run(case.begin(path).0, events, ids)[at]),
{
    lemma_unrecorded_run(case.begin(path).0, events, ids, at);
}

impl CaseModel {
    /// The same request with recording switched off.
    pub open spec fn off_record(self) -> CaseModel {
        CaseModel {
            settings: RuntimeSettings { request_record_enabled: false, ..self.settings },
            ..self
        }
    }
}

/// What a step does besides recording, if anything.
pub open spec fn deed(step: StepModel) -> Seq<ActionModel> {
    match step.action {
        ActionModel::Offer(_) => Seq::empty(),
        ActionModel::Ignore => Seq::empty(),
        ActionModel::PassDirect { upstream, .. } => seq![
            ActionModel::PassDirect { upstream, context: None },
        ],
        ActionModel::Attempt { upstream, .. } => seq![
            ActionModel::Attempt { upstream, context: None },
        ],
        action => seq![action],
    }
}

/// What `steps` do besides recording, in order.
pub open spec fn deeds(steps: Seq<StepModel>) -> Seq<ActionModel>
    decreases steps.len(),
{
    if steps.len() == 0 {
        Seq::empty()
    } else {
        deed(steps[0]) + deeds(steps.skip(1))
    }
}

/// What happened besides the taking of records, in order.
pub open spec fn outcomes(events: Seq<HappeningModel>) -> Seq<HappeningModel>
    decreases events.len(),
{
    if events.len() == 0 {
        Seq::empty()
    } else if events[0] is Offered {
        outcomes(events.skip(1))
    } else {
        seq![events[0]] + outcomes(events.skip(1))
    }
}

/// Whether the same happened, but for when an answer is to be recorded.
pub open spec fn same_outcome(left: HappeningModel, right: HappeningModel) -> bool {
    match (left, right) {
        (HappeningModel::Committed(left), HappeningModel::Committed(right)) => undeferred(left)
            == undeferred(right),
        _ => left == right,
    }
}

/// Whether the same happened each time.
pub open spec fn same_outcomes(
    left: Seq<HappeningModel>,
    right: Seq<HappeningModel>,
) -> bool {
    &&& left.len() == right.len()
    &&& forall|i: int| 0 <= i < left.len() ==> same_outcome(#[trigger] left[i], right[i])
}

/// Whether each of `steps` answers something that its session waited for.
pub open spec fn attended(steps: Seq<StepModel>) -> bool {
    forall|i: int| 0 <= i < steps.len() ==> !((#[trigger] steps[i]).action is Ignore)
}

/// Where a session stands after `events`.
pub open spec fn after_all(
    session: SessionModel,
    events: Seq<HappeningModel>,
    ids: Seq<Seq<char>>,
) -> SessionModel
    decreases events.len(),
{
    if events.len() == 0 || ids.len() == 0 {
        session
    } else {
        after_all(session.next(events[0], ids[0]).0, events.skip(1), ids.skip(1))
    }
}

/// Whether a session waits for a record to be taken.
pub open spec fn offering(session: SessionModel) -> bool {
    match session.phase {
        PhaseModel::OfferRequest => true,
        PhaseModel::OfferBodyRequest { .. } => true,
        PhaseModel::OfferDirectAttempt { .. } => true,
        PhaseModel::OfferAttempt { .. } => true,
        _ => false,
    }
}

/// Where the same request stands with recording switched off.
spec fn quiet(session: SessionModel) -> SessionModel {
    SessionModel {
        case: session.case.off_record(),
        phase: match session.phase {
            PhaseModel::AwaitBody => PhaseModel::AwaitBody,
            PhaseModel::OfferBodyRequest { .. } => PhaseModel::AwaitOutcome {
                index: 0,
                recording: false,
                attempt_id: None,
            },
            PhaseModel::OfferAttempt { index, .. } => PhaseModel::AwaitOutcome {
                index,
                recording: false,
                attempt_id: None,
            },
            PhaseModel::AwaitOutcome { index, .. } => PhaseModel::AwaitOutcome {
                index,
                recording: false,
                attempt_id: None,
            },
            _ => PhaseModel::Done,
        },
    }
}

/// What is done once the offered record is taken or not. With recording switched
/// off it is done already.
spec fn put_off(session: SessionModel) -> Seq<ActionModel> {
    match session.phase {
        PhaseModel::OfferRequest => deed(session.case.request_offered(false, Seq::empty()).1),
        PhaseModel::OfferDirectAttempt { .. } => deed(
            session.case.direct_offered(false, Seq::empty()).1,
        ),
        PhaseModel::OfferBodyRequest { .. } => deed(session.case.run_attempt(0, false, None).1),
        PhaseModel::OfferAttempt { index, .. } => deed(
            session.case.run_attempt(index, false, None).1,
        ),
        _ => Seq::empty(),
    }
}

#[verifier::rlimit(60)]
proof fn lemma_quiet_step(
    session: SessionModel,
    event: HappeningModel,
    id: Seq<char>,
    outcome: HappeningModel,
    other: Seq<char>,
)
    requires
        !(session.next(event, id).1.action is Ignore),
        same_outcome(event, outcome),
    ensures
        ({
            let (next, step) = session.next(event, id);
            let (still, unseen) = quiet(session).next(outcome, other);
            &&& offering(session) <==> event is Offered
            &&& event is Offered ==> quiet(next) == quiet(session) && deed(step) + put_off(next)
                == put_off(session)
            &&& !(event is Offered) ==> still == quiet(next) && deed(step) + put_off(next) == deed(
                unseen,
            )
        }),
{
    let (next, step) = session.next(event, id);
    let (still, unseen) = quiet(session).next(outcome, other);
    let case = session.case;
    assert(attempt_plan(case.off_record().settings, case.upstreams.len()) =~= attempt_plan(
        case.settings,
        case.upstreams.len(),
    ));
    if event is Offered {
        assert(deed(step) + put_off(next) =~= put_off(session));
    } else {
        assert(deed(step) + put_off(next) =~= deed(unseen));
    }
}

proof fn lemma_quiet_run(
    session: SessionModel,
    events: Seq<HappeningModel>,
    ids: Seq<Seq<char>>,
    others: Seq<HappeningModel>,
    other_ids: Seq<Seq<char>>,
)
    requires
        events.len() <= ids.len(),
        others.len() <= other_ids.len(),
        same_outcomes(outcomes(events), others),
        attended(run(session, events, ids)),
    ensures
        deeds(run(session, events, ids)) + put_off(after_all(session, events, ids)) == put_off(
            session,
        ) + deeds(run(quiet(session), others, other_ids)),
    decreases events.len(),
{
    let steps = run(session, events, ids);
    if events.len() == 0 {
        assert(deeds(steps) + put_off(session) =~= put_off(session) + Seq::<ActionModel>::empty());
    } else {
        let (next, step) = session.next(events[0], ids[0]);
        let rest = run(next, events.skip(1), ids.skip(1));
        assert(steps[0] == step);
        assert(steps.skip(1) =~= rest);
        assert forall|i: int| 0 <= i < rest.len() implies !((
        #[trigger] rest[i]).action is Ignore) by {
            assert(rest[i] == steps[i + 1]);
        }
        let last = put_off(after_all(session, events, ids));
        if events[0] is Offered {
            lemma_quiet_step(session, events[0], ids[0], events[0], ids[0]);
            lemma_quiet_run(next, events.skip(1), ids.skip(1), others, other_ids);
            let seen = deeds(run(quiet(session), others, other_ids));
            assert(deeds(steps) + last =~= deed(step) + (deeds(rest) + last));
            assert(deed(step) + (put_off(next) + seen) =~= (deed(step) + put_off(next)) + seen);
        } else {
            let told = outcomes(events);
            assert(told[0] == events[0]);
            assert(told.skip(1) =~= outcomes(events.skip(1)));
            assert(same_outcome(told[0], others[0]));
            assert forall|i: int| 0 <= i < told.skip(1).len() implies same_outcome(
                #[trigger] told.skip(1)[i],
                others.skip(1)[i],
            ) by {
                assert(same_outcome(told[i + 1], others[i + 1]));
            }
            lemma_quiet_step(session, events[0], ids[0], others[0], other_ids[0]);
            lemma_quiet_run(next, events.skip(1), ids.skip(1), others.skip(1), other_ids.skip(1));
            let (still, unseen) = quiet(session).next(others[0], other_ids[0]);
            let quiet_steps = run(quiet(session), others, other_ids);
            let quiet_rest = run(still, others.skip(1), other_ids.skip(1));
            assert(quiet_steps[0] == unseen);
            assert(quiet_steps.skip(1) =~= quiet_rest);
            assert(deeds(steps) + last =~= deed(step) + (deeds(rest) + last));
            assert(deed(step) + (put_off(next) + deeds(quiet_rest)) =~= (deed(step) + put_off(next))
                + deeds(quiet_rest));
            assert(put_off(session) + deeds(quiet_steps) =~= deeds(quiet_steps));
        }
    }
}

/// Whether a request is recorded does not change how it is served. If the same
/// happens with recording switched off, whether or not the offered records were
/// taken, the same upstreams are asked in the same order and the client gets the
/// same answer: all that is done is the same unless a record is still on offer,
/// and then nothing else is done before.
pub proof fn lemma_recording_does_not_change_the_answer(
    case: CaseModel,
    path: Seq<char>,
    events: Seq<HappeningModel>,
    ids: Seq<Seq<char>>,
    others: Seq<HappeningModel>,
    other_ids: Seq<Seq<char>>,
)
    requires
        events.len() <= ids.len(),
        others.len() <= other_ids.len(),
        same_outcomes(outcomes(events), others),
        attended(run(case.begin(path).0, events, ids)),
    ensures
        ({
            let (session, step) = case.begin(path);
            let (other, other_step) = case.off_record().begin(path);
            let done = deeds(seq![step] + run(session, events, ids));
            let done_off_record = deeds(seq![other_step] + run(other, others, other_ids));
            &&& done.is_prefix_of(done_off_record)
            &&& !offering(after_all(session, events, ids)) ==> done == done_off_record
        }),
{
    let (session, step) = case.begin(path);
    let (other, other_step) = case.off_record().begin(path);
    let steps = run(session, events, ids);
    let other_steps = run(other, others, other_ids);
    lemma_quiet_run(session, events, ids, others, other_ids);
    assert(other == quiet(session));
    assert(deed(step) + put_off(session) =~= deed(other_step));
    assert((seq![step] + steps).skip(1) =~= steps);
    assert((seq![other_step] + other_steps).skip(1) =~= other_steps);
    let last = put_off(after_all(session, events, ids));
    assert((deed(step) + deeds(steps)) + last =~= deed(step) + (deeds(steps) + last));
    assert(deed(step) + (put_off(session) + deeds(other_steps)) =~= deed(other_step) + deeds(
        other_steps,
    ));
    let done = deeds(seq![step] + steps);
    let done_off_record = deeds(seq![other_step] + other_steps);
    assert(done + last =~= done_off_record);
    assert(done =~= done_off_record.take(done.len() as int));
    if !offering(after_all(session, events, ids)) {
        assert(last =~= Seq::empty());
        assert(done =~= done_off_record);
    }
}

/// Whether a step sends the client an answer.
pub open spec fn is_answer(step: StepModel) -> bool {
    step.action is Respond || step.action is Deliver || step.action is PassDirect
}

/// How many of `steps` send the client an answer.
pub open spec fn answers_in(steps: Seq<StepModel>) -> nat
    decreases steps.len(),
{
    if steps.len() == 0 {
        0
    } else {
        answers_in(steps.skip(1)) + if is_answer(steps[0]) {
            1nat
        } else {
            0nat
        }
    }
}

/// How often `steps` record the end of a request.
pub open spec fn completions_in(steps: Seq<StepModel>) -> nat
    decreases steps.len(),
{
    if steps.len() == 0 {
        0
    } else {
        completions_in(steps.skip(1)) + completions(steps[0].records)
    }
}

proof fn lemma_three_records(records: Seq<EventModel>)
    requires
        records.len() <= 3,
    ensures
        completions(records) == ended(records, 0) + ended(records, 1) + ended(records, 2),
{
    reveal_with_fuel(completions, 4);
    if records.len() > 0 {
        assert(records.drop_last().len() == records.len() - 1);
        if records.len() > 1 {
            assert(records.drop_last().last() == records[records.len() - 2]);
            assert(records.drop_last().drop_last().len() == records.len() - 2);
            if records.len() > 2 {
                assert(records.drop_last().drop_last().last() == records[records.len() - 3]);
            }
        }
    }
}

spec fn ended(records: Seq<EventModel>, at: int) -> nat {
    if at < records.len() && records[at] is CompleteRequest {
        1
    } else {
        0
    }
}

proof fn lemma_only_an_answer_ends(session: SessionModel, event: HappeningModel, id: Seq<char>)
    ensures
        ({
            let (next, step) = session.next(event, id);
            &&& completions(step.records) <= 1
            &&& completions(step.records) == 1 ==> is_answer(step)
            &&& is_answer(step) ==> next.phase is Done
            &&& session.phase is Done ==> !is_answer(step) && next.phase is Done
        }),
{
    let (next, step) = session.next(event, id);
    lemma_three_records(step.records);
}

/// Whatever happens, a request is answered at most once, and its end is recorded
/// at most once.
pub proof fn lemma_one_answer_per_request(
    session: SessionModel,
    events: Seq<HappeningModel>,
    ids: Seq<Seq<char>>,
)
    ensures
        answers_in(run(session, events, ids)) <= 1,
        completions_in(run(session, events, ids)) <= 1,
        session.phase is Done ==> answers_in(run(session, events, ids)) == 0 && completions_in(
            run(session, events, ids),
        ) == 0,
    decreases events.len(),
{
    if events.len() > 0 && ids.len() > 0 {
        let (next, step) = session.next(events[0], ids[0]);
        lemma_only_an_answer_ends(session, events[0], ids[0]);
        lemma_one_answer_per_request(next, events.skip(1), ids.skip(1));
        let steps = run(session, events, ids);
        assert(steps[0] == step);
        assert(steps.skip(1) =~= run(next, events.skip(1), ids.skip(1)));
    }
}

/// Whether a session's request is on record.
pub open spec fn on_record(session: SessionModel) -> bool {
    match session.phase {
        PhaseModel::OfferAttempt { .. } => true,
        PhaseModel::AwaitOutcome { recording, .. } => recording,
        _ => false,
    }
}

/// When the attempts of a recorded request are used up, or its answer is
/// delivered without a recorder, its end is recorded there and then, once.
pub proof fn lemma_recorded_requests_end(session: SessionModel, event: HappeningModel, id: Seq<char>)
    requires
        session.phase is AwaitOutcome,
        on_record(session),
    ensures
        ({
            let (next, step) = session.next(event, id);
            &&& step.action is Respond ==> completions(step.records) == 1
            &&& step.action is Deliver && !(event->Committed_0.records_deferred) ==> completions(
                step.records,
            ) == 1
            &&& step.action is Offer || step.action is Attempt ==> completions(step.records) == 0
        }),
{
    let (next, step) = session.next(event, id);
    lemma_three_records(step.records);
}

/// A recorded request whose answer is delivered ends on record exactly once,
/// however the stream of the answer goes on: either there and then, or with the
/// stream where that is recorded.
pub proof fn lemma_delivered_request_ends_once(
    session: SessionModel,
    index: nat,
    attempt_id: Option<Seq<char>>,
    status: u16,
    response_header_ms: i64,
    initial: Option<Seq<u8>>,
    first_token_ms: Option<i64>,
    items: Seq<ItemModel>,
    id: Seq<char>,
)
    requires
        session.phase == (PhaseModel::AwaitOutcome { index, recording: true, attempt_id }),
    ensures
        ({
            let context = session.case.run_attempt(index, true, attempt_id).1.action->Attempt_context;
            let committed = commit_summary(context, status, response_header_ms, first_token_ms);
            let stream = commit_stream(context, status, response_header_ms, initial, first_token_ms);
            let (next, step) = session.next(HappeningModel::Committed(committed), id);
            let (opened, first) = stream.open();
            &&& step.action is Deliver
            &&& completions(step.records) + completions(first + opened.recorded(items)) == 1
        }),
{
    let context = session.case.run_attempt(index, true, attempt_id).1.action->Attempt_context;
    let committed = commit_summary(context, status, response_header_ms, first_token_ms);
    let stream = commit_stream(context, status, response_header_ms, initial, first_token_ms);
    let (next, step) = session.next(HappeningModel::Committed(committed), id);
    let (opened, first) = stream.open();
    lemma_three_records(step.records);
    lemma_three_records(first);
    lemma_completions_append(first, opened.recorded(items));
    lemma_stream_is_finished_once(opened, items);
}

/// Whatever a session records or offers is about its own request.
pub proof fn lemma_records_name_the_request(
    session: SessionModel,
    event: HappeningModel,
    id: Seq<char>,
    at: int,
)
    ensures
        0 <= at < session.next(event, id).1.records.len() ==> (request_of(
            session.next(event, id).1.records[at],
        ) matches Some(name) ==> name == session.case.request_id),
        session.next(event, id).1.action matches ActionModel::Offer(record) ==> request_of(record)
            == Some(session.case.request_id),
{
}

/// When the last attempt fails the client gets that failure's status, as an
/// error of the proxy's own; the request counts as timed out exactly if the
/// failure does.
pub proof fn lemma_exhausted_attempts_are_answered(
    session: SessionModel,
    index: nat,
    recording: bool,
    attempt_id: Option<Seq<char>>,
    failure: FailureModel,
    id: Seq<char>,
)
    requires
        session.phase == (PhaseModel::AwaitOutcome { index, recording, attempt_id }),
        index + 1 == plan_len(session.case.settings, session.case.upstreams.len()),
    ensures
        ({
            let (next, step) = session.next(HappeningModel::Failed(failure), id);
            &&& next.phase is Done
            &&& step.action == ActionModel::Respond(
                error_reply(failure.final_http_status, failure.status, failure.error_message),
            )
            &&& (exhausted_name(failure) == "exhausted_timeout"@) == (failure.timeout_reason is Some)
        }),
{
    reveal_strlit("exhausted_timeout");
    reveal_strlit("exhausted_failure");
    assert("exhausted_timeout"@[10] == 't');
    assert("exhausted_failure"@[10] == 'f');
}

/// While attempts are left, a failed one is followed by the next, and the
/// client is sent nothing.
pub proof fn lemma_failures_are_retried(
    session: SessionModel,
    index: nat,
    recording: bool,
    attempt_id: Option<Seq<char>>,
    failure: FailureModel,
    id: Seq<char>,
)
    requires
        session.phase == (PhaseModel::AwaitOutcome { index, recording, attempt_id }),
        index + 1 < plan_len(session.case.settings, session.case.upstreams.len()),
    ensures
        ({
            let (next, step) = session.next(HappeningModel::Failed(failure), id);
            &&& !(step.action is Respond) && !(step.action is Deliver)
            &&& recording ==> next.phase == (PhaseModel::OfferAttempt {
                index: index + 1,
                attempt_id: id,
            }) && step.action is Offer
            &&& !recording ==> next.phase == (PhaseModel::AwaitOutcome {
                index: index + 1,
                recording: false,
                attempt_id: None,
            }) && step.action is Attempt
        }),
{
}

/// The case of a request that arrives while the proxy runs with `snapshot`.
pub open spec fn case_of(
    snapshot: RuntimeSnapshot,
    method: Seq<char>,
    path: Seq<char>,
    path_and_query: Option<Seq<char>>,
    request_id: Seq<char>,
) -> CaseModel {
    CaseModel {
        settings: snapshot.settings,
        upstreams: upstream_views(snapshot.upstreams@),
        request_id,
        method,
        endpoint: match path_and_query {
            Some(text) => text,
            None => path,
        },
        kind: endpoint_of(path),
    }
}

/// A request is served with the settings and the upstreams of the moment it
/// arrives, under its own method and its path with the query, and by the rules of
/// the interface that its path ends in.
pub proof fn lemma_a_request_is_served_as_it_came(
    snapshot: RuntimeSnapshot,
    method: Seq<char>,
    path: Seq<char>,
    query: Option<Seq<char>>,
    request_id: Seq<char>,
)
    ensures
        ({
            let case = case_of(snapshot, method, path, query, request_id);
            &&& case.settings == snapshot.settings
            &&& case.upstreams == upstream_views(snapshot.upstreams@)
            &&& case.request_id == request_id
            &&& case.method == method
            &&& query matches Some(whole) ==> case.endpoint == whole
            &&& query is None ==> case.endpoint == path
            &&& case.kind == endpoint_of(path)
        }),
{
}

/// A new identifier for a request or an attempt.
pub fn new_id() -> (id: String)
    ensures
        is_uuid_text(id@),
{
    random_id()
}

fn no_records() -> (records: Vec<RecordEvent>)
    ensures
        event_models(records@) == Seq::<EventModel>::empty(),
{
    let records: Vec<RecordEvent> = Vec::new();
    assert(event_models(records@) =~= Seq::<EventModel>::empty());
    records
}

/// `first`, and behind it `rest`.
fn joined(mut first: Vec<RecordEvent>, mut rest: Vec<RecordEvent>) -> (all: Vec<RecordEvent>)
    ensures
        event_models(all@) == event_models(first@) + event_models(rest@),
{
    let ghost before = first@;
    let ghost behind = rest@;
    first.append(&mut rest);
    assert(event_models(first@) =~= event_models(before) + event_models(behind));
    first
}

proof fn lemma_plan_fits(settings: RuntimeSettings, upstreams: nat)
    ensures
        plan_len(settings, upstreams) <= i64::MAX,
        plan_len(settings, upstreams) >= 1,
        attempt_plan(settings, upstreams).len() == plan_len(settings, upstreams),
{
}

impl RequestCase {
    fn completed(
        &self,
        status: &str,
        upstream_name: Option<&str>,
        attempt_count: i64,
        final_http_status: i64,
        error_message: Option<&str>,
    ) -> (event: RecordEvent)
        ensures
            event@ == self@.completed(
                status@,
                opt_str(upstream_name),
                attempt_count as int,
                final_http_status,
                opt_str(error_message),
            ),
    {
        RecordEvent::CompleteRequest(
            CompleteRequest {
                request_id: self.request_id.clone(),
                status: status.to_string(),
                upstream_name: match upstream_name {
                    Some(name) => Some(name.to_string()),
                    None => None,
                },
                attempt_count,
                final_http_status: Some(final_http_status),
                error_message: match error_message {
                    Some(message) => Some(message.to_string()),
                    None => None,
                },
            },
        )
    }

    fn record(&self, model: Option<String>) -> (event: RecordEvent)
        ensures
            event@ == self@.record(opt_text(model)),
    {
        RecordEvent::CreateRequest(
            NewRequestRecord {
                id: self.request_id.clone(),
                method: self.method.clone(),
                endpoint: self.endpoint.clone(),
                model,
            },
        )
    }

    fn attempt_record(&self, index: usize, upstream: usize, id: &str) -> (event: RecordEvent)
        requires
            index < i64::MAX,
            upstream < self.upstreams@.len(),
        ensures
            event@ == self@.attempt_record(index as nat, upstream as int, id@),
    {
        assert(self@.upstreams[upstream as int] == self.upstreams@[upstream as int]@);
        RecordEvent::CreateAttempt(
            NewAttemptRecord {
                id: id.to_string(),
                request_id: self.request_id.clone(),
                attempt_index: index as i64 + 1,
                upstream_id: Some(self.upstreams[upstream].id),
                upstream_name: self.upstreams[upstream].name.clone(),
            },
        )
    }

    fn saved_response(&self, body: &[u8]) -> (event: RecordEvent)
        ensures
            event@ == (EventModel::SaveResponseBody {
                request_id: self@.request_id,
                body: body@,
            }),
    {
        RecordEvent::SaveResponseBody(
            RecordBodyChunk { request_id: self.request_id.clone(), body: bytes_to_vec(body) },
        )
    }

    fn request_offered(self, taken: bool, id: String) -> (next: (Session, Step))
        ensures
            (next.0@, next.1@) == self@.request_offered(taken, id@),
            next.0.well_formed(),
    {
        if self.upstreams.len() == 0 {
            let reply = openai_error(503, "no_upstream", "no upstream configured");
            let mut records = no_records();
            if taken {
                records.push(
                    self.completed(
                        "no_upstream",
                        None,
                        0,
                        503,
                        Some("no upstream configured"),
                    ),
                );
                records.push(self.saved_response(reply.body.as_slice()));
            }
            assert(event_models(records@) =~= self@.request_offered(taken, id@).1.records);
            (
                Session { case: self, phase: Phase::Done },
                Step { records, action: Action::Respond(reply) },
            )
        } else if taken {
            let event = self.attempt_record(0, 0, id.as_str());
            (
                Session { case: self, phase: Phase::OfferDirectAttempt { attempt_id: id } },
                Step { records: no_records(), action: Action::Offer(event) },
            )
        } else {
            (
                Session { case: self, phase: Phase::Done },
                Step {
                    records: no_records(),
                    action: Action::PassDirect { upstream: 0, context: None },
                },
            )
        }
    }

    fn direct_offered(self, taken: bool, id: String) -> (next: (Session, Step))
        requires
            self.upstreams@.len() > 0,
        ensures
            (next.0@, next.1@) == self@.direct_offered(taken, id@),
            next.0.well_formed(),
    {
        assert(self@.upstreams[0] == self.upstreams@[0]@);
        let context = RecordContext {
            request_id: self.request_id.clone(),
            attempt_id: if taken {
                Some(id)
            } else {
                None
            },
            upstream_name: self.upstreams[0].name.clone(),
            endpoint: self.kind,
        };
        (
            Session { case: self, phase: Phase::Done },
            Step {
                records: no_records(),
                action: Action::PassDirect { upstream: 0, context: Some(context) },
            },
        )
    }

    fn body_read(self, body: Vec<u8>, id: String) -> (next: (Session, Step))
        requires
            self.upstreams@.len() > 0,
        ensures
            (next.0@, next.1@) == self@.body_read(body@, id@),
            next.0.well_formed(),
    {
        if self.settings.request_record_enabled {
            let event = self.record(extract_model(body.as_slice()));
            (
                Session { case: self, phase: Phase::OfferBodyRequest { body } },
                Step { records: no_records(), action: Action::Offer(event) },
            )
        } else {
            self.first_attempt(false, id)
        }
    }

    fn body_failed(self, error: &str) -> (next: (Session, Step))
        ensures
            (next.0@, next.1@) == self@.body_failed(error@),
            next.0.well_formed(),
    {
        let message = read_failure(error);
        let reply = openai_error(400, "invalid_request_body", message.as_str());
        (
            Session { case: self, phase: Phase::Done },
            Step { records: no_records(), action: Action::Respond(reply) },
        )
    }

    fn body_offered(self, body: Vec<u8>, taken: bool, id: String) -> (next: (Session, Step))
        requires
            self.upstreams@.len() > 0,
        ensures
            (next.0@, next.1@) == self@.body_offered(body@, taken, id@),
            next.0.well_formed(),
    {
        let mut records = no_records();
        if taken {
            records.push(
                RecordEvent::SaveRequestBody(
                    RecordBodyChunk { request_id: self.request_id.clone(), body },
                ),
            );
        }
        let ghost saved = event_models(records@);
        assert(saved =~= if taken {
            seq![EventModel::SaveRequestBody { request_id: self@.request_id, body: body@ }]
        } else {
            Seq::empty()
        });
        let (session, step) = self.first_attempt(taken, id);
        (session, Step { records: joined(records, step.records), action: step.action })
    }

    fn first_attempt(self, recording: bool, id: String) -> (next: (Session, Step))
        requires
            self.upstreams@.len() > 0,
        ensures
            (next.0@, next.1@) == self@.try_attempt(0, recording, id@),
            next.0.well_formed(),
    {
        let plan = build_attempt_plan(&self.settings, self.upstreams.as_slice());
        proof {
            lemma_plan_fits(self.settings, self.upstreams@.len());
        }
        self.try_attempt(plan, 0, recording, id)
    }

    fn try_attempt(self, plan: Vec<usize>, index: usize, recording: bool, id: String) -> (next: (
        Session,
        Step,
    ))
        requires
            self.upstreams@.len() > 0,
            plan@ == attempt_plan(self.settings, self.upstreams@.len()),
            index < plan@.len(),
        ensures
            (next.0@, next.1@) == self@.try_attempt(index as nat, recording, id@),
            next.0.well_formed(),
    {
        proof {
            lemma_plan_fits(self.settings, self.upstreams@.len());
            lemma_upstreams_fit(&self.upstreams);
            lemma_plan_stays_in_range(self.settings, self.upstreams@.len(), index as int);
        }
        if recording {
            let event = self.attempt_record(index, plan[index], id.as_str());
            (
                Session { case: self, phase: Phase::OfferAttempt { plan, index, attempt_id: id } },
                Step { records: no_records(), action: Action::Offer(event) },
            )
        } else {
            self.run_attempt(plan, index, false, None)
        }
    }

    fn run_attempt(
        self,
        plan: Vec<usize>,
        index: usize,
        recording: bool,
        attempt_id: Option<String>,
    ) -> (next: (Session, Step))
        requires
            self.upstreams@.len() > 0,
            plan@ == attempt_plan(self.settings, self.upstreams@.len()),
            index < plan@.len(),
        ensures
            (next.0@, next.1@) == self@.run_attempt(
                index as nat,
                recording,
                opt_text(attempt_id),
            ),
            next.0.well_formed(),
    {
        proof {
            lemma_plan_fits(self.settings, self.upstreams@.len());
            lemma_upstreams_fit(&self.upstreams);
            lemma_plan_stays_in_range(self.settings, self.upstreams@.len(), index as int);
        }
        let upstream: usize = plan[index];
        assert(self@.upstreams[upstream as int] == self.upstreams@[upstream as int]@);
        let context = match &attempt_id {
            Some(attempt_id) => Some(
                StreamRecordContext {
                    request_id: self.request_id.clone(),
                    attempt_id: attempt_id.clone(),
                    request_status_on_success: success_text(index),
                    upstream_name: self.upstreams[upstream].name.clone(),
                    attempt_count: index as i64 + 1,
                },
            ),
            None => None,
        };
        (
            Session {
                case: self,
                phase: Phase::AwaitOutcome { plan, index, recording, attempt_id },
            },
            Step { records: no_records(), action: Action::Attempt { upstream, context } },
        )
    }

    fn committed(
        self,
        plan: Vec<usize>,
        index: usize,
        recording: bool,
        attempt_id: Option<String>,
        committed: Committed,
    ) -> (next: (Session, Step))
        requires
            self.upstreams@.len() > 0,
            plan@ == attempt_plan(self.settings, self.upstreams@.len()),
            index < plan@.len(),
        ensures
            (next.0@, next.1@) == self@.committed(
                index as nat,
                recording,
                opt_text(attempt_id),
                committed,
            ),
            next.0.well_formed(),
    {
        proof {
            lemma_plan_fits(self.settings, self.upstreams@.len());
            lemma_upstreams_fit(&self.upstreams);
            lemma_plan_stays_in_range(self.settings, self.upstreams@.len(), index as int);
        }
        let upstream: usize = plan[index];
        assert(self@.upstreams[upstream as int] == self.upstreams@[upstream as int]@);
        let ghost attempt_model = opt_text(attempt_id);
        let mut records = no_records();
        if let Some(attempt_id) = attempt_id {
            if !committed.records_deferred {
                records.push(
                    RecordEvent::FinishAttempt(
                        FinishAttemptRecord {
                            attempt_id,
                            update: FinishAttempt {
                                status: "success".to_string(),
                                http_status: Some(committed.http_status),
                                response_header_ms: Some(committed.response_header_ms),
                                first_token_ms: committed.first_token_ms,
                                timeout_reason: None,
                                error_message: None,
                                emitted_to_client: committed.emitted_to_client,
                            },
                        },
                    ),
                );
            }
        }
        if recording && !committed.records_deferred {
            let status = success_text(index);
            records.push(
                self.completed(
                    status.as_str(),
                    Some(self.upstreams[upstream].name.as_str()),
                    index as i64 + 1,
                    committed.http_status,
                    None,
                ),
            );
        }
        assert(event_models(records@) =~= self@.committed(
            index as nat,
            recording,
            attempt_model,
            committed,
        ).1.records);
        (
            Session { case: self, phase: Phase::Done },
            Step { records, action: Action::Deliver },
        )
    }

    fn failed(
        self,
        plan: Vec<usize>,
        index: usize,
        recording: bool,
        attempt_id: Option<String>,
        failure: AttemptFailure,
        id: String,
    ) -> (next: (Session, Step))
        requires
            self.upstreams@.len() > 0,
            plan@ == attempt_plan(self.settings, self.upstreams@.len()),
            index < plan@.len(),
        ensures
            (next.0@, next.1@) == self@.failed(
                index as nat,
                recording,
                opt_text(attempt_id),
                failure@,
                id@,
            ),
            next.0.well_formed(),
    {
        proof {
            lemma_plan_fits(self.settings, self.upstreams@.len());
        }
        let ghost attempt_model = opt_text(attempt_id);
        let mut records = no_records();
        if let Some(attempt_id) = attempt_id {
            records.push(
                RecordEvent::FinishAttempt(
                    FinishAttemptRecord {
                        attempt_id,
                        update: FinishAttempt {
                            status: failure.status.clone(),
                            http_status: failure.upstream_http_status,
                            response_header_ms: failure.response_header_ms,
                            first_token_ms: failure.first_token_ms,
                            timeout_reason: copy_opt(&failure.timeout_reason),
                            error_message: Some(failure.error_message.clone()),
                            emitted_to_client: false,
                        },
                    },
                ),
            );
        }
        let ghost finished = event_models(records@);
        assert(finished =~= match attempt_model {
            Some(attempt_id) => seq![
                EventModel::FinishAttempt {
                    attempt_id,
                    update: FinishAttemptModel {
                        status: failure@.status,
                        http_status: failure@.upstream_http_status,
                        response_header_ms: failure@.response_header_ms,
                        first_token_ms: failure@.first_token_ms,
                        timeout_reason: failure@.timeout_reason,
                        error_message: Some(failure@.error_message),
                        emitted_to_client: false,
                    },
                },
            ],
            None => Seq::empty(),
        });
        let (session, step) = if plan.len() - index > 1 {
            self.try_attempt(plan, index + 1, recording, id)
        } else {
            self.give_up(plan, index, recording, failure)
        };
        (session, Step { records: joined(records, step.records), action: step.action })
    }

    fn give_up(
        self,
        plan: Vec<usize>,
        index: usize,
        recording: bool,
        failure: AttemptFailure,
    ) -> (next: (Session, Step))
        requires
            self.upstreams@.len() > 0,
            plan@ == attempt_plan(self.settings, self.upstreams@.len()),
            index < plan@.len(),
        ensures
            (next.0@, next.1@) == self@.give_up(index as nat, recording, failure@),
            next.0.well_formed(),
    {
        proof {
            lemma_plan_fits(self.settings, self.upstreams@.len());
            lemma_upstreams_fit(&self.upstreams);
            lemma_plan_stays_in_range(self.settings, self.upstreams@.len(), index as int);
        }
        let upstream: usize = plan[index];
        assert(self@.upstreams[upstream as int] == self.upstreams@[upstream as int]@);
        let reply = openai_error(
            failure.final_http_status,
            failure.status.as_str(),
            failure.error_message.as_str(),
        );
        let mut records = no_records();
        if recording {
            let status: &str = if failure.timeout_reason.is_some() {
                "exhausted_timeout"
            } else {
                "exhausted_failure"
            };
            records.push(
                self.completed(
                    status,
                    Some(self.upstreams[upstream].name.as_str()),
                    index as i64 + 1,
                    failure.final_http_status as i64,
                    Some(failure.error_message.as_str()),
                ),
            );
            records.push(self.saved_response(reply.body.as_slice()));
        }
        assert(event_models(records@) =~= self@.give_up(
            index as nat,
            recording,
            failure@,
        ).1.records);
        (
            Session { case: self, phase: Phase::Done },
            Step { records, action: Action::Respond(reply) },
        )
    }
}

proof fn lemma_upstreams_fit(upstreams: &Vec<Upstream>)
    ensures
        upstreams@.len() <= usize::MAX,
{
    assert(upstreams.len() == upstreams@.len());
}

fn success_text(index: usize) -> (text: String)
    ensures
        text@ == success_name(index as nat),
{
    if index > 0 {
        "retried_success".to_string()
    } else {
        "success".to_string()
    }
}

fn broken_attempt() -> (failure: AttemptFailure)
    ensures
        failure@ == broken_failure(),
{
    AttemptFailure {
        status: "proxy_attempt_error".to_string(),
        final_http_status: 502,
        upstream_http_status: None,
        response_header_ms: None,
        first_token_ms: None,
        timeout_reason: None,
        error_message: "proxy attempt failed before contacting upstream".to_string(),
    }
}

impl Session {
    /// Takes up a request under a new identifier.
    pub fn begin(
        snapshot: &RuntimeSnapshot,
        method: &str,
        path: &str,
        path_and_query: Option<&str>,
    ) -> (begun: (Session, Step))
        ensures
            is_uuid_text(begun.0@.case.request_id),
            (begun.0@, begun.1@) == case_of(
                *snapshot,
                method@,
                path@,
                opt_str(path_and_query),
                begun.0@.case.request_id,
            ).begin(path@),
            begun.0.well_formed(),
    {
        Session::begin_as(snapshot, method, path, path_and_query, new_id())
    }

    /// Takes up a request under the identifier `request_id`.
    pub fn begin_as(
        snapshot: &RuntimeSnapshot,
        method: &str,
        path: &str,
        path_and_query: Option<&str>,
        request_id: String,
    ) -> (begun: (Session, Step))
        ensures
            (begun.0@, begun.1@) == case_of(
                *snapshot,
                method@,
                path@,
                opt_str(path_and_query),
                request_id@,
            ).begin(path@),
            begun.0@.case.request_id == request_id@,
            begun.0.well_formed(),
    {
        let case = RequestCase {
            settings: snapshot.settings,
            upstreams: snapshot.configured_upstreams(),
            request_id,
            method: method.to_string(),
            endpoint: match path_and_query {
                Some(text) => text.to_string(),
                None => path.to_string(),
            },
            kind: EndpointKind::from_path(path),
        };
        assert(upstream_views(case.upstreams@).len() == case.upstreams@.len());
        if is_control_plane_path(path) {
            return (
                Session { case, phase: Phase::Done },
                Step { records: no_records(), action: Action::Respond(not_found()) },
            );
        }
        if case.settings.policy_enabled && case.upstreams.len() > 0 {
            return (
                Session { case, phase: Phase::AwaitBody },
                Step { records: no_records(), action: Action::ReadBody },
            );
        }
        if case.settings.request_record_enabled {
            let event = case.record(None);
            return (
                Session { case, phase: Phase::OfferRequest },
                Step { records: no_records(), action: Action::Offer(event) },
            );
        }
        case.request_offered(false, String::new())
    }

    /// What to do after `event`. An attempt that comes next gets a new identifier.
    pub fn advance(self, event: Event) -> (next: (Session, Step))
        requires
            self.well_formed(),
        ensures
            exists|id: Seq<char>|
                is_uuid_text(id) && #[trigger] self@.next(event@, id) == (next.0@, next.1@),
            next.0.well_formed(),
    {
        let id = new_id();
        let ghost drawn = id@;
        let next = self.advance_as(event, id);
        assert(is_uuid_text(drawn) && self@.next(event@, drawn) == (next.0@, next.1@));
        next
    }

    /// What to do after `event`, with `id` at hand for an attempt that comes next.
    pub fn advance_as(self, event: Event, id: String) -> (next: (Session, Step))
        requires
            self.well_formed(),
        ensures
            (next.0@, next.1@) == self@.next(event@, id@),
            next.0.well_formed(),
    {
        let Session { case, phase } = self;
        assert(upstream_views(case.upstreams@).len() == case.upstreams@.len());
        match (phase, event) {
            (Phase::OfferRequest, Event::Offered(taken)) => case.request_offered(taken, id),
            (Phase::OfferDirectAttempt { attempt_id }, Event::Offered(taken)) => {
                case.direct_offered(taken, attempt_id)
            },
            (Phase::AwaitBody, Event::BodyRead(body)) => case.body_read(body, id),
            (Phase::AwaitBody, Event::BodyFailed(error)) => case.body_failed(error.as_str()),
            (Phase::OfferBodyRequest { body }, Event::Offered(taken)) => case.body_offered(
                body,
                taken,
                id,
            ),
            (Phase::OfferAttempt { plan, index, attempt_id }, Event::Offered(taken)) => {
                proof {
                    lemma_plan_fits(case.settings, case.upstreams@.len());
                }
                let attempt_id = if taken {
                    Some(attempt_id)
                } else {
                    None
                };
                case.run_attempt(plan, index, true, attempt_id)
            },
            (
                Phase::AwaitOutcome { plan, index, recording, attempt_id },
                Event::Committed(committed),
            ) => {
                proof {
                    lemma_plan_fits(case.settings, case.upstreams@.len());
                }
                case.committed(plan, index, recording, attempt_id, committed)
            },
            (
                Phase::AwaitOutcome { plan, index, recording, attempt_id },
                Event::Failed(failure),
            ) => {
                proof {
                    lemma_plan_fits(case.settings, case.upstreams@.len());
                }
                case.failed(plan, index, recording, attempt_id, failure, id)
            },
            (Phase::AwaitOutcome { plan, index, recording, attempt_id }, Event::Broken) => {
                proof {
                    lemma_plan_fits(case.settings, case.upstreams@.len());
                }
                case.failed(plan, index, recording, attempt_id, broken_attempt(), id)
            },
            (phase, _) => (
                Session { case, phase },
                Step { records: no_records(), action: Action::Ignore },
            ),
        }
    }
}

}
