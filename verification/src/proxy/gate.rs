//! Holding a stream of events back until its first token.

use bytes::{Bytes, BytesMut};
use vstd::prelude::*;

use super::attempt::{
    prefix_overflow, stream_failure, token_failed, token_missing, token_timeout, AttemptFailure,
    FailureModel,
};
use super::semantic_token::{is_semantic_event, semantic, EndpointKind};
use super::sse::{
    concat, delimiter, event_of, event_views, events_of, frames, lemma_chunking_does_not_matter,
    lemma_concat_append, lemma_frames_keep_every_byte, raws, SseEvent, SseParser,
};
use crate::interop::buffers::{
    buffer_content, buffer_extend, buffer_freeze, buffer_new, buffer_slice, bytes_content,
    bytes_slice, fits_buffer,
};

verus! {

/// How many bytes of a stream are held back while waiting for its first token.
pub const PREFIX_BUFFER_LIMIT: usize = 262144;

/// A stream that is held back until its first token.
#[derive(Debug)]
pub struct SseGate {
    endpoint: EndpointKind,
    http_status: u16,
    response_header_ms: i64,
    prefix: BytesMut,
    parser: SseParser,
}

/// A stream that is held back, as a mathematical value: the events without a
/// token that came so far, and the bytes that make up no whole event yet.
#[verifier::ext_equal]
pub struct GateModel {
    pub endpoint: EndpointKind,
    pub http_status: u16,
    pub response_header_ms: i64,
    pub prefix: Seq<u8>,
    pub pending: Seq<u8>,
}

impl View for SseGate {
    type V = GateModel;

    closed spec fn view(&self) -> GateModel {
        GateModel {
            endpoint: self.endpoint,
            http_status: self.http_status,
            response_header_ms: self.response_header_ms,
            prefix: buffer_content(self.prefix),
            pending: self.parser@,
        }
    }
}

/// What happened to a stream that is held back.
#[derive(Debug)]
pub enum GateEvent<'a> {
    Chunk(&'a [u8]),
    StreamError,
    StreamEnd,
    Deadline,
}

/// What happened, as a mathematical value.
pub enum GateEventModel {
    Chunk(Seq<u8>),
    StreamError,
    StreamEnd,
    Deadline,
}

impl<'a> View for GateEvent<'a> {
    type V = GateEventModel;

    open spec fn view(&self) -> GateEventModel {
        match self {
            GateEvent::Chunk(bytes) => GateEventModel::Chunk(bytes@),
            GateEvent::StreamError => GateEventModel::StreamError,
            GateEvent::StreamEnd => GateEventModel::StreamEnd,
            GateEvent::Deadline => GateEventModel::Deadline,
        }
    }
}

/// What to do with a stream that is held back.
#[derive(Debug)]
pub enum GateStep {
    /// Wait for more.
    Wait(SseGate),
    /// Send `initial` to the client, and whatever follows it.
    Commit { initial: Bytes, first_token_ms: i64 },
    /// Give this attempt up.
    Fail(AttemptFailure),
}

/// What to do, as a mathematical value.
pub enum GateStepModel {
    Wait(GateModel),
    Commit { initial: Seq<u8>, first_token_ms: i64 },
    Fail(FailureModel),
}

impl View for GateStep {
    type V = GateStepModel;

    open spec fn view(&self) -> GateStepModel {
        match self {
            GateStep::Wait(gate) => GateStepModel::Wait(gate@),
            GateStep::Commit { initial, first_token_ms } => GateStepModel::Commit {
                initial: bytes_content(*initial),
                first_token_ms: *first_token_ms,
            },
            GateStep::Fail(failure) => GateStepModel::Fail(failure@),
        }
    }
}

/// What a walk over whole events comes to.
pub enum Walk {
    /// No token; all of them belong to the prefix.
    Wait(Seq<u8>),
    /// A token; these are the bytes to send.
    Commit(Seq<u8>),
    /// Too much without a token.
    Overflow,
}

/// Walks over the whole events `parts`, with `prefix` before and `rest` behind them.
pub open spec fn walk(
    endpoint: EndpointKind,
    prefix: Seq<u8>,
    parts: Seq<Seq<u8>>,
    rest: Seq<u8>,
) -> Walk
    decreases parts.len(),
{
    if parts.len() == 0 {
        Walk::Wait(prefix)
    } else if semantic(endpoint, event_of(parts[0])) {
        Walk::Commit(prefix + concat(parts) + rest)
    } else if prefix.len() + parts[0].len() + rest.len() > PREFIX_BUFFER_LIMIT {
        Walk::Overflow
    } else {
        walk(endpoint, prefix + parts[0], parts.skip(1), rest)
    }
}

impl GateModel {
    /// No more is held back than may be.
    pub open spec fn within_limit(self) -> bool {
        self.prefix.len() + self.pending.len() <= PREFIX_BUFFER_LIMIT
    }

    /// All bytes that came so far.
    pub open spec fn received(self) -> Seq<u8> {
        self.prefix + self.pending
    }

    /// What is held back is what the bytes that came make up, and no token is
    /// among it.
    pub open spec fn holds(self) -> bool {
        &&& self.within_limit()
        &&& self.prefix == concat(frames(self.received()).0)
        &&& self.pending == frames(self.received()).1
        &&& no_token(self.endpoint, frames(self.received()).0)
    }

    /// What to do after `event`, `elapsed_ms` after the attempt began.
    pub open spec fn step(self, event: GateEventModel, elapsed_ms: i64) -> GateStepModel {
        let status = self.http_status;
        let header_ms = self.response_header_ms;
        match event {
            GateEventModel::StreamError => GateStepModel::Fail(
                stream_failure(status, header_ms, elapsed_ms),
            ),
            GateEventModel::StreamEnd => GateStepModel::Fail(
                token_missing(status, header_ms, elapsed_ms),
            ),
            GateEventModel::Deadline => GateStepModel::Fail(
                token_timeout(status, header_ms, elapsed_ms),
            ),
            GateEventModel::Chunk(chunk) => {
                let (parts, rest) = frames(self.pending + chunk);
                match walk(self.endpoint, self.prefix, parts, rest) {
                    Walk::Commit(initial) => GateStepModel::Commit {
                        initial,
                        first_token_ms: elapsed_ms,
                    },
                    Walk::Overflow => GateStepModel::Fail(
                        prefix_overflow(status, header_ms, elapsed_ms, "prefix_buffer_overflow"@),
                    ),
                    Walk::Wait(prefix) => if prefix.len() + rest.len() > PREFIX_BUFFER_LIMIT {
                        GateStepModel::Fail(
                            prefix_overflow(status, header_ms, elapsed_ms, "first_token_timeout"@),
                        )
                    } else {
                        GateStepModel::Wait(GateModel { prefix, pending: rest, ..self })
                    },
                }
            },
        }
    }
}

/// Whether none of the events `parts` is a token.
pub open spec fn no_token(endpoint: EndpointKind, parts: Seq<Seq<u8>>) -> bool {
    forall|i: int| 0 <= i < parts.len() ==> !semantic(endpoint, event_of(#[trigger] parts[i]))
}

proof fn lemma_walk_commits_everything(
    endpoint: EndpointKind,
    prefix: Seq<u8>,
    parts: Seq<Seq<u8>>,
    rest: Seq<u8>,
)
    ensures
        match walk(endpoint, prefix, parts, rest) {
            Walk::Commit(initial) => {
                &&& initial == prefix + concat(parts) + rest
                &&& !no_token(endpoint, parts)
            },
            Walk::Wait(after) => {
                &&& after == prefix + concat(parts)
                &&& no_token(endpoint, parts)
            },
            Walk::Overflow => prefix.len() + concat(parts).len() + rest.len()
                > PREFIX_BUFFER_LIMIT,
        },
    decreases parts.len(),
{
    if parts.len() == 0 {
        assert(prefix + concat(parts) =~= prefix);
    } else {
        let tail = parts.skip(1);
        assert(parts =~= seq![parts[0]] + tail);
        lemma_concat_append(seq![parts[0]], tail);
        assert(concat(seq![parts[0]]) =~= parts[0]) by {
            reveal_with_fuel(concat, 2);
            assert(seq![parts[0]].drop_last() =~= Seq::<Seq<u8>>::empty());
        }
        assert(concat(parts) == parts[0] + concat(tail));
        if semantic(endpoint, event_of(parts[0])) {
        } else if prefix.len() + parts[0].len() + rest.len() > PREFIX_BUFFER_LIMIT {
        } else {
            lemma_walk_commits_everything(endpoint, prefix + parts[0], tail, rest);
            assert(prefix + parts[0] + concat(tail) =~= prefix + concat(parts));
            assert(prefix + parts[0] + concat(tail) + rest =~= prefix + concat(parts) + rest);
            if no_token(endpoint, tail) {
                assert forall|i: int| 0 <= i < parts.len() implies !semantic(
                    endpoint,
                    event_of(#[trigger] parts[i]),
                ) by {
                    if i > 0 {
                        assert(parts[i] == tail[i - 1]);
                    }
                }
            } else {
                let i = choose|i: int|
                    0 <= i < tail.len() && semantic(endpoint, event_of(#[trigger] tail[i]));
                assert(parts[i + 1] == tail[i]);
            }
        }
    }
}

/// What the client is sent first is all that the attempt has received so far,
/// byte for byte and in order: nothing is lost of what was held back.
pub proof fn lemma_commit_sends_all_received(gate: GateModel, chunk: Seq<u8>, elapsed_ms: i64)
    ensures
        gate.step(GateEventModel::Chunk(chunk), elapsed_ms) matches GateStepModel::Commit {
            initial,
            first_token_ms,
        } ==> initial == gate.received() + chunk && first_token_ms == elapsed_ms,
{
    let (parts, rest) = frames(gate.pending + chunk);
    lemma_walk_commits_everything(gate.endpoint, gate.prefix, parts, rest);
    lemma_frames_keep_every_byte(gate.pending + chunk);
    assert(gate.prefix + concat(parts) + rest =~= gate.prefix + (concat(parts) + rest));
    assert(gate.prefix + (gate.pending + chunk) =~= gate.received() + chunk);
}

/// What ends the wait for a token without one: the deadline and the end of the
/// stream count as timeouts, a broken stream does not.
pub proof fn lemma_waiting_ends_without_a_token(gate: GateModel, elapsed_ms: i64)
    ensures
        gate.step(GateEventModel::Deadline, elapsed_ms) matches GateStepModel::Fail(failure)
            && failure.status == "first_token_timeout"@ && failure.final_http_status == 504
            && failure.timeout_reason == Some("first_token_timeout"@)
            && failure.upstream_http_status == Some(gate.http_status as i64)
            && failure.response_header_ms == Some(gate.response_header_ms)
            && failure.first_token_ms == Some(elapsed_ms),
        gate.step(GateEventModel::StreamEnd, elapsed_ms) matches GateStepModel::Fail(failure)
            && failure.status == "first_token_missing"@ && failure.final_http_status == 504
            && failure.timeout_reason == Some("first_token_timeout"@)
            && failure.upstream_http_status == Some(gate.http_status as i64)
            && failure.response_header_ms == Some(gate.response_header_ms)
            && failure.first_token_ms == Some(elapsed_ms),
        gate.step(GateEventModel::StreamError, elapsed_ms) matches GateStepModel::Fail(failure)
            && failure.status == "upstream_stream_error"@ && failure.final_http_status == 502
            && failure.timeout_reason is None
            && failure.upstream_http_status == Some(gate.http_status as i64)
            && failure.response_header_ms == Some(gate.response_header_ms)
            && failure.first_token_ms == Some(elapsed_ms),
{
}

proof fn lemma_walk_to_the_token(
    endpoint: EndpointKind,
    prefix: Seq<u8>,
    parts: Seq<Seq<u8>>,
    rest: Seq<u8>,
    at: int,
)
    requires
        0 <= at < parts.len(),
        forall|j: int| 0 <= j < at ==> !semantic(endpoint, event_of(#[trigger] parts[j])),
        forall|j: int|
            0 <= j < at ==> prefix.len() + concat(#[trigger] parts.take(j + 1)).len() + rest.len()
                <= 262144,
    ensures
        semantic(endpoint, event_of(parts[at])) ==> walk(endpoint, prefix, parts, rest) is Commit,
        !semantic(endpoint, event_of(parts[at])) && prefix.len() + concat(
            parts.take(at + 1),
        ).len() + rest.len() > 262144 ==> walk(endpoint, prefix, parts, rest) is Overflow,
    decreases parts.len(),
{
    let tail = parts.skip(1);
    assert forall|j: int| 1 <= j <= parts.len() implies concat(#[trigger] parts.take(j)).len()
        == parts[0].len() + concat(tail.take(j - 1)).len() by {
        assert(parts.take(j) =~= seq![parts[0]] + tail.take(j - 1));
        lemma_concat_append(seq![parts[0]], tail.take(j - 1));
        reveal_with_fuel(concat, 2);
        assert(seq![parts[0]].drop_last() =~= Seq::<Seq<u8>>::empty());
    }
    assert(tail.take(0) =~= Seq::<Seq<u8>>::empty());
    assert(concat(parts.take(1)).len() == parts[0].len());
    if at > 0 {
        assert(prefix.len() + concat(parts.take(0int + 1)).len() + rest.len() <= 262144);
        assert forall|j: int| 0 <= j < at - 1 implies !semantic(
            endpoint,
            event_of(#[trigger] tail[j]),
        ) by {
            assert(tail[j] == parts[j + 1]);
        }
        assert forall|j: int| 0 <= j < at - 1 implies (prefix + parts[0]).len() + concat(
            #[trigger] tail.take(j + 1),
        ).len() + rest.len() <= 262144 by {
            assert(prefix.len() + concat(parts.take((j + 1) + 1)).len() + rest.len() <= 262144);
        }
        lemma_walk_to_the_token(endpoint, prefix + parts[0], tail, rest, at - 1);
        assert(tail[at - 1] == parts[at]);
        assert(concat(parts.take(at + 1)).len() == parts[0].len() + concat(tail.take(at)).len());
    }
}

/// The first token among what a chunk completes lets the stream go, unless the
/// events before it, with what came before them and the bytes that are left over,
/// are more than 262144 bytes already: then the attempt fails at the first event
/// that makes it so.
pub proof fn lemma_the_first_token_counts(
    gate: GateModel,
    chunk: Seq<u8>,
    elapsed_ms: i64,
    at: int,
)
    requires
        ({
            let (parts, rest) = frames(gate.pending + chunk);
            &&& 0 <= at < parts.len()
            &&& forall|j: int|
                0 <= j < at ==> !semantic(gate.endpoint, event_of(#[trigger] parts[j]))
            &&& forall|j: int|
                0 <= j < at ==> gate.prefix.len() + concat(#[trigger] parts.take(j + 1)).len()
                    + rest.len() <= 262144
        }),
    ensures
        ({
            let (parts, rest) = frames(gate.pending + chunk);
            let step = gate.step(GateEventModel::Chunk(chunk), elapsed_ms);
            &&& semantic(gate.endpoint, event_of(parts[at])) ==> step is Commit
            &&& !semantic(gate.endpoint, event_of(parts[at])) && gate.prefix.len() + concat(
                parts.take(at + 1),
            ).len() + rest.len() > 262144 ==> (step matches GateStepModel::Fail(failure)
                && failure.status == "prefix_buffer_overflow"@ && failure.final_http_status == 504
                && failure.timeout_reason == Some("prefix_buffer_overflow"@))
        }),
{
    let (parts, rest) = frames(gate.pending + chunk);
    lemma_walk_to_the_token(gate.endpoint, gate.prefix, parts, rest, at);
}

/// A chunk that completes no event is held back, unless that makes more than
/// 262144 bytes: then the attempt fails as if the token had not come in time.
pub proof fn lemma_a_piece_of_an_event_is_held_back(
    gate: GateModel,
    chunk: Seq<u8>,
    elapsed_ms: i64,
)
    requires
        frames(gate.pending + chunk).0.len() == 0,
    ensures
        ({
            let step = gate.step(GateEventModel::Chunk(chunk), elapsed_ms);
            if gate.prefix.len() + gate.pending.len() + chunk.len() <= 262144 {
                step matches GateStepModel::Wait(next) && next.prefix == gate.prefix
                    && next.pending == gate.pending + chunk && next.endpoint == gate.endpoint
                    && next.http_status == gate.http_status && next.response_header_ms
                    == gate.response_header_ms
            } else {
                step matches GateStepModel::Fail(failure) && failure.status
                    == "prefix_buffer_overflow"@ && failure.final_http_status == 504
                    && failure.timeout_reason == Some("first_token_timeout"@)
            }
        }),
{
    lemma_frames_keep_every_byte(gate.pending + chunk);
    assert(concat(frames(gate.pending + chunk).0) =~= Seq::<u8>::empty());
    assert(frames(gate.pending + chunk).1 =~= gate.pending + chunk);
}

/// A gate that has just been set up holds nothing back.
pub proof fn lemma_new_gate_holds(gate: GateModel)
    requires
        gate.prefix == Seq::<u8>::empty(),
        gate.pending == Seq::<u8>::empty(),
    ensures
        gate.holds(),
{
    assert(gate.received() =~= Seq::<u8>::empty());
    assert(delimiter(gate.received()) is None);
}

/// A chunk either leaves the stream held back, exactly as it came and without a
/// token, or commits it because a token is among what came, or ends it because
/// more came than may be held back.
pub proof fn lemma_gate_opens_for_a_token_only(gate: GateModel, chunk: Seq<u8>, elapsed_ms: i64)
    requires
        gate.holds(),
    ensures
        ({
            let all = gate.received() + chunk;
            match gate.step(GateEventModel::Chunk(chunk), elapsed_ms) {
                GateStepModel::Wait(next) => {
                    &&& next.holds()
                    &&& next.received() == all
                    &&& all.len() <= 262144
                    &&& next.endpoint == gate.endpoint
                    &&& next.http_status == gate.http_status
                    &&& next.response_header_ms == gate.response_header_ms
                },
                GateStepModel::Commit { initial, .. } => {
                    &&& initial == all
                    &&& !no_token(gate.endpoint, frames(all).0)
                },
                GateStepModel::Fail(failure) => {
                    &&& all.len() > 262144
                    &&& failure.status == "prefix_buffer_overflow"@
                    &&& failure.final_http_status == 504
                },
            }
        }),
{
    let all = gate.received() + chunk;
    let (parts, rest) = frames(gate.pending + chunk);
    lemma_walk_commits_everything(gate.endpoint, gate.prefix, parts, rest);
    lemma_frames_keep_every_byte(gate.pending + chunk);
    lemma_chunking_does_not_matter(gate.received(), chunk);
    let earlier = frames(gate.received()).0;
    assert(frames(all).0 == earlier + parts);
    assert(frames(all).1 == rest);
    lemma_concat_append(earlier, parts);
    assert(gate.prefix + concat(parts) + rest =~= gate.prefix + (concat(parts) + rest));
    assert(gate.prefix + (gate.pending + chunk) =~= all);
    match walk(gate.endpoint, gate.prefix, parts, rest) {
        Walk::Wait(prefix) => {
            assert(prefix + rest == all);
            assert forall|i: int| 0 <= i < frames(all).0.len() implies !semantic(
                gate.endpoint,
                event_of(#[trigger] frames(all).0[i]),
            ) by {
                if i < earlier.len() {
                    assert(frames(all).0[i] == earlier[i]);
                } else {
                    assert(frames(all).0[i] == parts[i - earlier.len()]);
                }
            }
        },
        Walk::Commit(_) => {
            let i = choose|i: int|
                0 <= i < parts.len() && semantic(gate.endpoint, event_of(#[trigger] parts[i]));
            assert(frames(all).0[earlier.len() + i] == parts[i]);
        },
        Walk::Overflow => {},
    }
}

/// As long as no more came than may be held back, a stream is committed exactly
/// if a token is among what came, however that was cut into chunks.
pub proof fn lemma_gate_opens_at_the_first_token(gate: GateModel, chunk: Seq<u8>, elapsed_ms: i64)
    requires
        gate.holds(),
        gate.received().len() + chunk.len() <= PREFIX_BUFFER_LIMIT,
    ensures
        gate.step(GateEventModel::Chunk(chunk), elapsed_ms) is Commit <==> !no_token(
            gate.endpoint,
            frames(gate.received() + chunk).0,
        ),
        !(gate.step(GateEventModel::Chunk(chunk), elapsed_ms) is Fail),
{
    lemma_gate_opens_for_a_token_only(gate, chunk, elapsed_ms);
}

proof fn lemma_concat_split(parts: Seq<Seq<u8>>, at: int)
    requires
        0 <= at < parts.len(),
    ensures
        concat(parts) == concat(parts.take(at)) + parts[at] + concat(parts.skip(at + 1)),
        concat(parts.skip(at)) == parts[at] + concat(parts.skip(at + 1)),
        concat(parts.take(at + 1)) == concat(parts.take(at)) + parts[at],
{
    assert(parts =~= parts.take(at) + parts.skip(at));
    lemma_concat_append(parts.take(at), parts.skip(at));
    assert(parts.skip(at) =~= seq![parts[at]] + parts.skip(at + 1));
    lemma_concat_append(seq![parts[at]], parts.skip(at + 1));
    assert(concat(seq![parts[at]]) =~= parts[at]) by {
        reveal_with_fuel(concat, 2);
        assert(seq![parts[at]].drop_last() =~= Seq::<Seq<u8>>::empty());
    }
    assert(parts.take(at + 1).drop_last() =~= parts.take(at));
    assert(concat(parts) =~= concat(parts.take(at)) + parts[at] + concat(parts.skip(at + 1)));
}

/// What to send first: the prefix, the events from `from` on, and what the
/// parser kept back.
fn collect_initial(
    prefix: &BytesMut,
    events: &[SseEvent],
    from: usize,
    parser: &mut SseParser,
) -> (initial: Bytes)
    requires
        from <= events@.len(),
        fits_buffer(
            buffer_content(*prefix).len() + concat(raws(events@).skip(from as int)).len() + old(
                parser,
            )@.len(),
        ),
    ensures
        bytes_content(initial) == buffer_content(*prefix) + concat(
            raws(events@).skip(from as int),
        ) + old(parser)@,
{
    let ghost parts = raws(events@);
    let ghost kept = parser@;
    let mut initial = buffer_new();
    buffer_extend(&mut initial, buffer_slice(prefix));
    let mut i: usize = from;
    assert(buffer_content(initial) + concat(parts.skip(i as int)) =~= buffer_content(*prefix)
        + concat(parts.skip(from as int)));
    while i < events.len()
        invariant
            from <= i <= events@.len(),
            parts == raws(events@),
            parser@ == kept,
            fits_buffer(
                buffer_content(*prefix).len() + concat(parts.skip(from as int)).len() + kept.len(),
            ),
            buffer_content(initial) + concat(parts.skip(i as int)) == buffer_content(*prefix)
                + concat(parts.skip(from as int)),
        decreases events@.len() - i,
    {
        let ghost before = buffer_content(initial);
        proof {
            lemma_concat_split(parts, i as int);
            assert(parts[i as int] == bytes_content(events@[i as int].raw));
            assert((before + concat(parts.skip(i as int))).len() == before.len() + concat(
                parts.skip(i as int),
            ).len());
            assert((buffer_content(*prefix) + concat(parts.skip(from as int))).len()
                == buffer_content(*prefix).len() + concat(parts.skip(from as int)).len());
        }
        buffer_extend(&mut initial, bytes_slice(&events[i].raw));
        assert(buffer_content(initial) + concat(parts.skip(i + 1)) =~= before + concat(
            parts.skip(i as int),
        ));
        i += 1;
    }
    assert(parts.skip(events@.len() as int) =~= Seq::<Seq<u8>>::empty());
    assert(concat(parts.skip(i as int)) =~= Seq::<u8>::empty());
    assert(buffer_content(initial) =~= buffer_content(*prefix) + concat(parts.skip(from as int)));
    let rest = parser.take_buffer();
    buffer_extend(&mut initial, bytes_slice(&rest));
    buffer_freeze(initial)
}

impl SseGate {
    /// A gate before the stream of an answer.
    pub fn new(endpoint: EndpointKind, http_status: u16, response_header_ms: i64) -> (gate: Self)
        ensures
            gate@ == (GateModel {
                endpoint,
                http_status,
                response_header_ms,
                prefix: Seq::empty(),
                pending: Seq::empty(),
            }),
            gate@.within_limit(),
    {
        SseGate {
            endpoint,
            http_status,
            response_header_ms,
            prefix: buffer_new(),
            parser: SseParser::new(),
        }
    }

    /// The status of the answer.
    pub fn http_status(&self) -> (status: u16)
        ensures
            status == self@.http_status,
    {
        self.http_status
    }

    /// When the answer began, after the attempt did.
    pub fn response_header_ms(&self) -> (ms: i64)
        ensures
            ms == self@.response_header_ms,
    {
        self.response_header_ms
    }

    /// What to do after `event`, `elapsed_ms` after the attempt began.
    pub fn step(self, event: GateEvent<'_>, elapsed_ms: i64) -> (step: GateStep)
        requires
            self@.within_limit(),
            event@ matches GateEventModel::Chunk(chunk) ==> fits_buffer(
                PREFIX_BUFFER_LIMIT as nat + chunk.len(),
            ),
        ensures
            step@ == self@.step(event@, elapsed_ms),
            step@ matches GateStepModel::Wait(next) ==> next.within_limit(),
    {
        let status = self.http_status;
        let header_ms = self.response_header_ms;
        match event {
            GateEvent::StreamError => GateStep::Fail(
                token_failed(
                    "upstream_stream_error",
                    502,
                    status,
                    header_ms,
                    elapsed_ms,
                    None,
                    "upstream stream failed before first semantic token",
                ),
            ),
            GateEvent::StreamEnd => GateStep::Fail(
                token_failed(
                    "first_token_missing",
                    504,
                    status,
                    header_ms,
                    elapsed_ms,
                    Some("first_token_timeout"),
                    "upstream SSE ended before first semantic token",
                ),
            ),
            GateEvent::Deadline => GateStep::Fail(
                token_failed(
                    "first_token_timeout",
                    504,
                    status,
                    header_ms,
                    elapsed_ms,
                    Some("first_token_timeout"),
                    "waiting for first semantic token timed out",
                ),
            ),
            GateEvent::Chunk(chunk) => self.on_chunk(chunk, elapsed_ms),
        }
    }

    fn on_chunk(self, chunk: &[u8], elapsed_ms: i64) -> (step: GateStep)
        requires
            self@.within_limit(),
            fits_buffer(PREFIX_BUFFER_LIMIT as nat + chunk@.len()),
        ensures
            step@ == self@.step(GateEventModel::Chunk(chunk@), elapsed_ms),
            step@ matches GateStepModel::Wait(next) ==> next.within_limit(),
    {
        let ghost start = self@;
        let SseGate { endpoint, http_status, response_header_ms, mut prefix, mut parser } = self;
        let events = parser.push(chunk);
        let ghost (parts, rest) = frames(start.pending + chunk@);
        proof {
            lemma_frames_keep_every_byte(start.pending + chunk@);
            assert(parts.skip(0) =~= parts);
            assert(events@.len() == parts.len()) by {
                assert(event_views(events@).len() == events_of(start.pending + chunk@).len());
            }
            assert forall|k: int| 0 <= k < events@.len() implies bytes_content(
                (#[trigger] events@[k]).raw,
            ) == parts[k] && events@[k]@ == event_of(parts[k]) by {
                assert(event_views(events@)[k] == events@[k]@);
                assert(events_of(start.pending + chunk@)[k] == event_of(parts[k]));
            }
        }
        let mut i: usize = 0;
        while i < events.len()
            invariant
                i <= events@.len(),
                events@.len() == parts.len(),
                self@ == start,
                start.within_limit(),
                fits_buffer(PREFIX_BUFFER_LIMIT as nat + chunk@.len()),
                frames(start.pending + chunk@) == (parts, rest),
                concat(parts) + rest == start.pending + chunk@,
                parser@ == rest,
                endpoint == start.endpoint,
                http_status == start.http_status,
                response_header_ms == start.response_header_ms,
                buffer_content(prefix) == start.prefix + concat(parts.take(i as int)),
                walk(endpoint, start.prefix, parts, rest) == walk(
                    endpoint,
                    buffer_content(prefix),
                    parts.skip(i as int),
                    rest,
                ),
                forall|k: int|
                    0 <= k < events@.len() ==> bytes_content((#[trigger] events@[k]).raw)
                        == parts[k] && events@[k]@ == event_of(parts[k]),
            decreases events@.len() - i,
        {
            proof {
                assert(events@[i as int]@ == event_of(parts[i as int]));
                assert(parts.skip(i as int)[0] == parts[i as int]);
                assert(parts.skip(i as int).skip(1) =~= parts.skip(i + 1));
                lemma_concat_split(parts, i as int);
                assert((concat(parts) + rest).len() == concat(parts).len() + rest.len());
                assert((start.pending + chunk@).len() == start.pending.len() + chunk@.len());
            }
            if is_semantic_event(endpoint, &events[i]) {
                proof {
                    assert(raws(events@) =~= parts);
                }
                let initial = collect_initial(&prefix, events.as_slice(), i, &mut parser);
                return GateStep::Commit { initial, first_token_ms: elapsed_ms };
            }
            let ghost before = buffer_content(prefix);
            buffer_extend(&mut prefix, bytes_slice(&events[i].raw));
            proof {
                assert(parts.take(i + 1).drop_last() =~= parts.take(i as int));
                assert(parts.take(i + 1).last() == parts[i as int]);
                assert(buffer_content(prefix) =~= start.prefix + concat(parts.take(i + 1)));
            }
            if buffer_slice(&prefix).len() + parser.buffered_len() > PREFIX_BUFFER_LIMIT {
                return GateStep::Fail(
                    token_failed(
                        "prefix_buffer_overflow",
                        504,
                        http_status,
                        response_header_ms,
                        elapsed_ms,
                        Some("prefix_buffer_overflow"),
                        "SSE prefix exceeded buffer limit before first semantic token",
                    ),
                );
            }
            i += 1;
        }
        assert(parts.skip(parts.len() as int).len() == 0);
        assert(parts.take(parts.len() as int) =~= parts);
        if buffer_slice(&prefix).len() + parser.buffered_len() > PREFIX_BUFFER_LIMIT {
            return GateStep::Fail(
                token_failed(
                    "prefix_buffer_overflow",
                    504,
                    http_status,
                    response_header_ms,
                    elapsed_ms,
                    Some("first_token_timeout"),
                    "SSE prefix exceeded buffer limit before first semantic token",
                ),
            );
        }
        GateStep::Wait(SseGate { endpoint, http_status, response_header_ms, prefix, parser })
    }
}

/// A gate that waited through `chunks`, one after the other, if it did.
pub open spec fn waited_through(gate: GateModel, chunks: Seq<Seq<u8>>) -> Option<GateModel>
    decreases chunks.len(),
{
    if chunks.len() == 0 {
        Some(gate)
    } else {
        match waited_through(gate, chunks.drop_last()) {
            Some(before) => match before.step(GateEventModel::Chunk(chunks.last()), 0) {
                GateStepModel::Wait(after) => Some(after),
                _ => None,
            },
            None => None,
        }
    }
}

/// While a gate waits it holds back all that came, with no token among it; the
/// chunk that opens it sends the whole stream up to there.
pub proof fn lemma_gate_holds_the_whole_stream(
    gate: GateModel,
    chunks: Seq<Seq<u8>>,
    chunk: Seq<u8>,
    elapsed_ms: i64,
)
    requires
        gate.holds(),
        gate.received() == Seq::<u8>::empty(),
        waited_through(gate, chunks) is Some,
    ensures
        waited_through(gate, chunks)->0.holds(),
        waited_through(gate, chunks)->0.received() == concat(chunks),
        waited_through(gate, chunks)->0.endpoint == gate.endpoint,
        waited_through(gate, chunks)->0.step(GateEventModel::Chunk(chunk), elapsed_ms) matches
            GateStepModel::Commit { initial, .. } ==> initial == concat(chunks.push(chunk)),
    decreases chunks.len(),
{
    if chunks.len() > 0 {
        lemma_gate_holds_the_whole_stream(gate, chunks.drop_last(), chunks.last(), 0);
        let before = waited_through(gate, chunks.drop_last())->0;
        lemma_gate_opens_for_a_token_only(before, chunks.last(), 0);
    }
    lemma_gate_opens_for_a_token_only(waited_through(gate, chunks)->0, chunk, elapsed_ms);
    let all = chunks.push(chunk);
    assert(all.drop_last() =~= chunks);
    assert(concat(all) == concat(chunks) + chunk);
}

}
