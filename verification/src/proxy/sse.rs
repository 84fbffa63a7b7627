//! Server-sent events: cutting a byte stream into events, and reading one.

use bytes::{Bytes, BytesMut};
use vstd::prelude::*;
use vstd::utf8::{
    decode_first_scalar, decode_utf8, length_of_first_scalar, pop_first_scalar, valid_first_scalar,
    valid_utf8,
};

use crate::interop::buffers::{
    buffer_content, buffer_extend, buffer_freeze, buffer_new, buffer_slice, buffer_split,
    buffer_split_to, bytes_content, bytes_slice, fits_buffer, lossy_text, text_from_utf8_lossy,
};
use crate::text::{
    chars_of, join, lemma_joined_pieces_come_apart, occurs_at, pieces, split_chars, split_on,
    starts_with_chars, text_of, trim_start, trim_start_chars,
};

verus! {

/// One event as it came off the wire.
#[derive(Debug)]
pub struct SseEvent {
    pub raw: Bytes,
    pub event: Option<String>,
    pub data: String,
}

/// What an event says: its bytes, its name and its data.
pub struct SseEventView {
    pub raw: Seq<u8>,
    pub event: Option<Seq<char>>,
    pub data: Seq<char>,
}

impl View for SseEvent {
    type V = SseEventView;

    open spec fn view(&self) -> SseEventView {
        SseEventView {
            raw: bytes_content(self.raw),
            event: crate::text::opt_text(self.event),
            data: self.data@,
        }
    }
}

impl Clone for SseEvent {
    fn clone(&self) -> (copy: Self)
        ensures
            copy@ == self@,
    {
        SseEvent {
            raw: self.raw.clone(),
            event: crate::text::copy_opt(&self.event),
            data: self.data.clone(),
        }
    }
}

/// Collects bytes until they make up whole events.
#[derive(Debug)]
pub struct SseParser {
    buffer: BytesMut,
}

impl View for SseParser {
    type V = Seq<u8>;

    /// The bytes that belong to no whole event yet.
    closed spec fn view(&self) -> Seq<u8> {
        buffer_content(self.buffer)
    }
}

// ---------------------------------------------------------------------------
// Cutting the stream
// ---------------------------------------------------------------------------

/// Two line feeds.
pub open spec fn lf_lf() -> Seq<u8> {
    seq![10u8, 10u8]
}

/// Two carriage-return line-feed pairs.
pub open spec fn crlf_crlf() -> Seq<u8> {
    seq![13u8, 10u8, 13u8, 10u8]
}

/// Where the first blank line of `buffer` at or after `from` begins, and how
/// long it is.
pub open spec fn delimiter_from(buffer: Seq<u8>, from: int) -> Option<(int, int)>
    decreases buffer.len() - from,
{
    if from >= buffer.len() {
        None
    } else if occurs_at(buffer, lf_lf(), from) {
        Some((from, 2int))
    } else if occurs_at(buffer, crlf_crlf(), from) {
        Some((from, 4int))
    } else {
        delimiter_from(buffer, from + 1)
    }
}

/// The first blank line of `buffer`.
pub open spec fn delimiter(buffer: Seq<u8>) -> Option<(int, int)> {
    delimiter_from(buffer, 0)
}

proof fn lemma_delimiter_bounds(buffer: Seq<u8>, from: int)
    requires
        0 <= from,
    ensures
        match delimiter_from(buffer, from) {
            Some((at, len)) => {
                &&& from <= at
                &&& (len == 2 || len == 4)
                &&& at + len <= buffer.len()
                &&& (len == 2 ==> occurs_at(buffer, lf_lf(), at))
                &&& (len == 4 ==> occurs_at(buffer, crlf_crlf(), at))
                &&& forall|k: int|
                    from <= k < at ==> !occurs_at(buffer, lf_lf(), k) && !occurs_at(
                        buffer,
                        crlf_crlf(),
                        k,
                    )
            },
            None => forall|k: int|
                from <= k ==> !occurs_at(buffer, lf_lf(), k) && !occurs_at(buffer, crlf_crlf(), k),
        },
    decreases buffer.len() - from,
{
    if from < buffer.len() && !occurs_at(buffer, lf_lf(), from) && !occurs_at(
        buffer,
        crlf_crlf(),
        from,
    ) {
        lemma_delimiter_bounds(buffer, from + 1);
    }
}

/// The whole events at the front of `buffer`, each with its blank line, and the
/// bytes behind them.
pub open spec fn frames(buffer: Seq<u8>) -> (Seq<Seq<u8>>, Seq<u8>)
    decreases buffer.len(),
{
    match delimiter(buffer) {
        Some((at, len)) if 0 <= at && 0 < len && at + len <= buffer.len() => {
            let behind = frames(buffer.skip(at + len));
            (seq![buffer.take(at + len)] + behind.0, behind.1)
        },
        _ => (Seq::empty(), buffer),
    }
}

/// All bytes of `parts`, in order.
pub open spec fn concat(parts: Seq<Seq<u8>>) -> Seq<u8>
    decreases parts.len(),
{
    if parts.len() == 0 {
        Seq::empty()
    } else {
        concat(parts.drop_last()) + parts.last()
    }
}

/// Concatenation goes over appending one list of parts to another.
pub proof fn lemma_concat_append(left: Seq<Seq<u8>>, right: Seq<Seq<u8>>)
    ensures
        concat(left + right) == concat(left) + concat(right),
    decreases right.len(),
{
    if right.len() == 0 {
        assert(left + right =~= left);
    } else {
        lemma_concat_append(left, right.drop_last());
        assert((left + right).drop_last() =~= left + right.drop_last());
        assert(concat(left + right) =~= concat(left) + concat(right));
    }
}

/// No byte is lost, added or moved: the events followed by the bytes kept back
/// are the bytes that were put in.
pub proof fn lemma_frames_keep_every_byte(buffer: Seq<u8>)
    ensures
        concat(frames(buffer).0) + frames(buffer).1 == buffer,
    decreases buffer.len(),
{
    lemma_delimiter_bounds(buffer, 0);
    match delimiter(buffer) {
        Some((at, len)) => {
            let head = buffer.take(at + len);
            let tail = buffer.skip(at + len);
            lemma_frames_keep_every_byte(tail);
            lemma_concat_append(seq![head], frames(tail).0);
            assert(concat(seq![head]) =~= head) by {
                reveal_with_fuel(concat, 2);
                assert(seq![head].drop_last() =~= Seq::<Seq<u8>>::empty());
            }
            assert(buffer =~= head + tail);
            assert(concat(frames(buffer).0) + frames(buffer).1 =~= head + (concat(frames(tail).0)
                + frames(tail).1));
        },
        None => {},
    }
}

/// What is kept back holds no whole event, nor any blank line.
pub proof fn lemma_rest_holds_no_event(buffer: Seq<u8>)
    ensures
        delimiter(frames(buffer).1) is None,
        forall|k: int|
            !occurs_at(frames(buffer).1, lf_lf(), k) && !occurs_at(
                frames(buffer).1,
                crlf_crlf(),
                k,
            ),
        frames(frames(buffer).1) == (Seq::<Seq<u8>>::empty(), frames(buffer).1),
    decreases buffer.len(),
{
    lemma_delimiter_bounds(buffer, 0);
    match delimiter(buffer) {
        Some((at, len)) => {
            lemma_rest_holds_no_event(buffer.skip(at + len));
        },
        None => {},
    }
}

proof fn lemma_delimiter_stays(left: Seq<u8>, right: Seq<u8>, from: int)
    requires
        0 <= from,
        delimiter_from(left, from) is Some,
    ensures
        delimiter_from(left + right, from) == delimiter_from(left, from),
    decreases left.len() - from,
{
    lemma_delimiter_bounds(left, from);
    let both = left + right;
    let (at, len) = delimiter_from(left, from)->0;
    if occurs_at(both, lf_lf(), from) {
        assert(from + 2 <= left.len());
        assert(both.subrange(from, from + 2) =~= left.subrange(from, from + 2));
    } else {
        if occurs_at(left, lf_lf(), from) {
            assert(both.subrange(from, from + 2) =~= left.subrange(from, from + 2));
        }
        if occurs_at(both, crlf_crlf(), from) {
            if from + 4 <= left.len() {
                assert(both.subrange(from, from + 4) =~= left.subrange(from, from + 4));
            } else {
                assert(len == 2 && from == at - 1);
                assert(both.subrange(from, from + 4)[2] == 13u8);
                assert(left.subrange(at, at + 2)[1] == 10u8);
                assert(both[from + 2] == left[at + 1]);
                assert(false);
            }
        } else {
            if occurs_at(left, crlf_crlf(), from) {
                assert(both.subrange(from, from + 4) =~= left.subrange(from, from + 4));
            }
            lemma_delimiter_stays(left, right, from + 1);
        }
    }
}

/// How the stream is cut into chunks does not matter: the events of two chunks
/// are those of the first, followed by those of what it left over and the second.
pub proof fn lemma_chunking_does_not_matter(left: Seq<u8>, right: Seq<u8>)
    ensures
        frames(left + right).0 == frames(left).0 + frames(frames(left).1 + right).0,
        frames(left + right).1 == frames(frames(left).1 + right).1,
    decreases left.len(),
{
    lemma_delimiter_bounds(left, 0);
    match delimiter(left) {
        Some((at, len)) => {
            let tail = left.skip(at + len);
            lemma_delimiter_stays(left, right, 0);
            lemma_chunking_does_not_matter(tail, right);
            assert((left + right).skip(at + len) =~= tail + right);
            assert((left + right).take(at + len) =~= left.take(at + len));
            assert(frames(left + right).0 =~= frames(left).0 + frames(frames(left).1 + right).0);
        },
        None => {
            assert(frames(left).0 + frames(left + right).0 =~= frames(left + right).0);
        },
    }
}

/// Whether `raw` is one whole event: it ends in a blank line, and holds none
/// before its end.
pub open spec fn is_one_event(raw: Seq<u8>) -> bool {
    &&& occurs_at(raw, lf_lf(), raw.len() - 2) || occurs_at(raw, crlf_crlf(), raw.len() - 4)
    &&& forall|k: int| occurs_at(raw, lf_lf(), k) ==> k + 2 == raw.len()
    &&& forall|k: int| occurs_at(raw, crlf_crlf(), k) ==> k + 4 == raw.len()
}

proof fn lemma_first_frame(buffer: Seq<u8>, at: int, len: int)
    requires
        delimiter(buffer) == Some((at, len)),
    ensures
        is_one_event(buffer.take(at + len)),
{
    lemma_delimiter_bounds(buffer, 0);
    let raw = buffer.take(at + len);
    assert(raw.subrange(at, at + len) =~= buffer.subrange(at, at + len));
    lemma_delimiter_bounds(raw, 0);
    assert(occurs_at(raw, lf_lf(), at) || occurs_at(raw, crlf_crlf(), at));
    lemma_delimiter_stays(raw, buffer.skip(at + len), 0);
    assert(raw + buffer.skip(at + len) =~= buffer);
    assert forall|k: int| occurs_at(raw, lf_lf(), k) implies k + 2 == raw.len() by {
        if len == 4 {
            assert(raw.subrange(at, at + 4)[0] == 13u8);
            assert(raw.subrange(at, at + 4)[2] == 13u8);
            assert(raw.subrange(k, k + 2)[0] == 10u8);
            assert(raw.subrange(k, k + 2)[1] == 10u8);
        }
    }
}

/// Each frame is one whole event.
pub proof fn lemma_each_frame_is_one_event(buffer: Seq<u8>)
    ensures
        forall|i: int|
            0 <= i < frames(buffer).0.len() ==> is_one_event(#[trigger] frames(buffer).0[i]),
    decreases buffer.len(),
{
    lemma_delimiter_bounds(buffer, 0);
    match delimiter(buffer) {
        Some((at, len)) => {
            let tail = buffer.skip(at + len);
            lemma_first_frame(buffer, at, len);
            lemma_each_frame_is_one_event(tail);
            assert forall|i: int| 0 <= i < frames(buffer).0.len() implies is_one_event(
                #[trigger] frames(buffer).0[i],
            ) by {
                if i > 0 {
                    assert(frames(buffer).0[i] == frames(tail).0[i - 1]);
                }
            }
        },
        None => {},
    }
}

// ---------------------------------------------------------------------------
// Reading one event
// ---------------------------------------------------------------------------

/// `text` with each carriage-return line-feed pair turned into a line feed.
pub open spec fn crlf_to_lf(text: Seq<char>) -> Seq<char>
    decreases text.len(),
{
    if text.len() == 0 {
        text
    } else if text.len() >= 2 && text[0] == '\r' && text[1] == '\n' {
        seq!['\n'] + crlf_to_lf(text.skip(2))
    } else {
        seq![text[0]] + crlf_to_lf(text.skip(1))
    }
}

/// A line without the carriage return that it may end in.
pub open spec fn without_cr(line: Seq<char>) -> Seq<char> {
    if line.len() > 0 && line.last() == '\r' {
        line.drop_last()
    } else {
        line
    }
}

/// The lines of `text`. A line ends in a line feed, which the last one may lack.
pub open spec fn lines_of(text: Seq<char>) -> Seq<Seq<char>> {
    let parts = split_on(text, '\n');
    let ended = parts.drop_last().map_values(|line: Seq<char>| without_cr(line));
    if parts.last().len() == 0 {
        ended
    } else {
        ended.push(parts.last())
    }
}

/// What `line` gives `field`: the rest of a line that begins with it.
pub open spec fn field_value(line: Seq<char>, field: Seq<char>) -> Option<Seq<char>> {
    if field.is_prefix_of(line) {
        Some(trim_start(line.skip(field.len() as int)))
    } else {
        None
    }
}

/// The name of an event: what its last `event:` line gives.
pub open spec fn event_name(lines: Seq<Seq<char>>) -> Option<Seq<char>>
    decreases lines.len(),
{
    if lines.len() == 0 {
        None
    } else {
        match field_value(lines.last(), "event:"@) {
            Some(value) => Some(value),
            None => event_name(lines.drop_last()),
        }
    }
}

/// What the `data:` lines of an event give, in order.
pub open spec fn data_values(lines: Seq<Seq<char>>) -> Seq<Seq<char>>
    decreases lines.len(),
{
    if lines.len() == 0 {
        Seq::empty()
    } else {
        match field_value(lines.last(), "data:"@) {
            Some(value) => data_values(lines.drop_last()).push(value),
            None => data_values(lines.drop_last()),
        }
    }
}

/// The event of the bytes `raw`, which read as `text`.
pub open spec fn read_text(raw: Seq<u8>, text: Seq<char>) -> SseEventView {
    let lines = lines_of(crlf_to_lf(text));
    SseEventView { raw, event: event_name(lines), data: join(data_values(lines), "\n"@) }
}

/// The event that the bytes `raw` spell.
pub open spec fn event_of(raw: Seq<u8>) -> SseEventView {
    read_text(raw, lossy_text(raw))
}

/// The views of `events`.
pub open spec fn event_views(events: Seq<SseEvent>) -> Seq<SseEventView> {
    events.map_values(|event: SseEvent| event@)
}

/// The bytes of each of `events`.
pub open spec fn raws(events: Seq<SseEvent>) -> Seq<Seq<u8>> {
    events.map_values(|event: SseEvent| bytes_content(event.raw))
}

/// The events that the frames of `buffer` spell.
pub open spec fn events_of(buffer: Seq<u8>) -> Seq<SseEventView> {
    frames(buffer).0.map_values(|raw: Seq<u8>| event_of(raw))
}

/// Two chunks pushed one after the other give the same events, and keep the same
/// bytes back, as both pushed at once.
pub proof fn lemma_pushing_in_parts(pending: Seq<u8>, left: Seq<u8>, right: Seq<u8>)
    ensures
        events_of(pending + (left + right)) == events_of(pending + left) + events_of(
            frames(pending + left).1 + right,
        ),
        frames(pending + (left + right)).1 == frames(frames(pending + left).1 + right).1,
{
    assert(pending + (left + right) =~= (pending + left) + right);
    lemma_chunking_does_not_matter(pending + left, right);
    assert(events_of(pending + (left + right)) =~= events_of(pending + left) + events_of(
        frames(pending + left).1 + right,
    ));
}

/// The first blank line is two line feeds or two carriage-return line-feed pairs,
/// whichever comes first.
pub proof fn lemma_the_first_blank_line_is_found(buffer: Seq<u8>)
    ensures
        match delimiter(buffer) {
            Some((at, len)) => {
                &&& 0 <= at
                &&& len == 2 && occurs_at(buffer, seq![10u8, 10u8], at) || len == 4 && occurs_at(
                    buffer,
                    seq![13u8, 10u8, 13u8, 10u8],
                    at,
                )
                &&& forall|k: int|
                    0 <= k < at ==> !occurs_at(buffer, seq![10u8, 10u8], k) && !occurs_at(
                        buffer,
                        seq![13u8, 10u8, 13u8, 10u8],
                        k,
                    )
            },
            None => forall|k: int|
                !occurs_at(buffer, seq![10u8, 10u8], k) && !occurs_at(
                    buffer,
                    seq![13u8, 10u8, 13u8, 10u8],
                    k,
                ),
        },
{
    lemma_delimiter_bounds(buffer, 0);
}

/// A whole event is cut off behind its blank line, and what follows is cut in the
/// same way; bytes without a blank line are kept back.
pub proof fn lemma_events_are_cut_behind_blank_lines(buffer: Seq<u8>)
    ensures
        match delimiter(buffer) {
            Some((at, len)) => frames(buffer).0 == seq![buffer.take(at + len)] + frames(
                buffer.skip(at + len),
            ).0 && frames(buffer).1 == frames(buffer.skip(at + len)).1,
            None => frames(buffer) == (Seq::<Seq<u8>>::empty(), buffer),
        },
{
    lemma_delimiter_bounds(buffer, 0);
}

/// Events, their bytes and the frames they come from stand one for one.
pub proof fn lemma_events_stand_one_for_one(events: Seq<SseEvent>, buffer: Seq<u8>, at: int)
    ensures
        event_views(events).len() == events.len(),
        raws(events).len() == events.len(),
        0 <= at < events.len() ==> event_views(events)[at] == events[at]@ && raws(events)[at]
            == bytes_content(events[at].raw) && events[at]@.raw == bytes_content(events[at].raw)
            && events[at]@.data == events[at].data@,
        events_of(buffer).len() == frames(buffer).0.len(),
        0 <= at < frames(buffer).0.len() ==> events_of(buffer)[at] == event_of(
            frames(buffer).0[at],
        ),
{
}

/// Parts put together are their bytes one after the other.
pub proof fn lemma_concat_adds_up(parts: Seq<Seq<u8>>, part: Seq<u8>)
    ensures
        concat(Seq::empty()) == Seq::<u8>::empty(),
        concat(seq![part]) == part,
        concat(parts.push(part)) == concat(parts) + part,
{
    assert(parts.push(part).drop_last() =~= parts);
    assert(seq![part].drop_last() =~= Seq::<Seq<u8>>::empty());
    assert(concat(Seq::<Seq<u8>>::empty()) =~= Seq::<u8>::empty());
    assert(concat(seq![part]) =~= part);
}

/// One more line of an event: `event:` names it anew, `data:` adds to its data,
/// both without the white space that the value begins with, and any other line
/// changes nothing.
pub proof fn lemma_what_a_line_says(lines: Seq<Seq<char>>, value: Seq<char>, other: Seq<char>)
    requires
        !"event:"@.is_prefix_of(other),
        !"data:"@.is_prefix_of(other),
    ensures
        event_name(lines.push("event:"@ + value)) == Some(trim_start(value)),
        data_values(lines.push("event:"@ + value)) == data_values(lines),
        data_values(lines.push("data:"@ + value)) == data_values(lines).push(trim_start(value)),
        event_name(lines.push("data:"@ + value)) == event_name(lines),
        event_name(lines.push(other)) == event_name(lines),
        data_values(lines.push(other)) == data_values(lines),
        event_name(Seq::empty()) is None,
        data_values(Seq::empty()).len() == 0,
{
    reveal_strlit("event:");
    reveal_strlit("data:");
    let named = "event:"@ + value;
    let filled = "data:"@ + value;
    assert(lines.push(named).drop_last() =~= lines);
    assert(lines.push(filled).drop_last() =~= lines);
    assert(lines.push(other).drop_last() =~= lines);
    assert("event:"@ =~= named.subrange(0, 6));
    assert("data:"@ =~= filled.subrange(0, 5));
    assert(named.skip(6) =~= value);
    assert(filled.skip(5) =~= value);
    assert(named[0] == 'e' && filled[0] == 'd');
    assert(!"data:"@.is_prefix_of(named)) by {
        if "data:"@.is_prefix_of(named) {
            assert(named.subrange(0, 5)[0] == 'd');
        }
    }
    assert(!"event:"@.is_prefix_of(filled)) by {
        if "event:"@.is_prefix_of(filled) {
            assert(filled.subrange(0, 6)[0] == 'e');
        }
    }
}

/// Lines that each end in a line feed are read one by one, as they are.
pub proof fn lemma_lines_are_read_one_by_one(lines: Seq<Seq<char>>)
    requires
        lines.len() > 0,
        forall|i: int| 0 <= i < lines.len() ==> !(#[trigger] lines[i]).contains('\n'),
        forall|i: int|
            0 <= i < lines.len() && (#[trigger] lines[i]).len() > 0 ==> lines[i].last() != '\r',
    ensures
        lines_of(join(lines, seq!['\n']).push('\n')) == lines,
{
    let text = join(lines, seq!['\n']).push('\n');
    let parts = lines.push(Seq::empty());
    assert(parts.drop_last() =~= lines);
    assert(join(parts, seq!['\n']) =~= text);
    assert forall|i: int| 0 <= i < parts.len() implies !(#[trigger] parts[i]).contains('\n') by {
        if i < lines.len() {
            assert(parts[i] == lines[i]);
        }
    }
    lemma_joined_pieces_come_apart(parts, '\n');
    assert(lines_of(text) =~= lines) by {
        assert forall|i: int| 0 <= i < lines.len() implies without_cr(#[trigger] lines[i])
            == lines[i] by {}
    }
}

/// A line loses the one carriage return that it may end in, and nothing else.
pub proof fn lemma_a_carriage_return_belongs_to_the_line_end(lines: Seq<Seq<char>>, at: int)
    requires
        lines.len() > 0,
        forall|i: int| 0 <= i < lines.len() ==> !(#[trigger] lines[i]).contains('\n'),
        0 <= at < lines.len(),
    ensures
        lines_of(join(lines, seq!['\n']).push('\n')).len() == lines.len(),
        lines_of(join(lines, seq!['\n']).push('\n'))[at] == if lines[at].len() > 0
            && lines[at].last() == '\r' {
            lines[at].drop_last()
        } else {
            lines[at]
        },
{
    let text = join(lines, seq!['\n']).push('\n');
    let parts = lines.push(Seq::empty());
    assert(parts.drop_last() =~= lines);
    assert(join(parts, seq!['\n']) =~= text);
    assert forall|i: int| 0 <= i < parts.len() implies !(#[trigger] parts[i]).contains('\n') by {
        if i < lines.len() {
            assert(parts[i] == lines[i]);
        }
    }
    lemma_joined_pieces_come_apart(parts, '\n');
}

/// Each carriage-return line-feed pair becomes a line feed, and nothing else
/// changes.
pub proof fn lemma_pairs_become_line_feeds(left: Seq<char>, right: Seq<char>)
    ensures
        crlf_to_lf(left + seq!['\r', '\n'] + right) == crlf_to_lf(left) + seq!['\n']
            + crlf_to_lf(right),
        lf_only(left) ==> crlf_to_lf(left) == left,
    decreases left.len(),
{
    if lf_only(left) {
        lemma_crlf_undone(left);
    }
    let whole = left + seq!['\r', '\n'] + right;
    if left.len() == 0 {
        assert(whole.skip(2) =~= right);
        assert(crlf_to_lf(left) + seq!['\n'] =~= seq!['\n']);
    } else {
        let step: int = if left.len() >= 2 && left[0] == '\r' && left[1] == '\n' {
            2
        } else {
            1
        };
        lemma_pairs_become_line_feeds(left.skip(step), right);
        assert(whole.skip(step) =~= left.skip(step) + seq!['\r', '\n'] + right);
        if left.len() == 1 {
            assert(whole[1] == '\r');
        }
        assert(crlf_to_lf(whole) =~= crlf_to_lf(left) + seq!['\n'] + crlf_to_lf(right));
    }
}

/// The last line may lack its line feed.
pub proof fn lemma_the_last_line_may_be_open(lines: Seq<Seq<char>>, last: Seq<char>)
    requires
        lines.len() > 0,
        forall|i: int| 0 <= i < lines.len() ==> !(#[trigger] lines[i]).contains('\n'),
        forall|i: int|
            0 <= i < lines.len() && (#[trigger] lines[i]).len() > 0 ==> lines[i].last() != '\r',
        last.len() > 0,
        !last.contains('\n'),
    ensures
        lines_of(join(lines, seq!['\n']) + seq!['\n'] + last) == lines.push(last),
{
    let text = join(lines, seq!['\n']) + seq!['\n'] + last;
    let parts = lines.push(last);
    assert(parts.drop_last() =~= lines);
    assert forall|i: int| 0 <= i < parts.len() implies !(#[trigger] parts[i]).contains('\n') by {
        if i < lines.len() {
            assert(parts[i] == lines[i]);
        }
    }
    assert(join(parts, seq!['\n']) =~= text);
    lemma_joined_pieces_come_apart(parts, '\n');
    assert(lines_of(text) =~= lines.push(last)) by {
        assert forall|i: int| 0 <= i < lines.len() implies without_cr(#[trigger] lines[i])
            == lines[i] by {}
    }
}

/// An event is what its lines say: its name is that of its last `event:` line,
/// and its data are its `data:` lines with line feeds between them.
pub proof fn lemma_an_event_is_what_its_lines_say(raw: Seq<u8>, lines: Seq<Seq<char>>)
    requires
        lines.len() > 0,
        forall|i: int|
            0 <= i < lines.len() ==> !(#[trigger] lines[i]).contains('\n') && !lines[i].contains(
                '\r',
            ),
    ensures
        ({
            let event = read_text(raw, join(lines, seq!['\n']).push('\n'));
            &&& event.raw == raw
            &&& event.event == event_name(lines)
            &&& event.data == join(data_values(lines), seq!['\n'])
        }),
{
    reveal_strlit("\n");
    assert("\n"@ =~= seq!['\n']);
    let text = join(lines, seq!['\n']).push('\n');
    assert forall|i: int|
        0 <= i < lines.len() && (#[trigger] lines[i]).len() > 0 implies lines[i].last() != '\r' by {
        assert(lines[i].contains(lines[i].last()));
    }
    lemma_lines_are_read_one_by_one(lines);
    lemma_joined_without(lines, '\n', '\r');
    assert forall|k: int| !occurs_at(text, seq!['\r', '\n'], k) by {
        if occurs_at(text, seq!['\r', '\n'], k) {
            assert(text.subrange(k, k + 2)[0] == '\r');
            assert(text[k] == '\r');
            assert(join(lines, seq!['\n'])[k] == '\r');
            assert(join(lines, seq!['\n']).contains('\r'));
        }
    }
    lemma_crlf_undone(text);
}

proof fn lemma_joined_without(parts: Seq<Seq<char>>, mark: char, c: char)
    requires
        mark != c,
        forall|i: int| 0 <= i < parts.len() ==> !(#[trigger] parts[i]).contains(c),
    ensures
        !join(parts, seq![mark]).contains(c),
    decreases parts.len(),
{
    let text = join(parts, seq![mark]);
    if parts.len() > 1 {
        let before = parts.drop_last();
        assert forall|i: int| 0 <= i < before.len() implies !(#[trigger] before[i]).contains(c) by {
            assert(before[i] == parts[i]);
        }
        lemma_joined_without(before, mark, c);
        let front = join(before, seq![mark]);
        assert(parts.last() == parts[parts.len() - 1]);
        if text.contains(c) {
            let k = choose|k: int| 0 <= k < text.len() && text[k] == c;
            if k < front.len() {
                assert(front[k] == c);
            } else if k > front.len() {
                assert(parts.last()[k - front.len() - 1] == c);
            }
        }
    }
}

// ---------------------------------------------------------------------------
// Line ends
// ---------------------------------------------------------------------------

/// `text` with each line feed turned into a carriage-return line-feed pair.
pub open spec fn lf_to_crlf(text: Seq<char>) -> Seq<char>
    decreases text.len(),
{
    if text.len() == 0 {
        text
    } else if text[0] == '\n' {
        seq!['\r', '\n'] + lf_to_crlf(text.skip(1))
    } else {
        seq![text[0]] + lf_to_crlf(text.skip(1))
    }
}

/// `raw` with each line feed turned into a carriage-return line-feed pair.
pub open spec fn bytes_to_crlf(raw: Seq<u8>) -> Seq<u8>
    decreases raw.len(),
{
    if raw.len() == 0 {
        raw
    } else if raw[0] == 10 {
        seq![13u8, 10u8] + bytes_to_crlf(raw.skip(1))
    } else {
        seq![raw[0]] + bytes_to_crlf(raw.skip(1))
    }
}

/// Whether no line of `text` ends in a carriage-return line-feed pair.
pub open spec fn lf_only(text: Seq<char>) -> bool {
    forall|k: int| !occurs_at(text, seq!['\r', '\n'], k)
}

/// Whether no line of `raw` ends in a carriage-return line-feed pair.
pub open spec fn bytes_lf_only(raw: Seq<u8>) -> bool {
    forall|k: int| !occurs_at(raw, seq![13u8, 10u8], k)
}

proof fn lemma_crlf_undone(text: Seq<char>)
    requires
        lf_only(text),
    ensures
        crlf_to_lf(text) == text,
        crlf_to_lf(lf_to_crlf(text)) == text,
    decreases text.len(),
{
    if text.len() > 0 {
        let rest = text.skip(1);
        let turned = lf_to_crlf(text);
        assert forall|k: int| !occurs_at(rest, seq!['\r', '\n'], k) by {
            if occurs_at(rest, seq!['\r', '\n'], k) {
                assert(text.subrange(k + 1, k + 3) =~= rest.subrange(k, k + 2));
                assert(occurs_at(text, seq!['\r', '\n'], k + 1));
            }
        }
        lemma_crlf_undone(rest);
        if text.len() >= 2 && text[0] == '\r' && text[1] == '\n' {
            assert(text.subrange(0, 2) =~= seq!['\r', '\n']);
            assert(occurs_at(text, seq!['\r', '\n'], 0));
        }
        assert(crlf_to_lf(text) =~= text);
        if text[0] == '\n' {
            assert(turned.skip(2) =~= lf_to_crlf(rest));
        } else {
            assert(turned.skip(1) =~= lf_to_crlf(rest));
            assert(lf_to_crlf(rest).len() > 0 ==> lf_to_crlf(rest)[0] != '\n');
        }
        assert(crlf_to_lf(turned) =~= text);
    }
}

/// How lines end does not matter: a text whose lines end in line feeds reads as
/// the same event when they end in carriage-return line-feed pairs.
pub proof fn lemma_line_ends_do_not_matter(raw: Seq<u8>, other: Seq<u8>, text: Seq<char>)
    requires
        lf_only(text),
    ensures
        read_text(other, lf_to_crlf(text)).event == read_text(raw, text).event,
        read_text(other, lf_to_crlf(text)).data == read_text(raw, text).data,
{
    lemma_crlf_undone(text);
}

/// The first character of well-formed bytes is an ASCII one just if their first
/// byte is, and then it is that byte.
proof fn lemma_first_character(raw: Seq<u8>)
    requires
        raw.len() > 0,
        valid_first_scalar(raw),
    ensures
        1 <= length_of_first_scalar(raw) <= raw.len(),
        raw[0] < 0x80 ==> length_of_first_scalar(raw) == 1 && decode_first_scalar(raw) == raw[0],
        raw[0] >= 0x80 ==> 0x80 <= decode_first_scalar(raw) <= 0x10ffff,
        forall|i: int|
            raw[0] >= 0x80 && 0 <= i < length_of_first_scalar(raw) ==> #[trigger] raw[i] >= 0x80,
        decode_first_scalar(raw) as char == decode_first_scalar(raw),
{
    let a = raw[0];
    if a < 0x80 {
        assert((a & 0x7f) as u32 == a) by (bit_vector)
            requires
                a < 0x80,
        ;
    } else if a <= 0xdf {
        let b = raw[1];
        assert((((a & 0x1f) as u32) << 6) | ((b & 0x3f) as u32) <= 0x7ff) by (bit_vector);
    } else if a <= 0xef {
        let b = raw[1];
        let c = raw[2];
        assert((((a & 0x0f) as u32) << 12) | (((b & 0x3f) as u32) << 6) | ((c & 0x3f) as u32)
            <= 0xffff) by (bit_vector);
    }
}

proof fn lemma_crlf_keeps_a_character(head: Seq<u8>, tail: Seq<u8>)
    requires
        forall|i: int| 0 <= i < head.len() ==> #[trigger] head[i] != 10,
    ensures
        bytes_to_crlf(head + tail) == head + bytes_to_crlf(tail),
    decreases head.len(),
{
    if head.len() == 0 {
        assert(head + tail =~= tail);
        assert(head + bytes_to_crlf(tail) =~= bytes_to_crlf(tail));
    } else {
        lemma_crlf_keeps_a_character(head.skip(1), tail);
        assert((head + tail)[0] == head[0]);
        assert((head + tail).skip(1) =~= head.skip(1) + tail);
        assert(head + bytes_to_crlf(tail) =~= seq![head[0]] + (head.skip(1) + bytes_to_crlf(tail)));
    }
}

/// The first character of `raw` in front of well-formed bytes is read as it stands.
proof fn lemma_character_in_front(raw: Seq<u8>, tail: Seq<u8>)
    requires
        raw.len() > 0,
        valid_first_scalar(raw),
        valid_utf8(tail),
    ensures
        valid_utf8(raw.take(length_of_first_scalar(raw)) + tail),
        decode_utf8(raw.take(length_of_first_scalar(raw)) + tail) == seq![
            decode_first_scalar(raw) as char,
        ] + decode_utf8(tail),
{
    lemma_first_character(raw);
    let n = length_of_first_scalar(raw);
    let both = raw.take(n) + tail;
    assert(forall|i: int| 0 <= i < n ==> #[trigger] both[i] == raw[i]);
    assert(both[0] == raw[0]);
    assert(valid_first_scalar(both));
    assert(length_of_first_scalar(both) == n);
    assert(pop_first_scalar(both) =~= tail);
}

proof fn lemma_ascii_in_front(byte: u8, tail: Seq<u8>)
    requires
        byte < 0x80,
        valid_utf8(tail),
    ensures
        valid_utf8(seq![byte] + tail),
        decode_utf8(seq![byte] + tail) == seq![byte as char] + decode_utf8(tail),
{
    let raw = seq![byte];
    assert((byte & 0x7f) as u32 == byte) by (bit_vector)
        requires
            byte < 0x80,
    ;
    assert(valid_first_scalar(raw));
    lemma_character_in_front(raw, tail);
    assert(raw.take(1) =~= raw);
}

/// Turning the line ends of well-formed bytes turns those of their text.
proof fn lemma_crlf_in_bytes(raw: Seq<u8>)
    requires
        valid_utf8(raw),
    ensures
        valid_utf8(bytes_to_crlf(raw)),
        decode_utf8(bytes_to_crlf(raw)) == lf_to_crlf(decode_utf8(raw)),
    decreases raw.len(),
{
    if raw.len() > 0 {
        lemma_first_character(raw);
        let n = length_of_first_scalar(raw);
        let rest = pop_first_scalar(raw);
        let text = decode_utf8(raw);
        lemma_crlf_in_bytes(rest);
        assert(text.skip(1) =~= decode_utf8(rest));
        if raw[0] == 10 {
            let turned = bytes_to_crlf(rest);
            assert(rest =~= raw.skip(1));
            lemma_ascii_in_front(10, turned);
            lemma_ascii_in_front(13, seq![10u8] + turned);
            assert(bytes_to_crlf(raw) =~= seq![13u8] + (seq![10u8] + turned));
            assert(lf_to_crlf(text) =~= seq!['\r'] + (seq!['\n'] + lf_to_crlf(text.skip(1))));
        } else {
            let head = raw.take(n);
            assert(raw =~= head + rest);
            lemma_crlf_keeps_a_character(head, rest);
            lemma_character_in_front(raw, bytes_to_crlf(rest));
        }
    }
}

/// A well-formed text begins with a line feed or a carriage return just if its
/// bytes do.
proof fn lemma_first_of_text(raw: Seq<u8>)
    requires
        valid_utf8(raw),
        raw.len() > 0,
    ensures
        1 <= length_of_first_scalar(raw) <= raw.len(),
        raw[0] < 0x80 ==> length_of_first_scalar(raw) == 1,
        valid_utf8(pop_first_scalar(raw)),
        decode_utf8(raw).len() > 0,
        decode_utf8(raw).skip(1) == decode_utf8(pop_first_scalar(raw)),
        decode_utf8(raw)[0] == '\n' <==> raw[0] == 10,
        decode_utf8(raw)[0] == '\r' <==> raw[0] == 13,
{
    lemma_first_character(raw);
    assert(decode_utf8(raw).skip(1) =~= decode_utf8(pop_first_scalar(raw)));
}

/// Well-formed bytes without carriage-return line-feed pairs encode a text without
/// such pairs.
proof fn lemma_lf_only_in_bytes(raw: Seq<u8>)
    requires
        valid_utf8(raw),
        bytes_lf_only(raw),
    ensures
        lf_only(decode_utf8(raw)),
    decreases raw.len(),
{
    if raw.len() > 0 {
        lemma_first_of_text(raw);
        let n = length_of_first_scalar(raw);
        let rest = pop_first_scalar(raw);
        let text = decode_utf8(raw);
        assert forall|k: int| !occurs_at(rest, seq![13u8, 10u8], k) by {
            if occurs_at(rest, seq![13u8, 10u8], k) {
                assert(raw.subrange(k + n, k + n + 2) =~= rest.subrange(k, k + 2));
                assert(occurs_at(raw, seq![13u8, 10u8], k + n));
            }
        }
        lemma_lf_only_in_bytes(rest);
        assert forall|k: int| !occurs_at(text, seq!['\r', '\n'], k) by {
            if occurs_at(text, seq!['\r', '\n'], k) {
                let pair = text.subrange(k, k + 2);
                assert(pair[0] == '\r' && pair[1] == '\n');
                if k == 0 {
                    assert(decode_utf8(rest)[0] == text[1]);
                    assert(rest.len() > 0);
                    lemma_first_of_text(rest);
                    assert(raw.subrange(0, 2) =~= seq![13u8, 10u8]);
                    assert(occurs_at(raw, seq![13u8, 10u8], 0));
                } else {
                    assert(text.skip(1).subrange(k - 1, k + 1) =~= pair);
                    assert(occurs_at(decode_utf8(rest), seq!['\r', '\n'], k - 1));
                }
            }
        }
    }
}

/// How the lines of an event end on the wire does not matter either: well-formed
/// bytes whose lines end in line feeds spell the same name and data when they end
/// in carriage-return line-feed pairs.
pub proof fn lemma_line_ends_on_the_wire_do_not_matter(raw: Seq<u8>)
    requires
        valid_utf8(raw),
        bytes_lf_only(raw),
    ensures
        valid_utf8(bytes_to_crlf(raw)),
        ({
            let lf = read_text(raw, decode_utf8(raw));
            let crlf = read_text(bytes_to_crlf(raw), decode_utf8(bytes_to_crlf(raw)));
            &&& crlf.event == lf.event
            &&& crlf.data == lf.data
            &&& lf.raw == raw
            &&& crlf.raw == bytes_to_crlf(raw)
        }),
{
    lemma_crlf_in_bytes(raw);
    lemma_lf_only_in_bytes(raw);
    lemma_line_ends_do_not_matter(raw, bytes_to_crlf(raw), decode_utf8(raw));
}

// ---------------------------------------------------------------------------
// Operations
// ---------------------------------------------------------------------------

impl Default for SseParser {
    fn default() -> (parser: Self)
        ensures
            parser@ == Seq::<u8>::empty(),
    {
        SseParser { buffer: buffer_new() }
    }
}

impl SseParser {
    /// A parser that has seen nothing.
    pub fn new() -> (parser: Self)
        ensures
            parser@ == Seq::<u8>::empty(),
    {
        SseParser { buffer: buffer_new() }
    }

    /// Takes in `chunk` and returns the events that are now whole.
    pub fn push(&mut self, chunk: &[u8]) -> (events: Vec<SseEvent>)
        requires
            fits_buffer(old(self)@.len() + chunk@.len()),
        ensures
            event_views(events@) == events_of(old(self)@ + chunk@),
            final(self)@ == frames(old(self)@ + chunk@).1,
            raws(events@) == frames(old(self)@ + chunk@).0,
            concat(raws(events@)) + final(self)@ == old(self)@ + chunk@,
            forall|i: int|
                0 <= i < events@.len() ==> is_one_event(bytes_content((#[trigger] events@[i]).raw)),
            forall|k: int|
                !occurs_at(final(self)@, lf_lf(), k) && !occurs_at(final(self)@, crlf_crlf(), k),
    {
        buffer_extend(&mut self.buffer, chunk);
        let mut events: Vec<SseEvent> = Vec::new();
        let ghost all = self@;
        let ghost mut done = Seq::<Seq<u8>>::empty();
        assert(done + frames(all).0 =~= frames(all).0);
        assert(event_views(events@) =~= done.map_values(|raw: Seq<u8>| event_of(raw)));
        loop
            invariant
                done + frames(self@).0 == frames(all).0,
                frames(self@).1 == frames(all).1,
                event_views(events@) == done.map_values(|raw: Seq<u8>| event_of(raw)),
            ensures
                done == frames(all).0,
                self@ == frames(all).1,
                event_views(events@) == done.map_values(|raw: Seq<u8>| event_of(raw)),
            decreases self@.len(),
        {
            let ghost before = self@;
            let found = find_event_delimiter(buffer_slice(&self.buffer));
            match found {
                Some((index, delimiter_len)) => {
                    proof {
                        lemma_delimiter_bounds(before, 0);
                    }
                    let head = buffer_split_to(&mut self.buffer, index + delimiter_len);
                    let raw = buffer_freeze(head);
                    let ghost taken = bytes_content(raw);
                    let ghost earlier = event_views(events@);
                    events.push(parse_event(raw));
                    proof {
                        assert(event_views(events@) =~= earlier.push(event_of(taken)));
                        assert(done.push(taken) + frames(self@).0 =~= done + frames(before).0);
                        assert(done.push(taken).map_values(|raw: Seq<u8>| event_of(raw))
                            =~= done.map_values(|raw: Seq<u8>| event_of(raw)).push(
                            event_of(taken),
                        ));
                        done = done.push(taken);
                    }
                },
                None => {
                    assert(done + Seq::<Seq<u8>>::empty() =~= done);
                    break;
                },
            }
        }
        proof {
            let parts = frames(all).0;
            assert forall|i: int| 0 <= i < events@.len() implies #[trigger] raws(events@)[i]
                == parts[i] by {
                assert(event_views(events@)[i] == event_of(parts[i]));
            }
            assert(event_views(events@).len() == parts.len());
            assert(raws(events@) =~= parts);
            lemma_frames_keep_every_byte(all);
            lemma_each_frame_is_one_event(all);
            lemma_rest_holds_no_event(all);
            assert(forall|i: int|
                0 <= i < events@.len() ==> raws(events@)[i] == bytes_content(
                    (#[trigger] events@[i]).raw,
                ));
        }
        events
    }

    /// How many bytes are kept back.
    pub fn buffered_len(&self) -> (len: usize)
        ensures
            len == self@.len(),
    {
        buffer_slice(&self.buffer).len()
    }

    /// Hands out the bytes that were kept back.
    pub fn take_buffer(&mut self) -> (bytes: Bytes)
        ensures
            bytes_content(bytes) == old(self)@,
            final(self)@ == Seq::<u8>::empty(),
    {
        buffer_freeze(buffer_split(&mut self.buffer))
    }
}

/// Where the first blank line of `buffer` begins, and how long it is.
pub fn find_event_delimiter(buffer: &[u8]) -> (found: Option<(usize, usize)>)
    ensures
        match found {
            Some((index, len)) => {
                &&& delimiter(buffer@) == Some((index as int, len as int))
                &&& index + len <= buffer.len()
            },
            None => delimiter(buffer@) is None,
        },
{
    let two_lf: [u8; 2] = [10u8, 10u8];
    let two_crlf: [u8; 4] = [13u8, 10u8, 13u8, 10u8];
    proof {
        assert(two_lf@ =~= lf_lf());
        assert(two_crlf@ =~= crlf_crlf());
        lemma_delimiter_bounds(buffer@, 0);
    }
    let lf = find_subsequence(buffer, two_lf.as_slice());
    let crlf = find_subsequence(buffer, two_crlf.as_slice());
    proof {
        if let Some(left) = lf {
            if let Some(right) = crlf {
                if left == right {
                    assert(buffer@.subrange(left as int, left + 2)[0] == 10u8);
                    assert(buffer@.subrange(right as int, right + 4)[0] == 13u8);
                }
            }
        }
    }
    match (lf, crlf) {
        (Some(left), Some(right)) => if left <= right {
            Some((left, 2))
        } else {
            Some((right, 4))
        },
        (Some(left), None) => Some((left, 2)),
        (None, Some(right)) => Some((right, 4)),
        (None, None) => None,
    }
}

/// The first position at which `needle` occurs in `haystack`.
pub fn find_subsequence(haystack: &[u8], needle: &[u8]) -> (found: Option<usize>)
    requires
        needle@.len() > 0,
    ensures
        match found {
            Some(index) => {
                &&& occurs_at(haystack@, needle@, index as int)
                &&& forall|k: int| 0 <= k < index ==> !occurs_at(haystack@, needle@, k)
            },
            None => forall|k: int| !occurs_at(haystack@, needle@, k),
        },
{
    let mut at: usize = 0;
    while at < haystack.len() && needle.len() <= haystack.len() - at
        invariant
            at <= haystack@.len(),
            forall|k: int| 0 <= k < at ==> !occurs_at(haystack@, needle@, k),
        decreases haystack@.len() - at,
    {
        if same_window(haystack, needle, at) {
            return Some(at);
        }
        at += 1;
    }
    None
}

/// Whether the window of `haystack` at `at` equals `needle`.
fn same_window(haystack: &[u8], needle: &[u8], at: usize) -> (same: bool)
    requires
        at + needle@.len() <= haystack@.len(),
    ensures
        same == occurs_at(haystack@, needle@, at as int),
{
    let mut i: usize = 0;
    while i < needle.len()
        invariant
            i <= needle@.len(),
            at + needle@.len() <= haystack.len(),
            forall|k: int| 0 <= k < i ==> haystack@[at + k] == needle@[k],
        decreases needle@.len() - i,
    {
        if haystack[at + i] != needle[i] {
            assert(haystack@.subrange(at as int, at + needle@.len())[i as int] != needle@[i as int]);
            return false;
        }
        i += 1;
    }
    assert(haystack@.subrange(at as int, at + needle@.len()) =~= needle@);
    true
}

/// `chars` with each carriage-return line-feed pair turned into a line feed.
fn normalize_newlines(chars: &[char]) -> (out: Vec<char>)
    ensures
        out@ == crlf_to_lf(chars@),
{
    let mut out: Vec<char> = Vec::new();
    let mut i: usize = 0;
    assert(chars@.skip(0) =~= chars@);
    assert(out@ + crlf_to_lf(chars@) =~= crlf_to_lf(chars@));
    while i < chars.len()
        invariant
            i <= chars@.len(),
            out@ + crlf_to_lf(chars@.skip(i as int)) == crlf_to_lf(chars@),
        decreases chars@.len() - i,
    {
        let ghost before = out@;
        let ghost rest = chars@.skip(i as int);
        if chars[i] == '\r' && i + 1 < chars.len() && chars[i + 1] == '\n' {
            out.push('\n');
            assert(rest.skip(2) =~= chars@.skip(i + 2));
            assert(out@ + crlf_to_lf(rest.skip(2)) =~= before + crlf_to_lf(rest));
            i += 2;
        } else {
            out.push(chars[i]);
            assert(rest.skip(1) =~= chars@.skip(i + 1));
            assert(out@ + crlf_to_lf(rest.skip(1)) =~= before + crlf_to_lf(rest));
            i += 1;
        }
    }
    assert(crlf_to_lf(chars@.skip(i as int)) =~= Seq::<char>::empty());
    assert(out@ + Seq::<char>::empty() =~= out@);
    out
}

/// The lines of `chars`.
fn split_lines(chars: &[char]) -> (lines: Vec<Vec<char>>)
    ensures
        pieces(lines@) == lines_of(chars@),
{
    let parts = split_chars(chars, '\n');
    let ghost spec_parts = split_on(chars@, '\n');
    proof {
        crate::text::lemma_split_nonempty(chars@, '\n');
        assert(parts@.len() == spec_parts.len());
        assert(forall|k: int| 0 <= k < parts@.len() ==> spec_parts[k] == #[trigger] parts@[k]@);
    }
    let ghost ended = spec_parts.drop_last().map_values(|line: Seq<char>| without_cr(line));
    let mut lines: Vec<Vec<char>> = Vec::new();
    let mut i: usize = 0;
    while i < parts.len() - 1
        invariant
            parts@.len() >= 1,
            parts@.len() == spec_parts.len(),
            forall|k: int| 0 <= k < parts@.len() ==> spec_parts[k] == #[trigger] parts@[k]@,
            i <= parts@.len() - 1,
            ended == spec_parts.drop_last().map_values(|line: Seq<char>| without_cr(line)),
            pieces(lines@) == ended.take(i as int),
        decreases parts@.len() - i,
    {
        let part = &parts[i];
        let ghost earlier = pieces(lines@);
        let mut n: usize = part.len();
        if n > 0 && part[n - 1] == '\r' {
            n = n - 1;
        }
        let line = vstd::slice::slice_to_vec(vstd::slice::slice_subrange(part.as_slice(), 0, n));
        assert(line@ =~= without_cr(part@));
        assert(ended[i as int] == line@);
        lines.push(line);
        assert(pieces(lines@) =~= earlier.push(line@));
        assert(ended.take(i + 1) =~= ended.take(i as int).push(ended[i as int]));
        i += 1;
    }
    assert(ended.take(i as int) =~= ended);
    let tail = &parts[i];
    assert(spec_parts.last() == tail@);
    if tail.len() > 0 {
        let line = vstd::slice::slice_to_vec(tail.as_slice());
        let ghost earlier = pieces(lines@);
        lines.push(line);
        assert(pieces(lines@) =~= earlier.push(tail@));
    }
    lines
}

/// What `line` gives `field`.
fn read_field(line: &[char], field: &str) -> (value: Option<Vec<char>>)
    ensures
        match value {
            Some(value) => field_value(line@, field@) == Some(value@),
            None => field_value(line@, field@) is None,
        },
{
    let name = chars_of(field);
    if starts_with_chars(line, name.as_slice()) {
        let rest = vstd::slice::slice_subrange(line, name.len(), line.len());
        assert(rest@ =~= line@.skip(field@.len() as int));
        Some(vstd::slice::slice_to_vec(trim_start_chars(rest)))
    } else {
        None
    }
}

/// Reads the event that the bytes `raw` spell. Well-formed bytes are read as the
/// text that they encode.
pub fn parse_event(raw: Bytes) -> (event: SseEvent)
    ensures
        event@ == event_of(bytes_content(raw)),
        valid_utf8(bytes_content(raw)) ==> event@ == read_text(
            bytes_content(raw),
            decode_utf8(bytes_content(raw)),
        ),
{
    let text = text_from_utf8_lossy(bytes_slice(&raw));
    read_event(raw, text.as_str())
}

/// Reads the event of the bytes `raw`, which read as `text`.
pub fn read_event(raw: Bytes, text: &str) -> (event: SseEvent)
    ensures
        event@ == read_text(bytes_content(raw), text@),
{
    let chars = chars_of(text);
    let normal = normalize_newlines(chars.as_slice());
    let lines = split_lines(normal.as_slice());
    let ghost spec_lines = pieces(lines@);
    let mut name: Option<String> = None;
    let mut data = String::new();
    let mut first = true;
    let mut i: usize = 0;
    assert(data@ =~= join(data_values(spec_lines.take(0)), "\n"@));
    while i < lines.len()
        invariant
            i <= lines@.len(),
            spec_lines == pieces(lines@),
            crate::text::opt_text(name) == event_name(spec_lines.take(i as int)),
            data@ == join(data_values(spec_lines.take(i as int)), "\n"@),
            first == (data_values(spec_lines.take(i as int)).len() == 0),
        decreases lines@.len() - i,
    {
        let line = &lines[i];
        proof {
            assert(spec_lines.take(i + 1).drop_last() =~= spec_lines.take(i as int));
            assert(spec_lines.take(i + 1).last() == line@);
        }
        let ghost earlier = data_values(spec_lines.take(i as int));
        let event_value = read_field(line.as_slice(), "event:");
        if let Some(value) = event_value {
            name = Some(text_of(value.as_slice()));
        }
        let data_value = read_field(line.as_slice(), "data:");
        if let Some(value) = data_value {
            assert(earlier.push(value@).drop_last() =~= earlier);
            if !first {
                data.append("\n");
            }
            let piece = text_of(value.as_slice());
            data.append(piece.as_str());
            if first {
                assert(data@ =~= value@);
            }
            first = false;
        }
        i += 1;
    }
    assert(spec_lines.take(spec_lines.len() as int) =~= spec_lines);
    SseEvent { raw, event: name, data }
}

}
