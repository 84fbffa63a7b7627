//! Which header lines pass through the proxy.

use axum::http::HeaderMap;
use vstd::prelude::*;

use crate::interop::http::{
    entry_views, header_entries, header_get, header_get_all, header_lines, plain_name, short_name,
    values_named, HeaderEntry,
};
use crate::text::{
    chars_of, contains_chars, contains_text, lower, lower_chars, occurs_at, pieces, same_text,
    split_chars, split_on, text_of, trim, trim_chars,
};

verus! {

/// A header line: name and value.
pub type Line = (Seq<char>, Seq<u8>);

/// The bytes that a header value may hold to count as text.
pub open spec fn is_visible(byte: u8) -> bool {
    32 <= byte < 127 || byte == 9
}

/// The text of a header value, if all of it is visible.
pub open spec fn visible_text(value: Seq<u8>) -> Option<Seq<char>> {
    if forall|i: int| 0 <= i < value.len() ==> is_visible(#[trigger] value[i]) {
        Some(value.map_values(|byte: u8| byte as char))
    } else {
        None
    }
}

/// The names of lines that concern one connection only, or that the proxy sets itself.
pub open spec fn is_hop_by_hop(name: Seq<char>) -> bool {
    ||| name == "connection"@
    ||| name == "keep-alive"@
    ||| name == "proxy-connection"@
    ||| name == "proxy-authenticate"@
    ||| name == "proxy-authorization"@
    ||| name == "te"@
    ||| name == "trailer"@
    ||| name == "transfer-encoding"@
    ||| name == "upgrade"@
    ||| name == "host"@
    ||| name == "content-length"@
}

/// The names that the value of a `connection` line lists.
pub open spec fn listed(value: Seq<u8>) -> Seq<Seq<char>> {
    match visible_text(value) {
        Some(text) => split_on(text, ',').map_values(
            |part: Seq<char>| lower(trim(part)),
        ),
        None => Seq::empty(),
    }
}

/// Whether some `connection` line lists `name`.
pub open spec fn is_listed(lines: Seq<Line>, name: Seq<char>) -> bool {
    &&& name.len() > 0
    &&& exists|i: int|
        0 <= i < values_named(lines, "connection"@).len() && listed(
            #[trigger] values_named(lines, "connection"@)[i],
        ).contains(name)
}

/// Whether a line of a message with the lines `lines` stays behind.
pub open spec fn skipped(lines: Seq<Line>, line: Line) -> bool {
    is_hop_by_hop(lower(line.0)) || is_listed(lines, lower(line.0))
}

/// The lines that pass through, in order.
pub open spec fn passed(lines: Seq<Line>) -> Seq<Line> {
    lines.filter(|line: Line| !skipped(lines, line))
}

/// Whether the lines announce server-sent events.
pub open spec fn announces_events(lines: Seq<Line>) -> bool {
    let values = values_named(lines, "content-type"@);
    &&& values.len() > 0
    &&& visible_text(values[0]) is Some
    &&& contains_text(lower(visible_text(values[0])->0), "text/event-stream"@)
}

// ---------------------------------------------------------------------------
// Laws
// ---------------------------------------------------------------------------

/// No line that passes concerns one connection only, by its name or because a
/// `connection` line lists it.
pub proof fn lemma_connection_lines_stay_behind(lines: Seq<Line>, at: int)
    requires
        0 <= at < passed(lines).len(),
    ensures
        !is_hop_by_hop(lower(passed(lines)[at].0)),
        !is_listed(lines, lower(passed(lines)[at].0)),
{
    lines.lemma_filter_pred(|line: Line| !skipped(lines, line), at);
}

/// Every other line passes, with its name and its value as they were.
pub proof fn lemma_other_lines_pass(lines: Seq<Line>, at: int)
    requires
        0 <= at < lines.len(),
        !is_hop_by_hop(lower(lines[at].0)),
        !is_listed(lines, lower(lines[at].0)),
    ensures
        passed(lines).contains(lines[at]),
{
    lines.lemma_filter_contains(|line: Line| !skipped(lines, line), at);
}

/// What identifies a client to its upstream, and the upstream to its client,
/// passes untouched unless a `connection` line lists it.
pub proof fn lemma_credentials_pass(lines: Seq<Line>, at: int)
    requires
        0 <= at < lines.len(),
        lower(lines[at].0) == "authorization"@ || lower(lines[at].0) == "cookie"@ || lower(
            lines[at].0,
        ) == "set-cookie"@,
        !is_listed(lines, lower(lines[at].0)),
    ensures
        passed(lines).contains(lines[at]),
{
    reveal_strlit("authorization");
    reveal_strlit("cookie");
    reveal_strlit("set-cookie");
    reveal_strlit("connection");
    reveal_strlit("keep-alive");
    reveal_strlit("proxy-connection");
    reveal_strlit("proxy-authenticate");
    reveal_strlit("proxy-authorization");
    reveal_strlit("te");
    reveal_strlit("trailer");
    reveal_strlit("transfer-encoding");
    reveal_strlit("upgrade");
    reveal_strlit("host");
    reveal_strlit("content-length");
    let name = lower(lines[at].0);
    assert(name[0] == 'a' || name[0] == 'c' && name[2] == 'o' && name.len() == 6 || name[0] == 's');
    assert("connection"@.len() == 10 && "connection"@[0] == 'c');
    assert("content-length"@.len() == 14 && "content-length"@[0] == 'c');
    assert(!is_hop_by_hop(name));
    lemma_other_lines_pass(lines, at);
}

/// The lines that pass are among those that came: the proxy adds none.
pub proof fn lemma_no_line_is_added(lines: Seq<Line>, at: int)
    requires
        0 <= at < passed(lines).len(),
    ensures
        lines.contains(passed(lines)[at]),
{
    lemma_filter_is_subset(lines, |line: Line| !skipped(lines, line), at);
}

/// A line passes unless its name, in small letters, is one of eleven, or one that
/// a `connection` line lists.
pub proof fn lemma_eleven_names_stay_behind(lines: Seq<Line>, at: int)
    requires
        0 <= at < lines.len(),
        ({
            let name = lower(lines[at].0);
            &&& name != "connection"@ && name != "keep-alive"@ && name != "proxy-connection"@
            &&& name != "proxy-authenticate"@ && name != "proxy-authorization"@ && name != "te"@
            &&& name != "trailer"@ && name != "transfer-encoding"@ && name != "upgrade"@
            &&& name != "host"@ && name != "content-length"@
        }),
        forall|c: int, k: int|
            0 <= c < lines.len() && (#[trigger] lines[c]).0 == "connection"@ && visible_text(
                lines[c].1,
            ) is Some && 0 <= k < split_on(visible_text(lines[c].1)->0, ',').len() ==> lower(
                trim(#[trigger] split_on(visible_text(lines[c].1)->0, ',')[k]),
            ) != lower(lines[at].0),
    ensures
        passed(lines).contains(lines[at]),
{
    let name = lower(lines[at].0);
    if is_listed(lines, name) {
        let values = values_named(lines, "connection"@);
        let i = choose|i: int|
            0 <= i < values.len() && listed(#[trigger] values[i]).contains(name);
        let c = lemma_value_has_a_line(lines, "connection"@, i);
        let parts = split_on(visible_text(lines[c].1)->0, ',');
        let k = choose|k: int| 0 <= k < listed(values[i]).len() && listed(values[i])[k] == name;
        assert(lower(trim(parts[k])) == name);
    }
    lemma_other_lines_pass(lines, at);
}

/// A line whose name, in small letters, is one of the eleven stays behind.
pub proof fn lemma_named_lines_stay_behind(lines: Seq<Line>, at: int)
    requires
        0 <= at < lines.len(),
        ({
            let name = lower(lines[at].0);
            ||| name == "connection"@ || name == "keep-alive"@ || name == "proxy-connection"@
            ||| name == "proxy-authenticate"@ || name == "proxy-authorization"@ || name == "te"@
            ||| name == "trailer"@ || name == "transfer-encoding"@ || name == "upgrade"@
            ||| name == "host"@ || name == "content-length"@
        }),
    ensures
        !passed(lines).contains(lines[at]),
{
    if passed(lines).contains(lines[at]) {
        let k = choose|k: int| 0 <= k < passed(lines).len() && passed(lines)[k] == lines[at];
        lemma_connection_lines_stay_behind(lines, k);
    }
}

/// A line that any `connection` line lists stays behind, whatever the case of the
/// letters and whatever white space stands around the name in the list.
pub proof fn lemma_listed_lines_stay_behind(lines: Seq<Line>, at: int, connection: int, k: int)
    requires
        0 <= at < lines.len(),
        0 <= connection < lines.len(),
        lines[connection].0 == "connection"@,
        visible_text(lines[connection].1) is Some,
        0 <= k < split_on(visible_text(lines[connection].1)->0, ',').len(),
        lower(trim(split_on(visible_text(lines[connection].1)->0, ',')[k])) == lower(lines[at].0),
        lines[at].0.len() > 0,
    ensures
        !passed(lines).contains(lines[at]),
{
    let name = lower(lines[at].0);
    let i = lemma_line_has_a_value(lines, "connection"@, connection);
    let value = values_named(lines, "connection"@)[i];
    assert(listed(value)[k] == name);
    assert(listed(value).contains(name));
    assert(is_listed(lines, name));
    if passed(lines).contains(lines[at]) {
        let p = choose|p: int| 0 <= p < passed(lines).len() && passed(lines)[p] == lines[at];
        lemma_connection_lines_stay_behind(lines, p);
    }
}

/// The lines that pass keep their order, and one that came several times passes
/// as many times.
pub proof fn lemma_lines_pass_in_order(lines: Seq<Line>)
    ensures
        passed(lines) == lines.filter(|line: Line| passed(lines).contains(line)),
{
    let keep = |line: Line| !skipped(lines, line);
    let pass = |line: Line| passed(lines).contains(line);
    assert forall|i: int| 0 <= i < lines.len() implies keep(#[trigger] lines[i]) == pass(
        lines[i],
    ) by {
        if keep(lines[i]) {
            lines.lemma_filter_contains(keep, i);
        }
        if pass(lines[i]) {
            let k = choose|k: int| 0 <= k < passed(lines).len() && passed(lines)[k] == lines[i];
            lines.lemma_filter_pred(keep, k);
        }
    }
    lemma_filter_alike(lines, keep, pass);
}

proof fn lemma_filter_alike(lines: Seq<Line>, left: spec_fn(Line) -> bool, right: spec_fn(Line) -> bool)
    requires
        forall|i: int| 0 <= i < lines.len() ==> left(#[trigger] lines[i]) == right(lines[i]),
    ensures
        lines.filter(left) == lines.filter(right),
    decreases lines.len(),
{
    reveal(Seq::filter);
    if lines.len() > 0 {
        let before = lines.drop_last();
        assert(lines.last() == lines[lines.len() - 1]);
        assert forall|i: int| 0 <= i < before.len() implies left(#[trigger] before[i]) == right(
            before[i],
        ) by {
            assert(before[i] == lines[i]);
        }
        lemma_filter_alike(before, left, right);
    }
}

/// The values under a name are those of the lines with that name, in order.
pub proof fn lemma_values_are_those_of_the_lines(lines: Seq<Line>, name: Seq<char>)
    ensures
        values_named(lines, name) == lines.filter(|line: Line| line.0 == name).map_values(
            |line: Line| line.1,
        ),
    decreases lines.len(),
{
    reveal(Seq::filter);
    let named = |line: Line| line.0 == name;
    let value = |line: Line| line.1;
    if lines.len() > 0 {
        lemma_values_are_those_of_the_lines(lines.drop_last(), name);
    }
    assert(values_named(lines, name) =~= lines.filter(named).map_values(value));
}

proof fn lemma_value_has_a_line(lines: Seq<Line>, name: Seq<char>, i: int) -> (at: int)
    requires
        0 <= i < values_named(lines, name).len(),
    ensures
        0 <= at < lines.len(),
        lines[at].0 == name,
        lines[at].1 == values_named(lines, name)[i],
    decreases lines.len(),
{
    let before = values_named(lines.drop_last(), name);
    if i < before.len() {
        lemma_value_has_a_line(lines.drop_last(), name, i)
    } else {
        lines.len() - 1
    }
}

proof fn lemma_line_has_a_value(lines: Seq<Line>, name: Seq<char>, at: int) -> (i: int)
    requires
        0 <= at < lines.len(),
        lines[at].0 == name,
    ensures
        0 <= i < values_named(lines, name).len(),
        lines[at].1 == values_named(lines, name)[i],
    decreases lines.len(),
{
    if at == lines.len() - 1 {
        values_named(lines, name).len() - 1
    } else {
        lemma_line_has_a_value(lines.drop_last(), name, at)
    }
}

/// A value is text if all its bytes are a tab or printable ASCII, and then each
/// byte stands for the character with its number.
pub proof fn lemma_visible_values_are_text(value: Seq<u8>)
    ensures
        visible_text(value) is Some <==> forall|i: int|
            0 <= i < value.len() ==> (#[trigger] value[i] == 9 || 32 <= value[i] <= 126),
        visible_text(value) matches Some(text) ==> {
            &&& text.len() == value.len()
            &&& forall|i: int| 0 <= i < text.len() ==> #[trigger] text[i] as int == value[i] as int
        },
{
    if visible_text(value) is Some {
        assert forall|i: int| 0 <= i < value.len() implies (#[trigger] value[i] == 9 || 32
            <= value[i] <= 126) by {
            assert(is_visible(value[i]));
        }
    }
    if forall|i: int| 0 <= i < value.len() ==> (#[trigger] value[i] == 9 || 32 <= value[i] <= 126) {
        assert(forall|i: int| 0 <= i < value.len() ==> is_visible(#[trigger] value[i]));
    }
}

/// Lines announce server-sent events exactly if the first `content-type` among
/// them is text that holds `text/event-stream`, whatever the case of its letters.
pub proof fn lemma_events_are_announced_by_the_content_type(lines: Seq<Line>)
    ensures
        announces_events(lines) <==> {
            let values = values_named(lines, "content-type"@);
            &&& values.len() > 0
            &&& visible_text(values[0]) matches Some(text) && exists|at: int|
                occurs_at(lower(text), "text/event-stream"@, at)
        },
{
}

proof fn lemma_filter_is_subset(lines: Seq<Line>, keep: spec_fn(Line) -> bool, at: int)
    requires
        0 <= at < lines.filter(keep).len(),
    ensures
        lines.contains(lines.filter(keep)[at]),
    decreases lines.len(),
{
    reveal(Seq::filter);
    let before = lines.drop_last().filter(keep);
    if at < before.len() {
        lemma_filter_is_subset(lines.drop_last(), keep, at);
        let k = choose|k: int|
            0 <= k < lines.drop_last().len() && lines.drop_last()[k] == before[at];
        assert(lines[k] == lines.filter(keep)[at]);
    } else {
        assert(lines[lines.len() - 1] == lines.filter(keep)[at]);
    }
}

// ---------------------------------------------------------------------------
// Operations
// ---------------------------------------------------------------------------

/// The text of a header value, if all of it is visible.
pub fn value_text(value: &[u8]) -> (text: Option<String>)
    ensures
        crate::text::opt_text(text) == visible_text(value@),
{
    let mut text = String::new();
    let mut i: usize = 0;
    assert(text@ =~= value@.map_values(|byte: u8| byte as char).take(0));
    while i < value.len()
        invariant
            i <= value@.len(),
            text@ == value@.map_values(|byte: u8| byte as char).take(i as int),
            forall|k: int| 0 <= k < i ==> is_visible(#[trigger] value@[k]),
        decreases value@.len() - i,
    {
        let byte: u8 = value[i];
        if !((32 <= byte && byte < 127) || byte == 9) {
            assert(!is_visible(value@[i as int]));
            return None;
        }
        text.push(byte as char);
        assert(text@ =~= value@.map_values(|byte: u8| byte as char).take(i + 1));
        i += 1;
    }
    assert(text@ =~= value@.map_values(|byte: u8| byte as char));
    Some(text)
}

/// The text of the first line under `name`, if it is visible. There is none under
/// what cannot be a name. Of such a text with more than 64 bytes nothing is said.
pub fn header_text(headers: &HeaderMap, name: &str) -> (text: Option<String>)
    ensures
        plain_name(name@) ==> crate::text::opt_text(text) == first_text(
            header_lines(*headers),
            lower(name@),
        ),
        !plain_name(name@) && short_name(name@) ==> text is None,
{
    match header_get(headers, name) {
        Some(value) => value_text(value.as_slice()),
        None => None,
    }
}

/// The text of the first of `lines` under `name`, if it is visible.
pub open spec fn first_text(lines: Seq<Line>, name: Seq<char>) -> Option<Seq<char>> {
    let values = values_named(lines, name);
    if values.len() > 0 {
        visible_text(values[0])
    } else {
        None
    }
}

proof fn lemma_lower_literals()
    ensures
        lower("connection"@) == "connection"@,
        lower("content-type"@) == "content-type"@,
        plain_name("connection"@),
        plain_name("content-type"@),
{
    reveal_strlit("connection");
    reveal_strlit("content-type");
    assert(lower("connection"@) =~= "connection"@);
    assert(lower("content-type"@) =~= "content-type"@);
}

/// Whether `name` is that of a line that concerns one connection only.
pub fn is_hop_by_hop_name(name: &str) -> (found: bool)
    ensures
        found == is_hop_by_hop(name@),
{
    same_text(name, "connection") || same_text(name, "keep-alive") || same_text(
        name,
        "proxy-connection",
    ) || same_text(name, "proxy-authenticate") || same_text(name, "proxy-authorization")
        || same_text(name, "te") || same_text(name, "trailer") || same_text(
        name,
        "transfer-encoding",
    ) || same_text(name, "upgrade") || same_text(name, "host") || same_text(name, "content-length")
}

/// Whether `tokens` holds `name`.
pub open spec fn has_token(tokens: Seq<String>, name: Seq<char>) -> bool {
    exists|t: int| 0 <= t < tokens.len() && #[trigger] tokens[t]@ == name
}

/// Whether `tokens` holds `name`.
fn holds(tokens: &[String], name: &str) -> (found: bool)
    ensures
        found == has_token(tokens@, name@),
{
    let mut i: usize = 0;
    while i < tokens.len()
        invariant
            i <= tokens@.len(),
            forall|k: int| 0 <= k < i ==> #[trigger] tokens@[k]@ != name@,
        decreases tokens@.len() - i,
    {
        if same_text(tokens[i].as_str(), name) {
            assert(tokens@[i as int]@ == name@);
            return true;
        }
        i += 1;
    }
    false
}

/// Whether `tokens` holds exactly the names, none of them empty, that the first
/// `count` of `values` list.
spec fn collected(tokens: Seq<String>, values: Seq<Seq<u8>>, count: int) -> bool {
    forall|name: Seq<char>|
        #[trigger] has_token(tokens, name) <==> (name.len() > 0
            && exists|i: int| 0 <= i < count && #[trigger] listed(values[i]).contains(name))
}

proof fn lemma_token_pushed(
    before: Seq<String>,
    token: String,
    values: Seq<Seq<u8>>,
    count: int,
    part: int,
)
    requires
        collected_part(before, values, count, part),
        0 <= count < values.len(),
        0 <= part < listed(values[count]).len(),
        token@ == listed(values[count])[part],
        token@.len() > 0,
    ensures
        collected_part(before.push(token), values, count, part + 1),
{
    let after = before.push(token);
    assert forall|name: Seq<char>|
        #[trigger] has_token(after, name) <==> in_part(
            values,
            count,
            part + 1,
            name,
        ) by {
        if has_token(after, name) {
            let t = choose|t: int| 0 <= t < after.len() && #[trigger] after[t]@ == name;
            if t < before.len() {
                assert(before[t]@ == name);
                assert(has_token(before, name));
                assert(in_part(values, count, part, name));
                lemma_in_part_grows(values, count, part, name);
            } else {
                assert(listed(values[count])[part] == name);
            }
        }
        if in_part(values, count, part + 1, name) {
            if in_part(values, count, part, name) {
                assert(has_token(before, name));
                let t = choose|t: int| 0 <= t < before.len() && #[trigger] before[t]@ == name;
                assert(after[t]@ == name);
            } else {
                assert(listed(values[count])[part] == name);
                assert(after[before.len() as int]@ == name);
            }
        }
    }
}

/// Whether `name` is listed by one of the first `count` values, or among the
/// first `part` names of the next.
spec fn in_part(values: Seq<Seq<u8>>, count: int, part: int, name: Seq<char>) -> bool {
    &&& name.len() > 0
    &&& (exists|i: int| 0 <= i < count && #[trigger] listed(values[i]).contains(name))
        || exists|k: int| 0 <= k < part && #[trigger] listed(values[count])[k] == name
}

spec fn collected_part(
    tokens: Seq<String>,
    values: Seq<Seq<u8>>,
    count: int,
    part: int,
) -> bool {
    forall|name: Seq<char>|
        #[trigger] has_token(tokens, name) <==> in_part(
            values,
            count,
            part,
            name,
        )
}

proof fn lemma_in_part_grows(values: Seq<Seq<u8>>, count: int, part: int, name: Seq<char>)
    requires
        in_part(values, count, part, name),
    ensures
        in_part(values, count, part + 1, name),
{
    if exists|i: int| 0 <= i < count && #[trigger] listed(values[i]).contains(name) {
    } else {
        let k = choose|k: int| 0 <= k < part && #[trigger] listed(values[count])[k] == name;
        assert(listed(values[count])[k] == name);
    }
}

proof fn lemma_empty_token_passed_over(
    tokens: Seq<String>,
    values: Seq<Seq<u8>>,
    count: int,
    part: int,
)
    requires
        collected_part(tokens, values, count, part),
        0 <= part < listed(values[count]).len(),
        listed(values[count])[part].len() == 0,
    ensures
        collected_part(tokens, values, count, part + 1),
{
    assert forall|name: Seq<char>|
        #[trigger] has_token(tokens, name) <==> in_part(
            values,
            count,
            part + 1,
            name,
        ) by {
        if in_part(values, count, part, name) {
            lemma_in_part_grows(values, count, part, name);
        }
    }
}

proof fn lemma_part_begins(tokens: Seq<String>, values: Seq<Seq<u8>>, count: int)
    requires
        collected(tokens, values, count),
    ensures
        collected_part(tokens, values, count, 0),
{
    assert forall|name: Seq<char>|
        #[trigger] has_token(tokens, name) <==> in_part(
            values,
            count,
            0,
            name,
        ) by {}
}

proof fn lemma_part_ends(tokens: Seq<String>, values: Seq<Seq<u8>>, count: int)
    requires
        0 <= count < values.len(),
        collected_part(tokens, values, count, listed(values[count]).len() as int),
    ensures
        collected(tokens, values, count + 1),
{
    assert forall|name: Seq<char>|
        #[trigger] has_token(tokens, name) <==> (name.len() > 0
            && exists|i: int|
            0 <= i < count + 1 && #[trigger] listed(values[i]).contains(name)) by {
        let part = listed(values[count]).len() as int;
        if in_part(values, count, part, name) {
            if exists|k: int| 0 <= k < part && #[trigger] listed(values[count])[k] == name {
                assert(listed(values[count]).contains(name));
            } else {
                let i = choose|i: int| 0 <= i < count && #[trigger] listed(values[i]).contains(name);
                assert(listed(values[i]).contains(name));
            }
        }
        if name.len() > 0 && exists|i: int|
            0 <= i < count + 1 && #[trigger] listed(values[i]).contains(name) {
            let i = choose|i: int|
                0 <= i < count + 1 && #[trigger] listed(values[i]).contains(name);
            if i == count {
                let k = choose|k: int| 0 <= k < part && listed(values[count])[k] == name;
                assert(listed(values[count])[k] == name);
            } else {
                assert(listed(values[i]).contains(name));
            }
            assert(in_part(values, count, part, name));
        }
    }
}

/// The names that the `connection` lines of `headers` list.
pub fn connection_header_tokens(headers: &HeaderMap) -> (tokens: Vec<String>)
    ensures
        forall|name: Seq<char>|
            has_token(tokens@, name) <==> #[trigger] is_listed(header_lines(*headers), name),
{
    let values = header_get_all(headers, "connection");
    let ghost bytes = values_named(header_lines(*headers), "connection"@);
    proof {
        lemma_lower_literals();
        assert(bytes.len() == values@.len());
        assert forall|k: int| 0 <= k < values@.len() implies bytes[k] == #[trigger] values@[k]@ by {}
    }
    let mut tokens: Vec<String> = Vec::new();
    let mut i: usize = 0;
    while i < values.len()
        invariant
            i <= values@.len(),
            bytes.len() == values@.len(),
            forall|k: int| 0 <= k < values@.len() ==> bytes[k] == #[trigger] values@[k]@,
            collected(tokens@, bytes, i as int),
        decreases values@.len() - i,
    {
        assert(bytes[i as int] == values@[i as int]@);
        proof {
            lemma_part_begins(tokens@, bytes, i as int);
        }
        if let Some(text) = value_text(values[i].as_slice()) {
            let chars = chars_of(text.as_str());
            let parts = split_chars(chars.as_slice(), ',');
            let mut j: usize = 0;
            assert(listed(bytes[i as int]).len() == parts@.len());
            while j < parts.len()
                invariant
                    i < values@.len(),
                    bytes.len() == values@.len(),
                    j <= parts@.len(),
                    listed(bytes[i as int]).len() == parts@.len(),
                    visible_text(bytes[i as int]) == Some(chars@),
                    pieces(parts@) == split_on(chars@, ','),
                    collected_part(tokens@, bytes, i as int, j as int),
                decreases parts@.len() - j,
            {
                let token = lower_chars(trim_chars(parts[j].as_slice()));
                assert(pieces(parts@)[j as int] == parts@[j as int]@);
                assert(token@ == listed(bytes[i as int])[j as int]);
                let ghost before = tokens@;
                if token.len() > 0 {
                    let name = text_of(token.as_slice());
                    tokens.push(name);
                    proof {
                        lemma_token_pushed(before, name, bytes, i as int, j as int);
                    }
                } else {
                    proof {
                        lemma_empty_token_passed_over(before, bytes, i as int, j as int);
                    }
                }
                j += 1;
            }
        }
        proof {
            lemma_part_ends(tokens@, bytes, i as int);
        }
        i += 1;
    }
    proof {
        assert forall|name: Seq<char>|
            has_token(tokens@, name) <==> #[trigger] is_listed(header_lines(*headers), name) by {
            if has_token(tokens@, name) {
                let i = choose|i: int|
                    0 <= i < bytes.len() && #[trigger] listed(bytes[i]).contains(name);
                assert(listed(values_named(header_lines(*headers), "connection"@)[i]).contains(name));
            }
            if is_listed(header_lines(*headers), name) {
                let i = choose|i: int|
                    0 <= i < bytes.len() && listed(
                        #[trigger] values_named(header_lines(*headers), "connection"@)[i],
                    ).contains(name);
                assert(listed(bytes[i]).contains(name));
            }
        }
    }
    tokens
}

/// Whether a line named `name` stays behind, given what the `connection` lines list.
pub fn should_skip_header(name: &str, connection_headers: &[String]) -> (skip: bool)
    ensures
        skip == (is_hop_by_hop(lower(name@)) || has_token(
            connection_headers@,
            lower(name@),
        )),
{
    let chars = chars_of(name);
    let name = text_of(lower_chars(chars.as_slice()).as_slice());
    is_hop_by_hop_name(name.as_str()) || holds(connection_headers, name.as_str())
}

fn passing_entries(headers: &HeaderMap) -> (kept: Vec<HeaderEntry>)
    ensures
        entry_views(kept@) == passed(header_lines(*headers)),
{
    let tokens = connection_header_tokens(headers);
    let entries = header_entries(headers);
    let ghost lines = header_lines(*headers);
    let ghost keep = |line: Line| !skipped(lines, line);
    let mut kept: Vec<HeaderEntry> = Vec::new();
    let mut i: usize = 0;
    proof {
        reveal(Seq::filter);
        assert(entry_views(kept@) =~= lines.take(0).filter(keep));
    }
    while i < entries.len()
        invariant
            i <= entries@.len(),
            lines == header_lines(*headers),
            entry_views(entries@) == lines,
            keep == (|line: Line| !skipped(lines, line)),
            forall|name: Seq<char>|
                has_token(tokens@, name) <==> #[trigger] is_listed(lines, name),
            entry_views(kept@) == lines.take(i as int).filter(keep),
        decreases entries@.len() - i,
    {
        let ghost before = entry_views(kept@);
        let entry = &entries[i];
        proof {
            reveal(Seq::filter);
            assert(lines.take(i + 1).drop_last() =~= lines.take(i as int));
            assert(lines.take(i + 1).last() == lines[i as int]);
            assert(lines[i as int] == entry@);
            assert(is_listed(lines, lower(entry@.0)) || !is_listed(lines, lower(entry@.0)));
        }
        if !should_skip_header(entry.name.as_str(), tokens.as_slice()) {
            let copy = HeaderEntry {
                name: entry.name.clone(),
                value: vstd::slice::slice_to_vec(entry.value.as_slice()),
            };
            assert(copy@ == entry@);
            kept.push(copy);
            assert(entry_views(kept@) =~= before.push(lines[i as int]));
        }
        i += 1;
    }
    assert(lines.take(lines.len() as int) =~= lines);
    kept
}

/// The lines of a request that are sent on to the upstream.
pub fn copy_request_headers(inbound: &HeaderMap) -> (outbound: Vec<HeaderEntry>)
    ensures
        entry_views(outbound@) == passed(header_lines(*inbound)),
{
    passing_entries(inbound)
}

/// The lines of an upstream's response that are sent back to the client.
pub fn response_headers(upstream: &HeaderMap) -> (headers: Vec<HeaderEntry>)
    ensures
        entry_views(headers@) == passed(header_lines(*upstream)),
{
    passing_entries(upstream)
}

/// Whether a response announces server-sent events.
pub fn is_sse_response(headers: &HeaderMap) -> (found: bool)
    ensures
        found == announces_events(header_lines(*headers)),
{
    proof {
        lemma_lower_literals();
    }
    match header_text(headers, "content-type") {
        Some(text) => {
            let chars = chars_of(text.as_str());
            let lowered = lower_chars(chars.as_slice());
            let wanted = chars_of("text/event-stream");
            contains_chars(lowered.as_slice(), wanted.as_slice())
        },
        None => false,
    }
}

}
