//! Text as sequences of characters: the few string operations that the rest of
//! the library is built from, each with its mathematical meaning.

use vstd::prelude::*;

verus! {

/// `String::push` appends the given character to the end of the string.
pub assume_specification[ String::push ](text: &mut String, ch: char)
    ensures
        final(text)@ == old(text)@.push(ch),
;

// ---------------------------------------------------------------------------
// Meanings
// ---------------------------------------------------------------------------

/// The characters with the Unicode property `White_Space`.
pub open spec fn is_space(c: char) -> bool {
    ||| '\u{9}' <= c <= '\u{d}'
    ||| c == '\u{20}'
    ||| c == '\u{85}'
    ||| c == '\u{a0}'
    ||| c == '\u{1680}'
    ||| '\u{2000}' <= c <= '\u{200a}'
    ||| c == '\u{2028}'
    ||| c == '\u{2029}'
    ||| c == '\u{202f}'
    ||| c == '\u{205f}'
    ||| c == '\u{3000}'
}

/// `text` without its leading white space.
pub open spec fn trim_start(text: Seq<char>) -> Seq<char>
    decreases text.len(),
{
    if text.len() > 0 && is_space(text[0]) {
        trim_start(text.skip(1))
    } else {
        text
    }
}

/// `text` without its trailing white space.
pub open spec fn trim_end(text: Seq<char>) -> Seq<char>
    decreases text.len(),
{
    if text.len() > 0 && is_space(text.last()) {
        trim_end(text.drop_last())
    } else {
        text
    }
}

/// `text` without leading and trailing white space.
pub open spec fn trim(text: Seq<char>) -> Seq<char> {
    trim_end(trim_start(text))
}

/// `text` without the copies of `mark` that it ends in.
pub open spec fn trim_end_mark(text: Seq<char>, mark: char) -> Seq<char>
    decreases text.len(),
{
    if text.len() > 0 && text.last() == mark {
        trim_end_mark(text.drop_last(), mark)
    } else {
        text
    }
}

/// `c` with `A` to `Z` turned into `a` to `z`, and any other character kept.
pub open spec fn lower_char(c: char) -> char {
    if 'A' <= c <= 'Z' {
        ((c as u32) + 32) as char
    } else {
        c
    }
}

/// `text` with its ASCII letters in lower case.
pub open spec fn lower(text: Seq<char>) -> Seq<char> {
    text.map_values(|c: char| lower_char(c))
}

/// The pieces of `text` between the occurrences of `mark`.
pub open spec fn split_on(text: Seq<char>, mark: char) -> Seq<Seq<char>>
    decreases text.len(),
{
    if text.len() == 0 {
        seq![Seq::empty()]
    } else {
        let before = split_on(text.drop_last(), mark);
        if text.last() == mark {
            before.push(Seq::empty())
        } else {
            before.drop_last().push(before.last().push(text.last()))
        }
    }
}

/// `needle` occurs in `text` at position `at`.
pub open spec fn occurs_at<T>(text: Seq<T>, needle: Seq<T>, at: int) -> bool {
    &&& 0 <= at
    &&& at + needle.len() <= text.len()
    &&& text.subrange(at, at + needle.len()) == needle
}

/// `needle` occurs somewhere in `text`.
pub open spec fn contains_text(text: Seq<char>, needle: Seq<char>) -> bool {
    exists|at: int| occurs_at(text, needle, at)
}

/// `parts` in order, with `glue` between each two neighbours.
pub open spec fn join(parts: Seq<Seq<char>>, glue: Seq<char>) -> Seq<char>
    decreases parts.len(),
{
    if parts.len() == 0 {
        Seq::empty()
    } else if parts.len() == 1 {
        parts[0]
    } else {
        join(parts.drop_last(), glue) + glue + parts.last()
    }
}

/// The view of an optional string.
pub open spec fn opt_text(text: Option<String>) -> Option<Seq<char>> {
    match text {
        Some(text) => Some(text@),
        None => None,
    }
}

/// The view of an optional string slice.
pub open spec fn opt_str(text: Option<&str>) -> Option<Seq<char>> {
    match text {
        Some(text) => Some(text@),
        None => None,
    }
}

// ---------------------------------------------------------------------------
// Facts
// ---------------------------------------------------------------------------

/// Splitting always leaves at least one piece.
pub proof fn lemma_split_nonempty(text: Seq<char>, mark: char)
    ensures
        split_on(text, mark).len() >= 1,
    decreases text.len(),
{
    if text.len() > 0 {
        lemma_split_nonempty(text.drop_last(), mark);
    }
}

/// A text without the mark is one piece.
pub proof fn lemma_unsplit(text: Seq<char>, mark: char)
    requires
        forall|i: int| 0 <= i < text.len() ==> text[i] != mark,
    ensures
        split_on(text, mark) == seq![text],
    decreases text.len(),
{
    if text.len() > 0 {
        lemma_unsplit(text.drop_last(), mark);
        assert(text.drop_last().push(text.last()) =~= text);
        assert(split_on(text, mark) =~= seq![text]);
    } else {
        assert(text =~= Seq::<char>::empty());
    }
}

/// The first piece goes up to the first mark.
pub proof fn lemma_first_piece(text: Seq<char>, mark: char, at: int)
    requires
        0 <= at < text.len(),
        text[at] == mark,
        forall|i: int| 0 <= i < at ==> text[i] != mark,
    ensures
        split_on(text, mark).len() >= 2,
        split_on(text, mark)[0] == text.take(at),
    decreases text.len(),
{
    let before = text.drop_last();
    if at == text.len() - 1 {
        assert(before =~= text.take(at));
        lemma_unsplit(before, mark);
    } else {
        lemma_first_piece(before, mark, at);
        assert(before.take(at) =~= text.take(at));
    }
}

/// White space is what Unicode calls so: 25 characters and no other.
pub proof fn lemma_white_space(c: char)
    ensures
        is_space(c) <==> {
            let n = c as int;
            ||| 9 <= n <= 13
            ||| n == 32 || n == 133 || n == 160 || n == 5760
            ||| 8192 <= n <= 8202
            ||| n == 8232 || n == 8233 || n == 8239 || n == 8287 || n == 12288
        },
{
}

proof fn lemma_trim_start_at(text: Seq<char>) -> (at: int)
    ensures
        0 <= at <= text.len(),
        trim_start(text) == text.skip(at),
        forall|i: int| 0 <= i < at ==> is_space(#[trigger] text[i]),
        at < text.len() ==> !is_space(text[at]),
    decreases text.len(),
{
    if text.len() > 0 && is_space(text[0]) {
        let rest = lemma_trim_start_at(text.skip(1));
        assert(text.skip(1).skip(rest) =~= text.skip(rest + 1));
        assert forall|i: int| 0 <= i < rest + 1 implies is_space(#[trigger] text[i]) by {
            if i > 0 {
                assert(text[i] == text.skip(1)[i - 1]);
            }
        }
        rest + 1
    } else {
        assert(text.skip(0) =~= text);
        0
    }
}

proof fn lemma_trim_end_at(text: Seq<char>) -> (end: int)
    ensures
        0 <= end <= text.len(),
        trim_end(text) == text.take(end),
        forall|i: int| end <= i < text.len() ==> is_space(#[trigger] text[i]),
        end > 0 ==> !is_space(text[end - 1]),
    decreases text.len(),
{
    if text.len() > 0 && is_space(text.last()) {
        let end = lemma_trim_end_at(text.drop_last());
        assert(text.drop_last().take(end) =~= text.take(end));
        assert forall|i: int| end <= i < text.len() implies is_space(#[trigger] text[i]) by {
            if i < text.len() - 1 {
                assert(text[i] == text.drop_last()[i]);
            }
        }
        end
    } else {
        assert(text.take(text.len() as int) =~= text);
        text.len() as int
    }
}

/// Trimming takes white space off both ends and nothing else: what it leaves
/// stands in the text in one piece, with only white space around it, and neither
/// begins nor ends with any.
pub proof fn lemma_trim_takes_off_white_space(text: Seq<char>) -> (at: int)
    ensures
        occurs_at(text, trim(text), at),
        forall|i: int| 0 <= i < at ==> is_space(#[trigger] text[i]),
        forall|i: int| at + trim(text).len() <= i < text.len() ==> is_space(#[trigger] text[i]),
        trim(text).len() > 0 ==> !is_space(trim(text)[0]) && !is_space(trim(text).last()),
{
    let at = lemma_trim_start_at(text);
    let rest = text.skip(at);
    let end = lemma_trim_end_at(rest);
    assert(text.subrange(at, at + end) =~= rest.take(end));
    assert forall|i: int| at + end <= i < text.len() implies is_space(#[trigger] text[i]) by {
        assert(text[i] == rest[i - at]);
    }
    if end > 0 {
        assert(rest[0] == text[at]);
    }
    at
}

/// A text that neither begins nor ends with white space is left as it is.
pub proof fn lemma_trim_leaves_the_rest(text: Seq<char>)
    requires
        text.len() > 0 ==> !is_space(text[0]) && !is_space(text.last()),
    ensures
        trim_start(text) == text,
        trim(text) == text,
{
}

/// Leading white space is taken off, and nothing else.
pub proof fn lemma_trim_start_takes_off_white_space(text: Seq<char>) -> (at: int)
    ensures
        0 <= at <= text.len(),
        trim_start(text) == text.skip(at),
        forall|i: int| 0 <= i < at ==> is_space(#[trigger] text[i]),
        at < text.len() ==> !is_space(text[at]),
{
    lemma_trim_start_at(text)
}

/// Marks are taken off the end, all of them and nothing else.
pub proof fn lemma_marks_are_taken_off(text: Seq<char>, mark: char)
    ensures
        trim_end_mark(text, mark).is_prefix_of(text),
        forall|i: int|
            trim_end_mark(text, mark).len() <= i < text.len() ==> #[trigger] text[i] == mark,
        trim_end_mark(text, mark).len() > 0 ==> trim_end_mark(text, mark).last() != mark,
    decreases text.len(),
{
    if text.len() > 0 && text.last() == mark {
        let before = text.drop_last();
        lemma_marks_are_taken_off(before, mark);
        let kept = trim_end_mark(text, mark);
        assert(kept =~= text.take(kept.len() as int));
        assert forall|i: int| kept.len() <= i < text.len() implies #[trigger] text[i] == mark by {
            if i < before.len() {
                assert(text[i] == before[i]);
            }
        }
    } else {
        assert(text =~= text.take(text.len() as int));
    }
}

/// Only the letters `A` to `Z` change, each to its small letter.
pub proof fn lemma_lower_changes_capitals_only(text: Seq<char>)
    ensures
        lower(text).len() == text.len(),
        forall|i: int|
            0 <= i < text.len() ==> (#[trigger] lower(text)[i]) as int == text[i] as int + if 65
                <= text[i] as int <= 90 {
                32int
            } else {
                0int
            },
        lower(lower(text)) == lower(text),
{
    assert(lower(lower(text)) =~= lower(text));
}

/// A needle occurs where its characters stand, one after the other.
pub proof fn lemma_where_a_needle_occurs<T>(text: Seq<T>, needle: Seq<T>, at: int)
    ensures
        occurs_at(text, needle, at) <==> {
            &&& 0 <= at
            &&& at + needle.len() <= text.len()
            &&& forall|i: int| 0 <= i < needle.len() ==> #[trigger] text[at + i] == needle[i]
        },
{
    if 0 <= at && at + needle.len() <= text.len() {
        let window = text.subrange(at, at + needle.len());
        if window == needle {
            assert forall|i: int| 0 <= i < needle.len() implies #[trigger] text[at + i]
                == needle[i] by {
                assert(window[i] == needle[i]);
            }
        }
        if forall|i: int| 0 <= i < needle.len() ==> #[trigger] text[at + i] == needle[i] {
            assert forall|i: int| 0 <= i < needle.len() implies window[i] == needle[i] by {
                assert(text[at + i] == needle[i]);
            }
            assert(window =~= needle);
        }
    }
}

proof fn lemma_split_behind_a_mark(text: Seq<char>, mark: char, tail: Seq<char>)
    requires
        !tail.contains(mark),
    ensures
        split_on(text + seq![mark] + tail, mark) == split_on(text, mark).push(tail),
    decreases tail.len(),
{
    let whole = text + seq![mark] + tail;
    if tail.len() == 0 {
        assert(whole.drop_last() =~= text);
        assert(whole.last() == mark);
        assert(tail =~= Seq::<char>::empty());
    } else {
        let shorter = tail.drop_last();
        assert(!shorter.contains(mark)) by {
            if shorter.contains(mark) {
                let k = choose|k: int| 0 <= k < shorter.len() && shorter[k] == mark;
                assert(tail[k] == mark);
            }
        }
        lemma_split_behind_a_mark(text, mark, shorter);
        assert(whole.drop_last() =~= text + seq![mark] + shorter);
        assert(whole.last() == tail.last());
        assert(tail[tail.len() - 1] != mark);
        assert(shorter.push(tail.last()) =~= tail);
        assert(split_on(whole, mark) =~= split_on(text, mark).push(tail));
    }
}

/// Pieces without the mark that are put together with it come apart again.
pub proof fn lemma_joined_pieces_come_apart(parts: Seq<Seq<char>>, mark: char)
    requires
        parts.len() > 0,
        forall|i: int| 0 <= i < parts.len() ==> !(#[trigger] parts[i]).contains(mark),
    ensures
        split_on(join(parts, seq![mark]), mark) == parts,
    decreases parts.len(),
{
    if parts.len() == 1 {
        let only = parts[0];
        assert forall|i: int| 0 <= i < only.len() implies only[i] != mark by {}
        lemma_unsplit(only, mark);
        assert(parts =~= seq![only]);
    } else {
        let before = parts.drop_last();
        assert forall|i: int| 0 <= i < before.len() implies !(#[trigger] before[i]).contains(
            mark,
        ) by {
            assert(before[i] == parts[i]);
        }
        lemma_joined_pieces_come_apart(before, mark);
        assert(parts.last() == parts[parts.len() - 1]);
        lemma_split_behind_a_mark(join(before, seq![mark]), mark, parts.last());
        assert(before.push(parts.last()) =~= parts);
    }
}

/// The pieces, with the mark put back between them, are the text, and no piece
/// holds the mark.
pub proof fn lemma_pieces_make_up_the_text(text: Seq<char>, mark: char)
    ensures
        join(split_on(text, mark), seq![mark]) == text,
        forall|i: int|
            0 <= i < split_on(text, mark).len() ==> !(#[trigger] split_on(text, mark)[i]).contains(
                mark,
            ),
    decreases text.len(),
{
    let parts = split_on(text, mark);
    let glue = seq![mark];
    if text.len() == 0 {
        assert(join(parts, glue) =~= text);
    } else {
        let shorter = text.drop_last();
        let before = split_on(shorter, mark);
        lemma_pieces_make_up_the_text(shorter, mark);
        lemma_split_nonempty(shorter, mark);
        assert(before.last() == before[before.len() - 1]);
        if text.last() == mark {
            assert(parts.drop_last() =~= before);
            assert(join(parts, glue) =~= join(before, glue) + glue);
        } else {
            let grown = before.last().push(text.last());
            assert(parts.drop_last() =~= before.drop_last());
            if before.len() == 1 {
                assert(join(parts, glue) == grown);
                assert(join(before, glue) == before.last());
            } else {
                assert(join(before, glue) == join(before.drop_last(), glue) + glue + before.last());
                assert(join(parts, glue) == join(before.drop_last(), glue) + glue + grown);
                assert(join(parts, glue) =~= join(before, glue).push(text.last()));
            }
            assert forall|i: int| 0 <= i < parts.len() implies !(#[trigger] parts[i]).contains(
                mark,
            ) by {
                if i < parts.len() - 1 {
                    assert(parts[i] == before[i]);
                } else if grown.contains(mark) {
                    let k = choose|k: int| 0 <= k < grown.len() && grown[k] == mark;
                    assert(before.last()[k] == mark);
                }
            }
        }
        assert(join(parts, glue) =~= text);
    }
}

// ---------------------------------------------------------------------------
// Operations
// ---------------------------------------------------------------------------

/// The characters of `text`.
pub fn chars_of(text: &str) -> (chars: Vec<char>)
    ensures
        chars@ == text@,
{
    let mut chars: Vec<char> = Vec::new();
    for c in walk: text.chars()
        invariant
            walk.seq() == text@,
            chars@ == text@.take(walk.index() as int),
    {
        chars.push(c);
    }
    assert(text@.take(text@.len() as int) == text@);
    chars
}

/// The string made of `chars`.
pub fn text_of(chars: &[char]) -> (text: String)
    ensures
        text@ == chars@,
{
    let mut text = String::new();
    let mut i: usize = 0;
    while i < chars.len()
        invariant
            i <= chars@.len(),
            text@ == chars@.take(i as int),
        decreases chars@.len() - i,
    {
        text.push(chars[i]);
        i += 1;
    }
    assert(chars@.take(chars@.len() as int) == chars@);
    text
}

/// Whether two slices hold the same items in the same order.
pub fn same_chars(left: &[char], right: &[char]) -> (same: bool)
    ensures
        same == (left@ == right@),
{
    if left.len() != right.len() {
        return false;
    }
    let mut i: usize = 0;
    while i < left.len()
        invariant
            i <= left@.len(),
            left@.len() == right@.len(),
            forall|k: int| 0 <= k < i ==> left@[k] == right@[k],
        decreases left@.len() - i,
    {
        if left[i] != right[i] {
            assert(left@[i as int] != right@[i as int]);
            return false;
        }
        i += 1;
    }
    assert(left@ =~= right@);
    true
}

/// Whether two strings hold the same characters.
pub fn same_text(left: &str, right: &str) -> (same: bool)
    ensures
        same == (left@ == right@),
{
    let left = chars_of(left);
    let right = chars_of(right);
    same_chars(&left, &right)
}

/// Whether `c` is white space.
pub fn is_space_char(c: char) -> (space: bool)
    ensures
        space == is_space(c),
{
    ('\u{9}' <= c && c <= '\u{d}') || c == '\u{20}' || c == '\u{85}' || c == '\u{a0}' || c
        == '\u{1680}' || ('\u{2000}' <= c && c <= '\u{200a}') || c == '\u{2028}' || c == '\u{2029}'
        || c == '\u{202f}' || c == '\u{205f}' || c == '\u{3000}'
}

/// The part of `chars` that is left without leading white space.
pub fn trim_start_chars(chars: &[char]) -> (rest: &[char])
    ensures
        rest@ == trim_start(chars@),
{
    let mut i: usize = 0;
    assert(chars@.skip(0) == chars@);
    while i < chars.len() && is_space_char(chars[i])
        invariant
            i <= chars@.len(),
            trim_start(chars@.skip(i as int)) == trim_start(chars@),
        decreases chars@.len() - i,
    {
        assert(chars@.skip(i as int).skip(1) == chars@.skip(i + 1));
        i += 1;
    }
    let rest = vstd::slice::slice_subrange(chars, i, chars.len());
    assert(rest@ == chars@.skip(i as int));
    rest
}

/// The part of `chars` that is left without trailing white space.
pub fn trim_end_chars(chars: &[char]) -> (rest: &[char])
    ensures
        rest@ == trim_end(chars@),
{
    let mut n: usize = chars.len();
    assert(chars@.take(n as int) == chars@);
    while n > 0 && is_space_char(chars[n - 1])
        invariant
            n <= chars@.len(),
            trim_end(chars@.take(n as int)) == trim_end(chars@),
        decreases n,
    {
        assert(chars@.take(n as int).drop_last() == chars@.take(n - 1));
        n -= 1;
    }
    let rest = vstd::slice::slice_subrange(chars, 0, n);
    assert(rest@ == chars@.take(n as int));
    rest
}

/// The part of `chars` that is left without white space around it.
pub fn trim_chars(chars: &[char]) -> (rest: &[char])
    ensures
        rest@ == trim(chars@),
{
    trim_end_chars(trim_start_chars(chars))
}

/// `text` without white space around it.
pub fn trim_text(text: &str) -> (rest: String)
    ensures
        rest@ == trim(text@),
{
    let chars = chars_of(text);
    text_of(trim_chars(&chars))
}

/// The part of `chars` that is left without the copies of `mark` at its end.
pub fn trim_end_mark_chars(chars: &[char], mark: char) -> (rest: &[char])
    ensures
        rest@ == trim_end_mark(chars@, mark),
{
    let mut n: usize = chars.len();
    assert(chars@.take(n as int) == chars@);
    while n > 0 && chars[n - 1] == mark
        invariant
            n <= chars@.len(),
            trim_end_mark(chars@.take(n as int), mark) == trim_end_mark(chars@, mark),
        decreases n,
    {
        assert(chars@.take(n as int).drop_last() == chars@.take(n - 1));
        n -= 1;
    }
    let rest = vstd::slice::slice_subrange(chars, 0, n);
    assert(rest@ == chars@.take(n as int));
    rest
}

/// `c` in ASCII lower case.
pub fn lower_char_of(c: char) -> (l: char)
    ensures
        l == lower_char(c),
{
    if 'A' <= c && c <= 'Z' {
        let code: u8 = c as u8 + 32;
        code as char
    } else {
        c
    }
}

/// `chars` with their ASCII letters in lower case.
pub fn lower_chars(chars: &[char]) -> (out: Vec<char>)
    ensures
        out@ == lower(chars@),
{
    let mut out: Vec<char> = Vec::new();
    let mut i: usize = 0;
    while i < chars.len()
        invariant
            i <= chars@.len(),
            out@ == lower(chars@.take(i as int)),
        decreases chars@.len() - i,
    {
        out.push(lower_char_of(chars[i]));
        i += 1;
        assert(out@ =~= lower(chars@.take(i as int)));
    }
    assert(chars@.take(chars@.len() as int) == chars@);
    out
}

/// The views of the pieces in `parts`.
pub open spec fn pieces(parts: Seq<Vec<char>>) -> Seq<Seq<char>> {
    parts.map_values(|part: Vec<char>| part@)
}

/// The pieces of `chars` between the occurrences of `mark`.
pub fn split_chars(chars: &[char], mark: char) -> (parts: Vec<Vec<char>>)
    ensures
        pieces(parts@) == split_on(chars@, mark),
{
    let mut parts: Vec<Vec<char>> = Vec::new();
    let mut part: Vec<char> = Vec::new();
    let mut i: usize = 0;
    assert(pieces(parts@).push(part@) =~= split_on(chars@.take(0), mark));
    while i < chars.len()
        invariant
            i <= chars@.len(),
            pieces(parts@).push(part@) == split_on(chars@.take(i as int), mark),
        decreases chars@.len() - i,
    {
        let c = chars[i];
        let ghost before = pieces(parts@);
        let ghost piece = part@;
        proof {
            assert(chars@.take(i + 1).drop_last() == chars@.take(i as int));
            assert(chars@.take(i + 1).last() == c);
            assert(before.push(piece).drop_last() == before);
        }
        if c == mark {
            parts.push(part);
            part = Vec::new();
            assert(pieces(parts@) =~= before.push(piece));
            assert(part@ =~= Seq::<char>::empty());
        } else {
            part.push(c);
        }
        i += 1;
    }
    assert(chars@.take(chars@.len() as int) == chars@);
    let ghost before = pieces(parts@);
    let ghost piece = part@;
    parts.push(part);
    assert(pieces(parts@) =~= before.push(piece));
    parts
}

/// Whether `needle` occurs in `chars` at `at`.
pub fn occurs_at_chars(chars: &[char], needle: &[char], at: usize) -> (found: bool)
    requires
        at <= chars@.len(),
    ensures
        found == occurs_at(chars@, needle@, at as int),
{
    if chars.len() - at < needle.len() {
        return false;
    }
    let window = vstd::slice::slice_subrange(chars, at, at + needle.len());
    same_chars(window, needle)
}

/// Whether `needle` occurs in `chars`.
pub fn contains_chars(chars: &[char], needle: &[char]) -> (found: bool)
    ensures
        found == contains_text(chars@, needle@),
{
    let mut at: usize = 0;
    loop
        invariant
            at <= chars@.len(),
            forall|k: int| 0 <= k < at ==> !occurs_at(chars@, needle@, k),
        decreases chars@.len() - at,
    {
        if occurs_at_chars(chars, needle, at) {
            return true;
        }
        if at == chars.len() {
            return false;
        }
        at += 1;
    }
}

/// Whether `text` begins with `prefix`.
pub fn starts_with_chars(text: &[char], prefix: &[char]) -> (found: bool)
    ensures
        found == prefix@.is_prefix_of(text@),
{
    if text.len() < prefix.len() {
        return false;
    }
    same_chars(vstd::slice::slice_subrange(text, 0, prefix.len()), prefix)
}

/// Whether `text` ends with `suffix`.
pub fn ends_with_chars(text: &[char], suffix: &[char]) -> (found: bool)
    ensures
        found == suffix@.is_suffix_of(text@),
{
    if text.len() < suffix.len() {
        return false;
    }
    same_chars(vstd::slice::slice_subrange(text, text.len() - suffix.len(), text.len()), suffix)
}

/// A copy of an optional string.
pub fn copy_opt(text: &Option<String>) -> (copy: Option<String>)
    ensures
        opt_text(copy) == opt_text(*text),
{
    match text {
        Some(text) => Some(text.clone()),
        None => None,
    }
}

}
