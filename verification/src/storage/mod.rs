//! What the proxy keeps in its database.

pub mod proxy_keys;
pub mod records;
pub mod settings;
pub mod upstreams;

use vstd::prelude::*;

use crate::interop::random::{is_time_text, utc_now};
use crate::text::{chars_of, contains_chars, contains_text, text_of};

verus! {

/// How many connections to hold open: a database in memory lives and dies with
/// its one connection.
pub fn max_connections(database_url: &str) -> (count: u32)
    ensures
        count == if contains_text(database_url@, ":memory:"@) {
            1u32
        } else {
            8u32
        },
{
    let url = chars_of(database_url);
    let marker = chars_of(":memory:");
    if contains_chars(url.as_slice(), marker.as_slice()) {
        1
    } else {
        8
    }
}

/// The time of day in UTC, with milliseconds.
pub fn now() -> (time: String)
    ensures
        is_time_text(time@),
{
    utc_now()
}

/// A secret with all but its ends hidden.
pub open spec fn masked(secret: Seq<char>) -> Seq<char> {
    if secret.len() == 0 {
        Seq::empty()
    } else if secret.len() <= 8 {
        "****"@
    } else {
        secret.take(4) + "****"@ + secret.skip(secret.len() - 4)
    }
}

/// Two secrets that agree on their ends look the same: nothing between the
/// first and the last four characters shows, not even how much it is.
pub proof fn lemma_mask_hides_the_middle(left: Seq<char>, right: Seq<char>)
    requires
        left.len() > 8,
        right.len() > 8,
        left.take(4) == right.take(4),
        left.skip(left.len() - 4) == right.skip(right.len() - 4),
    ensures
        masked(left) == masked(right),
        masked(left).len() == 12,
{
    reveal_strlit("****");
}

/// A short secret shows nothing of itself; a longer one its first and its last
/// four characters, with four stars between them.
pub proof fn lemma_mask_shows_the_ends(secret: Seq<char>)
    ensures
        secret.len() == 0 ==> masked(secret).len() == 0,
        1 <= secret.len() <= 8 ==> masked(secret) == seq!['*', '*', '*', '*'],
        secret.len() >= 9 ==> masked(secret) == secret.take(4) + seq!['*', '*', '*', '*']
            + secret.subrange(secret.len() - 4, secret.len() as int),
{
    reveal_strlit("****");
    assert("****"@ =~= seq!['*', '*', '*', '*']);
    if secret.len() >= 9 {
        assert(secret.skip(secret.len() - 4) =~= secret.subrange(
            secret.len() - 4,
            secret.len() as int,
        ));
    }
}

/// `secret` with all but its ends hidden.
pub fn mask_secret(secret: &str) -> (mask: String)
    ensures
        mask@ == masked(secret@),
{
    let chars = chars_of(secret);
    let n: usize = chars.len();
    if n == 0 {
        return String::new();
    }
    if n <= 8 {
        return "****".to_string();
    }
    let head = vstd::slice::slice_subrange(chars.as_slice(), 0, 4);
    let tail = vstd::slice::slice_subrange(chars.as_slice(), n - 4, n);
    let mut mask = text_of(head);
    mask.append("****");
    let end = text_of(tail);
    mask.append(end.as_str());
    assert(head@ =~= secret@.take(4));
    assert(tail@ =~= secret@.skip(secret@.len() - 4));
    mask
}

}
