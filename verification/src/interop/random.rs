//! What differs from call to call: fresh identifiers and the time of day.

use chrono::{SecondsFormat, Utc};
use uuid::Uuid;
use vstd::prelude::*;

use super::digest::is_lower_hex;
use crate::decimal::is_digit;

verus! {

/// Whether `text` has the form of a random UUID.
pub open spec fn is_uuid_text(text: Seq<char>) -> bool {
    &&& text.len() == 36
    &&& forall|i: int|
        0 <= i < 36 ==> if i == 8 || i == 13 || i == 18 || i == 23 {
            #[trigger] text[i] == '-'
        } else {
            is_lower_hex(text[i])
        }
    &&& text[14] == '4'
    &&& (text[19] == '8' || text[19] == '9' || text[19] == 'a' || text[19] == 'b')
}

/// Whether `text` is a time in UTC with milliseconds, such as
/// `2026-07-14T00:00:19.000Z`, as far as its form goes. The year may be longer
/// than four digits.
pub open spec fn is_time_text(text: Seq<char>) -> bool {
    let n = text.len() as int;
    &&& n >= 24
    &&& text[n - 1] == 'Z'
    &&& text[n - 5] == '.'
    &&& text[n - 8] == ':'
    &&& text[n - 11] == ':'
    &&& text[n - 14] == 'T'
    &&& text[n - 17] == '-'
    &&& text[n - 20] == '-'
    &&& forall|i: int|
        n - 19 <= i < n - 1 && i != n - 5 && i != n - 8 && i != n - 11 && i != n - 14 && i != n - 17
            ==> is_digit(#[trigger] text[i])
    &&& forall|i: int| n - 24 <= i < n - 20 ==> is_digit(#[trigger] text[i])
}

/// `uuid::Uuid::new_v4` draws a random identifier, here in its hyphenated form.
/// Nothing is said of which one it is, nor that two calls differ.
#[verifier::external_body]
pub(crate) fn random_id() -> (id: String)
    ensures
        is_uuid_text(id@),
{
    Uuid::new_v4().to_string()
}

/// `chrono::Utc::now`, written by `to_rfc3339_opts` with milliseconds and a
/// final `Z`. Nothing is said of which time it is.
#[verifier::external_body]
pub(crate) fn utc_now() -> (time: String)
    ensures
        is_time_text(time@),
{
    Utc::now().to_rfc3339_opts(SecondsFormat::Millis, true)
}

}
