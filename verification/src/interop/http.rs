//! The header maps of the `http` crate, which `axum` and `reqwest` share.

use axum::http::{HeaderMap, HeaderValue};
use vstd::prelude::*;
use vstd::utf8::encode_utf8;

use crate::text::lower;

verus! {

/// `http::HeaderMap`, the header lines of a request or a response.
#[verifier::external_type_specification]
#[verifier::external_body]
#[verifier::reject_recursive_types(T)]
pub struct ExHeaderMap<T>(HeaderMap<T>);

/// `http::HeaderValue`, the value of a header line.
#[verifier::external_type_specification]
#[verifier::external_body]
pub struct ExHeaderValue(HeaderValue);

/// A header line: its name in lower case, and its value.
#[derive(Clone, Debug)]
pub struct HeaderEntry {
    pub name: String,
    pub value: Vec<u8>,
}

impl View for HeaderEntry {
    type V = (Seq<char>, Seq<u8>);

    open spec fn view(&self) -> (Seq<char>, Seq<u8>) {
        (self.name@, self.value@)
    }
}

/// The header lines that a map holds, in the order in which it is walked: the
/// lines of one name stand together, in the order in which they were added.
pub uninterp spec fn header_lines(headers: HeaderMap) -> Seq<(Seq<char>, Seq<u8>)>;

/// The views of `entries`.
pub open spec fn entry_views(entries: Seq<HeaderEntry>) -> Seq<(Seq<char>, Seq<u8>)> {
    entries.map_values(|entry: HeaderEntry| entry@)
}

/// The values of the lines named `name`, in order.
pub open spec fn values_named(
    lines: Seq<(Seq<char>, Seq<u8>)>,
    name: Seq<char>,
) -> Seq<Seq<u8>>
    decreases lines.len(),
{
    if lines.len() == 0 {
        Seq::empty()
    } else if lines.last().0 == name {
        values_named(lines.drop_last(), name).push(lines.last().1)
    } else {
        values_named(lines.drop_last(), name)
    }
}

/// The characters that the text of a header name may hold.
pub open spec fn is_name_char(c: char) -> bool {
    ||| 'a' <= c <= 'z'
    ||| 'A' <= c <= 'Z'
    ||| '0' <= c <= '9'
    ||| c == '!'
    ||| c == '#'
    ||| c == '$'
    ||| c == '%'
    ||| c == '&'
    ||| c == '\''
    ||| c == '*'
    ||| c == '+'
    ||| c == '-'
    ||| c == '.'
    ||| c == '^'
    ||| c == '_'
    ||| c == '`'
    ||| c == '|'
    ||| c == '~'
}

/// Whether `name` can be looked up: all of it may stand in a header name.
pub open spec fn plain_name(name: Seq<char>) -> bool {
    forall|i: int| 0 <= i < name.len() ==> is_name_char(#[trigger] name[i])
}

/// Whether `name` is so short that a lookup reads all of it before it searches.
pub open spec fn short_name(name: Seq<char>) -> bool {
    encode_utf8(name).len() <= 64
}

/// `http::HeaderMap::iter` walks the header lines.
#[verifier::external_body]
pub(crate) fn header_entries(headers: &HeaderMap) -> (entries: Vec<HeaderEntry>)
    ensures
        entry_views(entries@) == header_lines(*headers),
{
    headers
        .iter()
        .map(|(name, value)| HeaderEntry {
            name: name.as_str().to_string(),
            value: value.as_bytes().to_vec(),
        })
        .collect()
}

/// `http::HeaderMap::get` returns the first value under a name, whatever the
/// case of its letters. A name with a character that no name may hold is refused
/// if it has up to 64 bytes, and nothing is found. A longer one is compared
/// unread, with such characters taken for a zero byte: nothing is said of that.
#[verifier::external_body]
pub(crate) fn header_get(headers: &HeaderMap, name: &str) -> (value: Option<Vec<u8>>)
    ensures
        plain_name(name@) ==> match value {
            Some(value) => {
                &&& values_named(header_lines(*headers), lower(name@)).len() > 0
                &&& value@ == values_named(header_lines(*headers), lower(name@))[0]
            },
            None => values_named(header_lines(*headers), lower(name@)).len() == 0,
        },
        !plain_name(name@) && short_name(name@) ==> value is None,
{
    headers.get(name).map(|value| value.as_bytes().to_vec())
}

/// `http::HeaderMap::get_all` returns every value under a name, in order. It looks
/// names up as `get` does, and as little is said of what cannot be a name.
#[verifier::external_body]
pub(crate) fn header_get_all(headers: &HeaderMap, name: &str) -> (values: Vec<Vec<u8>>)
    ensures
        plain_name(name@) ==> values@.map_values(|value: Vec<u8>| value@) == values_named(
            header_lines(*headers),
            lower(name@),
        ),
        !plain_name(name@) && short_name(name@) ==> values@.len() == 0,
{
    headers.get_all(name).iter().map(|value| value.as_bytes().to_vec()).collect()
}

}
