//! Where a request is sent.

use vstd::prelude::*;

use crate::error::AppError;
use crate::interop::url::{parse_url, parsed_view, url_parse, UrlModel, UrlParts};
use crate::storage::upstreams::Upstream;
use crate::text::{chars_of, opt_str, text_of, trim_end_mark, trim_end_mark_chars};

verus! {

/// The text of the URL that a request with `path_and_query` is sent to.
pub open spec fn target_text(
    base_url: Seq<char>,
    path_and_query: Option<Seq<char>>,
) -> Seq<char> {
    trim_end_mark(base_url, '/') + match path_and_query {
        Some(rest) => rest,
        None => "/"@,
    }
}

/// Where a request is sent, given what reading that as a URL came to: the normal
/// form of the URL, or what is wrong with it.
pub open spec fn target_of(parsed: Result<UrlModel, Seq<char>>) -> Result<Seq<char>, Seq<char>> {
    match parsed {
        Ok(url) => Ok(url.text),
        Err(message) => Err("invalid upstream url: "@ + message),
    }
}

/// The normal form of the URL that a request is sent to, or what is wrong with it.
pub open spec fn target_url(
    base_url: Seq<char>,
    path_and_query: Option<Seq<char>>,
) -> Result<Seq<char>, Seq<char>> {
    target_of(url_parse(target_text(base_url, path_and_query)))
}

/// A request goes to its own path and query behind the base URL, or to a slash
/// where it has none; slashes that the base URL ends in do not matter.
pub proof fn lemma_paths_go_behind_the_base_url(base_url: Seq<char>, path: Seq<char>)
    ensures
        target_text(base_url.push('/'), Some(path)) == target_text(base_url, Some(path)),
        target_text(base_url.push('/'), None) == target_text(base_url, None),
        base_url.len() > 0 && base_url.last() != '/' ==> target_text(base_url, Some(path))
            == base_url + path && target_text(base_url, None) == base_url.push('/'),
{
    reveal_strlit("/");
    assert(base_url.push('/').drop_last() =~= base_url);
    assert(base_url + "/"@ =~= base_url.push('/'));
}

/// What was read as a URL is sent to in its normal form, and what was not is
/// refused with the reason.
pub proof fn lemma_urls_are_used_in_their_normal_form(url: UrlModel, message: Seq<char>)
    ensures
        target_of(Ok(url)) == Ok::<Seq<char>, Seq<char>>(url.text),
        target_of(Err(message)) == Err::<Seq<char>, Seq<char>>(
            "invalid upstream url: "@ + message,
        ),
{
}

/// The URL that a request is sent to.
pub fn build_url(upstream: &Upstream, path_and_query: Option<&str>) -> (url: Result<
    String,
    AppError,
>)
    ensures
        match url {
            Ok(url) => target_url(upstream.base_url@, opt_str(path_and_query)) == Ok::<
                Seq<char>,
                Seq<char>,
            >(url@),
            Err(AppError::BadRequest(message)) => target_url(
                upstream.base_url@,
                opt_str(path_and_query),
            ) == Err::<Seq<char>, Seq<char>>(message@),
        },
{
    let chars = chars_of(upstream.base_url.as_str());
    let mut text = text_of(trim_end_mark_chars(chars.as_slice(), '/'));
    match path_and_query {
        Some(rest) => text.append(rest),
        None => text.append("/"),
    }
    target_from(parse_url(text.as_str()))
}

/// Where a request is sent, given what reading that as a URL came to.
pub fn target_from(parsed: Result<UrlParts, String>) -> (url: Result<String, AppError>)
    ensures
        match url {
            Ok(url) => target_of(parsed_view(parsed)) == Ok::<Seq<char>, Seq<char>>(url@),
            Err(AppError::BadRequest(message)) => target_of(parsed_view(parsed)) == Err::<
                Seq<char>,
                Seq<char>,
            >(message@),
        },
{
    match parsed {
        Ok(url) => Ok(url.text),
        Err(error) => {
            let mut message = "invalid upstream url: ".to_string();
            message.append(error.as_str());
            Err(AppError::BadRequest(message))
        },
    }
}

}
