//! The cookie that marks an administrator's session.

use axum::http::HeaderMap;
use vstd::prelude::*;

use crate::interop::http::{header_lines, plain_name};
use crate::proxy::headers::{first_text, header_text};
use crate::text::{
    chars_of, is_space, lemma_first_piece, lemma_unsplit, lower, pieces, same_chars, split_chars,
    split_on, trim, trim_chars,
};

verus! {

pub const ADMIN_COOKIE: &'static str = "oai_proxy_admin";

/// Whether `part` reads `name=value`, white space around it left aside.
pub open spec fn assigns(part: Seq<char>, name: Seq<char>, value: Seq<char>) -> bool {
    trim(part) == name + seq!['='] + value
}

/// Whether a cookie line carries the session `token`.
pub open spec fn carries_session(cookies: Seq<char>, token: Seq<char>) -> bool {
    exists|i: int|
        0 <= i < split_on(cookies, ';').len() && assigns(
            #[trigger] split_on(cookies, ';')[i],
            "oai_proxy_admin"@,
            token,
        )
}

/// The cookie that begins a session.
pub open spec fn login_text(token: Seq<char>) -> Seq<char> {
    "oai_proxy_admin"@ + "="@ + token + "; HttpOnly; SameSite=Lax; Path=/admin; Max-Age=604800"@
}

/// The cookie that begins a session is recognised when it comes back, provided
/// that the token has no semicolon in it and no white space at its end.
pub proof fn lemma_login_is_recognised(token: Seq<char>)
    requires
        forall|i: int| 0 <= i < token.len() ==> token[i] != ';',
        token.len() > 0 ==> !is_space(token.last()),
    ensures
        carries_session("oai_proxy_admin"@ + "="@ + token, token),
        carries_session(login_text(token), token),
{
    reveal_strlit("oai_proxy_admin");
    reveal_strlit("=");
    reveal_strlit("; HttpOnly; SameSite=Lax; Path=/admin; Max-Age=604800");
    let part = "oai_proxy_admin"@ + "="@ + token;
    assert(part[0] == 'o');
    assert(part.last() == if token.len() > 0 {
        token.last()
    } else {
        '='
    });
    assert(trim(part) == part);
    assert(part =~= "oai_proxy_admin"@ + seq!['='] + token);
    assert(assigns(part, "oai_proxy_admin"@, token));
    assert forall|i: int| 0 <= i < part.len() implies part[i] != ';' by {
        if i >= 16 {
            assert(part[i] == token[i - 16]);
        }
    }
    lemma_unsplit(part, ';');
    assert(split_on(part, ';')[0] == part);
    let whole = login_text(token);
    let at = part.len() as int;
    assert(whole.take(at) =~= part);
    assert forall|i: int| 0 <= i < at implies whole[i] != ';' by {
        assert(whole[i] == part[i]);
    }
    assert(whole[at] == ';');
    lemma_first_piece(whole, ';', at);
    assert(assigns(split_on(whole, ';')[0], "oai_proxy_admin"@, token));
}

/// A cookie line carries a session exactly if one of the parts between its
/// semicolons, white space around it left aside, is the name, an equals sign and
/// the token.
pub proof fn lemma_what_a_session_cookie_is(cookies: Seq<char>, token: Seq<char>, at: int)
    ensures
        0 <= at < split_on(cookies, ';').len() && trim(split_on(cookies, ';')[at])
            == "oai_proxy_admin="@ + token ==> carries_session(cookies, token),
        (forall|i: int|
            0 <= i < split_on(cookies, ';').len() ==> trim(#[trigger] split_on(cookies, ';')[i])
                != "oai_proxy_admin="@ + token) ==> !carries_session(cookies, token),
{
    reveal_strlit("oai_proxy_admin");
    reveal_strlit("oai_proxy_admin=");
    assert("oai_proxy_admin"@ + seq!['='] + token =~= "oai_proxy_admin="@ + token);
    if 0 <= at < split_on(cookies, ';').len() && trim(split_on(cookies, ';')[at])
        == "oai_proxy_admin="@ + token {
        assert(assigns(split_on(cookies, ';')[at], "oai_proxy_admin"@, token));
    }
}

/// The cookie that begins a session cannot be read by scripts, is sent to the
/// pages of the administration only, and lasts a week.
pub proof fn lemma_what_the_login_cookie_says(token: Seq<char>)
    ensures
        login_text(token) == "oai_proxy_admin="@ + token
            + "; HttpOnly; SameSite=Lax; Path=/admin; Max-Age=604800"@,
{
    reveal_strlit("oai_proxy_admin");
    reveal_strlit("=");
    reveal_strlit("oai_proxy_admin=");
    assert("oai_proxy_admin"@ + "="@ =~= "oai_proxy_admin="@);
}

/// Whether the cookie line of `headers` carries the session token.
pub fn is_authenticated(headers: &HeaderMap, admin_session_token: &str) -> (found: bool)
    ensures
        found == match first_text(header_lines(*headers), "cookie"@) {
            Some(cookies) => carries_session(cookies, admin_session_token@),
            None => false,
        },
{
    proof {
        reveal_strlit("cookie");
        assert(lower("cookie"@) =~= "cookie"@);
        assert(plain_name("cookie"@));
    }
    match header_text(headers, "cookie") {
        Some(cookies) => has_session(cookies.as_str(), admin_session_token),
        None => false,
    }
}

/// Whether a cookie line carries the session `token`.
pub fn has_session(cookies: &str, token: &str) -> (found: bool)
    ensures
        found == carries_session(cookies@, token@),
{
    let chars = chars_of(cookies);
    let parts = split_chars(chars.as_slice(), ';');
    let mut wanted = chars_of(ADMIN_COOKIE);
    wanted.push('=');
    let ghost prefix = wanted@;
    let value = chars_of(token);
    let mut k: usize = 0;
    assert(wanted@ =~= prefix + value@.take(0));
    while k < value.len()
        invariant
            k <= value@.len(),
            wanted@ == prefix + value@.take(k as int),
        decreases value@.len() - k,
    {
        wanted.push(value[k]);
        assert(wanted@ =~= prefix + value@.take(k + 1));
        k += 1;
    }
    assert(wanted@ =~= "oai_proxy_admin"@ + seq!['='] + token@);
    let ghost all = split_on(cookies@, ';');
    let mut i: usize = 0;
    while i < parts.len()
        invariant
            i <= parts@.len(),
            all == split_on(cookies@, ';'),
            pieces(parts@) == all,
            wanted@ == "oai_proxy_admin"@ + seq!['='] + token@,
            forall|j: int| 0 <= j < i ==> !assigns(#[trigger] all[j], "oai_proxy_admin"@, token@),
        decreases parts@.len() - i,
    {
        assert(all[i as int] == parts@[i as int]@);
        if same_chars(trim_chars(parts[i].as_slice()), wanted.as_slice()) {
            assert(assigns(split_on(cookies@, ';')[i as int], "oai_proxy_admin"@, token@));
            return true;
        }
        i += 1;
    }
    false
}

/// The cookie that begins a session.
pub fn login_cookie(admin_session_token: &str) -> (cookie: String)
    ensures
        cookie@ == login_text(admin_session_token@),
{
    let mut cookie = ADMIN_COOKIE.to_string();
    cookie.append("=");
    cookie.append(admin_session_token);
    cookie.append("; HttpOnly; SameSite=Lax; Path=/admin; Max-Age=604800");
    cookie
}

/// The cookie that ends a session.
pub fn logout_cookie() -> (cookie: String)
    ensures
        cookie@ == "oai_proxy_admin"@ + "=; HttpOnly; SameSite=Lax; Path=/admin; Max-Age=0"@,
{
    let mut cookie = ADMIN_COOKIE.to_string();
    cookie.append("=; HttpOnly; SameSite=Lax; Path=/admin; Max-Age=0");
    cookie
}

}
