//! The one upstream that requests are forwarded to.

use vstd::prelude::*;

use crate::interop::url::{parse_url, parsed_view, url_parse, UrlModel, UrlParts};
use crate::text::{
    chars_of, is_space, lemma_marks_are_taken_off, lemma_trim_takes_off_white_space, occurs_at,
    opt_str, same_text, text_of, trim, trim_chars, trim_end_mark, trim_end_mark_chars,
};

verus! {

/// Why a base URL was not saved.
#[derive(Clone, Debug)]
pub enum UpstreamError {
    InvalidBaseUrl(String),
}

/// A stored upstream.
#[derive(Clone, Debug)]
pub struct Upstream {
    pub id: i64,
    pub name: String,
    pub base_url: String,
    pub created_at: String,
    pub updated_at: String,
}

/// An upstream as pages show it.
#[derive(Clone, Debug)]
pub struct UpstreamView {
    pub id: i64,
    pub name: String,
    pub base_url: String,
    pub created_at: String,
}

/// A stored upstream as a mathematical value.
pub struct UpstreamModel {
    pub id: int,
    pub name: Seq<char>,
    pub base_url: Seq<char>,
    pub created_at: Seq<char>,
    pub updated_at: Seq<char>,
}

impl View for Upstream {
    type V = UpstreamModel;

    open spec fn view(&self) -> UpstreamModel {
        UpstreamModel {
            id: self.id as int,
            name: self.name@,
            base_url: self.base_url@,
            created_at: self.created_at@,
            updated_at: self.updated_at@,
        }
    }
}

impl From<Upstream> for UpstreamView {
    /// What a page shows of `upstream`.
    fn from(upstream: Upstream) -> (view: Self) {
        UpstreamView {
            id: upstream.id,
            name: upstream.name,
            base_url: upstream.base_url,
            created_at: upstream.created_at,
        }
    }
}

impl vstd::std_specs::convert::FromSpecImpl<Upstream> for UpstreamView {
    open spec fn obeys_from_spec() -> bool {
        true
    }

    open spec fn from_spec(upstream: Upstream) -> Self {
        UpstreamView {
            id: upstream.id,
            name: upstream.name,
            base_url: upstream.base_url,
            created_at: upstream.created_at,
        }
    }
}

/// The views of `rows`.
pub open spec fn upstream_views(rows: Seq<Upstream>) -> Seq<UpstreamModel> {
    rows.map_values(|row: Upstream| row@)
}

/// A base URL without white space around it and slashes behind it.
pub open spec fn trimmed(base_url: Seq<char>) -> Seq<char> {
    trim_end_mark(trim(base_url), '/')
}

/// The base URL `kept`, given what reading it as a URL came to, or why it is refused.
pub open spec fn accepted(
    kept: Seq<char>,
    parsed: Result<UrlModel, Seq<char>>,
) -> Result<Seq<char>, Seq<char>> {
    match parsed {
        Err(message) => Err(message),
        Ok(url) => if url.scheme != "http"@ && url.scheme != "https"@ {
            Err("scheme must be http or https"@)
        } else if url.host is None {
            Err("host is required"@)
        } else if url.query is Some || url.fragment is Some {
            Err("query and fragment are not allowed"@)
        } else {
            Ok(kept)
        },
    }
}

/// The base URL to store for what was typed in, or why it is refused.
pub open spec fn normalized(base_url: Seq<char>) -> Result<Seq<char>, Seq<char>> {
    accepted(trimmed(base_url), url_parse(trimmed(base_url)))
}

/// What to do to the table of upstreams.
#[derive(Clone, Debug)]
pub enum UpstreamWrite {
    /// Set name, base URL and time of change of one row.
    Update { id: i64, name: String, base_url: String, updated_at: String },
    /// Delete every row but one.
    DeleteOthers { id: i64 },
    /// Add a row with a new identifier.
    Insert { name: String, base_url: String, created_at: String, updated_at: String },
}

/// A change of the table as a mathematical value.
pub enum WriteModel {
    Update { id: int, name: Seq<char>, base_url: Seq<char>, updated_at: Seq<char> },
    DeleteOthers { id: int },
    Insert { name: Seq<char>, base_url: Seq<char>, created_at: Seq<char>, updated_at: Seq<char> },
}

impl View for UpstreamWrite {
    type V = WriteModel;

    open spec fn view(&self) -> WriteModel {
        match self {
            UpstreamWrite::Update { id, name, base_url, updated_at } => WriteModel::Update {
                id: *id as int,
                name: name@,
                base_url: base_url@,
                updated_at: updated_at@,
            },
            UpstreamWrite::DeleteOthers { id } => WriteModel::DeleteOthers { id: *id as int },
            UpstreamWrite::Insert { name, base_url, created_at, updated_at } => WriteModel::Insert {
                name: name@,
                base_url: base_url@,
                created_at: created_at@,
                updated_at: updated_at@,
            },
        }
    }
}

/// The views of `writes`.
pub open spec fn write_views(writes: Seq<UpstreamWrite>) -> Seq<WriteModel> {
    writes.map_values(|write: UpstreamWrite| write@)
}

/// The rows after one change, where a new row gets the identifier `fresh`.
pub open spec fn applied(
    rows: Seq<UpstreamModel>,
    write: WriteModel,
    fresh: int,
) -> Seq<UpstreamModel> {
    match write {
        WriteModel::Update { id, name, base_url, updated_at } => rows.map_values(
            |row: UpstreamModel|
                if row.id == id {
                    UpstreamModel { name, base_url, updated_at, ..row }
                } else {
                    row
                },
        ),
        WriteModel::DeleteOthers { id } => rows.filter(|row: UpstreamModel| row.id == id),
        WriteModel::Insert { name, base_url, created_at, updated_at } => rows.push(
            UpstreamModel { id: fresh, name, base_url, created_at, updated_at },
        ),
    }
}

/// The rows after several changes, in order.
pub open spec fn applied_all(
    rows: Seq<UpstreamModel>,
    writes: Seq<WriteModel>,
    fresh: int,
) -> Seq<UpstreamModel>
    decreases writes.len(),
{
    if writes.len() == 0 {
        rows
    } else {
        applied(applied_all(rows, writes.drop_last(), fresh), writes.last(), fresh)
    }
}

/// How a base URL is saved: in the first row, which is then the only one.
pub open spec fn save_writes(
    first: Option<UpstreamModel>,
    base_url: Seq<char>,
    now: Seq<char>,
) -> Seq<WriteModel> {
    match first {
        Some(existing) => seq![
            WriteModel::Update { id: existing.id, name: "default"@, base_url, updated_at: now },
            WriteModel::DeleteOthers { id: existing.id },
        ],
        None => seq![
            WriteModel::Insert { name: "default"@, base_url, created_at: now, updated_at: now },
        ],
    }
}

/// The first of `rows` by identifier.
pub open spec fn first_of(rows: Seq<UpstreamModel>) -> Option<UpstreamModel>
    decreases rows.len(),
{
    if rows.len() == 0 {
        None
    } else {
        match first_of(rows.drop_last()) {
            Some(first) if first.id <= rows.last().id => Some(first),
            _ => Some(rows.last()),
        }
    }
}

/// The first of `rows` is one of them, and none comes before it.
pub proof fn lemma_first_comes_first(rows: Seq<UpstreamModel>)
    ensures
        first_of(rows) is None <==> rows.len() == 0,
        first_of(rows) matches Some(first) ==> {
            &&& rows.contains(first)
            &&& forall|i: int| 0 <= i < rows.len() ==> first.id <= (#[trigger] rows[i]).id
        },
    decreases rows.len(),
{
    if rows.len() > 0 {
        let before = rows.drop_last();
        lemma_first_comes_first(before);
        if let Some(first) = first_of(before) {
            let k = choose|k: int| 0 <= k < before.len() && before[k] == first;
            assert(rows[k] == first);
        }
        assert(rows[rows.len() - 1] == rows.last());
        assert forall|i: int| 0 <= i < rows.len() implies first_of(rows)->0.id <= (
        #[trigger] rows[i]).id by {
            if i < before.len() {
                assert(rows[i] == before[i]);
            }
        }
    }
}

// ---------------------------------------------------------------------------
// Laws
// ---------------------------------------------------------------------------

/// However many rows there were, saving a base URL leaves exactly one row: the
/// first one keeps its identifier and its time of creation, and it holds the
/// base URL that was saved. That row is the upstream that requests go to.
pub proof fn lemma_save_leaves_one_upstream(
    rows: Seq<UpstreamModel>,
    base_url: Seq<char>,
    now: Seq<char>,
    fresh: int,
)
    requires
        forall|i: int, j: int|
            0 <= i < j < rows.len() ==> (#[trigger] rows[i]).id != (#[trigger] rows[j]).id,
    ensures
        ({
            let after = applied_all(rows, save_writes(first_of(rows), base_url, now), fresh);
            &&& after.len() == 1
            &&& after[0].name == "default"@
            &&& after[0].base_url == base_url
            &&& after[0].updated_at == now
            &&& runtime_list(after) == after
            &&& first_of(rows) matches Some(first) ==> after[0].id == first.id
                && after[0].created_at == first.created_at
            &&& first_of(rows) is None ==> after[0].id == fresh && after[0].created_at == now
        }),
{
    reveal_with_fuel(applied_all, 3);
    lemma_first_comes_first(rows);
    let writes = save_writes(first_of(rows), base_url, now);
    if let Some(first) = first_of(rows) {
        let id = first.id;
        let at = choose|at: int| 0 <= at < rows.len() && rows[at] == first;
        assert(writes.drop_last().drop_last() =~= Seq::<WriteModel>::empty());
        let updated = applied(rows, writes[0], fresh);
        assert(updated.len() == rows.len());
        assert forall|i: int| 0 <= i < updated.len() && i != at implies (
        #[trigger] updated[i]).id != id by {
            if i < at {
                assert(rows[i].id != rows[at].id);
            } else {
                assert(rows[at].id != rows[i].id);
            }
        }
        let only = |row: UpstreamModel| row.id == id;
        lemma_filter_one(updated, only, at);
        assert(applied_all(rows, writes.drop_last(), fresh) == updated);
    } else {
        assert(writes.drop_last() =~= Seq::<WriteModel>::empty());
    }
    let after = applied_all(rows, writes, fresh);
    lemma_first_comes_first(after);
    assert(runtime_list(after) =~= after);
}

proof fn lemma_filter_one(rows: Seq<UpstreamModel>, keep: spec_fn(UpstreamModel) -> bool, at: int)
    requires
        0 <= at < rows.len(),
        keep(rows[at]),
        forall|i: int| 0 <= i < rows.len() && i != at ==> !keep(#[trigger] rows[i]),
    ensures
        rows.filter(keep) == seq![rows[at]],
    decreases rows.len(),
{
    reveal(Seq::filter);
    if at == rows.len() - 1 {
        lemma_filter_none(rows.drop_last(), keep);
    } else {
        lemma_filter_one(rows.drop_last(), keep, at);
    }
}

proof fn lemma_filter_none(rows: Seq<UpstreamModel>, keep: spec_fn(UpstreamModel) -> bool)
    requires
        forall|i: int| 0 <= i < rows.len() ==> !keep(#[trigger] rows[i]),
    ensures
        rows.filter(keep) == Seq::<UpstreamModel>::empty(),
    decreases rows.len(),
{
    reveal(Seq::filter);
    if rows.len() > 0 {
        lemma_filter_none(rows.drop_last(), keep);
    }
}

/// What is stored names a web server: its scheme is `http` or `https`, it has a
/// host, and neither a query nor a fragment.
pub proof fn lemma_stored_url_is_plain(base_url: Seq<char>)
    requires
        normalized(base_url) is Ok,
    ensures
        url_parse(normalized(base_url)->Ok_0) is Ok,
        ({
            let url = url_parse(normalized(base_url)->Ok_0)->Ok_0;
            &&& (url.scheme == "http"@ || url.scheme == "https"@)
            &&& url.host is Some
            &&& url.query is None
            &&& url.fragment is None
        }),
{
}

/// Rows, and the changes to them, come one for one with what they stand for.
pub proof fn lemma_rows_come_one_for_one(
    rows: Seq<Upstream>,
    writes: Seq<UpstreamWrite>,
    at: int,
)
    ensures
        upstream_views(rows).len() == rows.len(),
        write_views(writes).len() == writes.len(),
        0 <= at < rows.len() ==> upstream_views(rows)[at] == rows[at]@ && rows[at]@.id
            == rows[at].id && rows[at]@.name == rows[at].name@ && rows[at]@.base_url
            == rows[at].base_url@,
        0 <= at < writes.len() ==> write_views(writes)[at] == writes[at]@,
{
}

/// A URL that was read is kept exactly if its scheme is `http` or `https`, it has
/// a host, and it has neither a query nor a fragment; what is wrong with it is
/// told in this order.
pub proof fn lemma_web_servers_are_kept(kept: Seq<char>, url: UrlModel, message: Seq<char>)
    ensures
        accepted(kept, Err(message)) == Err::<Seq<char>, Seq<char>>(message),
        accepted(kept, Ok(url)) is Ok <==> (url.scheme == "http"@ || url.scheme == "https"@)
            && url.host is Some && url.query is None && url.fragment is None,
        accepted(kept, Ok(url)) is Ok ==> accepted(kept, Ok(url)) == Ok::<Seq<char>, Seq<char>>(
            kept,
        ),
        url.scheme != "http"@ && url.scheme != "https"@ ==> accepted(kept, Ok(url)) == Err::<
            Seq<char>,
            Seq<char>,
        >("scheme must be http or https"@),
        (url.scheme == "http"@ || url.scheme == "https"@) && url.host is None ==> accepted(
            kept,
            Ok(url),
        ) == Err::<Seq<char>, Seq<char>>("host is required"@),
        (url.scheme == "http"@ || url.scheme == "https"@) && url.host is Some && (url.query is Some
            || url.fragment is Some) ==> accepted(kept, Ok(url)) == Err::<Seq<char>, Seq<char>>(
            "query and fragment are not allowed"@,
        ),
{
}

/// What is stored, and what is read as a URL, is what was typed in without the
/// white space around it and the slashes behind it.
pub proof fn lemma_stored_url_is_what_was_typed(base_url: Seq<char>) -> (at: int)
    ensures
        occurs_at(base_url, trimmed(base_url), at),
        forall|i: int| 0 <= i < at ==> is_space(#[trigger] base_url[i]),
        forall|i: int|
            at + trimmed(base_url).len() <= i < base_url.len() ==> is_space(
                #[trigger] base_url[i],
            ) || base_url[i] == '/',
        trimmed(base_url).len() > 0 ==> trimmed(base_url).last() != '/',
        trimmed(base_url).len() > 0 ==> !is_space(trimmed(base_url)[0]),
        normalized(base_url) matches Ok(kept) ==> kept == trimmed(base_url),
{
    let at = lemma_trim_takes_off_white_space(base_url);
    let middle = trim(base_url);
    lemma_marks_are_taken_off(middle, '/');
    let kept = trimmed(base_url);
    assert(base_url.subrange(at, at + kept.len()) =~= kept) by {
        assert forall|i: int| 0 <= i < kept.len() implies base_url[at + i] == kept[i] by {
            assert(base_url.subrange(at, at + middle.len())[i] == middle[i]);
        }
    }
    assert forall|i: int| at + kept.len() <= i < base_url.len() implies is_space(
        #[trigger] base_url[i],
    ) || base_url[i] == '/' by {
        if i < at + middle.len() {
            assert(base_url.subrange(at, at + middle.len())[i - at] == middle[i - at]);
        }
    }
    at
}

/// Requests are forwarded to one upstream at most: the row with the least
/// identifier.
pub proof fn lemma_one_upstream_is_used(rows: Seq<UpstreamModel>)
    ensures
        rows.len() == 0 ==> runtime_list(rows).len() == 0,
        rows.len() > 0 ==> runtime_list(rows).len() == 1 && rows.contains(runtime_list(rows)[0])
            && forall|i: int|
            0 <= i < rows.len() ==> runtime_list(rows)[0].id <= (#[trigger] rows[i]).id,
{
    lemma_first_comes_first(rows);
}

proof fn lemma_trim_end_mark_ends(text: Seq<char>, mark: char)
    ensures
        trim_end_mark(text, mark).len() > 0 ==> trim_end_mark(text, mark).last() != mark,
    decreases text.len(),
{
    if text.len() > 0 && text.last() == mark {
        lemma_trim_end_mark_ends(text.drop_last(), mark);
    }
}

/// What is stored never ends in a slash, so that a path can be put behind it.
pub proof fn lemma_stored_url_ends_without_slash(base_url: Seq<char>)
    requires
        normalized(base_url) is Ok,
        normalized(base_url)->Ok_0.len() > 0,
    ensures
        normalized(base_url)->Ok_0.last() != '/',
{
    lemma_trim_end_mark_ends(trim(base_url), '/');
}

// ---------------------------------------------------------------------------
// Operations
// ---------------------------------------------------------------------------

/// The base URL to store for what was typed in.
pub fn normalize_base_url(base_url: &str) -> (url: Result<String, UpstreamError>)
    ensures
        match url {
            Ok(url) => normalized(base_url@) == Ok::<Seq<char>, Seq<char>>(url@),
            Err(UpstreamError::InvalidBaseUrl(message)) => normalized(base_url@) == Err::<
                Seq<char>,
                Seq<char>,
            >(message@),
        },
{
    let chars = chars_of(base_url);
    let kept = text_of(trim_end_mark_chars(trim_chars(chars.as_slice()), '/'));
    let parsed = parse_url(kept.as_str());
    accept_base_url(kept, parsed)
}

/// The base URL `kept`, given what reading it as a URL came to: it is kept if it
/// names a web server and has neither a query nor a fragment.
pub fn accept_base_url(
    kept: String,
    parsed: Result<UrlParts, String>,
) -> (url: Result<String, UpstreamError>)
    ensures
        match url {
            Ok(url) => accepted(kept@, parsed_view(parsed)) == Ok::<Seq<char>, Seq<char>>(url@),
            Err(UpstreamError::InvalidBaseUrl(message)) => accepted(kept@, parsed_view(parsed))
                == Err::<Seq<char>, Seq<char>>(message@),
        },
{
    match parsed {
        Err(message) => Err(UpstreamError::InvalidBaseUrl(message)),
        Ok(parsed) => {
            if !same_text(parsed.scheme.as_str(), "http") && !same_text(
                parsed.scheme.as_str(),
                "https",
            ) {
                Err(UpstreamError::InvalidBaseUrl("scheme must be http or https".to_string()))
            } else if parsed.host.is_none() {
                Err(UpstreamError::InvalidBaseUrl("host is required".to_string()))
            } else if parsed.query.is_some() || parsed.fragment.is_some() {
                Err(UpstreamError::InvalidBaseUrl("query and fragment are not allowed".to_string()))
            } else {
                Ok(kept)
            }
        },
    }
}

/// The changes that save a base URL, given the rows there are and the time.
pub fn save_single_base_url(rows: &[Upstream], base_url: &str, now: &str) -> (writes: Result<
    Vec<UpstreamWrite>,
    UpstreamError,
>)
    ensures
        match writes {
            Ok(writes) => {
                &&& normalized(base_url@) is Ok
                &&& write_views(writes@) == save_writes(
                    first_of(upstream_views(rows@)),
                    normalized(base_url@)->Ok_0,
                    now@,
                )
            },
            Err(UpstreamError::InvalidBaseUrl(message)) => normalized(base_url@) == Err::<
                Seq<char>,
                Seq<char>,
            >(message@),
        },
{
    match normalize_base_url(base_url) {
        Err(error) => Err(error),
        Ok(url) => {
            let ghost kept = url@;
            let mut writes: Vec<UpstreamWrite> = Vec::new();
            match get_configured(rows) {
                Some(existing) => {
                    writes.push(
                        UpstreamWrite::Update {
                            id: existing.id,
                            name: "default".to_string(),
                            base_url: url,
                            updated_at: now.to_string(),
                        },
                    );
                    writes.push(UpstreamWrite::DeleteOthers { id: existing.id });
                },
                None => {
                    writes.push(
                        UpstreamWrite::Insert {
                            name: "default".to_string(),
                            base_url: url,
                            created_at: now.to_string(),
                            updated_at: now.to_string(),
                        },
                    );
                },
            }
            assert(write_views(writes@) =~= save_writes(
                first_of(upstream_views(rows@)),
                kept,
                now@,
            ));
            Ok(writes)
        },
    }
}

/// The configured upstream: the first of the rows by identifier.
pub fn get_configured(rows: &[Upstream]) -> (first: Option<&Upstream>)
    ensures
        match first {
            Some(upstream) => first_of(upstream_views(rows@)) == Some(upstream@),
            None => first_of(upstream_views(rows@)) is None,
        },
        first is None <==> rows@.len() == 0,
{
    if rows.len() == 0 {
        return None;
    }
    let ghost views = upstream_views(rows@);
    let mut best: usize = 0;
    let mut i: usize = 1;
    proof {
        reveal_with_fuel(first_of, 2);
        assert(views.take(1).drop_last() =~= Seq::<UpstreamModel>::empty());
        assert(views.take(1).last() == views[0]);
    }
    while i < rows.len()
        invariant
            1 <= i <= rows@.len(),
            best < i,
            views == upstream_views(rows@),
            first_of(views.take(i as int)) == Some(views[best as int]),
        decreases rows@.len() - i,
    {
        assert(views.take(i + 1).drop_last() =~= views.take(i as int));
        assert(views.take(i + 1).last() == views[i as int]);
        assert(views[i as int] == rows@[i as int]@);
        assert(views[best as int] == rows@[best as int]@);
        if rows[i].id < rows[best].id {
            best = i;
        }
        i += 1;
    }
    assert(views.take(rows@.len() as int) =~= views);
    assert(views[best as int] == rows@[best as int]@);
    Some(&rows[best])
}

/// A copy of `upstream`.
pub fn copy_upstream(upstream: &Upstream) -> (copy: Upstream)
    ensures
        copy@ == upstream@,
{
    Upstream {
        id: upstream.id,
        name: upstream.name.clone(),
        base_url: upstream.base_url.clone(),
        created_at: upstream.created_at.clone(),
        updated_at: upstream.updated_at.clone(),
    }
}

/// The upstreams to forward to: the configured one, if there is one.
pub open spec fn runtime_list(rows: Seq<UpstreamModel>) -> Seq<UpstreamModel> {
    match first_of(rows) {
        Some(first) => seq![first],
        None => Seq::empty(),
    }
}

/// The upstreams to forward to: the configured one, if there is one.
pub fn list_runtime(rows: &[Upstream]) -> (upstreams: Vec<Upstream>)
    ensures
        upstream_views(upstreams@) == runtime_list(upstream_views(rows@)),
{
    let mut upstreams: Vec<Upstream> = Vec::new();
    if let Some(first) = get_configured(rows) {
        upstreams.push(copy_upstream(first));
    }
    assert(upstream_views(upstreams@) =~= runtime_list(upstream_views(rows@)));
    upstreams
}

/// How many upstreams are configured: one or none.
pub fn count_configured(rows: &[Upstream]) -> (count: i64)
    ensures
        count == if rows@.len() > 0 {
            1i64
        } else {
            0i64
        },
{
    if get_configured(rows).is_some() {
        1
    } else {
        0
    }
}

/// The base URL to save at the start, if any: the one that the environment
/// names, unless an upstream is configured.
pub fn seed_from_env<'a>(rows: &[Upstream], base_url: Option<&'a str>) -> (seed: Option<&'a str>)
    ensures
        opt_str(seed) == match base_url {
            Some(url) if url@.len() > 0 && rows@.len() == 0 => Some(url@),
            _ => None,
        },
{
    match base_url {
        Some(url) => {
            if url.unicode_len() > 0 && get_configured(rows).is_none() {
                Some(url)
            } else {
                None
            }
        },
        None => None,
    }
}

}
