//! What the pages show, and what their forms do.

use axum::http::HeaderMap;
use vstd::prelude::*;

use crate::config::value_or;
use crate::decimal::{decimal, decimal_text};
use crate::error::AppError;
use crate::interop::http::{header_lines, plain_name, short_name, values_named};
use crate::proxy::headers::{first_text, header_text, visible_text, Line};
use crate::storage::records::{
    count_by_status, stats_of, total_requests, traffic_stats, with_status, AttemptRecord,
    RequestRecord, TrafficStats,
};
use crate::storage::settings::RuntimeSettings;
use crate::storage::upstreams::{
    copy_upstream, first_of, get_configured, normalized, save_single_base_url, save_writes,
    count_configured, upstream_views, write_views, Upstream, UpstreamError, UpstreamModel,
    UpstreamView, UpstreamWrite,
};
use crate::text::{
    chars_of, lemma_split_nonempty, lower, opt_text, pieces, same_text, split_chars,
    split_on, text_of, trim, trim_chars,
};

verus! {

// ---------------------------------------------------------------------------
// Labels
// ---------------------------------------------------------------------------

/// A number, or a dash where there is none.
pub open spec fn number_label(value: Option<i64>) -> Seq<char> {
    match value {
        Some(number) => decimal(number as int),
        None => "-"@,
    }
}

/// A time in milliseconds, or a dash where there is none.
pub open spec fn ms_label(value: Option<i64>) -> Seq<char> {
    match value {
        Some(number) => decimal(number as int) + " ms"@,
        None => "-"@,
    }
}

/// Whether a body was stored whole, in part, or not at all.
pub open spec fn body_label(value: Option<i64>) -> Seq<char> {
    match value {
        Some(1) => "完整"@,
        Some(_) => "部分"@,
        None => "-"@,
    }
}

/// Numbers are shown in decimal, times with their unit, and what is missing as a
/// dash. A body is shown as whole exactly if it is marked with one.
pub proof fn lemma_what_labels_say(number: i64)
    ensures
        number_label(Some(number)) == decimal(number as int),
        number_label(None) == "-"@,
        ms_label(Some(number)) == decimal(number as int) + " ms"@,
        ms_label(None) == "-"@,
        number == 1 ==> body_label(Some(number)) == "完整"@,
        number != 1 ==> body_label(Some(number)) == "部分"@,
        body_label(None) == "-"@,
{
}

/// A number, or a dash where there is none.
pub fn format_optional_number(value: Option<i64>) -> (label: String)
    ensures
        label@ == number_label(value),
{
    match value {
        Some(number) => decimal_text(number),
        None => "-".to_string(),
    }
}

/// A time in milliseconds, or a dash where there is none.
pub fn format_optional_ms(value: Option<i64>) -> (label: String)
    ensures
        label@ == ms_label(value),
{
    match value {
        Some(number) => {
            let mut label = decimal_text(number);
            label.append(" ms");
            label
        },
        None => "-".to_string(),
    }
}

/// Whether a body was stored whole, in part, or not at all.
pub fn complete_label(value: Option<i64>) -> (label: String)
    ensures
        label@ == body_label(value),
{
    match value {
        Some(mark) => if mark == 1 {
            "完整".to_string()
        } else {
            "部分".to_string()
        },
        None => "-".to_string(),
    }
}

fn text_or_dash(value: Option<String>) -> (label: String)
    ensures
        label@ == value_or(opt_text(value), "-"@),
{
    match value {
        Some(text) => text,
        None => "-".to_string(),
    }
}

// ---------------------------------------------------------------------------
// Requests and traffic
// ---------------------------------------------------------------------------

/// A request as pages show it.
#[derive(Clone, Debug)]
pub struct RequestRecordView {
    pub id: String,
    pub method: String,
    pub endpoint: String,
    pub model: String,
    pub status: String,
    pub upstream_name: String,
    pub attempt_count: i64,
    pub final_http_status: String,
    pub retry_count: i64,
    pub response_header_ms: String,
    pub first_token_ms: String,
    pub request_body_bytes: String,
    pub request_body_complete: String,
    pub response_body_bytes: String,
    pub response_body_complete: String,
    pub created_at: String,
    pub duration_ms: String,
    pub error_message: String,
}

/// Whether `view` shows `record`.
pub open spec fn shows(view: RequestRecordView, record: RequestRecord) -> bool {
    &&& view.id@ == record.id@
    &&& view.method@ == record.method@
    &&& view.endpoint@ == record.endpoint@
    &&& view.model@ == value_or(opt_text(record.model), "-"@)
    &&& view.status@ == record.status@
    &&& view.upstream_name@ == value_or(opt_text(record.upstream_name), "-"@)
    &&& view.attempt_count == record.attempt_count
    &&& view.final_http_status@ == number_label(record.final_http_status)
    &&& view.retry_count == record.retry_count
    &&& view.response_header_ms@ == number_label(record.response_header_ms)
    &&& view.first_token_ms@ == number_label(record.first_token_ms)
    &&& view.request_body_bytes@ == number_label(record.request_body_bytes)
    &&& view.request_body_complete@ == body_label(record.request_body_complete)
    &&& view.response_body_bytes@ == number_label(record.response_body_bytes)
    &&& view.response_body_complete@ == body_label(record.response_body_complete)
    &&& view.created_at@ == record.created_at@
    &&& view.duration_ms@ == number_label(record.duration_ms)
    &&& view.error_message@ == value_or(opt_text(record.error_message), Seq::empty())
}

/// A page shows each field of a request in its own place; a number, a model or an
/// upstream that is missing is a dash, and a message that is missing is empty.
pub proof fn lemma_a_page_shows_the_request(
    view: RequestRecordView,
    record: RequestRecord,
    number: i64,
)
    requires
        shows(view, record),
    ensures
        view.id@ == record.id@ && view.method@ == record.method@ && view.endpoint@
            == record.endpoint@,
        view.status@ == record.status@ && view.created_at@ == record.created_at@,
        view.attempt_count == record.attempt_count && view.retry_count == record.retry_count,
        record.model matches Some(text) ==> view.model@ == text@,
        record.model is None ==> view.model@ == "-"@,
        record.upstream_name matches Some(text) ==> view.upstream_name@ == text@,
        record.upstream_name is None ==> view.upstream_name@ == "-"@,
        record.error_message matches Some(text) ==> view.error_message@ == text@,
        record.error_message is None ==> view.error_message@.len() == 0,
        record.final_http_status == Some(number) ==> view.final_http_status@ == decimal(
            number as int,
        ),
        record.response_header_ms == Some(number) ==> view.response_header_ms@ == decimal(
            number as int,
        ),
        record.first_token_ms == Some(number) ==> view.first_token_ms@ == decimal(number as int),
        record.duration_ms == Some(number) ==> view.duration_ms@ == decimal(number as int),
        record.request_body_bytes == Some(number) ==> view.request_body_bytes@ == decimal(
            number as int,
        ),
        record.response_body_bytes == Some(number) ==> view.response_body_bytes@ == decimal(
            number as int,
        ),
        record.final_http_status is None ==> view.final_http_status@ == "-"@,
        record.response_header_ms is None ==> view.response_header_ms@ == "-"@,
        record.first_token_ms is None ==> view.first_token_ms@ == "-"@,
        record.duration_ms is None ==> view.duration_ms@ == "-"@,
        record.request_body_bytes is None ==> view.request_body_bytes@ == "-"@,
        record.response_body_bytes is None ==> view.response_body_bytes@ == "-"@,
        record.request_body_complete == Some(1i64) ==> view.request_body_complete@ == "完整"@,
        record.response_body_complete == Some(1i64) ==> view.response_body_complete@ == "完整"@,
        record.request_body_complete == Some(0i64) ==> view.request_body_complete@ == "部分"@,
        record.response_body_complete == Some(0i64) ==> view.response_body_complete@ == "部分"@,
        record.request_body_complete is None ==> view.request_body_complete@ == "-"@,
        record.response_body_complete is None ==> view.response_body_complete@ == "-"@,
{
}

impl RequestRecordView {
    /// What a page shows of `record`.
    pub fn from_record(record: RequestRecord) -> (view: Self)
        ensures
            shows(view, record),
    {
        RequestRecordView {
            id: record.id,
            method: record.method,
            endpoint: record.endpoint,
            model: text_or_dash(record.model),
            status: record.status,
            upstream_name: text_or_dash(record.upstream_name),
            attempt_count: record.attempt_count,
            final_http_status: format_optional_number(record.final_http_status),
            retry_count: record.retry_count,
            response_header_ms: format_optional_number(record.response_header_ms),
            first_token_ms: format_optional_number(record.first_token_ms),
            request_body_bytes: format_optional_number(record.request_body_bytes),
            request_body_complete: complete_label(record.request_body_complete),
            response_body_bytes: format_optional_number(record.response_body_bytes),
            response_body_complete: complete_label(record.response_body_complete),
            created_at: record.created_at,
            duration_ms: format_optional_number(record.duration_ms),
            error_message: match record.error_message {
                Some(message) => message,
                None => String::new(),
            },
        }
    }
}

/// The traffic as pages show it.
#[derive(Clone, Debug)]
pub struct TrafficStatsView {
    pub first_token_min_ms: String,
    pub first_token_max_ms: String,
    pub response_min_ms: String,
    pub response_max_ms: String,
    pub timeout_filtered_attempts: i64,
    pub response_header_timeout_attempts: i64,
    pub first_token_timeout_attempts: i64,
}

/// Whether `view` shows `stats`.
pub open spec fn shows_traffic(view: TrafficStatsView, stats: TrafficStats) -> bool {
    &&& view.first_token_min_ms@ == ms_label(stats.first_token_min_ms)
    &&& view.first_token_max_ms@ == ms_label(stats.first_token_max_ms)
    &&& view.response_min_ms@ == ms_label(stats.response_min_ms)
    &&& view.response_max_ms@ == ms_label(stats.response_max_ms)
    &&& view.timeout_filtered_attempts == stats.timeout_filtered_attempts
    &&& view.response_header_timeout_attempts == stats.response_header_timeout_attempts
    &&& view.first_token_timeout_attempts == stats.first_token_timeout_attempts
}

/// A page shows each figure of the traffic in its own place.
pub proof fn lemma_a_page_shows_the_traffic(
    view: TrafficStatsView,
    stats: TrafficStats,
    number: i64,
)
    requires
        shows_traffic(view, stats),
    ensures
        stats.first_token_min_ms == Some(number) ==> view.first_token_min_ms@ == decimal(
            number as int,
        ) + " ms"@,
        stats.first_token_max_ms == Some(number) ==> view.first_token_max_ms@ == decimal(
            number as int,
        ) + " ms"@,
        stats.response_min_ms == Some(number) ==> view.response_min_ms@ == decimal(number as int)
            + " ms"@,
        stats.response_max_ms == Some(number) ==> view.response_max_ms@ == decimal(number as int)
            + " ms"@,
        stats.first_token_min_ms is None ==> view.first_token_min_ms@ == "-"@,
        stats.first_token_max_ms is None ==> view.first_token_max_ms@ == "-"@,
        stats.response_min_ms is None ==> view.response_min_ms@ == "-"@,
        stats.response_max_ms is None ==> view.response_max_ms@ == "-"@,
        view.timeout_filtered_attempts == stats.timeout_filtered_attempts,
        view.response_header_timeout_attempts == stats.response_header_timeout_attempts,
        view.first_token_timeout_attempts == stats.first_token_timeout_attempts,
{
}

impl TrafficStatsView {
    /// What a page shows of `stats`.
    pub fn from_stats(stats: TrafficStats) -> (view: Self)
        ensures
            shows_traffic(view, stats),
    {
        TrafficStatsView {
            first_token_min_ms: format_optional_ms(stats.first_token_min_ms),
            first_token_max_ms: format_optional_ms(stats.first_token_max_ms),
            response_min_ms: format_optional_ms(stats.response_min_ms),
            response_max_ms: format_optional_ms(stats.response_max_ms),
            timeout_filtered_attempts: stats.timeout_filtered_attempts,
            response_header_timeout_attempts: stats.response_header_timeout_attempts,
            first_token_timeout_attempts: stats.first_token_timeout_attempts,
        }
    }
}

/// How many requests there were, and how they ended.
#[derive(Clone, Copy, Debug, PartialEq, Eq, Structural)]
pub struct RequestCounts {
    pub total_requests: i64,
    pub success_requests: i64,
    pub timeout_requests: i64,
}

proof fn lemma_statuses_are_apart(requests: Seq<RequestRecord>, left: Seq<char>, right: Seq<char>)
    requires
        left != right,
    ensures
        with_status(requests, left) + with_status(requests, right) <= requests.len(),
    decreases requests.len(),
{
    if requests.len() > 0 {
        lemma_statuses_are_apart(requests.drop_last(), left, right);
    }
}

/// Whether `counts` are those of `requests`. A request that succeeded after a
/// retry counts as a success.
pub open spec fn counts_of(counts: RequestCounts, requests: Seq<RequestRecord>) -> bool {
    &&& counts.total_requests == requests.len()
    &&& counts.success_requests == with_status(requests, "success"@) + with_status(
        requests,
        "retried_success"@,
    )
    &&& counts.timeout_requests == with_status(requests, "exhausted_timeout"@)
}

/// One more request adds one to the total. It adds one to the successes if it
/// succeeded, at once or after a retry, one to the timeouts if its attempts were
/// used up by timeouts, and nothing else. Without requests all counts are zero.
pub proof fn lemma_one_more_request_counts_once(
    before: RequestCounts,
    after: RequestCounts,
    requests: Seq<RequestRecord>,
    request: RequestRecord,
)
    requires
        counts_of(before, requests),
        counts_of(after, requests.push(request)),
    ensures
        after.total_requests == before.total_requests + 1,
        after.success_requests == before.success_requests + if request.status@ == "success"@
            || request.status@ == "retried_success"@ {
            1int
        } else {
            0int
        },
        after.timeout_requests == before.timeout_requests + if request.status@
            == "exhausted_timeout"@ {
            1int
        } else {
            0int
        },
        requests.len() == 0 ==> before.total_requests == 0 && before.success_requests == 0
            && before.timeout_requests == 0,
{
    reveal_strlit("success");
    reveal_strlit("retried_success");
    assert("success"@.len() == 7 && "retried_success"@.len() == 15);
    assert(requests.push(request).drop_last() =~= requests);
}

/// How many requests there were, and how they ended.
pub fn request_counts(requests: &[RequestRecord]) -> (counts: RequestCounts)
    requires
        requests@.len() <= i64::MAX,
    ensures
        counts_of(counts, requests@),
{
    proof {
        reveal_strlit("success");
        reveal_strlit("retried_success");
        assert("success"@.len() == 7 && "retried_success"@.len() == 15);
        lemma_statuses_are_apart(requests@, "success"@, "retried_success"@);
    }
    RequestCounts {
        total_requests: total_requests(requests),
        success_requests: count_by_status(requests, "success") + count_by_status(
            requests,
            "retried_success",
        ),
        timeout_requests: count_by_status(requests, "exhausted_timeout"),
    }
}

/// What the dashboard shows.
#[derive(Debug)]
pub struct Dashboard {
    pub settings: RuntimeSettings,
    pub upstream_count: i64,
    pub counts: RequestCounts,
    pub traffic_stats: TrafficStatsView,
    pub requests: Vec<RequestRecordView>,
}

/// What pages show of `records`, in the same order.
pub fn request_views(records: Vec<RequestRecord>) -> (views: Vec<RequestRecordView>)
    ensures
        views@.len() == records@.len(),
        forall|i: int| 0 <= i < views@.len() ==> shows(#[trigger] views@[i], records@[i]),
{
    let mut records = records;
    let ghost all = records@;
    let mut reversed: Vec<RequestRecordView> = Vec::new();
    while records.len() > 0
        invariant
            records@ == all.take(records@.len() as int),
            records@.len() + reversed@.len() == all.len(),
            forall|i: int|
                0 <= i < reversed@.len() ==> shows(
                    #[trigger] reversed@[i],
                    all[all.len() - 1 - i],
                ),
        decreases records@.len(),
    {
        let ghost before = records@;
        if let Some(record) = records.pop() {
            assert(record == all[before.len() - 1]);
            assert(records@ =~= all.take(records@.len() as int));
            reversed.push(RequestRecordView::from_record(record));
        }
    }
    let mut views: Vec<RequestRecordView> = Vec::new();
    let ghost backwards = reversed@;
    while reversed.len() > 0
        invariant
            backwards.len() == all.len(),
            reversed@ == backwards.take(reversed@.len() as int),
            views@.len() + reversed@.len() == all.len(),
            forall|i: int|
                0 <= i < backwards.len() ==> shows(
                    #[trigger] backwards[i],
                    all[all.len() - 1 - i],
                ),
            forall|i: int| 0 <= i < views@.len() ==> shows(#[trigger] views@[i], all[i]),
        decreases reversed@.len(),
    {
        let ghost before = reversed@;
        if let Some(view) = reversed.pop() {
            assert(view == backwards[before.len() - 1]);
            assert(reversed@ =~= backwards.take(reversed@.len() as int));
            assert(all[all.len() - 1 - (before.len() - 1)] == all[views@.len() as int]);
            views.push(view);
        }
    }
    views
}

/// What the dashboard shows: the settings, the counts and the traffic of all
/// records, and the recent requests as they are given.
pub fn dashboard(
    settings: RuntimeSettings,
    upstreams: &[Upstream],
    requests: &[RequestRecord],
    attempts: &[AttemptRecord],
    recent: Vec<RequestRecord>,
) -> (page: Dashboard)
    requires
        requests@.len() <= i64::MAX,
        attempts@.len() <= i64::MAX,
    ensures
        page.settings == settings,
        page.upstream_count == if upstreams@.len() > 0 {
            1i64
        } else {
            0i64
        },
        counts_of(page.counts, requests@),
        shows_traffic(page.traffic_stats, stats_of(requests@, attempts@)),
        page.requests@.len() == recent@.len(),
        forall|i: int|
            0 <= i < recent@.len() ==> shows(#[trigger] page.requests@[i], recent@[i]),
{
    Dashboard {
        settings,
        upstream_count: count_configured(upstreams),
        counts: request_counts(requests),
        traffic_stats: TrafficStatsView::from_stats(traffic_stats(requests, attempts)),
        requests: request_views(recent),
    }
}

// ---------------------------------------------------------------------------
// The settings form
// ---------------------------------------------------------------------------

/// The settings form as it was sent. A switch that is off is not sent at all.
#[derive(Clone, Debug)]
pub struct SettingsForm {
    pub settings_form_version: Option<String>,
    pub policy_enabled: Option<String>,
    pub request_record_enabled: Option<String>,
    pub response_header_timeout_ms: i64,
    pub first_token_timeout_ms: i64,
    pub max_attempts: i64,
    pub auto_retry_enabled: Option<String>,
}

/// The first field of a form that must be positive and is not.
pub open spec fn refused_field(form: SettingsForm) -> Option<Seq<char>> {
    if form.response_header_timeout_ms <= 0 {
        Some("response_header_timeout_ms"@)
    } else if form.first_token_timeout_ms <= 0 {
        Some("first_token_timeout_ms"@)
    } else if form.max_attempts <= 0 {
        Some("max_attempts"@)
    } else {
        None
    }
}

/// The settings that a form asks for. A form of an older version leaves the
/// newer switches as they are.
pub open spec fn form_settings(form: SettingsForm, current: RuntimeSettings) -> RuntimeSettings {
    let newer = opt_text(form.settings_form_version) == Some("2"@);
    RuntimeSettings {
        policy_enabled: if newer {
            form.policy_enabled is Some
        } else {
            current.policy_enabled
        },
        request_record_enabled: if newer {
            form.request_record_enabled is Some
        } else {
            current.request_record_enabled
        },
        response_header_timeout_ms: form.response_header_timeout_ms,
        first_token_timeout_ms: form.first_token_timeout_ms,
        max_attempts: form.max_attempts,
        auto_retry_enabled: form.auto_retry_enabled is Some,
    }
}

/// An accepted form leads to settings that load back as they were saved.
pub proof fn lemma_accepted_form_loads_back(
    form: SettingsForm,
    current: RuntimeSettings,
    table: crate::storage::settings::Table,
    defaults: RuntimeSettings,
)
    requires
        refused_field(form) is None,
    ensures
        crate::storage::settings::settings_of(
            crate::storage::settings::put_all(
                table,
                crate::storage::settings::rows_of(form_settings(form, current)),
            ),
            defaults,
        ) == form_settings(form, current),
{
    crate::storage::settings::lemma_saved_settings_load_back(
        table,
        form_settings(form, current),
        defaults,
    );
}

/// A form of an older version keeps the switches that it does not know of, and
/// sets all the rest.
pub proof fn lemma_older_form_keeps_switches(form: SettingsForm, current: RuntimeSettings)
    requires
        opt_text(form.settings_form_version) != Some("2"@),
    ensures
        form_settings(form, current).policy_enabled == current.policy_enabled,
        form_settings(form, current).request_record_enabled == current.request_record_enabled,
        form_settings(form, current).auto_retry_enabled == (form.auto_retry_enabled is Some),
        form_settings(form, current).response_header_timeout_ms == form.response_header_timeout_ms,
        form_settings(form, current).first_token_timeout_ms == form.first_token_timeout_ms,
        form_settings(form, current).max_attempts == form.max_attempts,
{
}

/// A form of the current version sets everything: each switch is on exactly if it
/// was sent, each number is the one that was sent, and what the settings were
/// before does not matter.
pub proof fn lemma_current_form_sets_everything(
    form: SettingsForm,
    current: RuntimeSettings,
    other: RuntimeSettings,
)
    requires
        opt_text(form.settings_form_version) == Some("2"@),
    ensures
        form_settings(form, current) == form_settings(form, other),
        form_settings(form, current).policy_enabled <==> form.policy_enabled is Some,
        form_settings(form, current).request_record_enabled <==> form.request_record_enabled
            is Some,
        form_settings(form, current).auto_retry_enabled <==> form.auto_retry_enabled is Some,
        form_settings(form, current).response_header_timeout_ms == form.response_header_timeout_ms,
        form_settings(form, current).first_token_timeout_ms == form.first_token_timeout_ms,
        form_settings(form, current).max_attempts == form.max_attempts,
{
}

/// A form is refused exactly if one of its numbers is not positive, and then the
/// first such number is named.
pub proof fn lemma_numbers_must_be_positive(form: SettingsForm)
    ensures
        refused_field(form) is None <==> form.response_header_timeout_ms >= 1
            && form.first_token_timeout_ms >= 1 && form.max_attempts >= 1,
        form.response_header_timeout_ms <= 0 ==> refused_field(form) == Some(
            "response_header_timeout_ms"@,
        ),
        form.response_header_timeout_ms >= 1 && form.first_token_timeout_ms <= 0 ==> refused_field(
            form,
        ) == Some("first_token_timeout_ms"@),
        form.response_header_timeout_ms >= 1 && form.first_token_timeout_ms >= 1
            && form.max_attempts <= 0 ==> refused_field(form) == Some("max_attempts"@),
{
}

/// Refuses a value that is not positive.
pub fn validate_positive(value: i64, field: &str) -> (checked: Result<(), AppError>)
    ensures
        match checked {
            Ok(_) => value > 0,
            Err(AppError::BadRequest(message)) => value <= 0 && message@ == field@ + " 必须大于 0"@,
        },
{
    if value > 0 {
        Ok(())
    } else {
        let mut message = field.to_string();
        message.append(" 必须大于 0");
        Err(AppError::BadRequest(message))
    }
}

/// The settings to save for a form, or why it is refused.
pub fn save_settings(form: &SettingsForm, current: &RuntimeSettings) -> (settings: Result<
    RuntimeSettings,
    AppError,
>)
    ensures
        match settings {
            Ok(settings) => {
                &&& refused_field(*form) is None
                &&& settings == form_settings(*form, *current)
                &&& settings.response_header_timeout_ms == form.response_header_timeout_ms > 0
                &&& settings.first_token_timeout_ms == form.first_token_timeout_ms > 0
                &&& settings.max_attempts == form.max_attempts > 0
                &&& settings.auto_retry_enabled == form.auto_retry_enabled is Some
                &&& opt_text(form.settings_form_version) == Some("2"@) ==> {
                    &&& settings.policy_enabled == form.policy_enabled is Some
                    &&& settings.request_record_enabled == form.request_record_enabled is Some
                }
                &&& opt_text(form.settings_form_version) != Some("2"@) ==> {
                    &&& settings.policy_enabled == current.policy_enabled
                    &&& settings.request_record_enabled == current.request_record_enabled
                }
            },
            Err(AppError::BadRequest(message)) => {
                &&& refused_field(*form) is Some
                &&& message@ == refused_field(*form)->0 + " 必须大于 0"@
            },
        },
{
    if let Err(error) = validate_positive(
        form.response_header_timeout_ms,
        "response_header_timeout_ms",
    ) {
        return Err(error);
    }
    if let Err(error) = validate_positive(form.first_token_timeout_ms, "first_token_timeout_ms") {
        return Err(error);
    }
    if let Err(error) = validate_positive(form.max_attempts, "max_attempts") {
        return Err(error);
    }
    let current_form = match &form.settings_form_version {
        Some(version) => same_text(version.as_str(), "2"),
        None => false,
    };
    Ok(
        RuntimeSettings {
            policy_enabled: if current_form {
                form.policy_enabled.is_some()
            } else {
                current.policy_enabled
            },
            request_record_enabled: if current_form {
                form.request_record_enabled.is_some()
            } else {
                current.request_record_enabled
            },
            response_header_timeout_ms: form.response_header_timeout_ms,
            first_token_timeout_ms: form.first_token_timeout_ms,
            max_attempts: form.max_attempts,
            auto_retry_enabled: form.auto_retry_enabled.is_some(),
        },
    )
}

// ---------------------------------------------------------------------------
// The upstream form
// ---------------------------------------------------------------------------

/// The upstream form as it was sent.
#[derive(Clone, Debug)]
pub struct SaveUpstreamForm {
    pub base_url: String,
}

/// What to do for an upstream form, and what to tell.
#[derive(Debug)]
pub enum UpstreamSave {
    /// Write these changes, refresh, and tell of success.
    Saved { writes: Vec<UpstreamWrite>, message: String },
    /// Write nothing and tell why.
    Refused { error: String },
}

/// What to do for an upstream form, given the rows there are and the time.
pub fn save_upstream(form: &SaveUpstreamForm, rows: &[Upstream], now: &str) -> (save: UpstreamSave)
    ensures
        match save {
            UpstreamSave::Saved { writes, message } => {
                &&& trim(form.base_url@).len() > 0
                &&& normalized(form.base_url@) is Ok
                &&& write_views(writes@) == save_writes(
                    first_of(upstream_views(rows@)),
                    normalized(form.base_url@)->Ok_0,
                    now@,
                )
                &&& message@ == "上游 Base URL 已保存"@
            },
            UpstreamSave::Refused { error } => if trim(form.base_url@).len() == 0 {
                error@ == "上游 Base URL 必填"@
            } else {
                &&& normalized(form.base_url@) is Err
                &&& error@ == "上游 Base URL 无效："@ + normalized(form.base_url@)->Err_0
            },
        },
{
    let chars = chars_of(form.base_url.as_str());
    if trim_chars(chars.as_slice()).len() == 0 {
        return UpstreamSave::Refused { error: "上游 Base URL 必填".to_string() };
    }
    match save_single_base_url(rows, form.base_url.as_str(), now) {
        Ok(writes) => UpstreamSave::Saved { writes, message: "上游 Base URL 已保存".to_string() },
        Err(UpstreamError::InvalidBaseUrl(reason)) => {
            let mut error = "上游 Base URL 无效：".to_string();
            error.append(reason.as_str());
            UpstreamSave::Refused { error }
        },
    }
}

/// An upstream with nothing in it.
pub fn empty_upstream_view() -> (view: UpstreamView)
    ensures
        shows_no_upstream(view),
{
    UpstreamView {
        id: 0,
        name: String::new(),
        base_url: String::new(),
        created_at: String::new(),
    }
}

/// Whether `view` shows `upstream`.
pub open spec fn shows_upstream(view: UpstreamView, upstream: UpstreamModel) -> bool {
    &&& view.id == upstream.id
    &&& view.name@ == upstream.name
    &&& view.base_url@ == upstream.base_url
    &&& view.created_at@ == upstream.created_at
}

/// Whether `view` shows that there is no upstream.
pub open spec fn shows_no_upstream(view: UpstreamView) -> bool {
    &&& view.id == 0
    &&& view.name@ == Seq::<char>::empty()
    &&& view.base_url@ == Seq::<char>::empty()
    &&& view.created_at@ == Seq::<char>::empty()
}

/// What the upstream page shows of the rows there are: the configured upstream,
/// or an empty one, and whether there is one.
pub fn shown_upstream(rows: &[Upstream]) -> (shown: (UpstreamView, bool))
    ensures
        match first_of(upstream_views(rows@)) {
            Some(upstream) => shown.1 && shows_upstream(shown.0, upstream),
            None => !shown.1 && shows_no_upstream(shown.0),
        },
{
    match get_configured(rows) {
        Some(upstream) => (UpstreamView::from(copy_upstream(upstream)), true),
        None => (empty_upstream_view(), false),
    }
}

// ---------------------------------------------------------------------------
// The address that clients use
// ---------------------------------------------------------------------------

/// The first of the values, separated by commas, in the first line under `name`.
pub open spec fn first_value(lines: Seq<Line>, name: Seq<char>) -> Option<Seq<char>> {
    match first_text(lines, name) {
        Some(text) => {
            let value = trim(split_on(text, ',')[0]);
            if value.len() > 0 {
                Some(value)
            } else {
                None
            }
        },
        None => None,
    }
}

/// The characters that a host with a port may be written with.
pub open spec fn is_authority_char(c: char) -> bool {
    ||| 'a' <= c <= 'z'
    ||| 'A' <= c <= 'Z'
    ||| '0' <= c <= '9'
    ||| c == '.'
    ||| c == '-'
    ||| c == ':'
    ||| c == '['
    ||| c == ']'
}

/// Whether `value` can be a host with a port.
pub open spec fn valid_authority(value: Seq<char>) -> bool {
    forall|i: int| 0 <= i < value.len() ==> is_authority_char(#[trigger] value[i])
}

/// The scheme that clients use.
pub open spec fn shown_scheme(lines: Seq<Line>) -> Seq<char> {
    match first_value(lines, "x-forwarded-proto"@) {
        Some(value) if value == "http"@ || value == "https"@ => value,
        _ => "http"@,
    }
}

/// The host that clients use: what a proxy in front forwards, or else what was
/// asked for, or a default where that is no host.
pub open spec fn shown_host(lines: Seq<Line>) -> Seq<char> {
    let host = match first_value(lines, "x-forwarded-host"@) {
        Some(value) => Some(value),
        None => first_value(lines, "host"@),
    };
    match host {
        Some(value) if valid_authority(value) => value,
        _ => "127.0.0.1:57999"@,
    }
}

/// The address that is shown is always a web address on a plain host: no header
/// can put a path, a user or anything else into it.
pub proof fn lemma_shown_address_is_plain(lines: Seq<Line>)
    ensures
        shown_scheme(lines) == "http"@ || shown_scheme(lines) == "https"@,
        valid_authority(shown_host(lines)),
{
    reveal_strlit("127.0.0.1:57999");
}

/// The scheme is what a proxy in front forwards if that is `http` or `https`, and
/// `http` otherwise.
pub proof fn lemma_which_scheme_is_shown(lines: Seq<Line>, value: Seq<char>)
    ensures
        first_value(lines, "x-forwarded-proto"@) == Some(value) && (value == "http"@ || value
            == "https"@) ==> shown_scheme(lines) == value,
        first_value(lines, "x-forwarded-proto"@) == Some(value) && value != "http"@ && value
            != "https"@ ==> shown_scheme(lines) == "http"@,
        first_value(lines, "x-forwarded-proto"@) is None ==> shown_scheme(lines) == "http"@,
{
}

/// The host is what a proxy in front forwards, or else what was asked for; what is
/// no host, or is missing, is replaced by the address of this machine.
pub proof fn lemma_which_host_is_shown(lines: Seq<Line>, value: Seq<char>)
    ensures
        ({
            let plain = forall|i: int|
                0 <= i < value.len() ==> {
                    let c = #[trigger] value[i];
                    'a' <= c <= 'z' || 'A' <= c <= 'Z' || '0' <= c <= '9' || c == '.' || c == '-'
                        || c == ':' || c == '[' || c == ']'
                };
            let forwarded = first_value(lines, "x-forwarded-host"@);
            let asked = first_value(lines, "host"@);
            &&& forwarded == Some(value) && plain ==> shown_host(lines) == value
            &&& forwarded is None && asked == Some(value) && plain ==> shown_host(lines) == value
            &&& (forwarded == Some(value) || forwarded is None && asked == Some(value)) && !plain
                ==> shown_host(lines) == "127.0.0.1:57999"@
            &&& forwarded is None && asked is None ==> shown_host(lines) == "127.0.0.1:57999"@
        }),
{
    if forall|i: int| 0 <= i < value.len() ==> is_authority_char(#[trigger] value[i]) {
        assert(valid_authority(value));
    } else {
        let i = choose|i: int| 0 <= i < value.len() && !is_authority_char(#[trigger] value[i]);
        assert(!is_authority_char(value[i]));
        assert(!valid_authority(value));
    }
}

/// Of several values in a line the first counts, white space around it left aside;
/// an empty one is none.
pub proof fn lemma_the_first_value_counts(lines: Seq<Line>, name: Seq<char>)
    ensures
        ({
            let values = values_named(lines, name);
            let text = visible_text(values[0]);
            let first = trim(split_on(text->0, ',')[0]);
            &&& values.len() > 0 && text is Some && first.len() > 0 ==> first_value(lines, name)
                == Some(first)
            &&& values.len() == 0 || text is None || first.len() == 0 ==> first_value(lines, name)
                is None
        }),
{
}

/// The upstream page shows the upstream there is, field by field, or an empty one.
pub proof fn lemma_a_page_shows_the_upstream(view: UpstreamView, upstream: UpstreamModel)
    ensures
        shows_upstream(view, upstream) <==> view.id == upstream.id && view.name@ == upstream.name
            && view.base_url@ == upstream.base_url && view.created_at@ == upstream.created_at,
        shows_no_upstream(view) <==> view.id == 0 && view.name@.len() == 0 && view.base_url@.len()
            == 0 && view.created_at@.len() == 0,
{
    if view.name@.len() == 0 && view.base_url@.len() == 0 && view.created_at@.len() == 0 {
        assert(view.name@ =~= Seq::<char>::empty());
        assert(view.base_url@ =~= Seq::<char>::empty());
        assert(view.created_at@ =~= Seq::<char>::empty());
    }
}

proof fn lemma_header_names()
    ensures
        lower("x-forwarded-proto"@) == "x-forwarded-proto"@,
        lower("x-forwarded-host"@) == "x-forwarded-host"@,
        lower("host"@) == "host"@,
        plain_name("x-forwarded-proto"@),
        plain_name("x-forwarded-host"@),
        plain_name("host"@),
{
    reveal_strlit("x-forwarded-proto");
    reveal_strlit("x-forwarded-host");
    reveal_strlit("host");
    assert(lower("x-forwarded-proto"@) =~= "x-forwarded-proto"@);
    assert(lower("x-forwarded-host"@) =~= "x-forwarded-host"@);
    assert(lower("host"@) =~= "host"@);
}

/// The first of the values, separated by commas, in the first line under `name`.
/// There is none under what cannot be a name. Of such a text with more than 64
/// bytes nothing is said.
pub fn first_header_value(headers: &HeaderMap, name: &str) -> (value: Option<String>)
    ensures
        plain_name(name@) ==> opt_text(value) == first_value(
            header_lines(*headers),
            lower(name@),
        ),
        !plain_name(name@) && short_name(name@) ==> value is None,
{
    match header_text(headers, name) {
        Some(text) => {
            let chars = chars_of(text.as_str());
            let parts = split_chars(chars.as_slice(), ',');
            proof {
                lemma_split_nonempty(chars@, ',');
                assert(pieces(parts@).len() == parts@.len());
                assert(pieces(parts@)[0] == parts@[0]@);
            }
            let value = trim_chars(parts[0].as_slice());
            if value.len() > 0 {
                Some(text_of(value))
            } else {
                None
            }
        },
        None => None,
    }
}

/// Whether `value` can be a host with a port.
pub fn is_valid_authority(value: &str) -> (valid: bool)
    ensures
        valid == valid_authority(value@),
{
    let chars = chars_of(value);
    let mut i: usize = 0;
    while i < chars.len()
        invariant
            i <= chars@.len(),
            chars@ == value@,
            forall|k: int| 0 <= k < i ==> is_authority_char(#[trigger] value@[k]),
        decreases chars@.len() - i,
    {
        let c = chars[i];
        let allowed = ('a' <= c && c <= 'z') || ('A' <= c && c <= 'Z') || ('0' <= c && c <= '9')
            || c == '.' || c == '-' || c == ':' || c == '[' || c == ']';
        if !allowed {
            assert(!is_authority_char(value@[i as int]));
            return false;
        }
        i += 1;
    }
    true
}

/// The address that clients use, as far as the headers of a request tell.
pub fn api_base_url(headers: &HeaderMap) -> (url: String)
    ensures
        url@ == shown_scheme(header_lines(*headers)) + "://"@ + shown_host(
            header_lines(*headers),
        ),
{
    proof {
        lemma_header_names();
    }
    let mut url = match first_header_value(headers, "x-forwarded-proto") {
        Some(value) => if same_text(value.as_str(), "http") || same_text(value.as_str(), "https") {
            value
        } else {
            "http".to_string()
        },
        None => "http".to_string(),
    };
    let asked = match first_header_value(headers, "x-forwarded-host") {
        Some(value) => Some(value),
        None => first_header_value(headers, "host"),
    };
    let host = match asked {
        Some(value) => if is_valid_authority(value.as_str()) {
            value
        } else {
            "127.0.0.1:57999".to_string()
        },
        None => "127.0.0.1:57999".to_string(),
    };
    url.append("://");
    url.append(host.as_str());
    url
}

}
