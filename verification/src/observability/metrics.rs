//! The counters that the proxy publishes.

use vstd::prelude::*;

use crate::storage::records::{
    count_attempt_timeout_reason, count_by_status, lemma_attempts_count_by_reason,
    lemma_counts_are_bounded, lemma_requests_count_by_status, stats_of, total_requests,
    traffic_stats, with_reason, with_status, AttemptRecord, RequestRecord,
};

verus! {

/// The counters of one moment.
#[derive(Clone, Copy, Debug, PartialEq, Eq, Structural)]
pub struct MetricsSnapshot {
    pub requests_total: i64,
    pub requests_success: i64,
    pub requests_retried_success: i64,
    pub requests_exhausted_timeout: i64,
    pub first_token_min_ms: Option<i64>,
    pub first_token_max_ms: Option<i64>,
    pub response_min_ms: Option<i64>,
    pub response_max_ms: Option<i64>,
    pub timeout_filtered_attempts: i64,
    pub attempts_response_header_timeout: i64,
    pub attempts_first_token_timeout: i64,
}

/// The counters that the records add up to.
pub open spec fn snapshot_of(
    requests: Seq<RequestRecord>,
    attempts: Seq<AttemptRecord>,
) -> MetricsSnapshot {
    let stats = stats_of(requests, attempts);
    MetricsSnapshot {
        requests_total: requests.len() as i64,
        requests_success: with_status(requests, "success"@) as i64,
        requests_retried_success: with_status(requests, "retried_success"@) as i64,
        requests_exhausted_timeout: with_status(requests, "exhausted_timeout"@) as i64,
        first_token_min_ms: stats.first_token_min_ms,
        first_token_max_ms: stats.first_token_max_ms,
        response_min_ms: stats.response_min_ms,
        response_max_ms: stats.response_max_ms,
        timeout_filtered_attempts: stats.timeout_filtered_attempts,
        attempts_response_header_timeout: stats.response_header_timeout_attempts,
        attempts_first_token_timeout: stats.first_token_timeout_attempts,
    }
}

/// One more request adds one to the total and one to the counter of its status, if
/// there is such a counter, and changes no counter of attempts.
pub proof fn lemma_one_more_request_is_counted(
    requests: Seq<RequestRecord>,
    attempts: Seq<AttemptRecord>,
    request: RequestRecord,
)
    requires
        requests.len() < i64::MAX,
        attempts.len() <= i64::MAX,
    ensures
        ({
            let before = snapshot_of(requests, attempts);
            let after = snapshot_of(requests.push(request), attempts);
            let one = |counts: bool|
                if counts {
                    1int
                } else {
                    0int
                };
            &&& after.requests_total == before.requests_total + 1
            &&& after.requests_success == before.requests_success + one(
                request.status@ == "success"@,
            )
            &&& after.requests_retried_success == before.requests_retried_success + one(
                request.status@ == "retried_success"@,
            )
            &&& after.requests_exhausted_timeout == before.requests_exhausted_timeout + one(
                request.status@ == "exhausted_timeout"@,
            )
            &&& after.timeout_filtered_attempts == before.timeout_filtered_attempts
            &&& after.attempts_response_header_timeout == before.attempts_response_header_timeout
            &&& after.attempts_first_token_timeout == before.attempts_first_token_timeout
            &&& after.first_token_min_ms == before.first_token_min_ms
            &&& after.first_token_max_ms == before.first_token_max_ms
        }),
{
    let more = requests.push(request);
    let none = Seq::<char>::empty();
    lemma_requests_count_by_status(requests, request, "success"@);
    lemma_requests_count_by_status(requests, request, "retried_success"@);
    lemma_requests_count_by_status(requests, request, "exhausted_timeout"@);
    lemma_counts_are_bounded(more, attempts, "success"@, none);
    lemma_counts_are_bounded(more, attempts, "retried_success"@, none);
    lemma_counts_are_bounded(more, attempts, "exhausted_timeout"@, none);
    lemma_counts_are_bounded(requests, attempts, "success"@, none);
    lemma_counts_are_bounded(requests, attempts, "retried_success"@, none);
    lemma_counts_are_bounded(requests, attempts, "exhausted_timeout"@, none);
}

/// One more attempt adds one to the abandoned ones if it was abandoned, and one to
/// the counter of its reason, and changes no counter of requests.
pub proof fn lemma_one_more_attempt_is_counted(
    requests: Seq<RequestRecord>,
    attempts: Seq<AttemptRecord>,
    attempt: AttemptRecord,
)
    requires
        requests.len() <= i64::MAX,
        attempts.len() < i64::MAX,
    ensures
        ({
            let before = snapshot_of(requests, attempts);
            let after = snapshot_of(requests, attempts.push(attempt));
            let one = |reason: Seq<char>|
                if (attempt.timeout_reason matches Some(text) && text@ == reason) {
                    1int
                } else {
                    0int
                };
            &&& after.timeout_filtered_attempts == before.timeout_filtered_attempts
                + if attempt.timeout_reason is Some {
                1int
            } else {
                0int
            }
            &&& after.attempts_response_header_timeout == before.attempts_response_header_timeout
                + one("response_header_timeout"@)
            &&& after.attempts_first_token_timeout == before.attempts_first_token_timeout + one(
                "first_token_timeout"@,
            )
            &&& after.requests_total == before.requests_total
            &&& after.requests_success == before.requests_success
            &&& after.requests_retried_success == before.requests_retried_success
            &&& after.requests_exhausted_timeout == before.requests_exhausted_timeout
            &&& after.response_min_ms == before.response_min_ms
            &&& after.response_max_ms == before.response_max_ms
        }),
{
    let more = attempts.push(attempt);
    let none = Seq::<char>::empty();
    lemma_attempts_count_by_reason(attempts, attempt, "response_header_timeout"@);
    lemma_attempts_count_by_reason(attempts, attempt, "first_token_timeout"@);
    lemma_counts_are_bounded(requests, more, none, "response_header_timeout"@);
    lemma_counts_are_bounded(requests, more, none, "first_token_timeout"@);
    lemma_counts_are_bounded(requests, attempts, none, "response_header_timeout"@);
    lemma_counts_are_bounded(requests, attempts, none, "first_token_timeout"@);
}

/// Without records every counter is zero and there are no times.
pub proof fn lemma_nothing_is_counted_at_first()
    ensures
        ({
            let first = snapshot_of(Seq::empty(), Seq::empty());
            &&& first.requests_total == 0 && first.requests_success == 0
            &&& first.requests_retried_success == 0 && first.requests_exhausted_timeout == 0
            &&& first.timeout_filtered_attempts == 0
            &&& first.attempts_response_header_timeout == 0
            &&& first.attempts_first_token_timeout == 0
            &&& first.first_token_min_ms is None && first.first_token_max_ms is None
            &&& first.response_min_ms is None && first.response_max_ms is None
        }),
{
}

/// The counters that the records add up to.
pub fn metrics(requests: &[RequestRecord], attempts: &[AttemptRecord]) -> (snapshot: MetricsSnapshot)
    requires
        requests@.len() <= i64::MAX,
        attempts@.len() <= i64::MAX,
    ensures
        snapshot == snapshot_of(requests@, attempts@),
        snapshot.requests_total == requests@.len(),
        snapshot.requests_success == with_status(requests@, "success"@),
        snapshot.requests_retried_success == with_status(requests@, "retried_success"@),
        snapshot.requests_exhausted_timeout == with_status(requests@, "exhausted_timeout"@),
        snapshot.first_token_min_ms == stats_of(requests@, attempts@).first_token_min_ms,
        snapshot.first_token_max_ms == stats_of(requests@, attempts@).first_token_max_ms,
        snapshot.response_min_ms == stats_of(requests@, attempts@).response_min_ms,
        snapshot.response_max_ms == stats_of(requests@, attempts@).response_max_ms,
        snapshot.timeout_filtered_attempts == stats_of(
            requests@,
            attempts@,
        ).timeout_filtered_attempts,
        snapshot.attempts_response_header_timeout == with_reason(
            attempts@,
            "response_header_timeout"@,
        ),
        snapshot.attempts_first_token_timeout == with_reason(attempts@, "first_token_timeout"@),
{
    proof {
        lemma_counts_are_bounded(
            requests@,
            attempts@,
            "success"@,
            "response_header_timeout"@,
        );
        lemma_counts_are_bounded(
            requests@,
            attempts@,
            "retried_success"@,
            "first_token_timeout"@,
        );
    }
    let stats = traffic_stats(requests, attempts);
    MetricsSnapshot {
        requests_total: total_requests(requests),
        requests_success: count_by_status(requests, "success"),
        requests_retried_success: count_by_status(requests, "retried_success"),
        requests_exhausted_timeout: count_by_status(requests, "exhausted_timeout"),
        first_token_min_ms: stats.first_token_min_ms,
        first_token_max_ms: stats.first_token_max_ms,
        response_min_ms: stats.response_min_ms,
        response_max_ms: stats.response_max_ms,
        timeout_filtered_attempts: stats.timeout_filtered_attempts,
        attempts_response_header_timeout: count_attempt_timeout_reason(
            attempts,
            "response_header_timeout",
        ),
        attempts_first_token_timeout: count_attempt_timeout_reason(
            attempts,
            "first_token_timeout",
        ),
    }
}

}
