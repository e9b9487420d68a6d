//! What the REST API and the command line answer.

use vstd::arithmetic::overflow::CheckedUsize;
use vstd::prelude::*;
use vstd::string::*;

use crate::config::Config;
use crate::paths::{path_text, shown_path};
use crate::scanner::{result_views, ResultView};
use crate::strategy::{no_metrics, CompactionMetrics, CompactionResult};
use crate::text::{decimal, push_decimal};

verus! {

broadcast use vstd::string::group_string_axioms;

/// Simple health response.
#[derive(Debug, Clone, PartialEq)]
pub struct HealthResponse {
    pub status: String,
}

/// Daemon status response.
#[derive(Debug, Clone, PartialEq)]
pub struct StatusResponse {
    pub daemon: String,
    pub port: u16,
    pub session_dir: String,
    pub sessions_tracked: usize,
    pub aggregate: CompactionMetrics,
}

/// Request body for `/compact` and `/watch`.
#[derive(Debug, Clone, PartialEq)]
pub struct SessionDirRequest {
    pub session_dir: String,
}

/// Response body for `/compact`.
#[derive(Debug, Clone, PartialEq)]
pub struct CompactResponse {
    pub compacted: usize,
    pub aggregate: CompactionMetrics,
}

/// Response body for `/watch`.
#[derive(Debug, Clone, PartialEq)]
pub struct WatchResponse {
    pub watching: String,
    pub compacted: usize,
    pub aggregate: CompactionMetrics,
}

/// API error type convertible to an HTTP response.
#[derive(Debug, Clone, PartialEq)]
pub enum ApiError {
    BadRequest(String),
    Storage(String),
}

impl ApiError {
    /// The error in words.
    pub fn message(&self) -> (text: String)
        ensures
            text@ == match *self {
                ApiError::BadRequest(cause) => "bad request: "@ + cause@,
                ApiError::Storage(cause) => "storage error: "@ + cause@,
            },
    {
        match self {
            ApiError::BadRequest(cause) => "bad request: ".to_owned().concat(cause.as_str()),
            ApiError::Storage(cause) => "storage error: ".to_owned().concat(cause.as_str()),
        }
    }

    /// The HTTP status of the answer.
    pub fn status_code(&self) -> (code: u16)
        ensures
            code == match *self {
                ApiError::BadRequest(_) => 400u16,
                ApiError::Storage(_) => 500u16,
            },
    {
        match self {
            ApiError::BadRequest(_) => 400,
            ApiError::Storage(_) => 500,
        }
    }
}

// Sums

/// The sum of a count over several results.
pub open spec fn total(results: Seq<ResultView>, count: spec_fn(ResultView) -> nat) -> nat
    decreases results.len(),
{
    if results.len() == 0 {
        0
    } else {
        total(results.drop_last(), count) + count(results.last())
    }
}

/// The duplicates removed over several results.
pub open spec fn duplicates_in(results: Seq<ResultView>) -> nat {
    total(results, |r: ResultView| r.metrics.duplicates_removed as nat)
}

/// The continuation turns collapsed over several results.
pub open spec fn continuations_in(results: Seq<ResultView>) -> nat {
    total(results, |r: ResultView| r.metrics.continuation_turns_collapsed as nat)
}

/// The turns archived over several results.
pub open spec fn archived_in(results: Seq<ResultView>) -> nat {
    total(results, |r: ResultView| r.metrics.turns_archived as nat)
}

/// The bytes saved over several results.
pub open spec fn bytes_in(results: Seq<ResultView>) -> nat {
    total(results, |r: ResultView| r.metrics.token_bytes_saved as nat)
}

/// The turns remaining over several results.
pub open spec fn remaining_in(results: Seq<ResultView>) -> nat {
    total(results, |r: ResultView| r.metrics.turns_remaining as nat)
}

/// The sums over several results fit.
pub open spec fn sums_fit(results: Seq<ResultView>) -> bool {
    &&& duplicates_in(results) <= usize::MAX
    &&& continuations_in(results) <= usize::MAX
    &&& archived_in(results) <= usize::MAX
    &&& bytes_in(results) <= usize::MAX
}

/// Metrics that sum several results up. The turns that remain are not summed.
pub open spec fn is_sum(results: Seq<ResultView>, metrics: CompactionMetrics) -> bool {
    &&& metrics.duplicates_removed == duplicates_in(results)
    &&& metrics.continuation_turns_collapsed == continuations_in(results)
    &&& metrics.turns_archived == archived_in(results)
    &&& metrics.token_bytes_saved == bytes_in(results)
    &&& metrics.turns_remaining == 0
}

/// The sum of the metrics of several results, if it fits.
pub fn checked_sum_results(results: &[CompactionResult]) -> (sum: Option<CompactionMetrics>)
    ensures
        sum is Some <==> sums_fit(result_views(results@)),
        sum matches Some(metrics) ==> is_sum(result_views(results@), metrics),
{
    let mut duplicates = CheckedUsize::new(0);
    let mut continuations = CheckedUsize::new(0);
    let mut archived = CheckedUsize::new(0);
    let mut bytes = CheckedUsize::new(0);
    let ghost views = result_views(results@);
    let mut i: usize = 0;
    while i < results.len()
        invariant
            i <= results@.len(),
            views == result_views(results@),
            duplicates@ == duplicates_in(views.take(i as int)),
            continuations@ == continuations_in(views.take(i as int)),
            archived@ == archived_in(views.take(i as int)),
            bytes@ == bytes_in(views.take(i as int)),
        decreases results@.len() - i,
    {
        proof {
            assert(views.take(i + 1).drop_last() =~= views.take(i as int));
            assert(views.take(i + 1).last() == results@[i as int]@);
        }
        duplicates = duplicates.add_value(results[i].metrics.duplicates_removed);
        continuations = continuations.add_value(results[i].metrics.continuation_turns_collapsed);
        archived = archived.add_value(results[i].metrics.turns_archived);
        bytes = bytes.add_value(results[i].metrics.token_bytes_saved);
        i = i + 1;
    }
    assert(views.take(i as int) =~= views);
    if duplicates.is_overflowed() || continuations.is_overflowed() || archived.is_overflowed()
        || bytes.is_overflowed() {
        return None;
    }
    Some(
        CompactionMetrics {
            duplicates_removed: duplicates.unwrap(),
            continuation_turns_collapsed: continuations.unwrap(),
            turns_archived: archived.unwrap(),
            token_bytes_saved: bytes.unwrap(),
            turns_remaining: 0,
        },
    )
}

/// The sum of the metrics of several results.
pub fn sum_results(results: &[CompactionResult]) -> (sum: CompactionMetrics)
    requires
        sums_fit(result_views(results@)),
    ensures
        is_sum(result_views(results@), sum),
{
    checked_sum_results(results).unwrap()
}

// Answers

/// The answer to `/health`.
pub fn health_handler() -> (response: HealthResponse)
    ensures
        response.status@ == "ok"@,
{
    HealthResponse { status: "ok".to_owned() }
}

/// The answer to `/status`.
pub fn status_response(
    config: &Config,
    sessions_tracked: usize,
    aggregate: CompactionMetrics,
) -> (response: StatusResponse)
    ensures
        response.daemon@ == "compactd"@,
        response.port == config@.port,
        response.session_dir@ == path_text(config@.session_dir),
        response.sessions_tracked == sessions_tracked,
        response.aggregate == aggregate,
{
    StatusResponse {
        daemon: "compactd".to_owned(),
        port: config.port,
        session_dir: shown_path(&config.session_dir),
        sessions_tracked,
        aggregate,
    }
}

/// The answer to `/compact`, after a scan with these results.
pub fn compact_response(results: &[CompactionResult]) -> (response: CompactResponse)
    requires
        sums_fit(result_views(results@)),
    ensures
        response.compacted == results@.len(),
        is_sum(result_views(results@), response.aggregate),
{
    CompactResponse { compacted: results.len(), aggregate: sum_results(results) }
}

/// Whether a directory can be watched.
///
/// # Errors
///
/// Returns an error if there is no such directory.
pub fn check_watched_dir(request: &SessionDirRequest, exists: bool) -> (outcome: Result<
    (),
    ApiError,
>)
    ensures
        match outcome {
            Ok(_) => exists,
            Err(error) => !exists && (error matches ApiError::BadRequest(cause) && cause@
                == "session directory does not exist: "@ + request.session_dir@),
        },
{
    if exists {
        Ok(())
    } else {
        Err(
            ApiError::BadRequest(
                "session directory does not exist: ".to_owned().concat(
                    request.session_dir.as_str(),
                ),
            ),
        )
    }
}

/// The answer to `/watch`, after a scan with these results.
pub fn watch_response(request: &SessionDirRequest, results: &[CompactionResult]) -> (response:
    WatchResponse)
    requires
        sums_fit(result_views(results@)),
    ensures
        response.watching@ == request.session_dir@,
        response.compacted == results@.len(),
        is_sum(result_views(results@), response.aggregate),
{
    WatchResponse {
        watching: request.session_dir.clone(),
        compacted: results.len(),
        aggregate: sum_results(results),
    }
}

/// A metric in the text format of Prometheus: its type, and its value.
pub open spec fn metric_lines(name: Seq<char>, kind: Seq<char>, value: nat) -> Seq<char> {
    "# TYPE "@ + name + kind + "\n"@ + name + " "@ + decimal(value) + "\n"@
}

/// The answer to `/metrics`.
pub open spec fn metrics_page(metrics: CompactionMetrics) -> Seq<char> {
    metric_lines("compactd_duplicates_removed"@, " counter"@, metrics.duplicates_removed as nat)
        + metric_lines(
        "compactd_continuation_turns_collapsed"@,
        " counter"@,
        metrics.continuation_turns_collapsed as nat,
    ) + metric_lines("compactd_turns_archived"@, " counter"@, metrics.turns_archived as nat)
        + metric_lines("compactd_token_bytes_saved"@, " counter"@, metrics.token_bytes_saved as nat)
        + metric_lines("compactd_turns_remaining"@, " gauge"@, metrics.turns_remaining as nat)
}

fn push_metric(text: &mut String, name: &str, kind: &str, value: usize)
    ensures
        final(text)@ == old(text)@ + metric_lines(name@, kind@, value as nat),
{
    let ghost before = text@;
    text.append("# TYPE ");
    text.append(name);
    text.append(kind);
    text.append("\n");
    text.append(name);
    text.append(" ");
    push_decimal(text, value as u64);
    text.append("\n");
    assert(text@ =~= before + metric_lines(name@, kind@, value as nat));
}

/// The metrics in the text format of Prometheus.
pub fn metrics_text(metrics: &CompactionMetrics) -> (text: String)
    ensures
        text@ == metrics_page(*metrics),
{
    let mut text = String::new();
    push_metric(
        &mut text,
        "compactd_duplicates_removed",
        " counter",
        metrics.duplicates_removed,
    );
    push_metric(
        &mut text,
        "compactd_continuation_turns_collapsed",
        " counter",
        metrics.continuation_turns_collapsed,
    );
    push_metric(&mut text, "compactd_turns_archived", " counter", metrics.turns_archived);
    push_metric(&mut text, "compactd_token_bytes_saved", " counter", metrics.token_bytes_saved);
    push_metric(&mut text, "compactd_turns_remaining", " gauge", metrics.turns_remaining);
    assert(text@ =~= metrics_page(*metrics));
    text
}

/// What is printed after a one-shot compaction.
pub open spec fn report_page(compacted: nat, sum: CompactionMetrics) -> Seq<char> {
    "compacted "@ + decimal(compacted) + " session(s)\n"@ + "  duplicates removed:          "@
        + decimal(sum.duplicates_removed as nat) + "\n"@ + "  continuation turns collapsed: "@
        + decimal(sum.continuation_turns_collapsed as nat) + "\n"@
        + "  turns archived:              "@ + decimal(sum.turns_archived as nat) + "\n"@
        + "  token bytes saved:           "@ + decimal(sum.token_bytes_saved as nat) + "\n"@
}

/// The report on a one-shot compaction with these results.
pub fn report_text(results: &[CompactionResult]) -> (text: String)
    requires
        sums_fit(result_views(results@)),
    ensures
        exists|sum: CompactionMetrics| #[trigger]
            is_sum(result_views(results@), sum) && text@ == report_page(results@.len(), sum),
{
    let sum = sum_results(results);
    let mut text = "compacted ".to_owned();
    push_decimal(&mut text, results.len() as u64);
    text.append(" session(s)\n");
    text.append("  duplicates removed:          ");
    push_decimal(&mut text, sum.duplicates_removed as u64);
    text.append("\n");
    text.append("  continuation turns collapsed: ");
    push_decimal(&mut text, sum.continuation_turns_collapsed as u64);
    text.append("\n");
    text.append("  turns archived:              ");
    push_decimal(&mut text, sum.turns_archived as u64);
    text.append("\n");
    text.append("  token bytes saved:           ");
    push_decimal(&mut text, sum.token_bytes_saved as u64);
    text.append("\n");
    assert(text@ =~= report_page(results@.len(), sum));
    text
}

/// The address that the server listens on.
pub fn listen_address(config: &Config) -> (address: String)
    ensures
        address@ == config@.host + ":"@ + decimal(config@.port as nat),
{
    let mut address = config.host.clone();
    address.append(":");
    push_decimal(&mut address, config.port as u64);
    address
}

/// The scans that a watcher has to make: one for all changes since the last
/// time it looked.
#[derive(Debug, Clone, Copy)]
pub struct Debounce {
    /// Something has changed since the last time.
    pub changed: bool,
}

impl Debounce {
    /// Nothing has changed yet.
    pub fn new() -> (debounce: Debounce)
        ensures
            !debounce.changed,
    {
        Debounce { changed: false }
    }

    /// Notes a change.
    pub fn note(&mut self)
        ensures
            final(self).changed,
    {
        self.changed = true;
    }

    /// Whether anything has changed since the last time.
    pub fn take(&mut self) -> (changed: bool)
        ensures
            changed == old(self).changed,
            !final(self).changed,
    {
        let changed = self.changed;
        self.changed = false;
        changed
    }
}

// What holds of the sums

proof fn lemma_total_concat(
    first: Seq<ResultView>,
    second: Seq<ResultView>,
    count: spec_fn(ResultView) -> nat,
)
    ensures
        total(first + second, count) == total(first, count) + total(second, count),
    decreases second.len(),
{
    if second.len() == 0 {
        assert(first + second =~= first);
    } else {
        assert((first + second).drop_last() =~= first + second.drop_last());
        lemma_total_concat(first, second.drop_last(), count);
    }
}

/// The sum over two scans is the sum over the one and that over the other.
pub proof fn law_sum_of_scans(
    first: Seq<ResultView>,
    second: Seq<ResultView>,
    a: CompactionMetrics,
    b: CompactionMetrics,
    both: CompactionMetrics,
)
    requires
        is_sum(first, a),
        is_sum(second, b),
        is_sum(first + second, both),
    ensures
        both.duplicates_removed == a.duplicates_removed + b.duplicates_removed,
        both.continuation_turns_collapsed == a.continuation_turns_collapsed
            + b.continuation_turns_collapsed,
        both.turns_archived == a.turns_archived + b.turns_archived,
        both.token_bytes_saved == a.token_bytes_saved + b.token_bytes_saved,
{
    lemma_total_concat(first, second, |r: ResultView| r.metrics.duplicates_removed as nat);
    lemma_total_concat(
        first,
        second,
        |r: ResultView| r.metrics.continuation_turns_collapsed as nat,
    );
    lemma_total_concat(first, second, |r: ResultView| r.metrics.turns_archived as nat);
    lemma_total_concat(first, second, |r: ResultView| r.metrics.token_bytes_saved as nat);
}

/// A scan without results sums up to nothing.
pub proof fn law_sum_of_nothing(sum: CompactionMetrics)
    requires
        is_sum(Seq::empty(), sum),
    ensures
        sum == no_metrics(),
{
}

} // verus!
