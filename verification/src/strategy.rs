//! What every compaction strategy takes and reports.

use vstd::prelude::*;
use vstd::string::*;

use crate::model::{Session, SessionId, SessionView};
use crate::time::Timestamp;

verus! {

broadcast use vstd::string::group_string_axioms;

/// Metrics describing the savings achieved by a compaction run.
#[derive(Debug, Clone, Copy, PartialEq, Eq, Structural)]
pub struct CompactionMetrics {
    /// Number of duplicate tool outputs removed.
    pub duplicates_removed: usize,
    /// Number of continuation turns collapsed.
    pub continuation_turns_collapsed: usize,
    /// Number of old turns archived.
    pub turns_archived: usize,
    /// Estimated token bytes removed.
    pub token_bytes_saved: usize,
    /// Turns remaining after compaction.
    pub turns_remaining: usize,
}

/// The metrics of no work at all.
pub open spec fn no_metrics() -> CompactionMetrics {
    CompactionMetrics {
        duplicates_removed: 0,
        continuation_turns_collapsed: 0,
        turns_archived: 0,
        token_bytes_saved: 0,
        turns_remaining: 0,
    }
}

impl Default for CompactionMetrics {
    fn default() -> (metrics: CompactionMetrics)
        ensures
            metrics == no_metrics(),
    {
        CompactionMetrics {
            duplicates_removed: 0,
            continuation_turns_collapsed: 0,
            turns_archived: 0,
            token_bytes_saved: 0,
            turns_remaining: 0,
        }
    }
}

/// Result returned by a compaction pass.
#[derive(Debug, Clone, PartialEq)]
pub struct CompactionResult {
    /// Identifier of the session that was compacted.
    pub session_id: SessionId,
    /// Metrics for the compaction run.
    pub metrics: CompactionMetrics,
    /// Timestamp of the compaction run.
    pub compacted_at: Timestamp,
}

/// Errors that may occur during compaction.
#[derive(Debug, Clone, PartialEq)]
pub enum CompactionError {
    /// A requested session was not found in the store.
    SessionNotFound(SessionId),
    /// An I/O or storage operation failed.
    Storage(String),
}

impl CompactionError {
    /// The error in words.
    pub fn message(&self) -> (text: String)
        ensures
            text@ == match *self {
                CompactionError::SessionNotFound(id) => "session not found: "@ + id@,
                CompactionError::Storage(cause) => "storage error: "@ + cause@,
            },
    {
        match self {
            CompactionError::SessionNotFound(id) => "session not found: ".to_owned().concat(
                id.as_str(),
            ),
            CompactionError::Storage(cause) => "storage error: ".to_owned().concat(cause.as_str()),
        }
    }
}

/// A strategy that compacts a session in place and returns metrics.
pub trait CompactionStrategy {
    /// The sessions that the strategy can compact: those whose metrics fit the
    /// numbers that report them, and for which the strategy is set sensibly.
    spec fn applies_to(&self, session: SessionView) -> bool;

    /// The strategy makes `after` out of `before` and reports `metrics`.
    spec fn compacts(
        &self,
        before: SessionView,
        after: SessionView,
        metrics: CompactionMetrics,
    ) -> bool;

    /// Run the strategy against the provided session.
    ///
    /// # Errors
    ///
    /// Returns an error if the strategy requires storage access and fails.
    fn compact(&self, session: &mut Session) -> (outcome: Result<
        CompactionMetrics,
        CompactionError,
    >)
        requires
            self.applies_to(old(session)@),
        ensures
            outcome matches Ok(metrics) ==> self.compacts(old(session)@, final(session)@, metrics),
    ;
}

} // verus!
