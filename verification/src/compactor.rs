//! Context compaction logic for agent sessions.
//!
//! Provides strategies to reduce context bloat by removing duplicate tool
//! outputs, collapsing repeated continuation turns, and archiving old turns.

use vstd::arithmetic::overflow::CheckedUsize;
use vstd::prelude::*;

pub use crate::archive::ArchiveOldTurns;
pub use crate::collapse::CollapseContinuations;
pub use crate::dedup::DeduplicateToolOutputs;
pub use crate::model::{Session, SessionId, ToolCall, Turn, TurnId};
pub use crate::parse::{parse_session_text, parse_turns, session_documents, SessionText};
pub use crate::strategy::{
    CompactionError, CompactionMetrics, CompactionResult, CompactionStrategy,
};
pub use crate::time::{archive_cutoff, Timestamp};

use crate::archive::{
    archive_session, archived_turns, candidates, lemma_filter_weight, live_turns,
};
use crate::collapse::{collapse_session, collapse_turns, repeated_turns, MARKER_BYTES};
use crate::dedup::{calls_of, dedup_session, dedup_turns, duplicate_bytes, duplicates};
use crate::model::{turns_weight, SessionView, TurnView};
use crate::time::{cutoff_of, utc_now};

verus! {

/// The turns before archiving: without duplicates, then without repetitions.
pub open spec fn reduced_turns(turns: Seq<TurnView>) -> Seq<TurnView> {
    collapse_turns(dedup_turns(turns))
}

/// The turns after a compaction.
pub open spec fn compacted_turns(turns: Seq<TurnView>, max_turns: usize, cutoff: Timestamp) -> Seq<
    TurnView,
> {
    live_turns(reduced_turns(turns), max_turns, cutoff)
}

/// The bytes that a compaction saves before it archives.
pub open spec fn reduced_bytes(turns: Seq<TurnView>) -> nat {
    duplicate_bytes(calls_of(turns)) + (MARKER_BYTES as nat) * repeated_turns(dedup_turns(
        turns,
    ))
}

/// The bytes that a compaction saves.
pub open spec fn saved_bytes(turns: Seq<TurnView>, max_turns: usize, cutoff: Timestamp) -> nat {
    reduced_bytes(turns) + turns_weight(archived_turns(reduced_turns(turns), max_turns, cutoff))
}

/// What a compaction reports.
pub open spec fn is_compaction_report(
    turns: Seq<TurnView>,
    max_turns: usize,
    cutoff: Timestamp,
    metrics: CompactionMetrics,
) -> bool {
    &&& metrics.duplicates_removed == duplicates(calls_of(turns))
    &&& metrics.continuation_turns_collapsed == repeated_turns(dedup_turns(turns))
    &&& metrics.turns_archived == archived_turns(reduced_turns(turns), max_turns, cutoff).len()
    &&& metrics.token_bytes_saved == saved_bytes(turns, max_turns, cutoff)
    &&& metrics.turns_remaining == compacted_turns(turns, max_turns, cutoff).len()
}

/// The session after a compaction that ended at `done_at`.
pub open spec fn compacted_session(
    session: SessionView,
    max_turns: usize,
    cutoff: Timestamp,
    done_at: Timestamp,
) -> SessionView {
    SessionView {
        turns: compacted_turns(session.turns, max_turns, cutoff),
        last_compacted_at: Some(done_at),
        ..session
    }
}

/// The numbers of a compaction with this cutoff fit.
pub open spec fn compaction_fits_at(
    turns: Seq<TurnView>,
    max_turns: usize,
    cutoff: Timestamp,
) -> bool {
    &&& duplicates(calls_of(turns)) <= usize::MAX
    &&& saved_bytes(turns, max_turns, cutoff) <= usize::MAX
}

/// The numbers of a compaction fit wherever the cutoff lies.
pub open spec fn compaction_fits(turns: Seq<TurnView>, max_turns: usize) -> bool {
    &&& duplicates(calls_of(turns)) <= usize::MAX
    &&& reduced_bytes(turns) + turns_weight(candidates(reduced_turns(turns), max_turns))
        <= usize::MAX
}

/// A compaction that fits wherever the cutoff lies fits at each.
pub proof fn lemma_fits_at(turns: Seq<TurnView>, max_turns: usize, cutoff: Timestamp)
    requires
        compaction_fits(turns, max_turns),
    ensures
        compaction_fits_at(turns, max_turns, cutoff),
{
    lemma_filter_weight(
        candidates(reduced_turns(turns), max_turns),
        |t: TurnView| t.created_at.is_before(cutoff),
    );
}

/// Runs the full set of compaction strategies in order, with the given cutoff
/// for archiving. The session is marked as compacted at `done_at`, and the
/// result at `compacted_at`. There is no result where its numbers do not fit.
pub fn checked_compact_session_at(
    session: &mut Session,
    max_turns: usize,
    cutoff: Timestamp,
    done_at: Timestamp,
    compacted_at: Timestamp,
) -> (outcome: Option<CompactionResult>)
    ensures
        final(session)@ == compacted_session(old(session)@, max_turns, cutoff, done_at),
        outcome is Some <==> compaction_fits_at(old(session)@.turns, max_turns, cutoff),
        outcome matches Some(result) ==> {
            &&& result.session_id@ == old(session)@.id
            &&& is_compaction_report(old(session)@.turns, max_turns, cutoff, result.metrics)
            &&& result.compacted_at == compacted_at
        },
{
    let (removed, removed_bytes) = dedup_session(session);
    let collapsed = collapse_session(session);
    let (archived, archived_bytes) = archive_session(session, max_turns, cutoff);
    session.last_compacted_at = Some(done_at);
    let collapsed_bytes = CheckedUsize::new(collapsed).mul_value(MARKER_BYTES);
    let saved = removed_bytes.add_checked(&collapsed_bytes).add_checked(&archived_bytes);
    if removed.is_overflowed() || saved.is_overflowed() {
        return None;
    }
    Some(
        CompactionResult {
            session_id: session.id.clone(),
            metrics: CompactionMetrics {
                duplicates_removed: removed.unwrap(),
                continuation_turns_collapsed: collapsed,
                turns_archived: archived,
                token_bytes_saved: saved.unwrap(),
                turns_remaining: session.len(),
            },
            compacted_at,
        },
    )
}

/// Runs the full set of compaction strategies in order, with the given cutoff
/// for archiving. The session is marked as compacted at `done_at`, and the
/// result at `compacted_at`.
pub fn compact_session_at(
    session: &mut Session,
    max_turns: usize,
    cutoff: Timestamp,
    done_at: Timestamp,
    compacted_at: Timestamp,
) -> (result: CompactionResult)
    requires
        compaction_fits_at(old(session)@.turns, max_turns, cutoff),
    ensures
        final(session)@ == compacted_session(old(session)@, max_turns, cutoff, done_at),
        result.session_id@ == old(session)@.id,
        is_compaction_report(old(session)@.turns, max_turns, cutoff, result.metrics),
        result.compacted_at == compacted_at,
{
    checked_compact_session_at(session, max_turns, cutoff, done_at, compacted_at).unwrap()
}

/// A session was compacted with the clock at hand: turns older than
/// `archive_age_hours` may have been archived, and the session and the result
/// bear the moments at which they were done.
pub open spec fn is_compacted_now(
    before: SessionView,
    after: SessionView,
    max_turns: usize,
    archive_age_hours: u64,
    result: CompactionResult,
) -> bool {
    &&& result.session_id@ == before.id
    &&& result.compacted_at.is_clock_reading()
    &&& exists|now: Timestamp, done_at: Timestamp|
        {
            let cutoff = cutoff_of(now, archive_age_hours);
            &&& now.is_clock_reading()
            &&& done_at.is_clock_reading()
            &&& after == #[trigger] compacted_session(
                before,
                max_turns,
                cutoff_of(now, archive_age_hours),
                done_at,
            )
            &&& is_compaction_report(before.turns, max_turns, cutoff, result.metrics)
        }
}

/// Run the full set of compaction strategies in order.
///
/// Order matters: deduplication and collapsing are performed before archiving
/// so that archive decisions are made on the already-reduced context.
///
/// # Errors
///
/// Returns an error if any strategy fails, which none of them does.
pub fn compact_session(session: &mut Session, max_turns: usize, archive_age_hours: u64) -> (outcome:
    Result<CompactionResult, CompactionError>)
    requires
        compaction_fits(old(session)@.turns, max_turns),
    ensures
        outcome matches Ok(result) && is_compacted_now(
            old(session)@,
            final(session)@,
            max_turns,
            archive_age_hours,
            result,
        ),
{
    let now = utc_now();
    let cutoff = archive_cutoff(now, archive_age_hours);
    let done_at = utc_now();
    proof {
        lemma_fits_at(session@.turns, max_turns, cutoff);
    }
    let result = compact_session_at(session, max_turns, cutoff, done_at, utc_now());
    assert(session@ == compacted_session(
        old(session)@,
        max_turns,
        cutoff_of(now, archive_age_hours),
        done_at,
    ));
    Ok(result)
}

} // verus!
