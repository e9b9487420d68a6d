//! Archiving the turns that are old and not among the latest.

use vstd::arithmetic::overflow::CheckedUsize;
use vstd::prelude::*;

use crate::model::{turn_views, turns_weight, Session, SessionView, Turn, TurnView};
use crate::strategy::{no_metrics, CompactionError, CompactionMetrics, CompactionStrategy};
use crate::time::{archive_cutoff, cutoff_of, utc_now, Timestamp};

verus! {

/// How many of the first turns are no longer protected from archiving.
pub open spec fn candidate_count(len: nat, max_live: usize) -> int {
    if len > max_live {
        len - max_live
    } else {
        0
    }
}

/// The turns that are not among the latest `max_live`.
pub open spec fn candidates(turns: Seq<TurnView>, max_live: usize) -> Seq<TurnView> {
    turns.take(candidate_count(turns.len(), max_live))
}

/// The latest `max_live` turns, or all if there are fewer.
pub open spec fn protected(turns: Seq<TurnView>, max_live: usize) -> Seq<TurnView> {
    turns.skip(candidate_count(turns.len(), max_live))
}

/// The turns that are archived: those created before the cutoff, but for the
/// latest `max_live` turns.
pub open spec fn archived_turns(
    turns: Seq<TurnView>,
    max_live: usize,
    cutoff: Timestamp,
) -> Seq<TurnView> {
    candidates(turns, max_live).filter(|t: TurnView| t.created_at.is_before(cutoff))
}

/// The turns that stay: those not created before the cutoff, and the latest
/// `max_live` turns, in their order.
pub open spec fn live_turns(turns: Seq<TurnView>, max_live: usize, cutoff: Timestamp) -> Seq<
    TurnView,
> {
    candidates(turns, max_live).filter(|t: TurnView| !t.created_at.is_before(cutoff)) + protected(
        turns,
        max_live,
    )
}

/// What the archiving reports.
pub open spec fn is_archive_report(
    turns: Seq<TurnView>,
    max_live: usize,
    cutoff: Timestamp,
    metrics: CompactionMetrics,
) -> bool {
    &&& metrics.turns_archived == archived_turns(turns, max_live, cutoff).len()
    &&& metrics.token_bytes_saved == turns_weight(archived_turns(turns, max_live, cutoff))
    &&& metrics.turns_remaining == live_turns(turns, max_live, cutoff).len()
    &&& metrics == (CompactionMetrics {
        turns_archived: metrics.turns_archived,
        token_bytes_saved: metrics.token_bytes_saved,
        turns_remaining: metrics.turns_remaining,
        ..no_metrics()
    })
}

/// A filter of one more turn.
proof fn lemma_filter_step(turns: Seq<TurnView>, keep: spec_fn(TurnView) -> bool, i: int)
    requires
        0 <= i < turns.len(),
    ensures
        turns.take(i + 1).filter(keep) == if keep(turns[i]) {
            turns.take(i).filter(keep).push(turns[i])
        } else {
            turns.take(i).filter(keep)
        },
{
    reveal(Seq::filter);
    assert(turns.take(i + 1).drop_last() =~= turns.take(i));
    assert(turns.take(i + 1).last() == turns[i]);
}

/// A filter has at most the weight of the whole.
pub proof fn lemma_filter_weight(turns: Seq<TurnView>, keep: spec_fn(TurnView) -> bool)
    ensures
        turns_weight(turns.filter(keep)) <= turns_weight(turns),
    decreases turns.len(),
{
    reveal(Seq::filter);
    if turns.len() > 0 {
        lemma_filter_weight(turns.drop_last(), keep);
        let rest = turns.drop_last().filter(keep);
        if keep(turns.last()) {
            assert(rest.push(turns.last()).drop_last() =~= rest);
        }
    }
}

/// The filters by a condition and by its opposite share the turns out.
pub proof fn lemma_filter_split(turns: Seq<TurnView>, cutoff: Timestamp)
    ensures
        turns.filter(|t: TurnView| t.created_at.is_before(cutoff)).len() + turns.filter(
            |t: TurnView| !t.created_at.is_before(cutoff),
        ).len() == turns.len(),
    decreases turns.len(),
{
    reveal(Seq::filter);
    if turns.len() > 0 {
        lemma_filter_split(turns.drop_last(), cutoff);
    }
}

/// Archive turns that are older than an age threshold, keeping the most recent
/// `max_live` turns regardless of age.
#[derive(Debug, Clone, Copy)]
pub struct ArchiveOldTurns {
    /// Maximum live turns to retain.
    pub max_live: usize,
    /// Age threshold. Turns older than this are candidates for archiving.
    pub age_hours: u64,
}

impl ArchiveOldTurns {
    /// Create a new archiver.
    #[must_use]
    pub fn new(max_live: usize, age_hours: u64) -> (archiver: ArchiveOldTurns)
        ensures
            archiver.max_live == max_live,
            archiver.age_hours == age_hours,
    {
        ArchiveOldTurns { max_live, age_hours }
    }
}

/// Archives the turns that were created before the cutoff, but for the
/// latest `max_live`. Gives how many there were, and their bytes.
pub(crate) fn archive_session(session: &mut Session, max_live: usize, cutoff: Timestamp) -> (
numbers: (usize, CheckedUsize))
    ensures
        final(session)@ == (SessionView {
            turns: live_turns(old(session)@.turns, max_live, cutoff),
            ..old(session)@
        }),
        numbers.0 == archived_turns(old(session)@.turns, max_live, cutoff).len(),
        numbers.1@ == turns_weight(archived_turns(old(session)@.turns, max_live, cutoff)),
{
    let ghost turns = session@.turns;
    let mut pending: Vec<Turn> = Vec::new();
    std::mem::swap(&mut pending, &mut session.turns);
    let total: usize = pending.len();
    let count: usize = if total > max_live {
        total - max_live
    } else {
        0
    };
    let mut live: Vec<Turn> = Vec::with_capacity(total);
    let mut archived: usize = 0;
    let mut saved = CheckedUsize::new(0);
    let ghost source = pending@;
    let ghost is_old = |t: TurnView| t.created_at.is_before(cutoff);
    let ghost is_new = |t: TurnView| !t.created_at.is_before(cutoff);
    let ghost olds = turns.take(count as int);
    let mut seen: usize = 0;
    proof {
        reveal(Seq::filter);
        assert(turns =~= turn_views(source));
        assert(turns.take(0) =~= Seq::empty());
        assert(olds.take(0) =~= Seq::empty());
        assert(turn_views(live@) =~= olds.take(0).filter(is_new));
        assert(olds.take(0).filter(is_old) =~= Seq::empty());
    }
    for turn in it: pending.into_iter()
        invariant
            it.seq() == source,
            source.len() == total,
            turns == turn_views(source),
            count == candidate_count(turns.len(), max_live),
            olds == turns.take(count as int),
            is_old == (|t: TurnView| t.created_at.is_before(cutoff)),
            is_new == (|t: TurnView| !t.created_at.is_before(cutoff)),
            seen == it.index(),
            seen <= count ==> {
                &&& turn_views(live@) == olds.take(seen as int).filter(is_new)
                &&& archived == olds.take(seen as int).filter(is_old).len()
                &&& saved@ == turns_weight(olds.take(seen as int).filter(is_old))
            },
            seen > count ==> {
                &&& turn_views(live@) == olds.filter(is_new) + turns.subrange(
                    count as int,
                    seen as int,
                )
                &&& archived == olds.filter(is_old).len()
                &&& saved@ == turns_weight(olds.filter(is_old))
            },
    {
        let ghost old_live = turn_views(live@);
        proof {
            assert(turns[seen as int] == turn@);
            if seen < count {
                assert(olds[seen as int] == turn@);
                lemma_filter_step(olds, is_old, seen as int);
                lemma_filter_step(olds, is_new, seen as int);
                let part = olds.take(seen as int).filter(is_old);
                assert(part.push(turn@).drop_last() =~= part);
                assert(part.push(turn@).last() == turn@);
                lemma_filter_split(olds.take(seen as int), cutoff);
            } else if seen == count {
                assert(olds.take(count as int) =~= olds);
            }
        }
        if seen < count && turn.created_at.before(cutoff) {
            saved = saved.add_checked(&turn.checked_weight());
            archived = archived + 1;
        } else {
            live.push(turn);
            proof {
                assert(turn_views(live@) =~= old_live.push(turns[seen as int]));
                if seen >= count {
                    assert(turn_views(live@) =~= olds.filter(is_new) + turns.subrange(
                        count as int,
                        seen + 1,
                    ));
                }
            }
        }
        seen = seen + 1;
        assert(olds.take(count as int) =~= olds);
    }
    session.turns = live;
    proof {
        assert(olds.take(count as int) =~= olds);
        assert(turns.subrange(count as int, turns.len() as int) =~= turns.skip(count as int));
        if seen == count {
            assert(turns.skip(count as int) =~= Seq::empty());
        }
        assert(turn_views(session.turns@) =~= live_turns(turns, max_live, cutoff));
    }
    (archived, saved)
}

/// Archives the turns that were created before the cutoff, but for the
/// latest `max_live`.
pub fn archive_before(session: &mut Session, max_live: usize, cutoff: Timestamp) -> (metrics:
    CompactionMetrics)
    requires
        turns_weight(archived_turns(old(session)@.turns, max_live, cutoff)) <= usize::MAX,
    ensures
        final(session)@ == (SessionView {
            turns: live_turns(old(session)@.turns, max_live, cutoff),
            ..old(session)@
        }),
        is_archive_report(old(session)@.turns, max_live, cutoff, metrics),
{
    let (archived, saved) = archive_session(session, max_live, cutoff);
    CompactionMetrics {
        duplicates_removed: 0,
        continuation_turns_collapsed: 0,
        turns_archived: archived,
        token_bytes_saved: saved.unwrap(),
        turns_remaining: session.len(),
    }
}

impl CompactionStrategy for ArchiveOldTurns {
    /// The bytes of all candidates fit the metrics.
    open spec fn applies_to(&self, session: SessionView) -> bool {
        turns_weight(candidates(session.turns, self.max_live)) <= usize::MAX
    }

    /// The cutoff lies `age_hours` before a moment that the clock showed.
    open spec fn compacts(
        &self,
        before: SessionView,
        after: SessionView,
        metrics: CompactionMetrics,
    ) -> bool {
        exists|now: Timestamp|
            {
                let cutoff = #[trigger] cutoff_of(now, self.age_hours);
                &&& now.is_clock_reading()
                &&& after == (SessionView {
                    turns: live_turns(before.turns, self.max_live, cutoff),
                    ..before
                })
                &&& is_archive_report(before.turns, self.max_live, cutoff, metrics)
            }
    }

    fn compact(&self, session: &mut Session) -> (outcome: Result<
        CompactionMetrics,
        CompactionError,
    >)
        ensures
            outcome is Ok,
    {
        let now = utc_now();
        let cutoff = archive_cutoff(now, self.age_hours);
        proof {
            lemma_filter_weight(
                candidates(session@.turns, self.max_live),
                |t: TurnView| t.created_at.is_before(cutoff),
            );
        }
        Ok(archive_before(session, self.max_live, cutoff))
    }
}

} // verus!
