//! Collapsing repeated requests to go on.

use vstd::prelude::*;

use crate::model::{is_continuation, turn_views, Session, SessionView, Turn, TurnView};
use crate::strategy::{no_metrics, CompactionError, CompactionMetrics, CompactionStrategy};

verus! {

/// The bytes that a collapsed turn counts for: those of the word "continue".
pub const MARKER_BYTES: usize = 8;

/// A turn is a continuation marker, and so is the one before it, with the same
/// role.
pub open spec fn repeats_previous(turns: Seq<TurnView>, i: int) -> bool {
    &&& 0 < i < turns.len()
    &&& is_continuation(turns[i].content)
    &&& is_continuation(turns[i - 1].content)
    &&& turns[i - 1].role == turns[i].role
}

/// Turns without those that repeat the one before.
pub open spec fn collapse_turns(turns: Seq<TurnView>) -> Seq<TurnView>
    decreases turns.len(),
{
    if turns.len() == 0 {
        Seq::empty()
    } else if repeats_previous(turns, turns.len() - 1) {
        collapse_turns(turns.drop_last())
    } else {
        collapse_turns(turns.drop_last()).push(turns.last())
    }
}

/// How many turns repeat the one before.
pub open spec fn repeated_turns(turns: Seq<TurnView>) -> nat
    decreases turns.len(),
{
    if turns.len() == 0 {
        0
    } else {
        repeated_turns(turns.drop_last()) + if repeats_previous(turns, turns.len() - 1) {
            1nat
        } else {
            0
        }
    }
}

/// What the collapsing reports.
pub open spec fn is_collapse_report(turns: Seq<TurnView>, metrics: CompactionMetrics) -> bool {
    &&& metrics.continuation_turns_collapsed == repeated_turns(turns)
    &&& metrics.token_bytes_saved == MARKER_BYTES * repeated_turns(turns)
    &&& metrics.turns_remaining == collapse_turns(turns).len()
    &&& metrics == (CompactionMetrics {
        continuation_turns_collapsed: metrics.continuation_turns_collapsed,
        token_bytes_saved: metrics.token_bytes_saved,
        turns_remaining: metrics.turns_remaining,
        ..no_metrics()
    })
}

/// The numbers of a collapsing fit.
pub open spec fn collapse_fits(turns: Seq<TurnView>) -> bool {
    MARKER_BYTES * repeated_turns(turns) <= usize::MAX
}

/// Every turn is either kept or repeats the one before.
pub proof fn lemma_collapse_counts(turns: Seq<TurnView>)
    ensures
        collapse_turns(turns).len() + repeated_turns(turns) == turns.len(),
    decreases turns.len(),
{
    if turns.len() > 0 {
        lemma_collapse_counts(turns.drop_last());
    }
}

/// What `collapse_turns` keeps last stands for the last turn: it is that turn,
/// or a marker with the same role where that turn is a marker.
pub proof fn lemma_collapse_last(turns: Seq<TurnView>)
    requires
        turns.len() > 0,
    ensures
        collapse_turns(turns).len() > 0,
        collapse_turns(turns).last() == turns.last() || {
            &&& is_continuation(collapse_turns(turns).last().content)
            &&& is_continuation(turns.last().content)
            &&& collapse_turns(turns).last().role == turns.last().role
        },
    decreases turns.len(),
{
    if repeats_previous(turns, turns.len() - 1) {
        lemma_collapse_last(turns.drop_last());
    }
}

/// Repetition looks at a turn and the one before it only.
proof fn lemma_repeats_in_prefix(turns: Seq<TurnView>, n: int, i: int)
    requires
        0 <= i < n <= turns.len(),
    ensures
        repeats_previous(turns.take(n), i) == repeats_previous(turns, i),
{
    if i > 0 {
        assert(turns.take(n)[i] == turns[i]);
        assert(turns.take(n)[i - 1] == turns[i - 1]);
    }
}

/// Collapses the repeated markers of a session. Gives how many turns went.
pub(crate) fn collapse_session(session: &mut Session) -> (collapsed: usize)
    ensures
        final(session)@ == (SessionView {
            turns: collapse_turns(old(session)@.turns),
            ..old(session)@
        }),
        collapsed == repeated_turns(old(session)@.turns),
{
    let ghost turns = session@.turns;
    let mut pending: Vec<Turn> = Vec::new();
    std::mem::swap(&mut pending, &mut session.turns);
    let total: usize = pending.len();
    let mut kept: Vec<Turn> = Vec::with_capacity(total);
    let mut collapsed: usize = 0;
    let ghost source = pending@;
    proof {
        assert(turns =~= turn_views(source));
        assert(turns.take(0) =~= Seq::empty());
        assert(turn_views(kept@) =~= Seq::empty());
    }
    for turn in it: pending.into_iter()
        invariant
            it.seq() == source,
            source.len() == total,
            turns == turn_views(source),
            turn_views(kept@) == collapse_turns(turns.take(it.index() as int)),
            collapsed == repeated_turns(turns.take(it.index() as int)),
    {
        let ghost i = it.index() as int;
        let ghost old_kept = turn_views(kept@);
        proof {
            assert(turns[i] == turn@);
            assert(turns.take(i + 1).drop_last() =~= turns.take(i));
            assert(turns.take(i + 1).last() == turn@);
            lemma_repeats_in_prefix(turns, i + 1, i);
            lemma_collapse_counts(turns.take(i + 1));
            if i > 0 {
                lemma_collapse_last(turns.take(i));
                assert(turns.take(i).last() == turns[i - 1]);
                assert(kept@.len() > 0);
                assert(old_kept.last() == kept@.last()@);
            } else {
                assert(turns.take(0) =~= Seq::empty());
                assert(old_kept.len() == 0);
            }
        }
        let repeats = if turn.is_continuation_marker() && kept.len() > 0 {
            let last = &kept[kept.len() - 1];
            last.is_continuation_marker() && last.role == turn.role
        } else {
            false
        };
        assert(repeats == repeats_previous(turns, i));
        if repeats {
            collapsed = collapsed + 1;
        } else {
            kept.push(turn);
            assert(turn_views(kept@) =~= old_kept.push(turns[i]));
        }
    }
    session.turns = kept;
    proof {
        assert(turns.take(turns.len() as int) =~= turns);
    }
    collapsed
}

/// Collapse consecutive continuation-marker turns into a single marker.
#[derive(Debug, Clone, Copy)]
pub struct CollapseContinuations;

impl Default for CollapseContinuations {
    fn default() -> CollapseContinuations {
        CollapseContinuations
    }
}

impl CompactionStrategy for CollapseContinuations {
    open spec fn applies_to(&self, session: SessionView) -> bool {
        collapse_fits(session.turns)
    }

    open spec fn compacts(
        &self,
        before: SessionView,
        after: SessionView,
        metrics: CompactionMetrics,
    ) -> bool {
        &&& after == (SessionView { turns: collapse_turns(before.turns), ..before })
        &&& is_collapse_report(before.turns, metrics)
    }

    fn compact(&self, session: &mut Session) -> (outcome: Result<
        CompactionMetrics,
        CompactionError,
    >)
        ensures
            outcome is Ok,
    {
        let collapsed = collapse_session(session);
        Ok(
            CompactionMetrics {
                duplicates_removed: 0,
                continuation_turns_collapsed: collapsed,
                turns_archived: 0,
                token_bytes_saved: collapsed * MARKER_BYTES,
                turns_remaining: session.len(),
            },
        )
    }
}

} // verus!
