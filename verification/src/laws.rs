//! What holds of compaction as a whole.

use vstd::prelude::*;

use crate::archive::{
    archived_turns, candidate_count, candidates, lemma_filter_split, live_turns, protected,
};
use crate::collapse::{
    collapse_turns, lemma_collapse_counts, lemma_collapse_last, repeated_turns, repeats_previous,
};
use crate::compactor::{compacted_turns, is_compaction_report, reduced_turns};
use crate::dedup::{
    calls_of, dedup_calls, dedup_turns, duplicates, elided, is_duplicate, kept_of, occurrences,
};
use crate::model::{is_continuation, ToolCallView, TurnView};
use crate::strategy::CompactionMetrics;
use crate::text::{
    is_whitespace, lower_char, lowercase, trimmed, without_leading, without_trailing,
};
use crate::time::{cutoff_of, in_calendar_hours_before, Timestamp};

verus! {

// Duplicates

proof fn lemma_occurs(calls: Seq<ToolCallView>, i: int)
    requires
        0 <= i < calls.len(),
    ensures
        occurrences(calls, calls[i]) > 0,
    decreases calls.len(),
{
    if i < calls.len() - 1 {
        lemma_occurs(calls.drop_last(), i);
    }
}

/// Of two identical calls, whatever turns they stand in, the later one is a
/// duplicate: nothing is kept of its output.
pub proof fn law_identical_calls_collapse(turns: Seq<TurnView>, i: int, j: int)
    requires
        0 <= i < j < calls_of(turns).len(),
        calls_of(turns)[i] == calls_of(turns)[j],
    ensures
        is_duplicate(calls_of(turns).take(j), calls_of(turns)[j]),
        ({
            let kept = kept_of(calls_of(turns).take(j), calls_of(turns)[j]);
            kept == seq![elided(calls_of(turns)[j])] || kept == Seq::<ToolCallView>::empty()
        }),
{
    let earlier = calls_of(turns).take(j);
    assert(earlier[i] == calls_of(turns)[j]);
    lemma_occurs(earlier, i);
}

proof fn lemma_never_occurs(calls: Seq<ToolCallView>, call: ToolCallView)
    requires
        !calls.contains(call),
    ensures
        occurrences(calls, call) == 0,
    decreases calls.len(),
{
    if calls.len() > 0 {
        assert(calls[calls.len() - 1] != call);
        assert(!calls.drop_last().contains(call)) by {
            if calls.drop_last().contains(call) {
                let i = choose|i: int| 0 <= i < calls.len() - 1 && calls.drop_last()[i] == call;
                assert(calls[i] == call);
            }
        }
        lemma_never_occurs(calls.drop_last(), call);
    }
}

/// A call is a duplicate exactly if a call before it has the same name, the same
/// arguments and the same output. Any other call stays as it is.
pub proof fn law_only_identical_calls_collapse(earlier: Seq<ToolCallView>, call: ToolCallView)
    ensures
        is_duplicate(earlier, call) <==> exists|i: int|
            0 <= i < earlier.len() && {
                &&& (#[trigger] earlier[i]).name == call.name
                &&& earlier[i].arguments == call.arguments
                &&& earlier[i].output == call.output
            },
        !is_duplicate(earlier, call) ==> kept_of(earlier, call) == seq![call],
{
    if earlier.contains(call) {
        let i = choose|i: int| 0 <= i < earlier.len() && earlier[i] == call;
        lemma_occurs(earlier, i);
    } else {
        lemma_never_occurs(earlier, call);
        assert forall|i: int| 0 <= i < earlier.len() implies !(
        (#[trigger] earlier[i]).name == call.name && earlier[i].arguments == call.arguments
            && earlier[i].output == call.output) by {
            assert(earlier[i] != call);
        }
    }
}

proof fn lemma_dedup_concat(
    earlier: Seq<ToolCallView>,
    first: Seq<ToolCallView>,
    second: Seq<ToolCallView>,
)
    ensures
        dedup_calls(earlier, first + second) == dedup_calls(earlier, first) + dedup_calls(
            earlier + first,
            second,
        ),
    decreases second.len(),
{
    if second.len() == 0 {
        assert(first + second =~= first);
        assert(dedup_calls(earlier, first) + dedup_calls(earlier + first, second) =~= dedup_calls(
            earlier,
            first,
        ));
    } else {
        lemma_dedup_concat(earlier, first, second.drop_last());
        assert((first + second).drop_last() =~= first + second.drop_last());
        assert(earlier + (first + second.drop_last()) =~= (earlier + first) + second.drop_last());
        let a = dedup_calls(earlier, first);
        let b = dedup_calls(earlier + first, second.drop_last());
        let c = kept_of((earlier + first) + second.drop_last(), second.last());
        assert((a + b) + c =~= a + (b + c));
    }
}

proof fn lemma_dedup_prefix(turns: Seq<TurnView>, n: int)
    requires
        0 <= n <= turns.len(),
    ensures
        dedup_turns(turns).take(n) == dedup_turns(turns.take(n)),
{
    assert forall|i: int| 0 <= i < n implies dedup_turns(turns).take(n)[i] == dedup_turns(
        turns.take(n),
    )[i] by {
        assert(turns.take(n).take(i) =~= turns.take(i));
    }
    assert(dedup_turns(turns).take(n) =~= dedup_turns(turns.take(n)));
}

/// Where the turns of a session begin and end makes no difference to the
/// removal of duplicates: the calls that stay are those that stay of all calls
/// in a row.
pub proof fn law_dedup_ignores_turns(turns: Seq<TurnView>)
    ensures
        calls_of(dedup_turns(turns)) == dedup_calls(Seq::empty(), calls_of(turns)),
    decreases turns.len(),
{
    if turns.len() > 0 {
        let n = turns.len() - 1;
        law_dedup_ignores_turns(turns.drop_last());
        lemma_dedup_prefix(turns, n);
        assert(turns.take(n) =~= turns.drop_last());
        assert(dedup_turns(turns).drop_last() =~= dedup_turns(turns).take(n));
        lemma_dedup_concat(Seq::empty(), calls_of(turns.drop_last()), turns.last().tool_calls);
        assert(Seq::<ToolCallView>::empty() + calls_of(turns.drop_last()) =~= calls_of(
            turns.drop_last(),
        ));
    }
}

/// The removal of duplicates keeps every turn, in its place, with all that it
/// holds but for its calls.
pub proof fn law_dedup_keeps_turns(turns: Seq<TurnView>)
    ensures
        dedup_turns(turns).len() == turns.len(),
        forall|i: int|
            0 <= i < turns.len() ==> #[trigger] dedup_turns(turns)[i] == (TurnView {
                tool_calls: dedup_turns(turns)[i].tool_calls,
                ..turns[i]
            }),
{
}

proof fn lemma_dedup_calls_clean(calls: Seq<ToolCallView>)
    requires
        duplicates(calls) == 0,
    ensures
        dedup_calls(Seq::empty(), calls) == calls,
    decreases calls.len(),
{
    if calls.len() > 0 {
        lemma_dedup_calls_clean(calls.drop_last());
        assert(Seq::<ToolCallView>::empty() + calls.drop_last() =~= calls.drop_last());
        assert(calls.drop_last() + seq![calls.last()] =~= calls);
    }
}

proof fn lemma_no_duplicates_prefix(calls: Seq<ToolCallView>, n: int)
    requires
        0 <= n <= calls.len(),
        duplicates(calls) == 0,
    ensures
        duplicates(calls.take(n)) == 0,
    decreases calls.len(),
{
    if n < calls.len() {
        lemma_no_duplicates_prefix(calls.drop_last(), n);
        assert(calls.drop_last().take(n) =~= calls.take(n));
    } else {
        assert(calls.take(n) =~= calls);
    }
}

/// A session without duplicates stays as it is.
pub proof fn law_dedup_without_duplicates(turns: Seq<TurnView>)
    requires
        duplicates(calls_of(turns)) == 0,
    ensures
        dedup_turns(turns) == turns,
    decreases turns.len(),
{
    if turns.len() > 0 {
        let n = turns.len() - 1;
        let earlier = calls_of(turns.drop_last());
        let calls = turns.last().tool_calls;
        assert(calls_of(turns).take(earlier.len() as int) =~= earlier);
        lemma_no_duplicates_prefix(calls_of(turns), earlier.len() as int);
        law_dedup_without_duplicates(turns.drop_last());
        lemma_dedup_prefix(turns, n);
        assert(turns.take(n) =~= turns.drop_last());
        lemma_dedup_calls_clean(calls_of(turns));
        lemma_dedup_calls_clean(earlier);
        lemma_dedup_concat(Seq::empty(), earlier, calls);
        assert(Seq::<ToolCallView>::empty() + earlier =~= earlier);
        assert(dedup_calls(earlier, calls) =~= calls) by {
            let all = earlier + dedup_calls(earlier, calls);
            assert(all == earlier + calls);
            assert(dedup_calls(earlier, calls) =~= all.skip(earlier.len() as int));
            assert((earlier + calls).skip(earlier.len() as int) =~= calls);
        }
        assert(dedup_turns(turns)[n] == turns[n]);
        assert(dedup_turns(turns) =~= dedup_turns(turns).take(n).push(dedup_turns(turns)[n]));
        assert(turns =~= turns.drop_last().push(turns.last()));
    } else {
        assert(dedup_turns(turns) =~= turns);
    }
}

// Repetitions

/// After the collapsing no two markers of one role stand side by side.
pub proof fn law_collapse_leaves_no_repetition(turns: Seq<TurnView>)
    ensures
        forall|i: int| !#[trigger] repeats_previous(collapse_turns(turns), i),
    decreases turns.len(),
{
    if turns.len() > 0 {
        let rest = collapse_turns(turns.drop_last());
        law_collapse_leaves_no_repetition(turns.drop_last());
        if !repeats_previous(turns, turns.len() - 1) {
            if turns.len() > 1 {
                lemma_collapse_last(turns.drop_last());
                assert(turns.drop_last().last() == turns[turns.len() - 2]);
            }
            assert forall|i: int| !#[trigger] repeats_previous(collapse_turns(turns), i) by {
                if 0 < i < rest.len() {
                    assert(!repeats_previous(rest, i));
                    assert(collapse_turns(turns)[i] == rest[i]);
                    assert(collapse_turns(turns)[i - 1] == rest[i - 1]);
                } else if i == rest.len() && i > 0 {
                    assert(collapse_turns(turns)[i] == turns.last());
                    assert(collapse_turns(turns)[i - 1] == rest.last());
                }
            }
        }
    }
}

proof fn lemma_collapse_clean(turns: Seq<TurnView>)
    requires
        forall|i: int| !#[trigger] repeats_previous(turns, i),
    ensures
        collapse_turns(turns) == turns,
        repeated_turns(turns) == 0,
    decreases turns.len(),
{
    if turns.len() > 0 {
        assert forall|i: int| !#[trigger] repeats_previous(turns.drop_last(), i) by {
            assert(!repeats_previous(turns, i));
        }
        lemma_collapse_clean(turns.drop_last());
        assert(!repeats_previous(turns, turns.len() - 1));
        assert(turns.drop_last().push(turns.last()) =~= turns);
    } else {
        assert(collapse_turns(turns) =~= turns);
    }
}

/// Collapsing twice is collapsing once.
pub proof fn law_collapse_idempotent(turns: Seq<TurnView>)
    ensures
        collapse_turns(collapse_turns(turns)) == collapse_turns(turns),
        repeated_turns(collapse_turns(turns)) == 0,
{
    law_collapse_leaves_no_repetition(turns);
    lemma_collapse_clean(collapse_turns(turns));
}

/// The collapsing keeps every turn that is no continuation marker, in order.
pub proof fn law_collapse_keeps_the_rest(turns: Seq<TurnView>)
    ensures
        collapse_turns(turns).filter(|t: TurnView| !is_continuation(t.content)) == turns.filter(
            |t: TurnView| !is_continuation(t.content),
        ),
    decreases turns.len(),
{
    reveal(Seq::filter);
    if turns.len() > 0 {
        law_collapse_keeps_the_rest(turns.drop_last());
        let rest = collapse_turns(turns.drop_last());
        if !repeats_previous(turns, turns.len() - 1) {
            assert(rest.push(turns.last()).drop_last() =~= rest);
        }
    }
}

/// Each turn is counted once: it stays or is collapsed.
pub proof fn law_collapse_accounts_for_turns(turns: Seq<TurnView>)
    ensures
        collapse_turns(turns).len() + repeated_turns(turns) == turns.len(),
{
    lemma_collapse_counts(turns);
}

// Continuation markers

proof fn lemma_leading_lower(s: Seq<char>)
    ensures
        without_leading(lowercase(s)) == lowercase(without_leading(s)),
    decreases s.len(),
{
    if s.len() > 0 {
        assert(is_whitespace(lower_char(s[0])) == is_whitespace(s[0]));
        if is_whitespace(s[0]) {
            assert(lowercase(s).drop_first() =~= lowercase(s.drop_first()));
            lemma_leading_lower(s.drop_first());
        }
    }
}

proof fn lemma_trailing_lower(s: Seq<char>)
    ensures
        without_trailing(lowercase(s)) == lowercase(without_trailing(s)),
    decreases s.len(),
{
    if s.len() > 0 {
        assert(is_whitespace(lower_char(s.last())) == is_whitespace(s.last()));
        if is_whitespace(s.last()) {
            assert(lowercase(s).drop_last() =~= lowercase(s.drop_last()));
            lemma_trailing_lower(s.drop_last());
        }
    }
}

/// Capital letters make no difference to a continuation marker.
pub proof fn law_marker_ignores_case(content: Seq<char>)
    ensures
        is_continuation(lowercase(content)) == is_continuation(content),
{
    lemma_leading_lower(content);
    lemma_trailing_lower(without_leading(content));
    assert(lowercase(lowercase(trimmed(content))) =~= lowercase(trimmed(content)));
}

proof fn lemma_leading_padding(pad: Seq<char>, s: Seq<char>)
    requires
        forall|i: int| 0 <= i < pad.len() ==> is_whitespace(#[trigger] pad[i]),
    ensures
        without_leading(pad + s) == without_leading(s),
    decreases pad.len(),
{
    if pad.len() == 0 {
        assert(pad + s =~= s);
    } else {
        assert(is_whitespace(pad[0]));
        assert((pad + s).drop_first() =~= pad.drop_first() + s);
        lemma_leading_padding(pad.drop_first(), s);
    }
}

proof fn lemma_trailing_padding(s: Seq<char>, pad: Seq<char>)
    requires
        forall|i: int| 0 <= i < pad.len() ==> is_whitespace(#[trigger] pad[i]),
    ensures
        without_trailing(s + pad) == without_trailing(s),
    decreases pad.len(),
{
    if pad.len() == 0 {
        assert(s + pad =~= s);
    } else {
        assert(is_whitespace(pad[pad.len() - 1]));
        assert((s + pad).drop_last() =~= s + pad.drop_last());
        lemma_trailing_padding(s, pad.drop_last());
    }
}

proof fn lemma_leading_of_padded(s: Seq<char>, pad: Seq<char>)
    requires
        forall|i: int| 0 <= i < pad.len() ==> is_whitespace(#[trigger] pad[i]),
    ensures
        without_trailing(without_leading(s + pad)) == without_trailing(without_leading(s)),
    decreases s.len(),
{
    if s.len() == 0 {
        assert(s + pad =~= pad + s);
        lemma_leading_padding(pad, s);
    } else if is_whitespace(s[0]) {
        assert((s + pad).drop_first() =~= s.drop_first() + pad);
        lemma_leading_of_padded(s.drop_first(), pad);
    } else {
        lemma_trailing_padding(s, pad);
    }
}

/// White space around a text makes no difference to its trimmed form.
pub proof fn law_trim_ignores_padding(before: Seq<char>, s: Seq<char>, after: Seq<char>)
    requires
        forall|i: int| 0 <= i < before.len() ==> is_whitespace(#[trigger] before[i]),
        forall|i: int| 0 <= i < after.len() ==> is_whitespace(#[trigger] after[i]),
    ensures
        trimmed(before + s + after) == trimmed(s),
{
    assert(before + s + after =~= before + (s + after));
    lemma_leading_padding(before, s + after);
    lemma_leading_of_padded(s, after);
}

/// White space around the content makes no difference to a continuation marker.
pub proof fn law_marker_ignores_padding(before: Seq<char>, content: Seq<char>, after: Seq<char>)
    requires
        forall|i: int| 0 <= i < before.len() ==> is_whitespace(#[trigger] before[i]),
        forall|i: int| 0 <= i < after.len() ==> is_whitespace(#[trigger] after[i]),
    ensures
        is_continuation(before + content + after) == is_continuation(content),
{
    law_trim_ignores_padding(before, content, after);
}

// Archiving

/// The latest `max_live` turns stay, whatever their age: they end what stays.
pub proof fn law_archive_keeps_latest(turns: Seq<TurnView>, max_live: usize, cutoff: Timestamp)
    ensures
        ({
            let live = live_turns(turns, max_live, cutoff);
            let latest = if turns.len() > max_live {
                max_live as int
            } else {
                turns.len() as int
            };
            &&& live.len() >= latest
            &&& live.skip(live.len() - latest) == turns.skip(turns.len() - latest)
        }),
{
    let latest = protected(turns, max_live);
    let live = live_turns(turns, max_live, cutoff);
    assert(live.skip(live.len() - latest.len()) =~= latest);
}

proof fn lemma_filter_all(turns: Seq<TurnView>, keep: spec_fn(TurnView) -> bool)
    ensures
        forall|i: int| 0 <= i < turns.filter(keep).len() ==> keep(#[trigger] turns.filter(keep)[i]),
        turns.filter(keep).len() <= turns.len(),
    decreases turns.len(),
{
    reveal(Seq::filter);
    if turns.len() > 0 {
        lemma_filter_all(turns.drop_last(), keep);
    }
}

proof fn lemma_filter_none(turns: Seq<TurnView>, keep: spec_fn(TurnView) -> bool)
    requires
        forall|i: int| 0 <= i < turns.len() ==> !keep(#[trigger] turns[i]),
    ensures
        turns.filter(keep) == Seq::<TurnView>::empty(),
    decreases turns.len(),
{
    reveal(Seq::filter);
    if turns.len() > 0 {
        lemma_filter_none(turns.drop_last(), keep);
    }
}

proof fn lemma_filter_whole(turns: Seq<TurnView>, keep: spec_fn(TurnView) -> bool)
    requires
        forall|i: int| 0 <= i < turns.len() ==> keep(#[trigger] turns[i]),
    ensures
        turns.filter(keep) == turns,
    decreases turns.len(),
{
    reveal(Seq::filter);
    if turns.len() > 0 {
        lemma_filter_whole(turns.drop_last(), keep);
        assert(turns.drop_last().push(turns.last()) =~= turns);
    }
}

/// Only turns that were created before the cutoff are archived.
pub proof fn law_archive_takes_old_turns(turns: Seq<TurnView>, max_live: usize, cutoff: Timestamp)
    ensures
        forall|i: int|
            0 <= i < archived_turns(turns, max_live, cutoff).len()
                ==> (#[trigger] archived_turns(turns, max_live, cutoff)[i]).created_at.is_before(
                cutoff,
            ),
{
    lemma_filter_all(
        candidates(turns, max_live),
        |t: TurnView| t.created_at.is_before(cutoff),
    );
}

/// Where the calendar does not reach back to an age, no turn is that old, and
/// nothing is archived.
pub proof fn law_age_beyond_calendar_archives_nothing(
    turns: Seq<TurnView>,
    max_live: usize,
    now: Timestamp,
    age_hours: u64,
)
    requires
        !in_calendar_hours_before(now, age_hours as int),
        forall|i: int| 0 <= i < turns.len() ==> (#[trigger] turns[i]).created_at.wf(),
    ensures
        archived_turns(turns, max_live, cutoff_of(now, age_hours)) == Seq::<TurnView>::empty(),
        live_turns(turns, max_live, cutoff_of(now, age_hours)) == turns,
{
    let cutoff = cutoff_of(now, age_hours);
    let all = candidates(turns, max_live);
    assert forall|i: int| 0 <= i < all.len() implies !(
    #[trigger] all[i]).created_at.is_before(cutoff) by {
        assert(turns[i].created_at.wf());
    }
    lemma_filter_none(all, |t: TurnView| t.created_at.is_before(cutoff));
    lemma_filter_whole(all, |t: TurnView| !t.created_at.is_before(cutoff));
    assert(all + protected(turns, max_live) =~= turns);
}

/// A turn that is archived is older than the age: it was created before the
/// moment `age_hours` hours before `now`.
pub proof fn law_archived_turns_are_older(
    turns: Seq<TurnView>,
    max_live: usize,
    now: Timestamp,
    age_hours: u64,
    i: int,
)
    requires
        now.is_clock_reading(),
        forall|k: int| 0 <= k < turns.len() ==> (#[trigger] turns[k]).created_at.wf(),
        0 <= i < archived_turns(turns, max_live, cutoff_of(now, age_hours)).len(),
    ensures
        ({
            let turn = archived_turns(turns, max_live, cutoff_of(now, age_hours))[i];
            let oldest = now.secs - 3600 * age_hours;
            turn.created_at.secs < oldest || (turn.created_at.secs == oldest
                && turn.created_at.nanos < now.nanos)
        }),
{
    let cutoff = cutoff_of(now, age_hours);
    if !in_calendar_hours_before(now, age_hours as int) {
        law_age_beyond_calendar_archives_nothing(turns, max_live, now, age_hours);
    } else {
        law_archive_takes_old_turns(turns, max_live, cutoff);
        assert(archived_turns(turns, max_live, cutoff)[i].created_at.is_before(cutoff));
    }
}

/// Each turn is counted once: it stays or is archived.
pub proof fn law_archive_accounts_for_turns(
    turns: Seq<TurnView>,
    max_live: usize,
    cutoff: Timestamp,
)
    ensures
        live_turns(turns, max_live, cutoff).len() + archived_turns(turns, max_live, cutoff).len()
            == turns.len(),
{
    lemma_filter_split(candidates(turns, max_live), cutoff);
}

/// Archiving twice with one cutoff is archiving once.
pub proof fn law_archive_idempotent(turns: Seq<TurnView>, max_live: usize, cutoff: Timestamp)
    ensures
        live_turns(live_turns(turns, max_live, cutoff), max_live, cutoff) == live_turns(
            turns,
            max_live,
            cutoff,
        ),
        archived_turns(live_turns(turns, max_live, cutoff), max_live, cutoff) == Seq::<
            TurnView,
        >::empty(),
{
    let is_new = |t: TurnView| !t.created_at.is_before(cutoff);
    let is_old = |t: TurnView| t.created_at.is_before(cutoff);
    let young = candidates(turns, max_live).filter(is_new);
    let live = live_turns(turns, max_live, cutoff);
    lemma_filter_all(candidates(turns, max_live), is_new);
    let again = candidates(live, max_live);
    assert(candidate_count(live.len(), max_live) <= young.len());
    assert forall|i: int| 0 <= i < again.len() implies is_new(#[trigger] again[i]) by {
        assert(again[i] == young[i]);
    }
    lemma_filter_whole(again, is_new);
    assert forall|i: int| 0 <= i < again.len() implies !is_old(#[trigger] again[i]) by {
        assert(is_new(again[i]));
    }
    lemma_filter_none(again, is_old);
    assert(again + protected(live, max_live) =~= live);
}

// Compaction as a whole

/// Each turn of a session is counted once in the report of its compaction: it
/// stays, or is collapsed, or is archived.
pub proof fn law_compaction_accounts_for_turns(
    turns: Seq<TurnView>,
    max_turns: usize,
    cutoff: Timestamp,
    metrics: CompactionMetrics,
)
    requires
        is_compaction_report(turns, max_turns, cutoff, metrics),
    ensures
        metrics.turns_remaining + metrics.continuation_turns_collapsed + metrics.turns_archived
            == turns.len(),
{
    law_collapse_accounts_for_turns(dedup_turns(turns));
    law_archive_accounts_for_turns(reduced_turns(turns), max_turns, cutoff);
}

/// A compaction is determined by the turns, the settings and the cutoff: two
/// reports on the same are the same.
pub proof fn law_compaction_deterministic(
    turns: Seq<TurnView>,
    max_turns: usize,
    cutoff: Timestamp,
    first: CompactionMetrics,
    second: CompactionMetrics,
)
    requires
        is_compaction_report(turns, max_turns, cutoff, first),
        is_compaction_report(turns, max_turns, cutoff, second),
    ensures
        first == second,
{
}

/// A turn that differs from another in its calls at most.
pub open spec fn same_but_for_calls(turn: TurnView, origin: TurnView) -> bool {
    turn == (TurnView { tool_calls: turn.tool_calls, ..origin })
}

/// `places` says, in increasing order, which of some turns others come from.
pub open spec fn come_from(
    kept: Seq<TurnView>,
    turns: Seq<TurnView>,
    places: Seq<int>,
) -> bool {
    &&& places.len() == kept.len()
    &&& forall|i: int| #![trigger places[i]] 0 <= i < places.len() ==> 0 <= places[i] < turns.len()
    &&& forall|i: int, j: int|
        #![trigger places[i], places[j]]
        0 <= i < j < places.len() ==> places[i] < places[j]
    &&& forall|i: int|
        #![trigger places[i]]
        0 <= i < places.len() ==> same_but_for_calls(kept[i], turns[places[i]])
}

proof fn lemma_collapse_places(turns: Seq<TurnView>) -> (places: Seq<int>)
    ensures
        come_from(collapse_turns(turns), turns, places),
    decreases turns.len(),
{
    if turns.len() == 0 {
        Seq::empty()
    } else {
        let rest = lemma_collapse_places(turns.drop_last());
        if repeats_previous(turns, turns.len() - 1) {
            rest
        } else {
            rest.push(turns.len() - 1)
        }
    }
}

proof fn lemma_filter_places(turns: Seq<TurnView>, keep: spec_fn(TurnView) -> bool) -> (places: Seq<
    int,
>)
    ensures
        come_from(turns.filter(keep), turns, places),
    decreases turns.len(),
{
    reveal(Seq::filter);
    if turns.len() == 0 {
        Seq::empty()
    } else {
        let rest = lemma_filter_places(turns.drop_last(), keep);
        if keep(turns.last()) {
            rest.push(turns.len() - 1)
        } else {
            rest
        }
    }
}

proof fn lemma_live_places(
    turns: Seq<TurnView>,
    max_live: usize,
    cutoff: Timestamp,
) -> (places: Seq<int>)
    ensures
        come_from(live_turns(turns, max_live, cutoff), turns, places),
{
    let count = candidate_count(turns.len(), max_live);
    let first = lemma_filter_places(
        candidates(turns, max_live),
        |t: TurnView| !t.created_at.is_before(cutoff),
    );
    let places = first + Seq::new((turns.len() - count) as nat, |i: int| count + i);
    let live = live_turns(turns, max_live, cutoff);
    assert forall|i: int| #![trigger places[i]] 0 <= i < places.len() implies same_but_for_calls(
        live[i],
        turns[places[i]],
    ) && 0 <= places[i] < turns.len() by {
        if i < first.len() {
            assert(places[i] == first[i]);
            assert(candidates(turns, max_live)[first[i]] == turns[first[i]]);
        } else {
            assert(live[i] == protected(turns, max_live)[i - first.len()]);
        }
    }
    assert forall|i: int, j: int|
        #![trigger places[i], places[j]]
        0 <= i < j < places.len() implies places[i] < places[j] by {
        if j < first.len() {
            assert(places[i] == first[i] && places[j] == first[j]);
        } else if i < first.len() {
            assert(places[i] == first[i]);
        }
    }
    places
}

/// A compaction makes up no turns and changes no order: each turn that stays
/// comes from a turn of the session, from which it differs in its calls at
/// most, and later turns come from later ones.
pub proof fn law_compaction_keeps_order(turns: Seq<TurnView>, max_turns: usize, cutoff: Timestamp)
    ensures
        exists|places: Seq<int>|
            come_from(compacted_turns(turns, max_turns, cutoff), turns, places),
{
    let clean = dedup_turns(turns);
    let reduced = reduced_turns(turns);
    let outer = lemma_live_places(reduced, max_turns, cutoff);
    let inner = lemma_collapse_places(clean);
    let places = Seq::new(outer.len(), |i: int| inner[outer[i]]);
    let kept = compacted_turns(turns, max_turns, cutoff);
    assert forall|i: int| #![trigger places[i]] 0 <= i < places.len() implies 0 <= places[i]
        < turns.len() && same_but_for_calls(kept[i], turns[places[i]]) by {
        let o = outer[i];
        assert(same_but_for_calls(reduced[o], clean[inner[o]]));
        assert(same_but_for_calls(clean[inner[o]], turns[inner[o]]));
    }
    assert forall|i: int, j: int|
        #![trigger places[i], places[j]]
        0 <= i < j < places.len() implies places[i] < places[j] by {
        assert(outer[i] < outer[j]);
        assert(inner[outer[i]] < inner[outer[j]]);
    }
    assert(come_from(kept, turns, places));
}

/// A compaction leaves at least the latest `max_turns` of the turns that are
/// left once duplicates and repetitions are gone.
pub proof fn law_compaction_keeps_latest(turns: Seq<TurnView>, max_turns: usize, cutoff: Timestamp)
    ensures
        ({
            let reduced = reduced_turns(turns);
            let kept = compacted_turns(turns, max_turns, cutoff);
            let latest = if reduced.len() > max_turns {
                max_turns as int
            } else {
                reduced.len() as int
            };
            &&& kept.len() >= latest
            &&& kept.skip(kept.len() - latest) == reduced.skip(reduced.len() - latest)
        }),
{
    law_archive_keeps_latest(reduced_turns(turns), max_turns, cutoff);
}

} // verus!
