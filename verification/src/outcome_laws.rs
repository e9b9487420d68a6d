//! What comes out of each strategy and of a compaction as a whole, place by place.

use vstd::prelude::*;
use vstd::utf8::encode_utf8;

use crate::archive::{
    archived_turns, candidates, is_archive_report, lemma_filter_split, live_turns, protected,
    ArchiveOldTurns,
};
use crate::collapse::{
    collapse_turns, lemma_collapse_counts, repeated_turns, repeats_previous, CollapseContinuations,
};
use crate::compactor::{
    compacted_session, compaction_fits_at, is_compacted_now, is_compaction_report, reduced_turns,
};
use crate::dedup::{
    calls_of, dedup_calls, dedup_turns, duplicate_bytes, duplicates, is_duplicate, kept_of,
    occurrences, DeduplicateToolOutputs,
};
use crate::model::{
    calls_weight, is_continuation, turn_weight, turns_weight, SessionView, ToolCallView, TurnView,
};
use crate::strategy::{CompactionMetrics, CompactionResult, CompactionStrategy};
use crate::text::{lowercase, trimmed};
use crate::time::{cutoff_of, Timestamp};

verus! {

/// Some of `n` places, in increasing order.
pub open spec fn picks(places: Seq<int>, n: int) -> bool {
    &&& forall|k: int| 0 <= k < places.len() ==> 0 <= #[trigger] places[k] < n
    &&& forall|j: int, k: int|
        #![trigger places[j], places[k]]
        0 <= j < k < places.len() ==> places[j] < places[k]
}

/// The sum of some numbers.
pub open spec fn sum_of(numbers: Seq<nat>) -> nat {
    numbers.fold_left(0nat, |sum: nat, n: nat| sum + n)
}

/// The bytes of a call's arguments and output in UTF-8.
pub open spec fn call_bytes(call: ToolCallView) -> nat {
    encode_utf8(call.arguments).len() + encode_utf8(call.output).len()
}

/// The bytes in UTF-8 of a turn's content, and of the arguments and outputs of its
/// calls.
pub open spec fn turn_bytes(turn: TurnView) -> nat {
    encode_utf8(turn.content).len() + sum_of(
        turn.tool_calls.map_values(|c: ToolCallView| call_bytes(c)),
    )
}

proof fn lemma_sum_push(numbers: Seq<nat>, n: nat)
    ensures
        sum_of(numbers.push(n)) == sum_of(numbers) + n,
{
    assert(numbers.push(n).drop_last() =~= numbers);
}

proof fn lemma_turn_bytes(turn: TurnView)
    ensures
        turn_bytes(turn) == turn_weight(turn),
{
    lemma_calls_bytes(turn.tool_calls);
}

proof fn lemma_calls_bytes(calls: Seq<ToolCallView>)
    ensures
        sum_of(calls.map_values(|c: ToolCallView| call_bytes(c))) == calls_weight(calls),
    decreases calls.len(),
{
    let each = |c: ToolCallView| call_bytes(c);
    if calls.len() > 0 {
        lemma_calls_bytes(calls.drop_last());
        lemma_sum_push(calls.drop_last().map_values(each), call_bytes(calls.last()));
        assert(calls.drop_last().map_values(each).push(call_bytes(calls.last()))
            =~= calls.map_values(each));
    }
}

/// The weight of a turn is the number of bytes of its content, and of the
/// arguments and outputs of its calls. Names do not count.
pub proof fn law_turn_weight_counts_bytes(turn: TurnView)
    ensures
        turn_weight(turn) == turn_bytes(turn),
{
    lemma_turn_bytes(turn);
}

// Duplicates

/// All calls of some turns, one after the other.
pub open spec fn all_calls(turns: Seq<TurnView>) -> Seq<ToolCallView> {
    turns.map_values(|t: TurnView| t.tool_calls).flatten()
}

/// How often the call at a place of a turn stands before it, in earlier turns or
/// in its own: with the same name, arguments and output.
pub open spec fn times_before(turns: Seq<TurnView>, i: int, p: int) -> nat {
    (all_calls(turns.take(i)) + turns[i].tool_calls.take(p)).to_multiset().count(
        turns[i].tool_calls[p],
    )
}

/// The bytes of the calls that stand before already.
pub open spec fn bytes_of_duplicates(turns: Seq<TurnView>) -> nat {
    let calls = all_calls(turns);
    sum_of(
        Seq::new(
            calls.len(),
            |j: int|
                if calls.take(j).contains(calls[j]) {
                    call_bytes(calls[j])
                } else {
                    0
                },
        ),
    )
}

proof fn lemma_all_calls(turns: Seq<TurnView>)
    ensures
        all_calls(turns) == calls_of(turns),
    decreases turns.len(),
{
    let each = |t: TurnView| t.tool_calls;
    if turns.len() > 0 {
        lemma_all_calls(turns.drop_last());
        turns.drop_last().map_values(each).lemma_flatten_push(turns.last().tool_calls);
        assert(turns.drop_last().map_values(each).push(turns.last().tool_calls)
            =~= turns.map_values(each));
    } else {
        assert(turns.map_values(each) =~= Seq::empty());
    }
}

proof fn lemma_count(calls: Seq<ToolCallView>, call: ToolCallView)
    ensures
        calls.to_multiset().count(call) == occurrences(calls, call),
    decreases calls.len(),
{
    calls.to_multiset_ensures();
    if calls.len() > 0 {
        let rest = calls.drop_last();
        lemma_count(rest, call);
        rest.to_multiset_ensures();
        assert(rest.push(calls.last()) =~= calls);
        assert(calls.to_multiset() =~= rest.to_multiset().insert(calls.last()));
    } else {
        assert(!calls.contains(call));
    }
}

proof fn lemma_kept_calls(earlier: Seq<ToolCallView>, calls: Seq<ToolCallView>) -> (places: Seq<
    int,
>)
    ensures
        picks(places, calls.len() as int),
        places.len() == dedup_calls(earlier, calls).len(),
        forall|p: int|
            0 <= p < calls.len() ==> (#[trigger] places.contains(p) <==> occurrences(
                earlier + calls.take(p),
                calls[p],
            ) < 2),
        forall|k: int|
            0 <= k < places.len() ==> {
                let call = calls[#[trigger] places[k]];
                let kept = dedup_calls(earlier, calls)[k];
                &&& kept.name == call.name
                &&& kept.arguments == call.arguments
                &&& kept.output == if occurrences(earlier + calls.take(places[k]), call) == 0 {
                    call.output
                } else {
                    "<duplicate output elided>"@
                }
            },
    decreases calls.len(),
{
    if calls.len() == 0 {
        Seq::empty()
    } else {
        let n = calls.len() - 1;
        let rest = calls.drop_last();
        let before = lemma_kept_calls(earlier, rest);
        assert(calls.take(n) =~= rest);
        let kept = kept_of(earlier + rest, calls.last());
        let places = if kept.len() > 0 {
            before.push(n)
        } else {
            before
        };
        assert forall|p: int| 0 <= p < calls.len() implies (#[trigger] places.contains(p)
            <==> occurrences(earlier + calls.take(p), calls[p]) < 2) by {
            if p < n {
                assert(rest.take(p) =~= calls.take(p));
                assert(before.contains(p) <==> occurrences(earlier + rest.take(p), rest[p]) < 2);
                if before.contains(p) {
                    let k = choose|k: int| 0 <= k < before.len() && before[k] == p;
                    assert(places[k] == p);
                }
                if places.contains(p) {
                    let k = choose|k: int| 0 <= k < places.len() && places[k] == p;
                    assert(before[k] == p);
                }
            } else {
                if kept.len() > 0 {
                    assert(places[before.len() as int] == n);
                }
                if before.contains(p) {
                    let k = choose|k: int| 0 <= k < before.len() && before[k] == p;
                    assert(0 <= before[k] < n);
                }
            }
        }
        assert forall|k: int| 0 <= k < places.len() implies {
            let call = calls[#[trigger] places[k]];
            let kept = dedup_calls(earlier, calls)[k];
            &&& kept.name == call.name
            &&& kept.arguments == call.arguments
            &&& kept.output == if occurrences(earlier + calls.take(places[k]), call) == 0 {
                call.output
            } else {
                "<duplicate output elided>"@
            }
        } by {
            if k < before.len() {
                assert(0 <= before[k] < n);
                assert(rest.take(before[k]) =~= calls.take(before[k]));
            }
        }
        places
    }
}

/// The removal of duplicates changes nothing of a session but the calls of its
/// turns. Of the calls of a turn those stay, in order, that stand before once at
/// most, in this turn or an earlier one. A call keeps its name and its arguments;
/// it keeps its output where it stands for the first time, and for the second time
/// a note takes the place of the output.
pub proof fn law_dedup_outcome(
    strategy: DeduplicateToolOutputs,
    before: SessionView,
    after: SessionView,
    metrics: CompactionMetrics,
    i: int,
) -> (places: Seq<int>)
    requires
        strategy.compacts(before, after, metrics),
        0 <= i < before.turns.len(),
    ensures
        after.id == before.id,
        after.created_at == before.created_at,
        after.last_compacted_at == before.last_compacted_at,
        after.turns.len() == before.turns.len(),
        after.turns[i].id == before.turns[i].id,
        after.turns[i].role == before.turns[i].role,
        after.turns[i].content == before.turns[i].content,
        after.turns[i].created_at == before.turns[i].created_at,
        after.turns[i].input_tokens == before.turns[i].input_tokens,
        after.turns[i].output_tokens == before.turns[i].output_tokens,
        picks(places, before.turns[i].tool_calls.len() as int),
        places.len() == after.turns[i].tool_calls.len(),
        forall|p: int|
            0 <= p < before.turns[i].tool_calls.len() ==> (#[trigger] places.contains(p)
                <==> times_before(before.turns, i, p) < 2),
        forall|k: int|
            0 <= k < places.len() ==> {
                let call = before.turns[i].tool_calls[#[trigger] places[k]];
                let kept = after.turns[i].tool_calls[k];
                &&& kept.name == call.name
                &&& kept.arguments == call.arguments
                &&& kept.output == if times_before(before.turns, i, places[k]) == 0 {
                    call.output
                } else {
                    "<duplicate output elided>"@
                }
            },
{
    let calls = before.turns[i].tool_calls;
    let earlier = calls_of(before.turns.take(i));
    lemma_all_calls(before.turns.take(i));
    let places = lemma_kept_calls(earlier, calls);
    assert forall|p: int| 0 <= p < calls.len() implies #[trigger] times_before(before.turns, i, p)
        == occurrences(earlier + calls.take(p), calls[p]) by {
        lemma_count(earlier + calls.take(p), calls[p]);
    }
    assert forall|p: int| 0 <= p < calls.len() implies (#[trigger] places.contains(p)
        <==> times_before(before.turns, i, p) < 2) by {
        assert(times_before(before.turns, i, p) == occurrences(earlier + calls.take(p), calls[p]));
    }
    assert forall|k: int| 0 <= k < places.len() implies {
        let call = calls[#[trigger] places[k]];
        let kept = after.turns[i].tool_calls[k];
        &&& kept.name == call.name
        &&& kept.arguments == call.arguments
        &&& kept.output == if times_before(before.turns, i, places[k]) == 0 {
            call.output
        } else {
            "<duplicate output elided>"@
        }
    } by {
        let p = places[k];
        assert(times_before(before.turns, i, p) == occurrences(earlier + calls.take(p), calls[p]));
    }
    places
}

proof fn lemma_duplicates_counted(calls: Seq<ToolCallView>)
    ensures
        duplicates(calls) + calls.to_set().len() == calls.len(),
        calls.to_set().finite(),
    decreases calls.len(),
{
    vstd::seq_lib::seq_to_set_is_finite(calls);
    if calls.len() > 0 {
        let rest = calls.drop_last();
        lemma_duplicates_counted(rest);
        rest.lemma_push_to_set_commute(calls.last());
        assert(rest.push(calls.last()) =~= calls);
        lemma_contains(rest, calls.last());
    } else {
        assert(calls.to_set() =~= Set::empty());
    }
}

proof fn lemma_contains(calls: Seq<ToolCallView>, call: ToolCallView)
    ensures
        is_duplicate(calls, call) <==> calls.contains(call),
{
    lemma_count(calls, call);
    calls.to_multiset_ensures();
}

spec fn duplicate_sizes(calls: Seq<ToolCallView>) -> Seq<nat> {
    Seq::new(
        calls.len(),
        |j: int|
            if calls.take(j).contains(calls[j]) {
                call_bytes(calls[j])
            } else {
                0
            },
    )
}

proof fn lemma_duplicate_bytes(calls: Seq<ToolCallView>)
    ensures
        sum_of(duplicate_sizes(calls)) == duplicate_bytes(calls),
    decreases calls.len(),
{
    if calls.len() > 0 {
        let rest = calls.drop_last();
        let n = rest.len() as int;
        lemma_duplicate_bytes(rest);
        assert forall|j: int| 0 <= j < n implies duplicate_sizes(calls)[j] == duplicate_sizes(
            rest,
        )[j] by {
            assert(rest.take(j) =~= calls.take(j));
        }
        assert(calls.take(n) =~= rest);
        lemma_contains(rest, calls.last());
        lemma_sum_push(duplicate_sizes(rest), duplicate_sizes(calls)[n]);
        assert(duplicate_sizes(rest).push(duplicate_sizes(calls)[n]) =~= duplicate_sizes(calls));
    }
}

proof fn lemma_dedup_numbers(turns: Seq<TurnView>)
    ensures
        duplicates(calls_of(turns)) + all_calls(turns).to_set().len() == all_calls(turns).len(),
        duplicate_bytes(calls_of(turns)) == bytes_of_duplicates(turns),
{
    lemma_all_calls(turns);
    lemma_duplicates_counted(calls_of(turns));
    lemma_duplicate_bytes(calls_of(turns));
    assert(bytes_of_duplicates(turns) == sum_of(duplicate_sizes(all_calls(turns))));
}

/// The removal of duplicates counts every call but one of each kind, and the bytes
/// of each call that it counts. It counts no other work.
pub proof fn law_dedup_counts(
    strategy: DeduplicateToolOutputs,
    before: SessionView,
    after: SessionView,
    metrics: CompactionMetrics,
)
    requires
        strategy.compacts(before, after, metrics),
    ensures
        metrics.duplicates_removed + all_calls(before.turns).to_set().len() == all_calls(
            before.turns,
        ).len(),
        metrics.token_bytes_saved == bytes_of_duplicates(before.turns),
        metrics.turns_remaining == before.turns.len(),
        metrics.continuation_turns_collapsed == 0,
        metrics.turns_archived == 0,
{
    lemma_dedup_numbers(before.turns);
}

/// A session whose calls and bytes can be counted can be rid of duplicates.
pub proof fn law_dedup_applies(strategy: DeduplicateToolOutputs, before: SessionView)
    ensures
        strategy.applies_to(before) <==> {
            &&& all_calls(before.turns).len() - all_calls(before.turns).to_set().len()
                <= usize::MAX
            &&& bytes_of_duplicates(before.turns) <= usize::MAX
        },
{
    lemma_dedup_numbers(before.turns);
}

// Repetitions

/// A content that only asks to go on: one of seven phrases and no more, in any case
/// and with white space around.
pub open spec fn asks_to_go_on(content: Seq<char>) -> bool {
    let phrase = lowercase(trimmed(content));
    ||| phrase == "continue"@
    ||| phrase == "go on"@
    ||| phrase == "proceed"@
    ||| phrase == "keep going"@
    ||| phrase == "next"@
    ||| phrase == "please continue"@
    ||| phrase == "carry on"@
}

/// A content is a continuation marker exactly if it is, but for capital letters and
/// the white space around it, one of the phrases `continue`, `go on`, `proceed`,
/// `keep going`, `next`, `please continue` and `carry on`.
pub proof fn law_marker_phrases(content: Seq<char>)
    ensures
        is_continuation(content) <==> {
            let phrase = lowercase(trimmed(content));
            ||| phrase == seq!['c', 'o', 'n', 't', 'i', 'n', 'u', 'e']
            ||| phrase == seq!['g', 'o', ' ', 'o', 'n']
            ||| phrase == seq!['p', 'r', 'o', 'c', 'e', 'e', 'd']
            ||| phrase == seq!['k', 'e', 'e', 'p', ' ', 'g', 'o', 'i', 'n', 'g']
            ||| phrase == seq!['n', 'e', 'x', 't']
            ||| phrase == seq!['p', 'l', 'e', 'a', 's', 'e', ' '] + seq![
                'c',
                'o',
                'n',
                't',
                'i',
                'n',
                'u',
                'e',
            ]
            ||| phrase == seq!['c', 'a', 'r', 'r', 'y', ' ', 'o', 'n']
        },
        is_continuation(content) ==> 4 <= trimmed(content).len() <= 15,
        is_continuation(content) <==> asks_to_go_on(content),
{
    reveal_strlit("continue");
    reveal_strlit("go on");
    reveal_strlit("proceed");
    reveal_strlit("keep going");
    reveal_strlit("next");
    reveal_strlit("please continue");
    reveal_strlit("carry on");
    assert("continue"@ =~= seq!['c', 'o', 'n', 't', 'i', 'n', 'u', 'e']);
    assert("go on"@ =~= seq!['g', 'o', ' ', 'o', 'n']);
    assert("proceed"@ =~= seq!['p', 'r', 'o', 'c', 'e', 'e', 'd']);
    assert("keep going"@ =~= seq!['k', 'e', 'e', 'p', ' ', 'g', 'o', 'i', 'n', 'g']);
    assert("next"@ =~= seq!['n', 'e', 'x', 't']);
    assert("please continue"@ =~= seq!['p', 'l', 'e', 'a', 's', 'e', ' '] + seq![
        'c',
        'o',
        'n',
        't',
        'i',
        'n',
        'u',
        'e',
    ]);
    assert("carry on"@ =~= seq!['c', 'a', 'r', 'r', 'y', ' ', 'o', 'n']);
    assert(lowercase(trimmed(content)).len() == trimmed(content).len());
}

proof fn lemma_picks_push(before: Seq<int>, n: int)
    requires
        0 <= n,
        picks(before, n),
    ensures
        picks(before, n + 1),
        picks(before.push(n), n + 1),
        !before.contains(n),
        before.push(n).contains(n),
        forall|i: int| i != n ==> (#[trigger] before.push(n).contains(i) <==> before.contains(i)),
{
    let after = before.push(n);
    assert(after[before.len() as int] == n);
    assert forall|i: int| i != n implies (#[trigger] after.contains(i) <==> before.contains(i)) by {
        if before.contains(i) {
            let k = choose|k: int| 0 <= k < before.len() && before[k] == i;
            assert(after[k] == i);
        }
        if after.contains(i) {
            let k = choose|k: int| 0 <= k < after.len() && after[k] == i;
            assert(before[k] == i);
        }
    }
    if before.contains(n) {
        let k = choose|k: int| 0 <= k < before.len() && before[k] == n;
        assert(before[k] < n);
    }
}

proof fn lemma_collapsed_places(turns: Seq<TurnView>) -> (places: Seq<int>)
    ensures
        picks(places, turns.len() as int),
        places.len() == collapse_turns(turns).len(),
        forall|i: int|
            0 <= i < turns.len() ==> (#[trigger] places.contains(i) <==> !repeats_previous(
                turns,
                i,
            )),
        forall|k: int|
            0 <= k < places.len() ==> collapse_turns(turns)[k] == turns[#[trigger] places[k]],
    decreases turns.len(),
{
    if turns.len() == 0 {
        Seq::empty()
    } else {
        let n = turns.len() - 1;
        let rest = turns.drop_last();
        let before = lemma_collapsed_places(rest);
        lemma_picks_push(before, n);
        let places = if repeats_previous(turns, n) {
            before
        } else {
            before.push(n)
        };
        assert forall|i: int| 0 <= i < turns.len() implies (#[trigger] places.contains(i)
            <==> !repeats_previous(turns, i)) by {
            if i < n {
                assert(before.contains(i) <==> !repeats_previous(rest, i));
                assert(repeats_previous(rest, i) == repeats_previous(turns, i));
            }
        }
        assert forall|k: int| 0 <= k < places.len() implies collapse_turns(turns)[k]
            == turns[#[trigger] places[k]] by {
            if k < before.len() {
                assert(before[k] < n);
            }
        }
        places
    }
}

/// The collapsing changes nothing of a session but which turns it has. A turn goes
/// exactly if it only asks to go on and comes right after a turn of the same role
/// that only asks to go on. The others stay as they are, in order.
pub proof fn law_collapse_outcome(
    strategy: CollapseContinuations,
    before: SessionView,
    after: SessionView,
    metrics: CompactionMetrics,
) -> (places: Seq<int>)
    requires
        strategy.compacts(before, after, metrics),
    ensures
        after.id == before.id,
        after.created_at == before.created_at,
        after.last_compacted_at == before.last_compacted_at,
        picks(places, before.turns.len() as int),
        places.len() == after.turns.len(),
        forall|k: int|
            0 <= k < places.len() ==> after.turns[k] == before.turns[#[trigger] places[k]],
        forall|i: int|
            0 <= i < before.turns.len() ==> (#[trigger] places.contains(i) <==> !(i > 0
                && asks_to_go_on(before.turns[i].content) && asks_to_go_on(
                before.turns[i - 1].content,
            ) && before.turns[i].role == before.turns[i - 1].role)),
        metrics.continuation_turns_collapsed == before.turns.len() - after.turns.len(),
        metrics.token_bytes_saved == 8 * (before.turns.len() - after.turns.len()),
        metrics.turns_remaining == after.turns.len(),
        metrics.duplicates_removed == 0,
        metrics.turns_archived == 0,
{
    let turns = before.turns;
    let places = lemma_collapsed_places(turns);
    lemma_collapse_counts(turns);
    assert forall|i: int| 0 <= i < turns.len() implies (#[trigger] places.contains(i) <==> !(i > 0
        && asks_to_go_on(turns[i].content) && asks_to_go_on(turns[i - 1].content) && turns[i].role
        == turns[i - 1].role)) by {
        law_marker_phrases(turns[i].content);
        if i > 0 {
            law_marker_phrases(turns[i - 1].content);
        }
    }
    places
}

/// A session can be collapsed where the bytes that go can be counted.
pub proof fn law_collapse_applies(strategy: CollapseContinuations, before: SessionView)
    ensures
        strategy.applies_to(before) <==> 8 * (before.turns.len() - collapse_turns(
            before.turns,
        ).len()) <= usize::MAX,
{
    lemma_collapse_counts(before.turns);
}

// Archiving

/// The moment comes before the other: in an earlier second, or earlier in the same.
pub open spec fn is_earlier(moment: Timestamp, other: Timestamp) -> bool {
    moment.secs < other.secs || (moment.secs == other.secs && moment.nanos < other.nanos)
}

/// The moment lies more than `hours` hours before `now`.
pub open spec fn is_older(moment: Timestamp, now: Timestamp, hours: u64) -> bool {
    let oldest = now.secs - 3600 * hours;
    moment.secs < oldest || (moment.secs == oldest && moment.nanos < now.nanos)
}

/// `after` is what archiving leaves of `before`: a turn goes exactly if at least
/// `max_live` turns come after it and it is old. `places` says which turns stay;
/// they stay as they are, in order.
pub open spec fn leaves_live(
    before: Seq<TurnView>,
    after: Seq<TurnView>,
    max_live: usize,
    is_old: spec_fn(Timestamp) -> bool,
    places: Seq<int>,
) -> bool {
    &&& picks(places, before.len() as int)
    &&& places.len() == after.len()
    &&& forall|k: int| 0 <= k < places.len() ==> after[k] == before[#[trigger] places[k]]
    &&& forall|i: int|
        0 <= i < before.len() ==> (#[trigger] places.contains(i) <==> i + max_live >= before.len()
            || !is_old(before[i].created_at))
}

/// The bytes of the turns that are old and have at least `max_live` turns after
/// them.
pub open spec fn bytes_of_old(
    turns: Seq<TurnView>,
    max_live: usize,
    is_old: spec_fn(Timestamp) -> bool,
) -> nat {
    sum_of(
        Seq::new(
            turns.len(),
            |i: int|
                if i + max_live < turns.len() && is_old(turns[i].created_at) {
                    turn_bytes(turns[i])
                } else {
                    0
                },
        ),
    )
}

proof fn lemma_filter_picks(turns: Seq<TurnView>, keep: spec_fn(TurnView) -> bool) -> (places: Seq<
    int,
>)
    ensures
        picks(places, turns.len() as int),
        places.len() == turns.filter(keep).len(),
        forall|i: int| 0 <= i < turns.len() ==> (#[trigger] places.contains(i) <==> keep(turns[i])),
        forall|k: int|
            0 <= k < places.len() ==> turns.filter(keep)[k] == turns[#[trigger] places[k]],
    decreases turns.len(),
{
    reveal(Seq::filter);
    if turns.len() == 0 {
        Seq::empty()
    } else {
        let n = turns.len() - 1;
        let rest = turns.drop_last();
        let before = lemma_filter_picks(rest, keep);
        lemma_picks_push(before, n);
        let places = if keep(turns[n]) {
            before.push(n)
        } else {
            before
        };
        assert forall|i: int| 0 <= i < turns.len() implies (#[trigger] places.contains(i) <==> keep(
            turns[i],
        )) by {
            if i < n {
                assert(before.contains(i) <==> keep(rest[i]));
            }
        }
        assert forall|k: int| 0 <= k < places.len() implies turns.filter(keep)[k]
            == turns[#[trigger] places[k]] by {
            if k < before.len() {
                assert(before[k] < n);
            }
        }
        places
    }
}

proof fn lemma_picks_range(before: Seq<int>, n: int, m: int) -> (places: Seq<int>)
    requires
        0 <= n <= m,
        picks(before, n),
    ensures
        picks(places, m),
        places == before + Seq::new((m - n) as nat, |k: int| n + k),
        forall|i: int| 0 <= i < n ==> (#[trigger] places.contains(i) <==> before.contains(i)),
        forall|i: int| n <= i < m ==> #[trigger] places.contains(i),
{
    let places = before + Seq::new((m - n) as nat, |k: int| n + k);
    assert forall|k: int| 0 <= k < places.len() implies 0 <= #[trigger] places[k] < m by {
        if k < before.len() {
            assert(places[k] == before[k]);
        }
    }
    assert forall|j: int, k: int|
        #![trigger places[j], places[k]]
        0 <= j < k < places.len() implies places[j] < places[k] by {
        if j < before.len() {
            assert(places[j] == before[j]);
        }
        if k < before.len() {
            assert(places[k] == before[k]);
        }
    }
    assert forall|i: int| 0 <= i < n implies (#[trigger] places.contains(i) <==> before.contains(
        i,
    )) by {
        if before.contains(i) {
            let k = choose|k: int| 0 <= k < before.len() && before[k] == i;
            assert(places[k] == i);
        }
        if places.contains(i) {
            let k = choose|k: int| 0 <= k < places.len() && places[k] == i;
            assert(before[k] == i);
        }
    }
    assert forall|i: int| n <= i < m implies #[trigger] places.contains(i) by {
        assert(places[before.len() + (i - n)] == i);
    }
    places
}

/// Archiving with a cutoff leaves exactly the turns that were not created before
/// the cutoff, and the latest `max_live` turns, as they are and in order.
pub proof fn law_archive_leaves_live(
    turns: Seq<TurnView>,
    max_live: usize,
    cutoff: Timestamp,
) -> (places: Seq<int>)
    ensures
        leaves_live(
            turns,
            live_turns(turns, max_live, cutoff),
            max_live,
            |t: Timestamp| is_earlier(t, cutoff),
            places,
        ),
{
    let is_new = |t: TurnView| !t.created_at.is_before(cutoff);
    let live = live_turns(turns, max_live, cutoff);
    let all = candidates(turns, max_live);
    let count = if turns.len() > max_live {
        turns.len() - max_live
    } else {
        0
    };
    let first = lemma_filter_picks(all, is_new);
    let places = lemma_picks_range(first, count, turns.len() as int);
    assert forall|k: int| 0 <= k < places.len() implies live[k] == turns[#[trigger] places[k]] by {
        if k < first.len() {
            assert(places[k] == first[k]);
            assert(all[first[k]] == turns[first[k]]);
        } else {
            assert(live[k] == protected(turns, max_live)[k - first.len()]);
        }
    }
    assert forall|i: int| 0 <= i < turns.len() implies (#[trigger] places.contains(i) <==> i
        + max_live >= turns.len() || !is_earlier(turns[i].created_at, cutoff)) by {
        if i < count {
            assert(all[i] == turns[i]);
            assert(first.contains(i) <==> is_new(all[i]));
        }
    }
    places
}

spec fn old_sizes(turns: Seq<TurnView>, is_old: spec_fn(TurnView) -> bool) -> Seq<nat> {
    Seq::new(
        turns.len(),
        |i: int|
            if is_old(turns[i]) {
                turn_bytes(turns[i])
            } else {
                0
            },
    )
}

proof fn lemma_old_bytes(turns: Seq<TurnView>, is_old: spec_fn(TurnView) -> bool)
    ensures
        turns_weight(turns.filter(is_old)) == sum_of(old_sizes(turns, is_old)),
    decreases turns.len(),
{
    reveal(Seq::filter);
    if turns.len() > 0 {
        let rest = turns.drop_last();
        let n = rest.len() as int;
        lemma_old_bytes(rest, is_old);
        lemma_turn_bytes(turns.last());
        lemma_sum_push(old_sizes(rest, is_old), old_sizes(turns, is_old)[n]);
        assert(old_sizes(rest, is_old).push(old_sizes(turns, is_old)[n]) =~= old_sizes(
            turns,
            is_old,
        ));
        let kept = rest.filter(is_old);
        if is_old(turns.last()) {
            assert(kept.push(turns.last()).drop_last() =~= kept);
        }
    }
}

proof fn lemma_sum_zeros(numbers: Seq<nat>, n: int)
    requires
        0 <= n <= numbers.len(),
        forall|i: int| n <= i < numbers.len() ==> #[trigger] numbers[i] == 0,
    ensures
        sum_of(numbers) == sum_of(numbers.take(n)),
    decreases numbers.len(),
{
    if n < numbers.len() {
        lemma_sum_zeros(numbers.drop_last(), n);
        assert(numbers.drop_last().take(n) =~= numbers.take(n));
        assert(numbers[numbers.len() - 1] == 0);
    } else {
        assert(numbers.take(n) =~= numbers);
    }
}

/// The turns that go when turns are archived with a cutoff are the old ones with
/// at least `max_live` turns after them, and their bytes are counted.
pub proof fn law_archive_counts_bytes(turns: Seq<TurnView>, max_live: usize, cutoff: Timestamp)
    ensures
        archived_turns(turns, max_live, cutoff).len() == turns.len() - live_turns(
            turns,
            max_live,
            cutoff,
        ).len(),
        turns_weight(archived_turns(turns, max_live, cutoff)) == bytes_of_old(
            turns,
            max_live,
            |t: Timestamp| is_earlier(t, cutoff),
        ),
{
    let is_old = |t: TurnView| t.created_at.is_before(cutoff);
    let all = candidates(turns, max_live);
    let sizes = Seq::new(
        turns.len(),
        |i: int|
            if i + max_live < turns.len() && is_earlier(turns[i].created_at, cutoff) {
                turn_bytes(turns[i])
            } else {
                0
            },
    );
    lemma_filter_split(all, cutoff);
    lemma_old_bytes(all, is_old);
    lemma_sum_zeros(sizes, all.len() as int);
    assert(sizes.take(all.len() as int) =~= old_sizes(all, is_old));
    assert(sizes =~= Seq::new(
        turns.len(),
        |i: int|
            if i + max_live < turns.len() && (|t: Timestamp| is_earlier(t, cutoff))(
                turns[i].created_at,
            ) {
                turn_bytes(turns[i])
            } else {
                0
            },
    ));
}

/// Where all turns were created before the cutoff, the latest `max_live` stay, or
/// all if there are fewer, and no others.
pub proof fn law_archive_of_old_turns(turns: Seq<TurnView>, max_live: usize, cutoff: Timestamp)
    requires
        forall|i: int|
            0 <= i < turns.len() ==> is_earlier((#[trigger] turns[i]).created_at, cutoff),
    ensures
        live_turns(turns, max_live, cutoff) == if turns.len() > max_live {
            turns.skip(turns.len() - max_live)
        } else {
            turns
        },
{
    let is_new = |t: TurnView| !t.created_at.is_before(cutoff);
    let all = candidates(turns, max_live);
    let places = lemma_filter_picks(all, is_new);
    if places.len() > 0 {
        assert(places.contains(places[0]));
        assert(turns[places[0]] == all[places[0]]);
    }
    assert(all.filter(is_new) =~= Seq::empty());
    assert(live_turns(turns, max_live, cutoff) =~= protected(turns, max_live));
    assert(protected(turns, max_live) =~= if turns.len() > max_live {
        turns.skip(turns.len() - max_live)
    } else {
        turns
    });
}

proof fn lemma_cutoff_is_older(moment: Timestamp, now: Timestamp, hours: u64)
    requires
        now.is_clock_reading(),
        moment.wf(),
    ensures
        is_earlier(moment, cutoff_of(now, hours)) <==> is_older(moment, now, hours),
{
}

proof fn lemma_sums_equal(
    turns: Seq<TurnView>,
    max_live: usize,
    first: spec_fn(Timestamp) -> bool,
    second: spec_fn(Timestamp) -> bool,
)
    requires
        forall|i: int|
            0 <= i < turns.len() ==> first((#[trigger] turns[i]).created_at) == second(
                turns[i].created_at,
            ),
    ensures
        bytes_of_old(turns, max_live, first) == bytes_of_old(turns, max_live, second),
{
    let sizes = |is_old: spec_fn(Timestamp) -> bool|
        Seq::new(
            turns.len(),
            |i: int|
                if i + max_live < turns.len() && is_old(turns[i].created_at) {
                    turn_bytes(turns[i])
                } else {
                    0nat
                },
        );
    assert(sizes(first) =~= sizes(second));
}

/// The archiving changes nothing of a session but which turns it has. For a moment
/// that the clock showed, a turn goes exactly if at least `max_live` turns come
/// after it and it is older than `age_hours` hours.
pub proof fn law_archive_outcome(
    strategy: ArchiveOldTurns,
    before: SessionView,
    after: SessionView,
    metrics: CompactionMetrics,
) -> (witness: (Timestamp, Seq<int>))
    requires
        strategy.compacts(before, after, metrics),
        forall|i: int| 0 <= i < before.turns.len() ==> (#[trigger] before.turns[i]).created_at.wf(),
    ensures
        after.id == before.id,
        after.created_at == before.created_at,
        after.last_compacted_at == before.last_compacted_at,
        witness.0.is_clock_reading(),
        leaves_live(
            before.turns,
            after.turns,
            strategy.max_live,
            |t: Timestamp| is_older(t, witness.0, strategy.age_hours),
            witness.1,
        ),
        metrics.turns_archived == before.turns.len() - after.turns.len(),
        metrics.token_bytes_saved == bytes_of_old(
            before.turns,
            strategy.max_live,
            |t: Timestamp| is_older(t, witness.0, strategy.age_hours),
        ),
        metrics.turns_remaining == after.turns.len(),
        metrics.duplicates_removed == 0,
        metrics.continuation_turns_collapsed == 0,
{
    let now = choose|now: Timestamp|
        {
            let cutoff = #[trigger] cutoff_of(now, strategy.age_hours);
            &&& now.is_clock_reading()
            &&& after == (SessionView {
                turns: live_turns(before.turns, strategy.max_live, cutoff),
                ..before
            })
            &&& is_archive_report(
                before.turns,
                strategy.max_live,
                cutoff,
                metrics,
            )
        };
    let cutoff = cutoff_of(now, strategy.age_hours);
    let places = law_archive_leaves_live(before.turns, strategy.max_live, cutoff);
    law_archive_counts_bytes(before.turns, strategy.max_live, cutoff);
    assert forall|i: int| 0 <= i < before.turns.len() implies is_earlier(
        (#[trigger] before.turns[i]).created_at,
        cutoff,
    ) == is_older(before.turns[i].created_at, now, strategy.age_hours) by {
        lemma_cutoff_is_older(before.turns[i].created_at, now, strategy.age_hours);
    }
    lemma_sums_equal(
        before.turns,
        strategy.max_live,
        |t: Timestamp| is_earlier(t, cutoff),
        |t: Timestamp| is_older(t, now, strategy.age_hours),
    );
    (now, places)
}

/// The archiver can be used on a session where the bytes of all turns but the
/// latest `max_live` can be counted.
pub proof fn law_archive_applies(strategy: ArchiveOldTurns, before: SessionView)
    ensures
        strategy.applies_to(before) <==> bytes_of_old(
            before.turns,
            strategy.max_live,
            |t: Timestamp| true,
        ) <= usize::MAX,
{
    let turns = before.turns;
    let all = candidates(turns, strategy.max_live);
    let every = |t: TurnView| true;
    let sizes = Seq::new(
        turns.len(),
        |i: int|
            if i + strategy.max_live < turns.len() && (|t: Timestamp| true)(turns[i].created_at) {
                turn_bytes(turns[i])
            } else {
                0nat
            },
    );
    lemma_old_bytes(all, every);
    let places = lemma_filter_picks(all, every);
    lemma_all_picked(places, all.len() as int);
    assert forall|k: int| 0 <= k < all.len() implies all.filter(every)[k] == all[k] by {
        assert(places[k] == k);
    }
    assert(all.filter(every) =~= all);
    lemma_sum_zeros(sizes, all.len() as int);
    assert(sizes.take(all.len() as int) =~= old_sizes(all, every));
}

proof fn lemma_all_picked(places: Seq<int>, n: int)
    requires
        0 <= n,
        picks(places, n),
        forall|i: int| 0 <= i < n ==> #[trigger] places.contains(i),
    ensures
        places.len() == n,
        forall|k: int| 0 <= k < n ==> #[trigger] places[k] == k,
    decreases n,
{
    if n == 0 {
        if places.len() > 0 {
            assert(0 <= places[0] < n);
        }
    } else {
        assert(places.contains(n - 1));
        let last = choose|k: int| 0 <= k < places.len() && places[k] == n - 1;
        if last < places.len() - 1 {
            assert(places[last] < places[places.len() - 1]);
        }
        let rest = places.drop_last();
        assert forall|k: int| 0 <= k < rest.len() implies 0 <= #[trigger] rest[k] < n - 1 by {
            assert(rest[k] == places[k]);
            assert(places[k] < places[last]);
        }
        assert(picks(rest, n - 1));
        assert forall|i: int| 0 <= i < n - 1 implies #[trigger] rest.contains(i) by {
            assert(places.contains(i));
            let k = choose|k: int| 0 <= k < places.len() && places[k] == i;
            assert(rest[k] == i);
        }
        lemma_all_picked(rest, n - 1);
        assert forall|k: int| 0 <= k < n implies #[trigger] places[k] == k by {
            if k < n - 1 {
                assert(rest[k] == k);
            }
        }
    }
}

// Compaction as a whole

/// What comes between the steps of a compaction: the session without duplicates,
/// the session without repetitions as well, what the two steps report, and the
/// places of the turns that are not archived then.
pub ghost struct Steps {
    pub clean: SessionView,
    pub reduced: SessionView,
    pub dedup: CompactionMetrics,
    pub collapse: CompactionMetrics,
    pub places: Seq<int>,
}

/// A compaction takes these steps: it removes the duplicates, collapses the
/// repetitions and archives what is old of the rest, in this order. It reports what
/// the steps report, the bytes of all three together, and the turns that are left.
pub open spec fn takes_steps(
    before: SessionView,
    after: SessionView,
    max_turns: usize,
    is_old: spec_fn(Timestamp) -> bool,
    metrics: CompactionMetrics,
    steps: Steps,
) -> bool {
    &&& DeduplicateToolOutputs.compacts(before, steps.clean, steps.dedup)
    &&& CollapseContinuations.compacts(steps.clean, steps.reduced, steps.collapse)
    &&& leaves_live(steps.reduced.turns, after.turns, max_turns, is_old, steps.places)
    &&& metrics.duplicates_removed == steps.dedup.duplicates_removed
    &&& metrics.continuation_turns_collapsed == steps.collapse.continuation_turns_collapsed
    &&& metrics.turns_archived == steps.reduced.turns.len() - after.turns.len()
    &&& metrics.token_bytes_saved == steps.dedup.token_bytes_saved
        + steps.collapse.token_bytes_saved + bytes_of_old(steps.reduced.turns, max_turns, is_old)
    &&& metrics.turns_remaining == after.turns.len()
}

/// A compaction with a cutoff takes its steps in order, keeps the identifier and
/// the moment of creation of the session, and marks it with the given moment.
pub proof fn law_compaction_steps(
    before: SessionView,
    max_turns: usize,
    cutoff: Timestamp,
    done_at: Timestamp,
    metrics: CompactionMetrics,
) -> (steps: Steps)
    requires
        before.turns.len() <= usize::MAX,
        is_compaction_report(before.turns, max_turns, cutoff, metrics),
    ensures
        takes_steps(
            before,
            compacted_session(before, max_turns, cutoff, done_at),
            max_turns,
            |t: Timestamp| is_earlier(t, cutoff),
            metrics,
            steps,
        ),
        ({
            let after = compacted_session(before, max_turns, cutoff, done_at);
            &&& after.id == before.id
            &&& after.created_at == before.created_at
            &&& after.last_compacted_at == Some(done_at)
        }),
{
    let clean = SessionView { turns: dedup_turns(before.turns), ..before };
    let reduced = SessionView { turns: collapse_turns(clean.turns), ..before };
    let repeated = repeated_turns(clean.turns);
    let dedup = CompactionMetrics {
        duplicates_removed: duplicates(calls_of(before.turns)) as usize,
        continuation_turns_collapsed: 0,
        turns_archived: 0,
        token_bytes_saved: duplicate_bytes(calls_of(before.turns)) as usize,
        turns_remaining: before.turns.len() as usize,
    };
    let collapse = CompactionMetrics {
        duplicates_removed: 0,
        continuation_turns_collapsed: repeated as usize,
        turns_archived: 0,
        token_bytes_saved: (8 * repeated) as usize,
        turns_remaining: reduced.turns.len() as usize,
    };
    lemma_collapse_counts(clean.turns);
    law_archive_counts_bytes(reduced.turns, max_turns, cutoff);
    let places = law_archive_leaves_live(reduced.turns, max_turns, cutoff);
    Steps { clean, reduced, dedup, collapse, places }
}

/// A compaction by the clock takes its steps in order: what it archives is older
/// than `archive_age_hours` hours by a moment that the clock showed.
pub proof fn law_compaction_now_steps(
    before: SessionView,
    after: SessionView,
    max_turns: usize,
    archive_age_hours: u64,
    result: CompactionResult,
) -> (witness: (Timestamp, Steps))
    requires
        before.turns.len() <= usize::MAX,
        is_compacted_now(before, after, max_turns, archive_age_hours, result),
        forall|i: int| 0 <= i < before.turns.len() ==> (#[trigger] before.turns[i]).created_at.wf(),
    ensures
        witness.0.is_clock_reading(),
        takes_steps(
            before,
            after,
            max_turns,
            |t: Timestamp| is_older(t, witness.0, archive_age_hours),
            result.metrics,
            witness.1,
        ),
        after.id == before.id,
        after.created_at == before.created_at,
        after.last_compacted_at matches Some(t) && t.is_clock_reading(),
        result.session_id@ == before.id,
        result.compacted_at.is_clock_reading(),
{
    let (now, done_at) = choose|now: Timestamp, done_at: Timestamp|
        {
            let cutoff = cutoff_of(now, archive_age_hours);
            &&& now.is_clock_reading()
            &&& done_at.is_clock_reading()
            &&& after == #[trigger] compacted_session(
                before,
                max_turns,
                cutoff_of(now, archive_age_hours),
                done_at,
            )
            &&& is_compaction_report(before.turns, max_turns, cutoff, result.metrics)
        };
    let cutoff = cutoff_of(now, archive_age_hours);
    let steps = law_compaction_steps(before, max_turns, cutoff, done_at, result.metrics);
    let turns = steps.reduced.turns;
    let kept = law_collapse_outcome(
        CollapseContinuations,
        steps.clean,
        steps.reduced,
        steps.collapse,
    );
    assert forall|i: int| 0 <= i < turns.len() implies is_earlier(
        (#[trigger] turns[i]).created_at,
        cutoff,
    ) == is_older(turns[i].created_at, now, archive_age_hours) by {
        let k = kept[i];
        assert(turns[i] == steps.clean.turns[k]);
        law_dedup_outcome(DeduplicateToolOutputs, before, steps.clean, steps.dedup, k);
        assert(before.turns[k].created_at.wf());
        lemma_cutoff_is_older(turns[i].created_at, now, archive_age_hours);
    }
    lemma_sums_equal(
        turns,
        max_turns,
        |t: Timestamp| is_earlier(t, cutoff),
        |t: Timestamp| is_older(t, now, archive_age_hours),
    );
    (now, steps)
}

/// The numbers of a compaction fit exactly if the duplicates and the bytes of the
/// three steps together can be counted.
pub proof fn law_compaction_fits(turns: Seq<TurnView>, max_turns: usize, cutoff: Timestamp)
    ensures
        compaction_fits_at(turns, max_turns, cutoff) <==> {
            &&& all_calls(turns).len() - all_calls(turns).to_set().len() <= usize::MAX
            &&& bytes_of_duplicates(turns) + 8 * (turns.len() - reduced_turns(turns).len())
                + bytes_of_old(
                reduced_turns(turns),
                max_turns,
                |t: Timestamp| is_earlier(t, cutoff),
            ) <= usize::MAX
        },
{
    lemma_dedup_numbers(turns);
    lemma_collapse_counts(dedup_turns(turns));
    law_archive_counts_bytes(reduced_turns(turns), max_turns, cutoff);
}

} // verus!
