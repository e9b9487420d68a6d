//! Removing the duplicates among the tool calls of a session.

use vstd::arithmetic::overflow::CheckedUsize;
use vstd::hash_map::StringHashMap;
use vstd::prelude::*;
use vstd::string::*;

use crate::model::{
    call_digest, call_views, call_weight, turn_views, Session, SessionView, ToolCall,
    ToolCallView, Turn, TurnView,
};
use crate::strategy::{no_metrics, CompactionError, CompactionMetrics, CompactionStrategy};
use crate::text::utf8_len;

verus! {

broadcast use vstd::string::group_string_axioms;

/// All tool calls of several turns, in order.
pub open spec fn calls_of(turns: Seq<TurnView>) -> Seq<ToolCallView>
    decreases turns.len(),
{
    if turns.len() == 0 {
        Seq::empty()
    } else {
        calls_of(turns.drop_last()) + turns.last().tool_calls
    }
}

/// How often a call occurs among some: with the same name, arguments and output.
pub open spec fn occurrences(calls: Seq<ToolCallView>, call: ToolCallView) -> nat
    decreases calls.len(),
{
    if calls.len() == 0 {
        0
    } else {
        occurrences(calls.drop_last(), call) + if calls.last() == call {
            1nat
        } else {
            0
        }
    }
}

/// A call after some others is a duplicate if it occurs among them.
pub open spec fn is_duplicate(earlier: Seq<ToolCallView>, call: ToolCallView) -> bool {
    occurrences(earlier, call) > 0
}

/// A call whose output was left out.
pub open spec fn elided(call: ToolCallView) -> ToolCallView {
    ToolCallView { output: "<duplicate output elided>"@, ..call }
}

/// What is kept of a call after some others: where it occurs for the first time
/// the call as it is, for the second time the call without its output, and
/// nothing of it later.
pub open spec fn kept_of(earlier: Seq<ToolCallView>, call: ToolCallView) -> Seq<ToolCallView> {
    let seen = occurrences(earlier, call);
    if seen == 0 {
        seq![call]
    } else if seen == 1 {
        seq![elided(call)]
    } else {
        Seq::empty()
    }
}

/// What is kept of some calls that come after others.
pub open spec fn dedup_calls(earlier: Seq<ToolCallView>, calls: Seq<ToolCallView>) -> Seq<
    ToolCallView,
>
    decreases calls.len(),
{
    if calls.len() == 0 {
        Seq::empty()
    } else {
        dedup_calls(earlier, calls.drop_last()) + kept_of(
            earlier + calls.drop_last(),
            calls.last(),
        )
    }
}

/// How many of some calls are duplicates of earlier ones among them.
pub open spec fn duplicates(calls: Seq<ToolCallView>) -> nat
    decreases calls.len(),
{
    if calls.len() == 0 {
        0
    } else {
        duplicates(calls.drop_last()) + if is_duplicate(calls.drop_last(), calls.last()) {
            1nat
        } else {
            0
        }
    }
}

/// The bytes of the calls that are duplicates of earlier ones.
pub open spec fn duplicate_bytes(calls: Seq<ToolCallView>) -> nat
    decreases calls.len(),
{
    if calls.len() == 0 {
        0
    } else {
        duplicate_bytes(calls.drop_last()) + if is_duplicate(calls.drop_last(), calls.last()) {
            call_weight(calls.last())
        } else {
            0
        }
    }
}

/// Turns without the duplicates among their calls. A call is judged by all
/// calls before it, those of earlier turns as well.
pub open spec fn dedup_turns(turns: Seq<TurnView>) -> Seq<TurnView> {
    Seq::new(
        turns.len(),
        |i: int|
            TurnView {
                tool_calls: dedup_calls(calls_of(turns.take(i)), turns[i].tool_calls),
                ..turns[i]
            },
    )
}

/// What the removal of duplicates reports.
pub open spec fn is_dedup_report(turns: Seq<TurnView>, metrics: CompactionMetrics) -> bool {
    &&& metrics.duplicates_removed == duplicates(calls_of(turns))
    &&& metrics.token_bytes_saved == duplicate_bytes(calls_of(turns))
    &&& metrics.turns_remaining == turns.len()
    &&& metrics == (CompactionMetrics {
        duplicates_removed: metrics.duplicates_removed,
        token_bytes_saved: metrics.token_bytes_saved,
        turns_remaining: metrics.turns_remaining,
        ..no_metrics()
    })
}

/// The numbers of a removal of duplicates fit.
pub open spec fn dedup_fits(turns: Seq<TurnView>) -> bool {
    &&& duplicates(calls_of(turns)) <= usize::MAX
    &&& duplicate_bytes(calls_of(turns)) <= usize::MAX
}

/// The calls that were seen, each once, with whether it was seen again. The
/// table gives, for a digest, the places of the calls that have it.
struct Seen {
    table: StringHashMap<Vec<usize>>,
    distinct: Vec<ToolCall>,
    again: Vec<bool>,
}

/// A call stands among some.
spec fn stands_among(distinct: Seq<ToolCall>, call: ToolCallView) -> bool {
    exists|i: int| 0 <= i < distinct.len() && (#[trigger] distinct[i])@ == call
}

impl Seen {
    /// No call is noted twice, and the table finds each.
    spec fn wf(self) -> bool {
        let distinct = self.distinct@;
        &&& self.again@.len() == distinct.len()
        &&& forall|i: int, j: int|
            #![trigger distinct[i], distinct[j]]
            0 <= i < j < distinct.len() ==> distinct[i]@ != distinct[j]@
        &&& forall|i: int|
            0 <= i < distinct.len() ==> {
                let digest = call_digest((#[trigger] distinct[i])@);
                &&& self.table@.contains_key(digest)
                &&& self.table@[digest]@.contains(i as usize)
            }
        &&& forall|digest: Seq<char>, j: int|
            #![trigger self.table@[digest]@[j]]
            self.table@.contains_key(digest) && 0 <= j < self.table@[digest]@.len()
                ==> self.table@[digest]@[j] < distinct.len()
    }

    /// What is noted are the given calls.
    spec fn notes(self, calls: Seq<ToolCallView>) -> bool {
        let distinct = self.distinct@;
        &&& self.wf()
        &&& forall|i: int|
            0 <= i < distinct.len() ==> {
                let seen = occurrences(calls, (#[trigger] distinct[i])@);
                &&& seen > 0
                &&& self.again@[i] == (seen > 1)
            }
        &&& forall|call: ToolCallView| #[trigger]
            occurrences(calls, call) > 0 ==> stands_among(distinct, call)
    }

    fn new() -> (seen: Seen)
        ensures
            seen.notes(Seq::empty()),
    {
        Seen { table: StringHashMap::new(), distinct: Vec::new(), again: Vec::new() }
    }

    /// The place of a call with the given digest, if it was noted.
    fn place_of(&self, call: &ToolCall, digest: &str) -> (place: Option<usize>)
        requires
            self.wf(),
            digest@ == call_digest(call@),
        ensures
            match place {
                Some(i) => i < self.distinct@.len() && self.distinct@[i as int]@ == call@,
                None => !stands_among(self.distinct@, call@),
            },
    {
        match self.table.get(digest) {
            Some(bucket) => {
                let mut j: usize = 0;
                while j < bucket.len()
                    invariant
                        j <= bucket@.len(),
                        self.wf(),
                        self.table@.contains_key(digest@),
                        *bucket == self.table@[digest@],
                        forall|k: int|
                            0 <= k < j ==> self.distinct@[#[trigger] bucket@[k] as int]@ != call@,
                    decreases bucket@.len() - j,
                {
                    let place: usize = bucket[j];
                    assert(self.table@[digest@]@[j as int] < self.distinct@.len());
                    let noted = &self.distinct[place];
                    if noted.name == call.name && noted.arguments == call.arguments && noted.output
                        == call.output {
                        return Some(place);
                    }
                    j = j + 1;
                }
                proof {
                    if stands_among(self.distinct@, call@) {
                        let i = choose|i: int|
                            0 <= i < self.distinct@.len() && (#[trigger] self.distinct@[i])@
                                == call@;
                        assert(self.distinct.len() == self.distinct@.len());
                        let k = choose|k: int| 0 <= k < bucket@.len() && bucket@[k] == i as usize;
                        assert(self.distinct@[bucket@[k] as int]@ == call@);
                    }
                }
                None
            },
            None => None,
        }
    }

    /// Notes a call that was not noted before.
    fn add_new(&mut self, call: &ToolCall, digest: String)
        requires
            old(self).wf(),
            digest@ == call_digest(call@),
            !stands_among(old(self).distinct@, call@),
        ensures
            final(self).wf(),
            final(self).distinct@.len() == old(self).distinct@.len() + 1,
            final(self).distinct@.drop_last() == old(self).distinct@,
            final(self).distinct@.last()@ == call@,
            final(self).again@ == old(self).again@.push(false),
    {
        let ghost before = *self;
        let place: usize = self.distinct.len();
        let mut bucket: Vec<usize> = Vec::new();
        if let Some(others) = self.table.get(digest.as_str()) {
            let mut j: usize = 0;
            while j < others.len()
                invariant
                    j <= others@.len(),
                    bucket@ == others@.take(j as int),
                decreases others@.len() - j,
            {
                bucket.push(others[j]);
                j = j + 1;
            }
            assert(bucket@ =~= others@);
        }
        let ghost others = bucket@;
        bucket.push(place);
        let ghost all = bucket@;
        self.table.insert(digest, bucket);
        self.distinct.push(
            ToolCall {
                name: call.name.clone(),
                arguments: call.arguments.clone(),
                output: call.output.clone(),
            },
        );
        self.again.push(false);
        proof {
            let distinct = self.distinct@;
            assert(distinct.drop_last() =~= before.distinct@);
            assert(all[others.len() as int] == place);
            assert forall|i: int| 0 <= i < distinct.len() implies {
                let key = call_digest((#[trigger] distinct[i])@);
                &&& self.table@.contains_key(key)
                &&& self.table@[key]@.contains(i as usize)
            } by {
                if i < place {
                    assert(distinct[i] == before.distinct@[i]);
                    let key = call_digest(distinct[i]@);
                    assert(before.table@[key]@.contains(i as usize));
                    if key == digest@ {
                        let k = choose|k: int| 0 <= k < others.len() && others[k] == i as usize;
                        assert(all[k] == i as usize);
                    }
                }
            }
            assert forall|i: int, j: int|
                #![trigger distinct[i], distinct[j]]
                0 <= i < j < distinct.len() implies distinct[i]@ != distinct[j]@ by {
                assert(distinct[i] == before.distinct@[i]);
                if j < place {
                    assert(distinct[j] == before.distinct@[j]);
                }
            }
            assert forall|key: Seq<char>, j: int|
                #![trigger self.table@[key]@[j]]
                self.table@.contains_key(key) && 0 <= j
                    < self.table@[key]@.len() implies self.table@[key]@[j] < distinct.len() by {
                if key == digest@ {
                    if j < others.len() {
                        assert(all[j] == before.table@[key]@[j]);
                    }
                } else {
                    assert(before.table@[key]@[j] < before.distinct@.len());
                }
            }
        }
    }

    /// Notes a call, and says whether it was noted before, and whether more
    /// than once.
    fn note(&mut self, call: &ToolCall, calls: Ghost<Seq<ToolCallView>>) -> (before: (bool, bool))
        requires
            old(self).notes(calls@),
        ensures
            final(self).notes(calls@.push(call@)),
            before.0 == (occurrences(calls@, call@) > 0),
            before.1 == (occurrences(calls@, call@) > 1),
    {
        let digest = call.digest();
        let ghost old_seen = *self;
        let ghost after = calls@.push(call@);
        proof {
            assert(after.drop_last() =~= calls@);
            assert(after.last() == call@);
        }
        match self.place_of(call, digest.as_str()) {
            Some(place) => {
                let repeated: bool = self.again[place];
                self.again.set(place, true);
                proof {
                    assert(self.distinct@[place as int]@ == call@);
                    assert forall|i: int| 0 <= i < self.distinct@.len() implies {
                        let seen = occurrences(after, (#[trigger] self.distinct@[i])@);
                        &&& seen > 0
                        &&& self.again@[i] == (seen > 1)
                    } by {
                        assert(old_seen.distinct@[i] == self.distinct@[i]);
                        if i < place {
                            assert(self.distinct@[i]@ != self.distinct@[place as int]@);
                        } else if i > place {
                            assert(self.distinct@[place as int]@ != self.distinct@[i]@);
                        }
                    }
                    assert forall|c: ToolCallView| #[trigger]
                        occurrences(after, c) > 0 implies stands_among(self.distinct@, c) by {
                        if c != call@ {
                            assert(occurrences(calls@, c) > 0);
                        }
                    }
                }
                (true, repeated)
            },
            None => {
                self.add_new(call, digest);
                proof {
                    let distinct = self.distinct@;
                    assert(occurrences(calls@, call@) == 0) by {
                        if occurrences(calls@, call@) > 0 {
                            assert(stands_among(old_seen.distinct@, call@));
                        }
                    }
                    assert forall|i: int| 0 <= i < distinct.len() implies {
                        let seen = occurrences(after, (#[trigger] distinct[i])@);
                        &&& seen > 0
                        &&& self.again@[i] == (seen > 1)
                    } by {
                        if i < old_seen.distinct@.len() {
                            assert(distinct.drop_last()[i] == distinct[i]);
                            assert(old_seen.distinct@[i] == distinct[i]);
                            assert(distinct[i]@ != call@);
                        } else {
                            assert(distinct[i]@ == call@);
                        }
                    }
                    assert forall|c: ToolCallView| #[trigger]
                        occurrences(after, c) > 0 implies stands_among(distinct, c) by {
                        if c == call@ {
                            assert(distinct[distinct.len() - 1]@ == c);
                        } else {
                            assert(occurrences(calls@, c) > 0);
                            assert(stands_among(old_seen.distinct@, c));
                            let i = choose|i: int|
                                0 <= i < old_seen.distinct@.len() && (
                                #[trigger] old_seen.distinct@[i])@ == c;
                            assert(distinct.drop_last()[i] == distinct[i]);
                            assert(distinct[i]@ == c);
                        }
                    }
                }
                (false, false)
            },
        }
    }
}

/// Keeps what is to be kept of a turn's calls, and notes them. Gives what is
/// kept, how many duplicates there were, and their bytes.
fn retain_calls(
    calls: Vec<ToolCall>,
    seen: &mut Seen,
    earlier: Ghost<Seq<ToolCallView>>,
) -> (outcome: (Vec<ToolCall>, CheckedUsize, CheckedUsize))
    requires
        old(seen).notes(earlier@),
    ensures
        final(seen).notes(earlier@ + call_views(calls@)),
        call_views(outcome.0@) == dedup_calls(earlier@, call_views(calls@)),
        outcome.1@ == duplicates(earlier@ + call_views(calls@)) - duplicates(earlier@),
        outcome.2@ == duplicate_bytes(earlier@ + call_views(calls@)) - duplicate_bytes(earlier@),
{
    let ghost views = call_views(calls@);
    let mut retained: Vec<ToolCall> = Vec::with_capacity(calls.len());
    let mut removed = CheckedUsize::new(0);
    let mut saved = CheckedUsize::new(0);
    proof {
        assert(views.take(0) =~= Seq::empty());
        assert(earlier@ + views.take(0) =~= earlier@);
        assert(call_views(retained@) =~= Seq::empty());
    }
    for call in it: calls.into_iter()
        invariant
            it.seq() == calls@,
            views == call_views(calls@),
            seen.notes(earlier@ + views.take(it.index() as int)),
            call_views(retained@) == dedup_calls(earlier@, views.take(it.index() as int)),
            removed@ == duplicates(earlier@ + views.take(it.index() as int)) - duplicates(
                earlier@,
            ),
            saved@ == duplicate_bytes(earlier@ + views.take(it.index() as int)) - duplicate_bytes(
                earlier@,
            ),
    {
        let ghost i = it.index() as int;
        let ghost before = earlier@ + views.take(i);
        let ghost after = earlier@ + views.take(i + 1);
        proof {
            assert(views[i] == call@);
            assert(views.take(i + 1).drop_last() =~= views.take(i));
            assert(views.take(i + 1).last() == call@);
            assert(after.drop_last() =~= before);
            assert(after.last() == call@);
            assert(before.push(call@) =~= after);
        }
        let ghost old_retained = call_views(retained@);
        let (repeated, elided_before) = seen.note(&call, Ghost(before));
        if repeated {
            removed = removed.add_value(1);
            saved = saved.add_value(utf8_len(call.arguments.as_str()));
            saved = saved.add_value(utf8_len(call.output.as_str()));
            if !elided_before {
                retained.push(
                    ToolCall {
                        name: call.name,
                        arguments: call.arguments,
                        output: "<duplicate output elided>".to_owned(),
                    },
                );
                assert(call_views(retained@) =~= old_retained + seq![elided(views[i])]);
            } else {
                assert(old_retained =~= old_retained + Seq::<ToolCallView>::empty());
            }
        } else {
            retained.push(call);
            assert(call_views(retained@) =~= old_retained + seq![views[i]]);
        }
    }
    proof {
        assert(views.take(views.len() as int) =~= views);
    }
    (retained, removed, saved)
}

/// Removes the duplicates among the tool calls of a session. Gives how many
/// there were, and their bytes.
pub(crate) fn dedup_session(session: &mut Session) -> (numbers: (CheckedUsize, CheckedUsize))
    ensures
        final(session)@ == (SessionView {
            turns: dedup_turns(old(session)@.turns),
            ..old(session)@
        }),
        numbers.0@ == duplicates(calls_of(old(session)@.turns)),
        numbers.1@ == duplicate_bytes(calls_of(old(session)@.turns)),
{
    let ghost turns = session@.turns;
    let mut pending: Vec<Turn> = Vec::new();
    std::mem::swap(&mut pending, &mut session.turns);
    let mut kept: Vec<Turn> = Vec::with_capacity(pending.len());
    let mut seen = Seen::new();
    let mut removed = CheckedUsize::new(0);
    let mut saved = CheckedUsize::new(0);
    let ghost source = pending@;
    proof {
        assert(turns =~= turn_views(source));
        assert(turns.take(0) =~= Seq::empty());
        assert(turn_views(kept@) =~= dedup_turns(turns).take(0));
    }
    for turn in it: pending.into_iter()
        invariant
            it.seq() == source,
            turns == turn_views(source),
            seen.notes(calls_of(turns.take(it.index() as int))),
            turn_views(kept@) == dedup_turns(turns).take(it.index() as int),
            removed@ == duplicates(calls_of(turns.take(it.index() as int))),
            saved@ == duplicate_bytes(calls_of(turns.take(it.index() as int))),
    {
        let ghost i = it.index() as int;
        let ghost earlier = calls_of(turns.take(i));
        let ghost old_kept = turn_views(kept@);
        let mut turn = turn;
        let ghost shown = turn@;
        let mut calls: Vec<ToolCall> = Vec::new();
        std::mem::swap(&mut calls, &mut turn.tool_calls);
        proof {
            assert(turns[i] == shown);
            assert(turns.take(i + 1).drop_last() =~= turns.take(i));
            assert(turns.take(i + 1).last() == shown);
            assert(calls_of(turns.take(i + 1)) == earlier + call_views(calls@));
        }
        let (retained, more_removed, more_saved) = retain_calls(calls, &mut seen, Ghost(earlier));
        removed = removed.add_checked(&more_removed);
        saved = saved.add_checked(&more_saved);
        turn.tool_calls = retained;
        proof {
            assert(turn@ == dedup_turns(turns)[i]);
        }
        kept.push(turn);
        proof {
            assert(turn_views(kept@) =~= old_kept.push(dedup_turns(turns)[i]));
            assert(turn_views(kept@) =~= dedup_turns(turns).take(i + 1));
        }
    }
    session.turns = kept;
    proof {
        assert(turns.take(turns.len() as int) =~= turns);
        assert(dedup_turns(turns).take(turns.len() as int) =~= dedup_turns(turns));
    }
    (removed, saved)
}

/// Remove duplicate tool outputs within a session.
#[derive(Debug, Clone, Copy)]
pub struct DeduplicateToolOutputs;

impl Default for DeduplicateToolOutputs {
    fn default() -> DeduplicateToolOutputs {
        DeduplicateToolOutputs
    }
}

impl CompactionStrategy for DeduplicateToolOutputs {
    open spec fn applies_to(&self, session: SessionView) -> bool {
        dedup_fits(session.turns)
    }

    open spec fn compacts(
        &self,
        before: SessionView,
        after: SessionView,
        metrics: CompactionMetrics,
    ) -> bool {
        &&& after == (SessionView { turns: dedup_turns(before.turns), ..before })
        &&& is_dedup_report(before.turns, metrics)
    }

    fn compact(&self, session: &mut Session) -> (outcome: Result<
        CompactionMetrics,
        CompactionError,
    >)
        ensures
            outcome is Ok,
    {
        let (removed, saved) = dedup_session(session);
        Ok(
            CompactionMetrics {
                duplicates_removed: removed.unwrap(),
                continuation_turns_collapsed: 0,
                turns_archived: 0,
                token_bytes_saved: saved.unwrap(),
                turns_remaining: session.len(),
            },
        )
    }
}

} // verus!
