//! Sessions, turns and tool calls, and what a compaction reports.

use vstd::arithmetic::overflow::CheckedUsize;
use vstd::prelude::*;
use vstd::string::*;
use vstd::utf8::encode_utf8;

use crate::digest::{fresh_id, hex_of, hex_text, is_uuid_v4, sha256, sha256_of};
use crate::text::{
    append_bytes, byte_len, chars_of, lower_chars, lowercase, spells, trim_chars, trimmed, utf8_len,
};
use crate::time::{utc_now, Timestamp};

verus! {

broadcast use vstd::string::group_string_axioms;

/// Identifier for a single conversational turn.
pub type TurnId = String;

/// Identifier for an agent session.
pub type SessionId = String;

/// A tool invocation recorded inside a turn.
#[derive(Debug, Clone, PartialEq, Eq, Hash)]
pub struct ToolCall {
    /// Tool name, e.g. "Shell", "Read", "Grep".
    pub name: String,
    /// Serialized tool arguments.
    pub arguments: String,
    /// Serialized tool output.
    pub output: String,
}

/// A single turn within an agent session.
#[derive(Debug, Clone, PartialEq)]
pub struct Turn {
    /// Stable turn identifier.
    pub id: TurnId,
    /// Role of the turn author ("user", "assistant", "tool", etc.).
    pub role: String,
    /// Text content of the turn.
    pub content: String,
    /// Tool calls emitted or consumed by this turn.
    pub tool_calls: Vec<ToolCall>,
    /// Creation timestamp.
    pub created_at: Timestamp,
    /// Estimated input tokens consumed by this turn.
    pub input_tokens: usize,
    /// Estimated output tokens produced by this turn.
    pub output_tokens: usize,
}

/// An agent session composed of chronological turns.
#[derive(Debug, Clone, PartialEq)]
pub struct Session {
    /// Session identifier.
    pub id: SessionId,
    /// Chronological turns.
    pub turns: Vec<Turn>,
    /// Time the session was first seen.
    pub created_at: Timestamp,
    /// Time the session was last compacted.
    pub last_compacted_at: Option<Timestamp>,
}

/// A tool call as a mathematical value.
pub ghost struct ToolCallView {
    pub name: Seq<char>,
    pub arguments: Seq<char>,
    pub output: Seq<char>,
}

/// A turn as a mathematical value.
#[verifier::ext_equal]
pub ghost struct TurnView {
    pub id: Seq<char>,
    pub role: Seq<char>,
    pub content: Seq<char>,
    pub tool_calls: Seq<ToolCallView>,
    pub created_at: Timestamp,
    pub input_tokens: nat,
    pub output_tokens: nat,
}

/// A session as a mathematical value.
#[verifier::ext_equal]
pub ghost struct SessionView {
    pub id: Seq<char>,
    pub turns: Seq<TurnView>,
    pub created_at: Timestamp,
    pub last_compacted_at: Option<Timestamp>,
}

impl View for ToolCall {
    type V = ToolCallView;

    open spec fn view(&self) -> ToolCallView {
        ToolCallView { name: self.name@, arguments: self.arguments@, output: self.output@ }
    }
}

/// The calls of a vector as mathematical values.
pub open spec fn call_views(calls: Seq<ToolCall>) -> Seq<ToolCallView> {
    calls.map_values(|c: ToolCall| c@)
}

impl View for Turn {
    type V = TurnView;

    open spec fn view(&self) -> TurnView {
        TurnView {
            id: self.id@,
            role: self.role@,
            content: self.content@,
            tool_calls: call_views(self.tool_calls@),
            created_at: self.created_at,
            input_tokens: self.input_tokens as nat,
            output_tokens: self.output_tokens as nat,
        }
    }
}

/// The turns of a vector as mathematical values.
pub open spec fn turn_views(turns: Seq<Turn>) -> Seq<TurnView> {
    turns.map_values(|t: Turn| t@)
}

impl View for Session {
    type V = SessionView;

    open spec fn view(&self) -> SessionView {
        SessionView {
            id: self.id@,
            turns: turn_views(self.turns@),
            created_at: self.created_at,
            last_compacted_at: self.last_compacted_at,
        }
    }
}

/// The digest of a call: the hash of its name, arguments and output, written
/// one after the other, in hexadecimal.
pub open spec fn call_digest(call: ToolCallView) -> Seq<char> {
    hex_text(
        sha256(
            encode_utf8(call.name) + encode_utf8(call.arguments) + encode_utf8(call.output),
        ),
    )
}

/// The bytes of a call's arguments and output.
pub open spec fn call_weight(call: ToolCallView) -> nat {
    byte_len(call.arguments) + byte_len(call.output)
}

/// The bytes of the arguments and outputs of several calls.
pub open spec fn calls_weight(calls: Seq<ToolCallView>) -> nat
    decreases calls.len(),
{
    if calls.len() == 0 {
        0
    } else {
        calls_weight(calls.drop_last()) + call_weight(calls.last())
    }
}

/// The bytes of a turn's content and of its calls' arguments and outputs.
pub open spec fn turn_weight(turn: TurnView) -> nat {
    byte_len(turn.content) + calls_weight(turn.tool_calls)
}

/// A content that only asks to go on, in any case and with white space around.
pub open spec fn is_continuation(content: Seq<char>) -> bool {
    let asked = lowercase(trimmed(content));
    ||| asked == "continue"@
    ||| asked == "go on"@
    ||| asked == "proceed"@
    ||| asked == "keep going"@
    ||| asked == "next"@
    ||| asked == "please continue"@
    ||| asked == "carry on"@
}

/// The sum of a count over several turns.
pub open spec fn sum_over(turns: Seq<TurnView>, count: spec_fn(TurnView) -> nat) -> nat
    decreases turns.len(),
{
    if turns.len() == 0 {
        0
    } else {
        sum_over(turns.drop_last(), count) + count(turns.last())
    }
}

/// The estimated input tokens of several turns.
pub open spec fn input_tokens(turns: Seq<TurnView>) -> nat {
    sum_over(turns, |t: TurnView| t.input_tokens)
}

/// The estimated output tokens of several turns.
pub open spec fn output_tokens(turns: Seq<TurnView>) -> nat {
    sum_over(turns, |t: TurnView| t.output_tokens)
}

/// The bytes of several turns.
pub open spec fn turns_weight(turns: Seq<TurnView>) -> nat {
    sum_over(turns, |t: TurnView| turn_weight(t))
}

/// The sum over some first turns is at most that over all.
pub proof fn lemma_sum_over_prefix(turns: Seq<TurnView>, count: spec_fn(TurnView) -> nat, n: int)
    requires
        0 <= n <= turns.len(),
    ensures
        sum_over(turns.take(n), count) <= sum_over(turns, count),
    decreases turns.len(),
{
    if n < turns.len() {
        lemma_sum_over_prefix(turns.drop_last(), count, n);
        assert(turns.drop_last().take(n) =~= turns.take(n));
    } else {
        assert(turns.take(n) =~= turns);
    }
}

impl ToolCall {
    /// Compute a stable hash of the call signature (name + arguments + output).
    #[must_use]
    pub fn digest(&self) -> (digest: String)
        ensures
            digest@ == call_digest(self@),
    {
        let mut bytes: Vec<u8> = Vec::new();
        append_bytes(&mut bytes, self.name.as_str());
        append_bytes(&mut bytes, self.arguments.as_str());
        append_bytes(&mut bytes, self.output.as_str());
        hex_of(&sha256_of(&bytes))
    }
}

impl Turn {
    /// A turn with the given identifier and time, without calls and tokens.
    pub fn stamped(id: TurnId, created_at: Timestamp, role: &str, content: &str) -> (turn: Turn)
        ensures
            turn@ == (TurnView {
                id: id@,
                role: role@,
                content: content@,
                tool_calls: Seq::empty(),
                created_at,
                input_tokens: 0,
                output_tokens: 0,
            }),
    {
        Turn {
            id,
            role: role.to_owned(),
            content: content.to_owned(),
            tool_calls: Vec::new(),
            created_at,
            input_tokens: 0,
            output_tokens: 0,
        }
    }

    /// Create a new turn with the current timestamp.
    #[must_use]
    pub fn new(role: &str, content: &str) -> (turn: Turn)
        ensures
            is_uuid_v4(turn@.id),
            turn@.created_at.is_clock_reading(),
            turn@ == (TurnView {
                id: turn@.id,
                role: role@,
                content: content@,
                tool_calls: Seq::empty(),
                created_at: turn@.created_at,
                input_tokens: 0,
                output_tokens: 0,
            }),
    {
        Turn::stamped(fresh_id(), utc_now(), role, content)
    }

    /// Return `true` if this turn is a continuation marker.
    #[must_use]
    pub fn is_continuation_marker(&self) -> (answer: bool)
        ensures
            answer == is_continuation(self@.content),
    {
        let chars = chars_of(self.content.as_str());
        let asked = lower_chars(&trim_chars(&chars));
        spells(&asked, "continue") || spells(&asked, "go on") || spells(&asked, "proceed")
            || spells(&asked, "keep going") || spells(&asked, "next") || spells(
            &asked,
            "please continue",
        ) || spells(&asked, "carry on")
    }

    /// The bytes of this turn, also where they do not fit a number.
    pub(crate) fn checked_weight(&self) -> (weight: CheckedUsize)
        ensures
            weight@ == turn_weight(self@),
    {
        let mut weight = CheckedUsize::new(utf8_len(self.content.as_str()));
        let mut i: usize = 0;
        while i < self.tool_calls.len()
            invariant
                i <= self.tool_calls@.len(),
                weight@ == byte_len(self@.content) + calls_weight(self@.tool_calls.take(i as int)),
            decreases self.tool_calls@.len() - i,
        {
            let call = &self.tool_calls[i];
            proof {
                let calls = self@.tool_calls;
                assert(calls.take(i + 1).drop_last() =~= calls.take(i as int));
                assert(calls.take(i + 1).last() == call@);
            }
            weight = weight.add_value(utf8_len(call.arguments.as_str()));
            weight = weight.add_value(utf8_len(call.output.as_str()));
            i = i + 1;
        }
        assert(self@.tool_calls.take(i as int) =~= self@.tool_calls);
        weight
    }

    /// Estimate the total token weight of this turn.
    #[must_use]
    pub fn token_weight(&self) -> (weight: usize)
        requires
            turn_weight(self@) <= usize::MAX,
        ensures
            weight == turn_weight(self@),
    {
        self.checked_weight().unwrap()
    }
}

impl Session {
    /// An empty session that was first seen at the given time.
    pub fn seen_at(id: &str, created_at: Timestamp) -> (session: Session)
        ensures
            session@ == (SessionView {
                id: id@,
                turns: Seq::empty(),
                created_at,
                last_compacted_at: None,
            }),
    {
        Session { id: id.to_owned(), turns: Vec::new(), created_at, last_compacted_at: None }
    }

    /// Create an empty session.
    #[must_use]
    pub fn new(id: &str) -> (session: Session)
        ensures
            session@.created_at.is_clock_reading(),
            session@ == (SessionView {
                id: id@,
                turns: Seq::empty(),
                created_at: session@.created_at,
                last_compacted_at: None,
            }),
    {
        Session::seen_at(id, utc_now())
    }

    /// Append a turn to the session.
    pub fn add_turn(&mut self, turn: Turn)
        ensures
            final(self)@ == (SessionView { turns: old(self)@.turns.push(turn@), ..old(self)@ }),
    {
        self.turns.push(turn);
    }

    /// Total number of turns.
    #[must_use]
    pub fn len(&self) -> (len: usize)
        ensures
            len == self@.turns.len(),
    {
        self.turns.len()
    }

    /// Returns `true` if the session has no turns.
    #[must_use]
    pub fn is_empty(&self) -> (answer: bool)
        ensures
            answer == (self@.turns.len() == 0),
    {
        self.turns.len() == 0
    }

    /// Sum of input tokens across all turns.
    #[must_use]
    pub fn total_input_tokens(&self) -> (total: usize)
        requires
            input_tokens(self@.turns) <= usize::MAX,
        ensures
            total == input_tokens(self@.turns),
    {
        let mut total: usize = 0;
        let mut i: usize = 0;
        while i < self.turns.len()
            invariant
                i <= self.turns@.len(),
                total == input_tokens(self@.turns.take(i as int)),
                input_tokens(self@.turns) <= usize::MAX,
            decreases self.turns@.len() - i,
        {
            proof {
                let turns = self@.turns;
                assert(turns.take(i + 1).drop_last() =~= turns.take(i as int));
                lemma_sum_over_prefix(turns, |t: TurnView| t.input_tokens, i + 1);
            }
            total = total + self.turns[i].input_tokens;
            i = i + 1;
        }
        assert(self@.turns.take(i as int) =~= self@.turns);
        total
    }

    /// Sum of output tokens across all turns.
    #[must_use]
    pub fn total_output_tokens(&self) -> (total: usize)
        requires
            output_tokens(self@.turns) <= usize::MAX,
        ensures
            total == output_tokens(self@.turns),
    {
        let mut total: usize = 0;
        let mut i: usize = 0;
        while i < self.turns.len()
            invariant
                i <= self.turns@.len(),
                total == output_tokens(self@.turns.take(i as int)),
                output_tokens(self@.turns) <= usize::MAX,
            decreases self.turns@.len() - i,
        {
            proof {
                let turns = self@.turns;
                assert(turns.take(i + 1).drop_last() =~= turns.take(i as int));
                lemma_sum_over_prefix(turns, |t: TurnView| t.output_tokens, i + 1);
            }
            total = total + self.turns[i].output_tokens;
            i = i + 1;
        }
        assert(self@.turns.take(i as int) =~= self@.turns);
        total
    }
}

} // verus!
