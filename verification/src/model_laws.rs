//! What holds of sessions, turns and calls, of their digests and of moments.

use vstd::prelude::*;
use vstd::utf8::encode_utf8;

use crate::digest::{fingerprint, hex_text, sha256, Fingerprint};
use crate::model::{
    call_digest, input_tokens, output_tokens, sum_over, turn_weight, turns_weight, Session,
    ToolCall, ToolCallView, Turn, TurnView,
};
use crate::outcome_laws::{is_earlier, is_older, law_turn_weight_counts_bytes, sum_of, turn_bytes};
use crate::strategy::CompactionResult;
use crate::text_laws::law_bytes_joined;
use crate::time::{cutoff_of, Timestamp};

verus! {

/// The mathematical value of a call shows all of the call.
pub proof fn law_call_shown(call: ToolCall)
    ensures
        call@.name == call.name@,
        call@.arguments == call.arguments@,
        call@.output == call.output@,
{
}

/// The mathematical value of a turn shows all of the turn, and its calls in order.
pub proof fn law_turn_shown(turn: Turn)
    ensures
        turn@.id == turn.id@,
        turn@.role == turn.role@,
        turn@.content == turn.content@,
        turn@.created_at == turn.created_at,
        turn@.input_tokens == turn.input_tokens,
        turn@.output_tokens == turn.output_tokens,
        turn@.tool_calls.len() == turn.tool_calls@.len(),
        forall|i: int|
            0 <= i < turn.tool_calls@.len() ==> #[trigger] turn@.tool_calls[i]
                == turn.tool_calls@[i]@,
{
}

/// The mathematical value of a session shows all of the session, and its turns in
/// order.
pub proof fn law_session_shown(session: Session)
    ensures
        session@.id == session.id@,
        session@.created_at == session.created_at,
        session@.last_compacted_at == session.last_compacted_at,
        session@.turns.len() == session.turns@.len(),
        forall|i: int|
            0 <= i < session.turns@.len() ==> #[trigger] session@.turns[i] == session.turns@[i]@,
{
}

/// The mathematical value of a result, and that of a fingerprint, show all of them.
pub proof fn law_result_shown(result: CompactionResult, print: Fingerprint)
    ensures
        result@.session_id == result.session_id@,
        result@.metrics == result.metrics,
        result@.compacted_at == result.compacted_at,
        print@.length == print.length,
        print@.digest == print.digest@,
{
}

proof fn lemma_sum_over(turns: Seq<TurnView>, count: spec_fn(TurnView) -> nat)
    ensures
        sum_over(turns, count) == sum_of(turns.map_values(count)),
    decreases turns.len(),
{
    if turns.len() > 0 {
        lemma_sum_over(turns.drop_last(), count);
        assert(turns.map_values(count).drop_last() =~= turns.drop_last().map_values(count));
    }
}

/// The tokens of a session, and the bytes of several turns, are the sums over all
/// turns.
pub proof fn law_totals_sum_turns(turns: Seq<TurnView>)
    ensures
        input_tokens(turns) == sum_of(turns.map_values(|t: TurnView| t.input_tokens)),
        output_tokens(turns) == sum_of(turns.map_values(|t: TurnView| t.output_tokens)),
        turns_weight(turns) == sum_of(turns.map_values(|t: TurnView| turn_bytes(t))),
{
    lemma_sum_over(turns, |t: TurnView| t.input_tokens);
    lemma_sum_over(turns, |t: TurnView| t.output_tokens);
    lemma_sum_over(turns, |t: TurnView| turn_weight(t));
    assert forall|i: int| 0 <= i < turns.len() implies turn_weight(turns[i])
        == #[trigger] turn_bytes(turns[i]) by {
        law_turn_weight_counts_bytes(turns[i]);
    }
    assert(turns.map_values(|t: TurnView| turn_weight(t)) =~= turns.map_values(
        |t: TurnView| turn_bytes(t),
    ));
}

/// Bytes in hexadecimal have two digits each: the sixteens and then the ones, with
/// the small letters from a to f above nine.
pub proof fn law_hex_digits(bytes: Seq<u8>)
    ensures
        hex_text(bytes).len() == 2 * bytes.len(),
        forall|i: int|
            0 <= i < bytes.len() ==> {
                let high = #[trigger] bytes[i] / 16;
                let low = bytes[i] % 16;
                &&& hex_text(bytes)[2 * i] as u32 == if high < 10 {
                    48 + high
                } else {
                    87 + high
                }
                &&& hex_text(bytes)[2 * i + 1] as u32 == if low < 10 {
                    48 + low
                } else {
                    87 + low
                }
            },
{
    assert forall|i: int| 0 <= i < bytes.len() implies {
        let high = #[trigger] bytes[i] / 16;
        let low = bytes[i] % 16;
        &&& hex_text(bytes)[2 * i] as u32 == if high < 10 {
            48 + high
        } else {
            87 + high
        }
        &&& hex_text(bytes)[2 * i + 1] as u32 == if low < 10 {
            48 + low
        } else {
            87 + low
        }
    } by {
        assert((2 * i) / 2 == i && (2 * i) % 2 == 0);
        assert((2 * i + 1) / 2 == i && (2 * i + 1) % 2 == 1);
    }
}

/// The digest of a call is the hash of one text: the name, the arguments and the
/// output, joined.
pub proof fn law_digest_of_joined_text(call: ToolCallView)
    ensures
        call_digest(call) == hex_text(
            sha256(encode_utf8(call.name + call.arguments + call.output)),
        ),
{
    law_bytes_joined(call.name + call.arguments, call.output);
    law_bytes_joined(call.name, call.arguments);
}

/// The fingerprint of a text has the number of its bytes, and the hash of them.
pub proof fn law_fingerprint_of_text(text: Seq<char>)
    ensures
        fingerprint(text).length == encode_utf8(text).len(),
        fingerprint(text).digest == hex_text(sha256(encode_utf8(text))),
{
}

// Moments

/// The calendar holds the moments from the year -262143 to the year 262142, with
/// leap seconds at the end of a minute.
pub proof fn law_moments_of_calendar(t: Timestamp)
    ensures
        t.wf() <==> {
            &&& -8_334_601_228_800 <= t.secs <= 8_210_266_876_799
            &&& t.nanos < 1_000_000_000 || (t.nanos < 2_000_000_000 && t.secs % 60 == 59)
        },
        t.is_clock_reading() <==> t.wf() && t.secs >= 0 && t.nanos < 1_000_000_000,
        t.has_four_digit_year() <==> -62_167_219_200 <= t.secs <= 253_402_300_799,
{
}

/// Outside of leap seconds, the moment with fewer nanoseconds since 1970 comes
/// first.
pub proof fn law_moments_in_order(first: Timestamp, second: Timestamp)
    ensures
        first.is_before(second) <==> is_earlier(first, second),
        first.nanos < 1_000_000_000 && second.nanos < 1_000_000_000 ==> (first.is_before(second)
            <==> first.secs * 1_000_000_000 + first.nanos < second.secs * 1_000_000_000
            + second.nanos),
{
}

/// A moment that the calendar holds comes before the cutoff exactly if it lies more
/// than the given hours before the moment that the clock showed. The calendar holds
/// the cutoff.
pub proof fn law_cutoff_counts_hours(moment: Timestamp, now: Timestamp, hours: u64)
    requires
        now.is_clock_reading(),
        moment.wf(),
    ensures
        cutoff_of(now, hours).wf(),
        moment.is_before(cutoff_of(now, hours)) <==> is_older(moment, now, hours),
{
}

/// Counted from within a leap second, the cutoff lies the hours before the second
/// that follows it, unless no hours are counted.
pub proof fn law_cutoff_in_leap_second(now: Timestamp, hours: u64)
    requires
        now.wf(),
        now.nanos >= 1_000_000_000,
        now.secs - 3600 * hours >= -8_334_601_228_800,
    ensures
        hours == 0 ==> cutoff_of(now, hours) == now,
        hours > 0 ==> {
            &&& cutoff_of(now, hours).secs == now.secs + 1 - 3600 * hours
            &&& cutoff_of(now, hours).nanos == now.nanos - 1_000_000_000
        },
{
}

} // verus!
