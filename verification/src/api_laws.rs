//! What holds of the answers of the API and of the command line.

use vstd::prelude::*;
use vstd::utf8::{encode_utf8, encode_utf8_decode_utf8, encode_utf8_valid_utf8, valid_utf8};

use crate::api::{is_sum, metrics_page, remaining_in, report_page, sums_fit, total};
use crate::outcome_laws::sum_of;
use crate::paths::{path_text, repaired_text};
use crate::scanner::{sample_turn, ResultView};
use crate::strategy::CompactionMetrics;
use crate::text::decimal;

verus! {

proof fn lemma_total(results: Seq<ResultView>, count: spec_fn(ResultView) -> nat)
    ensures
        total(results, count) == sum_of(results.map_values(count)),
    decreases results.len(),
{
    if results.len() > 0 {
        lemma_total(results.drop_last(), count);
        assert(results.map_values(count).drop_last() =~= results.drop_last().map_values(count));
    }
}

/// The sum of several results adds each number up over all results, but for the turns
/// that remain: these are not summed. It fits where each of the four sums does.
pub proof fn law_sum_adds_up(results: Seq<ResultView>, sum: CompactionMetrics)
    ensures
        is_sum(results, sum) <==> {
            &&& sum.duplicates_removed == sum_of(
                results.map_values(|r: ResultView| r.metrics.duplicates_removed as nat),
            )
            &&& sum.continuation_turns_collapsed == sum_of(
                results.map_values(|r: ResultView| r.metrics.continuation_turns_collapsed as nat),
            )
            &&& sum.turns_archived == sum_of(
                results.map_values(|r: ResultView| r.metrics.turns_archived as nat),
            )
            &&& sum.token_bytes_saved == sum_of(
                results.map_values(|r: ResultView| r.metrics.token_bytes_saved as nat),
            )
            &&& sum.turns_remaining == 0
        },
        sums_fit(results) <==> {
            &&& sum_of(results.map_values(|r: ResultView| r.metrics.duplicates_removed as nat))
                <= usize::MAX
            &&& sum_of(
                results.map_values(|r: ResultView| r.metrics.continuation_turns_collapsed as nat),
            ) <= usize::MAX
            &&& sum_of(results.map_values(|r: ResultView| r.metrics.turns_archived as nat))
                <= usize::MAX
            &&& sum_of(results.map_values(|r: ResultView| r.metrics.token_bytes_saved as nat))
                <= usize::MAX
        },
        remaining_in(results) == sum_of(
            results.map_values(|r: ResultView| r.metrics.turns_remaining as nat),
        ),
{
    lemma_total(results, |r: ResultView| r.metrics.duplicates_removed as nat);
    lemma_total(results, |r: ResultView| r.metrics.continuation_turns_collapsed as nat);
    lemma_total(results, |r: ResultView| r.metrics.turns_archived as nat);
    lemma_total(results, |r: ResultView| r.metrics.token_bytes_saved as nat);
    lemma_total(results, |r: ResultView| r.metrics.turns_remaining as nat);
}

/// The metrics in the text format of Prometheus: for each of the five numbers its
/// type, and in the next line its name and its value in decimal.
pub proof fn law_metrics_page(metrics: CompactionMetrics)
    ensures
        metrics_page(metrics)
            == "# TYPE compactd_duplicates_removed counter\ncompactd_duplicates_removed "@
            + decimal(metrics.duplicates_removed as nat)
            + "\n# TYPE compactd_continuation_turns_collapsed counter\n"@
            + "compactd_continuation_turns_collapsed "@ + decimal(
            metrics.continuation_turns_collapsed as nat,
        ) + "\n# TYPE compactd_turns_archived counter\ncompactd_turns_archived "@ + decimal(
            metrics.turns_archived as nat,
        ) + "\n# TYPE compactd_token_bytes_saved counter\ncompactd_token_bytes_saved "@ + decimal(
            metrics.token_bytes_saved as nat,
        ) + "\n# TYPE compactd_turns_remaining gauge\ncompactd_turns_remaining "@ + decimal(
            metrics.turns_remaining as nat,
        ) + "\n"@,
{
    lemma_metric_heads();
    let nl = "\n"@;
    let a = decimal(metrics.duplicates_removed as nat);
    let b = decimal(metrics.continuation_turns_collapsed as nat);
    let c = decimal(metrics.turns_archived as nat);
    let d = decimal(metrics.token_bytes_saved as nat);
    let e = decimal(metrics.turns_remaining as nat);
    let ha = "# TYPE compactd_duplicates_removed counter\ncompactd_duplicates_removed "@;
    let hb = "\n# TYPE compactd_continuation_turns_collapsed counter\n"@;
    let ib = "compactd_continuation_turns_collapsed "@;
    let hc = "\n# TYPE compactd_turns_archived counter\ncompactd_turns_archived "@;
    let hd = "\n# TYPE compactd_token_bytes_saved counter\ncompactd_token_bytes_saved "@;
    let he = "\n# TYPE compactd_turns_remaining gauge\ncompactd_turns_remaining "@;
    let pa = metric_head("compactd_duplicates_removed"@, " counter"@);
    let pb = metric_head("compactd_continuation_turns_collapsed"@, " counter"@);
    let pc = metric_head("compactd_turns_archived"@, " counter"@);
    let pd = metric_head("compactd_token_bytes_saved"@, " counter"@);
    let pe = metric_head("compactd_turns_remaining"@, " gauge"@);
    assert(metrics_page(metrics) == (pa + a + nl) + (pb + b + nl) + (pc + c + nl) + (pd + d + nl)
        + (pe + e + nl));
    assert((pa + a + nl) + (pb + b + nl) + (pc + c + nl) + (pd + d + nl) + (pe + e + nl) =~= pa + a
        + (nl + pb) + b + (nl + pc) + c + (nl + pd) + d + (nl + pe) + e + nl);
    assert(pa + a + (hb + ib) + b + hc + c + hd + d + he + e + nl =~= pa + a + hb + ib + b + hc + c
        + hd + d + he + e + nl);
}

/// What stands before the value of a metric.
spec fn metric_head(name: Seq<char>, kind: Seq<char>) -> Seq<char> {
    "# TYPE "@ + name + kind + "\n"@ + name + " "@
}

proof fn lemma_metric_heads()
    ensures
        metric_head("compactd_duplicates_removed"@, " counter"@)
            == "# TYPE compactd_duplicates_removed counter\ncompactd_duplicates_removed "@,
        "\n"@ + metric_head("compactd_continuation_turns_collapsed"@, " counter"@)
            == "\n# TYPE compactd_continuation_turns_collapsed counter\n"@
            + "compactd_continuation_turns_collapsed "@,
        "\n"@ + metric_head("compactd_turns_archived"@, " counter"@)
            == "\n# TYPE compactd_turns_archived counter\ncompactd_turns_archived "@,
        "\n"@ + metric_head("compactd_token_bytes_saved"@, " counter"@)
            == "\n# TYPE compactd_token_bytes_saved counter\ncompactd_token_bytes_saved "@,
        "\n"@ + metric_head("compactd_turns_remaining"@, " gauge"@)
            == "\n# TYPE compactd_turns_remaining gauge\ncompactd_turns_remaining "@,
{
    lemma_head_of_duplicates();
    lemma_head_of_continuations();
    lemma_head_of_archived();
    lemma_head_of_bytes();
    lemma_head_of_remaining();
}

proof fn lemma_head_of_duplicates()
    ensures
        metric_head("compactd_duplicates_removed"@, " counter"@)
            == "# TYPE compactd_duplicates_removed counter\ncompactd_duplicates_removed "@,
{
    reveal_strlit("# TYPE ");
    reveal_strlit("\n");
    reveal_strlit(" ");
    reveal_strlit(" counter");
    reveal_strlit("compactd_duplicates_removed");
    reveal_strlit("# TYPE compactd_duplicates_removed counter\ncompactd_duplicates_removed ");
    assert(metric_head("compactd_duplicates_removed"@, " counter"@)
        =~= "# TYPE compactd_duplicates_removed counter\ncompactd_duplicates_removed "@);
}

proof fn lemma_head_of_continuations()
    ensures
        "\n"@ + metric_head("compactd_continuation_turns_collapsed"@, " counter"@)
            == "\n# TYPE compactd_continuation_turns_collapsed counter\n"@
            + "compactd_continuation_turns_collapsed "@,
{
    reveal_strlit("# TYPE ");
    reveal_strlit("\n");
    reveal_strlit(" ");
    reveal_strlit(" counter");
    reveal_strlit("compactd_continuation_turns_collapsed");
    reveal_strlit("compactd_continuation_turns_collapsed ");
    reveal_strlit("\n# TYPE compactd_continuation_turns_collapsed counter\n");
    let name = "compactd_continuation_turns_collapsed"@;
    assert(name + " "@ =~= "compactd_continuation_turns_collapsed "@);
    assert("\n"@ + ("# TYPE "@ + name + " counter"@ + "\n"@)
        =~= "\n# TYPE compactd_continuation_turns_collapsed counter\n"@);
    assert("\n"@ + metric_head(name, " counter"@) =~= ("\n"@ + ("# TYPE "@ + name + " counter"@
        + "\n"@)) + (name + " "@));
}

proof fn lemma_head_of_archived()
    ensures
        "\n"@ + metric_head("compactd_turns_archived"@, " counter"@)
            == "\n# TYPE compactd_turns_archived counter\ncompactd_turns_archived "@,
{
    reveal_strlit("# TYPE ");
    reveal_strlit("\n");
    reveal_strlit(" ");
    reveal_strlit(" counter");
    reveal_strlit("compactd_turns_archived");
    reveal_strlit("\n# TYPE compactd_turns_archived counter\ncompactd_turns_archived ");
    assert("\n"@ + metric_head("compactd_turns_archived"@, " counter"@)
        =~= "\n# TYPE compactd_turns_archived counter\ncompactd_turns_archived "@);
}

proof fn lemma_head_of_bytes()
    ensures
        "\n"@ + metric_head("compactd_token_bytes_saved"@, " counter"@)
            == "\n# TYPE compactd_token_bytes_saved counter\ncompactd_token_bytes_saved "@,
{
    reveal_strlit("# TYPE ");
    reveal_strlit("\n");
    reveal_strlit(" ");
    reveal_strlit(" counter");
    reveal_strlit("compactd_token_bytes_saved");
    reveal_strlit("\n# TYPE compactd_token_bytes_saved counter\ncompactd_token_bytes_saved ");
    assert("\n"@ + metric_head("compactd_token_bytes_saved"@, " counter"@)
        =~= "\n# TYPE compactd_token_bytes_saved counter\ncompactd_token_bytes_saved "@);
}

proof fn lemma_head_of_remaining()
    ensures
        "\n"@ + metric_head("compactd_turns_remaining"@, " gauge"@)
            == "\n# TYPE compactd_turns_remaining gauge\ncompactd_turns_remaining "@,
{
    reveal_strlit("# TYPE ");
    reveal_strlit("\n");
    reveal_strlit(" ");
    reveal_strlit(" gauge");
    reveal_strlit("compactd_turns_remaining");
    reveal_strlit("\n# TYPE compactd_turns_remaining gauge\ncompactd_turns_remaining ");
    assert("\n"@ + metric_head("compactd_turns_remaining"@, " gauge"@)
        =~= "\n# TYPE compactd_turns_remaining gauge\ncompactd_turns_remaining "@);
}

/// The report on a compaction: how many sessions there were, and the four sums, each
/// in a line of its own and in decimal.
pub proof fn law_report_page(compacted: nat, sum: CompactionMetrics)
    ensures
        report_page(compacted, sum) == "compacted "@ + decimal(compacted)
            + " session(s)\n  duplicates removed:          "@ + decimal(
            sum.duplicates_removed as nat,
        ) + "\n  continuation turns collapsed: "@ + decimal(
            sum.continuation_turns_collapsed as nat,
        ) + "\n  turns archived:              "@ + decimal(sum.turns_archived as nat)
            + "\n  token bytes saved:           "@ + decimal(sum.token_bytes_saved as nat)
            + "\n"@,
{
    reveal_strlit(" session(s)\n");
    reveal_strlit("  duplicates removed:          ");
    reveal_strlit(" session(s)\n  duplicates removed:          ");
    reveal_strlit("\n");
    reveal_strlit("  continuation turns collapsed: ");
    reveal_strlit("\n  continuation turns collapsed: ");
    reveal_strlit("  turns archived:              ");
    reveal_strlit("\n  turns archived:              ");
    reveal_strlit("  token bytes saved:           ");
    reveal_strlit("\n  token bytes saved:           ");
    let nl = "\n"@;
    let first = "compacted "@ + decimal(compacted);
    let a = decimal(sum.duplicates_removed as nat);
    let b = decimal(sum.continuation_turns_collapsed as nat);
    let c = decimal(sum.turns_archived as nat);
    let d = decimal(sum.token_bytes_saved as nat);
    assert(" session(s)\n"@ + "  duplicates removed:          "@
        =~= " session(s)\n  duplicates removed:          "@);
    assert(nl + "  continuation turns collapsed: "@ =~= "\n  continuation turns collapsed: "@);
    assert(nl + "  turns archived:              "@ =~= "\n  turns archived:              "@);
    assert(nl + "  token bytes saved:           "@ =~= "\n  token bytes saved:           "@);
    assert(report_page(compacted, sum) =~= first + (" session(s)\n"@
        + "  duplicates removed:          "@) + a + (nl + "  continuation turns collapsed: "@) + b
        + (nl + "  turns archived:              "@) + c + (nl + "  token bytes saved:           "@)
        + d + nl);
}

/// A path that is the bytes of a text is shown as the text, and one that is no text as
/// what `String::from_utf8_lossy` makes of it.
pub proof fn law_path_shown_as_text(text: Seq<char>, path: Seq<u8>)
    ensures
        path_text(encode_utf8(text)) == text,
        !valid_utf8(path) ==> path_text(path) == repaired_text(path),
{
    encode_utf8_valid_utf8(text);
    encode_utf8_decode_utf8(text);
}

/// The turns of the sample session: two of the user that say `continue`, and two of
/// the assistant that say `ok`, with one call of `Read` each that gives `dup`. They
/// begin with the year 2024 and are a second apart.
pub proof fn law_sample_turns(k: int)
    requires
        0 <= k < 4,
    ensures
        k == 0 ==> sample_turn(k).id == "t1"@,
        k == 1 ==> sample_turn(k).id == "t2"@,
        k == 2 ==> sample_turn(k).id == "t3"@,
        k == 3 ==> sample_turn(k).id == "t4"@,
        k < 2 ==> {
            &&& sample_turn(k).role == "user"@
            &&& sample_turn(k).content == "continue"@
            &&& sample_turn(k).tool_calls.len() == 0
        },
        k >= 2 ==> {
            &&& sample_turn(k).role == "assistant"@
            &&& sample_turn(k).content == "ok"@
            &&& sample_turn(k).tool_calls.len() == 1
            &&& sample_turn(k).tool_calls[0].name == "Read"@
            &&& sample_turn(k).tool_calls[0].arguments == "{}"@
            &&& sample_turn(k).tool_calls[0].output == "dup"@
        },
        sample_turn(k).created_at.secs == 1_704_067_200 + k,
        sample_turn(k).created_at.nanos == 0,
        sample_turn(k).input_tokens == 0,
        sample_turn(k).output_tokens == 0,
{
}

} // verus!
