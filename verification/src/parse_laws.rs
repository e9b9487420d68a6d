//! What holds of session texts: what is written down as a text is read as it was.

use vstd::prelude::*;

use crate::laws::law_trim_ignores_padding;
use crate::model::{turn_views, Turn, TurnView};
use crate::parse::{
    are_documents, can_parse, fails_first_at, is_array_text, lemma_lines_not_empty, line_documents,
    lines, parses, reads_turns, text_views, SessionText,
};
use crate::text::{is_whitespace, trimmed, without_leading, without_trailing};

verus! {

proof fn lemma_lines_join(first: Seq<char>, second: Seq<char>)
    ensures
        lines(first.push('\n') + second) == lines(first) + lines(second),
    decreases second.len(),
{
    let joined = first.push('\n') + second;
    if second.len() == 0 {
        assert(joined =~= first.push('\n'));
        assert(first.push('\n').drop_last() =~= first);
        assert(lines(first).push(Seq::empty()) =~= lines(first) + lines(second));
    } else {
        lemma_lines_join(first, second.drop_last());
        lemma_lines_not_empty(second.drop_last());
        assert(joined.drop_last() =~= first.push('\n') + second.drop_last());
        let rest = lines(second.drop_last());
        if second.last() == '\n' {
            assert((lines(first) + rest).push(Seq::empty()) =~= lines(first) + rest.push(
                Seq::empty(),
            ));
        } else {
            let line = rest.last().push(second.last());
            assert((lines(first) + rest).last() == rest.last());
            assert((lines(first) + rest).drop_last().push(line) =~= lines(first)
                + rest.drop_last().push(line));
        }
    }
}

/// Texts of lines can be joined: the documents of two texts with a newline
/// between them are those of the one and then those of the other.
pub proof fn law_line_documents_join(first: Seq<char>, second: Seq<char>)
    ensures
        line_documents(first.push('\n') + second) == line_documents(first) + line_documents(second),
{
    let trim_all = |l: Seq<char>| trimmed(l);
    let has_text = |l: Seq<char>| l.len() > 0;
    lemma_lines_join(first, second);
    assert((lines(first) + lines(second)).map_values(trim_all) =~= lines(first).map_values(trim_all)
        + lines(second).map_values(trim_all));
    Seq::filter_distributes_over_add(
        lines(first).map_values(trim_all),
        lines(second).map_values(trim_all),
        has_text,
    );
}

/// No document of a text of lines is empty.
pub proof fn law_line_documents_not_empty(s: Seq<char>)
    ensures
        forall|i: int|
            0 <= i < line_documents(s).len() ==> #[trigger] line_documents(s)[i].len() > 0,
{
    let has_text = |l: Seq<char>| l.len() > 0;
    let all = lines(s).map_values(|l: Seq<char>| trimmed(l));
    all.filter_lemma(has_text);
    assert forall|i: int| 0 <= i < line_documents(s).len() implies #[trigger] line_documents(
        s,
    )[i].len() > 0 by {
        assert(has_text(all.filter(has_text)[i]));
    }
}

proof fn lemma_no_documents()
    ensures
        line_documents(Seq::empty()) == Seq::<Seq<char>>::empty(),
{
    reveal(Seq::filter);
    let none = lines(Seq::empty()).map_values(|l: Seq<char>| trimmed(l));
    assert(none =~= seq![Seq::<char>::empty()]);
    let has_text = |l: Seq<char>| l.len() > 0;
    assert(none.drop_last() =~= Seq::empty());
    assert(none.drop_last().filter(has_text) =~= Seq::empty());
    assert(none.filter(has_text) =~= Seq::empty());
}

proof fn lemma_lines_prepend(c: char, s: Seq<char>)
    requires
        c != '\n',
    ensures
        lines(s).len() > 0,
        lines(seq![c] + s) == lines(s).update(0, seq![c] + lines(s)[0]),
    decreases s.len(),
{
    lemma_lines_not_empty(s);
    let whole = seq![c] + s;
    if s.len() == 0 {
        assert(whole.drop_last() =~= Seq::empty());
        assert(whole.last() == c);
        let none = lines(whole.drop_last());
        assert(none =~= seq![Seq::<char>::empty()]);
        assert(none.drop_last().push(none.last().push(c)) =~= seq![Seq::<char>::empty().push(c)]);
        assert(lines(whole) =~= seq![Seq::<char>::empty().push(c)]);
        assert(Seq::<char>::empty().push(c) =~= seq![c] + Seq::<char>::empty());
        assert(lines(whole) =~= lines(s).update(0, seq![c] + lines(s)[0]));
    } else {
        lemma_lines_prepend(c, s.drop_last());
        assert(whole.drop_last() =~= seq![c] + s.drop_last());
        assert(whole.last() == s.last());
        let rest = lines(s.drop_last());
        let other = rest.update(0, seq![c] + rest[0]);
        if s.last() == '\n' {
            assert(other.push(Seq::empty()) =~= rest.push(Seq::empty()).update(
                0,
                seq![c] + rest[0],
            ));
        } else {
            let longer = rest.drop_last().push(rest.last().push(s.last()));
            let line = other.last().push(s.last());
            if rest.len() == 1 {
                assert(line =~= seq![c] + longer[0]);
            } else {
                assert(other.last() == rest.last());
                assert(longer[0] == rest[0]);
            }
            assert(other.drop_last().push(line) =~= longer.update(0, seq![c] + longer[0]));
        }
    }
}

proof fn lemma_documents_leading(s: Seq<char>)
    ensures
        line_documents(without_leading(s)) == line_documents(s),
    decreases s.len(),
{
    if s.len() > 0 && is_whitespace(s[0]) {
        let rest = s.drop_first();
        lemma_documents_leading(rest);
        if s[0] == '\n' {
            assert(s =~= Seq::<char>::empty().push('\n') + rest);
            law_line_documents_join(Seq::empty(), rest);
            lemma_no_documents();
            assert(Seq::<Seq<char>>::empty() + line_documents(rest) =~= line_documents(rest));
        } else {
            assert(s =~= seq![s[0]] + rest);
            lemma_lines_prepend(s[0], rest);
            let all = lines(rest);
            let trim_all = |l: Seq<char>| trimmed(l);
            law_trim_ignores_padding(seq![s[0]], all[0], Seq::empty());
            assert(seq![s[0]] + all[0] + Seq::empty() =~= seq![s[0]] + all[0]);
            assert(all.update(0, seq![s[0]] + all[0]).map_values(trim_all) =~= all.map_values(
                trim_all,
            ));
        }
    }
}

proof fn lemma_documents_trailing(s: Seq<char>)
    ensures
        line_documents(without_trailing(s)) == line_documents(s),
    decreases s.len(),
{
    if s.len() > 0 && is_whitespace(s.last()) {
        let rest = s.drop_last();
        lemma_documents_trailing(rest);
        if s.last() == '\n' {
            assert(s =~= rest.push('\n') + Seq::empty());
            law_line_documents_join(rest, Seq::empty());
            lemma_no_documents();
            assert(line_documents(rest) + Seq::<Seq<char>>::empty() =~= line_documents(rest));
        } else {
            lemma_lines_not_empty(rest);
            let all = lines(rest);
            let trim_all = |l: Seq<char>| trimmed(l);
            law_trim_ignores_padding(Seq::empty(), all.last(), seq![s.last()]);
            assert(Seq::empty() + all.last() + seq![s.last()] =~= all.last().push(s.last()));
            assert(all.drop_last().push(all.last().push(s.last())).map_values(trim_all)
                =~= all.map_values(trim_all));
        }
    }
}

/// White space around a text makes no difference to its documents.
pub proof fn law_documents_ignore_padding(s: Seq<char>)
    ensures
        line_documents(trimmed(s)) == line_documents(s),
{
    lemma_documents_leading(s);
    lemma_documents_trailing(without_leading(s));
}

/// Lines joined by newlines.
pub open spec fn joined_lines(ls: Seq<Seq<char>>) -> Seq<char>
    decreases ls.len(),
{
    if ls.len() == 0 {
        Seq::empty()
    } else if ls.len() == 1 {
        ls[0]
    } else {
        joined_lines(ls.drop_last()).push('\n') + ls.last()
    }
}

proof fn lemma_one_line(s: Seq<char>)
    requires
        !s.contains('\n'),
    ensures
        lines(s) == seq![s],
    decreases s.len(),
{
    if s.len() > 0 {
        assert(s[s.len() - 1] != '\n');
        assert(!s.drop_last().contains('\n')) by {
            if s.drop_last().contains('\n') {
                let i = choose|i: int| 0 <= i < s.len() - 1 && s.drop_last()[i] == '\n';
                assert(s[i] == '\n');
            }
        }
        lemma_one_line(s.drop_last());
        let rest = lines(s.drop_last());
        assert(rest.last().push(s.last()) =~= s);
        assert(rest.drop_last().push(rest.last().push(s.last())) =~= seq![s]);
    } else {
        assert(s =~= Seq::empty());
    }
}

/// Lines that are joined by newlines are taken apart again as they were.
pub proof fn law_lines_taken_apart(ls: Seq<Seq<char>>)
    requires
        ls.len() > 0,
        forall|i: int| 0 <= i < ls.len() ==> !(#[trigger] ls[i]).contains('\n'),
    ensures
        lines(joined_lines(ls)) == ls,
    decreases ls.len(),
{
    lemma_one_line(ls[ls.len() - 1]);
    if ls.len() == 1 {
        assert(seq![ls[0]] =~= ls);
    } else {
        let rest = ls.drop_last();
        assert forall|i: int| 0 <= i < rest.len() implies !(#[trigger] rest[i]).contains('\n') by {
            assert(rest[i] == ls[i]);
        }
        law_lines_taken_apart(rest);
        lemma_lines_join(joined_lines(rest), ls.last());
        assert(rest + seq![ls.last()] =~= ls);
    }
}

/// A line with blanks around a document, or a line of blanks.
pub ghost struct PaddedLine {
    pub before: Seq<char>,
    pub document: Option<Seq<char>>,
    pub after: Seq<char>,
}

/// White space in a line.
pub open spec fn is_blank(s: Seq<char>) -> bool {
    forall|i: int| 0 <= i < s.len() ==> is_whitespace(#[trigger] s[i]) && s[i] != '\n'
}

impl PaddedLine {
    /// There are only blanks around the document, and the document is a text in
    /// a line that neither begins nor ends in white space.
    pub open spec fn wf(self) -> bool {
        &&& is_blank(self.before)
        &&& is_blank(self.after)
        &&& self.document matches Some(d) ==> {
            &&& d.len() > 0
            &&& !d.contains('\n')
            &&& !is_whitespace(d[0])
            &&& !is_whitespace(d.last())
        }
    }

    /// The text of the line.
    pub open spec fn text(self) -> Seq<char> {
        match self.document {
            Some(d) => self.before + d + self.after,
            None => self.before + self.after,
        }
    }
}

/// The documents in some lines, in order.
pub open spec fn padded_documents(ps: Seq<PaddedLine>) -> Seq<Seq<char>>
    decreases ps.len(),
{
    if ps.len() == 0 {
        Seq::empty()
    } else {
        match ps.last().document {
            Some(d) => padded_documents(ps.drop_last()).push(d),
            None => padded_documents(ps.drop_last()),
        }
    }
}

/// The text that some lines make.
pub open spec fn padded_text(ps: Seq<PaddedLine>) -> Seq<char> {
    joined_lines(ps.map_values(|p: PaddedLine| p.text()))
}

proof fn lemma_trim_nothing(d: Seq<char>)
    requires
        d.len() > 0,
        !is_whitespace(d[0]),
        !is_whitespace(d.last()),
    ensures
        trimmed(d) == d,
{
}

proof fn lemma_padded_line(p: PaddedLine)
    requires
        p.wf(),
    ensures
        !p.text().contains('\n'),
        trimmed(p.text()) == match p.document {
            Some(d) => d,
            None => Seq::empty(),
        },
{
    match p.document {
        Some(d) => {
            law_trim_ignores_padding(p.before, d, p.after);
            lemma_trim_nothing(d);
            if p.text().contains('\n') {
                let i = choose|i: int| 0 <= i < p.text().len() && p.text()[i] == '\n';
                if i < p.before.len() {
                    assert(p.before[i] == '\n');
                } else if i < p.before.len() + d.len() {
                    assert(d[i - p.before.len()] == '\n');
                } else {
                    assert(p.after[i - p.before.len() - d.len()] == '\n');
                }
            }
        },
        None => {
            law_trim_ignores_padding(p.before, Seq::empty(), p.after);
            assert(p.before + Seq::empty() + p.after =~= p.before + p.after);
            if p.text().contains('\n') {
                let i = choose|i: int| 0 <= i < p.text().len() && p.text()[i] == '\n';
                if i < p.before.len() {
                    assert(p.before[i] == '\n');
                } else {
                    assert(p.after[i - p.before.len()] == '\n');
                }
            }
        },
    }
}

proof fn lemma_padded_filter(ps: Seq<PaddedLine>)
    requires
        forall|i: int| 0 <= i < ps.len() ==> (#[trigger] ps[i]).wf(),
    ensures
        ps.map_values(|p: PaddedLine| p.text()).map_values(|l: Seq<char>| trimmed(l)).filter(
            |l: Seq<char>| l.len() > 0,
        ) == padded_documents(ps),
    decreases ps.len(),
{
    reveal(Seq::filter);
    let text_all = |p: PaddedLine| p.text();
    let trim_all = |l: Seq<char>| trimmed(l);
    if ps.len() > 0 {
        let rest = ps.drop_last();
        assert forall|i: int| 0 <= i < rest.len() implies (#[trigger] rest[i]).wf() by {
            assert(rest[i] == ps[i]);
        }
        lemma_padded_filter(rest);
        assert(ps[ps.len() - 1].wf());
        lemma_padded_line(ps.last());
        let all = ps.map_values(text_all).map_values(trim_all);
        assert(all.drop_last() =~= rest.map_values(text_all).map_values(trim_all));
        assert(all.last() == trimmed(ps.last().text()));
    }
}

/// Documents that are joined by newlines, with blanks and lines of blanks added,
/// are taken apart again as they were.
pub proof fn law_documents_taken_apart(ps: Seq<PaddedLine>)
    requires
        ps.len() > 0,
        forall|i: int| 0 <= i < ps.len() ==> (#[trigger] ps[i]).wf(),
    ensures
        line_documents(padded_text(ps)) == padded_documents(ps),
        line_documents(trimmed(padded_text(ps))) == padded_documents(ps),
{
    let ls = ps.map_values(|p: PaddedLine| p.text());
    assert forall|i: int| 0 <= i < ls.len() implies !(#[trigger] ls[i]).contains('\n') by {
        assert(ps[i].wf());
        lemma_padded_line(ps[i]);
    }
    law_lines_taken_apart(ls);
    lemma_padded_filter(ps);
    law_documents_ignore_padding(padded_text(ps));
}

proof fn lemma_first_line(s: Seq<char>)
    requires
        s.len() > 0,
        s[0] != '\n',
    ensures
        lines(s).len() > 0,
        lines(s)[0].len() > 0,
        lines(s)[0][0] == s[0],
{
    let rest = s.drop_first();
    assert(s =~= seq![s[0]] + rest);
    lemma_lines_prepend(s[0], rest);
}

proof fn lemma_leading_starts(s: Seq<char>)
    ensures
        without_leading(s).len() > 0 ==> !is_whitespace(without_leading(s)[0]),
    decreases s.len(),
{
    if s.len() > 0 && is_whitespace(s[0]) {
        lemma_leading_starts(s.drop_first());
    }
}

proof fn lemma_trailing_keeps_first(s: Seq<char>)
    ensures
        s.len() > 0 && !is_whitespace(s[0]) ==> without_trailing(s).len() > 0
            && without_trailing(s)[0] == s[0],
        s.len() == 0 ==> without_trailing(s).len() == 0,
    decreases s.len(),
{
    if s.len() > 0 && is_whitespace(s.last()) {
        lemma_trailing_keeps_first(s.drop_last());
    }
}

/// A text of more than white space begins as its first document does.
proof fn lemma_first_document(s: Seq<char>)
    requires
        trimmed(s).len() > 0,
    ensures
        line_documents(s).len() > 0,
        line_documents(s)[0].len() > 0,
        line_documents(s)[0][0] == trimmed(s)[0],
{
    let t = trimmed(s);
    lemma_leading_starts(s);
    lemma_trailing_keeps_first(without_leading(s));
    assert(!is_whitespace(t[0]));
    law_documents_ignore_padding(s);
    lemma_first_line(t);
    let all = lines(t).map_values(|l: Seq<char>| trimmed(l));
    let has_text = |l: Seq<char>| l.len() > 0;
    let line = lines(t)[0];
    lemma_trailing_keeps_first(line);
    assert(trimmed(line).len() > 0 && trimmed(line)[0] == t[0]);
    assert(all =~= seq![all[0]] + all.skip(1));
    Seq::filter_distributes_over_add(seq![all[0]], all.skip(1), has_text);
    assert(seq![all[0]].filter(has_text) =~= seq![all[0]]) by {
        reveal(Seq::filter);
        assert(seq![all[0]].drop_last() =~= Seq::empty());
        assert(Seq::<Seq<char>>::empty().filter(has_text) =~= Seq::empty());
    }
    assert(all.filter(has_text)[0] == all[0]);
}

/// A parser reads a text as a turn, and as nothing else.
pub open spec fn reads_as_turn<E, L: Fn(&str) -> Result<Turn, E>>(
    parse_line: L,
    text: Seq<char>,
    turn: TurnView,
) -> bool {
    forall|s: &str, outcome: Result<Turn, E>|
        s@ == text && #[trigger] call_ensures(parse_line, (s,), outcome) ==> (
        outcome matches Ok(t) && t@ == turn)
}

/// A parser reads a text as an array of turns, and as nothing else.
pub open spec fn reads_as_array<E, A: Fn(&str) -> Result<Vec<Turn>, E>>(
    parse_array: A,
    text: Seq<char>,
    turns: Seq<TurnView>,
) -> bool {
    forall|s: &str, outcome: Result<Vec<Turn>, E>|
        s@ == text && #[trigger] call_ensures(parse_array, (s,), outcome) ==> (
        outcome matches Ok(ts) && turn_views(ts@) == turns)
}

/// Turns that are written one to a line, as texts that the parser reads back, are
/// read as they were: with blanks and lines of blanks added, and in order.
pub proof fn law_lines_parsed_back<
    E,
    A: Fn(&str) -> Result<Vec<Turn>, E>,
    L: Fn(&str) -> Result<Turn, E>,
>(
    ps: Seq<PaddedLine>,
    turns: Seq<TurnView>,
    parse_array: A,
    parse_line: L,
    outcome: Result<Vec<Turn>, E>,
)
    requires
        ps.len() > 0,
        forall|i: int| 0 <= i < ps.len() ==> (#[trigger] ps[i]).wf(),
        padded_documents(ps).len() == turns.len(),
        turns.len() > 0 ==> padded_documents(ps)[0][0] != '[',
        forall|i: int|
            0 <= i < turns.len() ==> reads_as_turn(
                parse_line,
                #[trigger] padded_documents(ps)[i],
                turns[i],
            ),
        reads_turns(padded_text(ps), parse_array, parse_line, outcome),
    ensures
        outcome matches Ok(ts) && turn_views(ts@) == turns,
{
    let text = padded_text(ps);
    let documents = padded_documents(ps);
    law_documents_taken_apart(ps);
    if trimmed(text).len() > 0 {
        lemma_first_document(text);
    }
    assert(!is_array_text(text));
    assert(line_documents(trimmed(text)) == documents);
    match outcome {
        Ok(ts) => {
            assert forall|i: int| 0 <= i < turns.len() implies turn_views(ts@)[i] == turns[i] by {
                let read: Result<Turn, E> = Ok(ts@[i]);
                assert(parses(parse_line, documents[i], read));
                assert(reads_as_turn(parse_line, documents[i], turns[i]));
            }
            assert(turn_views(ts@) =~= turns);
        },
        Err(error) => {
            let k = choose|k: int| fails_first_at(parse_line, documents, k, error);
            let failed: Result<Turn, E> = Err(error);
            assert(fails_first_at(parse_line, documents, k, error));
            assert(parses(parse_line, documents[k], failed));
            assert(reads_as_turn(parse_line, documents[k], turns[k]));
        },
    }
}

/// Turns that are written as an array, as a text that the parser reads back, are
/// read as they were, with white space around it.
pub proof fn law_array_parsed_back<
    E,
    A: Fn(&str) -> Result<Vec<Turn>, E>,
    L: Fn(&str) -> Result<Turn, E>,
>(
    before: Seq<char>,
    array: Seq<char>,
    after: Seq<char>,
    turns: Seq<TurnView>,
    parse_array: A,
    parse_line: L,
    outcome: Result<Vec<Turn>, E>,
)
    requires
        forall|i: int| 0 <= i < before.len() ==> is_whitespace(#[trigger] before[i]),
        forall|i: int| 0 <= i < after.len() ==> is_whitespace(#[trigger] after[i]),
        array.len() > 0,
        array[0] == '[',
        !is_whitespace(array.last()),
        reads_as_array(parse_array, array, turns),
        reads_turns(before + array + after, parse_array, parse_line, outcome),
    ensures
        outcome matches Ok(ts) && turn_views(ts@) == turns,
{
    law_trim_ignores_padding(before, array, after);
    lemma_trim_nothing(array);
    assert(is_array_text(before + array + after));
    assert(parses(parse_array, array, outcome));
}

/// A text in lines whose documents do not begin with `[` has these documents, and a
/// text that begins with `[` is one document, without the white space around it.
pub proof fn law_documents_told_apart(
    ps: Seq<PaddedLine>,
    before: Seq<char>,
    array: Seq<char>,
    after: Seq<char>,
    documents: SessionText,
)
    ensures
        ({
            &&& ps.len() > 0
            &&& forall|i: int| 0 <= i < ps.len() ==> (#[trigger] ps[i]).wf()
            &&& padded_documents(ps).len() > 0 ==> padded_documents(ps)[0][0] != '['
            &&& are_documents(padded_text(ps), documents)
        }) ==> (documents matches SessionText::Lines(texts) && {
            &&& texts@.len() == padded_documents(ps).len()
            &&& forall|i: int|
                0 <= i < texts@.len() ==> (#[trigger] texts@[i])@ == padded_documents(ps)[i]
        }),
        ({
            &&& forall|i: int| 0 <= i < before.len() ==> is_whitespace(#[trigger] before[i])
            &&& forall|i: int| 0 <= i < after.len() ==> is_whitespace(#[trigger] after[i])
            &&& array.len() > 0
            &&& array[0] == '['
            &&& !is_whitespace(array.last())
            &&& are_documents(before + array + after, documents)
        }) ==> (documents matches SessionText::Array(text) && text@ == array),
{
    if ps.len() > 0 && (forall|i: int| 0 <= i < ps.len() ==> (#[trigger] ps[i]).wf()) && (
    padded_documents(ps).len() > 0 ==> padded_documents(ps)[0][0] != '[') && are_documents(
        padded_text(ps),
        documents,
    ) {
        let text = padded_text(ps);
        law_documents_taken_apart(ps);
        if trimmed(text).len() > 0 {
            lemma_first_document(text);
        }
        assert(documents is Lines);
        let texts = documents->Lines_0@;
        assert forall|i: int| 0 <= i < texts.len() implies (#[trigger] texts[i])@
            == padded_documents(ps)[i] by {
            assert(text_views(texts)[i] == texts[i]@);
        }
    }
    if (forall|i: int| 0 <= i < before.len() ==> is_whitespace(#[trigger] before[i])) && (forall|
        i: int,
    |
        0 <= i < after.len() ==> is_whitespace(#[trigger] after[i])) && array.len() > 0
        && array[0] == '[' && !is_whitespace(array.last()) {
        law_trim_ignores_padding(before, array, after);
        lemma_trim_nothing(array);
    }
}

/// A parser cannot read a text.
pub open spec fn refuses<E, L: Fn(&str) -> Result<Turn, E>>(
    parse_line: L,
    text: Seq<char>,
) -> bool {
    forall|s: &str, outcome: Result<Turn, E>|
        s@ == text && #[trigger] call_ensures(parse_line, (s,), outcome) ==> outcome is Err
}

/// A text with a line that the parser cannot read is not read. The error is the one
/// that the parser gives for the first such line.
pub proof fn law_bad_line_refused<
    E,
    A: Fn(&str) -> Result<Vec<Turn>, E>,
    L: Fn(&str) -> Result<Turn, E>,
>(
    ps: Seq<PaddedLine>,
    turns: Seq<TurnView>,
    k: int,
    parse_array: A,
    parse_line: L,
    outcome: Result<Vec<Turn>, E>,
)
    requires
        ps.len() > 0,
        forall|i: int| 0 <= i < ps.len() ==> (#[trigger] ps[i]).wf(),
        padded_documents(ps)[0][0] != '[',
        0 <= k < padded_documents(ps).len(),
        forall|i: int|
            0 <= i < k ==> reads_as_turn(parse_line, #[trigger] padded_documents(ps)[i], turns[i]),
        refuses(parse_line, padded_documents(ps)[k]),
        reads_turns(padded_text(ps), parse_array, parse_line, outcome),
    ensures
        outcome is Err,
        exists|s: &str|
            s@ == padded_documents(ps)[k] && #[trigger] call_ensures(
                parse_line,
                (s,),
                Err::<Turn, E>(outcome->Err_0),
            ),
{
    let text = padded_text(ps);
    let documents = padded_documents(ps);
    law_documents_taken_apart(ps);
    if trimmed(text).len() > 0 {
        lemma_first_document(text);
    }
    assert(!is_array_text(text));
    assert(line_documents(trimmed(text)) == documents);
    match outcome {
        Ok(ts) => {
            let read: Result<Turn, E> = Ok(ts@[k]);
            assert(parses(parse_line, documents[k], read));
        },
        Err(error) => {
            let j = choose|j: int| fails_first_at(parse_line, documents, j, error);
            let failed: Result<Turn, E> = Err(error);
            assert(fails_first_at(parse_line, documents, j, error));
            assert(parses(parse_line, documents[j], failed));
            if j < k {
                assert(reads_as_turn(parse_line, documents[j], turns[j]));
            } else if j > k {
                assert(can_parse(parse_line, documents[k]));
                let value = choose|value: Turn| #[trigger]
                    parses(parse_line, documents[k], Ok::<Turn, E>(value));
                let read: Result<Turn, E> = Ok(value);
                assert(parses(parse_line, documents[k], read));
            }
        },
    }
}

/// A text that begins with `[` is handed to the parser of arrays, without the white
/// space around it, and what the parser gives is the outcome.
pub proof fn law_array_outcome<
    E,
    A: Fn(&str) -> Result<Vec<Turn>, E>,
    L: Fn(&str) -> Result<Turn, E>,
>(
    before: Seq<char>,
    array: Seq<char>,
    after: Seq<char>,
    parse_array: A,
    parse_line: L,
    outcome: Result<Vec<Turn>, E>,
)
    requires
        forall|i: int| 0 <= i < before.len() ==> is_whitespace(#[trigger] before[i]),
        forall|i: int| 0 <= i < after.len() ==> is_whitespace(#[trigger] after[i]),
        array.len() > 0,
        array[0] == '[',
        !is_whitespace(array.last()),
        reads_turns(before + array + after, parse_array, parse_line, outcome),
    ensures
        exists|s: &str| s@ == array && #[trigger] call_ensures(parse_array, (s,), outcome),
{
    law_trim_ignores_padding(before, array, after);
    lemma_trim_nothing(array);
    assert(is_array_text(before + array + after));
    assert(parses(parse_array, array, outcome));
}

} // verus!
