//! Reading sessions from text.

use vstd::prelude::*;

use crate::model::{Session, Turn};
use crate::text::{chars_of, string_of, trim_chars, trimmed};
use crate::time::utc_now;

verus! {

/// The lines of a text: what stands between its newlines.
pub open spec fn lines(s: Seq<char>) -> Seq<Seq<char>>
    decreases s.len(),
{
    if s.len() == 0 {
        seq![Seq::empty()]
    } else {
        let rest = lines(s.drop_last());
        if s.last() == '\n' {
            rest.push(Seq::empty())
        } else {
            rest.drop_last().push(rest.last().push(s.last()))
        }
    }
}

/// The lines of a text that hold more than white space, each without the white
/// space around it.
pub open spec fn line_documents(s: Seq<char>) -> Seq<Seq<char>> {
    lines(s).map_values(|l: Seq<char>| trimmed(l)).filter(|l: Seq<char>| l.len() > 0)
}

/// A session text that is one JSON array of turns.
pub open spec fn is_array_text(s: Seq<char>) -> bool {
    trimmed(s).len() > 0 && trimmed(s).first() == '['
}

/// The JSON documents of a session text.
#[derive(Debug, Clone, PartialEq)]
pub enum SessionText {
    /// One array of turns.
    Array(String),
    /// One turn each.
    Lines(Vec<String>),
}

/// The texts of a vector as mathematical values.
pub open spec fn text_views(texts: Seq<String>) -> Seq<Seq<char>> {
    texts.map_values(|t: String| t@)
}

/// The documents of a session text: the whole text where it begins with `[`,
/// and else each line that is not blank. White space around them is left out.
pub open spec fn are_documents(text: Seq<char>, documents: SessionText) -> bool {
    match documents {
        SessionText::Array(array) => is_array_text(text) && array@ == trimmed(text),
        SessionText::Lines(turns) => !is_array_text(text) && text_views(turns@) == line_documents(
            trimmed(text),
        ),
    }
}

/// A text has a line at least.
pub(crate) proof fn lemma_lines_not_empty(s: Seq<char>)
    ensures
        lines(s).len() > 0,
    decreases s.len(),
{
    if s.len() > 0 {
        lemma_lines_not_empty(s.drop_last());
    }
}

/// The documents among some lines.
spec fn documents_of(ls: Seq<Seq<char>>) -> Seq<Seq<char>> {
    ls.map_values(|l: Seq<char>| trimmed(l)).filter(|l: Seq<char>| l.len() > 0)
}

proof fn lemma_documents_push(ls: Seq<Seq<char>>, l: Seq<char>)
    ensures
        documents_of(ls.push(l)) == if trimmed(l).len() > 0 {
            documents_of(ls).push(trimmed(l))
        } else {
            documents_of(ls)
        },
{
    reveal(Seq::filter);
    let trim_all = |l: Seq<char>| trimmed(l);
    assert(ls.push(l).map_values(trim_all).drop_last() =~= ls.map_values(trim_all));
    assert(ls.push(l).map_values(trim_all).last() == trimmed(l));
}

fn push_document(documents: &mut Vec<String>, line: &Vec<char>)
    ensures
        text_views(final(documents)@) == if trimmed(line@).len() > 0 {
            text_views(old(documents)@).push(trimmed(line@))
        } else {
            text_views(old(documents)@)
        },
{
    let ghost before = text_views(documents@);
    let kept = trim_chars(line);
    if kept.len() > 0 {
        documents.push(string_of(&kept));
        assert(text_views(documents@) =~= before.push(kept@));
    }
}

fn line_texts(chars: &Vec<char>) -> (documents: Vec<String>)
    ensures
        text_views(documents@) == line_documents(chars@),
{
    let mut documents: Vec<String> = Vec::new();
    let mut line: Vec<char> = Vec::new();
    let mut i: usize = 0;
    proof {
        reveal(Seq::filter);
        assert(chars@.take(0) =~= Seq::empty());
        assert(lines(chars@.take(0)).drop_last() =~= Seq::empty());
        assert(lines(chars@.take(0)).last() =~= Seq::empty());
        assert(text_views(documents@) =~= documents_of(Seq::empty()));
    }
    while i < chars.len()
        invariant
            i <= chars@.len(),
            lines(chars@.take(i as int)).len() > 0,
            line@ == lines(chars@.take(i as int)).last(),
            text_views(documents@) == documents_of(lines(chars@.take(i as int)).drop_last()),
        decreases chars@.len() - i,
    {
        let ghost rest = lines(chars@.take(i as int));
        proof {
            assert(chars@.take(i + 1).drop_last() =~= chars@.take(i as int));
            assert(chars@.take(i + 1).last() == chars@[i as int]);
            lemma_lines_not_empty(chars@.take(i + 1));
        }
        if chars[i] == '\n' {
            push_document(&mut documents, &line);
            proof {
                lemma_documents_push(rest.drop_last(), rest.last());
                assert(rest.drop_last().push(rest.last()) =~= rest);
                assert(rest.push(Seq::empty()).drop_last() =~= rest);
            }
            line = Vec::new();
        } else {
            line.push(chars[i]);
            assert(rest.drop_last().push(rest.last().push(chars@[i as int])).drop_last()
                =~= rest.drop_last());
        }
        i = i + 1;
    }
    push_document(&mut documents, &line);
    proof {
        assert(chars@.take(i as int) =~= chars@);
        let all = lines(chars@);
        lemma_documents_push(all.drop_last(), all.last());
        assert(all.drop_last().push(all.last()) =~= all);
    }
    documents
}

/// The JSON documents of a session text.
pub fn session_documents(text: &str) -> (documents: SessionText)
    ensures
        are_documents(text@, documents),
{
    let chars = chars_of(text);
    let kept = trim_chars(&chars);
    if kept.len() > 0 && kept[0] == '[' {
        SessionText::Array(string_of(&kept))
    } else {
        SessionText::Lines(line_texts(&kept))
    }
}

/// A parser gives an outcome for a text.
pub open spec fn parses<T, E, P: Fn(&str) -> Result<T, E>>(
    parser: P,
    text: Seq<char>,
    outcome: Result<T, E>,
) -> bool {
    exists|s: &str| s@ == text && #[trigger] call_ensures(parser, (s,), outcome)
}

/// A parser can read a text.
pub open spec fn can_parse<T, E, P: Fn(&str) -> Result<T, E>>(parser: P, text: Seq<char>) -> bool {
    exists|value: T| #[trigger] parses(parser, text, Ok(value))
}

/// The first of some documents that cannot be read is number `k`, and the error
/// is its own.
pub open spec fn fails_first_at<T, E, P: Fn(&str) -> Result<T, E>>(
    parser: P,
    documents: Seq<Seq<char>>,
    k: int,
    error: E,
) -> bool {
    &&& 0 <= k < documents.len()
    &&& parses(parser, documents[k], Err(error))
    &&& forall|i: int| 0 <= i < k ==> can_parse(parser, #[trigger] documents[i])
}

/// The outcome of reading the turns of a session text: of an array, what its
/// parser gives; of lines, all their turns in order, or the error of the first
/// line that has one.
pub open spec fn reads_turns<
    E,
    A: Fn(&str) -> Result<Vec<Turn>, E>,
    L: Fn(&str) -> Result<Turn, E>,
>(text: Seq<char>, parse_array: A, parse_line: L, outcome: Result<Vec<Turn>, E>) -> bool {
    if is_array_text(text) {
        parses(parse_array, trimmed(text), outcome)
    } else {
        let documents = line_documents(trimmed(text));
        match outcome {
            Ok(turns) => {
                &&& turns@.len() == documents.len()
                &&& forall|i: int|
                    #![trigger turns@[i]]
                    0 <= i < documents.len() ==> parses(parse_line, documents[i], Ok(turns@[i]))
            },
            Err(error) => exists|k: int| fails_first_at(parse_line, documents, k, error),
        }
    }
}

/// Reads the turns of a session text with the given parsers of JSON.
///
/// # Errors
///
/// Returns the error of a parser.
pub fn parse_turns<
    E,
    A: Fn(&str) -> Result<Vec<Turn>, E>,
    L: Fn(&str) -> Result<Turn, E>,
>(text: &str, parse_array: A, parse_line: L) -> (outcome: Result<Vec<Turn>, E>)
    requires
        forall|s: &str| call_requires(parse_array, (s,)),
        forall|s: &str| call_requires(parse_line, (s,)),
    ensures
        reads_turns(text@, parse_array, parse_line, outcome),
{
    match session_documents(text) {
        SessionText::Array(array) => parse_array(array.as_str()),
        SessionText::Lines(documents) => {
            let ghost shown = text_views(documents@);
            let mut turns: Vec<Turn> = Vec::with_capacity(documents.len());
            let mut i: usize = 0;
            while i < documents.len()
                invariant
                    i <= documents@.len(),
                    !is_array_text(text@),
                    shown == text_views(documents@),
                    shown == line_documents(trimmed(text@)),
                    turns@.len() == i,
                    forall|s: &str| call_requires(parse_line, (s,)),
                    forall|j: int|
                        #![trigger turns@[j]]
                        0 <= j < i ==> parses(parse_line, shown[j], Ok(turns@[j])),
                decreases documents@.len() - i,
            {
                let document = documents[i].as_str();
                assert(document@ == shown[i as int]);
                let read = parse_line(document);
                assert(call_ensures(parse_line, (document,), read));
                match read {
                    Ok(turn) => {
                        turns.push(turn);
                    },
                    Err(error) => {
                        proof {
                            assert(parses(parse_line, shown[i as int], Err(error)));
                            assert forall|j: int| 0 <= j < i implies can_parse(
                                parse_line,
                                #[trigger] shown[j],
                            ) by {
                                assert(parses(parse_line, shown[j], Ok(turns@[j])));
                            }
                            let documents = line_documents(trimmed(text@));
                            assert(fails_first_at(parse_line, documents, i as int, error));
                            let failed: Result<Vec<Turn>, E> = Err(error);
                            assert(failed->Err_0 == error);
                        }
                        return Err(error);
                    },
                }
                i = i + 1;
            }
            Ok(turns)
        },
    }
}

/// Parse a session from a JSON array of turns or JSONL text.
///
/// If `text` begins with `[` it is parsed as a JSON array of turns; otherwise
/// each non-empty line is parsed as a [`Turn`]. The parsers of JSON are given.
///
/// # Errors
///
/// Returns an error if the text is not valid JSON/JSONL.
pub fn parse_session_text<
    E,
    A: Fn(&str) -> Result<Vec<Turn>, E>,
    L: Fn(&str) -> Result<Turn, E>,
>(id: &str, text: &str, parse_array: A, parse_line: L) -> (outcome: Result<Session, E>)
    requires
        forall|s: &str| call_requires(parse_array, (s,)),
        forall|s: &str| call_requires(parse_line, (s,)),
    ensures
        match outcome {
            Ok(session) => {
                &&& reads_turns(text@, parse_array, parse_line, Ok(session.turns))
                &&& session.id@ == id@
                &&& session.created_at.is_clock_reading()
                &&& session.last_compacted_at is None
            },
            Err(error) => reads_turns(text@, parse_array, parse_line, Err(error)),
        },
{
    match parse_turns(text, parse_array, parse_line) {
        Ok(turns) => Ok(
            Session { id: id.to_owned(), turns, created_at: utc_now(), last_compacted_at: None },
        ),
        Err(error) => Err(error),
    }
}

} // verus!
