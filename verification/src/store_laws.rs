//! What holds of the rows that are written and read, column by column.

use vstd::prelude::*;

use crate::model::{Session, SessionView, ToolCallView, Turn, TurnView};
use crate::scanner::{mark_map, FileMark};
use crate::store::{
    has_four_digit_years, has_valid_moments, is_file_row, is_result_row, is_session_writes,
    is_turn_row, law_second_save_keeps_creation, law_session_saved_and_loaded, law_turn_read_back,
    lemma_count_kept, reads_back, reads_back_turn, stored_marks, stored_session, stored_turn,
    stored_turns, FileRow, ResultRow, SessionWrites, StoredSession, StoredTurn, TurnRow,
};
use crate::strategy::CompactionResult;
use crate::time::{rfc3339_moment, rfc3339_text, Timestamp};

verus! {

proof fn lemma_small_count(n: usize)
    ensures
        n <= i64::MAX ==> n as i64 == n,
{
    assert(n <= 0x7fff_ffff_ffff_ffff ==> n as i64 == n) by (bit_vector);
}

/// The row of a turn holds all of the turn: each text as it is, its calls as the
/// JSON that was handed over, its moment as `chrono` writes it, and its counts.
pub proof fn law_turn_row_holds_turn(
    session_id: Seq<char>,
    turn: Turn,
    tool_calls: Seq<char>,
    archived: bool,
    row: TurnRow,
)
    requires
        is_turn_row(session_id, turn, tool_calls, archived, row),
    ensures
        row.id@ == turn.id@,
        row.session_id@ == session_id,
        row.role@ == turn.role@,
        row.content@ == turn.content@,
        row.tool_calls@ == tool_calls,
        row.created_at@ == rfc3339_text(turn.created_at.secs, turn.created_at.nanos),
        turn.input_tokens <= i64::MAX ==> row.input_tokens == turn.input_tokens,
        turn.output_tokens <= i64::MAX ==> row.output_tokens == turn.output_tokens,
        row.input_tokens as usize == turn.input_tokens,
        row.output_tokens as usize == turn.output_tokens,
        archived ==> row.archived == 1,
        !archived ==> row.archived == 0,
{
    lemma_small_count(turn.input_tokens);
    lemma_small_count(turn.output_tokens);
    lemma_count_kept(turn.input_tokens);
    lemma_count_kept(turn.output_tokens);
}

/// What is written of a session holds all of it: its row, with the moment of
/// creation that is there already where one is; a row for each turn, in order, that
/// is not archived and has the JSON of its calls; and a row for its file, if it has
/// one.
pub proof fn law_writes_hold_session(
    session: Session,
    mark: Option<FileMark>,
    first_seen: Option<Seq<char>>,
    tool_calls: Seq<Seq<char>>,
    writes: SessionWrites,
)
    requires
        is_session_writes(session, mark, first_seen, tool_calls, writes),
    ensures
        writes.session.id@ == session.id@,
        first_seen matches Some(text) ==> writes.session.created_at@ == text,
        first_seen is None ==> writes.session.created_at@ == rfc3339_text(
            session.created_at.secs,
            session.created_at.nanos,
        ),
        session.last_compacted_at is None ==> writes.session.last_compacted_at is None,
        session.last_compacted_at matches Some(t) ==> (
        writes.session.last_compacted_at matches Some(text) && text@ == rfc3339_text(
            t.secs,
            t.nanos,
        )),
        session.turns@.len() <= i64::MAX && session.turns@.len() <= usize::MAX
            ==> writes.session.turn_count == session.turns@.len(),
        writes.turns@.len() == session.turns@.len(),
        forall|i: int|
            0 <= i < session.turns@.len() ==> {
                let turn = session.turns@[i];
                let row = #[trigger] writes.turns@[i];
                &&& row.id@ == turn.id@
                &&& row.session_id@ == session.id@
                &&& row.role@ == turn.role@
                &&& row.content@ == turn.content@
                &&& row.tool_calls@ == tool_calls[i]
                &&& row.created_at@ == rfc3339_text(turn.created_at.secs, turn.created_at.nanos)
                &&& row.input_tokens as usize == turn.input_tokens
                &&& row.output_tokens as usize == turn.output_tokens
                &&& row.archived == 0
            },
        mark is None ==> writes.file is None,
        mark matches Some(m) ==> (writes.file matches Some(row) && {
            &&& row.session_id@ == session.id@
            &&& row.path@ == m.path@
            &&& row.length as usize == m.fingerprint.length
            &&& row.digest@ == m.fingerprint.digest@
        }),
{
    if session.turns@.len() <= usize::MAX {
        lemma_small_count(session.turns@.len() as usize);
    }
    assert forall|i: int| 0 <= i < session.turns@.len() implies {
        let turn = session.turns@[i];
        let row = #[trigger] writes.turns@[i];
        &&& row.id@ == turn.id@
        &&& row.session_id@ == session.id@
        &&& row.role@ == turn.role@
        &&& row.content@ == turn.content@
        &&& row.tool_calls@ == tool_calls[i]
        &&& row.created_at@ == rfc3339_text(turn.created_at.secs, turn.created_at.nanos)
        &&& row.input_tokens as usize == turn.input_tokens
        &&& row.output_tokens as usize == turn.output_tokens
        &&& row.archived == 0
    } by {
        law_turn_row_holds_turn(
            session.id@,
            session.turns@[i],
            tool_calls[i],
            false,
            writes.turns@[i],
        );
    }
    if let Some(m) = mark {
        lemma_count_kept(m.fingerprint.length);
    }
}

/// The row of a file holds the path, and the length and the hash of its text.
pub proof fn law_file_row_holds_mark(session_id: Seq<char>, mark: FileMark, row: FileRow)
    requires
        is_file_row(session_id, mark, row),
    ensures
        row.session_id@ == session_id,
        row.path@ == mark.path@,
        row.length as usize == mark.fingerprint.length,
        mark.fingerprint.length <= i64::MAX ==> row.length == mark.fingerprint.length,
        row.digest@ == mark.fingerprint.digest@,
{
    lemma_count_kept(mark.fingerprint.length);
    lemma_small_count(mark.fingerprint.length);
}

/// The row of a result holds all of the result, each number in its own column.
pub proof fn law_result_row_holds_result(result: CompactionResult, row: ResultRow)
    requires
        is_result_row(result, row),
    ensures
        row.session_id@ == result.session_id@,
        row.duplicates_removed as usize == result.metrics.duplicates_removed,
        row.continuation_turns_collapsed as usize == result.metrics.continuation_turns_collapsed,
        row.turns_archived as usize == result.metrics.turns_archived,
        row.token_bytes_saved as usize == result.metrics.token_bytes_saved,
        row.turns_remaining as usize == result.metrics.turns_remaining,
        row.compacted_at@ == rfc3339_text(result.compacted_at.secs, result.compacted_at.nanos),
{
    lemma_count_kept(result.metrics.duplicates_removed);
    lemma_count_kept(result.metrics.continuation_turns_collapsed);
    lemma_count_kept(result.metrics.turns_archived);
    lemma_count_kept(result.metrics.token_bytes_saved);
    lemma_count_kept(result.metrics.turns_remaining);
}

/// A turn is read from its columns as they are, with the calls that were parsed; a
/// moment that `chrono` does not read counts as `now`.
pub proof fn law_turn_read_from_columns(
    row: StoredTurn,
    calls: Seq<ToolCallView>,
    now: Timestamp,
)
    ensures
        ({
            let turn = stored_turn(row, calls, now);
            &&& turn.id == row.id@
            &&& turn.role == row.role@
            &&& turn.content == row.content@
            &&& turn.tool_calls == calls
            &&& rfc3339_moment(row.created_at@) matches Some((secs, nanos)) ==> {
                &&& turn.created_at.secs == secs
                &&& turn.created_at.nanos == nanos
            }
            &&& rfc3339_moment(row.created_at@) is None ==> turn.created_at == now
            &&& turn.input_tokens == row.input_tokens as usize
            &&& turn.output_tokens == row.output_tokens as usize
        }),
{
}

/// A session is read from its columns as they are, with the turns that were read; a
/// moment of creation that `chrono` does not read counts as `now`, and one of
/// compaction as none.
pub proof fn law_session_read_from_columns(
    row: StoredSession,
    turns: Seq<TurnView>,
    now: Timestamp,
)
    ensures
        ({
            let session = stored_session(row, turns, now);
            &&& session.id == row.id@
            &&& session.turns == turns
            &&& rfc3339_moment(row.created_at@) matches Some((secs, nanos)) ==> {
                &&& session.created_at.secs == secs
                &&& session.created_at.nanos == nanos
            }
            &&& rfc3339_moment(row.created_at@) is None ==> session.created_at == now
            &&& row.last_compacted_at is None ==> session.last_compacted_at is None
            &&& row.last_compacted_at matches Some(text) ==> match rfc3339_moment(text@) {
                Some((secs, nanos)) => session.last_compacted_at == Some(
                    Timestamp { secs, nanos },
                ),
                None => session.last_compacted_at is None,
            }
        }),
{
}

/// A session can be written exactly if the calendar holds the moments of its
/// creation, of its last compaction, if there was one, and of all its turns.
pub proof fn law_valid_moments(session: Session)
    ensures
        has_valid_moments(session@) <==> {
            &&& session.created_at.wf()
            &&& session.last_compacted_at is None || session.last_compacted_at->Some_0.wf()
            &&& forall|i: int|
                0 <= i < session.turns@.len() ==> (#[trigger] session.turns@[i]).created_at.wf()
        },
{
    if has_valid_moments(session@) {
        assert forall|i: int| 0 <= i < session.turns@.len() implies (
        #[trigger] session.turns@[i]).created_at.wf() by {
            assert(session@.turns[i].created_at.wf());
        }
    }
}

/// A turn that is written and read again is the turn that was written, with its
/// calls, where the parser reads the JSON of the calls as these calls: what it is
/// given is the column of the row.
pub proof fn law_turn_round_trip(
    read_calls: spec_fn(Seq<char>) -> Option<Seq<ToolCallView>>,
    session_id: Seq<char>,
    turn: Turn,
    tool_calls: Seq<char>,
    archived: bool,
    written: TurnRow,
    read: StoredTurn,
    now: Timestamp,
)
    requires
        turn.created_at.has_four_digit_year(),
        read_calls(tool_calls) == Some(turn@.tool_calls),
        is_turn_row(session_id, turn, tool_calls, archived, written),
        reads_back_turn(written, read),
    ensures
        read_calls(written.tool_calls@) matches Some(calls) && stored_turn(read, calls, now)
            == turn@,
{
    law_turn_read_back(session_id, turn, tool_calls, archived, written, read, now);
}

/// The rows that are read are those that were written, in order.
pub open spec fn rows_read(
    writes: SessionWrites,
    row: StoredSession,
    turns: Seq<StoredTurn>,
) -> bool {
    &&& row.id@ == writes.session.id@
    &&& row.created_at@ == writes.session.created_at@
    &&& row.last_compacted_at is None <==> writes.session.last_compacted_at is None
    &&& row.last_compacted_at is Some ==> row.last_compacted_at->Some_0@
        == writes.session.last_compacted_at->Some_0@
    &&& turns.len() == writes.turns@.len()
    &&& forall|i: int|
        0 <= i < turns.len() ==> {
            let written = writes.turns@[i];
            let read = #[trigger] turns[i];
            &&& read.id@ == written.id@
            &&& read.role@ == written.role@
            &&& read.content@ == written.content@
            &&& read.created_at@ == written.created_at@
            &&& read.input_tokens == written.input_tokens
            &&& read.output_tokens == written.output_tokens
        }
}

/// The calls that a parser reads in the columns of the rows that were written.
pub open spec fn calls_in_columns(
    read_calls: spec_fn(Seq<char>) -> Option<Seq<ToolCallView>>,
    writes: SessionWrites,
) -> Seq<Seq<ToolCallView>> {
    Seq::new(
        writes.turns@.len(),
        |i: int| read_calls(writes.turns@[i].tool_calls@)->Some_0,
    )
}

proof fn lemma_rows_read(
    read_calls: spec_fn(Seq<char>) -> Option<Seq<ToolCallView>>,
    session: Session,
    mark: Option<FileMark>,
    first_seen: Option<Seq<char>>,
    tool_calls: Seq<Seq<char>>,
    writes: SessionWrites,
    row: StoredSession,
    turns: Seq<StoredTurn>,
)
    requires
        forall|i: int|
            0 <= i < session.turns@.len() ==> read_calls(#[trigger] tool_calls[i]) == Some(
                session@.turns[i].tool_calls,
            ),
        is_session_writes(session, mark, first_seen, tool_calls, writes),
        rows_read(writes, row, turns),
    ensures
        reads_back(session@, writes, row, turns, calls_in_columns(read_calls, writes)),
{
    law_writes_hold_session(session, mark, first_seen, tool_calls, writes);
    let calls = calls_in_columns(read_calls, writes);
    assert forall|i: int| 0 <= i < calls.len() implies #[trigger] calls[i]
        == session@.turns[i].tool_calls by {
        assert(writes.turns@[i].tool_calls@ == tool_calls[i]);
    }
}

/// A session that is saved under an identifier that was not there and loaded again
/// is the session that was saved, with the calls of its turns, where the parser
/// reads the JSON of the calls of each turn as these calls: what it is given is the
/// column of the turn's row.
pub proof fn law_session_round_trip(
    read_calls: spec_fn(Seq<char>) -> Option<Seq<ToolCallView>>,
    session: Session,
    mark: Option<FileMark>,
    tool_calls: Seq<Seq<char>>,
    writes: SessionWrites,
    row: StoredSession,
    turns: Seq<StoredTurn>,
    now: Timestamp,
)
    requires
        session.created_at.has_four_digit_year(),
        has_four_digit_years(session@),
        forall|i: int|
            0 <= i < session.turns@.len() ==> read_calls(#[trigger] tool_calls[i]) == Some(
                session@.turns[i].tool_calls,
            ),
        is_session_writes(session, mark, None, tool_calls, writes),
        rows_read(writes, row, turns),
    ensures
        stored_session(
            row,
            stored_turns(turns, calls_in_columns(read_calls, writes), now),
            now,
        ) == session@,
{
    lemma_rows_read(read_calls, session, mark, None, tool_calls, writes, row, turns);
    law_session_saved_and_loaded(
        session,
        mark,
        tool_calls,
        writes,
        row,
        turns,
        calls_in_columns(read_calls, writes),
        now,
    );
}

/// A session that is saved over another and loaded again is the session that was
/// saved last, with the calls of its turns, but for the moment of creation: that is
/// the one of the first.
pub proof fn law_second_round_trip(
    read_calls: spec_fn(Seq<char>) -> Option<Seq<ToolCallView>>,
    first: Session,
    first_mark: Option<FileMark>,
    first_calls: Seq<Seq<char>>,
    first_writes: SessionWrites,
    second: Session,
    second_mark: Option<FileMark>,
    second_calls: Seq<Seq<char>>,
    second_writes: SessionWrites,
    row: StoredSession,
    turns: Seq<StoredTurn>,
    now: Timestamp,
)
    requires
        first.created_at.has_four_digit_year(),
        is_session_writes(first, first_mark, None, first_calls, first_writes),
        has_four_digit_years(second@),
        forall|i: int|
            0 <= i < second.turns@.len() ==> read_calls(#[trigger] second_calls[i]) == Some(
                second@.turns[i].tool_calls,
            ),
        is_session_writes(
            second,
            second_mark,
            Some(first_writes.session.created_at@),
            second_calls,
            second_writes,
        ),
        rows_read(second_writes, row, turns),
    ensures
        stored_session(
            row,
            stored_turns(turns, calls_in_columns(read_calls, second_writes), now),
            now,
        ) == (SessionView { created_at: first.created_at, ..second@ }),
{
    let there = StoredSession {
        id: first_writes.session.id,
        created_at: first_writes.session.created_at,
        last_compacted_at: first_writes.session.last_compacted_at,
    };
    lemma_rows_read(
        read_calls,
        second,
        second_mark,
        Some(first_writes.session.created_at@),
        second_calls,
        second_writes,
        row,
        turns,
    );
    law_second_save_keeps_creation(
        first,
        first_mark,
        first_calls,
        first_writes,
        there,
        second,
        second_mark,
        second_calls,
        second_writes,
        row,
        turns,
        calls_in_columns(read_calls, second_writes),
        now,
    );
}

/// The rows of files give the fingerprint of each path that has a row, and of no
/// other: that of the last row with the path.
pub proof fn law_marks_read_from_rows(rows: Seq<FileRow>, path: Seq<u8>) -> (last: Option<int>)
    ensures
        match last {
            Some(i) => {
                &&& 0 <= i < rows.len()
                &&& rows[i].path@ == path
                &&& forall|j: int| i < j < rows.len() ==> (#[trigger] rows[j]).path@ != path
                &&& stored_marks(rows).contains_key(path)
                &&& stored_marks(rows)[path].length == rows[i].length as usize
                &&& stored_marks(rows)[path].digest == rows[i].digest@
            },
            None => {
                &&& forall|j: int| 0 <= j < rows.len() ==> (#[trigger] rows[j]).path@ != path
                &&& !stored_marks(rows).contains_key(path)
            },
        },
    decreases rows.len(),
{
    if rows.len() == 0 {
        None
    } else if rows.last().path@ == path {
        Some(rows.len() - 1)
    } else {
        let rest = rows.drop_last();
        let last = law_marks_read_from_rows(rest, path);
        let from = match last {
            Some(i) => i + 1,
            None => 0,
        };
        assert forall|j: int| from <= j < rows.len() implies (#[trigger] rows[j]).path@ != path by {
            if j < rest.len() {
                assert(rest[j] == rows[j]);
            }
        }
        last
    }
}

/// The marks of a session give the fingerprint of each path that has a mark, and of
/// no other: that of the last mark with the path.
pub proof fn law_marks_by_path(files: Seq<FileMark>, path: Seq<u8>) -> (last: Option<int>)
    ensures
        match last {
            Some(i) => {
                &&& 0 <= i < files.len()
                &&& files[i].path@ == path
                &&& forall|j: int| i < j < files.len() ==> (#[trigger] files[j]).path@ != path
                &&& mark_map(files).contains_key(path)
                &&& mark_map(files)[path].length == files[i].fingerprint.length
                &&& mark_map(files)[path].digest == files[i].fingerprint.digest@
            },
            None => {
                &&& forall|j: int| 0 <= j < files.len() ==> (#[trigger] files[j]).path@ != path
                &&& !mark_map(files).contains_key(path)
            },
        },
    decreases files.len(),
{
    if files.len() == 0 {
        None
    } else if files.last().path@ == path {
        Some(files.len() - 1)
    } else {
        let rest = files.drop_last();
        let last = law_marks_by_path(rest, path);
        let from = match last {
            Some(i) => i + 1,
            None => 0,
        };
        assert forall|j: int| from <= j < files.len() implies (#[trigger] files[j]).path@
            != path by {
            if j < rest.len() {
                assert(rest[j] == files[j]);
            }
        }
        last
    }
}

} // verus!
