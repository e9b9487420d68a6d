//! What the store writes of sessions, turns and results, and what it makes of
//! the rows that it reads.
//!
//! The database keeps numbers as signed 64-bit integers and moments as text.
//! Running the statements is left to whoever holds the connection.

use vstd::prelude::*;
use vstd::string::*;

use crate::api::{
    archived_in, bytes_in, continuations_in, duplicates_in, remaining_in, sums_fit, total,
};
use crate::digest::{Fingerprint, FingerprintView};
use crate::model::{
    call_views, turn_views, Session, SessionId, SessionView, ToolCall, ToolCallView, Turn, TurnId,
    TurnView,
};
use crate::parse::text_views;
use crate::paths::copied;
use crate::scanner::{
    mark_map, result_views, FileMark, ResultView, SavedSession,
};
use crate::strategy::{CompactionMetrics, CompactionResult};
use crate::text::text_in;
use crate::time::{
    from_rfc3339, moment_or, rfc3339_moment, rfc3339_text, to_rfc3339, utc_now, Timestamp,
};

verus! {

broadcast use vstd::string::group_string_axioms;

/// A row of the table of sessions.
#[derive(Debug, Clone, PartialEq)]
pub struct SessionRow {
    pub id: SessionId,
    pub created_at: String,
    pub last_compacted_at: Option<String>,
    pub turn_count: i64,
}

/// A row of the table of imported files.
#[derive(Debug, Clone, PartialEq)]
pub struct FileRow {
    pub session_id: SessionId,
    pub path: Vec<u8>,
    /// The length in the fingerprint of the file.
    pub length: i64,
    /// The hash in that fingerprint.
    pub digest: String,
}

/// A row of the table of turns.
#[derive(Debug, Clone, PartialEq)]
pub struct TurnRow {
    pub id: TurnId,
    pub session_id: SessionId,
    pub role: String,
    pub content: String,
    /// The tool calls in JSON.
    pub tool_calls: String,
    pub created_at: String,
    pub input_tokens: i64,
    pub output_tokens: i64,
    pub archived: i64,
}

/// A row of the table of results.
#[derive(Debug, Clone, PartialEq)]
pub struct ResultRow {
    pub session_id: SessionId,
    pub duplicates_removed: i64,
    pub continuation_turns_collapsed: i64,
    pub turns_archived: i64,
    pub token_bytes_saved: i64,
    pub turns_remaining: i64,
    pub compacted_at: String,
}

/// What is written when a session is saved: its row, and then, once the turns of
/// the session that are not archived are gone, the rows of its turns, in order.
/// Where the session was read from a file, the row of the file takes the place of
/// the one with the same path; elsewhere the rows of all its files go.
#[derive(Debug, Clone, PartialEq)]
pub struct SessionWrites {
    pub session: SessionRow,
    pub turns: Vec<TurnRow>,
    pub file: Option<FileRow>,
}

/// The columns of a session that are read back.
#[derive(Debug, Clone, PartialEq)]
pub struct StoredSession {
    pub id: SessionId,
    pub created_at: String,
    pub last_compacted_at: Option<String>,
}

/// The columns of a turn that are read back, but for the tool calls.
#[derive(Debug, Clone, PartialEq)]
pub struct StoredTurn {
    pub id: TurnId,
    pub role: String,
    pub content: String,
    pub created_at: String,
    pub input_tokens: i64,
    pub output_tokens: i64,
}

/// The sums over the columns of the table of results.
#[derive(Debug, Clone, Copy, PartialEq)]
pub struct ResultSums {
    pub duplicates_removed: i64,
    pub continuation_turns_collapsed: i64,
    pub turns_archived: i64,
    pub token_bytes_saved: i64,
    pub turns_remaining: i64,
}

/// A text holds a moment: it is how the moment is written, and it is read as
/// that moment where the year has four digits, and as none elsewhere.
pub open spec fn holds_moment(text: Seq<char>, moment: Timestamp) -> bool {
    &&& text == rfc3339_text(moment.secs, moment.nanos)
    &&& rfc3339_moment(text) == if moment.has_four_digit_year() {
        Some((moment.secs, moment.nanos))
    } else {
        None
    }
}

/// The moment that a text is read as.
pub open spec fn moment_in(text: Seq<char>) -> Option<Timestamp> {
    match rfc3339_moment(text) {
        Some((secs, nanos)) => Some(Timestamp { secs, nanos }),
        None => None,
    }
}

/// The calendar holds the moments of a session and of its turns.
pub open spec fn has_valid_moments(session: SessionView) -> bool {
    &&& session.created_at.wf()
    &&& session.last_compacted_at matches Some(t) ==> t.wf()
    &&& forall|i: int|
        0 <= i < session.turns.len() ==> (#[trigger] session.turns[i]).created_at.wf()
}

/// What is written of a session. Where a row with its identifier is there
/// already, `first_seen` is what that row holds as the moment of creation, and it
/// stays.
pub open spec fn is_session_row(
    session: Session,
    first_seen: Option<Seq<char>>,
    row: SessionRow,
) -> bool {
    &&& row.id@ == session@.id
    &&& match first_seen {
        Some(text) => row.created_at@ == text,
        None => holds_moment(row.created_at@, session@.created_at),
    }
    &&& row.last_compacted_at is Some <==> session@.last_compacted_at is Some
    &&& row.last_compacted_at matches Some(text) ==> holds_moment(
        text@,
        session@.last_compacted_at->Some_0,
    )
    &&& row.turn_count == session.turns@.len() as usize as i64
}

/// What is written of a file that a session was read from.
pub open spec fn is_file_row(session_id: Seq<char>, mark: FileMark, row: FileRow) -> bool {
    &&& row.session_id@ == session_id
    &&& row.path@ == mark.path@
    &&& row.length == mark.fingerprint.length as i64
    &&& row.digest@ == mark.fingerprint.digest@
}

/// What is written of a turn.
pub open spec fn is_turn_row(
    session_id: Seq<char>,
    turn: Turn,
    tool_calls: Seq<char>,
    archived: bool,
    row: TurnRow,
) -> bool {
    &&& row.id@ == turn@.id
    &&& row.session_id@ == session_id
    &&& row.role@ == turn@.role
    &&& row.content@ == turn@.content
    &&& row.tool_calls@ == tool_calls
    &&& holds_moment(row.created_at@, turn@.created_at)
    &&& row.input_tokens == turn.input_tokens as i64
    &&& row.output_tokens == turn.output_tokens as i64
    &&& row.archived == if archived {
        1i64
    } else {
        0
    }
}

/// What is written when a session is saved, with the tool calls of each turn in
/// JSON. No turn is archived.
pub open spec fn is_session_writes(
    session: Session,
    mark: Option<FileMark>,
    first_seen: Option<Seq<char>>,
    tool_calls: Seq<Seq<char>>,
    writes: SessionWrites,
) -> bool {
    &&& is_session_row(session, first_seen, writes.session)
    &&& match (mark, writes.file) {
        (Some(m), Some(row)) => is_file_row(session.id@, m, row),
        (None, None) => true,
        _ => false,
    }
    &&& writes.turns@.len() == session.turns@.len()
    &&& forall|i: int|
        #![trigger writes.turns@[i]]
        0 <= i < writes.turns@.len() ==> is_turn_row(
            session.id@,
            session.turns@[i],
            tool_calls[i],
            false,
            writes.turns@[i],
        )
}

/// What is written of a result.
pub open spec fn is_result_row(result: CompactionResult, row: ResultRow) -> bool {
    &&& row.session_id@ == result.session_id@
    &&& row.duplicates_removed == result.metrics.duplicates_removed as i64
    &&& row.continuation_turns_collapsed == result.metrics.continuation_turns_collapsed as i64
    &&& row.turns_archived == result.metrics.turns_archived as i64
    &&& row.token_bytes_saved == result.metrics.token_bytes_saved as i64
    &&& row.turns_remaining == result.metrics.turns_remaining as i64
    &&& holds_moment(row.compacted_at@, result.compacted_at)
}

/// The turn that a row is read as, with its tool calls. A moment that cannot be
/// parsed counts as `now`.
pub open spec fn stored_turn(
    row: StoredTurn,
    tool_calls: Seq<ToolCallView>,
    now: Timestamp,
) -> TurnView {
    TurnView {
        id: row.id@,
        role: row.role@,
        content: row.content@,
        tool_calls,
        created_at: match moment_in(row.created_at@) {
            Some(t) => t,
            None => now,
        },
        input_tokens: (row.input_tokens as usize) as nat,
        output_tokens: (row.output_tokens as usize) as nat,
    }
}

/// The fingerprint that the row of a file is read as.
pub open spec fn stored_fingerprint(row: FileRow) -> FingerprintView {
    FingerprintView { length: (row.length as usize) as nat, digest: row.digest@ }
}

/// The fingerprints by paths that rows of files are read as. Of several rows with
/// one path the last counts.
pub open spec fn stored_marks(rows: Seq<FileRow>) -> Map<Seq<u8>, FingerprintView>
    decreases rows.len(),
{
    if rows.len() == 0 {
        Map::empty()
    } else {
        stored_marks(rows.drop_last()).insert(rows.last().path@, stored_fingerprint(rows.last()))
    }
}

/// The session that a row is read as, with its turns. A moment of creation that
/// cannot be parsed counts as `now`, one of compaction as none.
pub open spec fn stored_session(
    row: StoredSession,
    turns: Seq<TurnView>,
    now: Timestamp,
) -> SessionView {
    SessionView {
        id: row.id@,
        turns,
        created_at: match moment_in(row.created_at@) {
            Some(t) => t,
            None => now,
        },
        last_compacted_at: match row.last_compacted_at {
            Some(text) => moment_in(text@),
            None => None,
        },
    }
}

/// Whether the calendar holds the moments of a session and of its turns.
pub fn moments_are_valid(session: &Session) -> (answer: bool)
    ensures
        answer == has_valid_moments(session@),
{
    if !session.created_at.is_valid() {
        return false;
    }
    if let Some(t) = session.last_compacted_at {
        if !t.is_valid() {
            return false;
        }
    }
    let mut i: usize = 0;
    while i < session.turns.len()
        invariant
            i <= session.turns@.len(),
            forall|j: int| 0 <= j < i ==> (#[trigger] session@.turns[j]).created_at.wf(),
        decreases session.turns@.len() - i,
    {
        if !session.turns[i].created_at.is_valid() {
            assert(!session@.turns[i as int].created_at.wf());
            return false;
        }
        i = i + 1;
    }
    true
}

/// The row that is written for a session.
fn session_row(session: &Session, first_seen: &Option<String>) -> (row: SessionRow)
    requires
        has_valid_moments(session@),
    ensures
        is_session_row(*session, text_in(*first_seen), row),
{
    let created_at = match first_seen {
        Some(text) => text.clone(),
        None => to_rfc3339(session.created_at),
    };
    let last_compacted_at = match session.last_compacted_at {
        Some(t) => Some(to_rfc3339(t)),
        None => None,
    };
    SessionRow {
        id: session.id.clone(),
        created_at,
        last_compacted_at,
        turn_count: session.len() as i64,
    }
}

/// The row that is written for a turn of a session, with its tool calls in JSON.
pub fn turn_row(session_id: &str, turn: &Turn, tool_calls: String, archived: bool) -> (row: TurnRow)
    requires
        turn.created_at.wf(),
    ensures
        is_turn_row(session_id@, *turn, tool_calls@, archived, row),
        row.tool_calls@ == tool_calls@,
{
    let archived: i64 = if archived {
        1
    } else {
        0
    };
    TurnRow {
        id: turn.id.clone(),
        session_id: session_id.to_owned(),
        role: turn.role.clone(),
        content: turn.content.clone(),
        tool_calls,
        created_at: to_rfc3339(turn.created_at),
        input_tokens: turn.input_tokens as i64,
        output_tokens: turn.output_tokens as i64,
        archived,
    }
}

/// The row that is written for a file that a session was read from.
fn file_row(session_id: &str, mark: &FileMark) -> (row: FileRow)
    ensures
        is_file_row(session_id@, *mark, row),
{
    FileRow {
        session_id: session_id.to_owned(),
        path: copied(&mark.path),
        length: mark.fingerprint.length as i64,
        digest: mark.fingerprint.digest.clone(),
    }
}

/// What is written when a session is saved, with the mark of the file that it was
/// read from, if it was, and the tool calls of each turn in JSON. `first_seen` is the
/// moment of creation in the row that is there already, if one is.
pub fn session_writes(
    session: &Session,
    mark: &Option<FileMark>,
    first_seen: &Option<String>,
    tool_calls: Vec<String>,
) -> (writes: SessionWrites)
    requires
        has_valid_moments(session@),
        tool_calls@.len() == session.turns@.len(),
    ensures
        is_session_writes(
            *session,
            *mark,
            text_in(*first_seen),
            text_views(tool_calls@),
            writes,
        ),
        writes.turns@.len() == tool_calls@.len(),
        forall|i: int|
            0 <= i < tool_calls@.len() ==> (#[trigger] writes.turns@[i]).tool_calls@
                == tool_calls@[i]@,
{
    let ghost texts = text_views(tool_calls@);
    let mut turns: Vec<TurnRow> = Vec::with_capacity(session.turns.len());
    for json in it: tool_calls.into_iter()
        invariant
            it.seq() == tool_calls@,
            texts == text_views(tool_calls@),
            tool_calls@.len() == session.turns@.len(),
            has_valid_moments(session@),
            turns@.len() == it.index(),
            forall|i: int|
                #![trigger turns@[i]]
                0 <= i < turns@.len() ==> is_turn_row(
                    session.id@,
                    session.turns@[i],
                    texts[i],
                    false,
                    turns@[i],
                ),
            forall|i: int|
                0 <= i < turns@.len() ==> (#[trigger] turns@[i]).tool_calls@ == tool_calls@[i]@,
    {
        let place: usize = turns.len();
        assert(session@.turns[place as int].created_at.wf());
        turns.push(turn_row(session.id.as_str(), &session.turns[place], json, false));
    }
    let file = match mark {
        Some(m) => Some(file_row(session.id.as_str(), m)),
        None => None,
    };
    SessionWrites { session: session_row(session, first_seen), turns, file }
}

/// The row that is written for a result.
pub fn result_row(result: &CompactionResult) -> (row: ResultRow)
    requires
        result.compacted_at.wf(),
    ensures
        is_result_row(*result, row),
{
    ResultRow {
        session_id: result.session_id.clone(),
        duplicates_removed: result.metrics.duplicates_removed as i64,
        continuation_turns_collapsed: result.metrics.continuation_turns_collapsed as i64,
        turns_archived: result.metrics.turns_archived as i64,
        token_bytes_saved: result.metrics.token_bytes_saved as i64,
        turns_remaining: result.metrics.turns_remaining as i64,
        compacted_at: to_rfc3339(result.compacted_at),
    }
}

/// The turn that a row is read as, with its tool calls, which were parsed from
/// JSON; `now` stands in for a moment that cannot be parsed.
///
/// # Errors
///
/// Returns the error of the tool calls, if they could not be parsed.
pub fn turn_from_row<E>(row: StoredTurn, tool_calls: Result<Vec<ToolCall>, E>, now: Timestamp) -> (
outcome: Result<Turn, E>)
    ensures
        match (tool_calls, outcome) {
            (Ok(calls), Ok(turn)) => {
                &&& turn@ == stored_turn(row, call_views(calls@), now)
                &&& now.wf() ==> turn.created_at.wf()
            },
            (Err(cause), Err(error)) => error == cause,
            _ => false,
        },
{
    match tool_calls {
        Ok(calls) => {
            let created_at = moment_or(row.created_at.as_str(), now);
            Ok(
                Turn {
                    id: row.id,
                    role: row.role,
                    content: row.content,
                    tool_calls: calls,
                    created_at,
                    input_tokens: row.input_tokens as usize,
                    output_tokens: row.output_tokens as usize,
                },
            )
        },
        Err(error) => Err(error),
    }
}

/// The turn that a row is read as, with its tool calls, which were parsed from
/// JSON; the clock stands in for a moment that cannot be parsed.
///
/// # Errors
///
/// Returns the error of the tool calls, if they could not be parsed.
pub fn load_turn<E>(row: StoredTurn, tool_calls: Result<Vec<ToolCall>, E>) -> (outcome: Result<
    Turn,
    E,
>)
    ensures
        match (tool_calls, outcome) {
            (Ok(calls), Ok(turn)) => {
                &&& turn.created_at.wf()
                &&& exists|now: Timestamp|
                    now.is_clock_reading() && turn@ == #[trigger] stored_turn(
                        row,
                        call_views(calls@),
                        now,
                    )
            },
            (Err(cause), Err(error)) => error == cause,
            _ => false,
        },
{
    turn_from_row(row, tool_calls, utc_now())
}

/// The calendar holds the moments of some turns.
pub open spec fn have_valid_moments(turns: Seq<Turn>) -> bool {
    forall|i: int| 0 <= i < turns.len() ==> (#[trigger] turns[i]).created_at.wf()
}

/// The marks that rows of files are read as.
fn marks_from_rows(rows: Vec<FileRow>) -> (files: Vec<FileMark>)
    ensures
        mark_map(files@) == stored_marks(rows@),
{
    let mut files: Vec<FileMark> = Vec::new();
    assert(rows@.take(0) =~= Seq::empty());
    for row in it: rows.into_iter()
        invariant
            it.seq() == rows@,
            mark_map(files@) == stored_marks(rows@.take(it.index() as int)),
    {
        let ghost before = files@;
        let ghost i = it.index() as int;
        files.push(
            FileMark {
                path: row.path,
                fingerprint: Fingerprint { length: row.length as usize, digest: row.digest },
            },
        );
        proof {
            assert(files@.drop_last() =~= before);
            assert(rows@.take(i + 1).drop_last() =~= rows@.take(i));
            assert(rows@.take(i + 1).last() == row);
        }
    }
    assert(rows@.take(rows@.len() as int) =~= rows@);
    files
}

/// The session that a row is read as, with its turns and the rows of its files;
/// `now` stands in for a moment of creation that cannot be parsed.
pub fn session_from_row(
    row: StoredSession,
    turns: Vec<Turn>,
    files: Vec<FileRow>,
    now: Timestamp,
) -> (saved: SavedSession)
    ensures
        saved@.session == stored_session(row, turn_views(turns@), now),
        saved@.marks == stored_marks(files@),
        now.wf() && have_valid_moments(turns@) ==> has_valid_moments(saved.session@),
{
    let created_at = moment_or(row.created_at.as_str(), now);
    let last_compacted_at = match row.last_compacted_at {
        Some(text) => from_rfc3339(text.as_str()),
        None => None,
    };
    let session = Session { id: row.id, turns, created_at, last_compacted_at };
    proof {
        assert forall|i: int|
            have_valid_moments(turns@) && 0 <= i < session@.turns.len() implies (
        #[trigger] session@.turns[i]).created_at.wf() by {
            assert(turns@[i].created_at.wf());
        }
    }
    SavedSession { session, files: marks_from_rows(files) }
}

/// The session that a row is read as, with its turns and the rows of its files;
/// the clock stands in for a moment of creation that cannot be parsed.
pub fn load_session(row: StoredSession, turns: Vec<Turn>, files: Vec<FileRow>) -> (saved:
    SavedSession)
    ensures
        exists|now: Timestamp|
            now.is_clock_reading() && saved@.session == #[trigger] stored_session(
                row,
                turn_views(turns@),
                now,
            ),
        saved@.marks == stored_marks(files@),
        have_valid_moments(turns@) ==> has_valid_moments(saved.session@),
{
    session_from_row(row, turns, files, utc_now())
}

/// The metrics that the sums over all results are read as.
pub fn metrics_from_sums(sums: ResultSums) -> (metrics: CompactionMetrics)
    ensures
        metrics == (CompactionMetrics {
            duplicates_removed: sums.duplicates_removed as usize,
            continuation_turns_collapsed: sums.continuation_turns_collapsed as usize,
            turns_archived: sums.turns_archived as usize,
            token_bytes_saved: sums.token_bytes_saved as usize,
            turns_remaining: sums.turns_remaining as usize,
        }),
{
    CompactionMetrics {
        duplicates_removed: sums.duplicates_removed as usize,
        continuation_turns_collapsed: sums.continuation_turns_collapsed as usize,
        turns_archived: sums.turns_archived as usize,
        token_bytes_saved: sums.token_bytes_saved as usize,
        turns_remaining: sums.turns_remaining as usize,
    }
}

/// The columns of a session's row that are read back.
pub open spec fn reads_back_session(written: SessionRow, read: StoredSession) -> bool {
    &&& read.id@ == written.id@
    &&& read.created_at@ == written.created_at@
    &&& text_in(read.last_compacted_at) == text_in(written.last_compacted_at)
}

/// The columns of a turn's row that are read back.
pub open spec fn reads_back_turn(written: TurnRow, read: StoredTurn) -> bool {
    &&& read.id@ == written.id@
    &&& read.role@ == written.role@
    &&& read.content@ == written.content@
    &&& read.created_at@ == written.created_at@
    &&& read.input_tokens == written.input_tokens
    &&& read.output_tokens == written.output_tokens
}

pub(crate) proof fn lemma_count_kept(n: usize)
    ensures
        n as i64 as usize == n,
{
    assert(n as i64 as usize == n) by (bit_vector);
}

/// A turn whose row is read back as it was written is the turn that was
/// written, if its calls are and its year has four digits.
pub proof fn law_turn_read_back(
    session_id: Seq<char>,
    turn: Turn,
    tool_calls: Seq<char>,
    archived: bool,
    written: TurnRow,
    read: StoredTurn,
    now: Timestamp,
)
    requires
        turn.created_at.has_four_digit_year(),
        is_turn_row(session_id, turn, tool_calls, archived, written),
        reads_back_turn(written, read),
    ensures
        stored_turn(read, turn@.tool_calls, now) == turn@,
{
    lemma_count_kept(turn.input_tokens);
    lemma_count_kept(turn.output_tokens);
}

/// The turns that rows are read as, with their tool calls.
pub open spec fn stored_turns(
    rows: Seq<StoredTurn>,
    tool_calls: Seq<Seq<ToolCallView>>,
    now: Timestamp,
) -> Seq<TurnView> {
    Seq::new(rows.len(), |i: int| stored_turn(rows[i], tool_calls[i], now))
}

/// The rows that are read back, in order, are those that were written, and the
/// tool calls are read back from JSON as they were.
pub open spec fn reads_back(
    session: SessionView,
    writes: SessionWrites,
    row: StoredSession,
    turns: Seq<StoredTurn>,
    calls: Seq<Seq<ToolCallView>>,
) -> bool {
    &&& reads_back_session(writes.session, row)
    &&& turns.len() == writes.turns@.len()
    &&& forall|i: int|
        0 <= i < turns.len() ==> reads_back_turn(writes.turns@[i], #[trigger] turns[i])
    &&& calls.len() == turns.len()
    &&& forall|i: int|
        0 <= i < calls.len() ==> #[trigger] calls[i] == session.turns[i].tool_calls
}

/// The years of a session and of its turns have four digits, but for the moment
/// of its creation.
pub open spec fn has_four_digit_years(session: SessionView) -> bool {
    &&& session.last_compacted_at matches Some(t) ==> t.has_four_digit_year()
    &&& forall|i: int|
        0 <= i < session.turns.len() ==> (
        #[trigger] session.turns[i]).created_at.has_four_digit_year()
}

proof fn lemma_read_back(
    session: Session,
    mark: Option<FileMark>,
    first_seen: Option<Seq<char>>,
    tool_calls: Seq<Seq<char>>,
    writes: SessionWrites,
    row: StoredSession,
    turns: Seq<StoredTurn>,
    calls: Seq<Seq<ToolCallView>>,
    now: Timestamp,
)
    requires
        has_four_digit_years(session@),
        is_session_writes(session, mark, first_seen, tool_calls, writes),
        reads_back(session@, writes, row, turns, calls),
    ensures
        ({
            let loaded = stored_session(row, stored_turns(turns, calls, now), now);
            loaded == (SessionView { created_at: loaded.created_at, ..session@ })
        }),
{
    let loaded = stored_turns(turns, calls, now);
    assert forall|i: int| 0 <= i < loaded.len() implies loaded[i] == session@.turns[i] by {
        assert(reads_back_turn(writes.turns@[i], turns[i]));
        assert(session@.turns[i].created_at.has_four_digit_year());
        assert(calls[i] == session@.turns[i].tool_calls);
        law_turn_read_back(
            session.id@,
            session.turns@[i],
            tool_calls[i],
            false,
            writes.turns@[i],
            turns[i],
            now,
        );
    }
    assert(loaded =~= session@.turns);
}

/// A session that is saved under an identifier that was not there, and whose rows
/// are read back in order as they were written, is the session that was saved.
pub proof fn law_session_saved_and_loaded(
    session: Session,
    mark: Option<FileMark>,
    tool_calls: Seq<Seq<char>>,
    writes: SessionWrites,
    row: StoredSession,
    turns: Seq<StoredTurn>,
    calls: Seq<Seq<ToolCallView>>,
    now: Timestamp,
)
    requires
        session.created_at.has_four_digit_year(),
        has_four_digit_years(session@),
        is_session_writes(session, mark, None, tool_calls, writes),
        reads_back(session@, writes, row, turns, calls),
    ensures
        stored_session(row, stored_turns(turns, calls, now), now) == session@,
{
    lemma_read_back(session, mark, None, tool_calls, writes, row, turns, calls, now);
}

/// A second save under one identifier replaces what was saved, but for the moment
/// of creation: that stays the one of the first save.
pub proof fn law_second_save_keeps_creation(
    first: Session,
    first_mark: Option<FileMark>,
    first_calls: Seq<Seq<char>>,
    first_writes: SessionWrites,
    there: StoredSession,
    second: Session,
    second_mark: Option<FileMark>,
    second_calls: Seq<Seq<char>>,
    second_writes: SessionWrites,
    row: StoredSession,
    turns: Seq<StoredTurn>,
    calls: Seq<Seq<ToolCallView>>,
    now: Timestamp,
)
    requires
        first.created_at.has_four_digit_year(),
        is_session_writes(first, first_mark, None, first_calls, first_writes),
        reads_back_session(first_writes.session, there),
        has_four_digit_years(second@),
        is_session_writes(
            second,
            second_mark,
            Some(there.created_at@),
            second_calls,
            second_writes,
        ),
        reads_back(second@, second_writes, row, turns, calls),
    ensures
        stored_session(row, stored_turns(turns, calls, now), now) == (SessionView {
            created_at: first@.created_at,
            ..second@
        }),
{
    lemma_read_back(
        second,
        second_mark,
        Some(there.created_at@),
        second_calls,
        second_writes,
        row,
        turns,
        calls,
        now,
    );
}

/// The mark of a file that a session was saved with is found again under the path
/// of the file, beside the marks of other files.
pub proof fn law_mark_read_back(
    session_id: Seq<char>,
    mark: FileMark,
    row: FileRow,
    others: Seq<FileRow>,
)
    requires
        is_file_row(session_id, mark, row),
    ensures
        stored_marks(others.push(row)) == stored_marks(others).insert(
            mark@.path,
            mark@.fingerprint,
        ),
{
    lemma_count_kept(mark.fingerprint.length);
    assert(others.push(row).drop_last() =~= others);
}

/// A row of a session's turn that is not archived.
pub open spec fn is_live_row(row: TurnRow, session_id: Seq<char>) -> bool {
    row.session_id@ == session_id && row.archived == 0
}

/// A row that goes when a session is saved: one of the session's turns that is not
/// archived, or that comes again.
pub open spec fn is_replaced(row: TurnRow, writes: SessionWrites) -> bool {
    &&& row.session_id@ == writes.session.id@
    &&& row.archived == 0 || exists|i: int|
        0 <= i < writes.turns@.len() && (#[trigger] writes.turns@[i]).id@ == row.id@
}

/// What the table of turns is to hold once a session is saved whose turns have
/// different identifiers: the rows that do not go, and the rows of its turns.
pub open spec fn turns_after_save(there: Seq<TurnRow>, writes: SessionWrites) -> Seq<TurnRow> {
    there.filter(|r: TurnRow| !is_replaced(r, writes)) + writes.turns@
}

proof fn lemma_filter_twice(
    rows: Seq<TurnRow>,
    first: spec_fn(TurnRow) -> bool,
    second: spec_fn(TurnRow) -> bool,
)
    requires
        forall|r: TurnRow| #[trigger] second(r) ==> first(r),
    ensures
        rows.filter(first).filter(second) == rows.filter(second),
    decreases rows.len(),
{
    reveal(Seq::filter);
    if rows.len() > 0 {
        lemma_filter_twice(rows.drop_last(), first, second);
        let kept = rows.drop_last().filter(first);
        if first(rows.last()) {
            assert(kept.push(rows.last()).drop_last() =~= kept);
        }
    }
}

proof fn lemma_filter_away(rows: Seq<TurnRow>, keep: spec_fn(TurnRow) -> bool)
    requires
        forall|i: int| 0 <= i < rows.len() ==> !keep(#[trigger] rows[i]),
    ensures
        rows.filter(keep) == Seq::<TurnRow>::empty(),
    decreases rows.len(),
{
    reveal(Seq::filter);
    if rows.len() > 0 {
        assert(!keep(rows[rows.len() - 1]));
        lemma_filter_away(rows.drop_last(), keep);
    }
}

proof fn lemma_filter_all_rows(rows: Seq<TurnRow>, keep: spec_fn(TurnRow) -> bool)
    requires
        forall|i: int| 0 <= i < rows.len() ==> keep(#[trigger] rows[i]),
    ensures
        rows.filter(keep) == rows,
    decreases rows.len(),
{
    reveal(Seq::filter);
    if rows.len() > 0 {
        assert(keep(rows[rows.len() - 1]));
        lemma_filter_all_rows(rows.drop_last(), keep);
        assert(rows.drop_last().push(rows.last()) =~= rows);
    }
}

/// A save replaces the turns of the session that are not archived by the turns of
/// the session that is saved, in order, and leaves those of other sessions alone.
pub proof fn law_save_replaces_turns(
    session: Session,
    mark: Option<FileMark>,
    first_seen: Option<Seq<char>>,
    tool_calls: Seq<Seq<char>>,
    writes: SessionWrites,
    there: Seq<TurnRow>,
    other: Seq<char>,
)
    requires
        is_session_writes(session, mark, first_seen, tool_calls, writes),
        other != session@.id,
    ensures
        turns_after_save(there, writes).filter(|r: TurnRow| is_live_row(r, session@.id))
            == writes.turns@,
        turns_after_save(there, writes).filter(|r: TurnRow| is_live_row(r, other))
            == there.filter(|r: TurnRow| is_live_row(r, other)),
{
    let id = session@.id;
    let gone = |r: TurnRow| is_live_row(r, id);
    let kept = |r: TurnRow| !is_replaced(r, writes);
    let others = |r: TurnRow| is_live_row(r, other);
    let rest = there.filter(kept);
    Seq::filter_distributes_over_add(rest, writes.turns@, gone);
    Seq::filter_distributes_over_add(rest, writes.turns@, others);
    there.filter_lemma(kept);
    assert forall|i: int| 0 <= i < rest.len() implies !gone(#[trigger] rest[i]) by {
        assert(kept(rest[i]));
    }
    lemma_filter_away(rest, gone);
    assert forall|i: int| 0 <= i < writes.turns@.len() implies gone(
        #[trigger] writes.turns@[i],
    ) && !others(writes.turns@[i]) by {
        assert(is_turn_row(
            session.id@,
            session.turns@[i],
            tool_calls[i],
            false,
            writes.turns@[i],
        ));
    }
    lemma_filter_all_rows(writes.turns@, gone);
    lemma_filter_away(writes.turns@, others);
    assert forall|r: TurnRow| #[trigger] others(r) implies kept(r) by {}
    lemma_filter_twice(there, kept, others);
    assert(Seq::<TurnRow>::empty() + writes.turns@ =~= writes.turns@);
    assert(there.filter(others) + Seq::<TurnRow>::empty() =~= there.filter(others));
}

/// The sum of a column over the rows of results.
pub open spec fn column_sum(rows: Seq<ResultRow>, column: spec_fn(ResultRow) -> i64) -> int
    decreases rows.len(),
{
    if rows.len() == 0 {
        0
    } else {
        column_sum(rows.drop_last(), column) + column(rows.last())
    }
}

/// Sums over all columns of the rows of results.
pub open spec fn are_sums(rows: Seq<ResultRow>, sums: ResultSums) -> bool {
    &&& sums.duplicates_removed == column_sum(rows, |r: ResultRow| r.duplicates_removed)
    &&& sums.continuation_turns_collapsed == column_sum(
        rows,
        |r: ResultRow| r.continuation_turns_collapsed,
    )
    &&& sums.turns_archived == column_sum(rows, |r: ResultRow| r.turns_archived)
    &&& sums.token_bytes_saved == column_sum(rows, |r: ResultRow| r.token_bytes_saved)
    &&& sums.turns_remaining == column_sum(rows, |r: ResultRow| r.turns_remaining)
}

/// The rows are those that are written for the results.
pub open spec fn are_result_rows(results: Seq<CompactionResult>, rows: Seq<ResultRow>) -> bool {
    &&& results.len() == rows.len()
    &&& forall|i: int| 0 <= i < results.len() ==> is_result_row(results[i], #[trigger] rows[i])
}

/// A column of a row holds a count of the result.
spec fn holds_count(
    result: CompactionResult,
    row: ResultRow,
    count: spec_fn(ResultView) -> nat,
    column: spec_fn(ResultRow) -> i64,
) -> bool {
    count(result@) <= usize::MAX && column(row) == count(result@) as usize as i64
}

proof fn lemma_column_sum(
    results: Seq<CompactionResult>,
    rows: Seq<ResultRow>,
    count: spec_fn(ResultView) -> nat,
    column: spec_fn(ResultRow) -> i64,
)
    requires
        results.len() == rows.len(),
        total(result_views(results), count) <= i64::MAX,
        forall|i: int|
            #![trigger rows[i]]
            0 <= i < rows.len() ==> holds_count(results[i], rows[i], count, column),
    ensures
        column_sum(rows, column) == total(result_views(results), count),
    decreases rows.len(),
{
    if rows.len() > 0 {
        let views = result_views(results);
        assert(views.drop_last() =~= result_views(results.drop_last()));
        assert(views.last() == results.last()@);
        assert forall|i: int|
            #![trigger rows.drop_last()[i]]
            0 <= i < rows.drop_last().len() implies holds_count(
            results.drop_last()[i],
            rows.drop_last()[i],
            count,
            column,
        ) by {
            assert(holds_count(results[i], rows[i], count, column));
        }
        lemma_column_sum(results.drop_last(), rows.drop_last(), count, column);
        let last = count(results.last()@) as usize;
        assert(holds_count(results[rows.len() - 1], rows[rows.len() - 1], count, column));
        assert(last <= 0x7fff_ffff_ffff_ffff ==> last as i64 == last) by (bit_vector);
    }
}

/// The metrics that the sums over the rows of all results are read as sum the
/// metrics of the results up, where the sums fit.
pub proof fn law_metrics_aggregated(
    results: Seq<CompactionResult>,
    rows: Seq<ResultRow>,
    sums: ResultSums,
)
    requires
        are_result_rows(results, rows),
        are_sums(rows, sums),
        sums_fit(result_views(results)),
        remaining_in(result_views(results)) <= usize::MAX,
        duplicates_in(result_views(results)) <= i64::MAX,
        continuations_in(result_views(results)) <= i64::MAX,
        archived_in(result_views(results)) <= i64::MAX,
        bytes_in(result_views(results)) <= i64::MAX,
        remaining_in(result_views(results)) <= i64::MAX,
    ensures
        sums.duplicates_removed as usize == duplicates_in(result_views(results)),
        sums.continuation_turns_collapsed as usize == continuations_in(result_views(results)),
        sums.turns_archived as usize == archived_in(result_views(results)),
        sums.token_bytes_saved as usize == bytes_in(result_views(results)),
        sums.turns_remaining as usize == remaining_in(result_views(results)),
{
    lemma_column_sum(
        results,
        rows,
        |r: ResultView| r.metrics.duplicates_removed as nat,
        |r: ResultRow| r.duplicates_removed,
    );
    lemma_column_sum(
        results,
        rows,
        |r: ResultView| r.metrics.continuation_turns_collapsed as nat,
        |r: ResultRow| r.continuation_turns_collapsed,
    );
    lemma_column_sum(
        results,
        rows,
        |r: ResultView| r.metrics.turns_archived as nat,
        |r: ResultRow| r.turns_archived,
    );
    lemma_column_sum(
        results,
        rows,
        |r: ResultView| r.metrics.token_bytes_saved as nat,
        |r: ResultRow| r.token_bytes_saved,
    );
    lemma_column_sum(
        results,
        rows,
        |r: ResultView| r.metrics.turns_remaining as nat,
        |r: ResultRow| r.turns_remaining,
    );
}

} // verus!
