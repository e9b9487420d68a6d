//! Scanning a directory: which sessions are compacted, in what order, and what
//! is saved of them.
//!
//! A [`Scan`] decides and never waits. Its phase says what has to be done next;
//! whoever drives it does that and tells it what came of it.

use vstd::prelude::*;

pub use crate::files::{
    collect_session_files, is_session_file, session_files, session_id, FoundFile, SessionFile,
    MAX_DEPTH,
};

use crate::compactor::{
    checked_compact_session_at, compacted_session, compaction_fits_at, is_compaction_report,
};
use crate::digest::{fingerprint, Fingerprint, FingerprintView};
use crate::files::same_name;
use crate::model::{Session, SessionId, SessionView, ToolCall, ToolCallView, Turn, TurnView};
use crate::parse::{parse_session_text, reads_turns};
use crate::strategy::{CompactionMetrics, CompactionResult};
use crate::time::{archive_cutoff, cutoff_of, utc_now, Timestamp};

verus! {

/// The result of a compaction as a mathematical value.
pub ghost struct ResultView {
    pub session_id: Seq<char>,
    pub metrics: CompactionMetrics,
    pub compacted_at: Timestamp,
}

impl View for CompactionResult {
    type V = ResultView;

    open spec fn view(&self) -> ResultView {
        ResultView {
            session_id: self.session_id@,
            metrics: self.metrics,
            compacted_at: self.compacted_at,
        }
    }
}

/// The results of a vector as mathematical values.
pub open spec fn result_views(results: Seq<CompactionResult>) -> Seq<ResultView> {
    results.map_values(|r: CompactionResult| r@)
}

/// What is kept of a file that was imported: where it lies, and the fingerprint
/// of the text that it held.
#[derive(Debug, Clone, PartialEq)]
pub struct FileMark {
    pub path: Vec<u8>,
    pub fingerprint: Fingerprint,
}

/// A session that was read from a file.
#[derive(Debug, Clone, PartialEq)]
pub struct FileSession {
    pub session: Session,
    pub mark: FileMark,
}

/// A session as the store holds it, with the marks of the files that were
/// imported under its identifier.
#[derive(Debug, Clone, PartialEq)]
pub struct SavedSession {
    pub session: Session,
    pub files: Vec<FileMark>,
}

/// The mark of a file as a mathematical value.
pub ghost struct FileMarkView {
    pub path: Seq<u8>,
    pub fingerprint: FingerprintView,
}

/// A session from a file as a mathematical value.
pub ghost struct FileSessionView {
    pub session: SessionView,
    pub mark: FileMarkView,
}

/// A session from the store as a mathematical value: the marks are fingerprints
/// by paths.
pub ghost struct SavedSessionView {
    pub session: SessionView,
    pub marks: Map<Seq<u8>, FingerprintView>,
}

impl View for FileMark {
    type V = FileMarkView;

    open spec fn view(&self) -> FileMarkView {
        FileMarkView { path: self.path@, fingerprint: self.fingerprint@ }
    }
}

impl View for FileSession {
    type V = FileSessionView;

    open spec fn view(&self) -> FileSessionView {
        FileSessionView { session: self.session@, mark: self.mark@ }
    }
}

/// Fingerprints by paths. Of several marks of one path the last counts.
pub open spec fn mark_map(files: Seq<FileMark>) -> Map<Seq<u8>, FingerprintView>
    decreases files.len(),
{
    if files.len() == 0 {
        Map::empty()
    } else {
        mark_map(files.drop_last()).insert(files.last()@.path, files.last()@.fingerprint)
    }
}

impl View for SavedSession {
    type V = SavedSessionView;

    open spec fn view(&self) -> SavedSessionView {
        SavedSessionView { session: self.session@, marks: mark_map(self.files@) }
    }
}

/// The moments that a compaction refers to.
#[derive(Debug, Clone, Copy)]
pub struct ClockReading {
    /// Turns from before this moment may be archived.
    pub cutoff: Timestamp,
    /// The session is marked as compacted at this moment.
    pub done_at: Timestamp,
    /// The result is marked with this moment.
    pub compacted_at: Timestamp,
}

/// What a scan waits for.
#[derive(Debug)]
pub enum ScanPhase {
    /// The file at the scan's place has to be read and parsed.
    Read,
    /// The session with the identifier of this one has to be looked up.
    Load(FileSession),
    /// The clock has to be read for the compaction of this session.
    Compact(FileSession),
    /// The session has to be saved, with the mark of its file beside it.
    SaveSession(FileSession, CompactionResult),
    /// The result has to be saved.
    SaveResult(CompactionResult),
    /// Nothing is left to do.
    Done,
    /// The numbers of the compaction of this session do not fit.
    Failed(SessionId),
}

/// What came of the work that a scan waited for.
#[derive(Debug)]
pub enum ScanEvent {
    /// The file could not be read or parsed.
    Unreadable,
    /// The file holds this session.
    Read(FileSession),
    /// The store holds this session, or none.
    Loaded(Option<SavedSession>),
    /// The clock was read.
    Clock(ClockReading),
    /// The session or the result was saved.
    Saved,
}

/// The phase of a scan as a mathematical value.
pub ghost enum PhaseView {
    Read,
    Load(FileSessionView),
    Compact(FileSessionView),
    SaveSession(FileSessionView, ResultView),
    SaveResult(ResultView),
    Done,
    Failed(Seq<char>),
}

/// What came of some work, as a mathematical value.
pub ghost enum EventView {
    Unreadable,
    Read(FileSessionView),
    Loaded(Option<SavedSessionView>),
    Clock(ClockReading),
    Saved,
}

impl View for ScanPhase {
    type V = PhaseView;

    open spec fn view(&self) -> PhaseView {
        match *self {
            ScanPhase::Read => PhaseView::Read,
            ScanPhase::Load(file) => PhaseView::Load(file@),
            ScanPhase::Compact(file) => PhaseView::Compact(file@),
            ScanPhase::SaveSession(file, result) => PhaseView::SaveSession(file@, result@),
            ScanPhase::SaveResult(result) => PhaseView::SaveResult(result@),
            ScanPhase::Done => PhaseView::Done,
            ScanPhase::Failed(id) => PhaseView::Failed(id@),
        }
    }
}

/// The session that the store holds, if any, as a mathematical value.
pub open spec fn saved_view(stored: Option<SavedSession>) -> Option<SavedSessionView> {
    match stored {
        Some(s) => Some(s@),
        None => None,
    }
}

impl View for ScanEvent {
    type V = EventView;

    open spec fn view(&self) -> EventView {
        match *self {
            ScanEvent::Unreadable => EventView::Unreadable,
            ScanEvent::Read(file) => EventView::Read(file@),
            ScanEvent::Loaded(stored) => EventView::Loaded(saved_view(stored)),
            ScanEvent::Clock(reading) => EventView::Clock(reading),
            ScanEvent::Saved => EventView::Saved,
        }
    }
}

/// A scan of some files, one after the other.
#[derive(Debug)]
pub struct Scan {
    /// How many files there are.
    pub files: usize,
    /// How many turns of a session stay live whatever their age.
    pub max_turns: usize,
    /// The file that is being worked on.
    pub place: usize,
    /// What the scan waits for.
    pub phase: ScanPhase,
    /// The results so far, in the order of the files.
    pub results: Vec<CompactionResult>,
}

/// A scan as a mathematical value.
#[verifier::ext_equal]
pub ghost struct ScanView {
    pub files: nat,
    pub max_turns: usize,
    pub place: nat,
    pub phase: PhaseView,
    pub results: Seq<ResultView>,
}

impl View for Scan {
    type V = ScanView;

    open spec fn view(&self) -> ScanView {
        ScanView {
            files: self.files as nat,
            max_turns: self.max_turns,
            place: self.place as nat,
            phase: self.phase@,
            results: result_views(self.results@),
        }
    }
}

impl ScanView {
    /// The scan is done exactly when it has been through all files, and each
    /// file has given one result at most.
    pub open spec fn wf(self) -> bool {
        &&& self.place <= self.files
        &&& self.phase is Done <==> self.place == self.files
        &&& self.results.len() <= self.place
    }
}

/// The phase in which the work on a file begins.
pub open spec fn first_phase(place: nat, files: nat) -> PhaseView {
    if place < files {
        PhaseView::Read
    } else {
        PhaseView::Done
    }
}

/// A scan before any work.
pub open spec fn scan_start(files: nat, max_turns: usize) -> ScanView {
    ScanView {
        files,
        max_turns,
        place: 0,
        phase: first_phase(0, files),
        results: Seq::empty(),
    }
}

/// The scan at the next file, with the results as they are.
pub open spec fn at_next_file(scan: ScanView) -> ScanView {
    ScanView {
        place: scan.place + 1,
        phase: first_phase(scan.place + 1, scan.files),
        ..scan
    }
}

/// The file was imported before, under the identifier of its session, and still
/// holds the text that it held then: there is nothing new to compact.
pub open spec fn is_unchanged(stored: Option<SavedSessionView>, read: FileSessionView) -> bool {
    &&& stored is Some
    &&& stored->Some_0.marks.contains_key(read.mark.path)
    &&& stored->Some_0.marks[read.mark.path] == read.mark.fingerprint
}

/// A result reports the compaction of a session.
pub open spec fn reports(
    result: ResultView,
    session: SessionView,
    max_turns: usize,
    reading: ClockReading,
) -> bool {
    &&& result.session_id == session.id
    &&& is_compaction_report(session.turns, max_turns, reading.cutoff, result.metrics)
    &&& result.compacted_at == reading.compacted_at
}

/// What is to be saved of a session from a file once it is compacted.
pub open spec fn compacted_file(
    read: FileSessionView,
    max_turns: usize,
    reading: ClockReading,
) -> FileSessionView {
    FileSessionView {
        session: compacted_session(read.session, max_turns, reading.cutoff, reading.done_at),
        mark: read.mark,
    }
}

/// The event is one that the phase waits for.
pub open spec fn awaits(phase: PhaseView, event: EventView) -> bool {
    match phase {
        PhaseView::Read => event is Unreadable || event is Read,
        PhaseView::Load(_) => event is Loaded,
        PhaseView::Compact(_) => event is Clock,
        PhaseView::SaveSession(_, _) => event is Saved,
        PhaseView::SaveResult(_) => event is Saved,
        PhaseView::Done => false,
        PhaseView::Failed(_) => false,
    }
}

/// What an event makes of a scan.
///
/// A file that cannot be read is passed over, and so is one that still holds what
/// it held when it was imported. Any other session is compacted; once it and the
/// result have been saved, in this order, the result joins the others.
/// Where the numbers of a compaction do not fit, the scan ends there.
pub open spec fn scan_step(before: ScanView, event: EventView, after: ScanView) -> bool {
    match (before.phase, event) {
        (PhaseView::Read, EventView::Unreadable) => after == at_next_file(before),
        (PhaseView::Read, EventView::Read(file)) => after == (ScanView {
            phase: PhaseView::Load(file),
            ..before
        }),
        (PhaseView::Load(file), EventView::Loaded(stored)) => if is_unchanged(stored, file) {
            after == at_next_file(before)
        } else {
            after == (ScanView { phase: PhaseView::Compact(file), ..before })
        },
        (PhaseView::Compact(file), EventView::Clock(reading)) => {
            if compaction_fits_at(file.session.turns, before.max_turns, reading.cutoff) {
                &&& after.phase matches PhaseView::SaveSession(compacted, result) && compacted
                    == compacted_file(file, before.max_turns, reading) && reports(
                    result,
                    file.session,
                    before.max_turns,
                    reading,
                )
                &&& after == (ScanView { phase: after.phase, ..before })
            } else {
                after == (ScanView { phase: PhaseView::Failed(file.session.id), ..before })
            }
        },
        (PhaseView::SaveSession(_, result), EventView::Saved) => after == (ScanView {
            phase: PhaseView::SaveResult(result),
            ..before
        }),
        (PhaseView::SaveResult(result), EventView::Saved) => after == at_next_file(
            ScanView { results: before.results.push(result), ..before },
        ),
        _ => false,
    }
}

/// The last of some marks that has the given path.
fn find_mark<'a>(files: &'a Vec<FileMark>, path: &Vec<u8>) -> (mark: Option<&'a FileMark>)
    ensures
        match mark {
            Some(m) => mark_map(files@).contains_key(path@) && mark_map(files@)[path@]
                == m@.fingerprint,
            None => !mark_map(files@).contains_key(path@),
        },
{
    let mut i: usize = files.len();
    assert(files@.take(i as int) =~= files@);
    while i > 0
        invariant
            i <= files@.len(),
            mark_map(files@).contains_key(path@) == mark_map(files@.take(i as int)).contains_key(
                path@,
            ),
            mark_map(files@).contains_key(path@) ==> mark_map(files@)[path@] == mark_map(
                files@.take(i as int),
            )[path@],
        decreases i,
    {
        assert(files@.take(i as int).drop_last() =~= files@.take(i - 1));
        assert(files@.take(i as int).last() == files@[i - 1]);
        i = i - 1;
        if same_name(&files[i].path, path) {
            return Some(&files[i]);
        }
    }
    None
}

/// Whether a file that was just read was imported before and still holds the
/// text that it held then.
pub fn has_nothing_new(stored: &Option<SavedSession>, read: &FileSession) -> (answer: bool)
    ensures
        answer == is_unchanged(saved_view(*stored), read@),
{
    match stored {
        Some(saved) => match find_mark(&saved.files, &read.mark.path) {
            Some(mark) => mark.fingerprint.same(&read.mark.fingerprint),
            None => false,
        },
        None => false,
    }
}

/// Reads a session from the text of the file at a path, with the given parsers of
/// JSON, and takes the fingerprint of the text.
///
/// # Errors
///
/// Returns the error of a parser.
pub fn read_session_file<
    E,
    A: Fn(&str) -> Result<Vec<Turn>, E>,
    L: Fn(&str) -> Result<Turn, E>,
>(id: &str, path: Vec<u8>, text: &str, parse_array: A, parse_line: L) -> (outcome: Result<
    FileSession,
    E,
>)
    requires
        forall|s: &str| call_requires(parse_array, (s,)),
        forall|s: &str| call_requires(parse_line, (s,)),
    ensures
        match outcome {
            Ok(file) => {
                &&& reads_turns(text@, parse_array, parse_line, Ok(file.session.turns))
                &&& file.session.id@ == id@
                &&& file.session.created_at.is_clock_reading()
                &&& file.session.last_compacted_at is None
                &&& file.mark.path@ == path@
                &&& file.mark.fingerprint@ == fingerprint(text@)
            },
            Err(error) => reads_turns(text@, parse_array, parse_line, Err(error)),
        },
{
    match parse_session_text(id, text, parse_array, parse_line) {
        Ok(session) => Ok(
            FileSession { session, mark: FileMark { path, fingerprint: Fingerprint::of(text) } },
        ),
        Err(error) => Err(error),
    }
}

/// The moments of a compaction that archives turns older than `age_hours`, read
/// from the clock.
pub open spec fn is_reading(reading: ClockReading, age_hours: u64) -> bool {
    &&& reading.done_at.is_clock_reading()
    &&& reading.compacted_at.is_clock_reading()
    &&& exists|now: Timestamp|
        now.is_clock_reading() && reading.cutoff == #[trigger] cutoff_of(now, age_hours)
}

/// Reads the clock for a compaction that archives turns older than `age_hours`.
pub fn read_clock(age_hours: u64) -> (reading: ClockReading)
    ensures
        is_reading(reading, age_hours),
{
    let now = utc_now();
    let cutoff = archive_cutoff(now, age_hours);
    ClockReading { cutoff, done_at: utc_now(), compacted_at: utc_now() }
}

impl Scan {
    /// The scan as a mathematical value satisfies its invariant.
    pub open spec fn wf(self) -> bool {
        self@.wf()
    }

    /// A scan of `files` files.
    pub fn new(files: usize, max_turns: usize) -> (scan: Scan)
        ensures
            scan.wf(),
            scan@ == scan_start(files as nat, max_turns),
    {
        let phase = if files > 0 {
            ScanPhase::Read
        } else {
            ScanPhase::Done
        };
        Scan { files, max_turns, place: 0, phase, results: Vec::new() }
    }

    fn next_file(&mut self)
        requires
            old(self).place < old(self).files,
        ensures
            final(self)@ == at_next_file(old(self)@),
    {
        self.place = self.place + 1;
        self.phase = if self.place < self.files {
            ScanPhase::Read
        } else {
            ScanPhase::Done
        };
    }

    /// Takes an event, if the scan waits for it; stays as it is otherwise, and
    /// says so.
    pub fn advance(&mut self, event: ScanEvent) -> (taken: bool)
        requires
            old(self).wf(),
        ensures
            final(self).wf(),
            taken == awaits(old(self)@.phase, event@),
            taken ==> scan_step(old(self)@, event@, final(self)@),
            !taken ==> final(self)@ == old(self)@,
    {
        let mut phase = ScanPhase::Done;
        std::mem::swap(&mut phase, &mut self.phase);
        match (phase, event) {
            (ScanPhase::Read, ScanEvent::Unreadable) => {
                self.next_file();
                true
            },
            (ScanPhase::Read, ScanEvent::Read(file)) => {
                self.phase = ScanPhase::Load(file);
                true
            },
            (ScanPhase::Load(file), ScanEvent::Loaded(stored)) => {
                if has_nothing_new(&stored, &file) {
                    self.next_file();
                } else {
                    self.phase = ScanPhase::Compact(file);
                }
                true
            },
            (ScanPhase::Compact(file), ScanEvent::Clock(reading)) => {
                let mut compacted = file.session;
                let outcome = checked_compact_session_at(
                    &mut compacted,
                    self.max_turns,
                    reading.cutoff,
                    reading.done_at,
                    reading.compacted_at,
                );
                self.phase = match outcome {
                    Some(result) => ScanPhase::SaveSession(
                        FileSession { session: compacted, mark: file.mark },
                        result,
                    ),
                    None => ScanPhase::Failed(compacted.id),
                };
                true
            },
            (ScanPhase::SaveSession(_, result), ScanEvent::Saved) => {
                self.phase = ScanPhase::SaveResult(result);
                true
            },
            (ScanPhase::SaveResult(result), ScanEvent::Saved) => {
                let ghost before = self.results@;
                self.results.push(result);
                assert(result_views(before.push(result)) =~= result_views(before).push(result@));
                self.next_file();
                true
            },
            (phase, _) => {
                self.phase = phase;
                false
            },
        }
    }

    /// Reads the clock and compacts the session at hand, archiving turns older
    /// than `archive_age_hours`, if there is a session to compact; stays as it
    /// is otherwise, and says so.
    pub fn compact_now(&mut self, archive_age_hours: u64) -> (taken: bool)
        requires
            old(self).wf(),
        ensures
            final(self).wf(),
            taken == (old(self)@.phase is Compact),
            taken ==> exists|reading: ClockReading| #[trigger]
                is_reading(reading, archive_age_hours) && scan_step(
                    old(self)@,
                    EventView::Clock(reading),
                    final(self)@,
                ),
            !taken ==> final(self)@ == old(self)@,
    {
        let reading = read_clock(archive_age_hours);
        self.advance(ScanEvent::Clock(reading))
    }
}

/// A call of the sample session.
pub open spec fn sample_call() -> ToolCallView {
    ToolCallView { name: "Read"@, arguments: "{}"@, output: "dup"@ }
}

/// The first moment of the year 2024.
pub const SAMPLE_SECS: i64 = 1_704_067_200;

/// The turns of the sample session: two markers of the user, then two answers
/// with the same tool call, a second apart each.
pub open spec fn sample_turn(k: int) -> TurnView {
    TurnView {
        id: if k == 0 {
            "t1"@
        } else if k == 1 {
            "t2"@
        } else if k == 2 {
            "t3"@
        } else {
            "t4"@
        },
        role: if k < 2 {
            "user"@
        } else {
            "assistant"@
        },
        content: if k < 2 {
            "continue"@
        } else {
            "ok"@
        },
        tool_calls: if k < 2 {
            Seq::empty()
        } else {
            seq![sample_call()]
        },
        created_at: Timestamp { secs: (SAMPLE_SECS + k) as i64, nanos: 0 },
        input_tokens: 0,
        output_tokens: 0,
    }
}

fn sample_answer(id: &str, secs: i64) -> (turn: Turn)
    ensures
        turn@ == (TurnView {
            id: id@,
            role: "assistant"@,
            content: "ok"@,
            tool_calls: seq![sample_call()],
            created_at: Timestamp { secs, nanos: 0 },
            input_tokens: 0,
            output_tokens: 0,
        }),
{
    let mut turn = Turn::stamped(id.to_owned(), Timestamp { secs, nanos: 0 }, "assistant", "ok");
    let ghost before = turn@;
    turn.tool_calls.push(
        ToolCall { name: "Read".to_owned(), arguments: "{}".to_owned(), output: "dup".to_owned() },
    );
    assert(turn@.tool_calls =~= seq![sample_call()]);
    turn
}

/// The turns of a session for testing or demonstration.
pub fn sample_turns() -> (turns: Vec<Turn>)
    ensures
        turns@.len() == 4,
        forall|k: int| 0 <= k < 4 ==> (#[trigger] turns@[k])@ == sample_turn(k),
{
    let mut turns: Vec<Turn> = Vec::new();
    turns.push(
        Turn::stamped(
            "t1".to_owned(),
            Timestamp { secs: SAMPLE_SECS, nanos: 0 },
            "user",
            "continue",
        ),
    );
    turns.push(
        Turn::stamped(
            "t2".to_owned(),
            Timestamp { secs: SAMPLE_SECS + 1, nanos: 0 },
            "user",
            "continue",
        ),
    );
    turns.push(sample_answer("t3", SAMPLE_SECS + 2));
    turns.push(sample_answer("t4", SAMPLE_SECS + 3));
    turns
}

/// The name of the file that holds the sample session.
pub fn sample_file_name(session_id: &str) -> (name: String)
    ensures
        name@ == session_id@ + ".json"@,
{
    session_id.to_owned().concat(".json")
}

} // verus!
