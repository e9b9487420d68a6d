//! What holds of a scan as a whole.

use vstd::prelude::*;

use crate::compactor::{compacted_session, compaction_fits_at, is_compaction_report};
use crate::digest::{fingerprint, FingerprintView};
use crate::model::SessionView;
use crate::model_laws::{law_cutoff_counts_hours, law_moments_in_order};
use crate::outcome_laws::{is_earlier, is_older};
use crate::scanner::{
    at_next_file, awaits, compacted_file, first_phase, is_reading, is_unchanged, mark_map, reports,
    scan_start, scan_step, ClockReading, EventView, FileMark, FileSession, FileSessionView,
    PhaseView, ResultView, SavedSession, SavedSessionView, Scan, ScanEvent, ScanPhase, ScanView,
};
use crate::text::byte_len;
use crate::time::{cutoff_of, Timestamp};

verus! {

/// A scan goes through `states`, from its start, as `events` come in.
pub open spec fn is_run(
    files: nat,
    max_turns: usize,
    states: Seq<ScanView>,
    events: Seq<EventView>,
) -> bool {
    &&& states.len() == events.len() + 1
    &&& states[0] == scan_start(files, max_turns)
    &&& forall|i: int|
        0 <= i < events.len() ==> scan_step(states[i], #[trigger] events[i], states[i + 1])
}

/// How much of the work on its file a scan has behind it.
pub open spec fn rank(phase: PhaseView) -> int {
    match phase {
        PhaseView::Read => 0,
        PhaseView::Load(_) => 1,
        PhaseView::Compact(_) => 2,
        PhaseView::SaveSession(_, _) => 3,
        PhaseView::SaveResult(_) => 4,
        PhaseView::Done => 0,
        PhaseView::Failed(_) => 4,
    }
}

/// How many more events a scan can take.
pub open spec fn steps_left(scan: ScanView) -> int {
    5 * (scan.files - scan.place) - rank(scan.phase)
}

/// Every event brings a scan closer to its end, and what holds of every scan
/// still holds.
pub proof fn law_scan_progresses(before: ScanView, event: EventView, after: ScanView)
    requires
        before.wf(),
        scan_step(before, event, after),
    ensures
        after.wf(),
        0 <= steps_left(after) < steps_left(before),
        after.files == before.files,
        after.max_turns == before.max_turns,
{
}

/// A scan that is neither done nor failed waits for something.
pub proof fn law_scan_waits(scan: ScanView)
    requires
        scan.wf(),
        scan.place < scan.files,
        !(scan.phase is Failed),
    ensures
        exists|event: EventView| awaits(scan.phase, event),
{
    let event = match scan.phase {
        PhaseView::Read => EventView::Unreadable,
        PhaseView::Load(_) => EventView::Loaded(None),
        PhaseView::Compact(_) => EventView::Clock(arbitrary()),
        _ => EventView::Saved,
    };
    assert(awaits(scan.phase, event));
}

/// A scan takes five events for a file at most, and in the end it has been
/// through all files.
pub proof fn law_scan_ends(
    files: nat,
    max_turns: usize,
    states: Seq<ScanView>,
    events: Seq<EventView>,
)
    requires
        is_run(files, max_turns, states, events),
    ensures
        events.len() <= 5 * files,
        states.last().wf(),
        states.last().files == files,
        states.last().phase is Done <==> states.last().place == files,
{
    lemma_run(files, max_turns, states, events, events.len() as int);
}

proof fn lemma_run(
    files: nat,
    max_turns: usize,
    states: Seq<ScanView>,
    events: Seq<EventView>,
    i: int,
)
    requires
        is_run(files, max_turns, states, events),
        0 <= i <= events.len(),
    ensures
        states[i].wf(),
        states[i].files == files,
        0 <= steps_left(states[i]),
        i + steps_left(states[i]) <= 5 * files,
    decreases i,
{
    if i > 0 {
        lemma_run(files, max_turns, states, events, i - 1);
        assert(scan_step(states[i - 1], events[i - 1], states[i]));
        law_scan_progresses(states[i - 1], events[i - 1], states[i]);
    }
}

/// A scan never goes back to an earlier file, never drops or changes a result,
/// and has one result at most for each file that it went through.
pub proof fn law_scan_keeps_results(
    files: nat,
    max_turns: usize,
    states: Seq<ScanView>,
    events: Seq<EventView>,
    i: int,
    j: int,
)
    requires
        is_run(files, max_turns, states, events),
        0 <= i <= j < states.len(),
    ensures
        states[i].place <= states[j].place,
        states[i].results.len() <= states[j].results.len(),
        states[j].results.take(states[i].results.len() as int) == states[i].results,
        states[j].results.len() - states[i].results.len() <= states[j].place - states[i].place,
    decreases j - i,
{
    if i < j {
        law_scan_keeps_results(files, max_turns, states, events, i, j - 1);
        assert(scan_step(states[j - 1], events[j - 1], states[j]));
        let kept = states[i].results.len() as int;
        assert(states[j].results.take(kept) =~= states[j - 1].results.take(kept));
    } else {
        assert(states[j].results.take(states[i].results.len() as int) =~= states[i].results);
    }
}

/// A file that cannot be read has no effect on the others: the scan goes on
/// with the next file, and with the results that it had.
pub proof fn law_unreadable_file_skipped(before: ScanView, after: ScanView)
    requires
        before.wf(),
        before.phase is Read,
        scan_step(before, EventView::Unreadable, after),
    ensures
        after == (ScanView {
            place: before.place + 1,
            phase: first_phase(before.place + 1, before.files),
            ..before
        }),
{
}

/// A file that still holds what it held when it was imported is left alone:
/// nothing is saved, and no result is added.
pub proof fn law_unchanged_file_skipped(
    before: ScanView,
    file: FileSessionView,
    stored: SavedSessionView,
    after: ScanView,
)
    requires
        before.wf(),
        before.phase == PhaseView::Load(file),
        stored.marks.contains_key(file.mark.path),
        stored.marks[file.mark.path] == file.mark.fingerprint,
        scan_step(before, EventView::Loaded(Some(stored)), after),
    ensures
        after == at_next_file(before),
        after.results == before.results,
{
}

/// A file that was never imported, or holds another text than when it was, is
/// compacted.
pub proof fn law_changed_file_compacted(
    before: ScanView,
    file: FileSessionView,
    stored: Option<SavedSessionView>,
    after: ScanView,
)
    requires
        before.wf(),
        before.phase == PhaseView::Load(file),
        stored matches Some(s) ==> !s.marks.contains_key(file.mark.path) || s.marks[file.mark.path]
            != file.mark.fingerprint,
        scan_step(before, EventView::Loaded(stored), after),
    ensures
        after == (ScanView { phase: PhaseView::Compact(file), ..before }),
{
}

/// A text that has become longer or shorter has another fingerprint.
pub proof fn law_length_tells_texts_apart(first: Seq<char>, second: Seq<char>)
    requires
        byte_len(first) != byte_len(second),
    ensures
        fingerprint(first) != fingerprint(second),
{
}

/// A file whose session has something new gives one result: that of the
/// compaction of the session that was read. What is saved before is the
/// compacted session, with the mark of the file.
pub proof fn law_session_compacted(
    states: Seq<ScanView>,
    file: FileSessionView,
    stored: Option<SavedSessionView>,
    reading: ClockReading,
)
    requires
        states.len() == 6,
        states[0].wf(),
        states[0].phase is Read,
        !is_unchanged(stored, file),
        compaction_fits_at(file.session.turns, states[0].max_turns, reading.cutoff),
        scan_step(states[0], EventView::Read(file), states[1]),
        scan_step(states[1], EventView::Loaded(stored), states[2]),
        scan_step(states[2], EventView::Clock(reading), states[3]),
        scan_step(states[3], EventView::Saved, states[4]),
        scan_step(states[4], EventView::Saved, states[5]),
    ensures
        states[3].phase matches PhaseView::SaveSession(saved, result) && {
            &&& saved == compacted_file(file, states[0].max_turns, reading)
            &&& reports(result, file.session, states[0].max_turns, reading)
            &&& states[4].phase == PhaseView::SaveResult(result)
            &&& states[5] == at_next_file(
                ScanView { results: states[0].results.push(result), ..states[0] },
            )
        },
{
}

/// A session that was compacted from a text is not compacted again while the
/// file holds that text, whatever the compaction left of it, and whatever other
/// files were imported under its identifier.
pub proof fn law_compacted_session_left_alone(
    session: SessionView,
    path: Seq<u8>,
    text: Seq<char>,
    marks: Map<Seq<u8>, FingerprintView>,
    again: FileSessionView,
)
    requires
        again.mark.path == path,
        again.mark.fingerprint == fingerprint(text),
    ensures
        is_unchanged(
            Some(SavedSessionView { session, marks: marks.insert(path, fingerprint(text)) }),
            again,
        ),
{
}

// Scans with a store

/// What a store holds: sessions by their identifiers.
pub type Sessions = Map<Seq<char>, SavedSessionView>;

/// The session that a store holds under an identifier, with the marks of files.
pub open spec fn lookup(store: Sessions, id: Seq<char>) -> Option<SavedSessionView> {
    if store.contains_key(id) {
        Some(store[id])
    } else {
        None
    }
}

/// The session that a store holds under an identifier.
pub open spec fn session_in(store: Sessions, id: Seq<char>) -> Option<SessionView> {
    match lookup(store, id) {
        Some(saved) => Some(saved.session),
        None => None,
    }
}

/// The marks that a store holds under an identifier.
pub open spec fn marks_in(store: Sessions, id: Seq<char>) -> Map<Seq<u8>, FingerprintView> {
    match lookup(store, id) {
        Some(saved) => saved.marks,
        None => Map::empty(),
    }
}

/// The fingerprint that a store holds of a file.
pub open spec fn mark_in(store: Sessions, file: FileSessionView) -> Option<FingerprintView> {
    let marks = marks_in(store, file.session.id);
    if marks.contains_key(file.mark.path) {
        Some(marks[file.mark.path])
    } else {
        None
    }
}

/// A store in which a session from a file was saved, with the mark of the file
/// beside those that are there. The moment of creation that is there stays.
pub open spec fn with_saved(store: Sessions, file: FileSessionView) -> Sessions {
    let id = file.session.id;
    store.insert(
        id,
        SavedSessionView {
            session: SessionView {
                created_at: match session_in(store, id) {
                    Some(there) => there.created_at,
                    None => file.session.created_at,
                },
                ..file.session
            },
            marks: marks_in(store, id).insert(file.mark.path, file.mark.fingerprint),
        },
    )
}

/// A file is read, and a store looked into and written to, as the scan asks. A
/// file that cannot be read counts as none.
pub open spec fn does_as_asked(
    files: Seq<Option<FileSessionView>>,
    scan: ScanView,
    event: EventView,
    store: Sessions,
    next: Sessions,
) -> bool {
    match scan.phase {
        PhaseView::Read => next == store && event == match files[scan.place as int] {
            Some(file) => EventView::Read(file),
            None => EventView::Unreadable,
        },
        PhaseView::Load(file) => next == store && event == EventView::Loaded(
            lookup(store, file.session.id),
        ),
        PhaseView::SaveSession(file, _) => next == with_saved(store, file),
        _ => next == store,
    }
}

/// A scan of files goes through `states`, and a store through `stores`.
pub open spec fn is_store_run(
    files: Seq<Option<FileSessionView>>,
    max_turns: usize,
    states: Seq<ScanView>,
    events: Seq<EventView>,
    stores: Seq<Sessions>,
) -> bool {
    &&& is_run(files.len(), max_turns, states, events)
    &&& stores.len() == states.len()
    &&& forall|i: int|
        0 <= i < events.len() ==> does_as_asked(
            files,
            states[i],
            #[trigger] events[i],
            stores[i],
            stores[i + 1],
        )
}

/// No two files lie at one path. Their sessions may well have one identifier.
pub open spec fn distinct_paths(files: Seq<Option<FileSessionView>>) -> bool {
    forall|i: int, j: int|
        #![trigger files[i], files[j]]
        0 <= i < j < files.len() && files[i] is Some && files[j] is Some
            ==> files[i]->Some_0.mark.path != files[j]->Some_0.mark.path
}

/// A file holds something new over a store.
pub open spec fn is_changed(store: Sessions, file: FileSessionView) -> bool {
    !is_unchanged(lookup(store, file.session.id), file)
}

/// The last of some files that holds something new over a store, of those whose
/// session has the given identifier.
pub open spec fn last_changed(
    files: Seq<Option<FileSessionView>>,
    store: Sessions,
    id: Seq<char>,
) -> Option<FileSessionView>
    decreases files.len(),
{
    if files.len() == 0 {
        None
    } else {
        match files.last() {
            Some(file) if file.session.id == id && is_changed(store, file) => Some(file),
            _ => last_changed(files.drop_last(), store, id),
        }
    }
}

/// What a store holds under an identifier once a scan that began with the store
/// `first` has been through some files: the session of the last of them that was
/// imported under it, compacted, or what was there if none was. A moment of
/// creation that was there stays.
pub open spec fn settled(
    files: Seq<Option<FileSessionView>>,
    max_turns: usize,
    first: Sessions,
    store: Sessions,
    id: Seq<char>,
) -> bool {
    match last_changed(files, first, id) {
        Some(file) => session_in(store, id) matches Some(session) && {
            &&& exists|reading: ClockReading|
                session == (SessionView {
                    created_at: session.created_at,
                    ..(#[trigger] compacted_file(file, max_turns, reading)).session
                })
            &&& session_in(first, id) matches Some(there) ==> session.created_at
                == there.created_at
        },
        None => session_in(store, id) == session_in(first, id),
    }
}

/// The identifiers of the sessions in those of some files that hold something
/// new over a store.
pub open spec fn changed_ids(files: Seq<Option<FileSessionView>>, store: Sessions) -> Seq<Seq<char>>
    decreases files.len(),
{
    if files.len() == 0 {
        Seq::empty()
    } else {
        match files.last() {
            Some(file) if is_changed(store, file) => changed_ids(
                files.drop_last(),
                store,
            ).push(file.session.id),
            _ => changed_ids(files.drop_last(), store),
        }
    }
}

/// The identifiers of the sessions that results report on.
pub open spec fn result_ids(results: Seq<ResultView>) -> Seq<Seq<char>> {
    results.map_values(|r: ResultView| r.session_id)
}

/// A file is none of those that a scan reads.
pub open spec fn is_elsewhere(
    files: Seq<Option<FileSessionView>>,
    file: FileSessionView,
) -> bool {
    forall|k: int|
        0 <= k < files.len() && (#[trigger] files[k]) is Some ==> files[k]->Some_0.mark.path
            != file.mark.path
}

/// How many files a scan is done with, as far as the store goes.
spec fn files_done(scan: ScanView) -> int {
    if scan.phase is SaveResult {
        (scan.place + 1) as int
    } else {
        scan.place as int
    }
}

/// What a scan that began with the store `first` has done so far.
spec fn done_so_far(
    files: Seq<Option<FileSessionView>>,
    first: Sessions,
    scan: ScanView,
    store: Sessions,
) -> bool {
    let place = scan.place as int;
    let n = files_done(scan);
    &&& scan.wf()
    &&& scan.files == files.len()
    &&& result_ids(scan.results) == changed_ids(files.take(place), first)
    &&& forall|k: int|
        0 <= k < n && (#[trigger] files[k]) is Some ==> mark_in(store, files[k]->Some_0) == Some(
            files[k]->Some_0.mark.fingerprint,
        )
    &&& forall|k: int|
        n <= k < files.len() && (#[trigger] files[k]) is Some ==> mark_in(store, files[k]->Some_0)
            == mark_in(first, files[k]->Some_0)
    &&& forall|other: FileSessionView|
        is_elsewhere(files, other) ==> #[trigger] mark_in(store, other) == mark_in(first, other)
    &&& forall|id: Seq<char>| #[trigger]
        settled(files.take(n), scan.max_turns, first, store, id)
    &&& match scan.phase {
        PhaseView::Load(file) => files[place] == Some(file),
        PhaseView::Compact(file) => files[place] == Some(file) && is_changed(first, file),
        PhaseView::SaveSession(compacted, result) => {
            &&& files[place] is Some
            &&& result.session_id == files[place]->Some_0.session.id
            &&& is_changed(first, files[place]->Some_0)
            &&& exists|reading: ClockReading|
                compacted == #[trigger] compacted_file(
                    files[place]->Some_0,
                    scan.max_turns,
                    reading,
                )
        },
        PhaseView::SaveResult(result) => {
            &&& files[place] is Some
            &&& result.session_id == files[place]->Some_0.session.id
            &&& is_changed(first, files[place]->Some_0)
        },
        _ => true,
    }
}

proof fn lemma_session_saved(
    files: Seq<Option<FileSessionView>>,
    first: Sessions,
    scan: ScanView,
    store: Sessions,
    compacted: FileSessionView,
)
    requires
        distinct_paths(files),
        done_so_far(files, first, scan, store),
        scan.phase is SaveSession,
        compacted == scan.phase->SaveSession_0,
        scan.place < files.len(),
    ensures
        ({
            let next = with_saved(store, compacted);
            let place = scan.place as int;
            &&& forall|k: int|
                0 <= k <= place && (#[trigger] files[k]) is Some ==> mark_in(
                    next,
                    files[k]->Some_0,
                ) == Some(files[k]->Some_0.mark.fingerprint)
            &&& forall|k: int|
                place < k < files.len() && (#[trigger] files[k]) is Some ==> mark_in(
                    next,
                    files[k]->Some_0,
                ) == mark_in(first, files[k]->Some_0)
            &&& forall|other: FileSessionView|
                is_elsewhere(files, other) ==> #[trigger] mark_in(next, other) == mark_in(
                    first,
                    other,
                )
            &&& forall|id: Seq<char>| #[trigger]
                settled(files.take(place + 1), scan.max_turns, first, next, id)
        }),
{
    let next = with_saved(store, compacted);
    let place = scan.place as int;
    let file = files[place]->Some_0;
    let reading = choose|reading: ClockReading|
        compacted == #[trigger] compacted_file(file, scan.max_turns, reading);
    assert(files.take(place + 1).drop_last() =~= files.take(place));
    assert(files.take(place + 1).last() == files[place]);
    assert(compacted.session.id == file.session.id && compacted.mark == file.mark);
    assert forall|k: int| 0 <= k < files.len() && k != place && (
    #[trigger] files[k]) is Some implies mark_in(next, files[k]->Some_0) == mark_in(
        store,
        files[k]->Some_0,
    ) by {
        assert(files[place] is Some);
        assert(files[k]->Some_0.mark.path != file.mark.path);
    }
    assert forall|other: FileSessionView| is_elsewhere(
        files,
        other,
    ) implies #[trigger] mark_in(next, other) == mark_in(first, other) by {
        assert(files[place] is Some);
        assert(mark_in(next, other) == mark_in(store, other));
    }
    assert forall|id: Seq<char>| #[trigger]
        settled(files.take(place + 1), scan.max_turns, first, next, id) by {
        assert(settled(files.take(place), scan.max_turns, first, store, id));
        if id == file.session.id {
            let session = session_in(next, id)->Some_0;
            assert(session == (SessionView {
                created_at: session.created_at,
                ..compacted_file(file, scan.max_turns, reading).session
            }));
        } else {
            assert(session_in(next, id) == session_in(store, id));
        }
    }
}

proof fn lemma_step_done(
    files: Seq<Option<FileSessionView>>,
    first: Sessions,
    scan: ScanView,
    event: EventView,
    after: ScanView,
    store: Sessions,
    next: Sessions,
)
    requires
        distinct_paths(files),
        done_so_far(files, first, scan, store),
        scan_step(scan, event, after),
        does_as_asked(files, scan, event, store, next),
    ensures
        done_so_far(files, first, after, next),
        after.max_turns == scan.max_turns,
{
    let place = scan.place as int;
    law_scan_progresses(scan, event, after);
    assert(place < files.len());
    assert(files.take(place + 1).drop_last() =~= files.take(place));
    assert(files.take(place + 1).last() == files[place]);
    match scan.phase {
        PhaseView::SaveSession(compacted, _) => {
            lemma_session_saved(files, first, scan, store, compacted);
        },
        PhaseView::Load(file) => {
            assert(mark_in(store, file) == mark_in(first, file));
            assert(is_changed(store, file) == is_changed(first, file));
            if after.place == place + 1 {
                assert forall|id: Seq<char>| #[trigger]
                    settled(files.take(place + 1), scan.max_turns, first, next, id) by {
                    assert(settled(files.take(place), scan.max_turns, first, store, id));
                }
            }
        },
        PhaseView::Compact(file) => {
            if let EventView::Clock(reading) = event {
                if after.phase is SaveSession {
                    assert(after.phase->SaveSession_0 == compacted_file(
                        file,
                        scan.max_turns,
                        reading,
                    ));
                }
            }
        },
        PhaseView::Read => {
            if after.place == place + 1 {
                assert forall|id: Seq<char>| #[trigger]
                    settled(files.take(place + 1), scan.max_turns, first, next, id) by {
                    assert(settled(files.take(place), scan.max_turns, first, store, id));
                }
            }
        },
        PhaseView::SaveResult(result) => {
            assert(result_ids(scan.results.push(result)) =~= result_ids(scan.results).push(
                result.session_id,
            ));
        },
        _ => {},
    }
}

proof fn lemma_store_run(
    files: Seq<Option<FileSessionView>>,
    max_turns: usize,
    states: Seq<ScanView>,
    events: Seq<EventView>,
    stores: Seq<Sessions>,
    i: int,
)
    requires
        is_store_run(files, max_turns, states, events, stores),
        distinct_paths(files),
        0 <= i < states.len(),
    ensures
        done_so_far(files, stores[0], states[i], stores[i]),
        states[i].max_turns == max_turns,
    decreases i,
{
    if i > 0 {
        lemma_store_run(files, max_turns, states, events, stores, i - 1);
        assert(scan_step(states[i - 1], events[i - 1], states[i]));
        assert(does_as_asked(files, states[i - 1], events[i - 1], stores[i - 1], stores[i]));
        lemma_step_done(
            files,
            stores[0],
            states[i - 1],
            events[i - 1],
            states[i],
            stores[i - 1],
            stores[i],
        );
    } else {
        assert(files.take(0) =~= Seq::empty());
        assert(result_ids(states[0].results) =~= Seq::empty());
    }
}

/// A scan that comes to its end imports the files that are new or changed, and
/// no others. There is one result for each of them, in the order of the files.
/// Afterwards the store holds the mark of every file that could be read, beside
/// the marks of other files as they were, and under each identifier the session
/// of the last file that was imported under it, compacted, or what was there if
/// none was. A moment of creation that was there stays.
pub proof fn law_scan_imports_new_and_changed(
    files: Seq<Option<FileSessionView>>,
    max_turns: usize,
    states: Seq<ScanView>,
    events: Seq<EventView>,
    stores: Seq<Sessions>,
)
    requires
        is_store_run(files, max_turns, states, events, stores),
        distinct_paths(files),
        states.last().phase is Done,
    ensures
        result_ids(states.last().results) == changed_ids(files, stores[0]),
        forall|k: int|
            0 <= k < files.len() && (#[trigger] files[k]) is Some ==> mark_in(
                stores.last(),
                files[k]->Some_0,
            ) == Some(files[k]->Some_0.mark.fingerprint),
        forall|other: FileSessionView|
            is_elsewhere(files, other) ==> #[trigger] mark_in(stores.last(), other) == mark_in(
                stores[0],
                other,
            ),
        forall|id: Seq<char>| #[trigger]
            settled(files, max_turns, stores[0], stores.last(), id),
{
    lemma_store_run(files, max_turns, states, events, stores, states.len() - 1);
    assert(files.take(files.len() as int) =~= files);
}

/// The same files, as a second scan reads them: at the same paths, with the same
/// identifiers and the same texts.
pub open spec fn same_files(
    files: Seq<Option<FileSessionView>>,
    again: Seq<Option<FileSessionView>>,
) -> bool {
    &&& again.len() == files.len()
    &&& forall|k: int|
        #![trigger again[k]]
        0 <= k < again.len() ==> {
            &&& again[k] is Some <==> files[k] is Some
            &&& again[k] matches Some(file) ==> {
                &&& file.session.id == files[k]->Some_0.session.id
                &&& file.mark == files[k]->Some_0.mark
            }
        }
}

proof fn lemma_rescan(
    files: Seq<Option<FileSessionView>>,
    max_turns: usize,
    states: Seq<ScanView>,
    events: Seq<EventView>,
    stores: Seq<Sessions>,
    i: int,
)
    requires
        is_store_run(files, max_turns, states, events, stores),
        forall|k: int|
            0 <= k < files.len() && (#[trigger] files[k]) is Some ==> is_unchanged(
                lookup(stores[0], files[k]->Some_0.session.id),
                files[k]->Some_0,
            ),
        0 <= i < states.len(),
    ensures
        states[i].wf(),
        states[i].files == files.len(),
        states[i].results.len() == 0,
        stores[i] == stores[0],
        match states[i].phase {
            PhaseView::Read => true,
            PhaseView::Load(file) => files[states[i].place as int] == Some(file),
            PhaseView::Done => true,
            _ => false,
        },
    decreases i,
{
    if i > 0 {
        lemma_rescan(files, max_turns, states, events, stores, i - 1);
        assert(scan_step(states[i - 1], events[i - 1], states[i]));
        assert(does_as_asked(files, states[i - 1], events[i - 1], stores[i - 1], stores[i]));
        law_scan_progresses(states[i - 1], events[i - 1], states[i]);
    }
}

/// A second scan of files that have not changed since the first changes nothing:
/// it compacts nothing, does not fail and has no results, and the store is at
/// every moment what the first scan left.
pub proof fn law_rescan_changes_nothing(
    files: Seq<Option<FileSessionView>>,
    again: Seq<Option<FileSessionView>>,
    max_turns: usize,
    states: Seq<ScanView>,
    events: Seq<EventView>,
    stores: Seq<Sessions>,
    max_turns_again: usize,
    states_again: Seq<ScanView>,
    events_again: Seq<EventView>,
    stores_again: Seq<Sessions>,
)
    requires
        distinct_paths(files),
        is_store_run(files, max_turns, states, events, stores),
        states.last().phase is Done,
        same_files(files, again),
        is_store_run(again, max_turns_again, states_again, events_again, stores_again),
        stores_again[0] == stores.last(),
    ensures
        forall|i: int|
            0 <= i < states_again.len() ==> {
                &&& (#[trigger] states_again[i]).results.len() == 0
                &&& !(states_again[i].phase is Compact)
                &&& !(states_again[i].phase is SaveSession)
                &&& !(states_again[i].phase is SaveResult)
                &&& !(states_again[i].phase is Failed)
                &&& stores_again[i] == stores.last()
            },
{
    law_scan_imports_new_and_changed(files, max_turns, states, events, stores);
    assert forall|k: int|
        0 <= k < again.len() && (#[trigger] again[k]) is Some implies is_unchanged(
        lookup(stores_again[0], again[k]->Some_0.session.id),
        again[k]->Some_0,
    ) by {
        assert(files[k] is Some);
        assert(mark_in(stores.last(), files[k]->Some_0) == Some(
            files[k]->Some_0.mark.fingerprint,
        ));
    }
    assert forall|i: int| 0 <= i < states_again.len() implies {
        &&& (#[trigger] states_again[i]).results.len() == 0
        &&& !(states_again[i].phase is Compact)
        &&& !(states_again[i].phase is SaveSession)
        &&& !(states_again[i].phase is SaveResult)
        &&& !(states_again[i].phase is Failed)
        &&& stores_again[i] == stores.last()
    } by {
        lemma_rescan(again, max_turns_again, states_again, events_again, stores_again, i);
    }
}

// Step by step

/// A scan has gone on to the next file, or is done if there is none, with the given
/// results.
pub open spec fn went_on(before: ScanView, after: ScanView, results: Seq<ResultView>) -> bool {
    &&& after.files == before.files
    &&& after.max_turns == before.max_turns
    &&& after.place == before.place + 1
    &&& before.place + 1 < before.files ==> after.phase is Read
    &&& before.place + 1 == before.files ==> after.phase is Done
    &&& after.results == results
}

/// A scan is at the same file in another phase, with the results that it had.
pub open spec fn stays_at(before: ScanView, after: ScanView, phase: PhaseView) -> bool {
    &&& after.files == before.files
    &&& after.max_turns == before.max_turns
    &&& after.place == before.place
    &&& after.phase == phase
    &&& after.results == before.results
}

/// A scan begins at the first file, without results, and is done at once if there is
/// no file.
pub proof fn law_scan_begins(files: nat, max_turns: usize)
    ensures
        scan_start(files, max_turns).files == files,
        scan_start(files, max_turns).max_turns == max_turns,
        scan_start(files, max_turns).place == 0,
        files > 0 ==> scan_start(files, max_turns).phase is Read,
        files == 0 ==> scan_start(files, max_turns).phase is Done,
        scan_start(files, max_turns).results == Seq::<ResultView>::empty(),
{
}

/// A scan takes one kind of event in each phase, and two while it waits for a file.
pub proof fn law_scan_takes_events(phase: PhaseView, event: EventView)
    ensures
        awaits(phase, event) <==> {
            ||| phase is Read && (event is Unreadable || event is Read)
            ||| phase is Load && event is Loaded
            ||| phase is Compact && event is Clock
            ||| phase is SaveSession && event is Saved
            ||| phase is SaveResult && event is Saved
        },
{
}

/// What each event makes of a scan. A file that cannot be read is passed over. A
/// session that was read is looked up; its file is passed over exactly if the store
/// has a mark for its path with the length and the hash of its text. Otherwise the
/// session is compacted, and saved under its own identifier with the mark of its
/// file; its result is saved after it, and then joins the results.
pub proof fn law_scan_step_by_step(before: ScanView, event: EventView, after: ScanView)
    requires
        before.wf(),
        scan_step(before, event, after),
    ensures
        match (before.phase, event) {
            (PhaseView::Read, EventView::Unreadable) => went_on(before, after, before.results),
            (PhaseView::Read, EventView::Read(file)) => stays_at(
                before,
                after,
                PhaseView::Load(file),
            ),
            (PhaseView::Load(file), EventView::Loaded(stored)) => if stored is Some
                && stored->Some_0.marks.contains_key(file.mark.path)
                && stored->Some_0.marks[file.mark.path].length == file.mark.fingerprint.length
                && stored->Some_0.marks[file.mark.path].digest == file.mark.fingerprint.digest {
                went_on(before, after, before.results)
            } else {
                stays_at(before, after, PhaseView::Compact(file))
            },
            (PhaseView::Compact(file), EventView::Clock(reading)) => {
                if compaction_fits_at(file.session.turns, before.max_turns, reading.cutoff) {
                    &&& after.phase matches PhaseView::SaveSession(saved, result) && {
                        &&& saved.session == compacted_session(
                            file.session,
                            before.max_turns,
                            reading.cutoff,
                            reading.done_at,
                        )
                        &&& saved.session.id == file.session.id
                        &&& saved.session.last_compacted_at == Some(reading.done_at)
                        &&& saved.mark.path == file.mark.path
                        &&& saved.mark.fingerprint == file.mark.fingerprint
                        &&& result.session_id == file.session.id
                        &&& is_compaction_report(
                            file.session.turns,
                            before.max_turns,
                            reading.cutoff,
                            result.metrics,
                        )
                        &&& result.compacted_at == reading.compacted_at
                    }
                    &&& stays_at(before, after, after.phase)
                } else {
                    stays_at(before, after, PhaseView::Failed(file.session.id))
                }
            },
            (PhaseView::SaveSession(_, result), EventView::Saved) => stays_at(
                before,
                after,
                PhaseView::SaveResult(result),
            ),
            (PhaseView::SaveResult(result), EventView::Saved) => went_on(
                before,
                after,
                before.results.push(result),
            ),
            _ => false,
        },
{
}

/// The moments of a compaction by the clock: a moment that the calendar holds comes
/// before the cutoff exactly if it lies more than the given hours before a moment that
/// the clock showed.
pub proof fn law_reading_of_clock(
    reading: ClockReading,
    age_hours: u64,
    moment: Timestamp,
) -> (now: Timestamp)
    requires
        is_reading(reading, age_hours),
        moment.wf(),
    ensures
        now.is_clock_reading(),
        reading.done_at.is_clock_reading(),
        reading.compacted_at.is_clock_reading(),
        is_earlier(moment, reading.cutoff) <==> is_older(moment, now, age_hours),
{
    let now = choose|now: Timestamp|
        now.is_clock_reading() && reading.cutoff == #[trigger] cutoff_of(now, age_hours);
    law_cutoff_counts_hours(moment, now, age_hours);
    law_moments_in_order(moment, reading.cutoff);
    now
}

/// The mathematical values of marks, of sessions from files and of sessions from the
/// store show all of them.
pub proof fn law_files_shown(mark: FileMark, file: FileSession, saved: SavedSession)
    ensures
        mark@.path == mark.path@,
        mark@.fingerprint == mark.fingerprint@,
        file@.session == file.session@,
        file@.mark == file.mark@,
        saved@.session == saved.session@,
        saved@.marks == mark_map(saved.files@),
{
}

/// The mathematical value of a scan shows all of it.
pub proof fn law_scan_shown(scan: Scan)
    ensures
        scan@.files == scan.files,
        scan@.max_turns == scan.max_turns,
        scan@.place == scan.place,
        match scan.phase {
            ScanPhase::Read => scan@.phase is Read,
            ScanPhase::Load(file) => scan@.phase == PhaseView::Load(file@),
            ScanPhase::Compact(file) => scan@.phase == PhaseView::Compact(file@),
            ScanPhase::SaveSession(file, result) => scan@.phase == PhaseView::SaveSession(
                file@,
                result@,
            ),
            ScanPhase::SaveResult(result) => scan@.phase == PhaseView::SaveResult(result@),
            ScanPhase::Done => scan@.phase is Done,
            ScanPhase::Failed(id) => scan@.phase == PhaseView::Failed(id@),
        },
        scan@.results.len() == scan.results@.len(),
        forall|i: int|
            0 <= i < scan.results@.len() ==> #[trigger] scan@.results[i] == scan.results@[i]@,
{
}

/// The mathematical value of an event shows all of it.
pub proof fn law_event_shown(event: ScanEvent)
    ensures
        match event {
            ScanEvent::Unreadable => event@ is Unreadable,
            ScanEvent::Read(file) => event@ == EventView::Read(file@),
            ScanEvent::Loaded(Some(saved)) => event@ == EventView::Loaded(Some(saved@)),
            ScanEvent::Loaded(None) => event@ == EventView::Loaded(None),
            ScanEvent::Clock(reading) => event@ == EventView::Clock(reading),
            ScanEvent::Saved => event@ is Saved,
        },
{
}

} // verus!
