use compactd::api::{
    check_watched_dir, compact_response, watch_response, ApiError, Debounce, SessionDirRequest,
};
use compactd::digest::Fingerprint;
use compactd::scanner::{
    collect_session_files, has_nothing_new, is_session_file, read_clock, read_session_file,
    sample_file_name, sample_turns, session_files, session_id, ClockReading, FileMark,
    FileSession, FoundFile, SavedSession, Scan, ScanEvent, ScanPhase, MAX_DEPTH,
};
use compactd::time::Timestamp;
use compactd::{CompactionResult, Session, Turn};

fn found(path: &str, is_file: bool) -> FoundFile {
    let components: Vec<Vec<u8>> = path.split('/').map(|c| c.as_bytes().to_vec()).collect();
    let name = components[components.len() - 1].clone();
    FoundFile {
        depth: components.len() - 1,
        components,
        name,
        is_file,
    }
}

fn moment(secs: i64) -> Timestamp {
    Timestamp::new(secs, 0).unwrap()
}

fn reading() -> ClockReading {
    ClockReading {
        cutoff: moment(0),
        done_at: moment(50),
        compacted_at: moment(60),
    }
}

fn sample() -> Session {
    let mut session = Session::new("sample");
    session.turns = sample_turns();
    session
}

fn mark(path: &str, text: &str) -> FileMark {
    FileMark {
        path: path.as_bytes().to_vec(),
        fingerprint: Fingerprint::of(text),
    }
}

/// A session from a file that is named after it and has the given text.
fn file(session: &Session, text: &str) -> FileSession {
    FileSession {
        session: session.clone(),
        mark: mark(&format!("/d/{}.json", session.id), text),
    }
}

fn sample_file() -> Option<FileSession> {
    Some(file(&sample(), "the sample"))
}

/// Runs a scan over sessions in memory; `None` stands for a file that cannot be
/// read.
fn run(
    files: &[Option<FileSession>],
    stored: &mut Vec<SavedSession>,
    max_turns: usize,
) -> Vec<CompactionResult> {
    let mut scan = Scan::new(files.len(), max_turns);
    let mut saved_results = 0;
    loop {
        let event = match &scan.phase {
            ScanPhase::Read => match &files[scan.place] {
                Some(file) => ScanEvent::Read(file.clone()),
                None => ScanEvent::Unreadable,
            },
            ScanPhase::Load(file) => ScanEvent::Loaded(
                stored
                    .iter()
                    .find(|s| s.session.id == file.session.id)
                    .cloned(),
            ),
            ScanPhase::Compact(_) => ScanEvent::Clock(reading()),
            ScanPhase::SaveSession(file, _) => {
                let mut files = Vec::new();
                if let Some(i) = stored.iter().position(|s| s.session.id == file.session.id) {
                    files = stored.remove(i).files;
                }
                files.retain(|m| m.path != file.mark.path);
                files.push(file.mark.clone());
                stored.push(SavedSession {
                    session: file.session.clone(),
                    files,
                });
                ScanEvent::Saved
            }
            ScanPhase::SaveResult(_) => {
                saved_results += 1;
                ScanEvent::Saved
            }
            ScanPhase::Done => break,
            ScanPhase::Failed(id) => panic!("{id}"),
        };
        assert!(scan.advance(event));
    }
    assert_eq!(scan.place, files.len());
    assert_eq!(saved_results, scan.results.len());
    scan.results
}

#[test]
fn scan_and_compact_finds_json_file() {
    let files = vec![found("sessions", false), found("sessions/sample.json", true)];
    let places = collect_session_files(&files);
    assert_eq!(places, vec![1]);
    assert_eq!(session_id(&files[places[0]].name), "sample");
    let listed = session_files(&files);
    assert_eq!(listed.len(), 1);
    assert_eq!(listed[0].place, 1);
    assert_eq!(listed[0].session_id, "sample");

    let results = run(&[sample_file()], &mut Vec::new(), 10);
    assert_eq!(results.len(), 1);
    assert!(results[0].metrics.continuation_turns_collapsed > 0);
}

#[test]
fn compact_endpoint_scans_and_compacts() {
    let mut stored = Vec::new();
    let results = run(&[sample_file()], &mut stored, 5);
    let body = compact_response(&results);
    assert_eq!(body.compacted, 1);
    assert!(
        body.aggregate.continuation_turns_collapsed > 0 || body.aggregate.duplicates_removed > 0
    );
    assert_eq!(stored.len(), 1);
}

#[test]
fn watch_endpoint_starts_watching() {
    let request = SessionDirRequest {
        session_dir: "/tmp/compactd-watch-test-1".to_string(),
    };
    assert_eq!(check_watched_dir(&request, true), Ok(()));
    let results = run(&[sample_file()], &mut Vec::new(), 5);
    let body = watch_response(&request, &results);
    assert!(body.watching.contains("compactd-watch-test"));
    assert_eq!(body.compacted, 1);
}

#[test]
fn missing_directories_are_not_watched() {
    let request = SessionDirRequest {
        session_dir: "/nowhere".to_string(),
    };
    let error = check_watched_dir(&request, false).unwrap_err();
    assert_eq!(
        error,
        ApiError::BadRequest("session directory does not exist: /nowhere".to_string())
    );
    assert_eq!(error.status_code(), 400);
}

#[test]
fn sample_session_compacts_as_expected() {
    let mut stored = Vec::new();
    let results = run(&[sample_file()], &mut stored, 10);
    let m = results[0].metrics;
    assert_eq!(m.continuation_turns_collapsed, 1);
    assert_eq!(m.duplicates_removed, 1);
    assert_eq!(m.turns_archived, 0);
    assert_eq!(m.token_bytes_saved, 5 + 8);
    assert_eq!(m.turns_remaining, 3);
    assert_eq!(results[0].session_id, "sample");
    assert_eq!(results[0].compacted_at, moment(60));
    assert_eq!(stored[0].session.last_compacted_at, Some(moment(50)));
    assert_eq!(stored[0].session.len(), 3);
}

#[test]
fn sample_turns_are_a_second_apart() {
    let turns = sample_turns();
    let ids: Vec<&str> = turns.iter().map(|t| t.id.as_str()).collect();
    assert_eq!(ids, vec!["t1", "t2", "t3", "t4"]);
    let first = chrono::DateTime::parse_from_rfc3339("2024-01-01T00:00:00Z").unwrap();
    for (i, turn) in turns.iter().enumerate() {
        assert_eq!(turn.created_at.secs, first.timestamp() + i as i64);
        assert_eq!(turn.created_at.nanos, 0);
    }
    assert_eq!(turns[1].content, "continue");
    assert_eq!(turns[2].tool_calls[0].output, "dup");
    assert_eq!(turns[2].tool_calls, turns[3].tool_calls);
    assert_eq!(sample_file_name("sample"), "sample.json");
}

#[test]
fn unreadable_files_are_skipped() {
    let mut other = sample();
    other.id = "other".to_string();
    let results = run(
        &[None, sample_file(), None, Some(file(&other, "the sample")), None],
        &mut Vec::new(),
        10,
    );
    let ids: Vec<&str> = results.iter().map(|r| r.session_id.as_str()).collect();
    assert_eq!(ids, vec!["sample", "other"]);
    assert!(run(&[], &mut Vec::new(), 10).is_empty());
    assert!(run(&[None], &mut Vec::new(), 10).is_empty());
}

#[test]
fn unchanged_files_are_skipped() {
    let mut stored = Vec::new();
    assert_eq!(run(&[sample_file()], &mut stored, 10).len(), 1);
    let before = stored.clone();
    assert_eq!(before[0].session.len(), 3);
    assert!(run(&[sample_file()], &mut stored, 10).is_empty());
    assert!(run(&[None, sample_file()], &mut stored, 1).is_empty());
    assert_eq!(stored, before);
}

fn parse_line(text: &str) -> Result<Turn, String> {
    Ok(Turn::new("user", text))
}

fn parse_array(text: &str) -> Result<Vec<Turn>, String> {
    Err(format!("array {text}"))
}

fn read_at(path: &str, text: &str) -> Option<FileSession> {
    read_session_file("s", path.as_bytes().to_vec(), text, parse_array, parse_line).ok()
}

fn read(text: &str) -> Option<FileSession> {
    read_at("/d/s.json", text)
}

#[test]
fn read_files_are_marked() {
    let file = read_at("/d/s.jsonl", "hi\nthere").unwrap();
    assert_eq!(file.session.id, "s");
    assert_eq!(file.session.len(), 2);
    assert_eq!(file.mark, mark("/d/s.jsonl", "hi\nthere"));
}

#[test]
fn files_with_one_identifier_are_known_apart() {
    let mut stored = Vec::new();
    let files = |a: &str, b: &str| [read_at("/d/a/s.json", a), read_at("/d/b/s.json", b)];
    assert_eq!(run(&files("one", "two"), &mut stored, 10).len(), 2);
    assert_eq!(stored.len(), 1);
    assert_eq!(stored[0].session.turns[0].content, "two");
    assert_eq!(
        stored[0].files,
        vec![mark("/d/a/s.json", "one"), mark("/d/b/s.json", "two")]
    );

    let before = stored.clone();
    for _ in 0..3 {
        assert!(run(&files("one", "two"), &mut stored, 10).is_empty());
    }
    assert_eq!(stored, before);

    assert_eq!(run(&files("three", "two"), &mut stored, 10).len(), 1);
    assert_eq!(stored[0].session.turns[0].content, "three");
    assert!(run(&files("three", "two"), &mut stored, 10).is_empty());

    // The text of another file is no reason to leave a file alone.
    assert_eq!(run(&files("two", "three"), &mut stored, 10).len(), 2);
    assert!(run(&files("two", "three"), &mut stored, 10).is_empty());
    assert_eq!(run(&[read_at("/d/c/s.json", "two")], &mut stored, 10).len(), 1);
}

#[test]
fn changed_files_are_imported() {
    let mut stored = Vec::new();
    assert_eq!(run(&[read("hi")], &mut stored, 10).len(), 1);
    assert!(run(&[read("hi")], &mut stored, 10).is_empty());
    for text in ["bye", "bid", "hi\nhi", "hi", "hi "] {
        let results = run(&[read(text)], &mut stored, 10);
        assert_eq!(results.len(), 1, "{text}");
        assert_eq!(results[0].session_id, "s");
        assert_eq!(stored.len(), 1);
        assert_eq!(
            stored[0].session.turns[0].content,
            text.lines().next().unwrap().trim()
        );
    }
    assert!(read("[1]").is_none());
}

#[test]
fn fingerprints_tell_texts_apart() {
    let print = Fingerprint::of("abc");
    assert_eq!(print.length, 3);
    assert_eq!(
        print.digest,
        "ba7816bf8f01cfea414140de5dae2223b00361a396177a9cb410ff61f20015ad"
    );
    assert!(print.same(&Fingerprint::of("abc")));
    for other in ["abd", "abcd", "", "ab"] {
        assert!(!print.same(&Fingerprint::of(other)));
    }
    assert_eq!(Fingerprint::of("\u{e9}").length, 2);
}

#[test]
fn files_without_mark_are_compacted() {
    let read = file(&sample(), "text");
    let saved = |files: Vec<FileMark>| {
        Some(SavedSession {
            session: sample(),
            files,
        })
    };
    let old = || mark("/d/sample.json", "other");
    let same = || mark("/d/sample.json", "text");
    let elsewhere = || mark("/e/sample.json", "text");
    assert!(!has_nothing_new(&None, &read));
    assert!(!has_nothing_new(&saved(Vec::new()), &read));
    assert!(!has_nothing_new(&saved(vec![old()]), &read));
    assert!(!has_nothing_new(&saved(vec![elsewhere()]), &read));
    assert!(has_nothing_new(&saved(vec![same()]), &read));
    assert!(has_nothing_new(&saved(vec![same(), elsewhere()]), &read));
    assert!(has_nothing_new(&saved(vec![old(), same()]), &read));
    assert!(!has_nothing_new(&saved(vec![same(), old()]), &read));
}

#[test]
fn scans_take_only_what_they_wait_for() {
    let mut scan = Scan::new(1, 10);
    assert!(!scan.advance(ScanEvent::Saved));
    assert!(!scan.advance(ScanEvent::Loaded(None)));
    assert!(scan.advance(ScanEvent::Read(sample_file().unwrap())));
    assert!(!scan.advance(ScanEvent::Unreadable));
    assert!(scan.advance(ScanEvent::Loaded(None)));
    assert!(matches!(scan.phase, ScanPhase::Compact(_)));
    assert!(scan.advance(ScanEvent::Clock(reading())));
    assert!(matches!(scan.phase, ScanPhase::SaveSession(_, _)));
    assert!(scan.advance(ScanEvent::Saved));
    assert!(matches!(scan.phase, ScanPhase::SaveResult(_)));
    assert!(scan.results.is_empty());
    assert!(scan.advance(ScanEvent::Saved));
    assert!(matches!(scan.phase, ScanPhase::Done));
    assert_eq!(scan.results.len(), 1);
    assert!(!scan.advance(ScanEvent::Unreadable));
}

#[test]
fn sessions_are_compacted_by_the_clock() {
    let mut scan = Scan::new(1, 1);
    assert!(!scan.compact_now(24));
    let mut session = Session::new("s");
    session.add_turn(Turn::stamped("t1".to_string(), moment(5), "user", "old"));
    session.add_turn(Turn::new("user", "new"));
    session.add_turn(Turn::new("user", "newer"));
    assert!(scan.advance(ScanEvent::Read(file(&session, "text"))));
    assert!(scan.advance(ScanEvent::Loaded(None)));
    assert!(scan.compact_now(24));
    match &scan.phase {
        ScanPhase::SaveSession(file, result) => {
            assert_eq!(file.session.len(), 2);
            assert_eq!(file.mark, mark("/d/s.json", "text"));
            assert_eq!(result.metrics.turns_archived, 1);
        }
        other => panic!("{other:?}"),
    }
}

#[test]
fn clock_is_read_around_now() {
    let before = chrono::Utc::now().timestamp();
    let clock = read_clock(2);
    let after = chrono::Utc::now().timestamp();
    assert!(before - 7200 <= clock.cutoff.secs && clock.cutoff.secs <= after - 7200);
    assert!(before <= clock.done_at.secs && clock.done_at.secs <= after);
    assert!(before <= clock.compacted_at.secs && clock.compacted_at.secs <= after);
    let first = chrono::DateTime::<chrono::Utc>::MIN_UTC.timestamp();
    assert_eq!(read_clock(1 << 60).cutoff, moment(first));
    assert_eq!(read_clock(u64::MAX).cutoff, moment(first));
}

#[test]
fn session_files_are_json_in_any_case() {
    for name in ["a.json", "a.jsonl", "a.JSON", "a.b.JsonL", "..json", "\u{e9}.json"] {
        assert!(is_session_file(&found(name, true)), "{name}");
        assert!(!is_session_file(&found(name, false)), "{name}");
    }
    for name in ["json", ".json", "a.txt", "a.json.bak", "a.", "a.jsonll", ""] {
        assert!(!is_session_file(&found(name, true)), "{name}");
    }
}

#[test]
fn session_files_lie_three_levels_deep_at_most() {
    assert_eq!(MAX_DEPTH, 3);
    let files: Vec<FoundFile> = ["a.json", "d/a.json", "d/e/a.json", "d/e/f/a.json", "d/e/f/g/a.json"]
        .iter()
        .map(|p| found(p, true))
        .collect();
    assert_eq!(files[4].depth, 4);
    assert!(!is_session_file(&files[4]));
    let mut places = collect_session_files(&files);
    places.sort();
    assert_eq!(places, vec![0, 1, 2, 3]);
}

#[test]
fn names_are_split_as_std_splits_them() {
    for name in [
        "a.json", "a.b.json", ".json", "..json", "a", "a.", "a..json", ".a.json", "\u{e9}t\u{e9}.jsonl",
    ] {
        let path = std::path::Path::new(name);
        let stem = path.file_stem().and_then(|s| s.to_str()).unwrap();
        assert_eq!(session_id(&name.as_bytes().to_vec()), stem, "{name}");
        let extension = path.extension().and_then(|s| s.to_str()).unwrap_or("");
        assert_eq!(
            is_session_file(&found(name, true)),
            extension.eq_ignore_ascii_case("json") || extension.eq_ignore_ascii_case("jsonl"),
            "{name}"
        );
    }
    assert_eq!(session_id(&vec![0xff, b'.', b'j']), "unknown");
    assert_eq!(session_id(&vec![b'a', b'.', 0xff]), "a");
}

#[test]
fn session_files_are_listed_in_the_order_of_paths() {
    let paths = [
        "d/b.json", "d/a/z.json", "d/a.json", "d/a-b.json", "d/notes.txt", "d/a/c.jsonl", "d/B.json",
        "d/a.json",
    ];
    let files: Vec<FoundFile> = paths.iter().map(|p| found(p, true)).collect();
    let listed: Vec<std::path::PathBuf> = collect_session_files(&files)
        .iter()
        .map(|i| std::path::PathBuf::from(paths[*i]))
        .collect();
    let mut expected: Vec<std::path::PathBuf> = paths
        .iter()
        .filter(|p| !p.ends_with("txt"))
        .map(std::path::PathBuf::from)
        .collect();
    expected.sort();
    assert_eq!(listed, expected);
    assert_eq!(collect_session_files(&files)[4..6], [2, 7]);
    assert!(collect_session_files(&Vec::new()).is_empty());
}

#[test]
fn changes_are_debounced() {
    let mut debounce = Debounce::new();
    assert!(!debounce.take());
    debounce.note();
    debounce.note();
    assert!(debounce.take());
    assert!(!debounce.take());
}
