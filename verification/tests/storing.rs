use compactd::api::{
    checked_sum_results, health_handler, listen_address, metrics_text, report_text,
    status_response, sum_results, ApiError,
};
use compactd::digest::Fingerprint;
use compactd::scanner::{FileMark, SavedSession};
use compactd::store::{
    load_session, load_turn, metrics_from_sums, moments_are_valid, result_row, session_from_row,
    session_writes, turn_from_row, turn_row, ResultSums, SessionRow, SessionWrites, StoredSession,
    StoredTurn, TurnRow,
};
use compactd::time::{archive_cutoff, moment_or, Timestamp};
use compactd::{CompactionMetrics, CompactionResult, Config, Session, ToolCall, Turn};

fn at(secs: i64, nanos: u32) -> Timestamp {
    Timestamp::new(secs, nanos).unwrap()
}

fn stored_session(row: &SessionRow) -> StoredSession {
    StoredSession {
        id: row.id.clone(),
        created_at: row.created_at.clone(),
        last_compacted_at: row.last_compacted_at.clone(),
    }
}

fn stored_turn(row: &TurnRow) -> StoredTurn {
    StoredTurn {
        id: row.id.clone(),
        role: row.role.clone(),
        content: row.content.clone(),
        created_at: row.created_at.clone(),
        input_tokens: row.input_tokens,
        output_tokens: row.output_tokens,
    }
}

fn result(metrics: CompactionMetrics) -> CompactionResult {
    CompactionResult {
        session_id: "s1".to_string(),
        metrics,
        compacted_at: at(1_704_067_200, 0),
    }
}

fn metrics(a: usize, b: usize, c: usize, d: usize, e: usize) -> CompactionMetrics {
    CompactionMetrics {
        duplicates_removed: a,
        continuation_turns_collapsed: b,
        turns_archived: c,
        token_bytes_saved: d,
        turns_remaining: e,
    }
}

fn mark(path: &str, text: &str) -> FileMark {
    FileMark {
        path: path.as_bytes().to_vec(),
        fingerprint: Fingerprint::of(text),
    }
}

/// What is written of a session, with no calls in JSON.
fn writes_of(
    session: &Session,
    mark: &Option<FileMark>,
    first_seen: &Option<String>,
) -> SessionWrites {
    let json = session.turns.iter().map(|_| "[]".to_string()).collect();
    session_writes(session, mark, first_seen, json)
}

/// Reads back what was written of a session.
fn read_back(session: &Session, writes: &SessionWrites) -> SavedSession {
    let turns = writes
        .turns
        .iter()
        .zip(&session.turns)
        .map(|(row, turn)| {
            let calls: Result<Vec<ToolCall>, String> = Ok(turn.tool_calls.clone());
            load_turn(stored_turn(row), calls).unwrap()
        })
        .collect();
    let files = writes.file.iter().cloned().collect();
    load_session(stored_session(&writes.session), turns, files)
}

fn save_and_load(session: &Session) -> Session {
    read_back(session, &writes_of(session, &None, &None)).session
}

#[test]
fn save_and_load_session_roundtrip() {
    let mut session = Session::new("s1");
    session.add_turn(Turn::new("user", "hello"));
    let loaded = save_and_load(&session);
    assert_eq!(loaded.len(), 1);
    assert_eq!(loaded.turns[0].content, "hello");
    assert_eq!(loaded, session);
}

#[test]
fn saved_sessions_are_loaded_as_they_were() {
    let mut session = Session::seen_at("s2", at(-62_167_219_200, 0));
    session.last_compacted_at = Some(at(253_402_300_799, 999_999_999));
    let mut turn = Turn::stamped("t1".to_string(), at(1_704_067_259, 1_500_000_000), "tool", "x");
    turn.tool_calls.push(ToolCall {
        name: "Read".to_string(),
        arguments: "{}".to_string(),
        output: "y".to_string(),
    });
    turn.input_tokens = usize::MAX;
    turn.output_tokens = 3;
    session.add_turn(turn);
    session.add_turn(Turn::stamped("t2".to_string(), at(5, 7_000), "user", ""));
    assert_eq!(save_and_load(&session), session);
}

#[test]
fn written_rows_hold_the_session() {
    let mut session = Session::seen_at("s1", at(1_704_067_200, 0));
    session.last_compacted_at = Some(at(1_704_067_260, 250_000_000));
    session.add_turn(Turn::stamped("t1".to_string(), at(0, 0), "user", "hi"));
    let writes = session_writes(&session, &None, &None, vec!["[1]".to_string()]);
    assert_eq!(writes.session.id, "s1");
    assert_eq!(writes.session.created_at, "2024-01-01T00:00:00+00:00");
    assert_eq!(
        writes.session.last_compacted_at.as_deref(),
        Some("2024-01-01T00:01:00.250+00:00")
    );
    assert_eq!(writes.session.turn_count, 1);
    assert_eq!(writes.turns.len(), 1);
    let row = &writes.turns[0];
    assert_eq!(row.session_id, "s1");
    assert_eq!(row.tool_calls, "[1]");
    assert_eq!(row.created_at, "1970-01-01T00:00:00+00:00");
    assert_eq!(row.archived, 0);
    let archived = turn_row("s1", &session.turns[0], "[]".to_string(), true);
    assert_eq!(archived.archived, 1);
}

#[test]
fn years_beyond_four_digits_are_not_read_back() {
    let now = at(99, 0);
    let far = at(253_402_300_800, 0);
    let mut session = Session::seen_at("s1", far);
    session.last_compacted_at = Some(far);
    let writes = session_writes(&session, &None, &None, Vec::new());
    assert_eq!(writes.session.created_at, "+10000-01-01T00:00:00+00:00");
    let loaded = session_from_row(stored_session(&writes.session), Vec::new(), Vec::new(), now);
    let loaded = loaded.session;
    assert_eq!(loaded.created_at, now);
    assert_eq!(loaded.last_compacted_at, None);
}

#[test]
fn unreadable_columns_fall_back() {
    let row = || StoredTurn {
        id: "t1".to_string(),
        role: "user".to_string(),
        content: "c".to_string(),
        created_at: "yesterday".to_string(),
        input_tokens: 4,
        output_tokens: -1,
    };
    let no_calls = || -> Result<Vec<ToolCall>, String> { Ok(Vec::new()) };
    let turn = turn_from_row(row(), no_calls(), at(7, 0)).unwrap();
    assert_eq!(turn.created_at, at(7, 0));
    assert!(turn.tool_calls.is_empty());
    assert_eq!(turn.input_tokens, 4);
    assert_eq!(turn.output_tokens, usize::MAX);

    let before = chrono::Utc::now().timestamp();
    let turn = load_turn(row(), no_calls()).unwrap();
    assert!(turn.created_at.secs >= before);

    let session = load_session(
        StoredSession {
            id: "s".to_string(),
            created_at: "".to_string(),
            last_compacted_at: Some("never".to_string()),
        },
        Vec::new(),
        Vec::new(),
    )
    .session;
    assert!(session.created_at.secs >= before);
    assert_eq!(session.last_compacted_at, None);
}

#[test]
fn invalid_tool_calls_are_an_error() {
    let row = || StoredTurn {
        id: "t1".to_string(),
        role: "user".to_string(),
        content: "c".to_string(),
        created_at: "2024-01-01T00:00:00Z".to_string(),
        input_tokens: 0,
        output_tokens: 0,
    };
    let invalid = || -> Result<Vec<ToolCall>, String> { Err("expected value".to_string()) };
    assert_eq!(
        turn_from_row(row(), invalid(), at(7, 0)),
        Err("expected value".to_string())
    );
    assert_eq!(load_turn(row(), invalid()), Err("expected value".to_string()));
}

#[test]
fn moments_are_read_in_any_zone() {
    let otherwise = at(1, 1);
    assert_eq!(moment_or("2024-01-01T00:00:00Z", otherwise), at(1_704_067_200, 0));
    assert_eq!(
        moment_or("2024-01-01T01:30:00.5+01:30", otherwise),
        at(1_704_067_200, 500_000_000)
    );
    assert_eq!(
        moment_or("2024-01-01 00:00:60Z", otherwise),
        at(1_704_067_259, 1_000_000_000)
    );
    for text in ["", "2024-01-01", "2024-02-30T00:00:00Z", "2024-01-01T00:00:00"] {
        assert_eq!(moment_or(text, otherwise), otherwise, "{text}");
    }
}

#[test]
fn moments_lie_in_the_calendar() {
    let min = chrono::DateTime::<chrono::Utc>::MIN_UTC;
    let max = chrono::DateTime::<chrono::Utc>::MAX_UTC;
    assert!(Timestamp::new(min.timestamp(), 0).is_some());
    assert!(Timestamp::new(max.timestamp(), 999_999_999).is_some());
    for (secs, nanos) in [
        (min.timestamp() - 1, 0),
        (min.timestamp(), 0),
        (max.timestamp(), 0),
        (max.timestamp() + 1, 0),
        (59, 1_999_999_999),
        (59, 2_000_000_000),
        (-1, 1_000_000_000),
        (58, 1_000_000_000),
        (-2, 1_000_000_000),
    ] {
        assert_eq!(
            Timestamp::new(secs, nanos).is_some(),
            chrono::DateTime::from_timestamp(secs, nanos).is_some(),
            "{secs} {nanos}"
        );
    }
}

#[test]
fn cutoffs_are_counted_back_in_hours() {
    let first = at(chrono::DateTime::<chrono::Utc>::MIN_UTC.timestamp(), 0);
    let noon = at(1_704_110_400, 5);
    assert_eq!(archive_cutoff(noon, 24), at(1_704_024_000, 5));
    assert_eq!(archive_cutoff(noon, 0), noon);
    for age_hours in [1 << 40, i64::MAX as u64, 1 << 63, u64::MAX] {
        assert_eq!(archive_cutoff(noon, age_hours), first);
    }
    let leap = at(59, 1_000_000_007);
    assert_eq!(archive_cutoff(leap, 0), leap);
    assert_eq!(archive_cutoff(leap, 1), at(60 - 3600, 7));
}

#[test]
fn marks_of_files_are_saved_beside_sessions() {
    let session = Session::seen_at("s1", at(5, 0));
    let written = mark("/d/s1.json", "text");
    let writes = writes_of(&session, &Some(written.clone()), &None);
    let row = writes.file.clone().unwrap();
    assert_eq!(row.session_id, "s1");
    assert_eq!(row.path, b"/d/s1.json".to_vec());
    assert_eq!(row.length, 4);
    assert_eq!(row.digest, written.fingerprint.digest);
    let saved = read_back(&session, &writes);
    assert_eq!(saved.session, session);
    assert_eq!(saved.files, vec![written]);
    let without = writes_of(&session, &None, &None);
    assert_eq!(without.file, None);
    assert!(read_back(&session, &without).files.is_empty());
}

#[test]
fn marks_of_several_files_are_loaded() {
    let session = Session::seen_at("s1", at(5, 0));
    let marks = vec![mark("/d/a/s1.json", "one"), mark("/d/b/s1.json", "two")];
    let rows = marks
        .iter()
        .map(|m| writes_of(&session, &Some(m.clone()), &None).file.unwrap())
        .collect();
    let row = writes_of(&session, &None, &None).session;
    let saved = session_from_row(stored_session(&row), Vec::new(), rows, at(9, 0));
    assert_eq!(saved.files, marks);
}

#[test]
fn second_save_keeps_the_first_creation_time() {
    let mut first = Session::seen_at("s1", at(5, 0));
    first.add_turn(Turn::stamped("t1".to_string(), at(1, 0), "user", "a"));
    let there = writes_of(&first, &None, &None).session.created_at;
    let mut second = Session::seen_at("s1", at(99, 0));
    second.last_compacted_at = Some(at(100, 0));
    second.add_turn(Turn::stamped("t2".to_string(), at(2, 0), "user", "b"));
    let writes = writes_of(&second, &Some(mark("/d/s1.json", "b")), &Some(there));
    let loaded = read_back(&second, &writes).session;
    assert_eq!(loaded.created_at, first.created_at);
    assert_eq!(loaded.turns, second.turns);
    assert_eq!(loaded.last_compacted_at, second.last_compacted_at);
}

#[test]
fn moments_are_checked() {
    let odd = Timestamp {
        secs: i64::MAX,
        nanos: 0,
    };
    assert!(!odd.is_valid());
    assert!(at(5, 0).is_valid());
    let mut session = Session::seen_at("s1", at(5, 0));
    session.add_turn(Turn::stamped("t1".to_string(), at(1, 0), "user", "a"));
    assert!(moments_are_valid(&session));
    session.turns[0].created_at = odd;
    assert!(!moments_are_valid(&session));
    session.turns.clear();
    session.last_compacted_at = Some(odd);
    assert!(!moments_are_valid(&session));
    session.last_compacted_at = None;
    session.created_at = odd;
    assert!(!moments_are_valid(&session));
}

#[test]
fn aggregate_metrics_after_save() {
    let row = result_row(&result(CompactionMetrics {
        duplicates_removed: 3,
        token_bytes_saved: 100,
        ..Default::default()
    }));
    let agg = metrics_from_sums(ResultSums {
        duplicates_removed: row.duplicates_removed,
        continuation_turns_collapsed: row.continuation_turns_collapsed,
        turns_archived: row.turns_archived,
        token_bytes_saved: row.token_bytes_saved,
        turns_remaining: row.turns_remaining,
    });
    assert_eq!(agg.duplicates_removed, 3);
    assert_eq!(agg.token_bytes_saved, 100);
}

#[test]
fn aggregate_metrics_sum_all_results() {
    let rows = [
        result_row(&result(metrics(1, 2, 3, 4, 5))),
        result_row(&result(metrics(10, 20, 30, 40, 50))),
    ];
    let aggregate = metrics_from_sums(ResultSums {
        duplicates_removed: rows.iter().map(|r| r.duplicates_removed).sum(),
        continuation_turns_collapsed: rows.iter().map(|r| r.continuation_turns_collapsed).sum(),
        turns_archived: rows.iter().map(|r| r.turns_archived).sum(),
        token_bytes_saved: rows.iter().map(|r| r.token_bytes_saved).sum(),
        turns_remaining: rows.iter().map(|r| r.turns_remaining).sum(),
    });
    assert_eq!(aggregate, metrics(11, 22, 33, 44, 55));
}

#[test]
fn result_rows_hold_the_result() {
    let row = result_row(&result(metrics(1, 2, 3, 4, 5)));
    assert_eq!(row.session_id, "s1");
    assert_eq!(
        (
            row.duplicates_removed,
            row.continuation_turns_collapsed,
            row.turns_archived,
            row.token_bytes_saved,
            row.turns_remaining
        ),
        (1, 2, 3, 4, 5)
    );
    assert_eq!(row.compacted_at, "2024-01-01T00:00:00+00:00");
}

#[test]
fn results_are_summed() {
    let results = vec![
        result(metrics(1, 2, 3, 4, 5)),
        result(metrics(10, 20, 30, 40, 50)),
    ];
    assert_eq!(sum_results(&results), metrics(11, 22, 33, 44, 0));
    assert_eq!(sum_results(&[]), CompactionMetrics::default());
    let left = sum_results(&results[..1]);
    let right = sum_results(&results[1..]);
    assert_eq!(
        sum_results(&results).token_bytes_saved,
        left.token_bytes_saved + right.token_bytes_saved
    );
    let huge = vec![
        result(metrics(0, 0, 0, usize::MAX, 0)),
        result(metrics(0, 0, 0, 1, 0)),
    ];
    assert_eq!(checked_sum_results(&huge), None);
    assert!(checked_sum_results(&huge[..1]).is_some());
}

#[test]
fn health_returns_ok() {
    let body = health_handler();
    assert_eq!(body.status, "ok");
}

#[test]
fn status_reports_daemon_state() {
    let config = Config::default_in(&Some(b"/h".to_vec()), &None);
    let body = status_response(&config, 7, metrics(1, 0, 0, 0, 0));
    assert_eq!(body.daemon, "compactd");
    assert_eq!(body.sessions_tracked, 7);
    assert_eq!(body.port, 3103);
    assert_eq!(body.session_dir, "/h/.config/kimi/sessions");
    assert_eq!(body.aggregate, metrics(1, 0, 0, 0, 0));
}

#[test]
fn metrics_returns_prometheus_text() {
    let body = metrics_text(&metrics(1, 20, 0, 4096, 5));
    assert!(body.contains("compactd_duplicates_removed"));
    assert!(body.contains("compactd_token_bytes_saved"));
    assert_eq!(
        body,
        "# TYPE compactd_duplicates_removed counter\n\
         compactd_duplicates_removed 1\n\
         # TYPE compactd_continuation_turns_collapsed counter\n\
         compactd_continuation_turns_collapsed 20\n\
         # TYPE compactd_turns_archived counter\n\
         compactd_turns_archived 0\n\
         # TYPE compactd_token_bytes_saved counter\n\
         compactd_token_bytes_saved 4096\n\
         # TYPE compactd_turns_remaining gauge\n\
         compactd_turns_remaining 5\n"
    );
}

#[test]
fn reports_are_printed() {
    let results = vec![result(metrics(1, 2, 3, 400, 5))];
    assert_eq!(
        report_text(&results),
        "compacted 1 session(s)\n  duplicates removed:          1\n  \
         continuation turns collapsed: 2\n  turns archived:              3\n  \
         token bytes saved:           400\n"
    );
}

#[test]
fn errors_of_the_api() {
    let bad = ApiError::BadRequest("no".to_string());
    let lost = ApiError::Storage("gone".to_string());
    assert_eq!((bad.status_code(), bad.message()), (400, "bad request: no".to_string()));
    assert_eq!(
        (lost.status_code(), lost.message()),
        (500, "storage error: gone".to_string())
    );
}

#[test]
fn addresses_have_host_and_port() {
    let mut config = Config::default_in(&None, &None);
    assert_eq!(listen_address(&config), "127.0.0.1:3103");
    config.host = "::".to_string();
    config.port = 0;
    assert_eq!(listen_address(&config), ":::0");
}
