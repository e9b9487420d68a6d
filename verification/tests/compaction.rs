use compactd::archive::archive_before;
use compactd::compactor::{
    checked_compact_session_at, compact_session_at, ArchiveOldTurns, CollapseContinuations,
    CompactionStrategy, DeduplicateToolOutputs,
};
use compactd::time::Timestamp;
use compactd::{compact_session, CompactionError, CompactionMetrics, Session, ToolCall, Turn};

fn turn_with_content(role: &str, content: &str) -> Turn {
    Turn::new(role, content)
}

fn moment(secs: i64) -> Timestamp {
    Timestamp::new(secs, 0).unwrap()
}

fn now() -> chrono::DateTime<chrono::Utc> {
    chrono::Utc::now()
}

fn stamp(t: chrono::DateTime<chrono::Utc>) -> Timestamp {
    Timestamp::new(t.timestamp(), t.timestamp_subsec_nanos()).unwrap()
}

fn call(name: &str, arguments: &str, output: &str) -> ToolCall {
    ToolCall {
        name: name.to_string(),
        arguments: arguments.to_string(),
        output: output.to_string(),
    }
}

fn turn_at(secs: i64, content: &str) -> Turn {
    Turn::stamped(format!("t{secs}"), moment(secs), "user", content)
}

fn turn_with_calls(content: &str, calls: Vec<ToolCall>) -> Turn {
    let mut turn = Turn::new("assistant", content);
    turn.tool_calls = calls;
    turn
}

fn contents(session: &Session) -> Vec<&str> {
    session.turns.iter().map(|t| t.content.as_str()).collect()
}

fn outputs(session: &Session) -> Vec<&str> {
    session
        .turns
        .iter()
        .flat_map(|t| t.tool_calls.iter())
        .map(|c| c.output.as_str())
        .collect()
}

#[test]
fn deduplicate_removes_identical_tool_outputs() {
    let mut session = Session::new("s1");
    let mut t1 = Turn::new("assistant", "first");
    t1.tool_calls.push(ToolCall {
        name: "Read".to_string(),
        arguments: "{\"path\": \"a.txt\"}".to_string(),
        output: "hello".to_string(),
    });
    session.add_turn(t1);

    let mut t2 = Turn::new("assistant", "second");
    t2.tool_calls.push(ToolCall {
        name: "Read".to_string(),
        arguments: "{\"path\": \"a.txt\"}".to_string(),
        output: "hello".to_string(),
    });
    session.add_turn(t2);

    let result = DeduplicateToolOutputs.compact(&mut session).unwrap();
    assert_eq!(result.duplicates_removed, 1);
    assert_eq!(
        session.turns[1].tool_calls[0].output,
        "<duplicate output elided>"
    );
}

#[test]
fn collapse_continuations() {
    let mut session = Session::new("s1");
    session.add_turn(turn_with_content("user", "continue"));
    session.add_turn(turn_with_content("user", "Continue"));
    session.add_turn(turn_with_content("user", "go on"));
    session.add_turn(turn_with_content("assistant", "ok"));

    let result = CollapseContinuations.compact(&mut session).unwrap();
    assert_eq!(result.continuation_turns_collapsed, 2);
    assert_eq!(session.len(), 2);
}

#[test]
fn archive_old_turns_keeps_recent() {
    let mut session = Session::new("s1");
    for i in (0..5).rev() {
        let mut t = Turn::new("user", &format!("turn {i}"));
        t.created_at = stamp(now() - chrono::Duration::hours(i as i64 * 10));
        session.add_turn(t);
    }

    let result = ArchiveOldTurns::new(2, 15).compact(&mut session).unwrap();
    assert_eq!(result.turns_archived, 3);
    assert_eq!(session.len(), 2);
    assert!(session
        .turns
        .iter()
        .all(|t| t.content == "turn 0" || t.content == "turn 1"));
}

#[test]
fn full_compaction_composes_strategies() {
    let mut session = Session::new("s1");
    for _ in 0..3 {
        session.add_turn(turn_with_content("user", "continue"));
    }
    let mut t = Turn::new("assistant", "ok");
    t.tool_calls.push(ToolCall {
        name: "Read".to_string(),
        arguments: "{}".to_string(),
        output: "dup".to_string(),
    });
    session.add_turn(t);
    let mut t2 = Turn::new("assistant", "ok");
    t2.tool_calls.push(ToolCall {
        name: "Read".to_string(),
        arguments: "{}".to_string(),
        output: "dup".to_string(),
    });
    session.add_turn(t2);

    let result = compact_session(&mut session, 10, 1).unwrap();
    assert!(
        result.metrics.duplicates_removed > 0 || result.metrics.continuation_turns_collapsed > 0
    );
    assert!(session.last_compacted_at.is_some());
}

#[test]
fn full_compaction_reports_exact_numbers() {
    let mut session = Session::new("s1");
    for _ in 0..3 {
        session.add_turn(turn_with_content("user", "continue"));
    }
    session.add_turn(turn_with_calls("ok", vec![call("Read", "{}", "dup")]));
    session.add_turn(turn_with_calls("ok", vec![call("Read", "{}", "dup")]));
    let result = compact_session(&mut session, 10, 1).unwrap();
    assert_eq!(result.session_id, "s1");
    assert_eq!(
        result.metrics,
        CompactionMetrics {
            duplicates_removed: 1,
            continuation_turns_collapsed: 2,
            turns_archived: 0,
            token_bytes_saved: 5 + 2 * 8,
            turns_remaining: 3,
        }
    );
}

#[test]
fn digest_is_the_hash_of_name_arguments_and_output() {
    assert_eq!(
        call("", "", "").digest(),
        "e3b0c44298fc1c149afbf4c8996fb92427ae41e4649b934ca495991b7852b855"
    );
    assert_eq!(
        call("a", "b", "c").digest(),
        "ba7816bf8f01cfea414140de5dae2223b00361a396177a9cb410ff61f20015ad"
    );
    assert_eq!(call("ab", "", "c").digest(), call("a", "b", "c").digest());
}

#[test]
fn third_duplicate_disappears() {
    let mut session = Session::new("s1");
    let same = || call("Read", "{}", "out");
    session.add_turn(turn_with_calls("a", vec![same(), call("Shell", "ls", "x"), same()]));
    session.add_turn(turn_with_calls("b", vec![same(), same()]));
    let metrics = DeduplicateToolOutputs.compact(&mut session).unwrap();
    assert_eq!(metrics.duplicates_removed, 3);
    assert_eq!(metrics.token_bytes_saved, 15);
    assert_eq!(metrics.turns_remaining, 2);
    assert_eq!(outputs(&session), vec!["out", "x", "<duplicate output elided>"]);
    assert!(session.turns[1].tool_calls.is_empty());
}

#[test]
fn calls_that_differ_in_one_part_are_kept() {
    let mut session = Session::new("s1");
    session.add_turn(turn_with_calls(
        "a",
        vec![
            call("Read", "{}", "one"),
            call("Read", "{}", "two"),
            call("Read", "[]", "one"),
            call("Grep", "{}", "one"),
        ],
    ));
    let before = session.clone();
    let metrics = DeduplicateToolOutputs.compact(&mut session).unwrap();
    assert_eq!(metrics.duplicates_removed, 0);
    assert_eq!(session, before);
}

#[test]
fn turn_borders_make_no_difference_to_duplicates() {
    let calls = || vec![call("a", "1", "x"), call("b", "2", "y"), call("a", "1", "x")];
    let mut one = Session::new("one");
    one.add_turn(turn_with_calls("t", calls()));
    let mut many = Session::new("many");
    for c in calls() {
        many.add_turn(turn_with_calls("t", vec![c]));
    }
    DeduplicateToolOutputs.compact(&mut one).unwrap();
    DeduplicateToolOutputs.compact(&mut many).unwrap();
    assert_eq!(outputs(&one), outputs(&many));
}

#[test]
fn every_marker_is_recognised() {
    for marker in [
        "continue",
        "go on",
        "proceed",
        "keep going",
        "next",
        "please continue",
        "carry on",
        "  CONTINUE \n",
        "\u{3000}Go On\u{a0}",
    ] {
        assert!(Turn::new("user", marker).is_continuation_marker(), "{marker}");
    }
    for other in ["", "continue!", "go  on", "nexte", "con tinue", "ne\u{212a}t"] {
        assert!(!Turn::new("user", other).is_continuation_marker(), "{other}");
    }
}

#[test]
fn markers_of_different_roles_stay() {
    let mut session = Session::new("s1");
    session.add_turn(Turn::new("user", "next"));
    session.add_turn(Turn::new("assistant", "next"));
    session.add_turn(Turn::new("assistant", "proceed"));
    session.add_turn(Turn::new("user", "next"));
    let metrics = CollapseContinuations.compact(&mut session).unwrap();
    assert_eq!(metrics.continuation_turns_collapsed, 1);
    assert_eq!(metrics.token_bytes_saved, 8);
    assert_eq!(contents(&session), vec!["next", "next", "next"]);
}

#[test]
fn collapsing_twice_is_collapsing_once() {
    let mut session = Session::new("s1");
    for content in ["next", "next", "work", "go on", "next", "work"] {
        session.add_turn(Turn::new("user", content));
    }
    CollapseContinuations.compact(&mut session).unwrap();
    assert_eq!(contents(&session), vec!["next", "work", "go on", "work"]);
    let before = session.clone();
    let metrics = CollapseContinuations.compact(&mut session).unwrap();
    assert_eq!(metrics.continuation_turns_collapsed, 0);
    assert_eq!(session, before);
}

#[test]
fn archiving_takes_old_turns_that_are_not_among_the_latest() {
    let mut session = Session::new("s1");
    for (secs, content) in [(10, "a"), (99, "b"), (100, "c"), (5, "d"), (6, "e")] {
        session.add_turn(turn_at(secs, content));
    }
    let metrics = archive_before(&mut session, 2, moment(100));
    assert_eq!(metrics.turns_archived, 2);
    assert_eq!(metrics.token_bytes_saved, 2);
    assert_eq!(metrics.turns_remaining, 3);
    assert_eq!(contents(&session), vec!["c", "d", "e"]);

    let before = session.clone();
    let again = archive_before(&mut session, 2, moment(100));
    assert_eq!(again.turns_archived, 0);
    assert_eq!(session, before);
}

#[test]
fn archiving_compares_nanoseconds_too() {
    let mut session = Session::new("s1");
    let mut early = turn_at(100, "early");
    early.created_at = Timestamp::new(100, 4).unwrap();
    let mut late = turn_at(100, "late");
    late.created_at = Timestamp::new(100, 5).unwrap();
    session.add_turn(early);
    session.add_turn(late);
    archive_before(&mut session, 0, Timestamp::new(100, 5).unwrap());
    assert_eq!(contents(&session), vec!["late"]);
}

#[test]
fn archiving_is_decided_on_the_reduced_session() {
    let mut session = Session::new("s1");
    for i in 0..4 {
        session.add_turn(turn_at(i, "continue"));
    }
    session.add_turn(turn_at(10, "work"));
    let result = compact_session_at(&mut session, 2, moment(1000), moment(2000), moment(3000));
    assert_eq!(result.metrics.turns_archived, 0);
    assert_eq!(result.metrics.continuation_turns_collapsed, 3);
    assert_eq!(contents(&session), vec!["continue", "work"]);
    assert_eq!(session.last_compacted_at, Some(moment(2000)));
    assert_eq!(result.compacted_at, moment(3000));
}

#[test]
fn every_turn_is_accounted_for() {
    let mut session = Session::new("s1");
    for i in 0..12 {
        let content = if i % 3 == 0 { "work" } else { "next" };
        session.add_turn(turn_at(i, content));
    }
    let result = compact_session_at(&mut session, 3, moment(6), moment(50), moment(50));
    let m = result.metrics;
    assert_eq!(
        m.turns_remaining + m.continuation_turns_collapsed + m.turns_archived,
        12
    );
    assert_eq!(m.turns_remaining, session.len());
    let secs: Vec<i64> = session.turns.iter().map(|t| t.created_at.secs).collect();
    assert!(secs.windows(2).all(|w| w[0] < w[1]));
    assert_eq!(session.turns.last().unwrap().created_at.secs, 10);
}

#[test]
fn compaction_of_one_session_is_deterministic() {
    let build = || {
        let mut session = Session::seen_at("s", moment(1));
        session.add_turn(turn_at(1, "next"));
        session.add_turn(turn_at(2, "next"));
        let mut t = turn_at(3, "work");
        t.tool_calls = vec![call("a", "b", "c"), call("a", "b", "c")];
        session.add_turn(t);
        session
    };
    let mut first = build();
    let mut second = build();
    let a = compact_session_at(&mut first, 1, moment(2), moment(9), moment(9));
    let b = compact_session_at(&mut second, 1, moment(2), moment(9), moment(9));
    assert_eq!(a, b);
    assert_eq!(first, second);
}

#[test]
fn empty_session_compacts_to_itself() {
    let mut session = Session::new("empty");
    assert!(session.is_empty());
    let result = compact_session(&mut session, 0, 0).unwrap();
    assert_eq!(result.metrics, CompactionMetrics::default());
    assert!(session.is_empty());
}

#[test]
fn calls_with_equal_digests_are_told_apart() {
    let mut session = Session::new("s");
    session.add_turn(turn_with_calls(
        "x",
        vec![call("Read", "ab", "c"), call("Read", "a", "bc")],
    ));
    assert_eq!(
        session.turns[0].tool_calls[0].digest(),
        session.turns[0].tool_calls[1].digest()
    );
    let before = session.clone();
    let metrics = DeduplicateToolOutputs.compact(&mut session).unwrap();
    assert_eq!(metrics.duplicates_removed, 0);
    assert_eq!(metrics.token_bytes_saved, 0);
    assert_eq!(session, before);

    session.add_turn(turn_with_calls(
        "y",
        vec![call("Rea", "da", "bc"), call("Read", "a", "bc"), call("Read", "ab", "c")],
    ));
    let metrics = DeduplicateToolOutputs.compact(&mut session).unwrap();
    assert_eq!(metrics.duplicates_removed, 2);
    assert_eq!(
        outputs(&session),
        vec!["c", "bc", "bc", "<duplicate output elided>", "<duplicate output elided>"]
    );
}

#[test]
fn ages_beyond_the_calendar_archive_nothing() {
    for age_hours in [u64::MAX, 1 << 63, i64::MAX as u64, 1 << 40] {
        let mut session = Session::new("s");
        session.add_turn(turn_at(0, "old"));
        session.add_turn(Turn::new("user", "hi"));
        let metrics = ArchiveOldTurns::new(0, age_hours).compact(&mut session).unwrap();
        assert_eq!(metrics.turns_archived, 0);
        assert_eq!(metrics.turns_remaining, 2);
        assert_eq!(session.len(), 2);
        let result = compact_session(&mut session, 0, age_hours).unwrap();
        assert_eq!(result.metrics.turns_archived, 0);
    }
}

#[test]
fn archived_turns_are_older_than_the_age() {
    let mut session = Session::new("s");
    session.add_turn(turn_at(0, "old"));
    session.add_turn(Turn::new("user", "new"));
    let metrics = ArchiveOldTurns::new(0, 1).compact(&mut session).unwrap();
    assert_eq!(metrics.turns_archived, 1);
    assert_eq!(contents(&session), vec!["new"]);
}

#[test]
fn numbers_that_fit_are_reported() {
    let mut session = Session::new("s");
    session.add_turn(turn_at(1, "old"));
    let result =
        checked_compact_session_at(&mut session, 0, moment(2), moment(3), moment(4)).unwrap();
    assert_eq!(result.metrics.token_bytes_saved, 3);
    assert_eq!(result.compacted_at, moment(4));
    assert_eq!(session.last_compacted_at, Some(moment(3)));
}

#[test]
fn weights_and_tokens_are_summed() {
    let mut session = Session::new("s1");
    let mut a = turn_with_calls("h\u{e9}", vec![call("Read", "12", "345"), call("x", "", "6")]);
    a.input_tokens = 7;
    a.output_tokens = 1;
    let mut b = Turn::new("user", "");
    b.input_tokens = 5;
    b.output_tokens = 2;
    assert_eq!(a.token_weight(), 3 + 5 + 1);
    assert_eq!(b.token_weight(), 0);
    session.add_turn(a);
    session.add_turn(b);
    assert_eq!(session.total_input_tokens(), 12);
    assert_eq!(session.total_output_tokens(), 3);
    assert_eq!(session.len(), 2);
}

#[test]
fn new_turns_and_sessions_are_stamped() {
    let before = stamp(now());
    let turn = Turn::new("user", "hi");
    let session = Session::new("s1");
    let after = stamp(now());
    assert!(!turn.created_at.before(before) && !after.before(turn.created_at));
    assert!(!session.created_at.before(before) && !after.before(session.created_at));
    assert_eq!(turn.role, "user");
    assert!(turn.tool_calls.is_empty());
    assert_eq!(session.id, "s1");
    assert!(session.last_compacted_at.is_none());
    let id: Vec<char> = turn.id.chars().collect();
    assert_eq!(id.len(), 36);
    assert_eq!((id[8], id[13], id[14], id[18], id[23]), ('-', '-', '4', '-', '-'));
    assert_ne!(turn.id, Turn::new("user", "hi").id);
}

#[test]
fn compaction_errors_in_words() {
    assert_eq!(
        CompactionError::SessionNotFound("s1".to_string()).message(),
        "session not found: s1"
    );
    assert_eq!(
        CompactionError::Storage("disk full".to_string()).message(),
        "storage error: disk full"
    );
}
