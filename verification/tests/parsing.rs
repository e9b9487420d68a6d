use compactd::compactor::{parse_turns, session_documents, SessionText};
use compactd::text::{chars_of, push_decimal, string_of, trim_chars, whitespace};
use compactd::time::Timestamp;
use compactd::{parse_session_text, Session, Turn};

fn read_turn(value: &serde_json::Value) -> Result<Turn, String> {
    let text = |key: &str| {
        value
            .get(key)
            .and_then(|v| v.as_str())
            .map(|v| v.to_string())
            .ok_or(format!("missing field {key}"))
    };
    let created_at = chrono::DateTime::parse_from_rfc3339(&text("created_at")?)
        .map_err(|e| e.to_string())?
        .with_timezone(&chrono::Utc);
    Ok(Turn {
        id: text("id")?,
        role: text("role")?,
        content: text("content")?,
        tool_calls: Vec::new(),
        created_at: Timestamp::new(created_at.timestamp(), created_at.timestamp_subsec_nanos())
            .ok_or("no such moment".to_string())?,
        input_tokens: 0,
        output_tokens: 0,
    })
}

fn parse_line(text: &str) -> Result<Turn, String> {
    let value: serde_json::Value = serde_json::from_str(text).map_err(|e| e.to_string())?;
    read_turn(&value)
}

fn parse_array(text: &str) -> Result<Vec<Turn>, String> {
    let values: Vec<serde_json::Value> =
        serde_json::from_str(text).map_err(|e| e.to_string())?;
    values.iter().map(read_turn).collect()
}

fn parse(id: &str, text: &str) -> Result<Session, String> {
    parse_session_text(id, text, parse_array, parse_line)
}

fn documents(text: &str) -> Vec<String> {
    match session_documents(text) {
        SessionText::Lines(lines) => lines,
        SessionText::Array(array) => panic!("an array: {array}"),
    }
}

#[test]
fn parse_session_json_array() {
    let text = r#"[{"id":"t1","role":"user","content":"hi","created_at":"2024-01-01T00:00:00Z"}]"#;
    let session = parse("s1", text).unwrap();
    assert_eq!(session.len(), 1);
    assert_eq!(session.turns[0].content, "hi");
}

#[test]
fn parse_session_jsonl() {
    let text = "{\"id\":\"t1\",\"role\":\"user\",\"content\":\"hi\",\"created_at\":\"2024-01-01T00:00:00Z\"}\n";
    let session = parse("s1", text).unwrap();
    assert_eq!(session.len(), 1);
}

#[test]
fn parsed_session_is_new() {
    let session = parse("s7", "").unwrap();
    assert_eq!(session.id, "s7");
    assert!(session.is_empty());
    assert!(session.last_compacted_at.is_none());
    assert!(session.created_at.secs > 1_704_067_200);
}

#[test]
fn array_texts_begin_with_a_bracket() {
    assert_eq!(
        session_documents(" \n [1, 2]\n"),
        SessionText::Array("[1, 2]".to_string())
    );
    assert_eq!(
        session_documents("[\n]x"),
        SessionText::Array("[\n]x".to_string())
    );
}

#[test]
fn blank_lines_hold_no_documents() {
    assert_eq!(documents("a\n\n  b \r\n \t \nc\n\n"), vec!["a", "b", "c"]);
    assert!(documents("").is_empty());
    assert!(documents(" \n \n").is_empty());
    assert_eq!(documents("{}\n[1]"), vec!["{}", "[1]"]);
}

#[test]
fn texts_of_lines_can_be_joined() {
    let (a, b) = ("x\n y", "\nz\n");
    let mut expected = documents(a);
    expected.extend(documents(b));
    assert_eq!(documents(&format!("{a}\n{b}")), expected);
    assert_eq!(expected, vec!["x", "y", "z"]);
}

#[test]
fn first_bad_line_gives_the_error() {
    let good = "{\"id\":\"t1\",\"role\":\"user\",\"content\":\"hi\",\"created_at\":\"2024-01-01T00:00:00Z\"}";
    let bad = "{\"id\":\"t2\",\"role\":\"user\"}";
    let error = parse("s1", &format!("{good}\n{bad}\nnonsense")).unwrap_err();
    assert_eq!(error, "missing field created_at");
    assert!(parse("s1", "nonsense").is_err());
    assert!(parse("s1", "[nonsense]").is_err());
}

#[test]
fn lines_are_read_in_order() {
    let read = |s: &str| -> Result<Turn, String> { Ok(Turn::new("user", s)) };
    let turns = parse_turns("b\na\n\nc", |_: &str| Err("array".to_string()), read).unwrap();
    let contents: Vec<&str> = turns.iter().map(|t| t.content.as_str()).collect();
    assert_eq!(contents, vec!["b", "a", "c"]);
    let error = parse_turns(" [b]", |_: &str| Err("array".to_string()), read).unwrap_err();
    assert_eq!(error, "array");
}

#[test]
fn white_space_is_that_of_unicode() {
    for code in 0..=0x10_FFFFu32 {
        if let Some(c) = char::from_u32(code) {
            assert_eq!(whitespace(c), c.is_whitespace(), "{code:x}");
        }
    }
}

#[test]
fn trimming_takes_white_space_from_both_ends() {
    for text in ["", " ", "a", "  a b\t", "\u{2003}x\u{85}", "\u{200b} y"] {
        let trimmed = string_of(&trim_chars(&chars_of(text)));
        assert_eq!(trimmed, text.trim());
    }
}

#[test]
fn decimals_have_no_leading_zeros() {
    for n in [0, 9, 10, 305, u64::MAX] {
        let mut text = "n=".to_string();
        push_decimal(&mut text, n);
        assert_eq!(text, format!("n={n}"));
    }
}

#[test]
fn documents_are_taken_apart_as_they_were() {
    let docs = ["{\"a\":1}", "x y", "[1]"];
    let text = format!("\n \t{}  \n\n{}\r\n   \n\u{a0}{}\u{3000}\n ", docs[0], docs[1], docs[2]);
    assert_eq!(documents(&text), docs.to_vec());
}

fn write_turn(turn: &Turn) -> String {
    let mut map = serde_json::Map::new();
    let created_at = chrono::DateTime::from_timestamp(turn.created_at.secs, turn.created_at.nanos)
        .unwrap()
        .to_rfc3339();
    for (key, value) in [
        ("id", &turn.id),
        ("role", &turn.role),
        ("content", &turn.content),
        ("created_at", &created_at),
    ] {
        map.insert(key.to_string(), serde_json::Value::String(value.clone()));
    }
    serde_json::Value::Object(map).to_string()
}

#[test]
fn parsing_undoes_serializing() {
    let moment = |secs: i64| Timestamp::new(secs, 5_000).unwrap();
    let turns = vec![
        Turn::stamped("t1".to_string(), moment(1), "user", "line\nbreak [ \u{2028} \""),
        Turn::stamped("t2".to_string(), moment(2), "assistant", ""),
    ];
    let lines: Vec<String> = turns.iter().map(write_turn).collect();
    let array = format!(" [{}]\n", lines.join(","));
    assert_eq!(parse("s", &array).unwrap().turns, turns);
    assert_eq!(parse("s", &lines.join("\n")).unwrap().turns, turns);
    let padded = format!("\n  {} \r\n\t\n{}\n\n", lines[0], lines[1]);
    assert_eq!(parse("s", &padded).unwrap().turns, turns);
    assert!(parse("s", "[]").unwrap().turns.is_empty());
}
