use antigravity::json::{JsonNumber, JsonValue};
use antigravity::session::{
    check_history_path, check_transcript_extractable, history_path_verdict, parse_timestamp_to_ms, transcript_result, delete_target, extract_user_request,
    history_messages, parse_antigravity_source_path, retain_other_sessions, scan_sessions,
    sort_messages_by_ts, source_path_for, transcript_messages, truncate_summary,
    user_request_tags_in_order, HistoryLine, HistoryRecord, SessionMessage, TranscriptLine,
};

fn line(display: Option<&str>, ts: Option<i64>, ws: Option<&str>, conv: Option<&str>) -> HistoryLine {
    HistoryLine {
        display: display.map(|s| s.to_string()),
        timestamp: ts,
        workspace: ws.map(|s| s.to_string()),
        conversation_id: conv.map(|s| s.to_string()),
    }
}

fn msg(role: &str, content: &str, ts: Option<i64>) -> SessionMessage {
    SessionMessage { role: role.to_string(), content: content.to_string(), ts }
}

fn tline(source: Option<&str>, ty: Option<&str>, content: Option<&str>, ts: Option<i64>) -> TranscriptLine {
    TranscriptLine {
        source: source.map(|s| s.to_string()),
        line_type: ty.map(|s| s.to_string()),
        content: content.map(|s| s.to_string()),
        created_at: ts.map(|t| if t >= 0 { JsonValue::Number(JsonNumber::PosInt(t as u64)) } else { JsonValue::Number(JsonNumber::NegInt(t)) }),
    }
}

#[test]
fn test_extract_user_request() {
    assert_eq!(
        extract_user_request("<USER_REQUEST>\nhello world\n</USER_REQUEST>\nsome metadata"),
        "hello world"
    );
    assert_eq!(extract_user_request("hello plain text"), "hello plain text");
}

#[test]
fn extract_user_request_with_one_tag_trims_everything() {
    assert_eq!(extract_user_request("  <USER_REQUEST> open only "), "<USER_REQUEST> open only");
    assert_eq!(extract_user_request("<USER_REQUEST></USER_REQUEST>"), "");
}

#[test]
fn user_request_tags_out_of_order() {
    assert!(!user_request_tags_in_order("</USER_REQUEST><USER_REQUEST>"));
    assert!(user_request_tags_in_order("<USER_REQUEST>x</USER_REQUEST>"));
    assert!(user_request_tags_in_order("plain"));
}

#[test]
fn test_load_messages_fallback_to_history() {
    let entries = vec![line(Some("hello"), Some(1000), Some("/workspace"), Some("conv1"))];
    let msgs = history_messages(&entries, "conv1");
    assert_eq!(msgs.len(), 1);
    assert_eq!(msgs[0].role, "user");
    assert_eq!(msgs[0].content, "hello");
    assert_eq!(msgs[0].ts, Some(1000));
}

#[test]
fn history_messages_filter_and_sort() {
    let entries = vec![
        line(Some("second"), Some(20), None, Some("c")),
        line(Some("other"), Some(1), None, Some("d")),
        line(Some("  "), Some(5), None, Some("c")),
        line(Some(" first "), Some(10), None, Some("c")),
        line(None, Some(2), None, Some("c")),
        line(Some("undated"), None, None, Some("c")),
    ];
    let msgs = history_messages(&entries, "c");
    let contents: Vec<&str> = msgs.iter().map(|m| m.content.as_str()).collect();
    assert_eq!(contents, vec!["undated", " first ", "second"]);
}

#[test]
fn parse_source_path_splits_once() {
    let (h, c) = parse_antigravity_source_path("/h/history.jsonl#conversationId=abc").unwrap();
    assert_eq!(h, "/h/history.jsonl");
    assert_eq!(c, "abc");
    let (h, c) = parse_antigravity_source_path("#conversationId=").unwrap();
    assert_eq!(h, "");
    assert_eq!(c, "");
}

#[test]
fn parse_source_path_errors() {
    assert_eq!(
        parse_antigravity_source_path("/h/history.jsonl").unwrap_err(),
        "Invalid Antigravity source path: /h/history.jsonl"
    );
    assert!(parse_antigravity_source_path("a#conversationId=b#conversationId=c").is_err());
}

#[test]
fn source_path_round_trip() {
    let p = source_path_for("/root/.gemini/antigravity-cli/history.jsonl", "9f2c-11");
    assert_eq!(p, "/root/.gemini/antigravity-cli/history.jsonl#conversationId=9f2c-11");
    let (h, c) = parse_antigravity_source_path(&p).unwrap();
    assert_eq!(h, "/root/.gemini/antigravity-cli/history.jsonl");
    assert_eq!(c, "9f2c-11");
}

#[test]
fn truncate_summary_cuts_long_text() {
    assert_eq!(truncate_summary("  short  ", 10), "short");
    assert_eq!(truncate_summary("abcdef", 3), "abc...");
    assert_eq!(truncate_summary("héllo wörld", 5), "héllo...");
    assert_eq!(truncate_summary("abc", 3), "abc");
}

#[test]
fn scan_sessions_groups_by_conversation() {
    let entries = vec![
        line(Some("late"), Some(300), Some("/w2"), Some("a")),
        line(Some("early"), Some(100), Some("/w1"), Some("a")),
        line(Some("middle"), Some(200), None, Some("a")),
        line(Some("only"), None, None, Some("b")),
        line(Some("blank id"), Some(1), None, Some("   ")),
        line(Some("no id"), Some(1), None, None),
    ];
    let metas = scan_sessions("/h/history.jsonl", &entries);
    assert_eq!(metas.len(), 2);
    let a = metas.iter().find(|m| m.session_id == "a").unwrap();
    assert_eq!(a.provider_id, "antigravity");
    assert_eq!(a.title.as_deref(), Some("early"));
    assert_eq!(a.summary.as_deref(), Some("early"));
    assert_eq!(a.project_dir.as_deref(), Some("/w1"));
    assert_eq!(a.created_at, Some(100));
    assert_eq!(a.last_active_at, Some(300));
    assert_eq!(a.source_path.as_deref(), Some("/h/history.jsonl#conversationId=a"));
    assert_eq!(a.resume_command.as_deref(), Some("agy --conversation a"));
    let b = metas.iter().find(|m| m.session_id == "b").unwrap();
    assert_eq!(b.created_at, None);
    assert_eq!(b.last_active_at, None);
}

#[test]
fn scan_sessions_ties_keep_file_order() {
    let entries = vec![
        line(Some("one"), Some(5), None, Some("x")),
        line(Some("two"), Some(5), Some("/w"), Some("x")),
        line(Some("three"), None, None, Some("x")),
    ];
    let metas = scan_sessions("h", &entries);
    assert_eq!(metas.len(), 1);
    assert_eq!(metas[0].title.as_deref(), Some("three"));
    assert_eq!(metas[0].created_at, None);
    assert_eq!(metas[0].last_active_at, Some(5));
    let long = "x".repeat(200);
    let metas = scan_sessions("h", &vec![line(Some(&long), Some(1), None, Some("y"))]);
    assert_eq!(metas[0].title.as_ref().unwrap().chars().count(), 163);
}

#[test]
fn sort_is_stable_by_timestamp() {
    let v = vec![msg("a", "1", Some(3)), msg("a", "2", None), msg("a", "3", Some(3)), msg("a", "4", Some(-1)), msg("a", "5", Some(0))];
    let r = sort_messages_by_ts(v);
    let contents: Vec<&str> = r.iter().map(|m| m.content.as_str()).collect();
    assert_eq!(contents, vec!["4", "2", "5", "1", "3"]);
}

#[test]
fn transcript_messages_pick_requests_and_responses() {
    let lines = vec![
        tline(Some("USER"), Some("USER_INPUT"), Some("<USER_REQUEST> hi </USER_REQUEST> meta"), Some(30)),
        tline(Some("MODEL"), Some("PLANNER_RESPONSE"), Some("  answer \n"), Some(40)),
        tline(Some("MODEL"), Some("TOOL_CALL"), Some("ignored"), Some(10)),
        tline(Some("SYSTEM"), Some("PLANNER_RESPONSE"), Some("ignored"), Some(10)),
        tline(None, Some("USER_INPUT"), Some("   "), Some(5)),
        tline(None, Some("USER_INPUT"), Some("first"), Some(20)),
        tline(Some("MODEL"), Some("PLANNER_RESPONSE"), Some("   "), Some(50)),
    ];
    assert!(check_transcript_extractable(&lines));
    let msgs = transcript_messages(&lines);
    let got: Vec<(&str, &str, Option<i64>)> =
        msgs.iter().map(|m| (m.role.as_str(), m.content.as_str(), m.ts)).collect();
    assert_eq!(got, vec![("user", "first", Some(20)), ("user", "hi", Some(30)), ("assistant", "answer", Some(40))]);
}

#[test]
fn transcript_with_misordered_tags_is_not_extractable() {
    let lines = vec![tline(None, Some("USER_INPUT"), Some("</USER_REQUEST>x<USER_REQUEST>"), None)];
    assert!(!check_transcript_extractable(&lines));
}

#[test]
fn retain_drops_only_the_session() {
    let records = vec![
        HistoryRecord { raw: "l1".to_string(), parsed: Some(line(Some("a"), None, None, Some("s1"))) },
        HistoryRecord { raw: "garbage".to_string(), parsed: None },
        HistoryRecord { raw: "l3".to_string(), parsed: Some(line(Some("b"), None, None, Some("s2"))) },
        HistoryRecord { raw: "l4".to_string(), parsed: Some(line(Some("c"), None, None, None)) },
        HistoryRecord { raw: "l5".to_string(), parsed: Some(line(Some("d"), None, None, Some("s1"))) },
    ];
    assert_eq!(retain_other_sessions(&records, "s1"), vec!["garbage", "l3", "l4"]);
}

#[test]
fn delete_target_checks_the_session_id() {
    let (h, c) = delete_target("/h/history.jsonl#conversationId=s1", "s1").unwrap();
    assert_eq!(h, "/h/history.jsonl");
    assert_eq!(c, "s1");
    assert_eq!(
        delete_target("/h/history.jsonl#conversationId=s1", "s2").unwrap_err(),
        "Session ID mismatch: expected s2, found s1"
    );
    assert!(delete_target("nothing", "s2").unwrap_err().starts_with("Invalid Antigravity source path"));
}

#[test]
fn history_path_must_be_the_antigravity_history() {
    assert!(check_history_path("/r/.gemini/antigravity-cli/history.jsonl", "/r/.gemini/antigravity-cli/history.jsonl").is_ok());
    assert!(check_history_path("/r/.gemini//antigravity-cli/history.jsonl", "/r/.gemini/antigravity-cli/history.jsonl").is_ok());
    assert_eq!(
        check_history_path("/etc/passwd", "/r/.gemini/antigravity-cli/history.jsonl").unwrap_err(),
        "Access denied: source history path is invalid."
    );
}

#[test]
fn history_path_verdict_maps_the_comparison() {
    assert!(history_path_verdict(true).is_ok());
    assert_eq!(history_path_verdict(false).unwrap_err(), "Access denied: source history path is invalid.");
}

#[test]
fn history_path_other_than_expected_is_refused() {
    assert!(check_history_path("/x/history.jsonl", "/h/.gemini/antigravity-cli/history.jsonl").is_err());
    assert!(check_history_path("/h/.gemini/antigravity-cli/history.jsonl2", "/h/.gemini/antigravity-cli/history.jsonl").is_err());
}

#[test]
fn source_path_round_trip_with_hash_in_history_path() {
    let p = source_path_for("/h/a#b/history.jsonl", "c1");
    let (h, c) = parse_antigravity_source_path(&p).unwrap();
    assert_eq!(h, "/h/a#b/history.jsonl");
    assert_eq!(c, "c1");
}

#[test]
fn deleting_a_session_twice_keeps_the_rest() {
    let rec = |raw: &str, conv: Option<&str>| HistoryRecord {
        raw: raw.to_string(),
        parsed: Some(line(Some("x"), None, None, conv)),
    };
    let records = vec![rec("a", Some("s1")), rec("b", Some("s2")), HistoryRecord { raw: "junk".to_string(), parsed: None }, rec("c", Some("s1"))];
    let first = retain_other_sessions(&records, "s1");
    assert_eq!(first, vec!["b", "junk"]);
    let again = vec![rec("b", Some("s2")), HistoryRecord { raw: "junk".to_string(), parsed: None }];
    assert_eq!(retain_other_sessions(&again, "s1"), first);
}

#[test]
fn transcript_result_falls_back_when_empty() {
    assert!(transcript_result(Vec::new()).is_none());
    let r = transcript_result(vec![msg("user", "hi", None)]).unwrap();
    assert_eq!(r.len(), 1);
    assert_eq!(r[0].content, "hi");
}

#[test]
fn history_path_with_repeated_separator_is_refused() {
    let expected = "/h/.gemini/antigravity-cli/history.jsonl";
    assert!(check_history_path("/etc//passwd", expected).is_err());
    assert!(check_history_path("/h/.gemini/antigravity-cli/../history.jsonl", expected).is_err());
    assert!(check_history_path("/h/.gemini//antigravity-cli/./history.jsonl/", expected).is_ok());
}

#[test]
fn transcript_timestamps() {
    assert_eq!(parse_timestamp_to_ms(&JsonValue::Number(JsonNumber::PosInt(1500))), Some(1500));
    assert_eq!(parse_timestamp_to_ms(&JsonValue::Number(JsonNumber::NegInt(-5))), Some(-5));
    assert_eq!(parse_timestamp_to_ms(&JsonValue::Number(JsonNumber::PosInt(u64::MAX))), None);
    assert_eq!(parse_timestamp_to_ms(&JsonValue::Str("1970-01-01T00:00:01Z".to_string())), Some(1000));
    assert_eq!(parse_timestamp_to_ms(&JsonValue::Str("2024-05-01T10:00:00+02:00".to_string())), Some(1_714_550_400_000));
    assert_eq!(parse_timestamp_to_ms(&JsonValue::Str("yesterday".to_string())), None);
    assert_eq!(parse_timestamp_to_ms(&JsonValue::Null), None);
}

#[test]
fn transcript_orders_by_parsed_dates() {
    let lines = vec![
        TranscriptLine { source: None, line_type: Some("USER_INPUT".to_string()), content: Some("late".to_string()), created_at: Some(JsonValue::Str("1970-01-01T00:00:02Z".to_string())) },
        TranscriptLine { source: None, line_type: Some("USER_INPUT".to_string()), content: Some("early".to_string()), created_at: Some(JsonValue::Str("1970-01-01T00:00:01.500Z".to_string())) },
    ];
    let msgs = transcript_messages(&lines);
    assert_eq!(msgs[0].content, "early");
    assert_eq!(msgs[0].ts, Some(1500));
    assert_eq!(msgs[1].ts, Some(2000));
}
