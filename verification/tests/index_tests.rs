use csb::index::{Index, SessionMeta, Sort};
use csb::json::Json;
use csb::scan::{flag_is_true, message_text, scan_session, string_field, type_values};
use csb::time::{millis_to_nanos, parse_ts, rfc3339_of, MAX_UTC_MILLIS, MIN_UTC_MILLIS};

fn meta(slug: &str, cwd: Option<&str>, bytes: u64) -> SessionMeta {
    SessionMeta {
        id: String::new(),
        path: String::new(),
        project_slug: slug.into(),
        size_bytes: bytes,
        modified_ms: 0,
        first_ts: None,
        last_ts: None,
        title: String::new(),
        cwd: cwd.map(str::to_string),
        git_branch: None,
        user_msgs: 0,
        assistant_msgs: 0,
        tool_calls: 0,
    }
}

#[test]
fn untitled_fallback_survives_a_non_ascii_stem() {
    let body = br#"{"type":"user","message":{"content":""}}"#;
    let m = scan_session("slug", "/p/slug/セッション記録.jsonl", "セッション記録", 40, 0, body);
    assert_eq!(m.title, "(untitled セッション記録)");
}

#[test]
fn projects_summarise_in_session_order() {
    // Newest first, as the index keeps them.
    let index = Index {
        sessions: vec![
            meta("b", None, 1),
            meta("a", Some("/src/a"), 10),
            meta("b", Some("/src/b"), 2),
            meta("a", Some("/elsewhere"), 100),
        ],
        warnings: Vec::new(),
    };
    let p = index.projects();
    let rows: Vec<(&str, &str, usize, u64)> = p
        .iter()
        .map(|p| (p.slug.as_str(), p.label.as_str(), p.count, p.bytes))
        .collect();
    // Label is the first recorded cwd; a slug with none shows as itself.
    assert_eq!(rows, [("b", "/src/b", 2, 3), ("a", "/src/a", 2, 110)]);
    let none = Index {
        sessions: vec![meta("c", None, 0)],
        warnings: Vec::new(),
    };
    assert_eq!(none.projects()[0].label, "c");
}

#[test]
fn project_rows_add_up_to_the_index() {
    let sessions = vec![
        meta("x", None, 5),
        meta("y", Some("/y"), 7),
        meta("x", Some("/x"), 11),
        meta("z", None, 13),
        meta("y", None, 17),
    ];
    let total: u64 = sessions.iter().map(|s| s.size_bytes).sum();
    let index = Index { sessions, warnings: Vec::new() };
    let p = index.projects();
    assert_eq!(p.iter().map(|r| r.count).sum::<usize>(), 5);
    assert_eq!(p.iter().map(|r| r.bytes).sum::<u64>(), total);
}

#[test]
fn absurd_mtime_does_not_panic() {
    let mut m = meta("s", None, 0);
    m.id = "x".into();
    m.modified_ms = i64::MAX;
    // The epoch.
    assert_eq!(m.activity(), 0);
}

#[test]
fn meta_only_sessions_are_empty() {
    let body = br#"{"type":"user","isMeta":true,"message":{"content":"<local-command-caveat>Caveat</local-command-caveat>"}}"#;
    let m = scan_session("slug", "/p/slug/abc.jsonl", "abc", 1, 0, body);
    assert_eq!(m.user_msgs, 0);
    assert_eq!(m.title, "(empty session)");
}

#[test]
fn a_scan_counts_and_reads_the_first_messages() {
    let body = [
        r#"{"type":"user","cwd":"/work","timestamp":"2026-01-02T00:00:00Z","message":{"content":"fix the build"}}"#,
        "",
        r#"{"type":"assistant","gitBranch":"main","timestamp":"2026-01-02T00:00:05Z","message":{"content":[{"type":"tool_use","name":"Bash"},{"type":"tool_use","name":"Read"}]}}"#,
        r#"{"type":"user","message":{"content":[{"type":"tool_result","content":"ok"}]}}"#,
        r#"{"type":"custom-title","customTitle":"Build fix"}"#,
        "",
    ]
    .join("\n");
    let m = scan_session("-work", "/p/-work/s1.jsonl", "s1", 10, 0, body.as_bytes());
    assert_eq!(m.user_msgs, 1);
    assert_eq!(m.assistant_msgs, 1);
    assert_eq!(m.tool_calls, 2);
    assert_eq!(m.cwd.as_deref(), Some("/work"));
    assert_eq!(m.git_branch.as_deref(), Some("main"));
    assert_eq!(m.title, "Build fix");
    assert_eq!(rfc3339_of(m.first_ts.unwrap()).unwrap(), "2026-01-02T00:00:00+00:00");
    assert_eq!(rfc3339_of(m.last_ts.unwrap()).unwrap(), "2026-01-02T00:00:05+00:00");
}

fn text(s: &str) -> Json {
    Json::Str(s.to_string())
}

fn object(members: Vec<(&str, Json)>) -> Json {
    Json::Object(members.into_iter().map(|(k, v)| (k.to_string(), v)).collect())
}

#[test]
fn message_text_handles_both_shapes() {
    let s = text("hello");
    assert_eq!(message_text(&s).unwrap(), "hello");
    let blocks = Json::Array(vec![
        object(vec![("type", text("thinking")), ("thinking", text("hmm"))]),
        object(vec![("type", text("text")), ("text", text("hi"))]),
    ]);
    assert_eq!(message_text(&blocks).unwrap(), "hi");
    let only_tools = Json::Array(vec![object(vec![("type", text("tool_use")), ("name", text("Bash"))])]);
    assert!(message_text(&only_tools).is_none());
    assert!(message_text(&Json::Null).is_none());
}

#[test]
fn timestamp_extraction() {
    let key = br#""timestamp""#;
    let line = br#"{"type":"user","timestamp":"2026-08-23T18:48:01.103Z","uuid":"x"}"#;
    let ts = string_field(line, key).and_then(|s| parse_ts(&s)).unwrap();
    assert_eq!(rfc3339_of(ts).unwrap(), "2026-08-23T18:48:01.103+00:00");
    assert!(string_field(b"{}", key).is_none());
}

#[test]
fn type_scan_is_whitespace_and_order_tolerant() {
    // Pretty-printed, and with the record's own type *after* a nested one -
    // exactly the shape `attachment` records use.
    let line = br#"{"attachment": {"type" : "delta"}, "type": "attachment"}"#;
    assert_eq!(type_values(line), ["delta", "attachment"]);

    // Multiple tool_use blocks in one assistant line are all counted.
    let line = br#"{"type":"assistant","message":{"content":[{"type":"tool_use"},{"type":"tool_use"}]}}"#;
    let tools = type_values(line).iter().filter(|v| *v == "tool_use").count();
    assert_eq!(tools, 2);
}

#[test]
fn bool_flags_tolerate_spacing() {
    let key = br#""isMeta""#;
    assert!(flag_is_true(br#"{"isMeta":true}"#, key));
    assert!(flag_is_true(br#"{"isMeta" : true}"#, key));
    assert!(!flag_is_true(br#"{"isMeta":false}"#, key));
    assert!(!flag_is_true(br#"{"other":true}"#, key));
}

#[test]
fn filter_matches_title_location_and_id_prefix() {
    let mut a = meta("p", Some("/Work/Alpha"), 1);
    a.id = "aaa1".into();
    a.title = "Fix the Parser".into();
    let mut b = meta("q", None, 2);
    b.id = "bbb2".into();
    b.title = "other".into();
    let index = Index { sessions: vec![a, b], warnings: Vec::new() };
    let ids = |v: Vec<SessionMeta>| v.into_iter().map(|s| s.id).collect::<Vec<_>>();
    assert_eq!(ids(index.filter(None, "PARSER", Sort::Date)), ["aaa1"]);
    assert_eq!(ids(index.filter(None, "alpha", Sort::Date)), ["aaa1"]);
    assert_eq!(ids(index.filter(None, "bbb", Sort::Date)), ["bbb2"]);
    assert_eq!(ids(index.filter(Some("q"), "", Sort::Date)), ["bbb2"]);
    assert_eq!(ids(index.filter(None, "", Sort::Size)), ["bbb2", "aaa1"]);
}

#[test]
fn find_refuses_empty_and_ambiguous_needles() {
    let mut a = meta("p", None, 1);
    a.id = "abc1".into();
    let mut b = meta("p", None, 1);
    b.id = "abc2".into();
    let index = Index { sessions: vec![a, b], warnings: Vec::new() };
    assert_eq!(index.find("").unwrap_err(), "empty session id");
    assert_eq!(index.find("zz").unwrap_err(), "no session matches 'zz'");
    assert_eq!(index.find("abc").unwrap_err(), "'abc' matches 2 sessions: abc1, abc2");
    assert_eq!(index.find("abc2").unwrap().id, "abc2");
}

#[test]
fn warnings_summarise_in_one_line() {
    let mut index = Index { sessions: Vec::new(), warnings: Vec::new() };
    assert!(index.warning_summary().is_none());
    index.warnings.push("a.jsonl: denied".into());
    assert_eq!(index.warning_summary().unwrap(), "skipped 1 unreadable file (a.jsonl: denied)");
    index.warnings.push("b.jsonl: denied".into());
    assert_eq!(
        index.warning_summary().unwrap(),
        "skipped 2 unreadable files (first: a.jsonl: denied)"
    );
}

#[test]
fn prompts_that_clean_to_nothing_leave_the_title_budget_alone() {
    let reminder = r#"{"type":"user","message":{"content":"<system-reminder>x</system-reminder>"}}"#;
    let real = r#"{"type":"user","message":{"content":"fix the parser"}}"#;
    let body = [reminder, reminder, reminder, reminder, real].join("\n");
    let m = scan_session("slug", "/p/slug/abc.jsonl", "abc", 1, 0, body.as_bytes());
    assert_eq!(m.title, "fix the parser");
    assert_eq!(m.user_msgs, 5);
}

#[test]
fn a_continuation_preamble_still_takes_a_place() {
    let lead = r#"{"type":"user","message":{"content":"This session is being continued from a previous conversation that ran out of context."}}"#;
    let reminder = r#"{"type":"user","message":{"content":"<system-reminder>x</system-reminder>"}}"#;
    let real = r#"{"type":"user","message":{"content":"ship it"}}"#;
    let body = [lead, reminder, reminder, reminder, real].join("\n");
    let m = scan_session("slug", "/p/slug/abc.jsonl", "abc", 1, 0, body.as_bytes());
    assert_eq!(m.title, "(continued) ship it");
}

#[test]
fn chrono_range_ends_exactly_where_the_constants_say() {
    assert_eq!(millis_to_nanos(MIN_UTC_MILLIS), Some(MIN_UTC_MILLIS as i128 * 1_000_000));
    assert_eq!(millis_to_nanos(MIN_UTC_MILLIS - 1), None);
    assert_eq!(millis_to_nanos(MAX_UTC_MILLIS), Some(MAX_UTC_MILLIS as i128 * 1_000_000));
    assert_eq!(millis_to_nanos(MAX_UTC_MILLIS + 1), None);
}
