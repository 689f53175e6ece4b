use csb::json::Json;
use csb::transcript::{headline_for, load, result_text, Event, LoadOpts};

fn role(e: &Event) -> &'static str {
    match e {
        Event::User(_) => "user",
        Event::Assistant(_) => "assistant",
        Event::Thinking(_) => "thinking",
        Event::ToolUse { .. } => "tool",
        Event::ToolResult { .. } => "result",
    }
}

fn everything() -> LoadOpts {
    LoadOpts {
        max_entries: usize::MAX,
        include_sidechains: true,
    }
}

/// The bytes of a transcript file holding these lines.
fn fixture(lines: &[&str]) -> Vec<u8> {
    let mut out = Vec::new();
    for l in lines {
        out.extend_from_slice(l.as_bytes());
        out.push(b'\n');
    }
    out
}

#[test]
fn parses_the_real_record_shapes() {
    let f = fixture(&[
        r#"{"type":"mode","mode":"normal"}"#,
        r#"{"type":"user","timestamp":"2026-08-23T18:48:01.103Z","message":{"role":"user","content":"do the thing"}}"#,
        r#"{"type":"assistant","message":{"content":[{"type":"thinking","thinking":"hmm"},{"type":"text","text":"ok"},{"type":"tool_use","name":"Bash","input":{"command":"git status","description":"x"}}]}}"#,
        r#"{"type":"user","message":{"content":[{"type":"tool_result","content":"on branch main","is_error":false}]}}"#,
        "not json at all",
    ]);

    let t = load(&f, &LoadOpts::default());
    let roles: Vec<&str> = t.entries.iter().map(|e| role(&e.event)).collect();
    assert_eq!(
        roles,
        ["user", "thinking", "assistant", "tool", "result"],
        "non-message records and bad lines skipped"
    );

    match &t.entries[3].event {
        Event::ToolUse { name, headline, .. } => {
            assert_eq!(name, "Bash");
            assert_eq!(headline, "git status", "command beats description");
        }
        other => panic!("{other:?}"),
    }
    assert!(t.entries[0].ts.is_some());
    assert!(!t.truncated);
}

#[test]
fn cli_wrappers_collapse_instead_of_burying_the_prompt() {
    let f = fixture(&[
        r#"{"type":"user","message":{"content":"<local-command-caveat>Caveat: boilerplate.</local-command-caveat>"}}"#,
        r#"{"type":"user","message":{"content":"<command-name>/clear</command-name><command-message>clear</command-message><command-args></command-args>"}}"#,
        r#"{"type":"user","message":{"content":"<system-reminder>noise</system-reminder>the real prompt"}}"#,
    ]);

    let t = load(&f, &LoadOpts::default());
    assert_eq!(t.entries.len(), 1, "caveat and command dropped");
    assert!(matches!(&t.entries[0].event, Event::User(s) if s == "the real prompt"));
}

#[test]
fn sidechains_are_opt_in() {
    let f = fixture(&[
        r#"{"type":"mode","mode":"normal"}"#,
        r#"{"type":"user","isSidechain":true,"message":{"content":"hidden"}}"#,
    ]);
    assert!(load(&f, &LoadOpts::default()).entries.is_empty());
    let all = load(&f, &everything());
    assert_eq!(all.entries.len(), 1);
    assert!(all.entries[0].sidechain);
}

#[test]
fn max_entries_truncates() {
    let line = r#"{"type":"user","message":{"content":"hi"}}"#;
    let f = fixture(&[line, line, line]);
    let opts = LoadOpts {
        max_entries: 2,
        ..Default::default()
    };
    let t = load(&f, &opts);
    assert_eq!(t.entries.len(), 2);
    assert!(t.truncated);
}

#[test]
fn exactly_max_entries_is_not_truncated() {
    let line = r#"{"type":"user","message":{"content":"hi"}}"#;
    let f = fixture(&[line, line, "", r#"{"type":"mode"}"#]);
    let opts = LoadOpts { max_entries: 2, include_sidechains: false };
    let t = load(&f, &opts);
    assert_eq!(t.entries.len(), 2);
    assert!(!t.truncated, "a trailing line that yields nothing cuts nothing short");
    let none = load(&f, &LoadOpts { max_entries: 0, include_sidechains: false });
    assert!(none.entries.is_empty());
    assert!(none.truncated);
}

fn text(s: &str) -> Json {
    Json::Str(s.to_string())
}

fn object(members: Vec<(&str, Json)>) -> Json {
    Json::Object(members.into_iter().map(|(k, v)| (k.to_string(), v)).collect())
}

#[test]
fn headline_falls_back_to_json() {
    let todos = Json::Array(vec![Json::Number("1".to_string()), Json::Number("2".to_string())]);
    let h = headline_for(&object(vec![("todos", todos)]));
    assert_eq!(h, r#"{"todos":[1,2]}"#);
}

#[test]
fn headlines_are_one_line() {
    let h = headline_for(&object(vec![("command", text("  a\nb  ")), ("path", text("p"))]));
    assert_eq!(h, "a \u{23ce} b");
    let blank = headline_for(&object(vec![("command", text("   ")), ("path", text("p"))]));
    assert_eq!(blank, "p");
}

#[test]
fn tool_result_block_arrays_flatten() {
    let body = result_text(
        &Json::Array(vec![
            object(vec![("type", text("text")), ("text", text("line"))]),
            object(vec![("type", text("image"))]),
        ]),
    );
    assert_eq!(body, "line\n[image]");
    assert_eq!(result_text(&Json::Null), "");
}

#[test]
fn tool_results_keep_errors_and_a_short_preview() {
    let f = fixture(&[
        r#"{"type":"user","message":{"content":[{"type":"tool_result","content":"a\nb","is_error":true}]}}"#,
    ]);
    let t = load(&f, &LoadOpts::default());
    match &t.entries[0].event {
        Event::ToolResult { is_error, preview, raw } => {
            assert!(*is_error);
            assert_eq!(preview, "a \u{23ce} b");
            assert_eq!(raw, "a\nb");
        }
        other => panic!("{other:?}"),
    }
    assert_eq!(t.entries[0].event.searchable(), "a \u{23ce} b");
}
