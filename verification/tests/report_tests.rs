use csb::assemble::{Cache, CACHE_SCHEMA};
use csb::del::DeletePlan;
use csb::index::{Index, Project, SessionMeta, Sort};
use csb::report::{delete_step, DeleteStep};
use csb::report::{
    list_footer, list_header, list_json, list_row, list_sessions, live_refusal, pad_left, pad_right,
    plan_lines, plans_footer, project_row, projects_header, show_entry, show_header,
};
use csb::screen::{confirm_lines, marks_line, sessions_title};
use csb::transcript::{Entry, Event};

fn meta(id: &str, slug: &str, size: u64, path: &str) -> SessionMeta {
    SessionMeta {
        id: id.into(),
        path: path.into(),
        project_slug: slug.into(),
        size_bytes: size,
        modified_ms: 7,
        first_ts: None,
        last_ts: Some(1_700_000_000_000_000_000),
        title: format!("title {id}"),
        cwd: None,
        git_branch: Some("main".into()),
        user_msgs: 2,
        assistant_msgs: 3,
        tool_calls: 4,
    }
}

#[test]
fn padding_counts_characters() {
    assert_eq!(pad_right("ab", 4), "ab  ");
    assert_eq!(pad_left("ab", 4), "  ab");
    assert_eq!(pad_right("日本", 3), "日本 ");
    assert_eq!(pad_left("abcdef", 3), "abcdef");
}

#[test]
fn the_session_table() {
    assert_eq!(
        list_header(),
        "ID        LAST ACTIVITY       MSGS       SIZE  TITLE"
    );
    let m = meta("0123456789", "p", 2048, "/x");
    assert_eq!(
        list_row(&m, "2026-01-02 03:04"),
        "01234567  2026-01-02 03:04       5     2.0 KB  title 0123456789"
    );
    let all = vec![m.clone(), meta("b", "p", 1024, "/y")];
    assert_eq!(list_footer(&all), "\n2 sessions, 3.0 KB");
}

#[test]
fn list_filters_by_project_and_sorts() {
    let index = Index {
        sessions: vec![meta("a", "-src-alpha", 1, "/a"), meta("b", "-src-beta", 5, "/b"), meta("c", "-src-alpha", 3, "/c")],
        warnings: Vec::new(),
    };
    let ids = |v: Vec<SessionMeta>| v.into_iter().map(|s| s.id).collect::<Vec<_>>();
    assert_eq!(ids(list_sessions(&index, Some("alpha"), Sort::Size)), ["c", "a"]);
    assert_eq!(ids(list_sessions(&index, None, Sort::Size)), ["b", "c", "a"]);
    assert_eq!(ids(list_sessions(&index, Some("all"), Sort::Date)), ["a", "b", "c"]);
}

#[test]
fn list_json_rows() {
    let text = list_json(&vec![meta("a", "p", 1, "/a.jsonl")]);
    let v: serde_json::Value = serde_json::from_str(&text).unwrap();
    let row = &v[0];
    assert_eq!(row["id"], "a");
    assert_eq!(row["project"], "p");
    assert_eq!(row["sizeBytes"], 1);
    assert_eq!(row["userMessages"], 2);
    assert_eq!(row["cwd"], serde_json::Value::Null);
    assert_eq!(row["gitBranch"], "main");
    assert_eq!(row["lastActivity"], "2023-11-14T22:13:20+00:00");
}

#[test]
fn the_project_table() {
    assert!(projects_header().starts_with("SESS         SIZE  SLUG"));
    let p = Project { slug: "-src-a".into(), label: "/src/a".into(), count: 3, bytes: 512 };
    assert_eq!(
        project_row(&p),
        format!("3           512 B  {:<40}  /src/a", "-src-a")
    );
}

#[test]
fn show_prints_a_header_and_entries() {
    let m = meta("abc", "p", 10, "/abc.jsonl");
    let h = show_header(&m, "2026-01-02 03:04");
    assert_eq!(
        h,
        [
            "# title abc",
            "  id       abc",
            "  cwd      p",
            "  branch   main",
            "  activity 2026-01-02 03:04",
            "  volume   5 messages, 4 tool calls, 10 B",
            "",
        ]
    );
    let e = |sidechain, event| Entry { ts: None, sidechain, event };
    assert_eq!(show_entry(&e(false, Event::User("hi".into()))), " > hi\n");
    assert_eq!(show_entry(&e(true, Event::Assistant("ok".into()))), "|  ok\n");
    assert_eq!(
        show_entry(&e(false, Event::ToolUse { name: "Bash".into(), headline: "ls".into(), raw: "{}".into() })),
        "   * Bash: ls"
    );
    assert_eq!(
        show_entry(&e(false, Event::ToolResult { is_error: true, preview: "boom".into(), raw: "boom".into() })),
        "   ! boom"
    );
}

#[test]
fn delete_listing_and_refusal() {
    let plans = vec![
        DeletePlan { id: "aaaaaaaa11".into(), title: "one".into(), paths: vec!["/x/1".into(), "/x/2".into()], bytes: 1024, recent: true },
        DeletePlan { id: "bbbbbbbb22".into(), title: "two".into(), paths: vec![], bytes: 1024, recent: false },
    ];
    assert_eq!(plan_lines(&plans[0]), ["aaaaaaaa one  [ACTIVE?]", "    /x/1", "    /x/2"]);
    assert_eq!(plans_footer(&plans), "\n2 session(s), 2.0 KB to the recycle bin");
    assert_eq!(
        live_refusal(&plans).unwrap(),
        "1 session(s) were active in the last 5 minutes (aaaaaaaa); pass --force to delete anyway"
    );
    assert!(live_refusal(&plans[1..].to_vec()).is_none());
}

#[test]
fn the_confirm_dialog_and_status_texts() {
    let plans = vec![DeletePlan { id: "zzzzzzzz9".into(), title: "gone".into(), paths: vec!["/x".into()], bytes: 2048, recent: true }];
    let lines: Vec<String> = confirm_lines(&plans, &Vec::new()).into_iter().map(|p| p.text).collect();
    assert_eq!(
        lines,
        [
            "Move 1 session(s) — 1 paths, 2.0 KB — to the recycle bin?",
            "",
            "1 of these are outside the current view",
            "",
            "WARNING: 1 of these were active in the last 5 minutes",
            "",
            "  zzzzzzzz  gone",
            "",
            "y confirm · any other key cancel",
        ]
    );
    assert_eq!(marks_line(0, 0), "nothing marked");
    assert_eq!(marks_line(2, 2048), "2 marked · 2.0 KB");
    assert_eq!(sessions_title(3, Sort::Size, ""), "Sessions (3) · sort:size");
    assert_eq!(sessions_title(1, Sort::Date, "x"), "Sessions (1) · sort:date · /x");
}

#[test]
fn the_cache_serves_what_the_last_index_stored() {
    let old = meta("o", "p", 1, "/other/tree/o.jsonl");
    let gone = meta("g", "p", 1, "/root/projects/p/g.jsonl");
    let cache = Cache { schema: CACHE_SCHEMA, entries: vec![old.clone(), gone.clone()] };
    let fresh = meta("n", "p", 9, "/root/projects/p/n.jsonl");
    let next = cache.refreshed(&vec![fresh.clone()], "/root/projects", false);
    assert_eq!(next.get("/root/projects/p/n.jsonl", 9, 7), Some(fresh));
    assert_eq!(next.get("/root/projects/p/n.jsonl", 10, 7), None, "a changed size misses");
    assert!(next.get("/root/projects/p/g.jsonl", 1, 7).is_none(), "a deleted session falls out");
    assert_eq!(next.get("/other/tree/o.jsonl", 1, 7), Some(old), "another tree is kept");
    let stale = Cache { schema: CACHE_SCHEMA + 1, entries: vec![meta("x", "p", 1, "/x")] };
    assert!(Cache::accepted(stale).entries.is_empty());
}

#[test]
fn assembling_sorts_newest_first_and_keeps_each_id_once() {
    let mut a = meta("a", "p", 1, "/p/a.jsonl");
    a.last_ts = Some(10);
    let mut b = meta("b", "p", 1, "/p/b.jsonl");
    b.last_ts = Some(30);
    let mut dup = meta("a", "q", 1, "/q/a.jsonl");
    dup.last_ts = Some(20);
    let ix = Index::assemble(
        vec![Ok(a), Err("/p/bad.jsonl: denied".into()), Ok(b), Ok(dup)],
        vec!["/p/locked: denied".into()],
    );
    let ids: Vec<(&str, &str)> = ix.sessions.iter().map(|s| (s.id.as_str(), s.path.as_str())).collect();
    assert_eq!(ids, [("b", "/p/b.jsonl"), ("a", "/q/a.jsonl")]);
    assert_eq!(
        ix.warnings,
        [
            "/p/locked: denied",
            "/p/bad.jsonl: denied",
            "/p/a.jsonl: duplicate session id a (keeping /q/a.jsonl)",
        ]
    );
}

#[test]
fn the_delete_gate_runs_dry_run_then_liveness_then_confirmation() {
    let live = vec![DeletePlan { id: "aaaaaaaa11".into(), title: "one".into(), paths: vec!["/x/1".into()], bytes: 1, recent: true }];
    let idle = vec![DeletePlan { id: "bbbbbbbb22".into(), title: "two".into(), paths: vec!["/x/2".into()], bytes: 1, recent: false }];
    assert!(matches!(delete_step(&live, true, false, false), DeleteStep::DryRun));
    match delete_step(&live, false, false, true) {
        DeleteStep::Refuse(why) => assert_eq!(
            why,
            "1 session(s) were active in the last 5 minutes (aaaaaaaa); pass --force to delete anyway"
        ),
        other => panic!("{other:?}"),
    }
    assert!(matches!(delete_step(&live, false, true, false), DeleteStep::Ask));
    assert!(matches!(delete_step(&idle, false, false, false), DeleteStep::Ask));
    assert!(matches!(delete_step(&idle, false, false, true), DeleteStep::Go));
}
