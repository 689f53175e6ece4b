use std::cell::Cell;

use csb::bytes::human_bytes;
use csb::del::{execute_all, plan, refusal, summarize, DeletePlan, Outcome};
use csb::index::SessionMeta;
use csb::paths::ConfigDir;

fn dir() -> ConfigDir {
    ConfigDir { root: "/home/me/.agent".into(), windows: false }
}

fn plan_of(id: &str, paths: &[&str], bytes: u64, recent: bool) -> DeletePlan {
    DeletePlan {
        id: id.into(),
        title: id.into(),
        paths: paths.iter().map(|p| p.to_string()).collect(),
        bytes,
        recent,
    }
}

#[test]
fn plan_covers_the_transcript_and_every_sidecar() {
    let id = "0241ed3f-1b2c-4d5e-8f9a-0b1c2d3e4f5a";
    let meta = SessionMeta {
        id: id.into(),
        path: format!("/home/me/.agent/projects/-src-proj/{id}.jsonl"),
        project_slug: "-src-proj".into(),
        size_bytes: 5,
        modified_ms: 0,
        first_ts: None,
        last_ts: None,
        title: "t".into(),
        cwd: None,
        git_branch: None,
        user_msgs: 0,
        assistant_msgs: 0,
        tool_calls: 0,
    };
    // Every candidate exists; their sizes are 5, 2, 3 and 1 bytes.
    let now = 1_800_000_000 * 1_000_000_000i128;
    let p = plan(&dir(), &meta, &[true, true, true, true], &[5, 2, 3, 1], now);
    assert_eq!(
        p.paths,
        vec![
            format!("/home/me/.agent/projects/-src-proj/{id}.jsonl"),
            format!("/home/me/.agent/projects/-src-proj/{id}"),
            format!("/home/me/.agent/session-env/{id}"),
            format!("/home/me/.agent/file-history/{id}"),
        ]
    );
    assert_eq!(p.bytes, 5 + 2 + 3 + 1);
    assert!(!p.recent, "an epoch timestamp is not a live session");
}

#[test]
fn execute_rejects_paths_outside_the_claude_dir() {
    let outside = "/home/me/precious.txt";
    let p = plan_of("x", &[outside], 0, false);
    let why = refusal(&dir(), &p, &[Some(outside.to_string())], false, &None);
    assert_eq!(why.unwrap(), "refusing to delete /home/me/precious.txt - outside /home/me/.agent");
    // A path that cannot be resolved is refused too.
    assert!(refusal(&dir(), &p, &[None], false, &None).is_some());
}

#[test]
fn empty_plan_is_an_error() {
    let p = plan_of("x", &[], 0, false);
    assert_eq!(
        refusal(&dir(), &p, &[], false, &None).unwrap(),
        "nothing to delete for session x"
    );
}

#[test]
fn a_plan_inside_the_dir_may_go() {
    let inside = "/home/me/.agent/projects/a.jsonl";
    let p = plan_of("a", &[inside], 10, false);
    assert!(refusal(&dir(), &p, &[Some(inside.to_string())], false, &None).is_none());
    // ...unless WSL would have to move it off a Windows drive.
    let mounts = Some("D: /home/me drvfs rw 0 0\n".to_string());
    assert!(refusal(&dir(), &p, &[Some(inside.to_string())], true, &mounts).is_some());
    assert!(refusal(&dir(), &p, &[Some(inside.to_string())], false, &mounts).is_none());
}

// The refused plan goes first, so the second one must never be attempted.
#[test]
fn execute_all_stops_at_the_first_failure() {
    let outside = "/home/me/precious.txt";
    let inside = "/home/me/.agent/projects/a.jsonl";
    let plans = vec![plan_of("a", &[outside], 0, false), plan_of("b", &[inside], 10, false)];
    let attempts = Cell::new(0);
    let d = dir();
    let outcome = execute_all(&plans, |p: &DeletePlan| {
        attempts.set(attempts.get() + 1);
        let canonical: Vec<Option<String>> = p.paths.iter().map(|q| Some(q.clone())).collect();
        match refusal(&d, p, &canonical, false, &None) {
            Some(why) => Err(why),
            None => Ok(()),
        }
    });
    assert_eq!(outcome.ok, 0);
    assert_eq!(outcome.total, 2);
    assert!(outcome.failed.is_some());
    assert!(
        outcome.summary(10).starts_with("deleted 0 of 2, then failed"),
        "{}",
        outcome.summary(10)
    );
    assert_eq!(attempts.get(), 1, "the plan after the failure must not run");
}

#[test]
fn a_clean_batch_reports_what_moved() {
    let outcome = Outcome { ok: 2, total: 2, failed: None };
    assert_eq!(outcome.summary(2048), "moved 2 session(s) (2.0 KB) to the recycle bin");
    let failed = Outcome { ok: 1, total: 3, failed: Some("deleting session b: busy".into()) };
    assert_eq!(failed.summary(0), "deleted 1 of 3, then failed: deleting session b: busy");
}

#[test]
fn summarize_adds_up_every_plan() {
    let plans = vec![
        plan_of("a", &["one", "two"], 100, true),
        plan_of("b", &["three"], 20, false),
    ];
    let s = summarize(&plans);
    assert_eq!(s.bytes, 120);
    assert_eq!(s.files, 3);
    assert_eq!(s.live, 1);
}

#[test]
fn bytes_are_human_readable() {
    assert_eq!(human_bytes(512), "512 B");
    assert_eq!(human_bytes(2048), "2.0 KB");
    assert_eq!(human_bytes(21 * 1024 * 1024), "21.0 MB");
}

#[test]
fn bytes_round_like_the_float_formatter() {
    assert_eq!(human_bytes(0), "0 B");
    assert_eq!(human_bytes(1023), "1023 B");
    assert_eq!(human_bytes(1024), "1.0 KB");
    // 1.25 KB lies exactly between two tenths: the formatter rounds to even.
    assert_eq!(human_bytes(1280), "1.2 KB");
    assert_eq!(human_bytes(1331), "1.3 KB");
    assert_eq!(human_bytes(1024 * 1024 - 1), "1024.0 KB");
    assert_eq!(human_bytes(3 * 1024 * 1024 * 1024), "3.0 GB");
    assert_eq!(human_bytes(u64::MAX), "17179869184.0 GB");
}

#[test]
fn a_windows_plan_inside_the_dir_may_go() {
    let d = ConfigDir { root: "C:\\Users\\me\\.agent".into(), windows: true };
    let inside = "C:\\Users\\me\\.agent\\projects\\s\\abc.jsonl";
    let p = plan_of("abc", &[inside], 1, false);
    assert!(refusal(&d, &p, &[Some(inside.to_string())], false, &None).is_none());
    let outside = "C:\\Users\\me\\other\\abc.jsonl";
    assert!(refusal(&d, &p, &[Some(outside.to_string())], false, &None).is_some());
}
