use csb::del::{execute_all, DeletePlan, Outcome};
use csb::index::SessionMeta;
use csb::pick::Selection;

fn session(id: &str, bytes: u64) -> SessionMeta {
    SessionMeta {
        id: id.into(),
        path: format!("/p/s/{id}.jsonl"),
        project_slug: "s".into(),
        size_bytes: bytes,
        modified_ms: 0,
        first_ts: None,
        last_ts: None,
        title: id.into(),
        cwd: None,
        git_branch: None,
        user_msgs: 1,
        assistant_msgs: 0,
        tool_calls: 0,
    }
}

fn rows() -> Vec<SessionMeta> {
    vec![session("a", 1), session("b", 2), session("c", 4), session("d", 8), session("e", 16)]
}

fn sorted(sel: &Selection) -> Vec<String> {
    let mut m = sel.marked.clone();
    m.sort();
    m
}

#[test]
fn shift_click_marks_the_range_from_the_anchor() {
    let v = rows();
    let mut sel = Selection::new();
    sel.click(&v, 3, false, false);
    assert!(sel.marked.is_empty());
    assert_eq!(sel.anchor, Some(3));
    sel.click(&v, 1, false, true);
    assert_eq!(sorted(&sel), ["b", "c", "d"]);
    assert_eq!(sel.anchor, Some(1));
}

#[test]
fn shift_click_without_an_anchor_marks_nothing() {
    let v = rows();
    let mut sel = Selection::new();
    sel.click(&v, 2, false, true);
    assert!(sel.marked.is_empty());
    assert_eq!(sel.anchor, Some(2));
}

#[test]
fn ctrl_click_toggles_one_row() {
    let v = rows();
    let mut sel = Selection::new();
    sel.click(&v, 0, true, false);
    sel.click(&v, 4, true, false);
    assert_eq!(sorted(&sel), ["a", "e"]);
    sel.click(&v, 0, true, false);
    assert_eq!(sorted(&sel), ["e"]);
}

#[test]
fn all_none_and_checkboxes() {
    let v = rows();
    let mut sel = Selection::new();
    sel.toggle(&"c".to_string());
    sel.mark_all(&v);
    assert_eq!(sorted(&sel), ["a", "b", "c", "d", "e"]);
    sel.toggle(&"c".to_string());
    assert_eq!(sorted(&sel), ["a", "b", "d", "e"]);
    sel.clear();
    assert!(sel.marked.is_empty());
}

#[test]
fn a_reindex_drops_marks_of_gone_sessions_and_a_relist_drops_the_anchor() {
    let v = rows();
    let mut sel = Selection::new();
    sel.mark_all(&v);
    sel.click(&v, 2, false, false);
    sel.retain(&vec![session("b", 2), session("e", 16)]);
    assert_eq!(sorted(&sel), ["b", "e"]);
    assert_eq!(sel.anchor, Some(2));
    sel.relisted();
    assert_eq!(sel.anchor, None);
}

#[test]
fn the_summary_is_the_marked_sessions_or_the_focused_one() {
    let v = rows();
    let mut sel = Selection::new();
    assert_eq!(sel.summary(&v, None), (0, 0));
    assert_eq!(sel.summary(&v, Some(&v[2])), (1, 4));
    sel.toggle(&"b".to_string());
    sel.toggle(&"e".to_string());
    assert_eq!(sel.summary(&v, Some(&v[2])), (2, 18));
}

fn plan(id: &str) -> DeletePlan {
    DeletePlan { id: id.into(), title: id.into(), paths: vec![format!("/p/{id}")], bytes: 1, recent: false }
}

#[test]
fn a_batch_steps_in_order_and_stops_at_a_failure() {
    let mut o = Outcome::start(3);
    assert_eq!(o.next(), Some(0));
    o.record("a", Ok(()));
    assert_eq!(o.next(), Some(1));
    o.record("b", Err("denied".into()));
    assert_eq!(o.next(), None);
    assert_eq!(o.ok, 1);
    assert_eq!(o.failed.as_deref(), Some("deleting session b: denied"));

    let ran = std::cell::RefCell::new(Vec::new());
    let plans = vec![plan("a"), plan("b"), plan("c")];
    let out = execute_all(&plans, |p: &DeletePlan| {
        ran.borrow_mut().push(p.id.clone());
        if p.id == "b" { Err("denied".to_string()) } else { Ok(()) }
    });
    assert_eq!(*ran.borrow(), ["a", "b"]);
    assert_eq!(out.ok, 1);
}
