use csb::browse::{Action, Browser, Key, KeyCode, Mode, Pane};
use csb::del::DeletePlan;
use csb::index::{Index, SessionMeta};
use csb::screen::entry_lines;
use csb::transcript::{Entry, Event};

const DAY: i128 = 86_400 * 1_000_000_000;

/// Two projects of two sessions each, every session a different size and a
/// different age, so `s` and `r` really do reorder the lists under the
/// cursor. Date order is a1, a2, b1, b2; size and msgs order is the reverse.
fn sessions() -> Vec<SessionMeta> {
    // (slug, id, records, day) - more records is a bigger file.
    [
        ("-src-alpha", "a1", 1, 4),
        ("-src-alpha", "a2", 2, 3),
        ("-src-beta", "b1", 3, 2),
        ("-src-beta", "b2", 4, 1),
    ]
    .iter()
    .map(|&(slug, id, records, day)| session(slug, id, records, day))
    .collect()
}

fn session(slug: &str, id: &str, records: u32, day: i128) -> SessionMeta {
    SessionMeta {
        id: id.into(),
        path: format!("/p/{slug}/{id}.jsonl"),
        project_slug: slug.into(),
        size_bytes: 100 * records as u64,
        modified_ms: 0,
        first_ts: Some(20_454 * DAY + day * DAY),
        last_ts: Some(20_454 * DAY + day * DAY),
        title: format!("hello {id}"),
        cwd: Some(format!("/p/{slug}")),
        git_branch: None,
        user_msgs: records,
        assistant_msgs: 0,
        tool_calls: 0,
    }
}

fn index(sessions: Vec<SessionMeta>) -> Index {
    Index { sessions, warnings: Vec::new() }
}

fn press(b: &mut Browser, code: KeyCode) -> Action {
    b.handle_key(Key { code, ctrl: false })
}

fn current_id(b: &Browser) -> String {
    b.current().unwrap().id.clone()
}

#[test]
fn sort_keeps_the_same_session_selected() {
    let mut b = Browser::new(index(sessions()));
    press(&mut b, KeyCode::Char('j'));
    assert_eq!(current_id(&b), "a2");

    press(&mut b, KeyCode::Char('s'));
    assert_eq!(current_id(&b), "a2");
    // Size order is the reverse of date order, so the row moved and only
    // re-resolving the id can have kept the highlight.
    assert_eq!(b.session_sel, 2);

    press(&mut b, KeyCode::Char('s'));
    assert_eq!(current_id(&b), "a2");
}

#[test]
fn project_switch_lands_on_the_top_session() {
    let mut b = Browser::new(index(sessions()));
    press(&mut b, KeyCode::Char('j'));
    assert_eq!(current_id(&b), "a2");

    b.focus = Pane::Projects;
    // Row 1 is alpha, row 2 is beta.
    press(&mut b, KeyCode::Char('j'));
    press(&mut b, KeyCode::Char('j'));
    assert_eq!(b.selected_slug(), Some("-src-beta"));
    assert_eq!(b.session_sel, 0);
    assert_eq!(current_id(&b), "b1");

    // Back to "all projects": beta's top session sits at row 2 of the full
    // list, so re-resolving the id would move the cursor off the top.
    press(&mut b, KeyCode::Char('g'));
    assert_eq!(b.project_sel, 0);
    assert_eq!(b.session_sel, 0);
    assert_eq!(current_id(&b), "a1");
}

#[test]
fn reload_keeps_the_same_project_selected() {
    let mut b = Browser::new(index(sessions()));
    b.focus = Pane::Projects;
    press(&mut b, KeyCode::Char('j'));
    press(&mut b, KeyCode::Char('j'));
    assert_eq!(b.selected_slug(), Some("-src-beta"));

    // b1 gets a new record and becomes the newest session.
    let mut s = sessions();
    s[2].last_ts = Some(20_454 * DAY + 40 * DAY);
    s.sort_by_key(|m| std::cmp::Reverse(m.last_ts));
    assert!(matches!(press(&mut b, KeyCode::Char('r')), Action::Reindex));
    b.reindexed(Ok(index(s)), true);

    assert_eq!(b.selected_slug(), Some("-src-beta"));
    // beta is now the newest project, so it moved to the first row.
    assert_eq!(b.project_sel, 1);
    assert_eq!(b.status, "reindexed");
}

#[test]
fn reload_falls_back_to_all_when_the_project_is_gone() {
    let mut b = Browser::new(index(sessions()));
    b.focus = Pane::Projects;
    press(&mut b, KeyCode::Char('j'));
    press(&mut b, KeyCode::Char('j'));
    assert_eq!(b.selected_slug(), Some("-src-beta"));

    let alpha: Vec<SessionMeta> =
        sessions().into_iter().filter(|s| s.project_slug == "-src-alpha").collect();
    b.reindexed(Ok(index(alpha)), true);

    assert_eq!(b.project_sel, 0);
    assert_eq!(b.selected_slug(), None);
}

#[test]
fn a_failed_reload_changes_only_the_status() {
    let mut b = Browser::new(index(sessions()));
    press(&mut b, KeyCode::Char('j'));
    b.reindexed(Err("projects: permission denied".into()), true);
    assert_eq!(b.status, "reindex failed: projects: permission denied");
    assert_eq!(current_id(&b), "a2");
    assert_eq!(b.index.sessions.len(), 4);
}

#[test]
fn filter_typing_does_not_reload_the_preview() {
    let mut b = Browser::new(index(sessions()));
    assert!(b.needs_preview());
    b.preview_loaded(12, None);
    assert!(!b.needs_preview());
    let id = current_id(&b);

    press(&mut b, KeyCode::Char('/'));
    // Every title matches, so the same session stays highlighted.
    press(&mut b, KeyCode::Char('h'));

    assert_eq!(current_id(&b), id);
    assert!(!b.needs_preview());
}

#[test]
fn confirm_returns_to_browse_on_any_key() {
    let mut b = Browser::new(index(sessions()));
    press(&mut b, KeyCode::Char(' '));
    let targets = match press(&mut b, KeyCode::Char('d')) {
        Action::Plan(t) => t,
        other => panic!("{other:?}"),
    };
    assert_eq!(targets.len(), 1);
    assert_eq!(targets[0].id, "a1");
    let plans = vec![DeletePlan {
        id: "a1".into(),
        title: "hello a1".into(),
        paths: vec!["/p/-src-alpha/a1.jsonl".into()],
        bytes: 100,
        recent: false,
    }];
    b.confirm(plans);
    assert!(matches!(b.mode, Mode::Confirm(_)));

    let action = press(&mut b, KeyCode::Esc);
    assert!(matches!(action, Action::Nothing), "nothing is deleted");
    assert!(matches!(b.mode, Mode::Browse));
    assert_eq!(b.status, "delete cancelled");
}

#[test]
fn confirming_hands_over_the_plans() {
    let mut b = Browser::new(index(sessions()));
    b.confirm(Vec::new());
    assert!(matches!(press(&mut b, KeyCode::Char('y')), Action::Delete(p) if p.is_empty()));
    assert!(matches!(b.mode, Mode::Browse));
}

#[test]
fn marks_toggle_and_clear() {
    let mut b = Browser::new(index(sessions()));
    press(&mut b, KeyCode::Char(' '));
    assert_eq!(b.marked, ["a1"]);
    // The highlight steps down after marking.
    assert_eq!(current_id(&b), "a2");
    press(&mut b, KeyCode::Char('k'));
    press(&mut b, KeyCode::Char(' '));
    assert!(b.marked.is_empty(), "marking twice unmarks");
    press(&mut b, KeyCode::Char('a'));
    assert_eq!(b.marked.len(), 4);
    press(&mut b, KeyCode::Char('a'));
    assert_eq!(b.marked.len(), 4, "each id once");
    press(&mut b, KeyCode::Char('A'));
    assert!(b.marked.is_empty());
    b.focus = Pane::Preview;
    press(&mut b, KeyCode::Char(' '));
    assert_eq!(b.status, "tab to the sessions pane to mark");
}

#[test]
fn nothing_to_delete_is_said() {
    let mut b = Browser::new(index(Vec::new()));
    assert!(matches!(press(&mut b, KeyCode::Char('d')), Action::Nothing));
    assert_eq!(b.status, "nothing selected");
}

#[test]
fn moves_clamp_to_the_list() {
    let mut b = Browser::new(index(sessions()));
    press(&mut b, KeyCode::PageDown);
    assert_eq!(b.session_sel, 3);
    press(&mut b, KeyCode::Up);
    assert_eq!(b.session_sel, 2);
    press(&mut b, KeyCode::Home);
    assert_eq!(b.session_sel, 0);
    press(&mut b, KeyCode::End);
    assert_eq!(b.session_sel, 3);
    press(&mut b, KeyCode::Tab);
    assert!(b.focus == Pane::Preview);
    b.preview_loaded(5, None);
    press(&mut b, KeyCode::PageDown);
    assert_eq!(b.preview_scroll, 4);
    press(&mut b, KeyCode::Char('k'));
    assert_eq!(b.preview_scroll, 3);
    press(&mut b, KeyCode::BackTab);
    press(&mut b, KeyCode::BackTab);
    assert!(b.focus == Pane::Projects);
}

#[test]
fn quitting_and_filter_editing() {
    let mut b = Browser::new(index(sessions()));
    press(&mut b, KeyCode::Char('/'));
    press(&mut b, KeyCode::Char('b'));
    press(&mut b, KeyCode::Char('2'));
    assert_eq!(b.filter, "b2");
    assert_eq!(b.visible.len(), 1);
    press(&mut b, KeyCode::Backspace);
    assert_eq!(b.filter, "b");
    press(&mut b, KeyCode::Enter);
    assert!(matches!(b.mode, Mode::Browse));
    assert_eq!(b.filter, "b");
    press(&mut b, KeyCode::Char('/'));
    press(&mut b, KeyCode::Esc);
    assert!(b.filter.is_empty());
    assert_eq!(b.visible.len(), 4);
    assert!(!b.quit);
    b.handle_key(Key { code: KeyCode::Char('c'), ctrl: true });
    assert!(b.quit);
}

#[test]
fn entry_lines_splits_on_newlines() {
    let entry = Entry {
        ts: None,
        sidechain: false,
        event: Event::User("a\n\nb".into()),
    };
    let text: Vec<String> = entry_lines(&entry)
        .iter()
        .map(|l| l.iter().map(|p| p.text.as_str()).collect::<String>())
        .collect();
    assert_eq!(text, ["▌ user", "a", "", "b", ""]);
}
