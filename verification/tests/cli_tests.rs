use csb::cli::{matches_project, parse_duration, select};
use csb::index::{Index, SessionMeta};

const SEC: i128 = 1_000_000_000;
const DAY: i128 = 86_400 * SEC;
const HOUR: i128 = 3_600 * SEC;

/// A fixed "now", so `--older-than` cutoffs are not wall-clock dependent.
fn now() -> i128 {
    20_000 * DAY
}

fn meta(id: &str, slug: &str, idle: i128) -> SessionMeta {
    SessionMeta {
        id: id.into(),
        path: String::new(),
        project_slug: slug.into(),
        size_bytes: 0,
        modified_ms: 0,
        first_ts: None,
        last_ts: Some(now() - idle),
        title: String::new(),
        cwd: None,
        git_branch: None,
        user_msgs: 0,
        assistant_msgs: 0,
        tool_calls: 0,
    }
}

fn index(sessions: Vec<SessionMeta>) -> Index {
    Index {
        sessions,
        warnings: Vec::new(),
    }
}

fn ids_of(targets: &[SessionMeta]) -> Vec<String> {
    targets.iter().map(|s| s.id.clone()).collect()
}

#[test]
fn explicit_ids_resolve_and_dedupe() {
    let ix = index(vec![meta("aaaa1111", "p", DAY), meta("bbbb2222", "p", DAY)]);
    // Full id and a prefix of the same session count once.
    let ids = ["aaaa1111".to_string(), "aaa".to_string()];
    let got = select(&ix, &ids, None, None, now()).unwrap();
    assert_eq!(ids_of(&got), ["aaaa1111"]);
}

#[test]
fn older_than_unions_with_explicit_ids() {
    let ix = index(vec![
        meta("old1", "p", 40 * DAY),
        meta("old2", "p", 40 * DAY),
        meta("new1", "p", HOUR),
    ]);
    let ids = ["old1".to_string(), "new1".to_string()];
    let got = select(&ix, &ids, Some("30d"), None, now()).unwrap();
    // Explicit ids keep their order, the age sweep appends what is new.
    assert_eq!(ids_of(&got), ["old1", "new1", "old2"]);
}

#[test]
fn older_than_respects_the_project() {
    let ix = index(vec![
        meta("a1", "-src-alpha", 40 * DAY),
        meta("b1", "-src-beta", 40 * DAY),
    ]);
    let got = select(&ix, &[], Some("30d"), Some("alpha"), now()).unwrap();
    assert_eq!(ids_of(&got), ["a1"]);
    let all = select(&ix, &[], Some("30d"), Some("all"), now()).unwrap();
    assert_eq!(ids_of(&all), ["a1", "b1"]);
}

#[test]
fn neither_ids_nor_older_than_is_an_error() {
    let ix = index(vec![meta("a1", "p", DAY)]);
    let e = select(&ix, &[], None, None, now()).unwrap_err();
    assert!(e.contains("give session ids"), "{e}");
}

#[test]
fn an_empty_id_is_refused() {
    let ix = index(vec![meta("a1", "p", DAY)]);
    let e = select(&ix, &[String::new()], None, None, now()).unwrap_err();
    assert!(e.contains("empty session id"), "{e}");
}

#[test]
fn an_ambiguous_prefix_is_refused() {
    let ix = index(vec![meta("aaa1", "p", DAY), meta("aaa2", "p", DAY)]);
    let e = select(&ix, &["aaa".to_string()], None, None, now()).unwrap_err();
    assert!(e.contains("matches"), "{e}");
}

#[test]
fn durations() {
    assert_eq!(parse_duration("30d").unwrap(), chrono::Duration::days(30).num_seconds());
    assert_eq!(parse_duration("2w").unwrap(), chrono::Duration::weeks(2).num_seconds());
    assert_eq!(parse_duration("90m").unwrap(), chrono::Duration::minutes(90).num_seconds());
    assert_eq!(parse_duration("7").unwrap(), chrono::Duration::days(7).num_seconds());
    assert!(parse_duration("7y").is_err());
    assert!(parse_duration("soon").is_err());
    // Overflow is an error, not a panic: chrono's Duration::weeks aborts on
    // anything this large.
    assert!(parse_duration("9223372036854775807w").is_err());
    assert!(parse_duration("9223372036854775807d").is_err());
}

#[test]
fn duration_errors_say_what_was_wrong() {
    assert_eq!(parse_duration(" 12h ").unwrap(), 43_200);
    assert_eq!(parse_duration("soon").unwrap_err(), "bad duration 'soon', expected e.g. 30d");
    assert_eq!(parse_duration("7y").unwrap_err(), "unknown duration unit 'y', use m/h/d/w");
    assert_eq!(
        parse_duration("9223372036854775807w").unwrap_err(),
        "duration '9223372036854775807w' is out of range"
    );
    // The largest span chrono holds in whole days is accepted, one more is not.
    assert_eq!(parse_duration("106751991167d").unwrap(), 106_751_991_167 * 86_400);
    assert!(parse_duration("106751991168d").is_err());
}

#[test]
fn a_session_is_selected_once_however_it_is_named() {
    let ix = index(vec![meta("old1", "p", 40 * DAY), meta("old2", "p", 40 * DAY)]);
    let ids = ["old1".to_string(), "old".to_string()];
    // `old` is ambiguous, so nothing is selected at all.
    assert!(select(&ix, &ids, Some("30d"), None, now()).is_err());
    let ids = ["old2".to_string(), "old2".to_string()];
    let got = select(&ix, &ids, Some("30d"), None, now()).unwrap();
    assert_eq!(ids_of(&got), ["old2", "old1"]);
}

#[test]
fn project_names_match_slug_or_cwd_in_any_case() {
    let mut m = meta("x", "-src-Alpha", DAY);
    assert!(matches_project(&m, None));
    assert!(matches_project(&m, Some("ALL")));
    assert!(matches_project(&m, Some("alpha")));
    assert!(!matches_project(&m, Some("beta")));
    m.cwd = Some("/home/me/Beta".into());
    assert!(matches_project(&m, Some("BETA")));
}
