use csb::update::{
    available_lines, checks_disabled, is_newer, package_managed, record_check, replace_failure,
    throttle, update_step, CheckCache, Throttle, UpdateStep, CURRENT,
};

#[test]
fn only_strictly_newer_versions_replay() {
    assert!(is_newer("999.0.0"));
    assert!(!is_newer(CURRENT));
    assert!(!is_newer("0.0.1"));
    // An unparseable tag must not be treated as an update.
    assert!(!is_newer("nightly"));
}

#[test]
fn the_opt_out_needs_a_real_value() {
    assert!(!checks_disabled(None));
    assert!(!checks_disabled(Some("")));
    assert!(!checks_disabled(Some("0")));
    assert!(checks_disabled(Some("1")));
    assert!(checks_disabled(Some("yes")));
}

#[test]
fn checks_are_throttled_to_one_a_day() {
    let cache = CheckCache { last_check_secs: 1_000_000, last_seen: Some("999.0.0".into()) };
    assert_eq!(throttle(true, &cache, 1_000_010), Throttle::Disabled);
    assert_eq!(throttle(false, &cache, 1_000_010), Throttle::Replay(Some("999.0.0".into())));
    assert_eq!(throttle(false, &cache, 1_000_000 + 86_400), Throttle::CheckNow);
    // A replayed version that is no longer newer is dropped.
    let stale = CheckCache { last_check_secs: 1_000_000, last_seen: Some("0.0.1".into()) };
    assert_eq!(throttle(false, &stale, 1_000_010), Throttle::Replay(None));
    // Never checked at all.
    assert_eq!(throttle(false, &CheckCache::default(), 1_000_000), Throttle::CheckNow);
}

#[test]
fn a_failed_check_keeps_the_version_seen() {
    let before = CheckCache { last_check_secs: 5, last_seen: Some("1.0.0".into()) };
    let failed = record_check(&before, None, 99);
    assert_eq!(failed.last_check_secs, 99);
    assert_eq!(failed.last_seen.as_deref(), Some("1.0.0"));
    let current = record_check(&before, Some(None), 100);
    assert_eq!(current.last_seen, None);
    let found = record_check(&before, Some(Some("2.0.0")), 101);
    assert_eq!(found.last_seen.as_deref(), Some("2.0.0"));
}

#[test]
fn update_steps() {
    assert_eq!(update_step(true, false, true), UpdateStep::Disabled);
    assert_eq!(update_step(false, false, true), UpdateStep::Check);
    assert_eq!(update_step(false, true, false), UpdateStep::Reinstall);
    assert_eq!(update_step(true, true, false), UpdateStep::Check);
}

#[test]
fn package_managed_binaries_live_in_usr_bin() {
    assert!(package_managed(true, Some("/usr/bin")));
    assert!(!package_managed(true, Some("/usr/local/bin")));
    assert!(!package_managed(false, Some("/usr/bin")));
    assert!(!package_managed(true, None));
}

#[test]
fn update_news_names_the_release() {
    let lines = available_lines("9.9.9", "owner/repo", false);
    assert_eq!(lines[0], format!("csb 9.9.9 is available (you have {CURRENT})"));
    assert_eq!(lines[1], "https://github.com/owner/repo/releases/tag/v9.9.9");
    assert_eq!(lines[2], "\nrun `csb update` to install it");
}

#[test]
fn a_half_applied_update_says_what_landed() {
    let bins = vec!["csb".to_string(), "csb-gui".to_string()];
    assert_eq!(replace_failure(&bins, 0, "csb", false), "csb could not be replaced");
    assert_eq!(
        replace_failure(&bins, 1, "csb-gui.exe", true),
        "csb-gui.exe could not be replaced - close it, then run `csb update --force`. The update is half-applied: csb already updated"
    );
}
