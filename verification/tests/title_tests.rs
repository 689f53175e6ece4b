use csb::text::{short_id, truncate};
use csb::title::{derive_title, CONTINUED};

fn t(prompts: &[&str]) -> Option<String> {
    let owned: Vec<String> = prompts.iter().map(|s| s.to_string()).collect();
    derive_title(&None, &None, &owned)
}

#[test]
fn short_id_survives_odd_file_stems() {
    assert_eq!(short_id("00dc9e25-828a-4dc1"), "00dc9e25");
    // Stems are not validated UUIDs: a stray `notes.jsonl` must not panic.
    assert_eq!(short_id("ab"), "ab");
    assert_eq!(short_id(""), "");
    // Truncating on a char boundary, not a byte one.
    assert_eq!(short_id("日本語テストです"), "日本語テストです");
    assert_eq!(short_id("日本語テストですね"), "日本語テストです");
}

#[test]
fn truncate_counts_chars() {
    assert_eq!(truncate("abc", 3), "abc");
    assert_eq!(truncate("abcd", 3), "ab…");
    assert_eq!(truncate("日本語テ", 3), "日本…");
    assert_eq!(truncate("ab  cd", 4), "ab…");
    assert_eq!(truncate("", 0), "");
}

#[test]
fn truncating_twice_changes_nothing_more() {
    for (s, max) in [("abcdef", 4), ("ab  cd ef", 5), ("日本語テスト", 2), ("x", 0), ("short", 10)] {
        let once = truncate(s, max);
        assert_eq!(truncate(&once, max), once);
        assert!(once.chars().count() <= max.max(1));
    }
}

#[test]
fn custom_title_wins() {
    let title = derive_title(
        &Some("PR task/952399-HARDENING".into()),
        &Some("package and lock".into()),
        &["something else".into()],
    );
    assert_eq!(title.unwrap(), "PR task/952399-HARDENING");
}

#[test]
fn agent_name_is_second() {
    let title = derive_title(&None, &Some("package and lock".into()), &[]);
    assert_eq!(title.unwrap(), "package and lock");
}

#[test]
fn slash_command_prompt() {
    let raw = "<command-message>statusline</command-message>\n<command-name>/statusline</command-name>\n<command-args>can we use U+2387 for the branch icon?</command-args>";
    assert_eq!(
        t(&[raw]).unwrap(),
        "/statusline can we use U+2387 for the branch icon?"
    );
}

#[test]
fn bare_slash_command_without_args() {
    let raw = "<command-name>/clear</command-name>\n            <command-message>clear</command-message>\n            <command-args></command-args>";
    assert_eq!(t(&[raw]).unwrap(), "/clear");
}

#[test]
fn continued_session_uses_next_prompt() {
    let raw = format!("{CONTINUED}. The conversation is summarized below: blah");
    assert_eq!(
        t(&[&raw, "now fix the parser"]).unwrap(),
        "(continued) now fix the parser"
    );
}

#[test]
fn continued_session_alone() {
    let raw = format!("{CONTINUED}. blah blah");
    assert_eq!(t(&[&raw]).unwrap(), "(continued session)");
}

#[test]
fn bare_command_loses_to_a_later_real_prompt() {
    let clear = "<command-name>/clear</command-name><command-args></command-args>";
    assert_eq!(
        t(&[clear, "when opening a new file the window hides"]).unwrap(),
        "when opening a new file the window hides"
    );
    // ...but is still better than nothing.
    assert_eq!(t(&[clear]).unwrap(), "/clear");
    // A command *with* args is already descriptive - it wins outright.
    let recap = "<command-name>/recap</command-name><command-args>the auth work</command-args>";
    assert_eq!(t(&[recap, "later prompt"]).unwrap(), "/recap the auth work");
}

#[test]
fn plain_prompt_is_squashed_and_truncated() {
    let raw = "I want to be able to curate my   agent code sessions.\n\nwrite me an app";
    assert_eq!(
        t(&[raw]).unwrap(),
        "I want to be able to curate my agent code sessions. write me an app"
    );
}

#[test]
fn reminders_are_stripped() {
    let raw = "<system-reminder>ignore me</system-reminder>real content here";
    assert_eq!(t(&[raw]).unwrap(), "real content here");
}

#[test]
fn empty_prompts_yield_no_title() {
    assert!(t(&["   ", "<system-reminder>only noise</system-reminder>"]).is_none());
    assert!(derive_title(&Some("  ".into()), &None, &[]).is_none());
}

#[test]
fn long_titles_are_cut_to_one_hundred_and_ten_characters() {
    let long = "word ".repeat(40);
    let title = t(&[&long]).unwrap();
    assert_eq!(title.chars().count(), 110);
    assert!(title.ends_with('…'));
}
