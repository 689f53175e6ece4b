use csb::assemble::session_stem;
use csb::mounts::on_drvfs_mount;
use csb::paths::{is_session_id, ConfigDir};

const MOUNTS: &str = "\
/dev/sdc / ext4 rw,relatime,discard,errors=remount-ro,data=ordered 0 0
none /mnt/wslg tmpfs rw,relatime 0 0
C:\\134 /mnt/c 9p rw,noatime,dirsync,aname=drvfs;path=C:\\;uid=1000;gid=1000;symlinkroot=/mnt/,mmap,access=client,msize=65536,trans=fd,rfd=6,wfd=6 0 0
D:\\134 /mnt/data drvfs rw,relatime 0 0
none /mnt/c/Users/x/tmp\\040dir tmpfs rw 0 0
";

fn dir() -> ConfigDir {
    ConfigDir { root: "/tmp/t/agent".into(), windows: false }
}

#[test]
fn drvfs_is_decided_by_the_longest_matching_mount() {
    assert!(on_drvfs_mount("/mnt/c/Users/x/.agent", MOUNTS));
    assert!(on_drvfs_mount("/mnt/data/.agent", MOUNTS));
    assert!(!on_drvfs_mount("/mnt/wslg/x", MOUNTS));
    assert!(!on_drvfs_mount("/home/x/.agent", MOUNTS));
    // A non-drvfs mount nested inside a drvfs one wins for its subtree.
    assert!(!on_drvfs_mount("/mnt/c/Users/x/tmp dir/f", MOUNTS));
    assert!(!on_drvfs_mount("/mnt/c", ""));
}

#[test]
fn session_paths_refuses_directory_walking_ids() {
    for id in [".", "..", "", "a/b", "a\\b"] {
        assert!(dir().session_paths("slug", id, &[true; 4]).is_empty(), "{id:?}");
    }
}

#[test]
fn session_ids_are_one_plain_component() {
    for id in ["...", "....", "abc.", "abc ", "a:b", "日本"] {
        assert!(!is_session_id(id), "{id:?}");
    }
    for id in ["0241ed3f-1b2c-4d5e-8f9a-0b1c2d3e4f5a", "a.b", "x_y-z"] {
        assert!(is_session_id(id), "{id:?}");
    }
}

#[test]
fn contains_rejects_outside_paths() {
    let d = dir();
    assert!(d.contains(&Some("/tmp/t/agent/projects/p".into())));
    assert!(!d.contains(&Some("/tmp/t/elsewhere".into())));
    // Traversal out of the tree resolves outside it and must be rejected.
    assert!(!d.contains(&Some("/tmp/t/elsewhere".into())));
    // A sibling that merely shares the prefix is outside too.
    assert!(!d.contains(&Some("/tmp/t/agent2/x".into())));
    // The root itself is never a delete target.
    assert!(!d.contains(&Some("/tmp/t/agent".into())));
    // Nor is a path that could not be resolved.
    assert!(!d.contains(&None));
}

#[test]
fn session_paths_skips_missing() {
    // The transcript and its session-env dir exist; the rest do not.
    let paths = dir().session_paths("slug", "abc", &[true, false, true, false]);
    assert_eq!(paths.len(), 2, "{paths:?}");
    assert_eq!(paths, ["/tmp/t/agent/projects/slug/abc.jsonl", "/tmp/t/agent/session-env/abc"]);
}

#[test]
fn only_safe_jsonl_stems_are_sessions() {
    assert_eq!(session_stem("abc.jsonl").as_deref(), Some("abc"));
    assert_eq!(session_stem("a.b.jsonl").as_deref(), Some("a.b"));
    assert!(session_stem(".jsonl").is_none());
    assert!(session_stem("..jsonl").is_none());
    assert!(session_stem("abc.json").is_none());
    assert!(session_stem("notes.txt").is_none());
}

#[test]
fn the_shared_history_is_never_a_session_path() {
    let history = "/tmp/t/agent/history.jsonl";
    for (slug, id) in [("-src-a", "history"), ("..", "history"), ("", "h"), ("x", "abc")] {
        let all = dir().session_candidates(slug, id);
        assert!(all.iter().all(|p| p != history), "{slug:?} {id:?}");
    }
    assert_eq!(dir().session_candidates("s", "abc").len(), 4);
}

#[test]
fn windows_paths_use_backslashes() {
    let d = ConfigDir { root: "C:\\c".into(), windows: true };
    assert!(d.contains(&Some("C:\\c\\p".into())));
    assert!(d.contains(&Some("C:\\c\\projects\\s\\abc.jsonl".into())));
    assert!(!d.contains(&Some("C:\\c2\\p".into())));
    assert!(!d.contains(&Some("C:\\c".into())));
    assert_eq!(
        d.session_candidates("s", "abc"),
        [
            "C:\\c\\projects\\s\\abc.jsonl",
            "C:\\c\\projects\\s\\abc",
            "C:\\c\\session-env\\abc",
            "C:\\c\\file-history\\abc",
        ]
    );
    // A backslash is part of a name elsewhere.
    let u = ConfigDir { root: "/c".into(), windows: false };
    assert!(!u.contains(&Some("/c\\p".into())));
    assert!(u.contains(&Some("/c/p".into())));
}
