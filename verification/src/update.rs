//! Self-update decisions: whether a release is newer, the opt-out, and the
//! once-a-day throttle on background checks.

use vstd::prelude::*;
use crate::text::str_eq;
use crate::title::opt_view;

verus! {

/// The GitHub account that publishes releases.
pub const REPO_OWNER: &'static str = "toperux";

/// The version of this build.
pub const CURRENT: &'static str = "0.2.10";

/// How long a background check result is reused before asking again.
pub const CHECK_INTERVAL_SECS: i64 = 86400;

/// A release newer than the running binary.
#[derive(Debug, Clone, PartialEq, Eq)]
pub struct Available {
    pub version: String,
}

/// What `CSB_NO_UPDATE_CHECK` says: checks are off when it is set to
/// anything but the empty string or `0`.
pub open spec fn checks_disabled_s(value: Option<Seq<char>>) -> bool {
    match value {
        Some(v) => v.len() > 0 && v != "0"@,
        None => false,
    }
}

/// True when the user has opted out of update checks, given the value of
/// `CSB_NO_UPDATE_CHECK` (`None` when it is not set).
pub fn checks_disabled(value: Option<&str>) -> (r: bool)
    ensures
        r == checks_disabled_s(
            match value {
                Some(v) => Some(v@),
                None => None,
            },
        ),
{
    match value {
        Some(v) => !v.is_empty() && !str_eq(v, "0"),
        None => false,
    }
}

/// What `self_update::version::bump_is_greater(current, other)` returns: whether
/// `other` is a greater semantic version than `current`, or `None` when
/// either does not parse.
pub uninterp spec fn bump_is_greater_s(current: Seq<char>, other: Seq<char>) -> Option<bool>;

/// `self_update::version::bump_is_greater`, with a parse error as `None`.
#[verifier::external_body]
fn bump_is_greater(current: &str, other: &str) -> (r: Option<bool>)
    ensures
        r == bump_is_greater_s(current@, other@),
{
    self_update::version::bump_is_greater(current, other).ok()
}

/// `version` is strictly newer than this build; an unparseable one is not.
pub open spec fn is_newer_s(version: Seq<char>) -> bool {
    bump_is_greater_s(CURRENT@, version) == Some(true)
}

/// Whether `version` is strictly newer than this build.
pub fn is_newer(version: &str) -> (r: bool)
    ensures
        r == is_newer_s(version@),
{
    match bump_is_greater(CURRENT, version) {
        Some(b) => b,
        None => false,
    }
}

/// Throttle state, kept beside the session index cache: when the last check
/// ran (seconds since the epoch) and what it found.
#[derive(Debug, Clone, PartialEq, Eq)]
pub struct CheckCache {
    pub last_check_secs: i64,
    pub last_seen: Option<String>,
}

impl Default for CheckCache {
    /// Never checked: an unreadable or unparseable throttle file reads as
    /// this, so that it cannot suppress updates forever.
    fn default() -> (r: Self)
        ensures
            r.last_check_secs == 0,
            r.last_seen is None,
    {
        CheckCache { last_check_secs: 0, last_seen: None }
    }
}

/// What a background check does.
#[derive(Debug, Clone, PartialEq, Eq)]
pub enum Throttle {
    /// Checks are off: report nothing.
    Disabled,
    /// Inside the window: replay this (already re-tested) answer.
    Replay(Option<String>),
    /// The window is over: ask the network now.
    CheckNow,
}

/// The decision behind a throttled check at `now` (seconds since the epoch):
/// nothing when checks are off; inside the window the last answer again, as
/// long as it is still newer than this build; else a fresh check.
pub open spec fn throttle_s(disabled: bool, cache: CheckCache, now: int) -> Throttle {
    if disabled {
        Throttle::Disabled
    } else if now - cache.last_check_secs < CHECK_INTERVAL_SECS {
        match cache.last_seen {
            Some(v) => if is_newer_s(v@) {
                Throttle::Replay(Some(v))
            } else {
                Throttle::Replay(None)
            },
            None => Throttle::Replay(None),
        }
    } else {
        Throttle::CheckNow
    }
}

/// Decide a throttled check: `disabled` is what [`checks_disabled`] said,
/// `cache` the stored throttle state and `now` the time in seconds.
pub fn throttle(disabled: bool, cache: &CheckCache, now: i64) -> (r: Throttle)
    requires
        i64::MIN <= now - cache.last_check_secs <= i64::MAX,
    ensures
        match (r, throttle_s(disabled, *cache, now as int)) {
            (Throttle::Disabled, Throttle::Disabled) => true,
            (Throttle::CheckNow, Throttle::CheckNow) => true,
            (Throttle::Replay(a), Throttle::Replay(b)) => opt_view(a) == opt_view(b),
            _ => false,
        },
{
    if disabled {
        return Throttle::Disabled;
    }
    if now - cache.last_check_secs < CHECK_INTERVAL_SECS {
        match &cache.last_seen {
            Some(v) => if is_newer(v.as_str()) {
                Throttle::Replay(Some(v.clone()))
            } else {
                Throttle::Replay(None)
            },
            None => Throttle::Replay(None),
        }
    } else {
        Throttle::CheckNow
    }
}

/// The throttle state a check at `now` leaves behind. The window restarts
/// whatever happened ("once a day" means once a day, not once per launch
/// while offline); the version seen changes only when the check succeeded
/// (`found` is `None` for a failed one), so one failed check does not hide a
/// known update.
pub open spec fn record_s(previous: Option<Seq<char>>, found: Option<Option<Seq<char>>>) -> Option<
    Seq<char>,
> {
    match found {
        Some(seen) => seen,
        None => previous,
    }
}

/// Record a check at `now`; `found` is `None` when the check failed, else
/// the version it found, if any.
pub fn record_check(previous: &CheckCache, found: Option<Option<&str>>, now: i64) -> (r: CheckCache)
    ensures
        r.last_check_secs == now,
        opt_view(r.last_seen) == record_s(
            opt_view(previous.last_seen),
            match found {
                Some(Some(v)) => Some(Some(v@)),
                Some(None) => Some(None),
                None => None,
            },
        ),
{
    let last_seen = match found {
        Some(Some(v)) => Some(crate::text::owned(v)),
        Some(None) => None,
        None => match &previous.last_seen {
            Some(v) => Some(v.clone()),
            None => None,
        },
    };
    CheckCache { last_check_secs: now, last_seen }
}

/// What to tell the user instead of updating, when this binary was
/// installed by the .deb/.rpm and therefore belongs to the package manager.
pub const PACKAGE_MANAGED_HINT: &'static str = "csb was installed by a system package; upgrade it with your package manager (re-run installer/install.sh, or install the new .deb/.rpm from the release)";

/// The binary belongs to the package manager: on Unix, it lives in
/// `/usr/bin`, where only the .deb/.rpm put it.
pub open spec fn package_managed_s(unix: bool, exe_dir: Option<Seq<char>>) -> bool {
    unix && exe_dir == Some("/usr/bin"@)
}

/// Whether the running binary belongs to the package manager, given whether
/// this is Unix and the directory it runs from (`None` when unknown).
pub fn package_managed(unix: bool, exe_dir: Option<&str>) -> (r: bool)
    ensures
        r == package_managed_s(
            unix,
            match exe_dir {
                Some(d) => Some(d@),
                None => None,
            },
        ),
{
    match exe_dir {
        Some(d) => unix && str_eq(d, "/usr/bin"),
        None => false,
    }
}

/// What `csb update` does first.
#[derive(Debug, Clone, Copy, PartialEq, Eq)]
pub enum UpdateStep {
    /// Only a check was asked for and checks are off: say so.
    Disabled,
    /// Reinstall the latest release whatever this binary's version (the way
    /// out of a half-applied update).
    Reinstall,
    /// Ask whether a newer release exists.
    Check,
}

/// The opt-out covers checks only: an explicit install still goes ahead.
pub open spec fn update_step_s(check_only: bool, force: bool, disabled: bool) -> UpdateStep {
    if check_only && disabled {
        UpdateStep::Disabled
    } else if force && !check_only {
        UpdateStep::Reinstall
    } else {
        UpdateStep::Check
    }
}

/// What `csb update` does first, given `--check`, `--force` and the opt-out.
pub fn update_step(check_only: bool, force: bool, disabled: bool) -> (r: UpdateStep)
    ensures
        r == update_step_s(check_only, force, disabled),
{
    if check_only && disabled {
        UpdateStep::Disabled
    } else if force && !check_only {
        UpdateStep::Reinstall
    } else {
        UpdateStep::Check
    }
}

/// What `csb update --check` prints when `version` is available: the news,
/// where the release is (`repo` is the GitHub `owner/name`), and how to get
/// it.
pub open spec fn available_lines_s(version: Seq<char>, repo: Seq<char>, managed: bool) -> Seq<Seq<char>> {
    seq![
        "csb "@ + version + " is available (you have "@ + CURRENT@ + ")"@,
        "https://github.com/"@ + repo + "/releases/tag/v"@ + version,
        if managed {
            "\n"@ + PACKAGE_MANAGED_HINT@
        } else {
            "\nrun `csb update` to install it"@
        },
    ]
}

/// What `csb update --check` prints when `version` is available.
pub fn available_lines(version: &str, repo: &str, managed: bool) -> (r: Vec<String>)
    ensures
        r@.map_values(|s: String| s@) == available_lines_s(version@, repo@, managed),
{
    let mut a = crate::text::concat("csb ", version);
    crate::text::push_str(&mut a, " is available (you have ");
    crate::text::push_str(&mut a, CURRENT);
    crate::text::push_str(&mut a, ")");
    let mut b = crate::text::concat("https://github.com/", repo);
    crate::text::push_str(&mut b, "/releases/tag/v");
    crate::text::push_str(&mut b, version);
    let c = if managed {
        crate::text::concat("\n", PACKAGE_MANAGED_HINT)
    } else {
        crate::text::owned("\nrun `csb update` to install it")
    };
    let mut r: Vec<String> = Vec::new();
    r.push(a);
    r.push(b);
    r.push(c);
    assert(r@.map_values(|s: String| s@) =~= available_lines_s(version@, repo@, managed));
    r
}

/// Why replacing binary `i` of `binaries` (named `name` on disk) failed:
/// on Windows, with the fix; after the first binary, saying which ones
/// already landed, since the update is then half-applied.
pub open spec fn replace_failure_s(binaries: Seq<Seq<char>>, i: int, name: Seq<char>, windows: bool) -> Seq<
    char,
> {
    let hint = if windows {
        name + " could not be replaced - close it, then run `csb update --force`"@
    } else {
        name + " could not be replaced"@
    };
    if i > 0 {
        hint + ". The update is half-applied: "@ + crate::text::join_s(binaries.take(i), ", "@)
            + " already updated"@
    } else {
        hint
    }
}

/// Why replacing binary `i` of `binaries` failed.
pub fn replace_failure(binaries: &Vec<String>, i: usize, name: &str, windows: bool) -> (r: String)
    requires
        i <= binaries@.len(),
    ensures
        r@ == replace_failure_s(binaries@.map_values(|s: String| s@), i as int, name@, windows),
{
    let mut hint = crate::text::owned(name);
    if windows {
        crate::text::push_str(&mut hint, " could not be replaced - close it, then run `csb update --force`");
    } else {
        crate::text::push_str(&mut hint, " could not be replaced");
    }
    if i == 0 {
        return hint;
    }
    let mut done: Vec<String> = Vec::new();
    let mut k: usize = 0;
    while k < i
        invariant
            k <= i <= binaries@.len(),
            done@.map_values(|s: String| s@) == binaries@.map_values(|s: String| s@).take(k as int),
        decreases i - k,
    {
        let ghost before = done@.map_values(|s: String| s@);
        let c = binaries[k].clone();
        let ghost cv = c@;
        done.push(c);
        assert(done@.map_values(|s: String| s@) =~= before.push(cv));
        assert(binaries@.map_values(|s: String| s@).take(k + 1) =~= binaries@.map_values(
            |s: String| s@,
        ).take(k as int).push(cv));
        k = k + 1;
    }
    crate::text::push_str(&mut hint, ". The update is half-applied: ");
    crate::text::push_str(&mut hint, crate::text::join(&done, ", ").as_str());
    crate::text::push_str(&mut hint, " already updated");
    hint
}

} // verus!
