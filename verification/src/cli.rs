//! The command line's decisions: which sessions a project filter and an age
//! cutoff pick, how durations are read, and the text the commands print.

use vstd::prelude::*;
use crate::index::{activity_s, id_hits, ids_of, Index, SessionMeta};
use crate::num::{is_digit, parse_digits, parse_digits_s};
use crate::text::{chars_of, concat, contains_s, contains_str, lower_s, string_of_range, to_lowercase,
    trim, trim_s};

verus! {

/// The largest number of whole seconds a chrono `TimeDelta` holds either way
/// (its bounds are `i64::MAX` milliseconds).
pub const MAX_DELTA_SECS: i64 = 9_223_372_036_854_775;

/// A span of `secs` seconds fits a `TimeDelta`.
pub open spec fn delta_ok(secs: int) -> bool {
    -MAX_DELTA_SECS <= secs <= MAX_DELTA_SECS
}

/// A span of `n` times `unit` seconds, when it fits a `TimeDelta`.
pub open spec fn delta_of(n: int, unit: int) -> Option<int> {
    if delta_ok(n * unit) {
        Some(n * unit)
    } else {
        None
    }
}

/// `TimeDelta::try_minutes(n)`, in seconds: `None` when the span is out of
/// chrono's range (the multiplication is checked first).
#[verifier::external_body]
fn try_minutes(n: i64) -> (r: Option<i64>)
    ensures
        match r {
            Some(s) => delta_of(n as int, 60) == Some(s as int),
            None => delta_of(n as int, 60) is None,
        },
{
    chrono::TimeDelta::try_minutes(n).map(|d| d.num_seconds())
}

/// `TimeDelta::try_hours(n)`, in seconds: `None` when the span is out of
/// chrono's range.
#[verifier::external_body]
fn try_hours(n: i64) -> (r: Option<i64>)
    ensures
        match r {
            Some(s) => delta_of(n as int, 3600) == Some(s as int),
            None => delta_of(n as int, 3600) is None,
        },
{
    chrono::TimeDelta::try_hours(n).map(|d| d.num_seconds())
}

/// `TimeDelta::try_days(n)`, in seconds: `None` when the span is out of
/// chrono's range.
#[verifier::external_body]
fn try_days(n: i64) -> (r: Option<i64>)
    ensures
        match r {
            Some(s) => delta_of(n as int, 86400) == Some(s as int),
            None => delta_of(n as int, 86400) is None,
        },
{
    chrono::TimeDelta::try_days(n).map(|d| d.num_seconds())
}

/// `TimeDelta::try_weeks(n)`, in seconds: `None` when the span is out of
/// chrono's range.
#[verifier::external_body]
fn try_weeks(n: i64) -> (r: Option<i64>)
    ensures
        match r {
            Some(s) => delta_of(n as int, 604800) == Some(s as int),
            None => delta_of(n as int, 604800) is None,
        },
{
    chrono::TimeDelta::try_weeks(n).map(|d| d.num_seconds())
}

/// Where the leading run of ASCII digits of `s` ends.
pub open spec fn digits_end(s: Seq<char>) -> nat
    decreases s.len(),
{
    if s.len() == 0 {
        0
    } else if is_digit(s[0]) {
        1 + digits_end(s.drop_first())
    } else {
        0
    }
}

/// The seconds a unit stands for: `m`, `h`, `d` (also no unit at all), `w`.
pub open spec fn unit_secs(unit: Seq<char>) -> Option<int> {
    if unit == "m"@ {
        Some(60)
    } else if unit == "h"@ {
        Some(3600)
    } else if unit == "d"@ || unit == ""@ {
        Some(86400)
    } else if unit == "w"@ {
        Some(604800)
    } else {
        None
    }
}

/// A duration such as `30d`, `12h`, `2w` or `90m` (days when there is no
/// unit), in seconds, or why it is refused.
pub open spec fn parse_duration_s(spec: Seq<char>) -> Result<int, Seq<char>> {
    let t = trim_s(spec);
    let k = digits_end(t) as int;
    let num = t.subrange(0, k);
    let unit = t.subrange(k, t.len() as int);
    match parse_digits_s(num) {
        None => Err("bad duration '"@ + t + "', expected e.g. 30d"@),
        Some(n) => match unit_secs(unit) {
            None => Err("unknown duration unit '"@ + unit + "', use m/h/d/w"@),
            Some(u) => match delta_of(n, u) {
                Some(s) => Ok(s),
                None => Err("duration '"@ + t + "' is out of range"@),
            },
        },
    }
}

/// The leading digits end where the first non-digit is.
proof fn lemma_digits_end(s: Seq<char>, i: int)
    requires
        0 <= i <= s.len(),
        forall|k: int| 0 <= k < i ==> is_digit(#[trigger] s[k]),
        i == s.len() || !is_digit(s[i]),
    ensures
        digits_end(s) == i,
    decreases i,
{
    if i > 0 {
        assert forall|k: int| 0 <= k < i - 1 implies is_digit(#[trigger] s.drop_first()[k]) by {
            assert(s.drop_first()[k] == s[k + 1]);
        }
        lemma_digits_end(s.drop_first(), i - 1);
    }
}

/// `30d`, `12h`, `2w`, `90m`: a duration in seconds. The number must fit an
/// `i64` and the span chrono's `TimeDelta`.
pub fn parse_duration(spec: &str) -> (r: Result<i64, String>)
    ensures
        match r {
            Ok(s) => parse_duration_s(spec@) == Ok::<int, Seq<char>>(s as int),
            Err(e) => parse_duration_s(spec@) == Err::<int, Seq<char>>(e@),
        },
{
    let t = trim(spec);
    let v = chars_of(t.as_str());
    let mut k: usize = 0;
    while k < v.len() && '0' <= v[k] && v[k] <= '9'
        invariant
            k <= v@.len(),
            forall|j: int| 0 <= j < k ==> is_digit(#[trigger] v@[j]),
        decreases v@.len() - k,
    {
        k = k + 1;
    }
    proof {
        lemma_digits_end(v@, k as int);
    }
    let num: Vec<char> = crate::text::chars_of(string_of_range(&v, 0, k).as_str());
    assert(num@ =~= v@.subrange(0, k as int));
    let unit = string_of_range(&v, k, v.len());
    let n = match parse_digits(&num) {
        Some(n) => n,
        None => {
            let a = concat("bad duration '", t.as_str());
            return Err(concat(a.as_str(), "', expected e.g. 30d"));
        },
    };
    let u = unit.as_str();
    let d = if crate::text::str_eq(u, "m") {
        try_minutes(n)
    } else if crate::text::str_eq(u, "h") {
        try_hours(n)
    } else if crate::text::str_eq(u, "d") || crate::text::str_eq(u, "") {
        try_days(n)
    } else if crate::text::str_eq(u, "w") {
        try_weeks(n)
    } else {
        let a = concat("unknown duration unit '", u);
        return Err(concat(a.as_str(), "', use m/h/d/w"));
    };
    match d {
        Some(s) => Ok(s),
        None => {
            let a = concat("duration '", t.as_str());
            Err(concat(a.as_str(), "' is out of range"))
        },
    }
}

/// ASCII letters folded to lower case; everything else as it is.
pub open spec fn ascii_lower(c: char) -> char {
    if 'A' <= c && c <= 'Z' {
        ((c as u32) + 32) as char
    } else {
        c
    }
}

/// `str::eq_ignore_ascii_case`.
pub open spec fn eq_ignore_ascii_case_s(a: Seq<char>, b: Seq<char>) -> bool {
    a.len() == b.len() && forall|i: int| 0 <= i < a.len() ==> ascii_lower(#[trigger] a[i])
        == ascii_lower(b[i])
}

/// The two strings are equal once ASCII letters are folded to lower case.
pub fn eq_ignore_ascii_case(a: &str, b: &str) -> (r: bool)
    ensures
        r == eq_ignore_ascii_case_s(a@, b@),
{
    let x = chars_of(a);
    let y = chars_of(b);
    if x.len() != y.len() {
        return false;
    }
    let mut i: usize = 0;
    while i < x.len()
        invariant
            i <= x@.len(),
            x@.len() == y@.len(),
            x@ == a@,
            y@ == b@,
            forall|j: int| 0 <= j < i ==> ascii_lower(#[trigger] x@[j]) == ascii_lower(y@[j]),
        decreases x@.len() - i,
    {
        let c = x[i];
        let d = y[i];
        let lc = if 'A' <= c && c <= 'Z' {
            ((c as u32) + 32) as u32
        } else {
            c as u32
        };
        let ld = if 'A' <= d && d <= 'Z' {
            ((d as u32) + 32) as u32
        } else {
            d as u32
        };
        if lc != ld {
            assert(ascii_lower(x@[i as int]) as u32 == lc);
            assert(ascii_lower(y@[i as int]) as u32 == ld);
            return false;
        }
        assert(ascii_lower(x@[i as int]) == ascii_lower(y@[i as int])) by {
            assert(ascii_lower(x@[i as int]) as u32 == lc);
            assert(ascii_lower(y@[i as int]) as u32 == ld);
        }
        i = i + 1;
    }
    true
}

/// `m` belongs to `project`: any session when there is none or it is `all`
/// (in any case), else one whose slug or recorded `cwd` contains it,
/// case-insensitively.
pub open spec fn matches_project_s(m: SessionMeta, project: Option<Seq<char>>) -> bool {
    match project {
        None => true,
        Some(p) => eq_ignore_ascii_case_s(p, "all"@) || contains_s(
            lower_s(m.project_slug@),
            lower_s(p),
        ) || (m.cwd matches Some(c) && contains_s(lower_s(c@), lower_s(p))),
    }
}

/// Whether `s` belongs to the project named on the command line.
pub fn matches_project(s: &SessionMeta, project: Option<&str>) -> (r: bool)
    ensures
        r == matches_project_s(
            *s,
            match project {
                Some(p) => Some(p@),
                None => None,
            },
        ),
{
    match project {
        None => true,
        Some(p) => {
            if eq_ignore_ascii_case(p, "all") {
                return true;
            }
            let needle = to_lowercase(p);
            let slug = to_lowercase(s.project_slug.as_str());
            if contains_str(slug.as_str(), needle.as_str()) {
                return true;
            }
            match &s.cwd {
                Some(c) => {
                    let lc = to_lowercase(c.as_str());
                    contains_str(lc.as_str(), needle.as_str())
                },
                None => false,
            }
        },
    }
}

/// The explicit ids resolved in order, each session taken once; the first id
/// that does not name exactly one session stops the lot.
pub open spec fn pick_ids(sessions: Seq<SessionMeta>, ids: Seq<Seq<char>>) -> Result<
    Seq<SessionMeta>,
    Seq<char>,
>
    decreases ids.len(),
{
    if ids.len() == 0 {
        Ok(Seq::empty())
    } else {
        match pick_ids(sessions, ids.drop_last()) {
            Err(e) => Err(e),
            Ok(t) => {
                let needle = ids.last();
                let hits = id_hits(sessions, needle);
                if needle.len() > 0 && hits.len() == 1 {
                    if ids_of(t).contains(hits[0].id@) {
                        Ok(t)
                    } else {
                        Ok(t.push(hits[0]))
                    }
                } else {
                    Err(crate::index::find_error_s(needle, hits))
                }
            },
        }
    }
}

/// `t` followed by every session of `sessions` idle since before `cutoff` in
/// `project` that `t` does not hold yet, in index order.
pub open spec fn sweep(
    sessions: Seq<SessionMeta>,
    t: Seq<SessionMeta>,
    cutoff: int,
    project: Option<Seq<char>>,
) -> Seq<SessionMeta>
    decreases sessions.len(),
{
    if sessions.len() == 0 {
        t
    } else {
        let prev = sweep(sessions.drop_last(), t, cutoff, project);
        let s = sessions.last();
        if activity_s(s) < cutoff && matches_project_s(s, project) && !ids_of(prev).contains(s.id@) {
            prev.push(s)
        } else {
            prev
        }
    }
}

/// The first instant chrono can represent, in nanoseconds.
pub open spec fn min_instant() -> int {
    crate::time::MIN_UTC_MILLIS as int * 1_000_000
}

/// The last instant chrono can represent, in nanoseconds.
pub open spec fn max_instant() -> int {
    crate::time::MAX_UTC_MILLIS as int * 1_000_000 + 999_999
}

/// The sessions a delete acts on: every explicit id or prefix, then, with an
/// age given, everything idle since `now` less that age (in `project`), each
/// session once. Neither ids nor an age is an error.
pub open spec fn select_s(
    sessions: Seq<SessionMeta>,
    ids: Seq<Seq<char>>,
    older_than: Option<Seq<char>>,
    project: Option<Seq<char>>,
    now: int,
) -> Result<Seq<SessionMeta>, Seq<char>> {
    match pick_ids(sessions, ids) {
        Err(e) => Err(e),
        Ok(t) => match older_than {
            Some(spec) => match parse_duration_s(spec) {
                Err(e) => Err(e),
                Ok(d) => Ok(sweep(sessions, t, now - d * 1_000_000_000, project)),
            },
            None => if ids.len() == 0 {
                Err("give session ids, or --older-than to select by age"@)
            } else {
                Ok(t)
            },
        },
    }
}

/// The cutoff an age gives is an instant chrono can represent.
pub open spec fn cutoff_ok(older_than: Option<Seq<char>>, now: int) -> bool {
    match older_than {
        Some(spec) => match parse_duration_s(spec) {
            Ok(d) => min_instant() <= now - d * 1_000_000_000 <= max_instant(),
            Err(_) => true,
        },
        None => true,
    }
}

/// Whether the cutoff `older_than` gives at `now` is an instant chrono can
/// represent (the test `select` asks its callers to make).
pub fn cutoff_fits(older_than: Option<&str>, now: i128) -> (r: bool)
    requires
        min_instant() <= now <= max_instant(),
    ensures
        r == cutoff_ok(
            match older_than {
                Some(s) => Some(s@),
                None => None,
            },
            now as int,
        ),
{
    match older_than {
        Some(spec) => match parse_duration(spec) {
            Ok(d) => {
                let cutoff = now - d as i128 * 1_000_000_000;
                let lo = crate::time::MIN_UTC_MILLIS as i128 * 1_000_000;
                let hi = crate::time::MAX_UTC_MILLIS as i128 * 1_000_000 + 999_999;
                lo <= cutoff && cutoff <= hi
            },
            Err(_) => true,
        },
        None => true,
    }
}

/// The views of a list of strings.
pub open spec fn strs_v(v: Seq<String>) -> Seq<Seq<char>> {
    v.map_values(|s: String| s@)
}

/// Whether a session with this id is among `t`.
fn holds_id(t: &Vec<SessionMeta>, id: &str) -> (r: bool)
    ensures
        r == ids_of(t@).contains(id@),
{
    let mut i: usize = 0;
    while i < t.len()
        invariant
            i <= t@.len(),
            forall|j: int| 0 <= j < i ==> t@[j].id@ != id@,
        decreases t@.len() - i,
    {
        if crate::text::str_eq(t[i].id.as_str(), id) {
            assert(ids_of(t@)[i as int] == id@);
            return true;
        }
        i = i + 1;
    }
    proof {
        if ids_of(t@).contains(id@) {
            let j = choose|j: int| 0 <= j < ids_of(t@).len() && ids_of(t@)[j] == id@;
            assert(t@[j].id@ == id@);
        }
    }
    false
}

/// The sessions `delete` would act on: every explicit id or prefix, plus
/// everything idle since `now` (nanoseconds since the epoch) less
/// `older_than`, each session only once.
pub fn select(
    index: &Index,
    ids: &[String],
    older_than: Option<&str>,
    project: Option<&str>,
    now: i128,
) -> (r: Result<Vec<SessionMeta>, String>)
    requires
        min_instant() <= now <= max_instant(),
        cutoff_ok(
            match older_than {
                Some(s) => Some(s@),
                None => None,
            },
            now as int,
        ),
    ensures
        match r {
            Ok(t) => select_s(
                index.sessions@,
                strs_v(ids@),
                match older_than {
                    Some(s) => Some(s@),
                    None => None,
                },
                match project {
                    Some(p) => Some(p@),
                    None => None,
                },
                now as int,
            ) == Ok::<Seq<SessionMeta>, Seq<char>>(t@),
            Err(e) => select_s(
                index.sessions@,
                strs_v(ids@),
                match older_than {
                    Some(s) => Some(s@),
                    None => None,
                },
                match project {
                    Some(p) => Some(p@),
                    None => None,
                },
                now as int,
            ) == Err::<Seq<SessionMeta>, Seq<char>>(e@),
        },
{
    let ghost iv = strs_v(ids@);
    let ghost sessions = index.sessions@;
    let mut targets: Vec<SessionMeta> = Vec::new();
    let mut i: usize = 0;
    assert(iv.take(0) =~= Seq::<Seq<char>>::empty());
    while i < ids.len()
        invariant
            i <= ids@.len(),
            iv == strs_v(ids@),
            sessions == index.sessions@,
            pick_ids(sessions, iv.take(i as int)) == Ok::<Seq<SessionMeta>, Seq<char>>(targets@),
        decreases ids@.len() - i,
    {
        assert(iv.take(i + 1).drop_last() =~= iv.take(i as int));
        assert(iv.take(i + 1).last() == ids@[i as int]@);
        match index.find(ids[i].as_str()) {
            Ok(m) => {
                if !holds_id(&targets, m.id.as_str()) {
                    targets.push(m.copy());
                }
            },
            Err(e) => {
                proof {
                    let j = i as int;
                    assert(pick_ids(sessions, iv.take(j + 1)) == Err::<Seq<SessionMeta>, Seq<char>>(
                        e@,
                    ));
                    lemma_pick_ids_err(sessions, iv, j + 1);
                }
                return Err(e);
            },
        }
        i = i + 1;
    }
    assert(iv.take(ids@.len() as int) =~= iv);
    match older_than {
        Some(spec) => {
            let d = match parse_duration(spec) {
                Ok(d) => d,
                Err(e) => return Err(e),
            };
            let cutoff = now - (d as i128) * 1_000_000_000;
            let ghost t0 = targets@;
            let mut k: usize = 0;
            assert(sessions.take(0) =~= Seq::<SessionMeta>::empty());
            while k < index.sessions.len()
                invariant
                    k <= sessions.len(),
                    sessions == index.sessions@,
                    targets@ == sweep(
                        sessions.take(k as int),
                        t0,
                        cutoff as int,
                        match project {
                            Some(p) => Some(p@),
                            None => None,
                        },
                    ),
                decreases sessions.len() - k,
            {
                let s = &index.sessions[k];
                assert(sessions.take(k + 1).drop_last() =~= sessions.take(k as int));
                assert(sessions.take(k + 1).last() == *s);
                if s.activity() < cutoff && matches_project(s, project) && !holds_id(
                    &targets,
                    s.id.as_str(),
                ) {
                    targets.push(s.copy());
                }
                k = k + 1;
            }
            assert(sessions.take(sessions.len() as int) =~= sessions);
            Ok(targets)
        },
        None => {
            if ids.len() == 0 {
                Err(crate::text::owned("give session ids, or --older-than to select by age"))
            } else {
                Ok(targets)
            }
        },
    }
}

/// Once the ids up to `k` fail, every longer run of them fails the same way.
proof fn lemma_pick_ids_err(sessions: Seq<SessionMeta>, ids: Seq<Seq<char>>, k: int)
    requires
        0 <= k <= ids.len(),
        pick_ids(sessions, ids.take(k)) is Err,
    ensures
        pick_ids(sessions, ids) == pick_ids(sessions, ids.take(k)),
    decreases ids.len() - k,
{
    if k < ids.len() {
        assert(ids.take(k + 1).drop_last() =~= ids.take(k));
        lemma_pick_ids_err(sessions, ids, k + 1);
    } else {
        assert(ids.take(k) =~= ids);
    }
}

/// No two sessions of `t` share an id.
pub open spec fn ids_distinct(t: Seq<SessionMeta>) -> bool {
    forall|i: int, j: int| 0 <= i < j < t.len() ==> t[i].id@ != t[j].id@
}

/// Taking a session whose id is not there keeps the ids distinct.
proof fn lemma_push_new_id(t: Seq<SessionMeta>, s: SessionMeta)
    requires
        ids_distinct(t),
        !ids_of(t).contains(s.id@),
    ensures
        ids_distinct(t.push(s)),
{
    assert forall|i: int, j: int| 0 <= i < j < t.push(s).len() implies t.push(s)[i].id@ != t.push(s)[j].id@ by {
        if j == t.len() {
            assert(ids_of(t)[i] == t[i].id@);
        }
    }
}

/// Resolving ids takes each session once.
proof fn lemma_pick_ids_distinct(sessions: Seq<SessionMeta>, ids: Seq<Seq<char>>)
    ensures
        pick_ids(sessions, ids) matches Ok(t) ==> ids_distinct(t),
    decreases ids.len(),
{
    if ids.len() > 0 {
        lemma_pick_ids_distinct(sessions, ids.drop_last());
        if let Ok(t) = pick_ids(sessions, ids.drop_last()) {
            let hits = id_hits(sessions, ids.last());
            if ids.last().len() > 0 && hits.len() == 1 && !ids_of(t).contains(hits[0].id@) {
                lemma_push_new_id(t, hits[0]);
            }
        }
    }
}

/// The age sweep takes each session once.
proof fn lemma_sweep_distinct(
    sessions: Seq<SessionMeta>,
    t: Seq<SessionMeta>,
    cutoff: int,
    project: Option<Seq<char>>,
)
    requires
        ids_distinct(t),
    ensures
        ids_distinct(sweep(sessions, t, cutoff, project)),
    decreases sessions.len(),
{
    if sessions.len() > 0 {
        lemma_sweep_distinct(sessions.drop_last(), t, cutoff, project);
        let prev = sweep(sessions.drop_last(), t, cutoff, project);
        let s = sessions.last();
        if activity_s(s) < cutoff && matches_project_s(s, project) && !ids_of(prev).contains(s.id@) {
            lemma_push_new_id(prev, s);
        }
    }
}

/// A delete acts on each session at most once, however the ids and the age
/// cutoff overlap.
pub proof fn selection_takes_each_session_once(
    sessions: Seq<SessionMeta>,
    ids: Seq<Seq<char>>,
    older_than: Option<Seq<char>>,
    project: Option<Seq<char>>,
    now: int,
)
    ensures
        select_s(sessions, ids, older_than, project, now) matches Ok(t) ==> ids_distinct(t),
{
    lemma_pick_ids_distinct(sessions, ids);
    if let Ok(t) = pick_ids(sessions, ids) {
        if let Some(spec) = older_than {
            if let Ok(d) = parse_duration_s(spec) {
                lemma_sweep_distinct(sessions, t, now - d * 1_000_000_000, project);
            }
        }
    }
}

/// Everything the age sweep adds beyond the explicit ids was idle since
/// before the cutoff and belongs to the project.
pub proof fn swept_sessions_are_idle_and_in_project(
    sessions: Seq<SessionMeta>,
    t: Seq<SessionMeta>,
    cutoff: int,
    project: Option<Seq<char>>,
)
    ensures
        sweep(sessions, t, cutoff, project).len() >= t.len(),
        forall|i: int|
            0 <= i < t.len() ==> #[trigger] sweep(sessions, t, cutoff, project)[i] == t[i],
        forall|i: int|
            t.len() <= i < sweep(sessions, t, cutoff, project).len() ==> activity_s(
                #[trigger] sweep(sessions, t, cutoff, project)[i],
            ) < cutoff && matches_project_s(sweep(sessions, t, cutoff, project)[i], project),
    decreases sessions.len(),
{
    if sessions.len() > 0 {
        swept_sessions_are_idle_and_in_project(sessions.drop_last(), t, cutoff, project);
    }
}

} // verus!
