//! The session index: per-session metadata, orderings, project summaries,
//! and lookups by id.

use vstd::prelude::*;
use crate::num::{dec_s, dec_u64};
use crate::text::{concat, contains_s, copy_opt, lower_s, short_id, short_id_s, starts_with_s,
    starts_with_str, contains_str, str_eq, to_lowercase};
use crate::time::{millis_instant, millis_to_nanos, NANOS_PER_SEC};

verus! {

/// A session that is younger than this is probably still being written to.
pub const RECENT_SECS: i64 = 300;

/// What the index knows about one session. Instants are nanoseconds since
/// the Unix epoch, UTC.
#[derive(Debug, Clone, PartialEq, Eq)]
pub struct SessionMeta {
    pub id: String,
    pub path: String,
    pub project_slug: String,
    pub size_bytes: u64,
    pub modified_ms: i64,
    pub first_ts: Option<i128>,
    pub last_ts: Option<i128>,
    pub title: String,
    pub cwd: Option<String>,
    pub git_branch: Option<String>,
    pub user_msgs: u32,
    pub assistant_msgs: u32,
    pub tool_calls: u32,
}

/// The file's modification time as an instant; one outside chrono's range
/// counts as the epoch.
pub open spec fn mtime_s(m: SessionMeta) -> int {
    match millis_instant(m.modified_ms) {
        Some(n) => n,
        None => 0,
    }
}

/// Last real activity: the newest record timestamp, else the file mtime.
pub open spec fn activity_s(m: SessionMeta) -> int {
    match m.last_ts {
        Some(t) => t as int,
        None => mtime_s(m),
    }
}

/// The session was touched (a record or the file) less than
/// [`RECENT_SECS`] before `now`.
pub open spec fn is_recent_s(m: SessionMeta, now: int) -> bool {
    let touched = if activity_s(m) >= mtime_s(m) {
        activity_s(m)
    } else {
        mtime_s(m)
    };
    now - touched < RECENT_SECS as int * 1_000_000_000
}

/// The recorded working directory, else the project slug.
pub open spec fn location_s(m: SessionMeta) -> Seq<char> {
    match m.cwd {
        Some(c) => c@,
        None => m.project_slug@,
    }
}

impl SessionMeta {
    /// A field-by-field copy.
    pub fn copy(&self) -> (r: SessionMeta)
        ensures
            r == *self,
    {
        SessionMeta {
            id: self.id.clone(),
            path: self.path.clone(),
            project_slug: self.project_slug.clone(),
            size_bytes: self.size_bytes,
            modified_ms: self.modified_ms,
            first_ts: self.first_ts,
            last_ts: self.last_ts,
            title: self.title.clone(),
            cwd: copy_opt(&self.cwd),
            git_branch: copy_opt(&self.git_branch),
            user_msgs: self.user_msgs,
            assistant_msgs: self.assistant_msgs,
            tool_calls: self.tool_calls,
        }
    }

    /// First 8 characters of the id.
    pub fn short_id(&self) -> (r: String)
        ensures
            r@ == short_id_s(self.id@),
    {
        short_id(self.id.as_str())
    }

    /// The file's modification time, or the epoch when chrono cannot
    /// represent it.
    pub fn mtime(&self) -> (r: i128)
        ensures
            r == mtime_s(*self),
    {
        match millis_to_nanos(self.modified_ms) {
            Some(n) => n,
            None => 0,
        }
    }

    /// Last real activity: the newest record timestamp, else the file mtime.
    /// An mtime outside chrono's range (a bad clock, a mangled archive) sorts
    /// to the epoch rather than taking the whole index down with it.
    pub fn activity(&self) -> (r: i128)
        ensures
            r == activity_s(*self),
    {
        match self.last_ts {
            Some(t) => t,
            None => self.mtime(),
        }
    }

    /// Likely a live session someone is using right now. The file mtime counts
    /// as well as the last record timestamp: a session whose tail records
    /// carry no `timestamp` is still being written to.
    pub fn is_recent(&self, now: i128) -> (r: bool)
        requires
            -0x1_0000_0000_0000_0000_0000_0000_0000 <= now <= 0x1_0000_0000_0000_0000_0000_0000_0000,
            self.last_ts matches Some(t) ==> -0x1_0000_0000_0000_0000_0000_0000_0000 <= t
                <= 0x1_0000_0000_0000_0000_0000_0000_0000,
        ensures
            r == is_recent_s(*self, now as int),
    {
        let mtime = self.mtime();
        let act = self.activity();
        let touched = if act >= mtime {
            act
        } else {
            mtime
        };
        now - touched < (RECENT_SECS as i128) * NANOS_PER_SEC
    }

    /// Slugification maps every separator to `-`, so it cannot be reversed:
    /// with no recorded `cwd` the slug is shown as-is rather than inventing a
    /// path that looks real but isn't.
    pub fn location(&self) -> (r: String)
        ensures
            r@ == location_s(*self),
    {
        match &self.cwd {
            Some(c) => c.clone(),
            None => self.project_slug.clone(),
        }
    }
}

/// Session orderings; every one is descending.
#[derive(Debug, Clone, Copy, PartialEq, Eq)]
pub enum Sort {
    Date,
    Size,
    Msgs,
}

/// The key `sort` orders sessions by (largest first).
pub open spec fn sort_key(sort: Sort, m: SessionMeta) -> int {
    match sort {
        Sort::Date => activity_s(m),
        Sort::Size => m.size_bytes as int,
        Sort::Msgs => m.user_msgs as int + m.assistant_msgs as int,
    }
}

/// The message count of every session fits the counters it is kept in.
pub open spec fn msgs_fit(list: Seq<SessionMeta>) -> bool {
    forall|i: int| 0 <= i < list.len() ==> #[trigger] list[i].user_msgs as int + list[i].assistant_msgs
        as int <= u32::MAX as int
}

/// `p` lists each index below `n` exactly once.
pub open spec fn is_permutation(p: Seq<int>, n: nat) -> bool {
    &&& p.len() == n
    &&& forall|i: int| 0 <= i < n ==> 0 <= #[trigger] p[i] < n
    &&& forall|i: int, j: int| 0 <= i < j < n ==> p[i] != p[j]
}

/// `out` is `input` reordered by `p`, largest key first, with equal keys in
/// their original order.
pub open spec fn stable_sorted_by(
    sort: Sort,
    input: Seq<SessionMeta>,
    out: Seq<SessionMeta>,
    p: Seq<int>,
) -> bool {
    &&& is_permutation(p, input.len())
    &&& out.len() == input.len()
    &&& forall|i: int| 0 <= i < out.len() ==> out[i] == input[#[trigger] p[i]]
    &&& forall|i: int, j: int|
        0 <= i < j < out.len() ==> sort_key(sort, #[trigger] out[i]) > sort_key(sort, #[trigger] out[j])
            || (sort_key(sort, out[i]) == sort_key(sort, out[j]) && p[i] < p[j])
}

/// The result of sorting `input` by `sort`: stable and descending.
pub open spec fn is_sorted_result(sort: Sort, input: Seq<SessionMeta>, out: Seq<SessionMeta>) -> bool {
    exists|p: Seq<int>| stable_sorted_by(sort, input, out, p)
}

impl Sort {
    /// The ordering after this one, cycling.
    pub fn next(self) -> (r: Sort)
        ensures
            r == (match self {
                Sort::Date => Sort::Size,
                Sort::Size => Sort::Msgs,
                Sort::Msgs => Sort::Date,
            }),
    {
        match self {
            Sort::Date => Sort::Size,
            Sort::Size => Sort::Msgs,
            Sort::Msgs => Sort::Date,
        }
    }

    /// A short name for status lines.
    pub fn label(self) -> (r: &'static str)
        ensures
            r@ == (match self {
                Sort::Date => "date"@,
                Sort::Size => "size"@,
                Sort::Msgs => "msgs"@,
            }),
    {
        match self {
            Sort::Date => "date",
            Sort::Size => "size",
            Sort::Msgs => "msgs",
        }
    }

    /// The key of `m` under this ordering.
    pub fn key(self, m: &SessionMeta) -> (r: i128)
        requires
            self == Sort::Msgs ==> m.user_msgs as int + m.assistant_msgs as int <= u32::MAX,
        ensures
            r == sort_key(self, *m),
    {
        match self {
            Sort::Date => m.activity(),
            Sort::Size => m.size_bytes as i128,
            Sort::Msgs => (m.user_msgs + m.assistant_msgs) as i128,
        }
    }

    /// Sort `list` by this ordering, largest first. Stable: sessions with
    /// equal keys keep their relative order.
    pub fn apply(self, list: &mut Vec<SessionMeta>)
        requires
            self == Sort::Msgs ==> msgs_fit(old(list)@),
        ensures
            is_sorted_result(self, old(list)@, final(list)@),
    {
        let ghost input = old(list)@;
        let mut items: Vec<SessionMeta> = Vec::new();
        std::mem::swap(list, &mut items);
        let n = items.len();
        let mut out: Vec<SessionMeta> = Vec::new();
        let ghost mut p: Seq<int> = Seq::empty();
        while items.len() > 0
            invariant
                items@ == input.subrange(0, items@.len() as int),
                n == input.len(),
                out@.len() + items@.len() == n,
                p.len() == out@.len(),
                self == Sort::Msgs ==> msgs_fit(input),
                forall|i: int| 0 <= i < p.len() ==> items@.len() <= #[trigger] p[i] < n,
                forall|i: int, j: int| 0 <= i < j < p.len() ==> p[i] != p[j],
                forall|i: int| 0 <= i < out@.len() ==> out@[i] == input[#[trigger] p[i]],
                forall|i: int, j: int|
                    0 <= i < j < out@.len() ==> sort_key(self, #[trigger] out@[i]) > sort_key(
                        self,
                        #[trigger] out@[j],
                    ) || (sort_key(self, out@[i]) == sort_key(self, out@[j]) && p[i] < p[j]),
            decreases items@.len(),
        {
            let x = items.pop().unwrap();
            let k = items.len();
            assert(x == input[k as int]);
            assert(self == Sort::Msgs ==> x.user_msgs as int + x.assistant_msgs as int <= u32::MAX);
            let kx = self.key(&x);
            let mut pos: usize = 0;
            while pos < out.len()
                invariant
                    pos <= out@.len(),
                    p.len() == out@.len(),
                    n == input.len(),
                    kx == sort_key(self, x),
                    self == Sort::Msgs ==> msgs_fit(input),
                    forall|i: int| 0 <= i < out@.len() ==> out@[i] == input[#[trigger] p[i]],
                    forall|i: int| 0 <= i < p.len() ==> k < #[trigger] p[i] < n,
                    forall|i: int| 0 <= i < pos ==> sort_key(self, #[trigger] out@[i]) > kx,
                ensures
                    pos <= out@.len(),
                    forall|i: int| 0 <= i < pos ==> sort_key(self, #[trigger] out@[i]) > kx,
                    pos < out@.len() ==> sort_key(self, out@[pos as int]) <= kx,
                decreases out@.len() - pos,
            {
                let ghost q = p[pos as int];
                assert(input[q] == out@[pos as int]);
                assert(0 <= q < input.len());
                assert(self == Sort::Msgs ==> input[q].user_msgs as int + input[q].assistant_msgs as int
                    <= u32::MAX);
                if self.key(&out[pos]) > kx {
                    pos = pos + 1;
                } else {
                    break ;
                }
            }
            let ghost old_out = out@;
            let ghost old_p = p;
            out.insert(pos, x);
            proof {
                p = old_p.insert(pos as int, k as int);
                assert forall|j: int| pos <= j < old_out.len() implies sort_key(
                    self,
                    #[trigger] old_out[j],
                ) <= kx by {
                    if pos < old_out.len() {
                        assert(sort_key(self, old_out[pos as int]) <= kx);
                        if j > pos {
                            assert(sort_key(self, old_out[pos as int]) >= sort_key(
                                self,
                                old_out[j],
                            ));
                        }
                    }
                }
                assert forall|i: int, j: int| 0 <= i < j < out@.len() implies sort_key(
                    self,
                    #[trigger] out@[i],
                ) > sort_key(self, #[trigger] out@[j]) || (sort_key(self, out@[i]) == sort_key(
                    self,
                    out@[j],
                ) && p[i] < p[j]) by {
                    if i < pos && j < pos {
                    } else if i < pos && j == pos {
                    } else if i < pos {
                        assert(out@[j] == old_out[j - 1]);
                    } else if i == pos {
                        assert(out@[j] == old_out[j - 1]);
                        assert(p[j] == old_p[j - 1]);
                    } else {
                        assert(out@[i] == old_out[i - 1]);
                        assert(out@[j] == old_out[j - 1]);
                    }
                }
                assert forall|i: int| 0 <= i < out@.len() implies out@[i] == input[#[trigger] p[i]] by {
                    if i < pos {
                    } else if i == pos {
                    } else {
                        assert(out@[i] == old_out[i - 1]);
                    }
                }
                assert forall|i: int, j: int| 0 <= i < j < p.len() implies p[i] != p[j] by {
                    if i < pos && j < pos {
                    } else if j == pos || i == pos {
                    } else if i < pos {
                        assert(p[j] == old_p[j - 1]);
                    } else {
                        assert(p[j] == old_p[j - 1]);
                        assert(p[i] == old_p[i - 1]);
                    }
                }
                assert forall|i: int| 0 <= i < p.len() implies items@.len() <= #[trigger] p[i] < n by {
                    if i < pos {
                    } else if i == pos {
                    } else {
                        assert(p[i] == old_p[i - 1]);
                    }
                }
                assert(items@ =~= input.subrange(0, items@.len() as int));
            }
        }
        *list = out;
        assert(stable_sorted_by(self, input, list@, p));
    }
}

/// One project directory, summarised.
#[derive(Debug, Clone, PartialEq, Eq)]
pub struct Project {
    pub slug: String,
    /// The first recorded `cwd`, else the slug (see `SessionMeta::location`).
    pub label: String,
    pub count: usize,
    pub bytes: u64,
}

/// A project row as plain values: slug, label, count, bytes.
pub type ProjectV = (Seq<char>, Seq<char>, nat, nat);

/// The view of a project row.
pub open spec fn project_v(p: Project) -> ProjectV {
    (p.slug@, p.label@, p.count as nat, p.bytes as nat)
}

/// Position of the row for `slug`, if any.
pub open spec fn row_of(rows: Seq<ProjectV>, slug: Seq<char>) -> Option<int>
    decreases rows.len(),
{
    if rows.len() == 0 {
        None
    } else if rows.last().0 == slug {
        Some(rows.len() - 1)
    } else {
        row_of(rows.drop_last(), slug)
    }
}

/// Rows for `sessions` in the order each slug is first seen, before blank
/// labels fall back to the slug. A row's label is the first `cwd` recorded
/// by any of its sessions.
pub open spec fn project_rows(sessions: Seq<SessionMeta>) -> Seq<ProjectV>
    decreases sessions.len(),
{
    if sessions.len() == 0 {
        Seq::empty()
    } else {
        let rows = project_rows(sessions.drop_last());
        let s = sessions.last();
        let cwd = match s.cwd {
            Some(c) => c@,
            None => Seq::empty(),
        };
        match row_of(rows, s.project_slug@) {
            Some(i) => {
                let r = rows[i];
                rows.update(i, (r.0, if r.1.len() == 0 { cwd } else { r.1 }, r.2 + 1, r.3 + s.size_bytes as nat))
            },
            None => rows.push((s.project_slug@, cwd, 1, s.size_bytes as nat)),
        }
    }
}

/// A row whose label is still blank shows its slug.
pub open spec fn with_fallback_label(r: ProjectV) -> ProjectV {
    if r.1.len() == 0 {
        (r.0, r.0, r.2, r.3)
    } else {
        r
    }
}

/// Projects of `sessions`, in the order each slug is first seen.
pub open spec fn projects_s(sessions: Seq<SessionMeta>) -> Seq<ProjectV> {
    project_rows(sessions).map_values(|r: ProjectV| with_fallback_label(r))
}

/// The total size of `sessions`.
pub open spec fn total_bytes(sessions: Seq<SessionMeta>) -> nat
    decreases sessions.len(),
{
    if sessions.len() == 0 {
        0
    } else {
        total_bytes(sessions.drop_last()) + sessions.last().size_bytes as nat
    }
}

/// Every row's figures are bounded by the whole list's.
#[verifier::spinoff_prover]
proof fn lemma_rows_bounded(sessions: Seq<SessionMeta>)
    ensures
        forall|i: int| 0 <= i < project_rows(sessions).len() ==> #[trigger] project_rows(sessions)[i].2
            <= sessions.len() && project_rows(sessions)[i].3 <= total_bytes(sessions),
        forall|i: int| 0 <= i < project_rows(sessions).len() ==> row_of(
            project_rows(sessions),
            #[trigger] project_rows(sessions)[i].0,
        ) == Some(i),
        project_rows(sessions).len() <= sessions.len(),
    decreases sessions.len(),
{
    if sessions.len() > 0 {
        lemma_rows_bounded(sessions.drop_last());
        let rows = project_rows(sessions.drop_last());
        let s = sessions.last();
        lemma_row_of(rows, s.project_slug@);
        let new_rows = project_rows(sessions);
        assert(total_bytes(sessions) == total_bytes(sessions.drop_last()) + s.size_bytes);
        assert forall|i: int| 0 <= i < new_rows.len() implies #[trigger] new_rows[i].2 <= sessions.len()
            && new_rows[i].3 <= total_bytes(sessions) by {
            match row_of(rows, s.project_slug@) {
                Some(k) => {
                    if i != k {
                        assert(new_rows[i] == rows[i]);
                    }
                },
                None => {
                    if i < rows.len() {
                        assert(new_rows[i] == rows[i]);
                    }
                },
            }
        }
        assert forall|i: int| 0 <= i < new_rows.len() implies row_of(
            new_rows,
            #[trigger] new_rows[i].0,
        ) == Some(i) by {
            lemma_row_of_unique(rows, new_rows, s.project_slug@, i);
        }
    }
}

/// `row_of` finds the last row with the slug.
proof fn lemma_row_of(rows: Seq<ProjectV>, slug: Seq<char>)
    ensures
        match row_of(rows, slug) {
            Some(i) => 0 <= i < rows.len() && rows[i].0 == slug,
            None => forall|j: int| 0 <= j < rows.len() ==> rows[j].0 != slug,
        },
    decreases rows.len(),
{
    if rows.len() > 0 && rows.last().0 != slug {
        lemma_row_of(rows.drop_last(), slug);
        assert forall|j: int| 0 <= j < rows.len() - 1 implies rows.drop_last()[j] == rows[j] by {}
    }
}

/// Adding a session keeps every row findable at its own position.
proof fn lemma_row_of_unique(rows: Seq<ProjectV>, new_rows: Seq<ProjectV>, slug: Seq<char>, i: int)
    requires
        forall|k: int| 0 <= k < rows.len() ==> row_of(rows, #[trigger] rows[k].0) == Some(k),
        new_rows.len() >= rows.len(),
        new_rows.len() <= rows.len() + 1,
        forall|k: int| 0 <= k < rows.len() ==> #[trigger] new_rows[k].0 == rows[k].0,
        new_rows.len() == rows.len() + 1 ==> new_rows.last().0 == slug && row_of(rows, slug) is None,
        0 <= i < new_rows.len(),
    ensures
        row_of(new_rows, new_rows[i].0) == Some(i),
{
    lemma_row_of_prefix(rows, new_rows, new_rows[i].0);
    if new_rows.len() == rows.len() + 1 && i < rows.len() {
        lemma_row_of(rows, slug);
        assert(rows[i].0 != slug) by {
            assert(row_of(rows, rows[i].0) == Some(i));
        }
    }
}

/// `row_of` depends only on the slugs of the rows.
proof fn lemma_row_of_prefix(rows: Seq<ProjectV>, new_rows: Seq<ProjectV>, slug: Seq<char>)
    requires
        new_rows.len() >= rows.len(),
        forall|k: int| 0 <= k < rows.len() ==> #[trigger] new_rows[k].0 == rows[k].0,
    ensures
        new_rows.len() == rows.len() ==> row_of(new_rows, slug) == row_of(rows, slug),
        new_rows.len() == rows.len() + 1 ==> row_of(new_rows, slug) == if new_rows.last().0 == slug {
            Some(rows.len() as int)
        } else {
            row_of(rows, slug)
        },
    decreases new_rows.len(),
{
    if new_rows.len() == rows.len() + 1 {
        if new_rows.last().0 != slug {
            lemma_row_of_prefix(rows, new_rows.drop_last(), slug);
        }
    } else if new_rows.len() == rows.len() && rows.len() > 0 {
        lemma_row_of_prefix(rows.drop_last(), new_rows.drop_last(), slug);
    }
}

/// The session index.
#[derive(Debug, Clone)]
pub struct Index {
    pub sessions: Vec<SessionMeta>,
    /// Files that could not be read. Returned rather than printed: the TUI
    /// owns the screen, and stray stderr writes corrupt the frame.
    pub warnings: Vec<String>,
}

/// The views of a list of project rows.
pub open spec fn rows_v(rows: Seq<Project>) -> Seq<ProjectV> {
    rows.map_values(|p: Project| project_v(p))
}

/// Search the rows from the end for `slug`.
fn find_row(rows: &Vec<Project>, slug: &String) -> (r: Option<usize>)
    ensures
        match r {
            Some(i) => row_of(rows_v(rows@), slug@) == Some(i as int) && i < rows@.len(),
            None => row_of(rows_v(rows@), slug@) is None,
        },
{
    let mut j = rows.len();
    assert(rows@.subrange(0, j as int) =~= rows@);
    while j > 0
        invariant
            j <= rows@.len(),
            row_of(rows_v(rows@), slug@) == row_of(rows_v(rows@.subrange(0, j as int)), slug@),
        decreases j,
    {
        assert(rows_v(rows@.subrange(0, j as int)).drop_last() =~= rows_v(
            rows@.subrange(0, j - 1),
        ));
        if rows[j - 1].slug == *slug {
            return Some(j - 1);
        }
        j = j - 1;
    }
    None
}

impl Index {
    /// Projects, newest first. `sessions` is already newest-first, so the
    /// order each slug is first seen in is the order wanted. A project's label
    /// is the first `cwd` any of its sessions recorded, else its slug.
    pub fn projects(&self) -> (r: Vec<Project>)
        requires
            total_bytes(self.sessions@) <= u64::MAX,
        ensures
            rows_v(r@) == projects_s(self.sessions@),
    {
        let ghost all = self.sessions@;
        let mut out: Vec<Project> = Vec::new();
        let mut i: usize = 0;
        while i < self.sessions.len()
            invariant
                i <= all.len(),
                all == self.sessions@,
                total_bytes(all) <= u64::MAX,
                rows_v(out@) == project_rows(all.subrange(0, i as int)),
            decreases all.len() - i,
        {
            let s = &self.sessions[i];
            let ghost prefix = all.subrange(0, i + 1);
            assert(prefix.drop_last() =~= all.subrange(0, i as int));
            proof {
                lemma_rows_bounded(all.subrange(0, i as int));
                lemma_total_prefix(all, i + 1);
            }
            let cwd = match &s.cwd {
                Some(c) => c.clone(),
                None => String::new(),
            };
            match find_row(&out, &s.project_slug) {
                Some(k) => {
                    let r = &out[k];
                    proof {
                        let old_rows = project_rows(all.subrange(0, i as int));
                        assert(rows_v(out@)[k as int] == project_v(out@[k as int]));
                        assert(old_rows[k as int].2 <= i);
                        assert(old_rows[k as int].3 <= total_bytes(all.subrange(0, i as int)));
                        assert(total_bytes(prefix) == total_bytes(all.subrange(0, i as int))
                            + s.size_bytes);
                    }
                    let label = if r.label.as_str().is_empty() {
                        cwd
                    } else {
                        r.label.clone()
                    };
                    let row = Project {
                        slug: r.slug.clone(),
                        label,
                        count: r.count + 1,
                        bytes: r.bytes + s.size_bytes,
                    };
                    out.set(k, row);
                    assert(rows_v(out@) =~= project_rows(prefix));
                },
                None => {
                    out.push(
                        Project { slug: s.project_slug.clone(), label: cwd, count: 1, bytes: s.size_bytes },
                    );
                    assert(rows_v(out@) =~= project_rows(prefix));
                },
            }
            i = i + 1;
        }
        assert(all.subrange(0, all.len() as int) =~= all);
        let mut k: usize = 0;
        let ghost rows = rows_v(out@);
        while k < out.len()
            invariant
                k <= out@.len(),
                rows.len() == out@.len(),
                rows == project_rows(all),
                forall|m: int| 0 <= m < k ==> #[trigger] project_v(out@[m]) == with_fallback_label(rows[m]),
                forall|m: int| k <= m < out@.len() ==> #[trigger] project_v(out@[m]) == rows[m],
            decreases out@.len() - k,
        {
            let ghost before = out@;
            assert(project_v(before[k as int]) == rows[k as int]);
            if out[k].label.as_str().is_empty() {
                let r = &out[k];
                let row = Project { slug: r.slug.clone(), label: r.slug.clone(), count: r.count, bytes: r.bytes };
                out.set(k, row);
                assert(project_v(out@[k as int]) == with_fallback_label(rows[k as int]));
            }
            assert forall|m: int| 0 <= m < k + 1 implies #[trigger] project_v(out@[m]) == with_fallback_label(
                rows[m],
            ) by {
                if m < k {
                    assert(out@[m] == before[m]);
                }
            }
            assert forall|m: int| k + 1 <= m < out@.len() implies #[trigger] project_v(out@[m]) == rows[m] by {
                assert(out@[m] == before[m]);
            }
            k = k + 1;
        }
        assert(rows_v(out@) =~= projects_s(all));
        out
    }
}

/// The total of a prefix is at most the total.
pub(crate) proof fn lemma_total_prefix(all: Seq<SessionMeta>, i: int)
    requires
        0 <= i <= all.len(),
    ensures
        total_bytes(all.subrange(0, i)) <= total_bytes(all),
    decreases all.len() - i,
{
    if i < all.len() {
        lemma_total_prefix(all, i + 1);
        assert(all.subrange(0, i + 1).drop_last() =~= all.subrange(0, i));
    } else {
        assert(all.subrange(0, i) =~= all);
    }
}

/// `m` belongs to project `slug` (any project when `None`) and its title,
/// location or id prefix matches the lower-cased `needle`.
pub open spec fn matches_filter(m: SessionMeta, slug: Option<Seq<char>>, needle: Seq<char>) -> bool {
    &&& match slug {
        Some(sl) => m.project_slug@ == sl,
        None => true,
    }
    &&& (needle.len() == 0 || contains_s(lower_s(m.title@), needle) || contains_s(
        lower_s(location_s(m)),
        needle,
    ) || starts_with_s(m.id@, needle))
}

/// The view of an optional string slice.
pub open spec fn opt_str(o: Option<&str>) -> Option<Seq<char>> {
    match o {
        Some(s) => Some(s@),
        None => None,
    }
}

/// A subsequence keeps the message counts in range.
pub proof fn lemma_filter_msgs_fit(list: Seq<SessionMeta>, pred: spec_fn(SessionMeta) -> bool)
    requires
        msgs_fit(list),
    ensures
        msgs_fit(list.filter(pred)),
    decreases list.len(),
{
    reveal(Seq::filter);
    if list.len() > 0 {
        lemma_filter_msgs_fit(list.drop_last(), pred);
        assert(msgs_fit(list.drop_last())) by {
            assert forall|i: int| 0 <= i < list.drop_last().len() implies #[trigger] list.drop_last()[i].user_msgs as int
                + list.drop_last()[i].assistant_msgs as int <= u32::MAX as int by {
                assert(list.drop_last()[i] == list[i]);
            }
        }
        let f = list.drop_last().filter(pred);
        if pred(list.last()) {
            assert forall|i: int| 0 <= i < f.push(list.last()).len() implies #[trigger] f.push(list.last())[i].user_msgs as int
                + f.push(list.last())[i].assistant_msgs as int <= u32::MAX as int by {
                if i < f.len() {
                    assert(f.push(list.last())[i] == f[i]);
                } else {
                    assert(list.last() == list[list.len() - 1]);
                }
            }
        }
    }
}

impl Index {
    /// Sessions in project `slug` (all when `None`) whose title, location or
    /// id prefix contains `needle` (case-insensitively for title and
    /// location), sorted.
    pub fn filter(&self, slug: Option<&str>, needle: &str, sort: Sort) -> (r: Vec<SessionMeta>)
        requires
            sort == Sort::Msgs ==> msgs_fit(self.sessions@),
        ensures
            is_sorted_result(
                sort,
                self.sessions@.filter(|m: SessionMeta| matches_filter(m, opt_str(slug), lower_s(needle@))),
                r@,
            ),
    {
        let needle_l = to_lowercase(needle);
        let ghost pred = |m: SessionMeta| matches_filter(m, opt_str(slug), lower_s(needle@));
        let mut list: Vec<SessionMeta> = Vec::new();
        let mut i: usize = 0;
        while i < self.sessions.len()
            invariant
                i <= self.sessions@.len(),
                needle_l@ == lower_s(needle@),
                pred == |m: SessionMeta| matches_filter(m, opt_str(slug), lower_s(needle@)),
                list@ == self.sessions@.subrange(0, i as int).filter(pred),
            decreases self.sessions@.len() - i,
        {
            let m = &self.sessions[i];
            assert(self.sessions@.subrange(0, i + 1).drop_last() =~= self.sessions@.subrange(0, i as int));
            reveal(Seq::filter);
            let in_project = match slug {
                Some(sl) => str_eq(m.project_slug.as_str(), sl),
                None => true,
            };
            let hit = in_project && (needle_l.as_str().is_empty() || {
                let t = to_lowercase(m.title.as_str());
                contains_str(t.as_str(), needle_l.as_str())
            } || {
                let loc = m.location();
                let l = to_lowercase(loc.as_str());
                contains_str(l.as_str(), needle_l.as_str())
            } || starts_with_str(m.id.as_str(), needle_l.as_str()));
            if hit {
                list.push(m.copy());
            }
            i = i + 1;
        }
        assert(self.sessions@.subrange(0, self.sessions@.len() as int) =~= self.sessions@);
        proof {
            if sort == Sort::Msgs {
                lemma_filter_msgs_fit(self.sessions@, pred);
            }
        }
        sort.apply(&mut list);
        list
    }
}

/// The ids of `list`.
pub open spec fn ids_of(list: Seq<SessionMeta>) -> Seq<Seq<char>> {
    list.map_values(|m: SessionMeta| m.id@)
}

/// Sessions whose id begins with `needle`.
pub open spec fn id_hits(sessions: Seq<SessionMeta>, needle: Seq<char>) -> Seq<SessionMeta> {
    sessions.filter(|m: SessionMeta| starts_with_s(m.id@, needle))
}

/// Why `needle` does not name exactly one session, given what it matched.
pub open spec fn find_error_s(needle: Seq<char>, hits: Seq<SessionMeta>) -> Seq<char> {
    if needle.len() == 0 {
        "empty session id"@
    } else if hits.len() == 0 {
        "no session matches '"@ + needle + "'"@
    } else {
        "'"@ + needle + "' matches "@ + dec_s(hits.len()) + " sessions: "@ + crate::text::join_s(
            ids_of(hits.take(if hits.len() < 5 { hits.len() as int } else { 5 })),
            ", "@,
        )
    }
}

/// `m` is marked, by id.
pub open spec fn is_marked(m: SessionMeta, marked: Seq<String>) -> bool {
    exists|k: int| 0 <= k < marked.len() && #[trigger] marked[k]@ == m.id@
}

impl Index {
    /// Resolve a full id or unique id prefix. An empty needle is refused
    /// rather than matching everything.
    pub fn find(&self, needle: &str) -> (r: Result<&SessionMeta, String>)
        ensures
            match r {
                Ok(m) => needle@.len() > 0 && id_hits(self.sessions@, needle@).len() == 1 && *m
                    == id_hits(self.sessions@, needle@)[0],
                Err(e) => (needle@.len() == 0 || id_hits(self.sessions@, needle@).len() != 1)
                    && e@ == find_error_s(needle@, id_hits(self.sessions@, needle@)),
            },
    {
        if needle.is_empty() {
            return Err(crate::text::owned("empty session id"));
        }
        let ghost pred = |m: SessionMeta| starts_with_s(m.id@, needle@);
        let mut hits: Vec<usize> = Vec::new();
        let ghost mut hv: Seq<SessionMeta> = Seq::empty();
        let mut i: usize = 0;
        while i < self.sessions.len()
            invariant
                i <= self.sessions@.len(),
                pred == |m: SessionMeta| starts_with_s(m.id@, needle@),
                hv == self.sessions@.subrange(0, i as int).filter(pred),
                hits@.len() == hv.len(),
                forall|k: int| 0 <= k < hits@.len() ==> #[trigger] hits@[k] < i && self.sessions@[hits@[k] as int]
                    == hv[k],
            decreases self.sessions@.len() - i,
        {
            assert(self.sessions@.subrange(0, i + 1).drop_last() =~= self.sessions@.subrange(0, i as int));
            reveal(Seq::filter);
            if starts_with_str(self.sessions[i].id.as_str(), needle) {
                hits.push(i);
                proof {
                    hv = hv.push(self.sessions@[i as int]);
                }
            }
            i = i + 1;
        }
        assert(self.sessions@.subrange(0, self.sessions@.len() as int) =~= self.sessions@);
        if hits.len() == 1 {
            return Ok(&self.sessions[hits[0]]);
        }
        let quoted = concat("'", needle);
        if hits.len() == 0 {
            let a = concat("no session matches '", needle);
            return Err(concat(a.as_str(), "'"));
        }
        let take = if hits.len() < 5 {
            hits.len()
        } else {
            5
        };
        let mut ids: Vec<String> = Vec::new();
        let mut k: usize = 0;
        while k < take
            invariant
                k <= take <= hits@.len(),
                hits@.len() == hv.len(),
                forall|m: int| 0 <= m < hits@.len() ==> #[trigger] hits@[m] < self.sessions@.len() && self.sessions@[hits@[m] as int]
                    == hv[m],
                ids@.map_values(|s: String| s@) == ids_of(hv.take(k as int)),
            decreases take - k,
        {
            let idx = hits[k];
            let ghost before = ids@.map_values(|s: String| s@);
            ids.push(self.sessions[idx].id.clone());
            assert(self.sessions@[idx as int] == hv[k as int]);
            assert(hv.take(k + 1) =~= hv.take(k as int).push(hv[k as int]));
            assert(ids_of(hv.take(k + 1)) =~= ids_of(hv.take(k as int)).push(hv[k as int].id@));
            assert(ids@.map_values(|s: String| s@) =~= before.push(hv[k as int].id@));
            k = k + 1;
        }
        let a = concat(quoted.as_str(), "' matches ");
        let b = concat(a.as_str(), crate::num::dec_u64(hits.len() as u64).as_str());
        let c = concat(b.as_str(), " sessions: ");
        let list = crate::text::join(&ids, ", ");
        Err(concat(c.as_str(), list.as_str()))
    }

    /// The `marked` sessions (by id), or `fallback` alone when nothing is
    /// marked.
    pub fn marked_or(&self, marked: &[String], fallback: Option<&SessionMeta>) -> (r: Vec<SessionMeta>)
        ensures
            marked@.len() == 0 ==> r@ == (match fallback {
                Some(m) => seq![*m],
                None => Seq::<SessionMeta>::empty(),
            }),
            marked@.len() > 0 ==> r@ == self.sessions@.filter(|m: SessionMeta| is_marked(m, marked@)),
    {
        if marked.len() == 0 {
            let mut r: Vec<SessionMeta> = Vec::new();
            if let Some(m) = fallback {
                r.push(m.copy());
            }
            assert(r@ =~= (match fallback {
                Some(m) => seq![*m],
                None => Seq::<SessionMeta>::empty(),
            }));
            return r;
        }
        let ghost pred = |m: SessionMeta| is_marked(m, marked@);
        let mut r: Vec<SessionMeta> = Vec::new();
        let mut i: usize = 0;
        while i < self.sessions.len()
            invariant
                i <= self.sessions@.len(),
                pred == |m: SessionMeta| is_marked(m, marked@),
                r@ == self.sessions@.subrange(0, i as int).filter(pred),
            decreases self.sessions@.len() - i,
        {
            assert(self.sessions@.subrange(0, i + 1).drop_last() =~= self.sessions@.subrange(0, i as int));
            reveal(Seq::filter);
            let m = &self.sessions[i];
            let mut hit = false;
            let mut k: usize = 0;
            while k < marked.len()
                invariant
                    k <= marked@.len(),
                    hit <==> exists|j: int| 0 <= j < k && #[trigger] marked@[j]@ == m.id@,
                decreases marked@.len() - k,
            {
                if str_eq(marked[k].as_str(), m.id.as_str()) {
                    hit = true;
                }
                k = k + 1;
            }
            if hit {
                r.push(m.copy());
            }
            i = i + 1;
        }
        assert(self.sessions@.subrange(0, self.sessions@.len() as int) =~= self.sessions@);
        r
    }

    /// One-line summary of any unreadable files, for a status bar.
    pub fn warning_summary(&self) -> (r: Option<String>)
        ensures
            crate::title::opt_view(r) == warning_summary_s(self.warnings@),
    {
        if self.warnings.len() == 0 {
            return None;
        }
        let first = &self.warnings[0];
        if self.warnings.len() == 1 {
            let a = concat("skipped 1 unreadable file (", first.as_str());
            return Some(concat(a.as_str(), ")"));
        }
        let a = concat("skipped ", crate::num::dec_u64(self.warnings.len() as u64).as_str());
        let b = concat(a.as_str(), " unreadable files (first: ");
        let c = concat(b.as_str(), first.as_str());
        Some(concat(c.as_str(), ")"))
    }
}

/// One line about the files that could not be read: none when there are
/// none, else how many and which came first.
pub open spec fn warning_summary_s(warnings: Seq<String>) -> Option<Seq<char>> {
    if warnings.len() == 0 {
        None
    } else if warnings.len() == 1 {
        Some("skipped 1 unreadable file ("@ + warnings[0]@ + ")"@)
    } else {
        Some(
            "skipped "@ + dec_s(warnings.len()) + " unreadable files (first: "@ + warnings[0]@
                + ")"@,
        )
    }
}

/// Some position of `p` holds `j`.
spec fn reached(p: Seq<int>, n: nat, j: int) -> bool {
    exists|i: int| 0 <= i < n && p[i] == j
}

/// A permutation of `0..n` reaches every index.
proof fn lemma_permutation_onto(p: Seq<int>, n: nat)
    requires
        is_permutation(p, n),
    ensures
        forall|j: int| 0 <= j < n ==> #[trigger] reached(p, n, j),
{
    let dom = vstd::set_lib::set_int_range(0, n as int);
    let f = |i: int| p[i];
    vstd::set_lib::lemma_int_range(0, n as int);
    assert(vstd::relations::injective_on(f, dom)) by {
        assert forall|a: int, b: int| dom.contains(a) && dom.contains(b) && #[trigger] f(a) == #[trigger] f(b)
            implies a == b by {
            if a < b {
                assert(p[a] != p[b]);
            } else if b < a {
                assert(p[b] != p[a]);
            }
        }
    }
    let img = dom.map(f);
    vstd::set_lib::lemma_map_size(dom, img, f);
    assert(img.subset_of(dom)) by {
        assert forall|j: int| img.contains(j) implies dom.contains(j) by {
            let i = choose|i: int| dom.contains(i) && f(i) == j;
            assert(0 <= p[i] < n);
        }
    }
    vstd::set_lib::lemma_subset_equality(img, dom);
    assert forall|j: int| 0 <= j < n implies #[trigger] reached(p, n, j) by {
        assert(dom.contains(j));
        assert(img.contains(j));
        let i = choose|i: int| dom.contains(i) && f(i) == j;
        assert(p[i] == j);
    }
}

/// Sorting keeps every session: each one of the input is somewhere in the
/// output.
pub proof fn sorting_keeps_every_session(sort: Sort, input: Seq<SessionMeta>, out: Seq<SessionMeta>)
    requires
        is_sorted_result(sort, input, out),
    ensures
        out.len() == input.len(),
        forall|j: int| 0 <= j < input.len() ==> #[trigger] out.contains(input[j]),
{
    let p = choose|p: Seq<int>| stable_sorted_by(sort, input, out, p);
    lemma_permutation_onto(p, input.len());
    assert forall|j: int| 0 <= j < input.len() implies #[trigger] out.contains(input[j]) by {
        assert(reached(p, input.len(), j));
        let i = choose|i: int| 0 <= i < input.len() && p[i] == j;
        assert(out[i] == input[p[i]]);
    }
}

/// The session counts of some rows, added up.
pub open spec fn rows_count(rows: Seq<ProjectV>) -> nat
    decreases rows.len(),
{
    if rows.len() == 0 {
        0
    } else {
        rows_count(rows.drop_last()) + rows.last().2
    }
}

/// The sizes of some rows, added up.
pub open spec fn rows_bytes(rows: Seq<ProjectV>) -> nat
    decreases rows.len(),
{
    if rows.len() == 0 {
        0
    } else {
        rows_bytes(rows.drop_last()) + rows.last().3
    }
}

/// Replacing one row changes the sums by the difference.
proof fn lemma_rows_sum_update(rows: Seq<ProjectV>, i: int, r: ProjectV)
    requires
        0 <= i < rows.len(),
    ensures
        rows_count(rows.update(i, r)) == rows_count(rows) - rows[i].2 + r.2,
        rows_bytes(rows.update(i, r)) == rows_bytes(rows) - rows[i].3 + r.3,
    decreases rows.len(),
{
    let u = rows.update(i, r);
    if i == rows.len() - 1 {
        assert(u.drop_last() =~= rows.drop_last());
    } else {
        assert(u.drop_last() =~= rows.drop_last().update(i, r));
        lemma_rows_sum_update(rows.drop_last(), i, r);
    }
}

/// Falling back to the slug for a blank label changes no figure.
proof fn lemma_fallback_sums(rows: Seq<ProjectV>)
    ensures
        rows_count(rows.map_values(|r: ProjectV| with_fallback_label(r))) == rows_count(rows),
        rows_bytes(rows.map_values(|r: ProjectV| with_fallback_label(r))) == rows_bytes(rows),
    decreases rows.len(),
{
    if rows.len() > 0 {
        let m = rows.map_values(|r: ProjectV| with_fallback_label(r));
        assert(m.drop_last() =~= rows.drop_last().map_values(|r: ProjectV| with_fallback_label(r)));
        lemma_fallback_sums(rows.drop_last());
    }
}

/// The project rows account for every session exactly once: their counts
/// add up to the number of sessions and their sizes to the total size.
pub proof fn projects_add_up(sessions: Seq<SessionMeta>)
    ensures
        rows_count(projects_s(sessions)) == sessions.len(),
        rows_bytes(projects_s(sessions)) == total_bytes(sessions),
    decreases sessions.len(),
{
    lemma_rows_add_up(sessions);
    lemma_fallback_sums(project_rows(sessions));
}

/// The rows before labels fall back add up too.
proof fn lemma_rows_add_up(sessions: Seq<SessionMeta>)
    ensures
        rows_count(project_rows(sessions)) == sessions.len(),
        rows_bytes(project_rows(sessions)) == total_bytes(sessions),
    decreases sessions.len(),
{
    if sessions.len() > 0 {
        lemma_rows_add_up(sessions.drop_last());
        let rows = project_rows(sessions.drop_last());
        let s = sessions.last();
        match row_of(rows, s.project_slug@) {
            Some(i) => {
                lemma_row_of(rows, s.project_slug@);
                let r = rows[i];
                let cwd = match s.cwd {
                    Some(c) => c@,
                    None => Seq::empty(),
                };
                lemma_rows_sum_update(
                    rows,
                    i,
                    (r.0, if r.1.len() == 0 { cwd } else { r.1 }, r.2 + 1, r.3 + s.size_bytes as nat),
                );
            },
            None => {
                let cwd = match s.cwd {
                    Some(c) => c@,
                    None => Seq::empty(),
                };
                let n = rows.push((s.project_slug@, cwd, 1, s.size_bytes as nat));
                assert(n.drop_last() =~= rows);
            },
        }
    }
}

impl Index {
    /// The index fits the counters its summaries are kept in: every
    /// session's message count fits a `u32` and the total size a `u64`.
    pub fn fits_counters(&self) -> (r: bool)
        ensures
            r == (msgs_fit(self.sessions@) && total_bytes(self.sessions@) <= u64::MAX),
    {
        let mut total: u64 = 0;
        let mut i: usize = 0;
        while i < self.sessions.len()
            invariant
                i <= self.sessions@.len(),
                total == total_bytes(self.sessions@.subrange(0, i as int)),
                msgs_fit(self.sessions@.subrange(0, i as int)),
            decreases self.sessions@.len() - i,
        {
            let s = &self.sessions[i];
            let ghost prefix = self.sessions@.subrange(0, i + 1);
            assert(prefix.drop_last() =~= self.sessions@.subrange(0, i as int));
            if s.user_msgs as u64 + s.assistant_msgs as u64 > u32::MAX as u64 {
                proof {
                    assert(self.sessions@[i as int] == s);
                    assert(!msgs_fit(self.sessions@));
                }
                return false;
            }
            if total > u64::MAX - s.size_bytes {
                proof {
                    lemma_total_prefix(self.sessions@, i + 1);
                }
                return false;
            }
            total = total + s.size_bytes;
            assert(msgs_fit(prefix)) by {
                assert forall|k: int| 0 <= k < prefix.len() implies #[trigger] prefix[k].user_msgs as int
                    + prefix[k].assistant_msgs as int <= u32::MAX as int by {
                    if k < i {
                        assert(prefix[k] == self.sessions@.subrange(0, i as int)[k]);
                    }
                }
            }
            i = i + 1;
        }
        assert(self.sessions@.subrange(0, self.sessions@.len() as int) =~= self.sessions@);
        true
    }
}

/// A session looks live exactly when its last record or its file was
/// touched less than five minutes (300 seconds) before `now`.
pub proof fn recent_means_touched_in_the_last_five_minutes(m: SessionMeta, now: int)
    ensures
        is_recent_s(m, now) <==> (now - activity_s(m) < 300_000_000_000 || now - mtime_s(m)
            < 300_000_000_000),
{
}

} // verus!
