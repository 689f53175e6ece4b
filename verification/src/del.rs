//! Deleting sessions: what a delete takes, the guards in front of it, and how
//! a batch of deletes ended.

use vstd::prelude::*;
use crate::bytes::{human_bytes, human_bytes_s};
use crate::index::{is_recent_s, SessionMeta};
use crate::mounts::{on_drvfs_mount, on_drvfs_mount_s};
use crate::num::{dec_s, dec_u64};
use crate::paths::{keep_flagged, session_candidates_s, under_s, ConfigDir};
use crate::text::{concat, owned, short_id, short_id_s};

verus! {

/// Everything that will be moved to the recycle bin for one session.
#[derive(Debug, Clone, PartialEq, Eq)]
pub struct DeletePlan {
    pub id: String,
    pub title: String,
    pub paths: Vec<String>,
    pub bytes: u64,
    /// The session looks live: confirm harder before removing it.
    pub recent: bool,
}

impl DeletePlan {
    /// First 8 characters of the session id.
    pub fn short_id(&self) -> (r: String)
        ensures
            r@ == short_id_s(self.id@),
    {
        short_id(self.id.as_str())
    }
}

/// The views of a list of paths.
pub open spec fn paths_v(paths: Seq<String>) -> Seq<Seq<char>> {
    paths.map_values(|p: String| p@)
}

/// The sum of the sizes flagged as existing.
pub open spec fn flagged_sum(sizes: Seq<u64>, flags: Seq<bool>) -> nat
    decreases sizes.len(),
{
    if sizes.len() == 0 {
        0
    } else {
        flagged_sum(sizes.drop_last(), flags) + if (sizes.len() - 1) < flags.len() && flags[sizes.len()
            - 1] {
            sizes.last() as nat
        } else {
            0
        }
    }
}

/// Plan the delete of `meta`: its transcript plus sidecar dirs. `exists[k]`
/// and `sizes[k]` say whether candidate `k` (see `ConfigDir::session_paths`)
/// exists and how many bytes it holds; missing paths are skipped. `now` is
/// the current instant, for the liveness flag.
pub fn plan(dir: &ConfigDir, meta: &SessionMeta, exists: &[bool], sizes: &[u64], now: i128) -> (r:
    DeletePlan)
    requires
        flagged_sum(sizes@, exists@) <= u64::MAX,
        -0x1_0000_0000_0000_0000_0000_0000_0000 <= now <= 0x1_0000_0000_0000_0000_0000_0000_0000,
        meta.last_ts matches Some(t) ==> -0x1_0000_0000_0000_0000_0000_0000_0000 <= t
            <= 0x1_0000_0000_0000_0000_0000_0000_0000,
    ensures
        r.id@ == meta.id@,
        r.title@ == meta.title@,
        paths_v(r.paths@) == keep_flagged(
            session_candidates_s(dir.root@, meta.project_slug@, meta.id@, dir.windows),
            exists@,
        ),
        r.bytes == flagged_sum(sizes@, exists@),
        r.recent == is_recent_s(*meta, now as int),
{
    let paths = dir.session_paths(meta.project_slug.as_str(), meta.id.as_str(), exists);
    let mut bytes: u64 = 0;
    let mut i: usize = 0;
    while i < sizes.len()
        invariant
            i <= sizes@.len(),
            flagged_sum(sizes@, exists@) <= u64::MAX,
            bytes == flagged_sum(sizes@.subrange(0, i as int), exists@),
        decreases sizes@.len() - i,
    {
        assert(sizes@.subrange(0, i + 1).drop_last() =~= sizes@.subrange(0, i as int));
        proof {
            lemma_flagged_prefix(sizes@, exists@, i + 1);
        }
        if i < exists.len() && exists[i] {
            bytes = bytes + sizes[i];
        }
        i = i + 1;
    }
    assert(sizes@.subrange(0, sizes@.len() as int) =~= sizes@);
    DeletePlan {
        id: meta.id.clone(),
        title: meta.title.clone(),
        paths,
        bytes,
        recent: meta.is_recent(now),
    }
}

/// A prefix flags no more bytes than the whole.
proof fn lemma_flagged_prefix(sizes: Seq<u64>, flags: Seq<bool>, i: int)
    requires
        0 <= i <= sizes.len(),
    ensures
        flagged_sum(sizes.subrange(0, i), flags) <= flagged_sum(sizes, flags),
    decreases sizes.len() - i,
{
    if i < sizes.len() {
        lemma_flagged_prefix(sizes, flags, i + 1);
        assert(sizes.subrange(0, i + 1).drop_last() =~= sizes.subrange(0, i));
    } else {
        assert(sizes.subrange(0, i) =~= sizes);
    }
}

/// What a confirm dialog needs to say about a batch of plans.
#[derive(Debug, Clone, PartialEq, Eq)]
pub struct PlanSummary {
    pub bytes: u64,
    pub files: usize,
    pub live: usize,
}

/// Total bytes of `plans`.
pub open spec fn plans_bytes(plans: Seq<DeletePlan>) -> nat
    decreases plans.len(),
{
    if plans.len() == 0 {
        0
    } else {
        plans_bytes(plans.drop_last()) + plans.last().bytes as nat
    }
}

/// Total number of paths of `plans`.
pub open spec fn plans_files(plans: Seq<DeletePlan>) -> nat
    decreases plans.len(),
{
    if plans.len() == 0 {
        0
    } else {
        plans_files(plans.drop_last()) + plans.last().paths@.len()
    }
}

/// Number of `plans` that look live.
pub open spec fn plans_live(plans: Seq<DeletePlan>) -> nat
    decreases plans.len(),
{
    if plans.len() == 0 {
        0
    } else {
        plans_live(plans.drop_last()) + if plans.last().recent {
            1nat
        } else {
            0
        }
    }
}

/// Prefix totals never exceed whole totals.
proof fn lemma_plans_prefix(plans: Seq<DeletePlan>, i: int)
    requires
        0 <= i <= plans.len(),
    ensures
        plans_bytes(plans.subrange(0, i)) <= plans_bytes(plans),
        plans_files(plans.subrange(0, i)) <= plans_files(plans),
    decreases plans.len() - i,
{
    if i < plans.len() {
        lemma_plans_prefix(plans, i + 1);
        assert(plans.subrange(0, i + 1).drop_last() =~= plans.subrange(0, i));
    } else {
        assert(plans.subrange(0, i) =~= plans);
    }
}

/// At most every plan looks live.
proof fn lemma_live_bound(plans: Seq<DeletePlan>)
    ensures
        plans_live(plans) <= plans.len(),
    decreases plans.len(),
{
    if plans.len() > 0 {
        lemma_live_bound(plans.drop_last());
    }
}

/// Add up every plan: bytes, paths, and how many look live.
pub fn summarize(plans: &[DeletePlan]) -> (r: PlanSummary)
    requires
        plans_bytes(plans@) <= u64::MAX,
        plans_files(plans@) <= usize::MAX,
    ensures
        r.bytes == plans_bytes(plans@),
        r.files == plans_files(plans@),
        r.live == plans_live(plans@),
{
    let mut bytes: u64 = 0;
    let mut files: usize = 0;
    let mut live: usize = 0;
    let mut i: usize = 0;
    while i < plans.len()
        invariant
            i <= plans@.len(),
            plans_bytes(plans@) <= u64::MAX,
            plans_files(plans@) <= usize::MAX,
            bytes == plans_bytes(plans@.subrange(0, i as int)),
            files == plans_files(plans@.subrange(0, i as int)),
            live == plans_live(plans@.subrange(0, i as int)),
        decreases plans@.len() - i,
    {
        assert(plans@.subrange(0, i + 1).drop_last() =~= plans@.subrange(0, i as int));
        proof {
            lemma_plans_prefix(plans@, i + 1);
            lemma_live_bound(plans@.subrange(0, i as int));
        }
        let p = &plans[i];
        bytes = bytes + p.bytes;
        files = files + p.paths.len();
        if p.recent {
            live = live + 1;
        }
        i = i + 1;
    }
    assert(plans@.subrange(0, plans@.len() as int) =~= plans@);
    PlanSummary { bytes, files, live }
}

/// How a batch of plans ended: how many were trashed, and what stopped it.
#[derive(Debug, Clone, PartialEq, Eq)]
pub struct Outcome {
    pub ok: usize,
    pub total: usize,
    /// The failure that stopped the batch, with the session it hit.
    pub failed: Option<String>,
}

/// The wording for a batch that ended as `o`, moving `bytes` if it succeeded.
pub open spec fn summary_s(o: Outcome, bytes: nat) -> Seq<char> {
    match o.failed {
        Some(e) => "deleted "@ + dec_s(o.ok as nat) + " of "@ + dec_s(o.total as nat)
            + ", then failed: "@ + e@,
        None => "moved "@ + dec_s(o.ok as nat) + " session(s) ("@ + human_bytes_s(bytes)
            + ") to the recycle bin"@,
    }
}

/// How a failure to delete session `id` is reported.
pub open spec fn failure_s(id: Seq<char>, e: Seq<char>) -> Seq<char> {
    "deleting session "@ + id + ": "@ + e
}

impl Outcome {
    /// The only place either wording lives, so every front end agrees.
    pub fn summary(&self, bytes: u64) -> (r: String)
        ensures
            r@ == summary_s(*self, bytes as nat),
    {
        match &self.failed {
            Some(e) => {
                let a = concat("deleted ", dec_u64(self.ok as u64).as_str());
                let b = concat(a.as_str(), " of ");
                let c = concat(b.as_str(), dec_u64(self.total as u64).as_str());
                let d = concat(c.as_str(), ", then failed: ");
                concat(d.as_str(), e.as_str())
            },
            None => {
                let a = concat("moved ", dec_u64(self.ok as u64).as_str());
                let b = concat(a.as_str(), " session(s) (");
                let c = concat(b.as_str(), human_bytes(bytes).as_str());
                concat(c.as_str(), ") to the recycle bin")
            },
        }
    }
}

/// The plan a batch that stands at `o` runs next: the one after the
/// successes, while nothing has failed and plans are left.
pub open spec fn next_s(o: Outcome) -> Option<usize> {
    if o.failed is None && o.ok < o.total {
        Some(o.ok)
    } else {
        None
    }
}

/// `b` is batch `a` after its next plan, that of session `id`, ended with
/// `result`: one more success, or the failure that stops the batch.
pub open spec fn recorded(a: Outcome, id: Seq<char>, result: Result<(), Seq<char>>, b: Outcome) -> bool {
    &&& b.total == a.total
    &&& match result {
        Ok(_) => b.ok == a.ok + 1 && b.failed is None,
        Err(e) => b.ok == a.ok && (b.failed matches Some(m) && m@ == failure_s(id, e)),
    }
}

impl Outcome {
    /// A batch of `total` plans, none run yet.
    pub fn start(total: usize) -> (r: Outcome)
        ensures
            r.ok == 0,
            r.total == total,
            r.failed is None,
    {
        Outcome { ok: 0, total, failed: None }
    }

    /// The plan to run next, if any (see [`next_s`]).
    pub fn next(&self) -> (r: Option<usize>)
        ensures
            r == next_s(*self),
    {
        if self.failed.is_none() && self.ok < self.total {
            Some(self.ok)
        } else {
            None
        }
    }

    /// The next plan, that of session `id`, ended with `result`.
    pub fn record(&mut self, id: &str, result: Result<(), String>)
        requires
            next_s(*old(self)) is Some,
        ensures
            recorded(
                *old(self),
                id@,
                match result {
                    Ok(_) => Ok(()),
                    Err(e) => Err(e@),
                },
                *final(self),
            ),
    {
        match result {
            Ok(_) => {
                self.ok = self.ok + 1;
            },
            Err(e) => {
                let a = concat("deleting session ", id);
                let b = concat(a.as_str(), ": ");
                self.failed = Some(concat(b.as_str(), e.as_str()));
            },
        }
    }
}

/// A batch runs its plans in order and stops at the first failure: after a
/// success the next plan is the following one (none after the last), and
/// after a failure nothing more runs.
pub proof fn a_batch_stops_at_the_first_failure(
    a: Outcome,
    id: Seq<char>,
    result: Result<(), Seq<char>>,
    b: Outcome,
)
    requires
        next_s(a) is Some,
        recorded(a, id, result, b),
    ensures
        result is Ok ==> next_s(b) == (if a.ok + 1 < a.total {
            Some((a.ok + 1) as usize)
        } else {
            None
        }),
        result is Err ==> next_s(b) is None && b.ok == a.ok,
{
}

/// Run every plan in order through `execute` and stop at the first failure,
/// so what was already trashed is never lost track of. `execute` is what
/// moves one plan's paths to the recycle bin; the batch is stepped by
/// [`Outcome::next`] and [`Outcome::record`].
pub fn execute_all<F: Fn(&DeletePlan) -> Result<(), String>>(plans: &[DeletePlan], execute: F) -> (r:
    Outcome)
    requires
        forall|i: int| 0 <= i < plans@.len() ==> execute.requires((&#[trigger] plans@[i],)),
    ensures
        r.total == plans@.len(),
        r.ok <= r.total,
        r.failed is None <==> r.ok == r.total,
        forall|i: int| 0 <= i < r.ok ==> execute.ensures((&#[trigger] plans@[i],), Ok(())),
        r.failed matches Some(msg) ==> exists|e: String|
            execute.ensures((&plans@[r.ok as int],), Err(e)) && msg@ == failure_s(
                plans@[r.ok as int].id@,
                e@,
            ),
{
    let mut o = Outcome::start(plans.len());
    loop
        invariant
            o.total == plans@.len(),
            o.ok <= o.total,
            forall|i: int| 0 <= i < plans@.len() ==> execute.requires((&#[trigger] plans@[i],)),
            forall|i: int| 0 <= i < o.ok ==> execute.ensures((&#[trigger] plans@[i],), Ok(())),
            o.failed matches Some(msg) ==> o.ok < o.total && exists|e: String|
                execute.ensures((&plans@[o.ok as int],), Err(e)) && msg@ == failure_s(
                    plans@[o.ok as int].id@,
                    e@,
                ),
        ensures
            next_s(o) is None,
            o.total == plans@.len(),
            o.ok <= o.total,
            forall|i: int| 0 <= i < o.ok ==> execute.ensures((&#[trigger] plans@[i],), Ok(())),
            o.failed matches Some(msg) ==> o.ok < o.total && exists|e: String|
                execute.ensures((&plans@[o.ok as int],), Err(e)) && msg@ == failure_s(
                    plans@[o.ok as int].id@,
                    e@,
                ),
        decreases o.total - o.ok + (if o.failed is None {
            1int
        } else {
            0int
        }),
    {
        match o.next() {
            None => {
                break;
            },
            Some(i) => {
                let p = &plans[i];
                let res = execute(p);
                assert(execute.ensures((&plans@[i as int],), res));
                match &res {
                    Ok(u) => {
                        assert(res == Ok::<(), String>(*u));
                    },
                    Err(e) => {
                        assert(res == Err::<(), String>(*e));
                    },
                }
                let ghost res_v = res;
                o.record(p.id.as_str(), res);
                proof {
                    if let Err(e) = res_v {
                        assert(execute.ensures((&plans@[o.ok as int],), Err::<(), String>(e)));
                    }
                }
            },
        }
    }
    o
}

/// Why `plan` must not go to the recycle bin, if anything: it is empty; one
/// of its paths is not strictly inside the config dir (`canonical[k]` is
/// path `k` resolved, `None` when it could not be); or, under WSL, one of its
/// paths is on a Windows drive according to `mounts` (the mount table, `None`
/// when unreadable).
pub open spec fn refusal_s(
    root: Seq<char>,
    w: bool,
    plan: DeletePlan,
    canonical: Seq<Option<Seq<char>>>,
    wsl: bool,
    mounts: Option<Seq<char>>,
) -> Option<Seq<char>> {
    let paths = paths_v(plan.paths@);
    if paths.len() == 0 {
        Some("nothing to delete for session "@ + plan.id@)
    } else if exists|k: int| 0 <= k < paths.len() && !inside(root, w, canonical, k) {
        let k = choose|k: int|
            0 <= k < paths.len() && !inside(root, w, canonical, k) && forall|j: int|
                0 <= j < k ==> inside(root, w, canonical, j);
        Some("refusing to delete "@ + paths[k] + " - outside "@ + root)
    } else if wsl && exists|k: int| 0 <= k < paths.len() && on_drive(paths[k], mounts) {
        let k = choose|k: int|
            0 <= k < paths.len() && on_drive(paths[k], mounts) && forall|j: int|
                0 <= j < k ==> !on_drive(paths[j], mounts);
        Some(
            paths[k]
                + " is on a Windows drive; WSL cannot move it to the Recycle Bin - run csb from Windows instead"@,
        )
    } else {
        None
    }
}

/// A plan the guard lets through deletes something, and only paths that
/// resolve strictly inside the config dir; under WSL, none of them is on a
/// Windows drive.
pub proof fn cleared_plans_stay_inside(
    root: Seq<char>,
    w: bool,
    plan: DeletePlan,
    canonical: Seq<Option<Seq<char>>>,
    wsl: bool,
    mounts: Option<Seq<char>>,
)
    requires
        refusal_s(root, w, plan, canonical, wsl, mounts) is None,
    ensures
        paths_v(plan.paths@).len() > 0,
        forall|k: int| 0 <= k < paths_v(plan.paths@).len() ==> #[trigger] inside(root, w, canonical, k),
        wsl ==> forall|k: int|
            0 <= k < paths_v(plan.paths@).len() ==> !on_drive(#[trigger] paths_v(plan.paths@)[k], mounts),
{
}

/// Path `k` resolved lies strictly inside `root` (Windows' separators when
/// `w`).
pub open spec fn inside(root: Seq<char>, w: bool, canonical: Seq<Option<Seq<char>>>, k: int) -> bool {
    0 <= k < canonical.len() && match canonical[k] {
        Some(c) => under_s(c, root, w) && c != root,
        None => false,
    }
}

/// `path` is on a Windows drive according to the mount table, if readable.
pub open spec fn on_drive(path: Seq<char>, mounts: Option<Seq<char>>) -> bool {
    match mounts {
        Some(m) => on_drvfs_mount_s(path, m),
        None => false,
    }
}

/// The views of optional strings.
pub open spec fn opts_v(v: Seq<Option<String>>) -> Seq<Option<Seq<char>>> {
    v.map_values(
        |o: Option<String>|
            match o {
                Some(s) => Some(s@),
                None => None,
            },
    )
}

/// Never hand the recycle bin a path that escaped the config dir, nor one
/// that WSL cannot move there: the reason `plan` must not be executed, or
/// `None` when it may be.
pub fn refusal(
    dir: &ConfigDir,
    plan: &DeletePlan,
    canonical: &[Option<String>],
    wsl: bool,
    mounts: &Option<String>,
) -> (r: Option<String>)
    ensures
        match r {
            Some(msg) => refusal_s(dir.root@, dir.windows, *plan, opts_v(canonical@), wsl, match mounts {
                Some(m) => Some(m@),
                None => None,
            }) == Some(msg@),
            None => refusal_s(dir.root@, dir.windows, *plan, opts_v(canonical@), wsl, match mounts {
                Some(m) => Some(m@),
                None => None,
            }) is None,
        },
{
    let ghost root = dir.root@;
    let ghost w = dir.windows;
    let ghost cv = opts_v(canonical@);
    let ghost mv = match mounts {
        Some(m) => Some(m@),
        None => None,
    };
    let ghost paths = paths_v(plan.paths@);
    if plan.paths.len() == 0 {
        return Some(concat("nothing to delete for session ", plan.id.as_str()));
    }
    let mut k: usize = 0;
    while k < plan.paths.len()
        invariant
            k <= plan.paths@.len(),
            root == dir.root@,
            w == dir.windows,
            cv == opts_v(canonical@),
            paths == paths_v(plan.paths@),
            forall|j: int| 0 <= j < k ==> inside(root, w, cv, j),
        decreases plan.paths@.len() - k,
    {
        let c: Option<String> = if k < canonical.len() {
            crate::text::copy_opt(&canonical[k])
        } else {
            None
        };
        if !dir.contains(&c) {
            assert(!inside(root, w, cv, k as int));
            assert(exists|j: int| 0 <= j < paths.len() && !inside(root, w, cv, j));
            let ghost chosen = choose|j: int|
                0 <= j < paths.len() && !inside(root, w, cv, j) && forall|i: int|
                    0 <= i < j ==> inside(root, w, cv, i);
            assert(chosen == k) by {
                if chosen < k {
                    assert(inside(root, w, cv, chosen));
                } else if chosen > k {
                    assert(inside(root, w, cv, k as int));
                }
            }
            let a = concat("refusing to delete ", plan.paths[k].as_str());
            let b = concat(a.as_str(), " - outside ");
            return Some(concat(b.as_str(), dir.root.as_str()));
        }
        k = k + 1;
    }
    assert(!exists|j: int| 0 <= j < paths.len() && !inside(root, w, cv, j));
    if !wsl {
        return None;
    }
    let mut k: usize = 0;
    while k < plan.paths.len()
        invariant
            k <= plan.paths@.len(),
            wsl,
            root == dir.root@,
            w == dir.windows,
            cv == opts_v(canonical@),
            paths.len() > 0,
            !exists|j: int| 0 <= j < paths.len() && !inside(root, w, cv, j),
            paths == paths_v(plan.paths@),
            mv == match mounts {
                Some(m) => Some(m@),
                None => None::<Seq<char>>,
            },
            forall|j: int| 0 <= j < k ==> !on_drive(paths[j], mv),
        decreases plan.paths@.len() - k,
    {
        let hit = match mounts {
            Some(m) => on_drvfs_mount(plan.paths[k].as_str(), m.as_str()),
            None => false,
        };
        if hit {
            assert(on_drive(paths[k as int], mv));
            let ghost chosen = choose|j: int|
                0 <= j < paths.len() && on_drive(paths[j], mv) && forall|i: int|
                    0 <= i < j ==> !on_drive(paths[i], mv);
            assert(chosen == k) by {
                if chosen < k {
                    assert(!on_drive(paths[chosen], mv));
                } else if chosen > k {
                    assert(!on_drive(paths[k as int], mv));
                }
            }
            return Some(
                concat(
                    plan.paths[k].as_str(),
                    " is on a Windows drive; WSL cannot move it to the Recycle Bin - run csb from Windows instead",
                ),
            );
        }
        k = k + 1;
    }
    None
}

} // verus!
