//! Putting the index together: which files are sessions, the metadata cache
//! that spares a rescan, and the index made from what the scan found.

use vstd::prelude::*;
use crate::index::{is_sorted_result, Index, SessionMeta, Sort};
use crate::paths::{is_session_id, is_session_id_s, is_under, under_s};
use crate::text::{chars_of, concat, owned, push_str, string_of_range};

verus! {

/// The id of a session transcript's file name: the stem of a `.jsonl` file
/// whose stem is a safe session id.
pub open spec fn session_stem_s(name: Seq<char>) -> Option<Seq<char>> {
    if name.len() > 6 && name.subrange(name.len() - 6, name.len() as int) == ".jsonl"@
        && is_session_id_s(name.subrange(0, name.len() - 6)) {
        Some(name.subrange(0, name.len() - 6))
    } else {
        None
    }
}

/// The session id a directory entry named `name` stands for, if it is a
/// session transcript at all.
pub fn session_stem(name: &str) -> (r: Option<String>)
    ensures
        match r {
            Some(s) => session_stem_s(name@) == Some(s@),
            None => session_stem_s(name@) is None,
        },
{
    let v = chars_of(name);
    let n = v.len();
    if n <= 6 {
        return None;
    }
    let ext = string_of_range(&v, n - 6, n);
    if !crate::text::str_eq(ext.as_str(), ".jsonl") {
        return None;
    }
    let stem = string_of_range(&v, 0, n - 6);
    if is_session_id(stem.as_str()) {
        Some(stem)
    } else {
        None
    }
}

/// The sessions a scan produced, in order.
pub open spec fn scanned_ok(scanned: Seq<Result<SessionMeta, String>>) -> Seq<SessionMeta>
    decreases scanned.len(),
{
    if scanned.len() == 0 {
        Seq::empty()
    } else {
        match scanned.last() {
            Ok(m) => scanned_ok(scanned.drop_last()).push(m),
            Err(_) => scanned_ok(scanned.drop_last()),
        }
    }
}

/// The files a scan could not read, in order.
pub open spec fn scanned_err(scanned: Seq<Result<SessionMeta, String>>) -> Seq<Seq<char>>
    decreases scanned.len(),
{
    if scanned.len() == 0 {
        Seq::empty()
    } else {
        match scanned.last() {
            Ok(_) => scanned_err(scanned.drop_last()),
            Err(e) => scanned_err(scanned.drop_last()).push(e@),
        }
    }
}

/// Position of the first session with id `id`.
pub open spec fn first_with_id(list: Seq<SessionMeta>, id: Seq<char>, k: int) -> Option<int>
    decreases list.len() - k,
{
    if k < 0 || k >= list.len() {
        None
    } else if list[k].id@ == id {
        Some(k)
    } else {
        first_with_id(list, id, k + 1)
    }
}

/// What is said of a session whose id an earlier one already has.
pub open spec fn duplicate_warning_s(dup: SessionMeta, kept: SessionMeta) -> Seq<char> {
    dup.path@ + ": duplicate session id "@ + dup.id@ + " (keeping "@ + kept.path@ + ")"@
}

/// `list` with each id kept once (its first session), and a warning for
/// every later session with an id already kept.
pub open spec fn dedupe_s(list: Seq<SessionMeta>) -> (Seq<SessionMeta>, Seq<Seq<char>>)
    decreases list.len(),
{
    if list.len() == 0 {
        (Seq::empty(), Seq::empty())
    } else {
        let (kept, dups) = dedupe_s(list.drop_last());
        let s = list.last();
        match first_with_id(kept, s.id@, 0) {
            Some(i) => (kept, dups.push(duplicate_warning_s(s, kept[i]))),
            None => (kept.push(s), dups),
        }
    }
}

/// The views of some strings.
pub open spec fn strs(v: Seq<String>) -> Seq<Seq<char>> {
    v.map_values(|s: String| s@)
}

/// A found id is found at a position of the list.
proof fn lemma_first_with_id(list: Seq<SessionMeta>, id: Seq<char>, k: int)
    requires
        0 <= k,
    ensures
        match first_with_id(list, id, k) {
            Some(i) => k <= i < list.len() && list[i].id@ == id,
            None => forall|j: int| k <= j < list.len() ==> list[j].id@ != id,
        },
    decreases list.len() - k,
{
    if k < list.len() && list[k].id@ != id {
        lemma_first_with_id(list, id, k + 1);
    }
}

/// Position of the first session with id `id`.
fn find_first(list: &Vec<SessionMeta>, id: &String) -> (r: Option<usize>)
    ensures
        match r {
            Some(i) => first_with_id(list@, id@, 0) == Some(i as int),
            None => first_with_id(list@, id@, 0) is None,
        },
{
    let mut i: usize = 0;
    while i < list.len()
        invariant
            i <= list@.len(),
            first_with_id(list@, id@, 0) == first_with_id(list@, id@, i as int),
        decreases list@.len() - i,
    {
        if list[i].id == *id {
            return Some(i);
        }
        i = i + 1;
    }
    None
}

impl Index {
    /// The index made from a scan: the sessions it produced, newest activity
    /// first (ties keep scan order), each id once (the newest session keeps
    /// it); `warnings` (what discovery could not read) followed by the files
    /// the scan could not read and one line per duplicate id.
    pub fn assemble(scanned: Vec<Result<SessionMeta, String>>, warnings: Vec<String>) -> (r: Index)
        ensures
            exists|sorted: Seq<SessionMeta>|
                #[trigger] is_sorted_result(Sort::Date, scanned_ok(scanned@), sorted)
                    && r.sessions@ == dedupe_s(sorted).0 && strs(r.warnings@) == strs(warnings@)
                    + scanned_err(scanned@) + dedupe_s(sorted).1,
    {
        let mut sessions: Vec<SessionMeta> = Vec::new();
        let mut warns = warnings;
        let ghost w0 = strs(warns@);
        let mut i: usize = 0;
        while i < scanned.len()
            invariant
                i <= scanned@.len(),
                sessions@ == scanned_ok(scanned@.take(i as int)),
                strs(warns@) == w0 + scanned_err(scanned@.take(i as int)),
            decreases scanned@.len() - i,
        {
            assert(scanned@.take(i + 1).drop_last() =~= scanned@.take(i as int));
            assert(scanned@.take(i + 1).last() == scanned@[i as int]);
            match &scanned[i] {
                Ok(m) => {
                    sessions.push(m.copy());
                },
                Err(e) => {
                    let ghost before = strs(warns@);
                    let c = e.clone();
                    let ghost cv = c@;
                    warns.push(c);
                    assert(strs(warns@) =~= before.push(cv));
                },
            }
            i = i + 1;
        }
        assert(scanned@.take(scanned@.len() as int) =~= scanned@);
        let ghost oks = sessions@;
        Sort::Date.apply(&mut sessions);
        let ghost sorted = sessions@;
        let mut kept: Vec<SessionMeta> = Vec::new();
        let ghost w1 = strs(warns@);
        let mut k: usize = 0;
        assert(sorted.take(0) =~= Seq::<SessionMeta>::empty());
        while k < sessions.len()
            invariant
                k <= sorted.len(),
                sorted == sessions@,
                kept@ == dedupe_s(sorted.take(k as int)).0,
                strs(warns@) == w1 + dedupe_s(sorted.take(k as int)).1,
            decreases sorted.len() - k,
        {
            assert(sorted.take(k + 1).drop_last() =~= sorted.take(k as int));
            assert(sorted.take(k + 1).last() == sorted[k as int]);
            let s = &sessions[k];
            match find_first(&kept, &s.id) {
                Some(j) => {
                    proof {
                        lemma_first_with_id(kept@, s.id@, 0);
                    }
                    let mut w = owned(s.path.as_str());
                    push_str(&mut w, ": duplicate session id ");
                    push_str(&mut w, s.id.as_str());
                    push_str(&mut w, " (keeping ");
                    push_str(&mut w, kept[j].path.as_str());
                    push_str(&mut w, ")");
                    let ghost before = strs(warns@);
                    let ghost wv = w@;
                    warns.push(w);
                    assert(strs(warns@) =~= before.push(wv));
                },
                None => {
                    kept.push(s.copy());
                },
            }
            k = k + 1;
        }
        assert(sorted.take(sorted.len() as int) =~= sorted);
        Index { sessions: kept, warnings: warns }
    }
}

/// Bump whenever what gets indexed changes: entries are keyed on size and
/// mtime, which do not change when the indexing does.
pub const CACHE_SCHEMA: u32 = 2;

/// Session metadata from earlier scans, by transcript path.
#[derive(Debug, Clone)]
pub struct Cache {
    pub schema: u32,
    pub entries: Vec<SessionMeta>,
}

/// Position of the first entry for `path`.
pub open spec fn entry_pos(entries: Seq<SessionMeta>, path: Seq<char>, k: int) -> Option<int>
    decreases entries.len() - k,
{
    if k < 0 || k >= entries.len() {
        None
    } else if entries[k].path@ == path {
        Some(k)
    } else {
        entry_pos(entries, path, k + 1)
    }
}

/// The entry for `path`, if any.
pub open spec fn entry_for(entries: Seq<SessionMeta>, path: Seq<char>) -> Option<SessionMeta> {
    match entry_pos(entries, path, 0) {
        Some(i) => Some(entries[i]),
        None => None,
    }
}

/// The cached metadata for `path`, as long as the file still has the size
/// and mtime it was scanned at.
pub open spec fn lookup_s(entries: Seq<SessionMeta>, path: Seq<char>, size: u64, modified_ms: i64) -> Option<
    SessionMeta,
> {
    match entry_for(entries, path) {
        Some(m) => if m.size_bytes == size && m.modified_ms == modified_ms {
            Some(m)
        } else {
            None
        },
        None => None,
    }
}

/// `entries` with `s` stored under its path, replacing the entry there.
pub open spec fn store_s(entries: Seq<SessionMeta>, s: SessionMeta) -> Seq<SessionMeta> {
    match entry_pos(entries, s.path@, 0) {
        Some(i) => entries.update(i, s),
        None => entries.push(s),
    }
}

/// `entries` with every session of `sessions` stored, in order.
pub open spec fn store_all(entries: Seq<SessionMeta>, sessions: Seq<SessionMeta>) -> Seq<SessionMeta>
    decreases sessions.len(),
{
    if sessions.len() == 0 {
        entries
    } else {
        store_s(store_all(entries, sessions.drop_last()), sessions.last())
    }
}

/// The cache after an index of the tree under `projects`: entries under
/// `projects` are replaced wholesale, so deleted sessions fall out; entries
/// of any other tree are kept.
pub open spec fn refresh_s(entries: Seq<SessionMeta>, sessions: Seq<SessionMeta>, projects: Seq<char>, w: bool) -> Seq<
    SessionMeta,
> {
    store_all(entries.filter(|e: SessionMeta| !under_s(e.path@, projects, w)), sessions)
}

/// A found path is found at a position.
proof fn lemma_entry_pos(entries: Seq<SessionMeta>, path: Seq<char>, k: int)
    requires
        0 <= k,
    ensures
        match entry_pos(entries, path, k) {
            Some(i) => k <= i < entries.len() && entries[i].path@ == path && forall|j: int|
                k <= j < i ==> entries[j].path@ != path,
            None => forall|j: int| k <= j < entries.len() ==> entries[j].path@ != path,
        },
    decreases entries.len() - k,
{
    if k < entries.len() && entries[k].path@ != path {
        lemma_entry_pos(entries, path, k + 1);
    }
}

/// Position of the first entry for `path`.
fn find_entry(entries: &Vec<SessionMeta>, path: &str) -> (r: Option<usize>)
    ensures
        match r {
            Some(i) => entry_pos(entries@, path@, 0) == Some(i as int),
            None => entry_pos(entries@, path@, 0) is None,
        },
{
    let mut i: usize = 0;
    while i < entries.len()
        invariant
            i <= entries@.len(),
            entry_pos(entries@, path@, 0) == entry_pos(entries@, path@, i as int),
        decreases entries@.len() - i,
    {
        if crate::text::str_eq(entries[i].path.as_str(), path) {
            return Some(i);
        }
        i = i + 1;
    }
    None
}

impl Cache {
    /// A cache that knows nothing.
    pub fn empty() -> (r: Cache)
        ensures
            r.schema == CACHE_SCHEMA,
            r.entries@.len() == 0,
    {
        Cache { schema: CACHE_SCHEMA, entries: Vec::new() }
    }

    /// What was read from disk, unless it was written by an index of another
    /// shape, in which case nothing.
    pub fn accepted(loaded: Cache) -> (r: Cache)
        ensures
            loaded.schema == CACHE_SCHEMA ==> r.entries == loaded.entries,
            loaded.schema != CACHE_SCHEMA ==> r.entries@.len() == 0,
            r.schema == CACHE_SCHEMA,
    {
        if loaded.schema == CACHE_SCHEMA {
            loaded
        } else {
            Cache::empty()
        }
    }

    /// The cached metadata of the transcript at `path`, if the file still
    /// has the size and mtime it had when scanned.
    pub fn get(&self, path: &str, size: u64, modified_ms: i64) -> (r: Option<SessionMeta>)
        ensures
            r == lookup_s(self.entries@, path@, size, modified_ms),
    {
        match find_entry(&self.entries, path) {
            Some(i) => {
                proof {
                    lemma_entry_pos(self.entries@, path@, 0);
                }
                let m = &self.entries[i];
                if m.size_bytes == size && m.modified_ms == modified_ms {
                    Some(m.copy())
                } else {
                    None
                }
            },
            None => None,
        }
    }

    /// The cache after indexing the tree under `projects` into `sessions`;
    /// `w` says whether paths follow Windows' rules.
    pub fn refreshed(&self, sessions: &Vec<SessionMeta>, projects: &str, w: bool) -> (r: Cache)
        ensures
            r.schema == CACHE_SCHEMA,
            r.entries@ == refresh_s(self.entries@, sessions@, projects@, w),
    {
        let ghost pred = |e: SessionMeta| !under_s(e.path@, projects@, w);
        let mut out: Vec<SessionMeta> = Vec::new();
        let mut i: usize = 0;
        while i < self.entries.len()
            invariant
                i <= self.entries@.len(),
                pred == |e: SessionMeta| !under_s(e.path@, projects@, w),
                out@ == self.entries@.subrange(0, i as int).filter(pred),
            decreases self.entries@.len() - i,
        {
            assert(self.entries@.subrange(0, i + 1).drop_last() =~= self.entries@.subrange(0, i as int));
            reveal(Seq::filter);
            if !is_under(self.entries[i].path.as_str(), projects, w) {
                out.push(self.entries[i].copy());
            }
            i = i + 1;
        }
        assert(self.entries@.subrange(0, self.entries@.len() as int) =~= self.entries@);
        let ghost base = out@;
        let mut k: usize = 0;
        assert(sessions@.take(0) =~= Seq::<SessionMeta>::empty());
        while k < sessions.len()
            invariant
                k <= sessions@.len(),
                out@ == store_all(base, sessions@.take(k as int)),
            decreases sessions@.len() - k,
        {
            assert(sessions@.take(k + 1).drop_last() =~= sessions@.take(k as int));
            assert(sessions@.take(k + 1).last() == sessions@[k as int]);
            let s = &sessions[k];
            match find_entry(&out, s.path.as_str()) {
                Some(j) => {
                    proof {
                        lemma_entry_pos(out@, s.path@, 0);
                    }
                    out.set(j, s.copy());
                },
                None => {
                    out.push(s.copy());
                },
            }
            k = k + 1;
        }
        assert(sessions@.take(sessions@.len() as int) =~= sessions@);
        Cache { schema: CACHE_SCHEMA, entries: out }
    }
}

/// The index holds each id once.
pub proof fn assembled_ids_are_distinct(list: Seq<SessionMeta>)
    ensures
        forall|i: int, j: int|
            0 <= i < j < dedupe_s(list).0.len() ==> dedupe_s(list).0[i].id@ != dedupe_s(list).0[j].id@,
    decreases list.len(),
{
    if list.len() > 0 {
        assembled_ids_are_distinct(list.drop_last());
        let kept = dedupe_s(list.drop_last()).0;
        let s = list.last();
        lemma_first_with_id(kept, s.id@, 0);
    }
}

/// The entry a path finds after storing `s`: `s` itself for its own path,
/// else what the path found before.
proof fn lemma_store_entry(entries: Seq<SessionMeta>, s: SessionMeta, path: Seq<char>)
    ensures
        entry_for(store_s(entries, s), path) == if path == s.path@ {
            Some(s)
        } else {
            entry_for(entries, path)
        },
{
    lemma_entry_pos(entries, s.path@, 0);
    lemma_entry_pos(entries, path, 0);
    let e2 = store_s(entries, s);
    lemma_entry_pos(e2, path, 0);
    match entry_pos(entries, s.path@, 0) {
        Some(i) => {
            assert(e2 == entries.update(i, s));
            if path == s.path@ {
                assert(e2[i].path@ == path);
                if let Some(k) = entry_pos(e2, path, 0) {
                    if k < i {
                        assert(e2[k] == entries[k]);
                    }
                }
            } else {
                match entry_pos(entries, path, 0) {
                    Some(m) => {
                        assert(m != i);
                        assert(e2[m] == entries[m]);
                        if let Some(k) = entry_pos(e2, path, 0) {
                            if k < m {
                                assert(k != i);
                                assert(e2[k] == entries[k]);
                            }
                        }
                    },
                    None => {
                        if let Some(k) = entry_pos(e2, path, 0) {
                            assert(k != i);
                            assert(e2[k] == entries[k]);
                        }
                    },
                }
            }
        },
        None => {
            assert(e2 == entries.push(s));
            if path == s.path@ {
                assert(e2[entries.len() as int].path@ == path);
                if let Some(k) = entry_pos(e2, path, 0) {
                    if k < entries.len() {
                        assert(e2[k] == entries[k]);
                    }
                }
            } else {
                match entry_pos(entries, path, 0) {
                    Some(m) => {
                        assert(e2[m] == entries[m]);
                        if let Some(k) = entry_pos(e2, path, 0) {
                            if k < m {
                                assert(e2[k] == entries[k]);
                            }
                        }
                    },
                    None => {
                        if let Some(k) = entry_pos(e2, path, 0) {
                            if k < entries.len() {
                                assert(e2[k] == entries[k]);
                            }
                        }
                    },
                }
            }
        },
    }
}

/// The last session of `sessions` stored under `path`, if any.
pub open spec fn last_for(sessions: Seq<SessionMeta>, path: Seq<char>) -> Option<SessionMeta>
    decreases sessions.len(),
{
    if sessions.len() == 0 {
        None
    } else if sessions.last().path@ == path {
        Some(sessions.last())
    } else {
        last_for(sessions.drop_last(), path)
    }
}

/// What a path finds after storing a run of sessions: the last of them
/// stored under it, else what it found before.
proof fn lemma_store_all_entry(entries: Seq<SessionMeta>, sessions: Seq<SessionMeta>, path: Seq<char>)
    ensures
        entry_for(store_all(entries, sessions), path) == match last_for(sessions, path) {
            Some(s) => Some(s),
            None => entry_for(entries, path),
        },
    decreases sessions.len(),
{
    if sessions.len() > 0 {
        lemma_store_all_entry(entries, sessions.drop_last(), path);
        lemma_store_entry(store_all(entries, sessions.drop_last()), sessions.last(), path);
    }
}

/// The cache a scan leaves serves that scan back: looking up a scanned
/// session by its path, size and mtime gives the session stored last under
/// that path.
pub proof fn refreshed_cache_serves_the_scan(
    entries: Seq<SessionMeta>,
    sessions: Seq<SessionMeta>,
    projects: Seq<char>,
    w: bool,
    s: SessionMeta,
)
    requires
        last_for(sessions, s.path@) == Some(s),
    ensures
        lookup_s(refresh_s(entries, sessions, projects, w), s.path@, s.size_bytes, s.modified_ms) == Some(
            s,
        ),
{
    lemma_store_all_entry(
        entries.filter(|e: SessionMeta| !under_s(e.path@, projects, w)),
        sessions,
        s.path@,
    );
}

/// A file whose size or mtime changed since it was cached is scanned again.
pub proof fn changed_files_miss(entries: Seq<SessionMeta>, path: Seq<char>, size: u64, modified_ms: i64)
    requires
        entry_for(entries, path) matches Some(m) && (m.size_bytes != size || m.modified_ms
            != modified_ms),
    ensures
        lookup_s(entries, path, size, modified_ms) is None,
{
}

/// What a path finds after one more entry: what it found before, else the
/// new entry when it is stored under the path.
proof fn lemma_entry_for_push(entries: Seq<SessionMeta>, x: SessionMeta, path: Seq<char>)
    ensures
        entry_for(entries.push(x), path) == match entry_for(entries, path) {
            Some(m) => Some(m),
            None => if x.path@ == path {
                Some(x)
            } else {
                None
            },
        },
{
    let e2 = entries.push(x);
    lemma_entry_pos(entries, path, 0);
    lemma_entry_pos(e2, path, 0);
    match entry_pos(entries, path, 0) {
        Some(i) => {
            assert(e2[i] == entries[i]);
            if let Some(k) = entry_pos(e2, path, 0) {
                if k < i {
                    assert(e2[k] == entries[k]);
                }
            }
        },
        None => {
            if let Some(k) = entry_pos(e2, path, 0) {
                if k < entries.len() {
                    assert(e2[k] == entries[k]);
                }
            } else {
                if x.path@ == path {
                    assert(e2[entries.len() as int].path@ == path);
                }
            }
        },
    }
}

/// Dropping the entries under `projects` leaves what a path outside it
/// finds, and leaves nothing for a path under it.
proof fn lemma_entry_for_filter(entries: Seq<SessionMeta>, projects: Seq<char>, path: Seq<char>, w: bool)
    ensures
        entry_for(entries.filter(|e: SessionMeta| !under_s(e.path@, projects, w)), path) == if under_s(
            path,
            projects,
            w,
        ) {
            None
        } else {
            entry_for(entries, path)
        },
    decreases entries.len(),
{
    let pred = |e: SessionMeta| !under_s(e.path@, projects, w);
    if entries.len() == 0 {
        assert(entries.filter(pred) =~= Seq::<SessionMeta>::empty());
    } else {
        let d = entries.drop_last();
        let x = entries.last();
        lemma_entry_for_filter(d, projects, path, w);
        reveal(Seq::filter);
        assert(entries.drop_last() == d);
        if pred(x) {
            assert(entries.filter(pred) == d.filter(pred).push(x));
            lemma_entry_for_push(d.filter(pred), x, path);
        } else {
            assert(entries.filter(pred) == d.filter(pred));
        }
        assert(entries =~= d.push(x));
        lemma_entry_for_push(d, x, path);
    }
}

/// Refreshing the cache keeps what it knew of other trees (a path outside
/// `projects` that the scan did not produce finds the same entry), and
/// drops what it knew of sessions under `projects` that are gone.
pub proof fn refresh_keeps_other_trees_and_drops_the_gone(
    entries: Seq<SessionMeta>,
    sessions: Seq<SessionMeta>,
    projects: Seq<char>,
    w: bool,
    path: Seq<char>,
)
    requires
        last_for(sessions, path) is None,
    ensures
        !under_s(path, projects, w) ==> entry_for(refresh_s(entries, sessions, projects, w), path)
            == entry_for(entries, path),
        under_s(path, projects, w) ==> entry_for(refresh_s(entries, sessions, projects, w), path) is None,
{
    let kept = entries.filter(|e: SessionMeta| !under_s(e.path@, projects, w));
    lemma_store_all_entry(kept, sessions, path);
    lemma_entry_for_filter(entries, projects, path, w);
}

} // verus!
