//! Layout of the agent's config directory, and the guards that keep a delete
//! inside it.
//!
//! Paths are modelled as strings in normalized form (no `.` or `..`
//! components, no doubled separators), which is what canonicalization
//! produces. `/` separates components everywhere; on Windows `\\` does too,
//! and is the separator that joining adds, as with `std::path`.

use vstd::prelude::*;
use crate::text::{chars_of, concat, find_chars, find_from, is_whitespace, is_ws, occurs_at, owned,
    push_str, starts_with_s, string_of_range};

verus! {

/// Resolved layout of the agent's config directory. `windows` says whether
/// paths follow Windows' rules (`\\` as a separator too).
pub struct ConfigDir {
    pub root: String,
    pub windows: bool,
}

/// `c` separates path components: `/` always, `\\` on Windows.
pub open spec fn is_sep(c: char, windows: bool) -> bool {
    c == '/' || (windows && c == '\\')
}

/// The separator that joining adds.
pub open spec fn main_sep(windows: bool) -> char {
    if windows {
        '\\'
    } else {
        '/'
    }
}

/// `base` joined with the relative component `comp`: a separator goes
/// between them unless `base` already ends with one.
pub open spec fn join_s(base: Seq<char>, comp: Seq<char>, windows: bool) -> Seq<char> {
    if base.len() > 0 && is_sep(base.last(), windows) {
        base + comp
    } else {
        base.push(main_sep(windows)) + comp
    }
}

/// `path` is `root` or lies below it, compared component by component.
pub open spec fn under_s(path: Seq<char>, root: Seq<char>, windows: bool) -> bool {
    starts_with_s(path, root) && (path.len() == root.len() || (root.len() > 0 && is_sep(
        root.last(),
        windows,
    )) || is_sep(path[root.len() as int], windows))
}

/// `base` joined with `comp`.
pub fn join(base: &str, comp: &str, windows: bool) -> (r: String)
    ensures
        r@ == join_s(base@, comp@, windows),
{
    let v = chars_of(base);
    if v.len() > 0 && (v[v.len() - 1] == '/' || (windows && v[v.len() - 1] == '\\')) {
        concat(base, comp)
    } else {
        let mut a = owned(base);
        if windows {
            crate::text::push_char(&mut a, '\\');
        } else {
            crate::text::push_char(&mut a, '/');
        }
        concat(a.as_str(), comp)
    }
}

/// `path` is `root` or lies below it, component by component.
pub fn is_under(path: &str, root: &str, windows: bool) -> (r: bool)
    ensures
        r == under_s(path@, root@, windows),
{
    let p = chars_of(path);
    let q = chars_of(root);
    if q.len() > p.len() {
        return false;
    }
    let mut i: usize = 0;
    while i < q.len()
        invariant
            q.len() <= p.len(),
            p@ == path@,
            q@ == root@,
            i <= q.len(),
            forall|k: int| 0 <= k < i ==> p@[k] == q@[k],
        decreases q.len() - i,
    {
        if p[i] != q[i] {
            assert(p@.subrange(0, q@.len() as int)[i as int] != q@[i as int]);
            return false;
        }
        i = i + 1;
    }
    assert(p@.subrange(0, q@.len() as int) =~= q@);
    p.len() == q.len() || (q.len() > 0 && (q[q.len() - 1] == '/' || (windows && q[q.len() - 1]
        == '\\'))) || p[q.len()] == '/' || (windows && p[q.len()] == '\\')
}

/// A character an id may hold: ASCII letters and digits, `.`, `_` and `-`.
pub open spec fn id_char(c: char) -> bool {
    ('a' <= c && c <= 'z') || ('A' <= c && c <= 'Z') || ('0' <= c && c <= '9') || c == '.' || c
        == '_' || c == '-'
}

/// A file stem that can safely be joined onto a directory as one component:
/// non-empty, only [`id_char`]s, and not ending in `.` (which also rules out
/// `.`, `..` and every all-dots name that Windows resolves to the directory
/// itself).
pub open spec fn is_session_id_s(id: Seq<char>) -> bool {
    id.len() > 0 && (forall|i: int| 0 <= i < id.len() ==> id_char(#[trigger] id[i])) && id.last()
        != '.'
}

/// A session id is one path component naming something below the directory
/// it is joined to: it holds no separator (nor a drive colon), and it is
/// neither `.` nor `..`.
pub proof fn session_id_is_one_component(id: Seq<char>)
    requires
        is_session_id_s(id),
    ensures
        forall|i: int| 0 <= i < id.len() ==> id[i] != '/' && id[i] != '\\' && id[i] != ':',
        id != seq!['.'],
        id != seq!['.', '.'],
{
    assert forall|i: int| 0 <= i < id.len() implies id[i] != '/' && id[i] != '\\' && id[i] != ':' by {
        assert(id_char(id[i]));
    }
    if id == seq!['.'] {
        assert(id.last() == '.');
    }
    if id == seq!['.', '.'] {
        assert(id.last() == '.');
    }
}

/// Joining keeps the base as a prefix, and the first character of the
/// component follows it (after the separator, where one is added).
proof fn lemma_join_prefix(base: Seq<char>, comp: Seq<char>, w: bool)
    ensures
        join_s(base, comp, w).len() == sep_end(base, w) + comp.len(),
        forall|i: int| 0 <= i < base.len() ==> #[trigger] join_s(base, comp, w)[i] == base[i],
        comp.len() > 0 ==> join_s(base, comp, w)[sep_end(base, w)] == comp[0],
{
}

/// Where a component joined onto `base` begins.
pub open spec fn sep_end(base: Seq<char>, windows: bool) -> int {
    if base.len() > 0 && is_sep(base.last(), windows) {
        base.len() as int
    } else {
        base.len() as int + 1
    }
}

/// The character at `sep_end(root)` of a path joined under `root/top`.
proof fn lemma_nested_head(root: Seq<char>, top: Seq<char>, rest: Seq<char>, w: bool)
    requires
        top.len() > 0,
    ensures
        join_s(join_s(root, top, w), rest, w).len() > sep_end(root, w),
        join_s(join_s(root, top, w), rest, w)[sep_end(root, w)] == top[0],
{
    lemma_join_prefix(root, top, w);
    lemma_join_prefix(join_s(root, top, w), rest, w);
    assert(sep_end(root, w) < join_s(root, top, w).len());
}

/// The prompt history that all sessions share is never part of one: no path
/// that a session's delete may take is `root/history.jsonl`.
pub proof fn history_is_never_a_candidate(root: Seq<char>, slug: Seq<char>, id: Seq<char>, w: bool)
    ensures
        forall|k: int|
            0 <= k < session_candidates_s(root, slug, id, w).len() ==> #[trigger] session_candidates_s(
                root,
                slug,
                id,
                w,
            )[k] != join_s(root, "history.jsonl"@, w),
{
    reveal_strlit("history.jsonl");
    reveal_strlit("projects");
    reveal_strlit("session-env");
    reveal_strlit("file-history");
    let history = join_s(root, "history.jsonl"@, w);
    lemma_join_prefix(root, "history.jsonl"@, w);
    assert(history[sep_end(root, w)] == 'h');
    if is_session_id_s(id) {
        let projects = join_s(root, "projects"@, w);
        let project = join_s(projects, slug, w);
        lemma_nested_head(root, "projects"@, slug, w);
        lemma_join_prefix(project, id + ".jsonl"@, w);
        lemma_join_prefix(project, id, w);
        lemma_nested_head(root, "session-env"@, id, w);
        lemma_nested_head(root, "file-history"@, id, w);
        let c = session_candidates_s(root, slug, id, w);
        assert(c[0][sep_end(root, w)] == 'p');
        assert(c[1][sep_end(root, w)] == 'p');
        assert(c[2][sep_end(root, w)] == 's');
        assert(c[3][sep_end(root, w)] == 'f');
    }
}

/// A file stem that can safely be joined onto a directory as one component.
/// Ids come from file names, not validated UUIDs, so this is the only thing
/// standing between a stray `....jsonl` and a delete plan for a whole directory.
pub fn is_session_id(id: &str) -> (r: bool)
    ensures
        r == is_session_id_s(id@),
{
    let v = chars_of(id);
    if v.len() == 0 || v[v.len() - 1] == '.' {
        return false;
    }
    let mut i: usize = 0;
    while i < v.len()
        invariant
            i <= v.len(),
            v@ == id@,
            forall|k: int| 0 <= k < i ==> id_char(#[trigger] v@[k]),
        decreases v.len() - i,
    {
        let c = v[i];
        if !(('a' <= c && c <= 'z') || ('A' <= c && c <= 'Z') || ('0' <= c && c <= '9') || c
            == '.' || c == '_' || c == '-') {
            assert(!id_char(v@[i as int]));
            return false;
        }
        i = i + 1;
    }
    true
}

/// Every path that belongs to session `id` of project `slug`: the
/// transcript, its sidechain directory, and the two sidecar directories.
/// Nothing at all for an id that is not a single safe path component.
pub open spec fn session_candidates_s(root: Seq<char>, slug: Seq<char>, id: Seq<char>, w: bool) -> Seq<
    Seq<char>,
> {
    if !is_session_id_s(id) {
        Seq::empty()
    } else {
        let project = join_s(join_s(root, "projects"@, w), slug, w);
        seq![
            join_s(project, id + ".jsonl"@, w),
            join_s(project, id, w),
            join_s(join_s(root, "session-env"@, w), id, w),
            join_s(join_s(root, "file-history"@, w), id, w),
        ]
    }
}

/// The elements of `v` whose flag is set, in order.
pub open spec fn keep_flagged<T>(v: Seq<T>, flags: Seq<bool>) -> Seq<T>
    decreases v.len(),
{
    if v.len() == 0 {
        Seq::empty()
    } else {
        let rest = keep_flagged(v.drop_last(), flags);
        if (v.len() - 1) < flags.len() && flags[v.len() - 1] {
            rest.push(v.last())
        } else {
            rest
        }
    }
}

/// What a verbatim-prefix-free canonical path looks like: `\\?\` is dropped
/// unless it introduces a UNC path.
pub open spec fn canon_s(canonical: Seq<char>) -> Seq<char> {
    let prefix = "\\\\?\\"@;
    if starts_with_s(canonical, prefix) && !starts_with_s(
        canonical.subrange(prefix.len() as int, canonical.len() as int),
        "UNC\\"@,
    ) {
        canonical.subrange(prefix.len() as int, canonical.len() as int)
    } else {
        canonical
    }
}

impl ConfigDir {
    /// `root/projects`.
    pub fn projects(&self) -> (r: String)
        ensures
            r@ == join_s(self.root@, "projects"@, self.windows),
    {
        join(self.root.as_str(), "projects", self.windows)
    }

    /// Every path that belongs to a session and should go away with it, before
    /// asking which of them exist.
    pub fn session_candidates(&self, project_slug: &str, id: &str) -> (r: Vec<String>)
        ensures
            r@.map_values(|p: String| p@) == session_candidates_s(self.root@, project_slug@, id@, self.windows),
    {
        // `projects/<slug>/.` is the project dir and `projects/<slug>/..` is
        // all of them; both would pass `contains`. Refuse before building the
        // paths at all.
        if !is_session_id(id) {
            let r: Vec<String> = Vec::new();
            assert(r@.map_values(|p: String| p@) =~= Seq::<Seq<char>>::empty());
            return r;
        }
        let projects = self.projects();
        let w = self.windows;
        let project = join(projects.as_str(), project_slug, w);
        let file = concat(id, ".jsonl");
        let env = join(self.root.as_str(), "session-env", w);
        let hist = join(self.root.as_str(), "file-history", w);
        let mut r: Vec<String> = Vec::new();
        r.push(join(project.as_str(), file.as_str(), w));
        r.push(join(project.as_str(), id, w));
        r.push(join(env.as_str(), id, w));
        r.push(join(hist.as_str(), id, w));
        assert(r@.map_values(|p: String| p@) =~= session_candidates_s(
            self.root@,
            project_slug@,
            id@,
            self.windows,
        ));
        r
    }

    /// Every path that belongs to a session and should go away with it. Only
    /// the candidates flagged as existing (`exists[k]` for candidate `k`) are
    /// returned, in order.
    pub fn session_paths(&self, project_slug: &str, id: &str, exists: &[bool]) -> (r: Vec<String>)
        ensures
            r@.map_values(|p: String| p@) == keep_flagged(
                session_candidates_s(self.root@, project_slug@, id@, self.windows),
                exists@,
            ),
    {
        let cands = self.session_candidates(project_slug, id);
        let ghost cv = cands@.map_values(|p: String| p@);
        let mut r: Vec<String> = Vec::new();
        let mut i: usize = 0;
        while i < cands.len()
            invariant
                i <= cands.len(),
                cv == cands@.map_values(|p: String| p@),
                r@.map_values(|p: String| p@) == keep_flagged(cv.subrange(0, i as int), exists@),
            decreases cands.len() - i,
        {
            assert(cv.subrange(0, i + 1).drop_last() =~= cv.subrange(0, i as int));
            if i < exists.len() && exists[i] {
                r.push(owned(cands[i].as_str()));
                assert(r@.map_values(|p: String| p@) =~= keep_flagged(
                    cv.subrange(0, i as int),
                    exists@,
                ).push(cv[i as int]));
            }
            i = i + 1;
        }
        assert(cv.subrange(0, cv.len() as int) =~= cv);
        r
    }

    /// Guard against deleting anything outside the config dir. `canonical`
    /// is the path with symlinks and `..` resolved (see [`canon`]), or `None`
    /// when it could not be resolved. The root itself is never inside.
    pub fn contains(&self, canonical: &Option<String>) -> (r: bool)
        ensures
            r == (match canonical {
                Some(c) => under_s(c@, self.root@, self.windows) && c@ != self.root@,
                None => false,
            }),
    {
        match canonical {
            Some(c) => {
                let inside = is_under(c.as_str(), self.root.as_str(), self.windows);
                let cv = chars_of(c.as_str());
                let rv = chars_of(self.root.as_str());
                proof {
                    if cv@.len() == rv@.len() && under_s(self.root@, c@, self.windows) {
                        assert(self.root@.subrange(0, c@.len() as int) =~= self.root@);
                    }
                    if c@ == self.root@ {
                        assert(c@.subrange(0, c@.len() as int) =~= c@);
                    }
                }
                inside && !(cv.len() == rv.len() && is_under(self.root.as_str(), c.as_str(), self.windows))
            },
            None => false,
        }
    }
}

/// Drop Windows' `\\?\` verbatim prefix from a canonical path so it stays
/// readable, but keep it on UNC paths. Both sides of a `contains` check go
/// through this.
pub fn canon(canonical: &str) -> (r: String)
    ensures
        r@ == canon_s(canonical@),
{
    let v = chars_of(canonical);
    let prefix = chars_of("\\\\?\\");
    let unc = chars_of("UNC\\");
    proof {
        reveal_strlit("\\\\?\\");
    }
    if crate::text::starts_with_chars(&v, &prefix) {
        let rest = string_of_range(&v, prefix.len(), v.len());
        let rv = chars_of(rest.as_str());
        if !crate::text::starts_with_chars(&rv, &unc) {
            return rest;
        }
    }
    owned(canonical)
}

} // verus!
