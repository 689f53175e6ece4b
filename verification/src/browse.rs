//! The terminal browser's state and what each key does to it. Drawing, the
//! terminal and the file system stay outside: a key yields an [`Action`]
//! that names the outside work to do, and its result comes back through the
//! methods that take it.

use vstd::prelude::*;
use crate::del::DeletePlan;
use crate::index::{is_marked, is_sorted_result, matches_filter, msgs_fit, opt_str, projects_s,
    rows_v, total_bytes, Index, Project, ProjectV, SessionMeta, Sort};
use crate::text::{concat, lower_s, owned, push_char};
use crate::title::opt_view;

verus! {

/// The three panes, left to right.
#[derive(Debug, Clone, Copy, PartialEq, Eq, Structural)]
pub enum Pane {
    Projects,
    Sessions,
    Preview,
}

/// What keys currently mean.
#[derive(Debug, Clone)]
pub enum Mode {
    Browse,
    Filter,
    Confirm(Vec<DeletePlan>),
}

/// A key, as far as the browser tells keys apart.
#[derive(Debug, Clone, Copy, PartialEq, Eq, Structural)]
pub enum KeyCode {
    Char(char),
    Esc,
    Enter,
    Backspace,
    Tab,
    BackTab,
    Up,
    Down,
    PageUp,
    PageDown,
    Home,
    End,
    Other,
}

/// A key press, with whether Control was held.
#[derive(Debug, Clone, Copy, PartialEq, Eq, Structural)]
pub struct Key {
    pub code: KeyCode,
    pub ctrl: bool,
}

/// Outside work a key asks for.
#[derive(Debug)]
pub enum Action {
    /// Nothing.
    Nothing,
    /// Reload the preview if the highlighted session changed
    /// ([`Browser::needs_preview`]).
    SyncPreview,
    /// Rebuild the index and hand it to [`Browser::reindexed`], announcing a
    /// clean reload.
    Reindex,
    /// Plan the delete of these sessions and hand the plans to
    /// [`Browser::confirm`].
    Plan(Vec<SessionMeta>),
    /// Move these to the recycle bin, report through [`Browser::deleted`],
    /// then rebuild the index without announcing it.
    Delete(Vec<DeletePlan>),
}

/// The terminal browser.
pub struct Browser {
    pub index: Index,
    pub project_rows: Vec<Project>,
    /// 0 is the "all projects" row; `n` is `project_rows[n - 1]`.
    pub project_sel: usize,
    pub visible: Vec<SessionMeta>,
    pub session_sel: usize,
    /// Marked session ids, each once. Marks are global: a project or filter
    /// change keeps them.
    pub marked: Vec<String>,
    /// How many lines the preview holds.
    pub preview_len: usize,
    pub preview_scroll: usize,
    /// The session the preview was built for.
    pub preview_for: Option<String>,
    pub focus: Pane,
    pub mode: Mode,
    pub filter: String,
    pub sort: Sort,
    pub status: String,
    pub quit: bool,
}

/// The index fits the counters its summaries are kept in.
pub open spec fn index_fits(ix: Index) -> bool {
    msgs_fit(ix.sessions@) && total_bytes(ix.sessions@) <= u64::MAX
}

/// The marks hold each id once.
pub open spec fn marks_distinct(m: Seq<String>) -> bool {
    forall|i: int, j: int| 0 <= i < j < m.len() ==> m[i]@ != m[j]@
}

/// `id` is marked.
pub open spec fn has_mark(m: Seq<String>, id: Seq<char>) -> bool {
    exists|k: int| 0 <= k < m.len() && #[trigger] m[k]@ == id
}

/// The slug of the selected project row, `None` for "all projects".
pub open spec fn selected_slug_s(rows: Seq<Project>, sel: int) -> Option<Seq<char>> {
    if 1 <= sel <= rows.len() {
        Some(rows[sel - 1].slug@)
    } else {
        None
    }
}

/// The highlighted session, if the list holds one there.
pub open spec fn current_s(visible: Seq<SessionMeta>, sel: int) -> Option<SessionMeta> {
    if 0 <= sel < visible.len() {
        Some(visible[sel])
    } else {
        None
    }
}

/// The id of the highlighted session.
pub open spec fn current_id_s(visible: Seq<SessionMeta>, sel: int) -> Option<Seq<char>> {
    match current_s(visible, sel) {
        Some(m) => Some(m.id@),
        None => None,
    }
}

/// Position of the first session with id `id` at or after `k`.
pub open spec fn id_pos_from(list: Seq<SessionMeta>, id: Seq<char>, k: int) -> Option<int>
    decreases list.len() - k,
{
    if k < 0 || k >= list.len() {
        None
    } else if list[k].id@ == id {
        Some(k)
    } else {
        id_pos_from(list, id, k + 1)
    }
}

/// Position of the first session with id `id`.
pub open spec fn id_pos(list: Seq<SessionMeta>, id: Seq<char>) -> Option<int> {
    id_pos_from(list, id, 0)
}

/// Position of the first row for `slug`.
pub open spec fn slug_pos_from(rows: Seq<Project>, slug: Seq<char>, k: int) -> Option<int>
    decreases rows.len() - k,
{
    if k < 0 || k >= rows.len() {
        None
    } else if rows[k].slug@ == slug {
        Some(k)
    } else {
        slug_pos_from(rows, slug, k + 1)
    }
}

/// `n - 1`, or 0 for an empty list.
pub open spec fn last_row(n: nat) -> nat {
    if n == 0 {
        0
    } else {
        (n - 1) as nat
    }
}

/// The sessions the list shows for project `slug` and `filter`, in `sort`
/// order.
pub open spec fn listed(ix: Index, slug: Option<Seq<char>>, filter: Seq<char>, sort: Sort, out: Seq<
    SessionMeta,
>) -> bool {
    is_sorted_result(
        sort,
        ix.sessions@.filter(|m: SessionMeta| matches_filter(m, slug, lower_s(filter))),
        out,
    )
}

/// `b` is well formed: the selections point into their lists (or at row 0
/// of an empty one), the marks are distinct and the index fits its counters.
pub open spec fn browser_ok(b: Browser) -> bool {
    &&& b.project_sel <= b.project_rows@.len()
    &&& (b.session_sel == 0 || b.session_sel < b.visible@.len())
    &&& marks_distinct(b.marked@)
    &&& index_fits(b.index)
}

/// `b` lists what its project, filter and sort select, and its project rows
/// are the index's projects.
pub open spec fn lists_ok(b: Browser) -> bool {
    &&& rows_v(b.project_rows@) == projects_s(b.index.sessions@)
    &&& listed(
        b.index,
        selected_slug_s(b.project_rows@, b.project_sel as int),
        b.filter@,
        b.sort,
        b.visible@,
    )
}

/// The marks, preview, focus, status and quit flag are the same in `a` and
/// `b`.
pub open spec fn keeps(a: Browser, b: Browser) -> bool {
    &&& a.marked == b.marked
    &&& a.preview_len == b.preview_len
    &&& a.preview_scroll == b.preview_scroll
    &&& a.preview_for == b.preview_for
    &&& a.focus == b.focus
    &&& a.status == b.status
    &&& a.quit == b.quit
}

/// The fields a list rebuild leaves alone are the same in `a` and `b`.
pub open spec fn same_settings(a: Browser, b: Browser) -> bool {
    &&& keeps(a, b)
    &&& a.index == b.index
    &&& a.filter == b.filter
    &&& a.sort == b.sort
    &&& a.mode == b.mode
}

/// Where the highlight lands in `list` after a rebuild, given where it was:
/// on the same session where the new list holds it, else clamped.
pub open spec fn kept_sel(old_visible: Seq<SessionMeta>, old_sel: int, list: Seq<SessionMeta>) -> nat {
    let clamped = if old_sel < last_row(list.len()) {
        old_sel as nat
    } else {
        last_row(list.len())
    };
    match current_id_s(old_visible, old_sel) {
        Some(id) => match id_pos(list, id) {
            Some(i) => i as nat,
            None => clamped,
        },
        None => clamped,
    }
}

/// `b`'s session list is what its project, filter and sort select, with the
/// highlight following `a`'s; index and project rows are `a`'s.
pub open spec fn relisted(a: Browser, b: Browser) -> bool {
    &&& b.index == a.index
    &&& b.project_rows == a.project_rows
    &&& b.project_sel == a.project_sel
    &&& listed(b.index, selected_slug_s(b.project_rows@, b.project_sel as int), b.filter@, b.sort, b.visible@)
    &&& b.session_sel == kept_sel(a.visible@, a.session_sel as int, b.visible@)
}

/// `b` is `a` with its session list rebuilt and the highlight kept on the
/// same session where the new list holds it, else clamped to the list.
pub open spec fn refiltered(a: Browser, b: Browser) -> bool {
    same_settings(a, b) && relisted(a, b)
}

/// `b` is `a` pointed at project row `sel`, its list rebuilt and the
/// highlight on the top row.
pub open spec fn project_selected(a: Browser, b: Browser, sel: int) -> bool {
    &&& same_settings(a, b)
    &&& b.project_rows == a.project_rows
    &&& b.project_sel == sel
    &&& listed(b.index, selected_slug_s(b.project_rows@, sel), b.filter@, b.sort, b.visible@)
    &&& b.session_sel == 0
}

/// `cur + delta` clamped to a list of `len` rows (0 for an empty list).
pub open spec fn step_s(cur: int, len: int, delta: int) -> int {
    if len == 0 {
        0
    } else if cur + delta < 0 {
        0
    } else if cur + delta > len - 1 {
        len - 1
    } else {
        cur + delta
    }
}

/// The last scroll offset that still leaves a line on screen.
pub open spec fn max_scroll_s(preview_len: nat) -> nat {
    last_row(preview_len)
}

/// Position of the first session with id `id`.
fn find_id(list: &Vec<SessionMeta>, id: &String) -> (r: Option<usize>)
    ensures
        match r {
            Some(i) => id_pos(list@, id@) == Some(i as int),
            None => id_pos(list@, id@) is None,
        },
{
    let mut i: usize = 0;
    while i < list.len()
        invariant
            i <= list@.len(),
            id_pos(list@, id@) == id_pos_from(list@, id@, i as int),
        decreases list@.len() - i,
    {
        if list[i].id == *id {
            return Some(i);
        }
        i = i + 1;
    }
    None
}

/// Position of the first row for `slug`.
fn find_slug(rows: &Vec<Project>, slug: &String) -> (r: Option<usize>)
    ensures
        match r {
            Some(i) => slug_pos_from(rows@, slug@, 0) == Some(i as int),
            None => slug_pos_from(rows@, slug@, 0) is None,
        },
{
    let mut i: usize = 0;
    while i < rows.len()
        invariant
            i <= rows@.len(),
            slug_pos_from(rows@, slug@, 0) == slug_pos_from(rows@, slug@, i as int),
        decreases rows@.len() - i,
    {
        if rows[i].slug == *slug {
            return Some(i);
        }
        i = i + 1;
    }
    None
}

impl Browser {
    /// A browser on `index`, all projects, newest first, with any unreadable
    /// files reported in the status line.
    pub fn new(index: Index) -> (r: Browser)
        requires
            index_fits(index),
        ensures
            browser_ok(r),
            lists_ok(r),
            r.index == index,
            r.project_sel == 0,
            r.session_sel == 0,
            r.marked@.len() == 0,
            r.preview_for is None,
            r.focus == Pane::Sessions,
            r.mode is Browse,
            r.filter@.len() == 0,
            r.sort == Sort::Date,
            !r.quit,
    {
        let status = match index.warning_summary() {
            Some(s) => s,
            None => String::new(),
        };
        let rows = index.projects();
        let mut b = Browser {
            index,
            project_rows: rows,
            project_sel: 0,
            visible: Vec::new(),
            session_sel: 0,
            marked: Vec::new(),
            preview_len: 0,
            preview_scroll: 0,
            preview_for: None,
            focus: Pane::Sessions,
            mode: Mode::Browse,
            filter: String::new(),
            sort: Sort::Date,
            status,
            quit: false,
        };
        b.refilter();
        b
    }

    /// The slug of the selected project, `None` for "all projects".
    pub fn selected_slug(&self) -> (r: Option<&str>)
        ensures
            opt_str(r) == selected_slug_s(self.project_rows@, self.project_sel as int),
    {
        if self.project_sel >= 1 && self.project_sel - 1 < self.project_rows.len() {
            Some(self.project_rows[self.project_sel - 1].slug.as_str())
        } else {
            None
        }
    }

    /// The highlighted session.
    pub fn current(&self) -> (r: Option<&SessionMeta>)
        ensures
            match r {
                Some(m) => current_s(self.visible@, self.session_sel as int) == Some(*m),
                None => current_s(self.visible@, self.session_sel as int) is None,
            },
    {
        if self.session_sel < self.visible.len() {
            Some(&self.visible[self.session_sel])
        } else {
            None
        }
    }

    /// The id of the highlighted session.
    fn current_id(&self) -> (r: Option<String>)
        ensures
            opt_view(r) == current_id_s(self.visible@, self.session_sel as int),
    {
        match self.current() {
            Some(m) => Some(m.id.clone()),
            None => None,
        }
    }

    /// Rebuild the session list, keeping the highlight on the same session
    /// when the new list holds it: the sort key and the index both reorder
    /// the list, so the row number alone would re-point the cursor at another
    /// session.
    pub fn refilter(&mut self)
        requires
            index_fits(old(self).index),
        ensures
            refiltered(*old(self), *final(self)),
            final(self).session_sel == 0 || final(self).session_sel < final(self).visible@.len(),
    {
        let id = self.current_id();
        let visible = self.index.filter(self.selected_slug(), self.filter.as_str(), self.sort);
        let last = if visible.len() == 0 {
            0
        } else {
            visible.len() - 1
        };
        let mut sel = if self.session_sel < last {
            self.session_sel
        } else {
            last
        };
        match &id {
            Some(id) => match find_id(&visible, id) {
                Some(i) => {
                    proof {
                        lemma_id_pos_bound(visible@, id@, 0);
                    }
                    sel = i;
                },
                None => {},
            },
            None => {},
        }
        self.visible = visible;
        self.session_sel = sel;
    }

    /// Point the list at project row `sel`, always landing on its top row:
    /// the highlighted id belongs to the list being left.
    pub fn select_project(&mut self, sel: usize)
        requires
            index_fits(old(self).index),
        ensures
            project_selected(*old(self), *final(self), sel as int),
    {
        self.project_sel = sel;
        let visible = self.index.filter(self.selected_slug(), self.filter.as_str(), self.sort);
        self.visible = visible;
        self.session_sel = 0;
    }

    /// Rebuild the project rows from the index, keeping the same project
    /// selected: rows are ordered by newest session, so a rebuild can move it.
    /// A project that is gone falls back to row 0, "all projects".
    pub fn rebuild_projects(&mut self)
        requires
            index_fits(old(self).index),
        ensures
            rows_v(final(self).project_rows@) == projects_s(final(self).index.sessions@),
            final(self).project_sel == match selected_slug_s(
                old(self).project_rows@,
                old(self).project_sel as int,
            ) {
                Some(s) => match slug_pos_from(final(self).project_rows@, s, 0) {
                    Some(i) => i + 1,
                    None => 0,
                },
                None => 0,
            },
            final(self).project_sel <= final(self).project_rows@.len(),
            final(self).index == old(self).index,
            final(self).visible == old(self).visible,
            final(self).session_sel == old(self).session_sel,
            same_settings(*old(self), *final(self)),
    {
        let slug = match self.selected_slug() {
            Some(s) => Some(owned(s)),
            None => None,
        };
        let rows = self.index.projects();
        let n = rows.len();
        let sel = match &slug {
            Some(s) => match find_slug(&rows, s) {
                Some(i) => {
                    proof {
                        lemma_slug_pos_bound(rows@, s@, 0);
                    }
                    assert(i < rows@.len());
                    i + 1
                },
                None => 0,
            },
            None => 0,
        };
        self.project_rows = rows;
        self.project_sel = sel;
    }

    /// The last scroll offset that still leaves a preview line on screen.
    pub fn max_scroll(&self) -> (r: usize)
        ensures
            r == max_scroll_s(self.preview_len as nat),
    {
        if self.preview_len == 0 {
            0
        } else {
            self.preview_len - 1
        }
    }

    /// The preview must be rebuilt: the highlight moved to another session
    /// (or there is none). Filter typing, sorting and a run of moves that end
    /// where they began resolve back to the id already rendered.
    pub fn needs_preview(&self) -> (r: bool)
        ensures
            r == !(current_id_s(self.visible@, self.session_sel as int) is Some && current_id_s(
                self.visible@,
                self.session_sel as int,
            ) == opt_view(self.preview_for)),
    {
        let id = self.current_id();
        match (&id, &self.preview_for) {
            (Some(a), Some(b)) => !(*a == *b),
            _ => true,
        }
    }

    /// The preview was rebuilt for the highlighted session: `lines` lines,
    /// scrolled to the top; `failure` is what went wrong reading it, if
    /// anything, and goes to the status line.
    pub fn preview_loaded(&mut self, lines: usize, failure: Option<String>)
        ensures
            final(self).preview_len == lines,
            final(self).preview_scroll == 0,
            opt_view(final(self).preview_for) == current_id_s(old(self).visible@, old(self).session_sel as int),
            final(self).status@ == match failure {
                Some(f) => f@,
                None => old(self).status@,
            },
            final(self).index == old(self).index,
            final(self).visible == old(self).visible,
            final(self).session_sel == old(self).session_sel,
            final(self).project_rows == old(self).project_rows,
            final(self).project_sel == old(self).project_sel,
            final(self).marked == old(self).marked,
            final(self).filter == old(self).filter,
            final(self).sort == old(self).sort,
            final(self).mode == old(self).mode,
            final(self).focus == old(self).focus,
            final(self).quit == old(self).quit,
            lists_ok(*old(self)) ==> lists_ok(*final(self)),
    {
        self.preview_for = self.current_id();
        self.preview_len = lines;
        self.preview_scroll = 0;
        match failure {
            Some(f) => {
                self.status = f;
            },
            None => {},
        }
    }
}

/// The pane Tab moves to.
pub open spec fn focus_next(p: Pane) -> Pane {
    match p {
        Pane::Projects => Pane::Sessions,
        Pane::Sessions => Pane::Preview,
        Pane::Preview => Pane::Projects,
    }
}

/// The pane Shift-Tab moves to.
pub open spec fn focus_prev(p: Pane) -> Pane {
    match p {
        Pane::Projects => Pane::Preview,
        Pane::Sessions => Pane::Projects,
        Pane::Preview => Pane::Sessions,
    }
}

/// `b` differs from `a` at most in the session highlight.
pub open spec fn only_sel(a: Browser, b: Browser) -> bool {
    &&& same_settings(a, b)
    &&& b.project_rows == a.project_rows
    &&& b.project_sel == a.project_sel
    &&& b.visible == a.visible
}

/// `b` differs from `a` at most in the preview scroll.
pub open spec fn only_scroll(a: Browser, b: Browser) -> bool {
    &&& b.index == a.index
    &&& b.project_rows == a.project_rows
    &&& b.project_sel == a.project_sel
    &&& b.visible == a.visible
    &&& b.session_sel == a.session_sel
    &&& b.marked == a.marked
    &&& b.preview_len == a.preview_len
    &&& b.preview_for == a.preview_for
    &&& b.focus == a.focus
    &&& b.status == a.status
    &&& b.quit == a.quit
    &&& b.filter == a.filter
    &&& b.sort == a.sort
    &&& b.mode == a.mode
}

/// What moving by `delta` rows does: in the project pane, point the list at
/// the clamped row (when it differs); in the session pane, move the clamped
/// highlight (the preview follows once a burst of keys is done); in the
/// preview, scroll, not past the last line.
pub open spec fn moved(a: Browser, b: Browser, delta: int, r: Action) -> bool {
    match a.focus {
        Pane::Projects => {
            let next = step_s(a.project_sel as int, a.project_rows@.len() as int + 1, delta);
            if next != a.project_sel {
                project_selected(a, b, next) && r is SyncPreview
            } else {
                b == a && r is Nothing
            }
        },
        Pane::Sessions => only_sel(a, b) && b.session_sel == step_s(
            a.session_sel as int,
            a.visible@.len() as int,
            delta,
        ) && r is Nothing,
        Pane::Preview => only_scroll(a, b) && b.preview_scroll == (if delta < 0 {
            if a.preview_scroll + delta < 0 {
                0
            } else {
                a.preview_scroll + delta
            }
        } else if a.preview_scroll + delta < max_scroll_s(a.preview_len as nat) {
            a.preview_scroll + delta
        } else {
            max_scroll_s(a.preview_len as nat) as int
        }) && r is Nothing,
    }
}

/// What jumping to the top (or bottom) does in each pane.
pub open spec fn jumped(a: Browser, b: Browser, top: bool, r: Action) -> bool {
    match a.focus {
        Pane::Projects => project_selected(
            a,
            b,
            if top {
                0
            } else {
                a.project_rows@.len() as int
            },
        ) && r is SyncPreview,
        Pane::Sessions => only_sel(a, b) && b.session_sel == (if top {
            0
        } else {
            last_row(a.visible@.len())
        }) && r is SyncPreview,
        Pane::Preview => only_scroll(a, b) && b.preview_scroll == (if top {
            0
        } else {
            max_scroll_s(a.preview_len as nat)
        }) && r is Nothing,
    }
}

impl Browser {
    /// Move by `delta` rows in the focused pane.
    pub fn move_sel(&mut self, delta: i64) -> (r: Action)
        requires
            browser_ok(*old(self)),
            -10 <= delta <= 10,
        ensures
            browser_ok(*final(self)),
            moved(*old(self), *final(self), delta as int, r),
    {
        match self.focus {
            Pane::Projects => {
                let len = self.project_rows.len();
                let next = clamp_step(self.project_sel, len, delta);
                if next != self.project_sel {
                    self.select_project(next);
                    Action::SyncPreview
                } else {
                    Action::Nothing
                }
            },
            Pane::Sessions => {
                let len = self.visible.len();
                self.session_sel = step(self.session_sel, len, delta);
                Action::Nothing
            },
            Pane::Preview => {
                let max = self.max_scroll();
                if delta < 0 {
                    let back = (-delta) as usize;
                    self.preview_scroll = if self.preview_scroll >= back {
                        self.preview_scroll - back
                    } else {
                        0
                    };
                } else {
                    let fwd = delta as usize;
                    self.preview_scroll = if self.preview_scroll < max && max - self.preview_scroll
                        > fwd {
                        self.preview_scroll + fwd
                    } else {
                        max
                    };
                }
                Action::Nothing
            },
        }
    }

    /// Jump to the top (or bottom) of the focused pane.
    pub fn jump(&mut self, top: bool) -> (r: Action)
        requires
            browser_ok(*old(self)),
        ensures
            browser_ok(*final(self)),
            jumped(*old(self), *final(self), top, r),
    {
        match self.focus {
            Pane::Projects => {
                let sel = if top {
                    0
                } else {
                    self.project_rows.len()
                };
                self.select_project(sel);
                Action::SyncPreview
            },
            Pane::Sessions => {
                self.session_sel = if top || self.visible.len() == 0 {
                    0
                } else {
                    self.visible.len() - 1
                };
                Action::SyncPreview
            },
            Pane::Preview => {
                self.preview_scroll = if top {
                    0
                } else {
                    self.max_scroll()
                };
                Action::Nothing
            },
        }
    }
}

/// `cur + delta` clamped to `0..=max`.
fn clamp_step(cur: usize, max: usize, delta: i64) -> (r: usize)
    requires
        -10 <= delta <= 10,
        cur <= max,
    ensures
        r == step_s(cur as int, max + 1, delta as int),
        r <= max,
{
    if delta < 0 {
        let back = (-delta) as usize;
        if cur >= back {
            cur - back
        } else {
            0
        }
    } else {
        let fwd = delta as usize;
        if max - cur < fwd {
            max
        } else {
            cur + fwd
        }
    }
}

/// `cur + delta` clamped to a list of `len` rows.
fn step(cur: usize, len: usize, delta: i64) -> (r: usize)
    requires
        -10 <= delta <= 10,
        cur == 0 || cur < len,
    ensures
        r == step_s(cur as int, len as int, delta as int),
        len == 0 || r < len,
{
    if len == 0 {
        0
    } else {
        clamp_step(cur, len - 1, delta)
    }
}

/// The ordering `s` switches to.
pub open spec fn sort_next_s(sort: Sort) -> Sort {
    match sort {
        Sort::Date => Sort::Size,
        Sort::Size => Sort::Msgs,
        Sort::Msgs => Sort::Date,
    }
}

/// `y` holds the marks of `x` with `id` toggled.
pub open spec fn toggled(x: Seq<String>, y: Seq<String>, id: Seq<char>) -> bool {
    forall|t: Seq<char>| #[trigger] has_mark(y, t) <==> (if t == id {
        !has_mark(x, id)
    } else {
        has_mark(x, t)
    })
}

/// `y` holds the marks of `x` plus every id of `visible`.
pub open spec fn marked_all(x: Seq<String>, y: Seq<String>, visible: Seq<SessionMeta>) -> bool {
    forall|t: Seq<char>| #[trigger] has_mark(y, t) <==> (has_mark(x, t) || exists|i: int|
        0 <= i < visible.len() && #[trigger] visible[i].id@ == t)
}

/// The sessions `d` would delete: the marked ones in index order, or the
/// highlighted one when nothing is marked.
pub open spec fn delete_targets(a: Browser) -> Seq<SessionMeta> {
    if a.marked@.len() == 0 {
        match current_s(a.visible@, a.session_sel as int) {
            Some(m) => seq![m],
            None => Seq::empty(),
        }
    } else {
        a.index.sessions@.filter(|m: SessionMeta| is_marked(m, a.marked@))
    }
}

/// What a key does in filter mode: Esc clears the filter and leaves the
/// mode, Enter keeps the filter and leaves it, Control-C quits, Backspace and
/// characters edit the filter; the list follows every edit.
pub open spec fn filter_key(a: Browser, key: Key, b: Browser, r: Action) -> bool {
    match key.code {
        KeyCode::Esc => b.filter@.len() == 0 && b.mode is Browse && b.sort == a.sort && keeps(a, b)
            && relisted(a, b) && r is SyncPreview,
        KeyCode::Enter => b == (Browser { mode: Mode::Browse, ..a }) && r is Nothing,
        KeyCode::Char(c) => if c == 'c' && key.ctrl {
            b == (Browser { mode: Mode::Browse, quit: true, ..a }) && r is Nothing
        } else {
            b.filter@ == a.filter@.push(c) && b.mode is Filter && b.sort == a.sort && keeps(a, b)
                && relisted(a, b) && r is SyncPreview
        },
        KeyCode::Backspace => b.filter@ == (if a.filter@.len() > 0 {
            a.filter@.drop_last()
        } else {
            a.filter@
        }) && b.mode is Filter && b.sort == a.sort && keeps(a, b) && relisted(a, b)
            && r is SyncPreview,
        _ => b == a && r is Nothing,
    }
}

/// What a key does while a delete waits for confirmation: `y` goes ahead,
/// anything else cancels.
pub open spec fn confirm_key(a: Browser, plans: Vec<DeletePlan>, key: Key, b: Browser, r: Action) -> bool {
    if key.code == KeyCode::Char('y') || key.code == KeyCode::Char('Y') {
        b == (Browser { mode: Mode::Browse, ..a }) && (r matches Action::Delete(p) && p == plans)
    } else {
        b.status@ == "delete cancelled"@ && b == (Browser { mode: Mode::Browse, status: b.status, ..a })
            && r is Nothing
    }
}

/// What the space bar does: in the session list, toggle the highlighted
/// session's mark and step down a row; elsewhere, say where marking works.
pub open spec fn space_key(a: Browser, b: Browser, r: Action) -> bool {
    if a.focus == Pane::Sessions {
        match current_s(a.visible@, a.session_sel as int) {
            Some(m) => {
                &&& toggled(a.marked@, b.marked@, m.id@)
                &&& b == (Browser { marked: b.marked, session_sel: b.session_sel, ..a })
                &&& if a.session_sel + 1 < a.visible@.len() {
                    b.session_sel == a.session_sel + 1 && r is SyncPreview
                } else {
                    b.session_sel == a.session_sel && r is Nothing
                }
            },
            None => b == a && r is Nothing,
        }
    } else {
        b.status@ == "tab to the sessions pane to mark"@ && b == (Browser { status: b.status, ..a })
            && r is Nothing
    }
}

/// What `d` does: plan the delete of the targets, or say there are none.
pub open spec fn delete_key(a: Browser, b: Browser, r: Action) -> bool {
    if delete_targets(a).len() == 0 {
        b.status@ == "nothing selected"@ && b == (Browser { status: b.status, ..a }) && r is Nothing
    } else {
        b == a && (r matches Action::Plan(t) && t@ == delete_targets(a))
    }
}

/// What a key does while browsing.
pub open spec fn browse_key(a: Browser, key: Key, b: Browser, r: Action) -> bool {
    match key.code {
        KeyCode::Char(c) => if c == 'q' || (c == 'c' && key.ctrl) {
            b == (Browser { quit: true, ..a }) && r is Nothing
        } else if c == '/' {
            b == (Browser { mode: Mode::Filter, focus: Pane::Sessions, ..a }) && r is Nothing
        } else if c == 's' {
            b.sort == sort_next_s(a.sort) && b.filter == a.filter && b.mode == a.mode && keeps(a, b)
                && relisted(a, b) && r is SyncPreview
        } else if c == 'r' {
            b == a && r is Reindex
        } else if c == ' ' {
            space_key(a, b, r)
        } else if c == 'a' {
            marked_all(a.marked@, b.marked@, a.visible@) && b == (Browser { marked: b.marked, ..a })
                && r is Nothing
        } else if c == 'A' {
            b.marked@.len() == 0 && b == (Browser { marked: b.marked, ..a }) && r is Nothing
        } else if c == 'd' {
            delete_key(a, b, r)
        } else if c == 'j' {
            moved(a, b, 1, r)
        } else if c == 'k' {
            moved(a, b, -1, r)
        } else if c == 'g' {
            jumped(a, b, true, r)
        } else if c == 'G' {
            jumped(a, b, false, r)
        } else {
            b == a && r is Nothing
        },
        KeyCode::Tab => b == (Browser { focus: focus_next(a.focus), ..a }) && r is Nothing,
        KeyCode::BackTab => b == (Browser { focus: focus_prev(a.focus), ..a }) && r is Nothing,
        KeyCode::Down => moved(a, b, 1, r),
        KeyCode::Up => moved(a, b, -1, r),
        KeyCode::PageDown => moved(a, b, 10, r),
        KeyCode::PageUp => moved(a, b, -10, r),
        KeyCode::Home => jumped(a, b, true, r),
        KeyCode::End => jumped(a, b, false, r),
        _ => b == a && r is Nothing,
    }
}

/// What `key` does to `a`, in whatever mode it is in.
pub open spec fn key_effect(a: Browser, key: Key, b: Browser, r: Action) -> bool {
    match a.mode {
        Mode::Filter => filter_key(a, key, b, r),
        Mode::Confirm(plans) => confirm_key(a, plans, key, b, r),
        Mode::Browse => browse_key(a, key, b, r),
    }
}

impl Browser {
    /// Toggle the mark of `id`.
    fn toggle_mark(&mut self, id: &String)
        requires
            marks_distinct(old(self).marked@),
        ensures
            marks_distinct(final(self).marked@),
            toggled(old(self).marked@, final(self).marked@, id@),
            *final(self) == (Browser { marked: final(self).marked, ..*old(self) }),
    {
        let ghost x = self.marked@;
        crate::pick::toggle_id(&mut self.marked, id);
        assert forall|t: Seq<char>| #[trigger] has_mark(self.marked@, t) <==> (if t == id@ {
            !has_mark(x, id@)
        } else {
            has_mark(x, t)
        }) by {
            assert(crate::pick::marks(self.marked@).contains(t) == has_mark(self.marked@, t));
            assert(crate::pick::marks(x).contains(t) == has_mark(x, t));
            assert(crate::pick::marks(x).contains(id@) == has_mark(x, id@));
        }
    }

    /// Mark every session the list shows.
    fn mark_visible(&mut self)
        requires
            marks_distinct(old(self).marked@),
        ensures
            marks_distinct(final(self).marked@),
            marked_all(old(self).marked@, final(self).marked@, old(self).visible@),
            *final(self) == (Browser { marked: final(self).marked, ..*old(self) }),
    {
        let ghost x = self.marked@;
        let ghost vis = self.visible@;
        crate::pick::mark_rows(&mut self.marked, &self.visible, 0, self.visible.len());
        assert forall|t: Seq<char>| #[trigger] has_mark(self.marked@, t) <==> (has_mark(x, t) || exists|i: int|
            0 <= i < vis.len() && #[trigger] vis[i].id@ == t) by {
            assert(crate::pick::marks(self.marked@).contains(t) == has_mark(self.marked@, t));
            assert(crate::pick::marks(x).contains(t) == has_mark(x, t));
            assert(crate::pick::ids_in(vis, 0, vis.len() as int).contains(t) == exists|i: int|
                0 <= i < vis.len() && #[trigger] vis[i].id@ == t);
        }
    }

    /// Drop the last character of the filter, if any.
    fn pop_filter(&mut self)
        ensures
            final(self).filter@ == (if old(self).filter@.len() > 0 {
                old(self).filter@.drop_last()
            } else {
                old(self).filter@
            }),
            *final(self) == (Browser { filter: final(self).filter, ..*old(self) }),
    {
        let v = crate::text::chars_of(self.filter.as_str());
        if v.len() > 0 {
            self.filter = crate::text::string_of_range(&v, 0, v.len() - 1);
            assert(self.filter@ =~= old(self).filter@.drop_last());
        }
    }

    /// Handle one key press.
    pub fn handle_key(&mut self, key: Key) -> (r: Action)
        requires
            browser_ok(*old(self)),
        ensures
            browser_ok(*final(self)),
            key_effect(*old(self), key, *final(self), r),
            lists_ok(*old(self)) ==> lists_ok(*final(self)),
    {
        let ghost start = *self;
        let r = self.handle_key_inner(key);
        proof {
            if lists_ok(start) {
                keys_keep_the_lists(start, key, *self, r);
            }
        }
        r
    }

    /// What `key` does, by mode.
    fn handle_key_inner(&mut self, key: Key) -> (r: Action)
        requires
            browser_ok(*old(self)),
        ensures
            browser_ok(*final(self)),
            key_effect(*old(self), key, *final(self), r),
    {
        let mut mode = Mode::Browse;
        std::mem::swap(&mut mode, &mut self.mode);
        match mode {
            Mode::Filter => {
                match key.code {
                    KeyCode::Esc => {
                        self.filter = String::new();
                        self.refilter();
                        Action::SyncPreview
                    },
                    KeyCode::Enter => Action::Nothing,
                    KeyCode::Char(c) => {
                        if c == 'c' && key.ctrl {
                            self.quit = true;
                            Action::Nothing
                        } else {
                            push_char(&mut self.filter, c);
                            self.refilter();
                            self.mode = Mode::Filter;
                            Action::SyncPreview
                        }
                    },
                    KeyCode::Backspace => {
                        self.pop_filter();
                        self.refilter();
                        self.mode = Mode::Filter;
                        Action::SyncPreview
                    },
                    _ => {
                        self.mode = Mode::Filter;
                        Action::Nothing
                    },
                }
            },
            Mode::Confirm(plans) => {
                if key.code == KeyCode::Char('y') || key.code == KeyCode::Char('Y') {
                    Action::Delete(plans)
                } else {
                    self.status = owned("delete cancelled");
                    Action::Nothing
                }
            },
            Mode::Browse => self.browse_key(key),
        }
    }

    /// Handle a key while browsing.
    fn browse_key(&mut self, key: Key) -> (r: Action)
        requires
            browser_ok(*old(self)),
            old(self).mode is Browse,
        ensures
            browser_ok(*final(self)),
            browse_key(*old(self), key, *final(self), r),
    {
        match key.code {
            KeyCode::Char(c) => {
                if c == 'q' || (c == 'c' && key.ctrl) {
                    self.quit = true;
                    Action::Nothing
                } else if c == '/' {
                    self.mode = Mode::Filter;
                    self.focus = Pane::Sessions;
                    Action::Nothing
                } else if c == 's' {
                    self.sort = self.sort.next();
                    self.refilter();
                    Action::SyncPreview
                } else if c == 'r' {
                    Action::Reindex
                } else if c == ' ' {
                    if self.focus == Pane::Sessions {
                        match self.current_id() {
                            Some(id) => {
                                self.toggle_mark(&id);
                                if self.session_sel < self.visible.len() - 1 {
                                    self.session_sel = self.session_sel + 1;
                                    Action::SyncPreview
                                } else {
                                    Action::Nothing
                                }
                            },
                            None => Action::Nothing,
                        }
                    } else {
                        self.status = owned("tab to the sessions pane to mark");
                        Action::Nothing
                    }
                } else if c == 'a' {
                    self.mark_visible();
                    Action::Nothing
                } else if c == 'A' {
                    self.marked = Vec::new();
                    Action::Nothing
                } else if c == 'd' {
                    let targets = self.index.marked_or(self.marked.as_slice(), self.current());
                    if targets.len() == 0 {
                        self.status = owned("nothing selected");
                        Action::Nothing
                    } else {
                        Action::Plan(targets)
                    }
                } else if c == 'j' {
                    self.move_sel(1)
                } else if c == 'k' {
                    self.move_sel(-1)
                } else if c == 'g' {
                    self.jump(true)
                } else if c == 'G' {
                    self.jump(false)
                } else {
                    Action::Nothing
                }
            },
            KeyCode::Tab => {
                self.focus = match self.focus {
                    Pane::Projects => Pane::Sessions,
                    Pane::Sessions => Pane::Preview,
                    Pane::Preview => Pane::Projects,
                };
                Action::Nothing
            },
            KeyCode::BackTab => {
                self.focus = match self.focus {
                    Pane::Projects => Pane::Preview,
                    Pane::Sessions => Pane::Projects,
                    Pane::Preview => Pane::Sessions,
                };
                Action::Nothing
            },
            KeyCode::Down => self.move_sel(1),
            KeyCode::Up => self.move_sel(-1),
            KeyCode::PageDown => self.move_sel(10),
            KeyCode::PageUp => self.move_sel(-10),
            KeyCode::Home => self.jump(true),
            KeyCode::End => self.jump(false),
            _ => Action::Nothing,
        }
    }
}

/// Some session of `sessions` has id `t`.
pub open spec fn has_session(sessions: Seq<SessionMeta>, t: Seq<char>) -> bool {
    exists|i: int| 0 <= i < sessions.len() && #[trigger] sessions[i].id@ == t
}

/// The status line after a reload: "reindexed" when announced and nothing
/// was unreadable, else the summary of what was, else as it was.
pub open spec fn reload_status(ix: Index, announce: bool, before: Seq<char>) -> Seq<char> {
    if announce && ix.warnings@.len() == 0 {
        "reindexed"@
    } else {
        match crate::index::warning_summary_s(ix.warnings@) {
            Some(w) => w,
            None => before,
        }
    }
}

/// `b` is `a` after taking in the rebuilt index `ix`: marks of sessions that
/// are gone dropped, the same project selected (row 0 when it is gone), the
/// list rebuilt with the highlight on the same session where it still is,
/// and the preview marked stale, since a live transcript grows.
pub open spec fn reloaded(a: Browser, b: Browser, ix: Index, announce: bool) -> bool {
    &&& b.index == ix
    &&& rows_v(b.project_rows@) == projects_s(ix.sessions@)
    &&& b.project_sel == match selected_slug_s(a.project_rows@, a.project_sel as int) {
        Some(s) => match slug_pos_from(b.project_rows@, s, 0) {
            Some(i) => i + 1,
            None => 0,
        },
        None => 0,
    }
    &&& listed(b.index, selected_slug_s(b.project_rows@, b.project_sel as int), b.filter@, b.sort, b.visible@)
    &&& b.session_sel == kept_sel(a.visible@, a.session_sel as int, b.visible@)
    &&& b.preview_for is None
    &&& forall|t: Seq<char>| #[trigger] has_mark(b.marked@, t) <==> (has_mark(a.marked@, t) && has_session(
        ix.sessions@,
        t,
    ))
    &&& b.status@ == reload_status(ix, announce, a.status@)
    &&& b.focus == a.focus
    &&& b.filter == a.filter
    &&& b.sort == a.sort
    &&& b.mode == a.mode
    &&& b.quit == a.quit
    &&& b.preview_len == a.preview_len
    &&& b.preview_scroll == a.preview_scroll
}

impl Browser {
    /// The plans for a `d` are ready: ask for confirmation.
    pub fn confirm(&mut self, plans: Vec<DeletePlan>)
        ensures
            *final(self) == (Browser { mode: Mode::Confirm(plans), ..*old(self) }),
            lists_ok(*old(self)) ==> lists_ok(*final(self)),
    {
        self.mode = Mode::Confirm(plans);
    }

    /// A confirmed delete finished and `summary` says how: the marks go (the
    /// sessions that survived a failure show up again in the reloaded list)
    /// and the summary is shown.
    pub fn deleted(&mut self, summary: String)
        requires
            browser_ok(*old(self)),
        ensures
            browser_ok(*final(self)),
            final(self).marked@.len() == 0,
            final(self).status == summary,
            *final(self) == (Browser { marked: final(self).marked, status: final(self).status, ..*old(self) }),
            lists_ok(*old(self)) ==> lists_ok(*final(self)),
    {
        self.marked = Vec::new();
        self.status = summary;
    }

    /// Keep only the marks of sessions the index still holds.
    fn retain_marks(&mut self)
        requires
            marks_distinct(old(self).marked@),
        ensures
            marks_distinct(final(self).marked@),
            forall|t: Seq<char>| #[trigger] has_mark(final(self).marked@, t) <==> (has_mark(
                old(self).marked@,
                t,
            ) && has_session(old(self).index.sessions@, t)),
            *final(self) == (Browser { marked: final(self).marked, ..*old(self) }),
    {
        let ghost x = self.marked@;
        let ghost ss = self.index.sessions@;
        let mut kept: Vec<String> = Vec::new();
        let ghost mut idx: Seq<int> = Seq::empty();
        let mut k: usize = 0;
        while k < self.marked.len()
            invariant
                k <= x.len(),
                x == self.marked@,
                ss == self.index.sessions@,
                marks_distinct(x),
                idx.len() == kept@.len(),
                forall|i: int| 0 <= i < idx.len() ==> 0 <= #[trigger] idx[i] < k && kept@[i]@ == x[idx[i]]@,
                forall|i: int, j: int| 0 <= i < j < idx.len() ==> idx[i] < idx[j],
                forall|t: Seq<char>| #[trigger] has_mark(kept@, t) <==> (exists|j: int|
                    0 <= j < k && #[trigger] x[j]@ == t) && has_session(ss, t),
            decreases x.len() - k,
        {
            let id = &self.marked[k];
            let mut alive = false;
            let mut i: usize = 0;
            while i < self.index.sessions.len()
                invariant
                    i <= ss.len(),
                    ss == self.index.sessions@,
                    alive <==> exists|j: int| 0 <= j < i && #[trigger] ss[j].id@ == id@,
                decreases ss.len() - i,
            {
                if self.index.sessions[i].id == *id {
                    alive = true;
                }
                i = i + 1;
            }
            let ghost before = kept@;
            let ghost idx0 = idx;
            if alive {
                let c = id.clone();
                let ghost cv = c;
                kept.push(c);
                proof {
                    idx = idx.push(k as int);
                }
                assert(kept@ =~= before.push(cv));
                assert forall|t: Seq<char>| #[trigger] has_mark(kept@, t) <==> (exists|j: int|
                    0 <= j < k + 1 && #[trigger] x[j]@ == t) && has_session(ss, t) by {
                    if has_mark(kept@, t) {
                        let m = choose|m: int| 0 <= m < kept@.len() && #[trigger] kept@[m]@ == t;
                        if m < before.len() {
                            assert(before[m]@ == t);
                            assert(has_mark(before, t));
                        } else {
                            assert(x[k as int]@ == t);
                            let q = choose|q: int| 0 <= q < ss.len() && #[trigger] ss[q].id@ == id@;
                            assert(ss[q].id@ == t);
                        }
                    }
                    if (exists|j: int| 0 <= j < k + 1 && #[trigger] x[j]@ == t) && has_session(ss, t) {
                        let j = choose|j: int| 0 <= j < k + 1 && #[trigger] x[j]@ == t;
                        if j < k {
                            assert(has_mark(before, t));
                            let m = choose|m: int| 0 <= m < before.len() && #[trigger] before[m]@ == t;
                            assert(kept@[m]@ == t);
                        } else {
                            assert(kept@[before.len() as int]@ == t);
                        }
                    }
                }
                assert forall|i: int| 0 <= i < idx.len() implies 0 <= #[trigger] idx[i] < k + 1 && kept@[i]@
                    == x[idx[i]]@ by {
                    if i < idx0.len() {
                        assert(idx[i] == idx0[i]);
                        assert(kept@[i] == before[i]);
                    }
                }
            } else {
                assert forall|t: Seq<char>| #[trigger] has_mark(kept@, t) <==> (exists|j: int|
                    0 <= j < k + 1 && #[trigger] x[j]@ == t) && has_session(ss, t) by {
                    if (exists|j: int| 0 <= j < k + 1 && #[trigger] x[j]@ == t) && has_session(ss, t) {
                        let j = choose|j: int| 0 <= j < k + 1 && #[trigger] x[j]@ == t;
                        if j == k {
                            let q = choose|q: int| 0 <= q < ss.len() && #[trigger] ss[q].id@ == t;
                            assert(ss[q].id@ == id@);
                        }
                    }
                }
            }
            k = k + 1;
        }
        assert forall|i: int, j: int| 0 <= i < j < kept@.len() implies kept@[i]@ != kept@[j]@ by {
            assert(idx[i] < idx[j]);
            assert(x[idx[i]]@ != x[idx[j]]@);
        }
        self.marked = kept;
    }

    /// Take in the rebuilt index (`Ok`) or why rebuilding failed (`Err`).
    /// `announce` is set for an explicit reload, which says "reindexed" when
    /// nothing was unreadable. A failure changes nothing but the status line.
    pub fn reindexed(&mut self, result: Result<Index, String>, announce: bool)
        requires
            browser_ok(*old(self)),
            result matches Ok(ix) ==> index_fits(ix),
        ensures
            browser_ok(*final(self)),
            match result {
                Ok(ix) => reloaded(*old(self), *final(self), ix, announce),
                Err(e) => final(self).status@ == "reindex failed: "@ + e@ && *final(self) == (Browser {
                    status: final(self).status,
                    ..*old(self)
                }),
            },
            (result is Ok || lists_ok(*old(self))) ==> lists_ok(*final(self)),
    {
        match result {
            Ok(ix) => {
                self.index = ix;
                match self.index.warning_summary() {
                    Some(w) => {
                        self.status = w;
                    },
                    None => {},
                }
                self.retain_marks();
                self.rebuild_projects();
                self.preview_for = None;
                self.refilter();
                if announce && self.index.warnings.len() == 0 {
                    self.status = owned("reindexed");
                }
            },
            Err(e) => {
                self.status = concat("reindex failed: ", e.as_str());
            },
        }
    }
}

/// An id found in the list is found at a row.
proof fn lemma_id_pos_bound(list: Seq<SessionMeta>, id: Seq<char>, k: int)
    requires
        0 <= k,
    ensures
        id_pos_from(list, id, k) matches Some(i) ==> k <= i < list.len(),
    decreases list.len() - k,
{
    if k < list.len() && list[k].id@ != id {
        lemma_id_pos_bound(list, id, k + 1);
    }
}

/// A slug found in the rows is found at a row.
proof fn lemma_slug_pos_bound(rows: Seq<Project>, slug: Seq<char>, k: int)
    requires
        0 <= k,
    ensures
        slug_pos_from(rows, slug, k) matches Some(i) ==> k <= i < rows.len(),
    decreases rows.len() - k,
{
    if k < rows.len() && rows[k].slug@ != slug {
        lemma_slug_pos_bound(rows, slug, k + 1);
    }
}

/// A session with id `id` at or after `k` makes the search find one.
proof fn lemma_id_pos_found(list: Seq<SessionMeta>, id: Seq<char>, k: int, w: int)
    requires
        0 <= k <= w < list.len(),
        list[w].id@ == id,
    ensures
        id_pos_from(list, id, k) matches Some(i) && 0 <= i < list.len() && list[i].id@ == id,
    decreases w - k,
{
    if list[k].id@ != id {
        lemma_id_pos_found(list, id, k + 1, w);
    }
}

/// A slug found in the rows is the slug of the row it is found at.
proof fn lemma_slug_pos_found(rows: Seq<Project>, slug: Seq<char>, k: int)
    requires
        0 <= k,
    ensures
        slug_pos_from(rows, slug, k) matches Some(i) ==> rows[i].slug@ == slug,
    decreases rows.len() - k,
{
    if k < rows.len() && rows[k].slug@ != slug {
        lemma_slug_pos_found(rows, slug, k + 1);
    }
}

/// Every key keeps the lists agreeing with the index: the project rows are
/// the index's projects, and the session list is what the project, filter
/// and sort select.
pub proof fn keys_keep_the_lists(a: Browser, key: Key, b: Browser, r: Action)
    requires
        lists_ok(a),
        key_effect(a, key, b, r),
    ensures
        lists_ok(b),
{
}

/// Changing the ordering keeps the same session highlighted: the sort only
/// reorders the list, so the highlighted session is still in it and the
/// highlight follows it.
pub proof fn sort_keeps_selection(a: Browser, key: Key, b: Browser, r: Action)
    requires
        browser_ok(a),
        lists_ok(a),
        a.mode is Browse,
        key.code == KeyCode::Char('s'),
        key_effect(a, key, b, r),
        current_s(a.visible@, a.session_sel as int) is Some,
    ensures
        current_id_s(b.visible@, b.session_sel as int) == current_id_s(a.visible@, a.session_sel as int),
{
    let cur = a.visible@[a.session_sel as int];
    let slug = selected_slug_s(a.project_rows@, a.project_sel as int);
    let input = a.index.sessions@.filter(|m: SessionMeta| matches_filter(m, slug, lower_s(a.filter@)));
    crate::index::sorting_keeps_every_session(a.sort, input, a.visible@);
    crate::index::sorting_keeps_every_session(b.sort, input, b.visible@);
    let p = choose|p: Seq<int>| crate::index::stable_sorted_by(a.sort, input, a.visible@, p);
    let j = p[a.session_sel as int];
    assert(a.visible@[a.session_sel as int] == input[j]);
    assert(b.visible@.contains(input[j]));
    let w = choose|w: int| 0 <= w < b.visible@.len() && b.visible@[w] == input[j];
    lemma_id_pos_found(b.visible@, cur.id@, 0, w);
}

/// Typing into the filter keeps the highlight on the same session while that
/// session still matches the longer filter, and leaves the preview as it was,
/// so the preview needs no reload.
pub proof fn filter_typing_keeps_the_highlight(a: Browser, key: Key, b: Browser, r: Action, c: char)
    requires
        browser_ok(a),
        lists_ok(a),
        a.mode is Filter,
        key.code == KeyCode::Char(c),
        !(c == 'c' && key.ctrl),
        key_effect(a, key, b, r),
        current_s(a.visible@, a.session_sel as int) matches Some(m) && matches_filter(
            m,
            selected_slug_s(a.project_rows@, a.project_sel as int),
            lower_s(b.filter@),
        ),
    ensures
        current_id_s(b.visible@, b.session_sel as int) == current_id_s(a.visible@, a.session_sel as int),
        b.preview_for == a.preview_for,
{
    let cur = a.visible@[a.session_sel as int];
    let slug = selected_slug_s(a.project_rows@, a.project_sel as int);
    let sessions = a.index.sessions@;
    let pa = |m: SessionMeta| matches_filter(m, slug, lower_s(a.filter@));
    let pb = |m: SessionMeta| matches_filter(m, slug, lower_s(b.filter@));
    let input_a = sessions.filter(pa);
    let input_b = sessions.filter(pb);
    let p = choose|p: Seq<int>| crate::index::stable_sorted_by(a.sort, input_a, a.visible@, p);
    let j = p[a.session_sel as int];
    assert(cur == input_a[j]);
    assert(input_a.contains(cur));
    sessions.lemma_filter_contains_rev(pa, cur);
    let k = choose|k: int| 0 <= k < sessions.len() && sessions[k] == cur;
    assert(pb(sessions[k]));
    sessions.lemma_filter_contains(pb, k);
    let jb = choose|jb: int| 0 <= jb < input_b.len() && input_b[jb] == cur;
    crate::index::sorting_keeps_every_session(b.sort, input_b, b.visible@);
    assert(b.visible@.contains(input_b[jb]));
    let w = choose|w: int| 0 <= w < b.visible@.len() && b.visible@[w] == cur;
    lemma_id_pos_found(b.visible@, cur.id@, 0, w);
}

/// A reload keeps the selected project selected while it still exists, and
/// falls back to "all projects" when it is gone.
pub proof fn reload_keeps_project(a: Browser, b: Browser, ix: Index, announce: bool, slug: Seq<char>)
    requires
        reloaded(a, b, ix, announce),
        selected_slug_s(a.project_rows@, a.project_sel as int) == Some(slug),
    ensures
        slug_pos_from(b.project_rows@, slug, 0) is Some ==> selected_slug_s(
            b.project_rows@,
            b.project_sel as int,
        ) == Some(slug),
        slug_pos_from(b.project_rows@, slug, 0) is None ==> b.project_sel == 0,
{
    lemma_slug_pos_found(b.project_rows@, slug, 0);
    lemma_slug_pos_bound(b.project_rows@, slug, 0);
}

/// Marking a session twice leaves the marks as they were.
pub proof fn toggling_twice_restores_marks(x: Seq<String>, y: Seq<String>, z: Seq<String>, id: Seq<char>)
    requires
        toggled(x, y, id),
        toggled(y, z, id),
    ensures
        forall|t: Seq<char>| #[trigger] has_mark(z, t) == has_mark(x, t),
{
    assert forall|t: Seq<char>| #[trigger] has_mark(z, t) == has_mark(x, t) by {
        assert(has_mark(z, t) == (if t == id {
            !has_mark(y, id)
        } else {
            has_mark(y, t)
        }));
        assert(has_mark(y, t) == (if t == id {
            !has_mark(x, id)
        } else {
            has_mark(x, t)
        }));
        assert(has_mark(y, id) == !has_mark(x, id));
    }
}

/// `a` marks all and only what the list shows: afterwards an id is marked
/// exactly when it was before or is the id of a session on the list.
pub proof fn mark_all_marks_the_listed_sessions(a: Browser, key: Key, b: Browser, r: Action)
    requires
        a.mode is Browse,
        key.code == KeyCode::Char('a'),
        key_effect(a, key, b, r),
    ensures
        forall|t: Seq<char>| #[trigger] has_mark(b.marked@, t) <==> (has_mark(a.marked@, t) || exists|i: int|
            0 <= i < a.visible@.len() && #[trigger] a.visible@[i].id@ == t),
        b.visible == a.visible,
        r is Nothing,
{
}

} // verus!
