//! The desktop browser's selection: which sessions are marked, and the row a
//! shift-click extends a range from. Drawing stays outside; a click comes in
//! as a row and its modifier keys, and what it does to the marks is decided
//! here.

use vstd::prelude::*;
use crate::browse::{has_mark, has_session, marks_distinct};
use crate::index::{is_marked, total_bytes, SessionMeta};

verus! {

/// The marked ids, as a set.
pub open spec fn marks(m: Seq<String>) -> Set<Seq<char>> {
    Set::new(|t: Seq<char>| has_mark(m, t))
}

/// The ids of rows `lo` up to (not including) `hi` of `visible`.
pub open spec fn ids_in(visible: Seq<SessionMeta>, lo: int, hi: int) -> Set<Seq<char>> {
    Set::new(|t: Seq<char>| exists|k: int| lo <= k < hi && #[trigger] visible[k].id@ == t)
}

/// `s` with `id` taken out when it is in, put in when it is not.
pub open spec fn toggle_s(s: Set<Seq<char>>, id: Seq<char>) -> Set<Seq<char>> {
    if s.contains(id) {
        s.remove(id)
    } else {
        s.insert(id)
    }
}

/// Position of `id` among the marks.
fn position(marked: &Vec<String>, id: &String) -> (r: Option<usize>)
    ensures
        match r {
            Some(k) => k < marked@.len() && marked@[k as int]@ == id@,
            None => !has_mark(marked@, id@),
        },
{
    let mut k: usize = 0;
    while k < marked.len()
        invariant
            k <= marked@.len(),
            forall|j: int| 0 <= j < k ==> marked@[j]@ != id@,
        decreases marked@.len() - k,
    {
        if marked[k] == *id {
            return Some(k);
        }
        k = k + 1;
    }
    None
}

/// Mark `id` when it is not marked yet.
fn mark_id(marked: &mut Vec<String>, id: &String)
    requires
        marks_distinct(old(marked)@),
    ensures
        marks_distinct(final(marked)@),
        marks(final(marked)@) == marks(old(marked)@).insert(id@),
{
    let ghost x = marked@;
    if position(marked, id).is_none() {
        let c = id.clone();
        let ghost cv = c;
        marked.push(c);
        let ghost y = marked@;
        assert(y =~= x.push(cv));
        assert(y[x.len() as int]@ == id@);
        assert forall|t: Seq<char>| #[trigger] has_mark(y, t) <==> (has_mark(x, t) || t == id@) by {
            if has_mark(y, t) && t != id@ {
                let j = choose|j: int| 0 <= j < y.len() && #[trigger] y[j]@ == t;
                assert(x[j]@ == t);
            }
            if has_mark(x, t) {
                let j = choose|j: int| 0 <= j < x.len() && #[trigger] x[j]@ == t;
                assert(y[j]@ == t);
            }
        }
    }
    assert(marks(marked@) =~= marks(x).insert(id@));
}

/// Mark `id` when it is unmarked, unmark it when it is marked.
pub(crate) fn toggle_id(marked: &mut Vec<String>, id: &String)
    requires
        marks_distinct(old(marked)@),
    ensures
        marks_distinct(final(marked)@),
        marks(final(marked)@) == toggle_s(marks(old(marked)@), id@),
{
    let ghost x = marked@;
    match position(marked, id) {
        Some(k) => {
            marked.remove(k);
            let ghost y = marked@;
            assert(y =~= x.remove(k as int));
            assert forall|t: Seq<char>| #[trigger] has_mark(y, t) <==> (has_mark(x, t) && t != id@) by {
                if has_mark(y, t) {
                    let j = choose|j: int| 0 <= j < y.len() && #[trigger] y[j]@ == t;
                    if j < k {
                        assert(x[j]@ == t);
                    } else {
                        assert(x[j + 1]@ == t);
                    }
                }
                if t != id@ && has_mark(x, t) {
                    let j = choose|j: int| 0 <= j < x.len() && #[trigger] x[j]@ == t;
                    if j < k {
                        assert(y[j]@ == t);
                    } else {
                        assert(y[j - 1]@ == t);
                    }
                }
            }
            assert(marks(x).contains(id@));
            assert(marks(y) =~= marks(x).remove(id@));
        },
        None => {
            mark_id(marked, id);
        },
    }
}

/// Mark every session of rows `lo` up to `hi` of `visible`.
pub(crate) fn mark_rows(marked: &mut Vec<String>, visible: &Vec<SessionMeta>, lo: usize, hi: usize)
    requires
        marks_distinct(old(marked)@),
        lo <= hi <= visible@.len(),
    ensures
        marks_distinct(final(marked)@),
        marks(final(marked)@) == marks(old(marked)@).union(ids_in(visible@, lo as int, hi as int)),
{
    let ghost x = marked@;
    let mut i: usize = lo;
    assert(marks(x).union(ids_in(visible@, lo as int, lo as int)) =~= marks(x));
    while i < hi
        invariant
            lo <= i <= hi <= visible@.len(),
            marks_distinct(marked@),
            marks(marked@) == marks(x).union(ids_in(visible@, lo as int, i as int)),
        decreases hi - i,
    {
        let ghost before = marks(marked@);
        mark_id(marked, &visible[i].id);
        assert(marks(x).union(ids_in(visible@, lo as int, i + 1)) =~= before.insert(visible@[i as int].id@))
            by {
            assert forall|t: Seq<char>| #[trigger] ids_in(visible@, lo as int, i + 1).contains(t) <==> (ids_in(
                visible@,
                lo as int,
                i as int,
            ).contains(t) || t == visible@[i as int].id@) by {
                if ids_in(visible@, lo as int, i + 1).contains(t) {
                    let k = choose|k: int| lo <= k < i + 1 && #[trigger] visible@[k].id@ == t;
                    if k < i {
                        assert(ids_in(visible@, lo as int, i as int).contains(t));
                    }
                }
                if t == visible@[i as int].id@ {
                    assert(visible@[i as int].id@ == t);
                }
            }
        }
        i = i + 1;
    }
}

/// Ticking a session's checkbox twice (or ctrl-clicking it twice) leaves
/// the marks as they were.
pub proof fn toggling_twice_is_no_change(s: Set<Seq<char>>, id: Seq<char>)
    ensures
        toggle_s(toggle_s(s, id), id) == s,
{
    assert(toggle_s(toggle_s(s, id), id) =~= s);
}

/// A shift-click never unmarks anything, and marks both ends of the range.
pub proof fn shift_clicks_only_add(
    before: Set<Seq<char>>,
    visible: Seq<SessionMeta>,
    a: int,
    i: int,
)
    requires
        0 <= a < visible.len(),
        0 <= i < visible.len(),
    ensures
        before.subset_of(before.union(ids_in(visible, if a <= i { a } else { i }, if a <= i { i + 1 } else { a + 1 }))),
        before.union(ids_in(visible, if a <= i { a } else { i }, if a <= i { i + 1 } else { a + 1 })).contains(visible[a].id@),
        before.union(ids_in(visible, if a <= i { a } else { i }, if a <= i { i + 1 } else { a + 1 })).contains(visible[i].id@),
{
    let lo = if a <= i { a } else { i };
    let hi = if a <= i { i + 1 } else { a + 1 };
    assert(lo <= a < hi && visible[a].id@ == visible[a].id@);
    assert(ids_in(visible, lo, hi).contains(visible[a].id@));
    assert(ids_in(visible, lo, hi).contains(visible[i].id@));
}

/// Which sessions the desktop browser has marked, and the row a shift-click
/// extends a range from.
pub struct Selection {
    /// Marked session ids, each once.
    pub marked: Vec<String>,
    /// The row last clicked, while the list it points into stands.
    pub anchor: Option<usize>,
}

/// The marks hold each id once.
pub open spec fn selection_ok(s: Selection) -> bool {
    marks_distinct(s.marked@)
}

impl Selection {
    /// Nothing marked, no anchor.
    pub fn new() -> (r: Selection)
        ensures
            selection_ok(r),
            r.marked@.len() == 0,
            r.anchor is None,
    {
        Selection { marked: Vec::new(), anchor: None }
    }

    /// A click on row `i` of `visible`: a shift-click marks every row
    /// between the anchor and `i` (nothing without an anchor), a ctrl-click
    /// toggles the row's mark, a plain click leaves the marks alone. Every
    /// click moves the anchor to `i`.
    pub fn click(&mut self, visible: &Vec<SessionMeta>, i: usize, ctrl: bool, shift: bool)
        requires
            selection_ok(*old(self)),
            i < visible@.len(),
            old(self).anchor matches Some(a) ==> a < visible@.len(),
        ensures
            selection_ok(*final(self)),
            final(self).anchor == Some(i),
            shift ==> marks(final(self).marked@) == match old(self).anchor {
                Some(a) => marks(old(self).marked@).union(
                    ids_in(visible@, if a <= i { a as int } else { i as int }, if a <= i {
                        i + 1
                    } else {
                        a + 1
                    }),
                ),
                None => marks(old(self).marked@),
            },
            !shift && ctrl ==> marks(final(self).marked@) == toggle_s(
                marks(old(self).marked@),
                visible@[i as int].id@,
            ),
            !shift && !ctrl ==> final(self).marked == old(self).marked,
    {
        if shift {
            match self.anchor {
                Some(a) => {
                    let (lo, hi): (usize, usize) = if a <= i {
                        (a, i)
                    } else {
                        (i, a)
                    };
                    let n: usize = visible.len();
                    assert(hi < n);
                    mark_rows(&mut self.marked, visible, lo, hi + 1);
                },
                None => {},
            }
        } else if ctrl {
            toggle_id(&mut self.marked, &visible[i].id);
        }
        self.anchor = Some(i);
    }

    /// The checkbox of the session `id` was ticked or unticked: toggle its
    /// mark. The anchor stays.
    pub fn toggle(&mut self, id: &String)
        requires
            selection_ok(*old(self)),
        ensures
            selection_ok(*final(self)),
            marks(final(self).marked@) == toggle_s(marks(old(self).marked@), id@),
            final(self).anchor == old(self).anchor,
    {
        toggle_id(&mut self.marked, id);
    }

    /// "all": mark every session the list shows.
    pub fn mark_all(&mut self, visible: &Vec<SessionMeta>)
        requires
            selection_ok(*old(self)),
        ensures
            selection_ok(*final(self)),
            marks(final(self).marked@) == marks(old(self).marked@).union(
                ids_in(visible@, 0, visible@.len() as int),
            ),
            final(self).anchor == old(self).anchor,
    {
        mark_rows(&mut self.marked, visible, 0, visible.len());
    }

    /// "none": unmark everything.
    pub fn clear(&mut self)
        ensures
            selection_ok(*final(self)),
            final(self).marked@.len() == 0,
            marks(final(self).marked@).is_empty(),
            final(self).anchor == old(self).anchor,
    {
        self.marked = Vec::new();
        assert(marks(self.marked@) =~= Set::<Seq<char>>::empty());
    }

    /// The list was rebuilt: the anchor pointed into the old one, so it goes.
    pub fn relisted(&mut self)
        ensures
            final(self).marked == old(self).marked,
            final(self).anchor is None,
    {
        self.anchor = None;
    }

    /// The index was rebuilt from `sessions`: marks of sessions that are gone
    /// go too.
    pub fn retain(&mut self, sessions: &Vec<SessionMeta>)
        requires
            selection_ok(*old(self)),
        ensures
            selection_ok(*final(self)),
            marks(final(self).marked@) == marks(old(self).marked@).filter(
                |t: Seq<char>| has_session(sessions@, t),
            ),
            final(self).anchor == old(self).anchor,
    {
        let ghost x = self.marked@;
        let mut kept: Vec<String> = Vec::new();
        let mut k: usize = 0;
        while k < self.marked.len()
            invariant
                k <= x.len(),
                self.marked@ == x,
                marks_distinct(x),
                forall|a: int, b: int| 0 <= a < b < kept@.len() ==> kept@[a]@ != kept@[b]@,
                forall|t: Seq<char>| #[trigger] has_mark(kept@, t) <==> (exists|m: int|
                    0 <= m < k && #[trigger] x[m]@ == t) && has_session(sessions@, t),
            decreases x.len() - k,
        {
            let id = &self.marked[k];
            let mut alive = false;
            let mut s: usize = 0;
            while s < sessions.len()
                invariant
                    s <= sessions@.len(),
                    alive <==> exists|q: int| 0 <= q < s && #[trigger] sessions@[q].id@ == id@,
                decreases sessions@.len() - s,
            {
                if sessions[s].id == *id {
                    alive = true;
                }
                s = s + 1;
            }
            let ghost before = kept@;
            if alive {
                let c = id.clone();
                let ghost cv = c;
                kept.push(c);
                assert(kept@ =~= before.push(cv));
                assert forall|a: int, b: int| 0 <= a < b < kept@.len() implies kept@[a]@ != kept@[b]@ by {
                    if b == before.len() && kept@[a]@ == kept@[b]@ {
                        assert(before[a]@ == x[k as int]@);
                        assert(has_mark(before, x[k as int]@));
                        let m = choose|m: int| 0 <= m < k && #[trigger] x[m]@ == x[k as int]@;
                        assert(false);
                    }
                }
            }
            assert forall|t: Seq<char>| #[trigger] has_mark(kept@, t) <==> (exists|m: int|
                0 <= m < k + 1 && #[trigger] x[m]@ == t) && has_session(sessions@, t) by {
                if has_mark(kept@, t) {
                    let j = choose|j: int| 0 <= j < kept@.len() && #[trigger] kept@[j]@ == t;
                    if j < before.len() {
                        assert(has_mark(before, t));
                    } else {
                        assert(x[k as int]@ == t);
                        let q = choose|q: int| 0 <= q < sessions@.len() && #[trigger] sessions@[q].id@ == id@;
                        assert(sessions@[q].id@ == t);
                    }
                }
                if (exists|m: int| 0 <= m < k + 1 && #[trigger] x[m]@ == t) && has_session(sessions@, t) {
                    let m = choose|m: int| 0 <= m < k + 1 && #[trigger] x[m]@ == t;
                    if m < k {
                        assert(has_mark(before, t));
                        let j = choose|j: int| 0 <= j < before.len() && #[trigger] before[j]@ == t;
                        assert(kept@[j]@ == t);
                    } else {
                        let q = choose|q: int| 0 <= q < sessions@.len() && #[trigger] sessions@[q].id@ == t;
                        assert(sessions@[q].id@ == id@);
                        assert(alive);
                        assert(kept@[before.len() as int]@ == t);
                    }
                }
            }
            k = k + 1;
        }
        self.marked = kept;
        assert(marks(self.marked@) =~= marks(x).filter(|t: Seq<char>| has_session(sessions@, t)));
    }

    /// How many sessions a delete would take, and their bytes: the marked
    /// ones (by id, among `sessions`), or the focused one when nothing is
    /// marked.
    pub fn summary(&self, sessions: &Vec<SessionMeta>, focused: Option<&SessionMeta>) -> (r: (usize, u64))
        requires
            total_bytes(sessions@) <= u64::MAX,
        ensures
            self.marked@.len() == 0 ==> r == match focused {
                Some(m) => (1usize, m.size_bytes),
                None => (0usize, 0u64),
            },
            self.marked@.len() > 0 ==> r.0 == self.marked@.len() && r.1 == total_bytes(
                sessions@.filter(|m: SessionMeta| is_marked(m, self.marked@)),
            ),
    {
        if self.marked.len() == 0 {
            return match focused {
                Some(m) => (1, m.size_bytes),
                None => (0, 0),
            };
        }
        let ghost pred = |m: SessionMeta| is_marked(m, self.marked@);
        let mut bytes: u64 = 0;
        let mut i: usize = 0;
        while i < sessions.len()
            invariant
                i <= sessions@.len(),
                total_bytes(sessions@) <= u64::MAX,
                pred == |m: SessionMeta| is_marked(m, self.marked@),
                bytes == total_bytes(sessions@.subrange(0, i as int).filter(pred)),
                bytes <= total_bytes(sessions@.subrange(0, i as int)),
            decreases sessions@.len() - i,
        {
            let ghost pre = sessions@.subrange(0, i as int);
            let ghost next = sessions@.subrange(0, i + 1);
            assert(next.drop_last() =~= pre);
            reveal(Seq::filter);
            proof {
                crate::index::lemma_total_prefix(sessions@, i + 1);
            }
            let m = &sessions[i];
            let mut hit = false;
            let mut k: usize = 0;
            while k < self.marked.len()
                invariant
                    k <= self.marked@.len(),
                    hit <==> exists|j: int| 0 <= j < k && #[trigger] self.marked@[j]@ == m.id@,
                decreases self.marked@.len() - k,
            {
                if self.marked[k] == m.id {
                    hit = true;
                }
                k = k + 1;
            }
            if hit {
                assert(next.filter(pred) == pre.filter(pred).push(*m));
                assert(next.filter(pred).drop_last() =~= pre.filter(pred));
                bytes = bytes + m.size_bytes;
            } else {
                assert(next.filter(pred) == pre.filter(pred));
            }
            i = i + 1;
        }
        assert(sessions@.subrange(0, sessions@.len() as int) =~= sessions@);
        (self.marked.len(), bytes)
    }
}

} // verus!
