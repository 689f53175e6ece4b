//! Character-level text helpers: whitespace, trimming, searching, building.

use vstd::prelude::*;
use vstd::std_specs::iter::IteratorSpec;

verus! {

/// Unicode `White_Space`, the property that `char::is_whitespace` tests.
pub open spec fn is_ws(c: char) -> bool {
    let u = c as u32;
    (9 <= u && u <= 13) || u == 32 || u == 0x85 || u == 0xa0 || u == 0x1680 || (0x2000 <= u
        && u <= 0x200a) || u == 0x2028 || u == 0x2029 || u == 0x202f || u == 0x205f || u == 0x3000
}

/// `char::is_whitespace`.
pub fn is_whitespace(c: char) -> (r: bool)
    ensures
        r == is_ws(c),
{
    let u = c as u32;
    (9 <= u && u <= 13) || u == 32 || u == 0x85 || u == 0xa0 || u == 0x1680 || (0x2000 <= u && u
        <= 0x200a) || u == 0x2028 || u == 0x2029 || u == 0x202f || u == 0x205f || u == 0x3000
}

/// `s` with leading whitespace removed.
pub open spec fn trim_start_s(s: Seq<char>) -> Seq<char>
    decreases s.len(),
{
    if s.len() > 0 && is_ws(s[0]) {
        trim_start_s(s.subrange(1, s.len() as int))
    } else {
        s
    }
}

/// `s` with trailing whitespace removed.
pub open spec fn trim_end_s(s: Seq<char>) -> Seq<char>
    decreases s.len(),
{
    if s.len() > 0 && is_ws(s.last()) {
        trim_end_s(s.drop_last())
    } else {
        s
    }
}

/// `s` with whitespace removed from both ends.
pub open spec fn trim_s(s: Seq<char>) -> Seq<char> {
    trim_end_s(trim_start_s(s))
}

/// `needle` occurs in `hay` starting at index `i`.
pub open spec fn occurs_at<T>(hay: Seq<T>, needle: Seq<T>, i: int) -> bool {
    0 <= i && i + needle.len() <= hay.len() && hay.subrange(i, i + needle.len()) == needle
}

/// Index of the first occurrence of `needle` in `hay` at or after `from`.
pub open spec fn find_from<T>(hay: Seq<T>, needle: Seq<T>, from: int) -> Option<int>
    decreases hay.len() + 1 - from,
{
    if from < 0 || from + needle.len() > hay.len() {
        None
    } else if occurs_at(hay, needle, from) {
        Some(from)
    } else {
        find_from(hay, needle, from + 1)
    }
}

/// Index of the first occurrence of `needle` in `hay`.
pub open spec fn find_s<T>(hay: Seq<T>, needle: Seq<T>) -> Option<int> {
    find_from(hay, needle, 0)
}

/// `needle` occurs somewhere in `hay`.
pub open spec fn contains_s<T>(hay: Seq<T>, needle: Seq<T>) -> bool {
    find_s(hay, needle) is Some
}

/// `hay` begins with `prefix`.
pub open spec fn starts_with_s<T>(hay: Seq<T>, prefix: Seq<T>) -> bool {
    prefix.len() <= hay.len() && hay.subrange(0, prefix.len() as int) == prefix
}

/// What `find_from` returns, stated without recursion.
pub proof fn lemma_find_from<T>(hay: Seq<T>, needle: Seq<T>, from: int)
    requires
        0 <= from,
    ensures
        match find_from(hay, needle, from) {
            Some(i) => from <= i && occurs_at(hay, needle, i) && forall|j: int|
                from <= j < i ==> !occurs_at(hay, needle, j),
            None => forall|j: int| from <= j ==> !occurs_at(hay, needle, j),
        },
    decreases hay.len() + 1 - from,
{
    if from + needle.len() > hay.len() {
    } else if occurs_at(hay, needle, from) {
    } else {
        lemma_find_from(hay, needle, from + 1);
    }
}

/// The characters of `s`.
pub fn chars_of(s: &str) -> (v: Vec<char>)
    ensures
        v@ == s@,
{
    broadcast use vstd::string::group_string_axioms;

    let mut v: Vec<char> = Vec::new();
    let mut it = s.chars();
    loop
        invariant
            it.remaining() =~= s@.subrange(v@.len() as int, s@.len() as int),
            v@ =~= s@.subrange(0, v@.len() as int),
            v@.len() <= s@.len(),
            it.obeys_prophetic_iter_laws(),
            it.decrease() is Some,
        ensures
            v@ == s@,
        decreases it.decrease()->0,
    {
        match it.next() {
            Some(c) => {
                v.push(c);
            },
            None => {
                assert(v@.len() == s@.len());
                assert(s@.subrange(0, s@.len() as int) =~= s@);
                break ;
            },
        }
    }
    v
}

/// `String::push`.
#[verifier::external_body]
pub(crate) fn push_char(s: &mut String, c: char)
    ensures
        final(s)@ == old(s)@.push(c),
{
    s.push(c);
}

/// A `String` holding `v[from..to]`.
pub fn string_of_range(v: &Vec<char>, from: usize, to: usize) -> (s: String)
    requires
        from <= to <= v.len(),
    ensures
        s@ == v@.subrange(from as int, to as int),
{
    let mut s = String::new();
    let mut i = from;
    while i < to
        invariant
            from <= i <= to <= v.len(),
            s@ == v@.subrange(from as int, i as int),
        decreases to - i,
    {
        push_char(&mut s, v[i]);
        assert(v@.subrange(from as int, i + 1) =~= v@.subrange(from as int, i as int).push(v@[i as int]));
        i = i + 1;
    }
    s
}

/// A `String` holding `v`.
pub fn string_of(v: &Vec<char>) -> (s: String)
    ensures
        s@ == v@,
{
    let s = string_of_range(v, 0, v.len());
    assert(v@.subrange(0, v@.len() as int) =~= v@);
    s
}

/// Append the characters of `t` to `s`.
pub fn push_str(s: &mut String, t: &str)
    ensures
        final(s)@ == old(s)@ + t@,
{
    s.append(t);
}

/// An owned copy of `s`.
pub fn owned(s: &str) -> (r: String)
    ensures
        r@ == s@,
{
    let r = s.to_string();
    proof {
        vstd::string::to_string_from_display_ensures_for_str(s, r);
    }
    r
}

/// `a` followed by `b`.
pub fn concat(a: &str, b: &str) -> (r: String)
    ensures
        r@ == a@ + b@,
{
    let mut r = a.to_string();
    proof {
        vstd::string::to_string_from_display_ensures_for_str(a, r);
    }
    r.append(b);
    r
}

/// Index just past the leading whitespace of `v[from..to]`.
pub fn skip_ws_forward(v: &Vec<char>, from: usize, to: usize) -> (i: usize)
    requires
        from <= to <= v.len(),
    ensures
        from <= i <= to,
        trim_start_s(v@.subrange(from as int, to as int)) == v@.subrange(i as int, to as int),
{
    let mut i = from;
    while i < to && is_whitespace(v[i])
        invariant
            from <= i <= to <= v.len(),
            trim_start_s(v@.subrange(from as int, to as int)) == trim_start_s(
                v@.subrange(i as int, to as int),
            ),
        decreases to - i,
    {
        assert(v@.subrange(i as int, to as int).subrange(1, (to - i) as int) =~= v@.subrange(
            i + 1,
            to as int,
        ));
        i = i + 1;
    }
    i
}

/// Index just before the trailing whitespace of `v[from..to]`.
pub fn skip_ws_backward(v: &Vec<char>, from: usize, to: usize) -> (j: usize)
    requires
        from <= to <= v.len(),
    ensures
        from <= j <= to,
        trim_end_s(v@.subrange(from as int, to as int)) == v@.subrange(from as int, j as int),
{
    let mut j = to;
    while j > from && is_whitespace(v[j - 1])
        invariant
            from <= j <= to <= v.len(),
            trim_end_s(v@.subrange(from as int, to as int)) == trim_end_s(
                v@.subrange(from as int, j as int),
            ),
        decreases j - from,
    {
        assert(v@.subrange(from as int, j as int).drop_last() =~= v@.subrange(
            from as int,
            j - 1,
        ));
        j = j - 1;
    }
    j
}

/// `str::trim`.
pub fn trim(s: &str) -> (r: String)
    ensures
        r@ == trim_s(s@),
{
    let v = chars_of(s);
    let i = skip_ws_forward(&v, 0, v.len());
    let j = skip_ws_backward(&v, i, v.len());
    assert(v@.subrange(0, v@.len() as int) =~= v@);
    string_of_range(&v, i, j)
}

/// `str::trim_end`.
pub fn trim_end(s: &str) -> (r: String)
    ensures
        r@ == trim_end_s(s@),
{
    let v = chars_of(s);
    let j = skip_ws_backward(&v, 0, v.len());
    assert(v@.subrange(0, v@.len() as int) =~= v@);
    string_of_range(&v, 0, j)
}

/// `str::trim_start`.
pub fn trim_start(s: &str) -> (r: String)
    ensures
        r@ == trim_start_s(s@),
{
    let v = chars_of(s);
    let i = skip_ws_forward(&v, 0, v.len());
    assert(v@.subrange(0, v@.len() as int) =~= v@);
    string_of_range(&v, i, v.len())
}

/// `needle` occurs in `hay` at `i`.
pub fn occurs_at_chars(hay: &Vec<char>, needle: &Vec<char>, i: usize) -> (r: bool)
    ensures
        r == occurs_at(hay@, needle@, i as int),
{
    if i > hay.len() || needle.len() > hay.len() - i {
        return false;
    }
    let mut k: usize = 0;
    while k < needle.len()
        invariant
            i + needle.len() <= hay.len(),
            k <= needle.len(),
            forall|m: int| 0 <= m < k ==> hay@[i + m] == needle@[m],
        decreases needle.len() - k,
    {
        if hay[i + k] != needle[k] {
            assert(hay@.subrange(i as int, i + needle.len())[k as int] != needle@[k as int]);
            return false;
        }
        k = k + 1;
    }
    assert(hay@.subrange(i as int, i + needle.len()) =~= needle@);
    true
}

/// The first occurrence of `needle` in `hay` at or after `from`.
pub fn find_chars(hay: &Vec<char>, needle: &Vec<char>, from: usize) -> (r: Option<usize>)
    ensures
        match r {
            Some(i) => find_from(hay@, needle@, from as int) == Some(i as int) && from <= i && i
                + needle@.len() <= hay@.len(),
            None => find_from(hay@, needle@, from as int) is None,
        },
{
    proof {
        lemma_find_from(hay@, needle@, from as int);
    }
    if needle.len() > hay.len() {
        assert forall|j: int| from <= j implies !occurs_at(hay@, needle@, j) by {}
        return None;
    }
    let last = hay.len() - needle.len();
    if from > last {
        assert forall|j: int| from <= j implies !occurs_at(hay@, needle@, j) by {}
        return None;
    }
    let mut i = from;
    loop
        invariant
            last + needle.len() == hay.len(),
            from <= i <= last,
            forall|j: int| from <= j < i ==> !occurs_at(hay@, needle@, j),
            match find_from(hay@, needle@, from as int) {
                Some(k) => from <= k && occurs_at(hay@, needle@, k) && forall|j: int|
                    from <= j < k ==> !occurs_at(hay@, needle@, j),
                None => forall|j: int| from <= j ==> !occurs_at(hay@, needle@, j),
            },
        decreases last - i,
    {
        if occurs_at_chars(hay, needle, i) {
            return Some(i);
        }
        if i == last {
            assert forall|j: int| from <= j implies !occurs_at(hay@, needle@, j) by {}
            return None;
        }
        i = i + 1;
    }
}

/// `hay` begins with `prefix`.
pub fn starts_with_chars(hay: &Vec<char>, prefix: &Vec<char>) -> (r: bool)
    ensures
        r == starts_with_s(hay@, prefix@),
{
    occurs_at_chars(hay, prefix, 0)
}

} // verus!

verus! {

/// Left-to-right state of `squash`: the text so far, and whether a run of
/// whitespace is waiting to become one space before the next word.
pub open spec fn squash_acc(s: Seq<char>) -> (Seq<char>, bool)
    decreases s.len(),
{
    if s.len() == 0 {
        (Seq::<char>::empty(), false)
    } else {
        let (o, gap) = squash_acc(s.drop_last());
        let c = s.last();
        if is_ws(c) {
            (o, o.len() > 0)
        } else if gap {
            (o.push(' ').push(c), false)
        } else {
            (o.push(c), false)
        }
    }
}

/// The words of `s` joined by single spaces (`split_whitespace().join(" ")`).
pub open spec fn squash_s(s: Seq<char>) -> Seq<char> {
    squash_acc(s).0
}

/// The words of `s` joined by single spaces.
pub fn squash_chars(v: &Vec<char>) -> (r: String)
    ensures
        r@ == squash_s(v@),
{
    let mut out = String::new();
    let mut out_len: usize = 0;
    let mut gap = false;
    let mut i: usize = 0;
    while i < v.len()
        invariant
            i <= v.len(),
            (out@, gap) == squash_acc(v@.subrange(0, i as int)),
            out_len == out@.len(),
            out_len + (if gap { 1int } else { 0int }) <= i,
        decreases v.len() - i,
    {
        let c = v[i];
        assert(v@.subrange(0, i + 1).drop_last() =~= v@.subrange(0, i as int));
        if is_whitespace(c) {
            gap = out_len > 0;
        } else if gap {
            push_char(&mut out, ' ');
            push_char(&mut out, c);
            out_len = out_len + 2;
            gap = false;
        } else {
            push_char(&mut out, c);
            out_len = out_len + 1;
        }
        i = i + 1;
    }
    assert(v@.subrange(0, v@.len() as int) =~= v@);
    out
}

/// The words of `s` joined by single spaces.
pub fn squash(s: &str) -> (r: String)
    ensures
        r@ == squash_s(s@),
{
    let v = chars_of(s);
    squash_chars(&v)
}

/// At most `max` characters of `s`; a cut is marked with a trailing ellipsis
/// that replaces the last kept character, with whitespace before it dropped.
pub open spec fn truncate_s(s: Seq<char>, max: nat) -> Seq<char> {
    if s.len() <= max {
        s
    } else {
        trim_end_s(s.subrange(0, if max == 0 { 0 } else { max - 1 })) + seq!['\u{2026}']
    }
}

/// `s` cut to at most `max` characters, counting characters rather than
/// bytes, with `…` marking a cut.
pub fn truncate(s: &str, max: usize) -> (r: String)
    ensures
        r@ == truncate_s(s@, max as nat),
{
    let v = chars_of(s);
    if v.len() <= max {
        return string_of(&v);
    }
    let keep = if max == 0 {
        0
    } else {
        max - 1
    };
    let j = skip_ws_backward(&v, 0, keep);
    let mut r = string_of_range(&v, 0, j);
    push_char(&mut r, '\u{2026}');
    assert(r@ =~= trim_end_s(v@.subrange(0, keep as int)) + seq!['\u{2026}']);
    r
}

/// The first eight characters of an id (all of it when shorter).
pub open spec fn short_id_s(id: Seq<char>) -> Seq<char> {
    if id.len() <= 8 {
        id
    } else {
        id.subrange(0, 8)
    }
}

/// First 8 characters of an id. Ids come from file stems rather than validated
/// UUIDs, so this counts characters and survives short and non-ASCII names.
pub fn short_id(id: &str) -> (r: String)
    ensures
        r@ == short_id_s(id@),
{
    let v = chars_of(id);
    if v.len() <= 8 {
        string_of(&v)
    } else {
        string_of_range(&v, 0, 8)
    }
}

/// `s` cut to at most `max` characters never changes a second time.
pub proof fn truncate_is_idempotent(s: Seq<char>, max: nat)
    ensures
        truncate_s(truncate_s(s, max), max) == truncate_s(s, max),
        truncate_s(s, max).len() <= (if s.len() <= max { s.len() } else { if max == 0 { 1 } else { max } }),
{
    if s.len() > max {
        lemma_trim_end_shrinks(s.subrange(0, if max == 0 { 0 } else { max - 1 }));
    }
}

/// Trimming never lengthens, and keeps a prefix.
pub proof fn lemma_trim_end_shrinks(s: Seq<char>)
    ensures
        trim_end_s(s).len() <= s.len(),
        trim_end_s(s) == s.subrange(0, trim_end_s(s).len() as int),
    decreases s.len(),
{
    if s.len() > 0 && is_ws(s.last()) {
        lemma_trim_end_shrinks(s.drop_last());
        assert(s.drop_last().subrange(0, trim_end_s(s).len() as int) =~= s.subrange(
            0,
            trim_end_s(s).len() as int,
        ));
    } else {
        assert(s.subrange(0, s.len() as int) =~= s);
    }
}

} // verus!

verus! {

/// What `str::to_lowercase` makes of `s` (full Unicode case mapping).
pub uninterp spec fn lower_s(s: Seq<char>) -> Seq<char>;

/// `str::to_lowercase`.
#[verifier::external_body]
pub(crate) fn to_lowercase(s: &str) -> (r: String)
    ensures
        r@ == lower_s(s@),
{
    s.to_lowercase()
}

/// `needle` occurs in `hay`.
pub fn contains_str(hay: &str, needle: &str) -> (r: bool)
    ensures
        r == contains_s(hay@, needle@),
{
    let h = chars_of(hay);
    let n = chars_of(needle);
    find_chars(&h, &n, 0).is_some()
}

/// `hay` begins with `prefix`.
pub fn starts_with_str(hay: &str, prefix: &str) -> (r: bool)
    ensures
        r == starts_with_s(hay@, prefix@),
{
    let h = chars_of(hay);
    let p = chars_of(prefix);
    starts_with_chars(&h, &p)
}

/// A copy of an optional string.
pub fn copy_opt(o: &Option<String>) -> (r: Option<String>)
    ensures
        r == *o,
{
    match o {
        Some(s) => Some(s.clone()),
        None => None,
    }
}

} // verus!

verus! {

/// Two strings hold the same characters.
pub fn str_eq(a: &str, b: &str) -> (r: bool)
    ensures
        r == (a@ == b@),
{
    let x = chars_of(a);
    let y = chars_of(b);
    if x.len() != y.len() {
        return false;
    }
    let r = starts_with_chars(&x, &y);
    proof {
        assert(x@.subrange(0, y@.len() as int) =~= x@);
        if a@ == b@ {
            assert(x@.subrange(0, y@.len() as int) =~= y@);
        }
    }
    r
}

} // verus!

verus! {

/// The strings of `list` with `sep` between each two.
pub open spec fn join_s(list: Seq<Seq<char>>, sep: Seq<char>) -> Seq<char>
    decreases list.len(),
{
    if list.len() == 0 {
        Seq::empty()
    } else if list.len() == 1 {
        list[0]
    } else {
        join_s(list.drop_last(), sep) + sep + list.last()
    }
}

/// The strings of `list` with `sep` between each two.
pub fn join(list: &Vec<String>, sep: &str) -> (r: String)
    ensures
        r@ == join_s(list@.map_values(|s: String| s@), sep@),
{
    let ghost views = list@.map_values(|s: String| s@);
    let mut r = String::new();
    let mut i: usize = 0;
    while i < list.len()
        invariant
            i <= list@.len(),
            views == list@.map_values(|s: String| s@),
            r@ == join_s(views.subrange(0, i as int), sep@),
        decreases list@.len() - i,
    {
        assert(views.subrange(0, i + 1).drop_last() =~= views.subrange(0, i as int));
        if i > 0 {
            push_str(&mut r, sep);
        }
        push_str(&mut r, list[i].as_str());
        assert(views.subrange(0, i + 1).last() == list@[i as int]@);
        proof {
            if i == 0 {
                assert(r@ =~= join_s(views.subrange(0, 1), sep@));
            }
        }
        i = i + 1;
    }
    assert(views.subrange(0, views.len() as int) =~= views);
    r
}

} // verus!
