//! Reading the mount table to tell whether a path sits on a Windows drive
//! mounted into WSL.

use vstd::prelude::*;
use crate::paths::{is_under, under_s};
use crate::text::{chars_of, find_chars, find_from, find_s, is_whitespace, is_ws, push_str,
    string_of, string_of_range};

verus! {

/// Left-to-right state of splitting on whitespace: the words so far, and
/// whether the last character was part of a word.
pub open spec fn words_acc(s: Seq<char>) -> (Seq<Seq<char>>, bool)
    decreases s.len(),
{
    if s.len() == 0 {
        (Seq::empty(), false)
    } else {
        let (ws, in_word) = words_acc(s.drop_last());
        let c = s.last();
        if is_ws(c) {
            (ws, false)
        } else if in_word {
            (ws.update(ws.len() - 1, ws.last().push(c)), true)
        } else {
            (ws.push(seq![c]), true)
        }
    }
}

/// The maximal runs of non-whitespace characters of `s` (`split_whitespace`).
pub open spec fn words_s(s: Seq<char>) -> Seq<Seq<char>> {
    words_acc(s).0
}

/// `s` from `pos` on, with every non-overlapping occurrence of `from`
/// (searched left to right) replaced by `to`.
pub open spec fn replace_from(s: Seq<char>, from: Seq<char>, to: Seq<char>, pos: int) -> Seq<char>
    decreases s.len() + 1 - pos,
{
    if pos < 0 || pos > s.len() || from.len() == 0 {
        Seq::empty()
    } else {
        match find_from(s, from, pos) {
            None => s.subrange(pos, s.len() as int),
            Some(i) => if pos <= i && i + from.len() <= s.len() {
                s.subrange(pos, i) + to + replace_from(s, from, to, i + from.len())
            } else {
                Seq::empty()
            },
        }
    }
}

/// `str::replace`.
pub open spec fn replace_s(s: Seq<char>, from: Seq<char>, to: Seq<char>) -> Seq<char> {
    replace_from(s, from, to, 0)
}


/// A mount that holds `path`: its mount point (with `\040` read back as a
/// space), file system type and options. A line of fewer than four fields
/// describes no mount.
pub open spec fn mount_entry(line: Seq<char>, path: Seq<char>) -> Option<
    (Seq<char>, Seq<char>, Seq<char>),
> {
    let f = words_s(line);
    if f.len() < 4 {
        None
    } else {
        let point = replace_s(f[1], "\\040"@, " "@);
        if under_s(path, point, false) {
            Some((point, f[2], f[3]))
        } else {
            None
        }
    }
}

/// The longer mount point of the two wins; on a tie the later one does. Both
/// prefix the same path, so comparing characters orders them as comparing
/// bytes does.
pub open spec fn pick_mount(
    best: Option<(Seq<char>, Seq<char>, Seq<char>)>,
    next: Option<(Seq<char>, Seq<char>, Seq<char>)>,
) -> Option<(Seq<char>, Seq<char>, Seq<char>)> {
    match next {
        None => best,
        Some(e) => match best {
            Some(b) => if b.0.len() > e.0.len() {
                Some(b)
            } else {
                Some(e)
            },
            None => Some(e),
        },
    }
}

/// The mount holding `path` found in the lines of `table` from `pos` on,
/// given the best one among the lines before.
pub open spec fn best_mount_from(
    table: Seq<char>,
    path: Seq<char>,
    pos: int,
    best: Option<(Seq<char>, Seq<char>, Seq<char>)>,
) -> Option<(Seq<char>, Seq<char>, Seq<char>)>
    decreases table.len() + 1 - pos,
{
    if pos < 0 || pos > table.len() {
        best
    } else {
        match find_from(table, "\n"@, pos) {
            None => pick_mount(best, mount_entry(table.subrange(pos, table.len() as int), path)),
            Some(i) => if pos <= i < table.len() {
                best_mount_from(
                    table,
                    path,
                    i + 1,
                    pick_mount(best, mount_entry(table.subrange(pos, i), path)),
                )
            } else {
                best
            },
        }
    }
}

/// A Windows drive: `drvfs` (WSL1), or `9p` carrying `aname=drvfs` (WSL2).
pub open spec fn is_drvfs_s(fstype: Seq<char>, opts: Seq<char>) -> bool {
    fstype == "drvfs"@ || (fstype == "9p"@ && find_s(opts, "aname=drvfs"@) is Some)
}

/// `path` is held by a drvfs mount of `table`, the contents of `/proc/mounts`
/// ("<dev> <mountpoint> <fstype> <opts> ..." per line). The longest mount
/// point that prefixes `path` is the one that holds it.
pub open spec fn on_drvfs_mount_s(path: Seq<char>, table: Seq<char>) -> bool {
    match best_mount_from(table, path, 0, None) {
        Some((_, fstype, opts)) => is_drvfs_s(fstype, opts),
        None => false,
    }
}

/// The whitespace-separated words of `v[from..to]`.
pub fn words_of(v: &Vec<char>, from: usize, to: usize) -> (r: Vec<Vec<char>>)
    requires
        from <= to <= v.len(),
    ensures
        r@.map_values(|w: Vec<char>| w@) == words_s(v@.subrange(from as int, to as int)),
{
    let mut done: Vec<Vec<char>> = Vec::new();
    let mut cur: Vec<char> = Vec::new();
    let mut in_word = false;
    let mut i = from;
    while i < to
        invariant
            from <= i <= to <= v.len(),
            words_acc(v@.subrange(from as int, i as int)) == (if in_word {
                done@.map_values(|w: Vec<char>| w@).push(cur@)
            } else {
                done@.map_values(|w: Vec<char>| w@)
            }, in_word),
            !in_word ==> cur@.len() == 0,
        decreases to - i,
    {
        let c = v[i];
        let ghost d = done@.map_values(|w: Vec<char>| w@);
        assert(v@.subrange(from as int, i + 1).drop_last() =~= v@.subrange(from as int, i as int));
        if is_whitespace(c) {
            if in_word {
                let mut w: Vec<char> = Vec::new();
                std::mem::swap(&mut cur, &mut w);
                done.push(w);
                assert(done@.map_values(|w: Vec<char>| w@) =~= d.push(w@));
            }
            in_word = false;
        } else {
            if in_word {
                let ghost before = cur@;
                cur.push(c);
                assert(d.push(before).update(d.len() as int, before.push(c)) =~= d.push(cur@));
            } else {
                cur.push(c);
                assert(cur@ =~= seq![c]);
            }
            in_word = true;
        }
        i = i + 1;
    }
    if in_word {
        let ghost d = done@.map_values(|w: Vec<char>| w@);
        done.push(cur);
        assert(done@.map_values(|w: Vec<char>| w@) =~= d.push(cur@));
    }
    done
}

/// `str::replace` on characters.
pub fn replace(v: &Vec<char>, from: &Vec<char>, to: &str) -> (r: String)
    requires
        from@.len() > 0,
    ensures
        r@ == replace_s(v@, from@, to@),
{
    let mut out = String::new();
    let mut pos: usize = 0;
    loop
        invariant
            pos <= v.len(),
            from@.len() > 0,
            out@ + replace_from(v@, from@, to@, pos as int) == replace_s(v@, from@, to@),
        decreases v.len() + 1 - pos,
    {
        match find_chars(v, from, pos) {
            None => {
                let tail = string_of_range(v, pos, v.len());
                push_str(&mut out, tail.as_str());
                return out;
            },
            Some(i) => {
                let piece = string_of_range(v, pos, i);
                push_str(&mut out, piece.as_str());
                push_str(&mut out, to);
                assert(out@ + replace_from(v@, from@, to@, i + from@.len()) =~= replace_s(
                    v@,
                    from@,
                    to@,
                ));
                pos = i + from.len();
            },
        }
    }
}

/// The mount entry of line `v[from..to]` if it holds `path`.
fn mount_entry_of(v: &Vec<char>, from: usize, to: usize, path: &str) -> (r: Option<
    (String, Vec<char>, Vec<char>),
>)
    requires
        from <= to <= v.len(),
    ensures
        match r {
            Some((p, f, o)) => mount_entry(v@.subrange(from as int, to as int), path@) == Some(
                (p@, f@, o@),
            ),
            None => mount_entry(v@.subrange(from as int, to as int), path@) is None,
        },
{
    let mut f = words_of(v, from, to);
    let ghost fv = f@.map_values(|w: Vec<char>| w@);
    if f.len() < 4 {
        return None;
    }
    let esc = chars_of("\\040");
    proof {
        reveal_strlit("\\040");
    }
    let point = replace(&f[1], &esc, " ");
    if !is_under(path, point.as_str(), false) {
        return None;
    }
    let opts = f.remove(3);
    let fstype = f.remove(2);
    assert(fv[3] == opts@ && fv[2] == fstype@);
    Some((point, fstype, opts))
}

/// Whether `fstype` and `opts` describe a Windows drive.
fn is_drvfs(fstype: &Vec<char>, opts: &Vec<char>) -> (r: bool)
    ensures
        r == is_drvfs_s(fstype@, opts@),
{
    let f = string_of(fstype);
    let drvfs = "drvfs".to_string();
    let nine = "9p".to_string();
    proof {
        vstd::string::to_string_from_display_ensures_for_str("drvfs", drvfs);
        vstd::string::to_string_from_display_ensures_for_str("9p", nine);
    }
    if f == drvfs {
        return true;
    }
    if f != nine {
        return false;
    }
    let needle = chars_of("aname=drvfs");
    find_chars(opts, &needle, 0).is_some()
}

/// `path` is on a Windows drive mounted into WSL, according to `mounts`, the
/// contents of `/proc/mounts`. Deleting there goes through drvfs, where the
/// recycle bin cannot be reached.
pub fn on_drvfs_mount(path: &str, mounts: &str) -> (r: bool)
    ensures
        r == on_drvfs_mount_s(path@, mounts@),
{
    let v = chars_of(mounts);
    let nl = chars_of("\n");
    proof {
        reveal_strlit("\n");
    }
    let mut best: Option<(String, Vec<char>, Vec<char>)> = None;
    let mut best_len: usize = 0;
    let mut pos: usize = 0;
    loop
        invariant
            pos <= v.len(),
            v@ == mounts@,
            nl@ == "\n"@,
            nl@.len() == 1,
            best_mount_from(v@, path@, 0, None) == best_mount_from(
                v@,
                path@,
                pos as int,
                match best {
                    Some((p, f, o)) => Some((p@, f@, o@)),
                    None => None,
                },
            ),
            best matches Some((p, _, _)) ==> best_len == p@.len(),
        ensures
            best_mount_from(v@, path@, 0, None) == match best {
                Some((p, f, o)) => Some((p@, f@, o@)),
                None => None,
            },
        decreases v.len() + 1 - pos,
    {
        let found = find_chars(&v, &nl, pos);
        let end = match found {
            Some(i) => i,
            None => v.len(),
        };
        let entry = mount_entry_of(&v, pos, end, path);
        match entry {
            Some((p, f, o)) => {
                let plen = chars_of(p.as_str()).len();
                let keep = match &best {
                    Some(_) => best_len > plen,
                    None => false,
                };
                if !keep {
                    best = Some((p, f, o));
                    best_len = plen;
                }
            },
            None => {},
        }
        match found {
            Some(i) => {
                pos = i + 1;
            },
            None => {
                break ;
            },
        }
    }
    match best {
        Some((_, f, o)) => is_drvfs(&f, &o),
        None => false,
    }
}

} // verus!
