//! Session titles: sessions have no stored title, so one is derived from a
//! `custom-title` record, an `agent-name` record, or the first real prompt.

use vstd::prelude::*;
use crate::text::{
    chars_of, concat, owned, find_from, find_chars, find_s, occurs_at, is_whitespace, is_ws, push_str, squash, squash_s,
    skip_ws_backward, skip_ws_forward, starts_with_chars, starts_with_s, string_of_range, trim, trim_s,
    trim_start, trim_start_s, truncate, truncate_s,
};

verus! {

/// Opens a prompt that carries the summary of an earlier conversation.
pub const CONTINUED: &'static str = "This session is being continued from a previous conversation";

/// `<tag>`.
pub open spec fn open_tag(tag: Seq<char>) -> Seq<char> {
    "<"@ + tag + ">"@
}

/// `</tag>`.
pub open spec fn close_tag(tag: Seq<char>) -> Seq<char> {
    "</"@ + tag + ">"@
}

/// The trimmed text between the first `<tag>` and the first `</tag>` after it.
pub open spec fn tag_value_s(s: Seq<char>, tag: Seq<char>) -> Option<Seq<char>> {
    match find_s(s, open_tag(tag)) {
        None => None,
        Some(i) => {
            let start = i + open_tag(tag).len();
            match find_from(s, close_tag(tag), start) {
                None => None,
                Some(end) => Some(trim_s(s.subrange(start, end))),
            }
        },
    }
}

/// `s` from `pos` on with every `<tag>...</tag>` block removed; an
/// unterminated block drops the rest of the text.
pub open spec fn strip_from(s: Seq<char>, tag: Seq<char>, pos: int) -> Seq<char>
    decreases s.len() + 1 - pos,
{
    if pos < 0 || pos > s.len() {
        Seq::empty()
    } else {
        match find_from(s, open_tag(tag), pos) {
            None => s.subrange(pos, s.len() as int),
            Some(start) => s.subrange(pos, start) + match find_from(s, close_tag(tag), start) {
                None => Seq::empty(),
                Some(end) => if end >= start && end + close_tag(tag).len() > pos && end + close_tag(
                    tag,
                ).len() <= s.len() {
                    strip_from(s, tag, end + close_tag(tag).len())
                } else {
                    Seq::empty()
                },
            },
        }
    }
}

/// `s` with every `<tag>...</tag>` block removed.
pub open spec fn strip_tag_blocks_s(s: Seq<char>, tag: Seq<char>) -> Seq<char> {
    strip_from(s, tag, 0)
}

/// `s` without the wrappers the CLI puts around prompts.
pub open spec fn strip_noise_tags_s(s: Seq<char>) -> Seq<char> {
    strip_tag_blocks_s(
        strip_tag_blocks_s(
            strip_tag_blocks_s(strip_tag_blocks_s(s, "system-reminder"@), "local-command-stdout"@),
            "local-command-caveat"@,
        ),
        "command-message"@,
    )
}

/// The text after the first blank line (`"\n\n"`), or nothing when there is none.
pub open spec fn after_paragraph(s: Seq<char>) -> Seq<char> {
    match find_s(s, "\n\n"@) {
        Some(i) => s.subrange(i + 2, s.len() as int),
        None => Seq::empty(),
    }
}

/// A readable form of a raw prompt, or `None` when it carries no signal.
pub open spec fn clean_prompt_s(raw: Seq<char>) -> Option<Seq<char>> {
    match tag_value_s(raw, "command-name"@) {
        Some(name) => {
            let args = match tag_value_s(raw, "command-args"@) {
                Some(a) => a,
                None => Seq::empty(),
            };
            let joined = trim_s(name + " "@ + args);
            if joined.len() == 0 {
                None
            } else {
                Some(squash_s(joined))
            }
        },
        None => {
            let t = trim_start_s(strip_noise_tags_s(raw));
            let body = if starts_with_s(t, "Caveat:"@) {
                after_paragraph(t)
            } else {
                t
            };
            let sq = squash_s(body);
            if sq.len() == 0 {
                None
            } else {
                Some(sq)
            }
        },
    }
}

/// A slash command with no arguments, such as `/clear`.
pub open spec fn is_bare_command_s(s: Seq<char>) -> bool {
    s.len() > 0 && s[0] == '/' && forall|i: int| 0 <= i < s.len() ==> !is_ws(#[trigger] s[i])
}

/// The title the prompts from index `i` on give, given whether a
/// continuation preamble was already seen and the first bare command so far.
pub open spec fn title_from_prompts(
    prompts: Seq<Seq<char>>,
    i: int,
    continued: bool,
    weak: Option<Seq<char>>,
) -> Option<Seq<char>>
    decreases prompts.len() - i,
{
    if i < 0 || i >= prompts.len() {
        match weak {
            Some(w) => Some(w),
            None => if continued {
                Some("(continued session)"@)
            } else {
                None
            },
        }
    } else {
        let raw = prompts[i];
        if starts_with_s(trim_start_s(raw), CONTINUED@) {
            title_from_prompts(prompts, i + 1, true, weak)
        } else {
            match clean_prompt_s(raw) {
                None => title_from_prompts(prompts, i + 1, continued, weak),
                Some(clean) => if is_bare_command_s(clean) {
                    title_from_prompts(
                        prompts,
                        i + 1,
                        continued,
                        match weak {
                            Some(w) => Some(w),
                            None => Some(clean),
                        },
                    )
                } else if continued {
                    Some(truncate_s("(continued) "@ + clean, 110))
                } else {
                    Some(truncate_s(clean, 110))
                },
            }
        }
    }
}

/// A prompt that can decide a title: a continuation preamble, or one that
/// cleans to something. A record that cleans to nothing (a bare reminder,
/// say) never counts against the scan's budget of candidates.
pub open spec fn is_title_candidate_s(raw: Seq<char>) -> bool {
    starts_with_s(trim_start_s(raw), CONTINUED@) || clean_prompt_s(raw) is Some
}

/// Whether `raw` can decide a title.
pub fn is_title_candidate(raw: &str) -> (r: bool)
    ensures
        r == is_title_candidate_s(raw@),
{
    let marker = chars_of(CONTINUED);
    let lead = trim_start(raw);
    let lv = chars_of(lead.as_str());
    if starts_with_chars(&lv, &marker) {
        return true;
    }
    clean_prompt(raw).is_some()
}

/// The first of `candidates` that is not blank, trimmed and truncated.
pub open spec fn explicit_title(candidates: Seq<Option<Seq<char>>>) -> Option<Seq<char>>
    decreases candidates.len(),
{
    if candidates.len() == 0 {
        None
    } else {
        match candidates[0] {
            Some(c) => if trim_s(c).len() > 0 {
                Some(truncate_s(trim_s(c), 110))
            } else {
                explicit_title(candidates.drop_first())
            },
            None => explicit_title(candidates.drop_first()),
        }
    }
}

/// custom-title, then agent-name, then the first usable user prompt.
pub open spec fn derive_title_s(
    custom: Option<Seq<char>>,
    agent: Option<Seq<char>>,
    prompts: Seq<Seq<char>>,
) -> Option<Seq<char>> {
    match explicit_title(seq![custom, agent]) {
        Some(t) => Some(t),
        None => title_from_prompts(prompts, 0, false, None),
    }
}

/// The view of an optional string.
pub open spec fn opt_view(o: Option<String>) -> Option<Seq<char>> {
    match o {
        Some(s) => Some(s@),
        None => None,
    }
}

/// `<tag>` as characters.
fn open_tag_chars(tag: &str) -> (r: Vec<char>)
    ensures
        r@ == open_tag(tag@),
{
    let a = concat("<", tag);
    let b = concat(a.as_str(), ">");
    chars_of(b.as_str())
}

/// `</tag>` as characters.
fn close_tag_chars(tag: &str) -> (r: Vec<char>)
    ensures
        r@ == close_tag(tag@),
{
    let a = concat("</", tag);
    let b = concat(a.as_str(), ">");
    chars_of(b.as_str())
}

/// The trimmed text between the first `<tag>` and the first `</tag>` after it.
pub fn tag_value(s: &str, tag: &str) -> (r: Option<String>)
    ensures
        opt_view(r) == tag_value_s(s@, tag@),
{
    let v = chars_of(s);
    let open = open_tag_chars(tag);
    let close = close_tag_chars(tag);
    match find_chars(&v, &open, 0) {
        None => None,
        Some(i) => {
            let vlen = v.len();
            let start = i + open.len();
            match find_chars(&v, &close, start) {
                None => None,
                Some(end) => {
                    let from = skip_ws_forward(&v, start, end);
                    let to = skip_ws_backward(&v, from, end);
                    Some(string_of_range(&v, from, to))
                },
            }
        },
    }
}

/// `s` with every `<tag>...</tag>` block removed; an unterminated block drops
/// the rest of the text.
pub fn strip_tag_blocks(s: &str, tag: &str) -> (r: String)
    ensures
        r@ == strip_tag_blocks_s(s@, tag@),
{
    let v = chars_of(s);
    let open = open_tag_chars(tag);
    let close = close_tag_chars(tag);
    proof {
        reveal_strlit("</");
        reveal_strlit(">");
    }
    let mut out = String::new();
    let mut pos: usize = 0;
    loop
        invariant
            pos <= v.len(),
            v@ == s@,
            open@ == open_tag(tag@),
            close@ == close_tag(tag@),
            close@.len() >= 3,
            out@ + strip_from(v@, tag@, pos as int) == strip_from(v@, tag@, 0),
        decreases v.len() + 1 - pos,
    {
        match find_chars(&v, &open, pos) {
            None => {
                let tail = string_of_range(&v, pos, v.len());
                push_str(&mut out, tail.as_str());
                return out;
            },
            Some(start) => {
                let piece = string_of_range(&v, pos, start);
                push_str(&mut out, piece.as_str());
                match find_chars(&v, &close, start) {
                    None => {
                        assert(strip_from(v@, tag@, pos as int) =~= v@.subrange(
                            pos as int,
                            start as int,
                        ));
                        return out;
                    },
                    Some(end) => {
                        pos = end + close.len();
                    },
                }
            },
        }
    }
}

/// Boilerplate the CLI wraps around prompts; it says nothing about the session.
pub fn strip_noise_tags(s: &str) -> (r: String)
    ensures
        r@ == strip_noise_tags_s(s@),
{
    let a = strip_tag_blocks(s, "system-reminder");
    let b = strip_tag_blocks(a.as_str(), "local-command-stdout");
    let c = strip_tag_blocks(b.as_str(), "local-command-caveat");
    strip_tag_blocks(c.as_str(), "command-message")
}

/// A slash command with no arguments.
pub fn is_bare_command(s: &str) -> (r: bool)
    ensures
        r == is_bare_command_s(s@),
{
    let v = chars_of(s);
    if v.len() == 0 || v[0] != '/' {
        return false;
    }
    let mut i: usize = 0;
    while i < v.len()
        invariant
            i <= v.len(),
            v@ == s@,
            v@.len() > 0 && v@[0] == '/',
            forall|k: int| 0 <= k < i ==> !is_ws(#[trigger] v@[k]),
        decreases v.len() - i,
    {
        if is_whitespace(v[i]) {
            assert(is_ws(v@[i as int]));
            return false;
        }
        i = i + 1;
    }
    true
}

/// Turn a raw prompt into something readable, or `None` if it carries no
/// signal (pure command noise, reminders, blank).
pub fn clean_prompt(raw: &str) -> (r: Option<String>)
    ensures
        opt_view(r) == clean_prompt_s(raw@),
{
    match tag_value(raw, "command-name") {
        Some(name) => {
            let args = match tag_value(raw, "command-args") {
                Some(a) => a,
                None => String::new(),
            };
            let a = concat(name.as_str(), " ");
            let b = concat(a.as_str(), args.as_str());
            let joined = trim(b.as_str());
            if joined.as_str().is_empty() {
                None
            } else {
                Some(squash(joined.as_str()))
            }
        },
        None => {
            let stripped = strip_noise_tags(raw);
            let t = trim_start(stripped.as_str());
            let tv = chars_of(t.as_str());
            let caveat = chars_of("Caveat:");
            let body = if starts_with_chars(&tv, &caveat) {
                let para = chars_of("\n\n");
                proof {
                    reveal_strlit("\n\n");
                }
                assert(para@.len() == 2);
                let tlen = tv.len();
                match find_chars(&tv, &para, 0) {
                    Some(i) => {
                        string_of_range(&tv, i + 2, tv.len())
                    },
                    None => String::new(),
                }
            } else {
                t
            };
            let sq = squash(body.as_str());
            if sq.as_str().is_empty() {
                None
            } else {
                Some(sq)
            }
        },
    }
}

/// The views of a list of strings.
pub open spec fn views(v: Seq<String>) -> Seq<Seq<char>> {
    v.map_values(|p: String| p@)
}

/// `s` trimmed and cut to the title length when not blank.
fn explicit_candidate(c: &Option<String>) -> (r: Option<String>)
    ensures
        opt_view(r) == (match opt_view(*c) {
            Some(t) => if trim_s(t).len() > 0 {
                Some(truncate_s(trim_s(t), 110))
            } else {
                None
            },
            None => None,
        }),
{
    match c {
        Some(t) => {
            let tt = trim(t.as_str());
            if tt.as_str().is_empty() {
                None
            } else {
                Some(truncate(tt.as_str(), 110))
            }
        },
        None => None,
    }
}

/// custom-title > agent-name > first usable user prompt.
pub fn derive_title(custom: &Option<String>, agent: &Option<String>, prompts: &[String]) -> (r:
    Option<String>)
    ensures
        opt_view(r) == derive_title_s(opt_view(*custom), opt_view(*agent), views(prompts@)),
{
    let ghost cands = seq![opt_view(*custom), opt_view(*agent)];
    assert(cands.drop_first().drop_first() =~= Seq::<Option<Seq<char>>>::empty());
    assert(cands.drop_first()[0] == opt_view(*agent));
    if let Some(t) = explicit_candidate(custom) {
        assert(explicit_title(cands) == opt_view(Some(t)));
        return Some(t);
    }
    if let Some(t) = explicit_candidate(agent) {
        assert(explicit_title(cands) == explicit_title(cands.drop_first()));
        return Some(t);
    }
    assert(explicit_title(cands) is None) by {
        reveal_with_fuel(explicit_title, 3);
    }
    let ghost ps = views(prompts@);
    let marker = chars_of(CONTINUED);
    let mut continued = false;
    let mut weak: Option<String> = None;
    let mut i: usize = 0;
    while i < prompts.len()
        invariant
            i <= prompts.len(),
            ps == views(prompts@),
            ps.len() == prompts@.len(),
            marker@ == CONTINUED@,
            derive_title_s(opt_view(*custom), opt_view(*agent), ps) == title_from_prompts(
                ps,
                0,
                false,
                None,
            ),
            title_from_prompts(ps, 0, false, None) == title_from_prompts(
                ps,
                i as int,
                continued,
                opt_view(weak),
            ),
        decreases prompts.len() - i,
    {
        let raw = &prompts[i];
        assert(ps[i as int] == raw@);
        let lead = trim_start(raw.as_str());
        let lv = chars_of(lead.as_str());
        if starts_with_chars(&lv, &marker) {
            continued = true;
        } else {
            match clean_prompt(raw.as_str()) {
                None => {},
                Some(clean) => {
                    if is_bare_command(clean.as_str()) {
                        if weak.is_none() {
                            weak = Some(clean);
                        }
                    } else if continued {
                        let t = concat("(continued) ", clean.as_str());
                        return Some(truncate(t.as_str(), 110));
                    } else {
                        return Some(truncate(clean.as_str(), 110));
                    }
                },
            }
        }
        i = i + 1;
    }
    match weak {
        Some(w) => Some(w),
        None => if continued {
            Some(owned("(continued session)"))
        } else {
            None
        },
    }
}

/// `<tag>x</tag>`: a prompt that is one block of `tag`.
pub open spec fn block_s(tag: Seq<char>, x: Seq<char>) -> Seq<char> {
    open_tag(tag) + x + close_tag(tag)
}

/// `s` holds no `<`.
pub open spec fn no_lt(s: Seq<char>) -> bool {
    forall|i: int| 0 <= i < s.len() ==> s[i] != '<'
}

/// Where no occurrence starts, nothing is found.
proof fn lemma_find_none(hay: Seq<char>, needle: Seq<char>, from: int)
    requires
        0 <= from,
        forall|j: int| from <= j ==> !occurs_at(hay, needle, j),
    ensures
        find_from(hay, needle, from) is None,
    decreases hay.len() + 1 - from,
{
    if from + needle.len() <= hay.len() {
        lemma_find_none(hay, needle, from + 1);
    }
}

/// The first occurrence at or after `from` is the one at `i`.
proof fn lemma_find_at(hay: Seq<char>, needle: Seq<char>, from: int, i: int)
    requires
        0 <= from <= i,
        occurs_at(hay, needle, i),
        forall|j: int| from <= j < i ==> !occurs_at(hay, needle, j),
    ensures
        find_from(hay, needle, from) == Some(i),
    decreases i - from,
{
    if from < i {
        lemma_find_at(hay, needle, from + 1, i);
    }
}

/// Where `<` stands in a block: at its start and where the closing tag
/// begins, nowhere else.
proof fn lemma_block_lt(tag: Seq<char>, x: Seq<char>, j: int)
    requires
        tag.len() > 0,
        no_lt(tag),
        no_lt(x),
        0 <= j < block_s(tag, x).len(),
        block_s(tag, x)[j] == '<',
    ensures
        j == 0 || j == open_tag(tag).len() + x.len(),
{
    reveal_strlit("<");
    reveal_strlit(">");
    reveal_strlit("</");
    let o = open_tag(tag);
    let c = close_tag(tag);
    let s = block_s(tag, x);
    let p: int = (o.len() + x.len()) as int;
    assert(o.len() == tag.len() + 2);
    assert(c.len() == tag.len() + 3);
    if 0 < j < o.len() {
        assert(s[j] == o[j]);
        if j <= tag.len() {
            assert(o[j] == tag[j - 1]);
        } else {
            assert(o[j] == '>');
        }
    } else if o.len() <= j < p {
        assert(s[j] == x[j - o.len()]);
    } else if p < j {
        assert(s[j] == c[j - p]);
        if j - p == 1 {
            assert(c[1] == '/');
        } else if j - p <= tag.len() + 1 {
            assert(c[j - p] == tag[j - p - 2]);
        } else {
            assert(c[j - p] == '>');
        }
    }
}

/// A block of `tag` holds no `needle` that opens with `<` and not `</` and
/// differs from `<tag>` at position `k`.
proof fn lemma_block_lacks(tag: Seq<char>, x: Seq<char>, needle: Seq<char>, k: int)
    requires
        tag.len() > 0,
        no_lt(tag),
        no_lt(x),
        needle.len() >= 2,
        needle[0] == '<',
        needle[1] != '/',
        1 <= k < open_tag(tag).len(),
        k < needle.len(),
        open_tag(tag)[k] != needle[k],
    ensures
        find_from(block_s(tag, x), needle, 0) is None,
{
    reveal_strlit("</");
    let s = block_s(tag, x);
    let o = open_tag(tag);
    let c = close_tag(tag);
    let p: int = (o.len() + x.len()) as int;
    assert forall|j: int| 0 <= j implies !occurs_at(s, needle, j) by {
        if occurs_at(s, needle, j) {
            assert(s.subrange(j, j + needle.len())[0] == needle[0]);
            lemma_block_lt(tag, x, j);
            if j == 0 {
                assert(s.subrange(0, needle.len() as int)[k] == needle[k]);
                assert(s[k] == o[k]);
            } else {
                assert(s.subrange(j, j + needle.len())[1] == needle[1]);
                assert(s[p + 1] == c[1]);
            }
        }
    }
    lemma_find_none(s, needle, 0);
}

/// Stripping `tag` from a block of `tag` leaves nothing.
proof fn lemma_block_strips(tag: Seq<char>, x: Seq<char>)
    requires
        tag.len() > 0,
        no_lt(tag),
        tag[0] != '/',
        no_lt(x),
    ensures
        strip_tag_blocks_s(block_s(tag, x), tag) == Seq::<char>::empty(),
{
    reveal_strlit("<");
    reveal_strlit(">");
    reveal_strlit("</");
    let s = block_s(tag, x);
    let o = open_tag(tag);
    let c = close_tag(tag);
    let p: int = (o.len() + x.len()) as int;
    assert(s.subrange(0, o.len() as int) =~= o);
    assert(occurs_at(s, o, 0));
    lemma_find_at(s, o, 0, 0);
    assert(s.subrange(p, p + c.len() as int) =~= c);
    assert forall|j: int| 0 <= j < p implies !occurs_at(s, c, j) by {
        if occurs_at(s, c, j) {
            assert(s.subrange(j, j + c.len())[0] == c[0]);
            lemma_block_lt(tag, x, j);
            assert(s.subrange(0, c.len() as int)[1] == c[1]);
            assert(s[1] == o[1]);
        }
    }
    lemma_find_at(s, c, 0, p);
    assert(find_from(s, o, s.len() as int) is None);
    assert(strip_from(s, tag, s.len() as int) == s.subrange(s.len() as int, s.len() as int));
    assert(s.subrange(0, 0) =~= Seq::<char>::empty());
    assert(s.subrange(s.len() as int, s.len() as int) =~= Seq::<char>::empty());
}

/// Stripping a tag the text does not open leaves it as it was.
proof fn lemma_strip_absent(s: Seq<char>, tag: Seq<char>)
    requires
        find_from(s, open_tag(tag), 0) is None,
    ensures
        strip_tag_blocks_s(s, tag) == s,
{
    assert(s.subrange(0, s.len() as int) =~= s);
}

/// Stripping anything from nothing leaves nothing.
proof fn lemma_strip_empty(tag: Seq<char>)
    ensures
        strip_tag_blocks_s(Seq::<char>::empty(), tag) == Seq::<char>::empty(),
{
    reveal_strlit("<");
    reveal_strlit(">");
    assert(open_tag(tag).len() > 0);
    assert(Seq::<char>::empty().subrange(0, 0) =~= Seq::<char>::empty());
}

/// What is left of a prompt that was only noise: nothing to title with.
proof fn lemma_nothing_cleans_to_none(raw: Seq<char>)
    requires
        tag_value_s(raw, "command-name"@) is None,
        strip_noise_tags_s(raw) == Seq::<char>::empty(),
    ensures
        clean_prompt_s(raw) is None,
{
    reveal_strlit("Caveat:");
    assert(trim_start_s(Seq::<char>::empty()) == Seq::<char>::empty());
    assert(squash_s(Seq::<char>::empty()) == Seq::<char>::empty());
}

/// The opening tags the noise stripping and the command check look for,
/// with the characters that tell them apart.
proof fn lemma_tag_chars()
    ensures
        no_lt("system-reminder"@),
        no_lt("local-command-stdout"@),
        no_lt("local-command-caveat"@),
        no_lt("command-message"@),
        "system-reminder"@.len() > 0 && "system-reminder"@[0] != '/',
        "local-command-stdout"@.len() > 0 && "local-command-stdout"@[0] != '/',
        "local-command-caveat"@.len() > 0 && "local-command-caveat"@[0] != '/',
        "command-message"@.len() > 0 && "command-message"@[0] != '/',
        open_tag("system-reminder"@).len() > 15 && open_tag("system-reminder"@)[1] == 's',
        open_tag("local-command-stdout"@).len() > 15 && open_tag("local-command-stdout"@)[1] == 'l'
            && open_tag("local-command-stdout"@)[15] == 's',
        open_tag("local-command-caveat"@).len() > 15 && open_tag("local-command-caveat"@)[1] == 'l'
            && open_tag("local-command-caveat"@)[15] == 'c',
        open_tag("command-message"@).len() > 15 && open_tag("command-message"@)[1] == 'c'
            && open_tag("command-message"@)[9] == 'm',
        open_tag("command-name"@).len() > 9 && open_tag("command-name"@)[0] == '<'
            && open_tag("command-name"@)[1] == 'c' && open_tag("command-name"@)[9] == 'n',
        open_tag("system-reminder"@)[0] == '<',
        open_tag("local-command-stdout"@)[0] == '<',
        open_tag("local-command-caveat"@)[0] == '<',
{
    reveal_strlit("<");
    reveal_strlit(">");
    reveal_strlit("system-reminder");
    reveal_strlit("local-command-stdout");
    reveal_strlit("local-command-caveat");
    reveal_strlit("command-message");
    reveal_strlit("command-name");
}

proof fn lemma_reminder_block(x: Seq<char>)
    requires
        no_lt(x),
    ensures
        clean_prompt_s(block_s("system-reminder"@, x)) is None,
{
    lemma_tag_chars();
    let s = block_s("system-reminder"@, x);
    lemma_block_lacks("system-reminder"@, x, open_tag("command-name"@), 1);
    lemma_block_strips("system-reminder"@, x);
    lemma_strip_empty("local-command-stdout"@);
    lemma_strip_empty("local-command-caveat"@);
    lemma_strip_empty("command-message"@);
    lemma_nothing_cleans_to_none(s);
}

proof fn lemma_stdout_block(x: Seq<char>)
    requires
        no_lt(x),
    ensures
        clean_prompt_s(block_s("local-command-stdout"@, x)) is None,
{
    lemma_tag_chars();
    let s = block_s("local-command-stdout"@, x);
    lemma_block_lacks("local-command-stdout"@, x, open_tag("command-name"@), 1);
    lemma_block_lacks("local-command-stdout"@, x, open_tag("system-reminder"@), 1);
    lemma_strip_absent(s, "system-reminder"@);
    lemma_block_strips("local-command-stdout"@, x);
    lemma_strip_empty("local-command-caveat"@);
    lemma_strip_empty("command-message"@);
    lemma_nothing_cleans_to_none(s);
}

proof fn lemma_caveat_block(x: Seq<char>)
    requires
        no_lt(x),
    ensures
        clean_prompt_s(block_s("local-command-caveat"@, x)) is None,
{
    lemma_tag_chars();
    let s = block_s("local-command-caveat"@, x);
    lemma_block_lacks("local-command-caveat"@, x, open_tag("command-name"@), 1);
    lemma_block_lacks("local-command-caveat"@, x, open_tag("system-reminder"@), 1);
    lemma_block_lacks("local-command-caveat"@, x, open_tag("local-command-stdout"@), 15);
    lemma_strip_absent(s, "system-reminder"@);
    lemma_strip_absent(s, "local-command-stdout"@);
    lemma_block_strips("local-command-caveat"@, x);
    lemma_strip_empty("command-message"@);
    lemma_nothing_cleans_to_none(s);
}

proof fn lemma_message_block(x: Seq<char>)
    requires
        no_lt(x),
    ensures
        clean_prompt_s(block_s("command-message"@, x)) is None,
{
    lemma_tag_chars();
    let s = block_s("command-message"@, x);
    lemma_block_lacks("command-message"@, x, open_tag("command-name"@), 9);
    lemma_block_lacks("command-message"@, x, open_tag("system-reminder"@), 1);
    lemma_block_lacks("command-message"@, x, open_tag("local-command-stdout"@), 1);
    lemma_block_lacks("command-message"@, x, open_tag("local-command-caveat"@), 1);
    lemma_strip_absent(s, "system-reminder"@);
    lemma_strip_absent(s, "local-command-stdout"@);
    lemma_strip_absent(s, "local-command-caveat"@);
    lemma_block_strips("command-message"@, x);
    lemma_nothing_cleans_to_none(s);
}

/// The CLI's noise carries no title: a prompt that is nothing but one
/// `system-reminder`, `local-command-stdout`, `local-command-caveat` or
/// `command-message` block (of text without tags) cleans to nothing, so
/// the next prompt titles the session.
pub proof fn noise_blocks_clean_to_nothing(x: Seq<char>)
    requires
        no_lt(x),
    ensures
        clean_prompt_s(block_s("system-reminder"@, x)) is None,
        clean_prompt_s(block_s("local-command-stdout"@, x)) is None,
        clean_prompt_s(block_s("local-command-caveat"@, x)) is None,
        clean_prompt_s(block_s("command-message"@, x)) is None,
{
    lemma_reminder_block(x);
    lemma_stdout_block(x);
    lemma_caveat_block(x);
    lemma_message_block(x);
}

/// Text with no `<` holds no tag block to strip.
proof fn lemma_plain_lacks(s: Seq<char>, tag: Seq<char>)
    requires
        no_lt(s),
    ensures
        strip_tag_blocks_s(s, tag) == s,
{
    reveal_strlit("<");
    assert(open_tag(tag)[0] == '<');
    assert forall|j: int| 0 <= j implies !occurs_at(s, open_tag(tag), j) by {
        if occurs_at(s, open_tag(tag), j) {
            assert(s.subrange(j, j + open_tag(tag).len())[0] == open_tag(tag)[0]);
        }
    }
    lemma_find_none(s, open_tag(tag), 0);
    lemma_strip_absent(s, tag);
}

/// Only tag blocks are noise: a prompt with no `<` in it comes through the
/// noise stripping unchanged.
pub proof fn plain_text_is_not_noise(s: Seq<char>)
    requires
        no_lt(s),
    ensures
        strip_noise_tags_s(s) == s,
{
    lemma_plain_lacks(s, "system-reminder"@);
    lemma_plain_lacks(s, "local-command-stdout"@);
    lemma_plain_lacks(s, "local-command-caveat"@);
    lemma_plain_lacks(s, "command-message"@);
}

} // verus!
