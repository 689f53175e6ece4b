//! Byte-level reading of transcript lines: JSON lines are classified with
//! substring searches rather than a full parse.

use vstd::prelude::*;
use vstd::string::StringSliceAdditionalSpecFns;
use crate::index::SessionMeta;
use crate::json::{as_str_s, field, get_opt, json_parse, parse_json, Json};
use crate::text::{concat, find_from, find_s, join_s, occurs_at, lemma_find_from, owned, push_str, short_id,
    short_id_s, starts_with_s, str_eq};
use crate::time::{parse_ts, rfc3339_nanos};
use crate::title::{derive_title, derive_title_s, is_title_candidate, is_title_candidate_s, opt_view,
    views};

verus! {

/// `memchr::memmem::find`: the first occurrence of `needle` in `hay`.
#[verifier::external_body]
pub(crate) fn memmem_find(hay: &[u8], needle: &[u8]) -> (r: Option<usize>)
    ensures
        match r {
            Some(i) => find_s(hay@, needle@) == Some(i as int),
            None => find_s(hay@, needle@) is None,
        },
{
    memchr::memmem::find(hay, needle)
}

/// `memchr::memchr`: the first position of `byte` in `hay`.
#[verifier::external_body]
pub(crate) fn memchr_find(byte: u8, hay: &[u8]) -> (r: Option<usize>)
    ensures
        match r {
            Some(i) => find_s(hay@, seq![byte]) == Some(i as int),
            None => find_s(hay@, seq![byte]) is None,
        },
{
    memchr::memchr(byte, hay)
}

/// `std::str::from_utf8(bytes).ok()`, owned.
#[verifier::external_body]
pub(crate) fn decode(bytes: &[u8]) -> (r: Option<String>)
    ensures
        match r {
            Some(s) => vstd::utf8::valid_utf8(bytes@) && s@ == vstd::utf8::decode_utf8(bytes@),
            None => !vstd::utf8::valid_utf8(bytes@),
        },
{
    std::str::from_utf8(bytes).ok().map(|s| s.to_string())
}

/// `u8::is_ascii_whitespace`: space, tab, line feed, form feed, carriage return.
pub open spec fn is_ascii_ws(b: u8) -> bool {
    b == 32 || b == 9 || b == 10 || b == 12 || b == 13
}

/// `s` without its leading ASCII whitespace.
pub open spec fn trim_ascii_start(s: Seq<u8>) -> Seq<u8>
    decreases s.len(),
{
    if s.len() > 0 && is_ascii_ws(s[0]) {
        trim_ascii_start(s.drop_first())
    } else {
        s
    }
}

/// The bytes after a key's colon (whitespace around it tolerated), or `None`
/// when no colon follows or nothing follows it.
pub open spec fn after_colon(rest: Seq<u8>) -> Option<Seq<u8>> {
    let t = trim_ascii_start(rest);
    if t.len() > 0 && t[0] == 58u8 {
        let u = trim_ascii_start(t.drop_first());
        if u.len() > 0 {
            Some(u)
        } else {
            None
        }
    } else {
        None
    }
}

/// Given the bytes just after a key, the raw bytes of its quoted string value.
pub open spec fn quoted_value(rest: Seq<u8>) -> Option<Seq<u8>> {
    match after_colon(rest) {
        Some(u) => if u[0] == 34u8 {
            match find_s(u.drop_first(), seq![34u8]) {
                Some(e) => Some(u.drop_first().take(e)),
                None => None,
            }
        } else {
            None
        },
        None => None,
    }
}

/// Given the bytes just after a key, its quoted string value as text; `None`
/// when there is none or it is not UTF-8.
pub open spec fn value_after_key(rest: Seq<u8>) -> Option<Seq<char>> {
    match quoted_value(rest) {
        Some(v) => if vstd::utf8::valid_utf8(v) {
            Some(vstd::utf8::decode_utf8(v))
        } else {
            None
        },
        None => None,
    }
}

/// The string value of the first occurrence of `key` in `line`.
pub open spec fn string_field_s(line: Seq<u8>, key: Seq<u8>) -> Option<Seq<char>> {
    match find_s(line, key) {
        Some(i) => value_after_key(line.skip(i + key.len())),
        None => None,
    }
}

/// The first occurrence of `key` in `line` has the literal value `true`.
pub open spec fn flag_is_true_s(line: Seq<u8>, key: Seq<u8>) -> bool {
    match find_s(line, key) {
        Some(i) => {
            let rest = line.skip(i + key.len());
            let r = match after_colon(rest) {
                Some(u) => u,
                None => rest,
            };
            starts_with_s(r, seq![116u8, 114u8, 117u8, 101u8])
        },
        None => false,
    }
}

/// The string values of every occurrence of `key` in `line` from `pos` on,
/// in order: the record's own type and any nested block types alike. A quote
/// inside a JSON string is escaped, so the key's bytes never occur inside a
/// string value.
pub open spec fn values_from(line: Seq<u8>, key: Seq<u8>, pos: int) -> Seq<Seq<char>>
    decreases line.len() + 1 - pos,
{
    if pos < 0 || pos > line.len() || key.len() == 0 {
        Seq::empty()
    } else {
        match find_from(line, key, pos) {
            None => Seq::empty(),
            Some(i) => if pos <= i && i + key.len() <= line.len() {
                let p = i + key.len();
                match value_after_key(line.skip(p)) {
                    Some(v) => seq![v] + values_from(line, key, p),
                    None => values_from(line, key, p),
                }
            } else {
                Seq::empty()
            },
        }
    }
}

/// The values of every `"type"` key in `line`.
pub open spec fn type_values_s(line: Seq<u8>) -> Seq<Seq<char>> {
    values_from(line, type_key(), 0)
}

/// The bytes of `"type"`, quotes included.
pub open spec fn type_key() -> Seq<u8> {
    seq![34u8, 116u8, 121u8, 112u8, 101u8, 34u8]
}

/// Index just past the leading ASCII whitespace of `s[from..]`.
fn skip_ascii_ws(s: &[u8], from: usize) -> (i: usize)
    requires
        from <= s@.len(),
    ensures
        from <= i <= s@.len(),
        trim_ascii_start(s@.skip(from as int)) == s@.skip(i as int),
{
    let mut i = from;
    while i < s.len() && (s[i] == 32 || s[i] == 9 || s[i] == 10 || s[i] == 12 || s[i] == 13)
        invariant
            from <= i <= s@.len(),
            trim_ascii_start(s@.skip(from as int)) == trim_ascii_start(s@.skip(i as int)),
        decreases s@.len() - i,
    {
        assert(s@.skip(i as int).drop_first() =~= s@.skip(i + 1));
        i = i + 1;
    }
    i
}

/// Where the value after a key's colon starts, for the bytes `line[from..]`.
fn skip_colon(line: &[u8], from: usize) -> (r: Option<usize>)
    requires
        from <= line@.len(),
    ensures
        match r {
            Some(i) => from < i < line@.len() && after_colon(line@.skip(from as int)) == Some(
                line@.skip(i as int),
            ),
            None => after_colon(line@.skip(from as int)) is None,
        },
{
    let t = skip_ascii_ws(line, from);
    if t < line.len() && line[t] == 58 {
        assert(line@.skip(t as int).drop_first() =~= line@.skip(t + 1));
        let u = skip_ascii_ws(line, t + 1);
        if u < line.len() {
            Some(u)
        } else {
            None
        }
    } else {
        None
    }
}

/// Given that a key ends at `line[from]`, its quoted string value as text.
pub fn value_after(line: &[u8], from: usize) -> (r: Option<String>)
    requires
        from <= line@.len(),
    ensures
        match r {
            Some(s) => value_after_key(line@.skip(from as int)) == Some(s@),
            None => value_after_key(line@.skip(from as int)) is None,
        },
{
    let u = match skip_colon(line, from) {
        Some(u) => u,
        None => return None,
    };
    if line[u] != 34 {
        return None;
    }
    let w = u + 1;
    assert(line@.skip(u as int).drop_first() =~= line@.skip(w as int));
    let tail = &line[w..line.len()];
    assert(tail@ =~= line@.skip(w as int));
    let end = match memchr_find(34, tail) {
        Some(e) => e,
        None => return None,
    };
    proof {
        lemma_find_from(tail@, seq![34u8], 0);
    }
    let v = &line[w..w + end];
    assert(v@ =~= tail@.take(end as int));
    decode(v)
}

/// The string value of the first occurrence of `key` in `line`, tolerating
/// whitespace around the colon.
pub fn string_field(line: &[u8], key: &[u8]) -> (r: Option<String>)
    ensures
        match r {
            Some(s) => string_field_s(line@, key@) == Some(s@),
            None => string_field_s(line@, key@) is None,
        },
{
    let n = line.len();
    match memmem_find(line, key) {
        Some(at) => {
            proof {
                lemma_find_from(line@, key@, 0);
            }
            value_after(line, at + key.len())
        },
        None => None,
    }
}

/// True when `key` is present in `line` with the literal value `true`.
pub fn flag_is_true(line: &[u8], key: &[u8]) -> (r: bool)
    ensures
        r == flag_is_true_s(line@, key@),
{
    let n = line.len();
    let at = match memmem_find(line, key) {
        Some(at) => at,
        None => return false,
    };
    proof {
        lemma_find_from(line@, key@, 0);
    }
    let from = at + key.len();
    let start = match skip_colon(line, from) {
        Some(u) => u,
        None => from,
    };
    let ghost r = line@.skip(start as int);
    let ok = n >= 4 && start <= n - 4 && line[start] == 116 && line[start + 1] == 114 && line[start + 2]
        == 117 && line[start + 3] == 101;
    proof {
        if ok {
            assert(r.subrange(0, 4) =~= seq![116u8, 114u8, 117u8, 101u8]);
        } else if r.len() >= 4 {
            if r.subrange(0, 4) == seq![116u8, 114u8, 117u8, 101u8] {
                assert(r.subrange(0, 4)[0] == 116u8);
                assert(r.subrange(0, 4)[1] == 114u8);
                assert(r.subrange(0, 4)[2] == 117u8);
                assert(r.subrange(0, 4)[3] == 101u8);
            }
        }
    }
    ok
}

/// The values of every occurrence of `key` in `line`, in order.
pub fn values_of(line: &[u8], key: &[u8]) -> (r: Vec<String>)
    requires
        key@.len() > 0,
    ensures
        views(r@) == values_from(line@, key@, 0),
{
    let mut out: Vec<String> = Vec::new();
    let mut pos: usize = 0;
    loop
        invariant
            pos <= line@.len(),
            key@.len() > 0,
            views(out@) + values_from(line@, key@, pos as int) == values_from(
                line@,
                key@,
                0,
            ),
        decreases line@.len() + 1 - pos,
    {
        let tail = &line[pos..line.len()];
        assert(tail@ =~= line@.skip(pos as int));
        let off = match memmem_find(tail, key) {
            Some(off) => off,
            None => {
                proof {
                    lemma_find_from(tail@, key@, 0);
                    lemma_find_from(line@, key@, pos as int);
                    if let Some(i) = find_from(line@, key@, pos as int) {
                        assert(occurs_at(tail@, key@, i - pos)) by {
                            assert(tail@.subrange(i - pos, i - pos + key@.len()) =~= line@.subrange(
                                i,
                                i + key@.len(),
                            ));
                        }
                    }
                }
                assert(views(out@) =~= values_from(line@, key@, 0));
                return out;
            },
        };
        proof {
            lemma_find_from(tail@, key@, 0);
            lemma_find_from(line@, key@, pos as int);
            assert(occurs_at(line@, key@, pos + off)) by {
                assert(tail@.subrange(off as int, off + key@.len()) =~= line@.subrange(
                    pos + off,
                    pos + off + key@.len(),
                ));
            }
            if let Some(i) = find_from(line@, key@, pos as int) {
                if i < pos + off {
                    assert(occurs_at(tail@, key@, i - pos)) by {
                        assert(tail@.subrange(i - pos, i - pos + key@.len()) =~= line@.subrange(
                            i,
                            i + key@.len(),
                        ));
                    }
                }
            }
        }
        let p = pos + off + key.len();
        let ghost before = views(out@);
        match value_after(line, p) {
            Some(v) => {
                out.push(v);
                assert(views(out@) =~= before.push(
                    value_after_key(line@.skip(p as int))->Some_0,
                ));
            },
            None => {},
        }
        pos = p;
    }
}

/// The values of every `"type"` key in `line`.
pub fn type_values(line: &[u8]) -> (r: Vec<String>)
    ensures
        views(r@) == type_values_s(line@),
{
    let key: [u8; 6] = [34, 116, 121, 112, 101, 34];
    assert(key@ =~= type_key());
    values_of(line, key.as_slice())
}

/// The `text` of the text blocks among `blocks`, in order.
pub open spec fn text_blocks(blocks: Seq<Json>) -> Seq<Seq<char>>
    decreases blocks.len(),
{
    if blocks.len() == 0 {
        Seq::empty()
    } else {
        let rest = text_blocks(blocks.drop_last());
        let b = blocks.last();
        if as_str_s(field(b, "type"@)) == Some("text"@) && as_str_s(field(b, "text"@)) is Some {
            rest.push(as_str_s(field(b, "text"@))->Some_0)
        } else {
            rest
        }
    }
}

/// The text of a message content value: the string itself, or the text
/// blocks of a block array joined by newlines (`None` when there are none).
pub open spec fn message_text_s(content: Json) -> Option<Seq<char>> {
    match content {
        Json::Str(s) => Some(s@),
        Json::Array(blocks) => {
            let texts = text_blocks(blocks@);
            if texts.len() == 0 {
                None
            } else {
                Some(join_s(texts, "\n"@))
            }
        },
        _ => None,
    }
}

/// Concatenate the `text` of a message content value (string or block array).
pub fn message_text(content: &Json) -> (r: Option<String>)
    ensures
        opt_view(r) == message_text_s(*content),
{
    match content {
        Json::Str(s) => Some(s.clone()),
        Json::Array(blocks) => {
            let mut texts: Vec<String> = Vec::new();
            let mut i: usize = 0;
            while i < blocks.len()
                invariant
                    i <= blocks@.len(),
                    texts@.map_values(|t: String| t@) == text_blocks(blocks@.subrange(0, i as int)),
                decreases blocks@.len() - i,
            {
                let b = &blocks[i];
                assert(blocks@.subrange(0, i + 1).drop_last() =~= blocks@.subrange(0, i as int));
                let is_text = match b.get("type") {
                    Some(t) => match t.as_str() {
                        Some(ts) => str_eq(ts, "text"),
                        None => false,
                    },
                    None => false,
                };
                if is_text {
                    match b.get("text") {
                        Some(t) => match t.as_str() {
                            Some(x) => {
                                let ghost before = texts@.map_values(|t: String| t@);
                                texts.push(owned(x));
                                assert(texts@.map_values(|t: String| t@) =~= before.push(x@));
                            },
                            None => {},
                        },
                        None => {},
                    }
                }
                i = i + 1;
            }
            assert(blocks@.subrange(0, blocks@.len() as int) =~= blocks@);
            if texts.len() == 0 {
                None
            } else {
                Some(crate::text::join(&texts, "\n"))
            }
        },
        _ => None,
    }
}

/// The lines of `c` from `pos` on: the pieces between line feeds (the last
/// one possibly empty; an empty line holds no record and changes nothing).
pub open spec fn lines_from(c: Seq<u8>, pos: int) -> Seq<Seq<u8>>
    decreases c.len() + 1 - pos,
{
    if pos < 0 || pos > c.len() {
        Seq::empty()
    } else {
        match find_from(c, seq![10u8], pos) {
            Some(i) => if pos <= i < c.len() {
                seq![c.subrange(pos, i)] + lines_from(c, i + 1)
            } else {
                Seq::empty()
            },
            None => seq![c.subrange(pos, c.len() as int)],
        }
    }
}

/// The lines of `c`.
pub open spec fn lines_s(c: Seq<u8>) -> Seq<Seq<u8>> {
    lines_from(c, 0)
}

/// `t` is among `vals`.
pub open spec fn has_value(vals: Seq<Seq<char>>, t: Seq<char>) -> bool
    decreases vals.len(),
{
    vals.len() > 0 && (vals.last() == t || has_value(vals.drop_last(), t))
}

/// How many of `vals` are `t`.
pub open spec fn count_of(vals: Seq<Seq<char>>, t: Seq<char>) -> nat
    decreases vals.len(),
{
    if vals.len() == 0 {
        0
    } else {
        count_of(vals.drop_last(), t) + if vals.last() == t {
            1nat
        } else {
            0
        }
    }
}

/// `line` carries a `"type"` whose value is `t`.
pub open spec fn has_type(line: Seq<u8>, t: Seq<char>) -> bool {
    has_value(type_values_s(line), t)
}

/// How many of the `"type"` values of `line` are `tool_use`.
pub open spec fn tool_uses(line: Seq<u8>) -> nat {
    count_of(type_values_s(line), "tool_use"@)
}

/// A user or assistant message record.
pub open spec fn is_message(line: Seq<u8>) -> bool {
    has_type(line, "user"@) || has_type(line, "assistant"@)
}

/// The key of the flag that marks CLI scaffolding.
pub open spec fn meta_key() -> Seq<u8> {
    "\"isMeta\"".spec_bytes()
}

/// The key of the flag that marks a side conversation.
pub open spec fn sidechain_key() -> Seq<u8> {
    "\"isSidechain\"".spec_bytes()
}

/// The key of a record's timestamp.
pub open spec fn timestamp_key() -> Seq<u8> {
    "\"timestamp\"".spec_bytes()
}

/// A real user turn: not an assistant record, not a tool result, and not CLI
/// scaffolding marked `isMeta`.
pub open spec fn is_user_turn(line: Seq<u8>) -> bool {
    !has_type(line, "assistant"@) && has_type(line, "user"@) && !has_type(line, "tool_result"@)
        && !flag_is_true_s(line, meta_key())
}

/// Number of real user turns.
pub open spec fn user_count(ls: Seq<Seq<u8>>) -> nat
    decreases ls.len(),
{
    if ls.len() == 0 {
        0
    } else {
        user_count(ls.drop_last()) + if is_user_turn(ls.last()) {
            1nat
        } else {
            0
        }
    }
}

/// Number of assistant records.
pub open spec fn assistant_count(ls: Seq<Seq<u8>>) -> nat
    decreases ls.len(),
{
    if ls.len() == 0 {
        0
    } else {
        assistant_count(ls.drop_last()) + if has_type(ls.last(), "assistant"@) {
            1nat
        } else {
            0
        }
    }
}

/// Number of `tool_use` blocks.
pub open spec fn tool_count(ls: Seq<Seq<u8>>) -> nat
    decreases ls.len(),
{
    if ls.len() == 0 {
        0
    } else {
        tool_count(ls.drop_last()) + tool_uses(ls.last())
    }
}

/// Number of message records.
pub open spec fn message_count(ls: Seq<Seq<u8>>) -> nat
    decreases ls.len(),
{
    if ls.len() == 0 {
        0
    } else {
        message_count(ls.drop_last()) + if is_message(ls.last()) {
            1nat
        } else {
            0
        }
    }
}

/// The instant in a line's `"timestamp"`, if it has one that parses.
pub open spec fn ts_of(line: Seq<u8>) -> Option<int> {
    match string_field_s(line, timestamp_key()) {
        Some(t) => rfc3339_nanos(t),
        None => None,
    }
}

/// The first instant any line records.
pub open spec fn first_ts_s(ls: Seq<Seq<u8>>) -> Option<int>
    decreases ls.len(),
{
    if ls.len() == 0 {
        None
    } else {
        match first_ts_s(ls.drop_last()) {
            Some(t) => Some(t),
            None => ts_of(ls.last()),
        }
    }
}

/// The last instant any line records.
pub open spec fn last_ts_s(ls: Seq<Seq<u8>>) -> Option<int>
    decreases ls.len(),
{
    if ls.len() == 0 {
        None
    } else {
        match ts_of(ls.last()) {
            Some(t) => Some(t),
            None => last_ts_s(ls.drop_last()),
        }
    }
}

/// The string member `key` of a line parsed as JSON.
pub open spec fn json_field_str(line: Seq<u8>, key: Seq<char>) -> Option<Seq<char>> {
    match json_parse(line) {
        Some(v) => as_str_s(field(v, key)),
        None => None,
    }
}

/// Member `key` of the first of the first five message records that carries
/// it: a later record missing the field must not erase an earlier one, and
/// the lookup is not worth a full parse of every message.
pub open spec fn probed(ls: Seq<Seq<u8>>, key: Seq<char>) -> Option<Seq<char>>
    decreases ls.len(),
{
    if ls.len() == 0 {
        None
    } else {
        let prev = probed(ls.drop_last(), key);
        if prev is None && is_message(ls.last()) && message_count(ls.drop_last()) < 5 {
            json_field_str(ls.last(), key)
        } else {
            prev
        }
    }
}

/// The `customTitle` of the last custom-title record that parses.
pub open spec fn custom_title_s(ls: Seq<Seq<u8>>) -> Option<Seq<char>>
    decreases ls.len(),
{
    if ls.len() == 0 {
        None
    } else {
        let l = ls.last();
        if has_type(l, "custom-title"@) && json_parse(l) is Some {
            json_field_str(l, "customTitle"@)
        } else {
            custom_title_s(ls.drop_last())
        }
    }
}

/// The `agentName` of the last agent-name record (that is not also a custom
/// title) that parses.
pub open spec fn agent_name_s(ls: Seq<Seq<u8>>) -> Option<Seq<char>>
    decreases ls.len(),
{
    if ls.len() == 0 {
        None
    } else {
        let l = ls.last();
        if has_type(l, "agent-name"@) && !has_type(l, "custom-title"@) && json_parse(l) is Some {
            json_field_str(l, "agentName"@)
        } else {
            agent_name_s(ls.drop_last())
        }
    }
}

/// The prompt text a line offers as a title candidate.
pub open spec fn prompt_of(line: Seq<u8>) -> Option<Seq<char>> {
    if has_type(line, "user"@) && !has_type(line, "custom-title"@) && !has_type(line, "agent-name"@)
        && !has_type(line, "tool_result"@) && !flag_is_true_s(line, meta_key())
        && !flag_is_true_s(line, sidechain_key()) {
        match json_parse(line) {
            Some(v) => message_text_s(field(field(v, "message"@), "content"@)),
            None => None,
        }
    } else {
        None
    }
}

/// The first four title candidates; prompts that cannot decide a title
/// (see [`is_title_candidate_s`]) take no place among them.
pub open spec fn prompts_s(ls: Seq<Seq<u8>>) -> Seq<Seq<char>>
    decreases ls.len(),
{
    if ls.len() == 0 {
        Seq::empty()
    } else {
        let p = prompts_s(ls.drop_last());
        if p.len() < 4 && (prompt_of(ls.last()) matches Some(t) && is_title_candidate_s(t)) {
            p.push(prompt_of(ls.last())->Some_0)
        } else {
            p
        }
    }
}

/// The title of a session whose lines are `ls`: derived from its records,
/// else `(empty session)` with no messages, else `(untitled <short id>)`.
pub open spec fn session_title(ls: Seq<Seq<u8>>, id: Seq<char>) -> Seq<char> {
    match derive_title_s(custom_title_s(ls), agent_name_s(ls), prompts_s(ls)) {
        Some(t) => t,
        None => if user_count(ls) + assistant_count(ls) == 0 {
            "(empty session)"@
        } else {
            "(untitled "@ + short_id_s(id) + ")"@
        },
    }
}

/// Every count a session reports fits its `u32` field.
pub open spec fn counts_fit(c: Seq<u8>) -> bool {
    user_count(lines_s(c)) <= u32::MAX && assistant_count(lines_s(c)) <= u32::MAX && tool_count(
        lines_s(c),
    ) <= u32::MAX
}

/// An optional instant as an integer.
pub open spec fn opt_int(o: Option<i128>) -> Option<int> {
    match o {
        Some(t) => Some(t as int),
        None => None,
    }
}

/// `n`, capped at five.
pub open spec fn min5(n: nat) -> nat {
    if n < 5 {
        n
    } else {
        5
    }
}

/// Searching `c` from `pos + k` is searching `c[pos..]` from `k`.
pub proof fn lemma_find_shift(c: Seq<u8>, needle: Seq<u8>, pos: int, k: int)
    requires
        0 <= pos <= c.len(),
        0 <= k,
    ensures
        find_from(c, needle, pos + k) == (match find_from(c.skip(pos), needle, k) {
            Some(i) => Some(i + pos),
            None => None::<int>,
        }),
    decreases c.len() + 1 - pos - k,
{
    if pos + k + needle.len() > c.len() {
    } else {
        assert(c.subrange(pos + k, pos + k + needle.len()) =~= c.skip(pos).subrange(
            k,
            k + needle.len(),
        ));
        if !occurs_at(c, needle, pos + k) {
            lemma_find_shift(c, needle, pos, k + 1);
        }
    }
}

/// Where the line that starts at `pos` ends, and whether it is the last one.
pub fn line_end(content: &[u8], pos: usize) -> (r: (usize, bool))
    requires
        pos <= content@.len(),
    ensures
        pos <= r.0 <= content@.len(),
        r.1 ==> r.0 == content@.len() && lines_from(content@, pos as int) == seq![
            content@.subrange(pos as int, r.0 as int),
        ],
        !r.1 ==> r.0 < content@.len() && lines_from(content@, pos as int) == seq![
            content@.subrange(pos as int, r.0 as int),
        ] + lines_from(content@, r.0 + 1),
{
    let n = content.len();
    let tail = &content[pos..n];
    assert(tail@ =~= content@.skip(pos as int));
    let found = memchr_find(10, tail);
    proof {
        lemma_find_shift(content@, seq![10u8], pos as int, 0);
        lemma_find_from(content@, seq![10u8], pos as int);
    }
    match found {
        Some(off) => {
            assert(lines_from(content@, pos as int) =~= seq![
                content@.subrange(pos as int, pos + off),
            ] + lines_from(content@, pos + off + 1));
            (pos + off, false)
        },
        None => {
            assert(lines_from(content@, pos as int) =~= seq![
                content@.subrange(pos as int, n as int),
            ]);
            (n, true)
        },
    }
}

/// The counts of a prefix of some lines are at most those of all of them.
proof fn lemma_counts_prefix(p: Seq<Seq<u8>>, s: Seq<Seq<u8>>)
    requires
        p.len() <= s.len(),
        p == s.take(p.len() as int),
    ensures
        user_count(p) <= user_count(s),
        assistant_count(p) <= assistant_count(s),
        tool_count(p) <= tool_count(s),
    decreases s.len(),
{
    if p.len() < s.len() {
        assert(s.drop_last().take(p.len() as int) =~= s.take(p.len() as int));
        lemma_counts_prefix(p, s.drop_last());
    } else {
        assert(p =~= s);
    }
}

/// Which of the `"type"` values that matter occur among `vals`, and how many
/// of them are `tool_use`.
fn classify(vals: &Vec<String>) -> (r: (bool, bool, bool, bool, bool, usize))
    ensures
        r.0 == has_value(views(vals@), "user"@),
        r.1 == has_value(views(vals@), "assistant"@),
        r.2 == has_value(views(vals@), "tool_result"@),
        r.3 == has_value(views(vals@), "custom-title"@),
        r.4 == has_value(views(vals@), "agent-name"@),
        r.5 == count_of(views(vals@), "tool_use"@),
{
    let mut user = false;
    let mut asst = false;
    let mut result = false;
    let mut custom = false;
    let mut agent = false;
    let mut tools: usize = 0;
    let mut i: usize = 0;
    while i < vals.len()
        invariant
            i <= vals@.len(),
            user == has_value(views(vals@).take(i as int), "user"@),
            asst == has_value(views(vals@).take(i as int), "assistant"@),
            result == has_value(views(vals@).take(i as int), "tool_result"@),
            custom == has_value(views(vals@).take(i as int), "custom-title"@),
            agent == has_value(views(vals@).take(i as int), "agent-name"@),
            tools == count_of(views(vals@).take(i as int), "tool_use"@),
            tools <= i,
        decreases vals@.len() - i,
    {
        let v = vals[i].as_str();
        proof {
            assert(views(vals@).take(i + 1).drop_last() =~= views(vals@).take(i as int));
            assert(views(vals@).take(i + 1).last() == v@);
        }
        user = str_eq(v, "user") || user;
        asst = str_eq(v, "assistant") || asst;
        result = str_eq(v, "tool_result") || result;
        custom = str_eq(v, "custom-title") || custom;
        agent = str_eq(v, "agent-name") || agent;
        if str_eq(v, "tool_use") {
            tools = tools + 1;
        }
        i = i + 1;
    }
    assert(views(vals@).take(vals@.len() as int) =~= views(vals@));
    (user, asst, result, custom, agent, tools)
}

/// The string member `key` of `v`, owned.
fn str_member(v: &Json, key: &str) -> (r: Option<String>)
    ensures
        opt_view(r) == as_str_s(field(*v, key@)),
{
    match v.get(key) {
        Some(x) => match x.as_str() {
            Some(t) => Some(owned(t)),
            None => None,
        },
        None => None,
    }
}

/// What a scan has gathered from the lines read so far.
struct Acc {
    custom: Option<String>,
    agent: Option<String>,
    prompts: Vec<String>,
    first_ts: Option<i128>,
    last_ts: Option<i128>,
    cwd: Option<String>,
    branch: Option<String>,
    probes_left: u8,
    user: u32,
    asst: u32,
    tools: u32,
}

/// `a` holds what the lines `done` say.
spec fn acc_ok(a: Acc, done: Seq<Seq<u8>>) -> bool {
    &&& opt_view(a.custom) == custom_title_s(done)
    &&& opt_view(a.agent) == agent_name_s(done)
    &&& views(a.prompts@) == prompts_s(done)
    &&& opt_int(a.first_ts) == first_ts_s(done)
    &&& opt_int(a.last_ts) == last_ts_s(done)
    &&& opt_view(a.cwd) == probed(done, "cwd"@)
    &&& opt_view(a.branch) == probed(done, "gitBranch"@)
    &&& a.probes_left <= 5
    &&& a.probes_left + min5(message_count(done)) >= 5
    &&& a.probes_left + min5(message_count(done)) > 5 ==> a.cwd is Some && a.branch is Some
    &&& a.user == user_count(done)
    &&& a.asst == assistant_count(done)
    &&& a.tools == tool_count(done)
}

/// Take in one more line.
fn scan_line(a: &mut Acc, line: &[u8], Ghost(done): Ghost<Seq<Seq<u8>>>)
    requires
        acc_ok(*old(a), done),
        user_count(done.push(line@)) <= u32::MAX,
        assistant_count(done.push(line@)) <= u32::MAX,
        tool_count(done.push(line@)) <= u32::MAX,
    ensures
        acc_ok(*final(a), done.push(line@)),
{
    let ghost ls = done.push(line@);
    assert(ls.drop_last() =~= done);
    assert(ls.last() == line@);

    match string_field(line, "\"timestamp\"".as_bytes()) {
        Some(s) => match parse_ts(s.as_str()) {
            Some(t) => {
                if a.first_ts.is_none() {
                    a.first_ts = Some(t);
                }
                a.last_ts = Some(t);
            },
            None => {},
        },
        None => {},
    }

    let types = type_values(line);
    let (is_user, is_asst, is_result, is_custom, is_agent, tools) = classify(&types);
    a.tools = a.tools + tools as u32;
    let meta = flag_is_true(line, "\"isMeta\"".as_bytes());
    if is_asst {
        a.asst = a.asst + 1;
    } else if is_user && !is_result && !meta {
        a.user = a.user + 1;
    }

    if (is_user || is_asst) && a.probes_left > 0 && (a.cwd.is_none() || a.branch.is_none()) {
        a.probes_left = a.probes_left - 1;
        match parse_json(line) {
            Some(v) => {
                if a.cwd.is_none() {
                    a.cwd = str_member(&v, "cwd");
                }
                if a.branch.is_none() {
                    a.branch = str_member(&v, "gitBranch");
                }
            },
            None => {},
        }
    }

    if is_custom {
        match parse_json(line) {
            Some(v) => {
                a.custom = str_member(&v, "customTitle");
            },
            None => {},
        }
    } else if is_agent {
        match parse_json(line) {
            Some(v) => {
                a.agent = str_member(&v, "agentName");
            },
            None => {},
        }
    } else if is_user && a.prompts.len() < 4 && !is_result && !meta && !flag_is_true(
        line,
        "\"isSidechain\"".as_bytes(),
    ) {
        match parse_json(line) {
            Some(v) => {
                let content = get_opt(v.get("message"), "content");
                let text = match content {
                    Some(c) => message_text(c),
                    None => None,
                };
                match text {
                    Some(t) => {
                        if is_title_candidate(t.as_str()) {
                            let ghost before = views(a.prompts@);
                            a.prompts.push(t);
                            assert(views(a.prompts@) =~= before.push(t@));
                        }
                    },
                    None => {},
                }
            },
            None => {},
        }
    }
}

/// Read one session transcript, given its project, path, id (the file stem),
/// size, modification time and contents: counts, first and last timestamps,
/// working directory, branch and title, in one pass over its lines.
pub fn scan_session(
    slug: &str,
    path: &str,
    id: &str,
    size_bytes: u64,
    modified_ms: i64,
    content: &[u8],
) -> (r: SessionMeta)
    requires
        counts_fit(content@),
    ensures
        r.id@ == id@,
        r.path@ == path@,
        r.project_slug@ == slug@,
        r.size_bytes == size_bytes,
        r.modified_ms == modified_ms,
        opt_int(r.first_ts) == first_ts_s(lines_s(content@)),
        opt_int(r.last_ts) == last_ts_s(lines_s(content@)),
        r.title@ == session_title(lines_s(content@), id@),
        opt_view(r.cwd) == probed(lines_s(content@), "cwd"@),
        opt_view(r.git_branch) == probed(lines_s(content@), "gitBranch"@),
        r.user_msgs == user_count(lines_s(content@)),
        r.assistant_msgs == assistant_count(lines_s(content@)),
        r.tool_calls == tool_count(lines_s(content@)),
{
    let n = content.len();
    let mut a = Acc {
        custom: None,
        agent: None,
        prompts: Vec::new(),
        first_ts: None,
        last_ts: None,
        cwd: None,
        branch: None,
        probes_left: 5,
        user: 0,
        asst: 0,
        tools: 0,
    };
    let ghost c = content@;
    let ghost mut done: Seq<Seq<u8>> = Seq::empty();
    let mut pos: usize = 0;
    assert(views(a.prompts@) =~= Seq::<Seq<char>>::empty());
    assert(done + lines_from(c, 0) =~= lines_s(c));
    loop
        invariant_except_break
            pos <= n,
            done + lines_from(c, pos as int) == lines_s(c),
        invariant
            n == c.len(),
            c == content@,
            counts_fit(c),
            acc_ok(a, done),
        ensures
            done == lines_s(c),
        decreases n + 1 - pos,
    {
        let (end, last) = line_end(content, pos);
        let line = &content[pos..end];
        assert(line@ =~= c.subrange(pos as int, end as int));
        proof {
            assert(done.push(line@) =~= lines_s(c).take(done.len() as int + 1));
            lemma_counts_prefix(done.push(line@), lines_s(c));
        }
        scan_line(&mut a, line, Ghost(done));
        proof {
            done = done.push(line@);
        }
        if last {
            assert(done =~= lines_s(c));
            break;
        }
        assert(done + lines_from(c, end + 1) =~= lines_s(c));
        pos = end + 1;
    }
    let title = match derive_title(&a.custom, &a.agent, a.prompts.as_slice()) {
        Some(t) => t,
        None => if a.user == 0 && a.asst == 0 {
            owned("(empty session)")
        } else {
            let sid = short_id(id);
            let head = concat("(untitled ", sid.as_str());
            concat(head.as_str(), ")")
        },
    };
    SessionMeta {
        id: owned(id),
        path: owned(path),
        project_slug: owned(slug),
        size_bytes,
        modified_ms,
        first_ts: a.first_ts,
        last_ts: a.last_ts,
        title,
        cwd: a.cwd,
        git_branch: a.branch,
        user_msgs: a.user,
        assistant_msgs: a.asst,
        tool_calls: a.tools,
    }
}

/// The last rename wins: after a custom-title record that parses, the
/// session's custom title is that record's `customTitle` (none when it is
/// not a string), whatever came before.
pub proof fn the_last_custom_title_wins(ls: Seq<Seq<u8>>, l: Seq<u8>, v: Json)
    requires
        has_type(l, "custom-title"@),
        json_parse(l) == Some(v),
    ensures
        custom_title_s(ls.push(l)) == as_str_s(field(v, "customTitle"@)),
{
    assert(ls.push(l).last() == l);
    assert(ls.push(l).drop_last() =~= ls);
}

/// A session whose last custom-title record names a non-blank title `c` is
/// shown under `c`, trimmed and cut to 110 characters, whatever its
/// earlier renames, agent name or prompts say.
pub proof fn a_renamed_session_shows_its_last_name(ls: Seq<Seq<u8>>, l: Seq<u8>, v: Json, id: Seq<char>, c: Seq<char>)
    requires
        has_type(l, "custom-title"@),
        json_parse(l) == Some(v),
        as_str_s(field(v, "customTitle"@)) == Some(c),
        crate::text::trim_s(c).len() > 0,
    ensures
        session_title(ls.push(l), id) == crate::text::truncate_s(crate::text::trim_s(c), 110),
{
    the_last_custom_title_wins(ls, l, v);
}

} // verus!
