//! Transcripts: the prompts, replies, thinking, tool calls and tool results
//! of one session, in order, as the preview and `show` render them.

use vstd::prelude::*;
use crate::json::{as_bool_s, as_str_s, compact, field, json_compact, json_parse, json_pretty,
    parse_json, pretty, Json};
use crate::mounts::{replace, replace_s};
use crate::scan::{line_end, lines_from, lines_s};
use crate::text::{chars_of, join, join_s, owned, str_eq, trim, trim_s, truncate, truncate_s};
use crate::time::{parse_ts, rfc3339_nanos};
use crate::title::{strip_noise_tags, strip_noise_tags_s, tag_value, tag_value_s};

verus! {

/// An event as plain values.
pub ghost enum EventV {
    User(Seq<char>),
    Assistant(Seq<char>),
    Thinking(Seq<char>),
    ToolUse { name: Seq<char>, headline: Seq<char>, raw: Seq<char> },
    ToolResult { is_error: bool, preview: Seq<char>, raw: Seq<char> },
}

/// One thing that happened in a session.
#[derive(Debug, Clone)]
pub enum Event {
    User(String),
    Assistant(String),
    Thinking(String),
    ToolUse { name: String, headline: String, raw: String },
    ToolResult { is_error: bool, preview: String, raw: String },
}

impl View for Event {
    type V = EventV;

    open spec fn view(&self) -> EventV {
        match self {
            Event::User(t) => EventV::User(t@),
            Event::Assistant(t) => EventV::Assistant(t@),
            Event::Thinking(t) => EventV::Thinking(t@),
            Event::ToolUse { name, headline, raw } => EventV::ToolUse {
                name: name@,
                headline: headline@,
                raw: raw@,
            },
            Event::ToolResult { is_error, preview, raw } => EventV::ToolResult {
                is_error: *is_error,
                preview: preview@,
                raw: raw@,
            },
        }
    }
}

/// The text in-session search looks at.
pub open spec fn searchable_s(e: EventV) -> Seq<char> {
    match e {
        EventV::User(t) => t,
        EventV::Assistant(t) => t,
        EventV::Thinking(t) => t,
        EventV::ToolUse { headline, .. } => headline,
        EventV::ToolResult { preview, .. } => preview,
    }
}

impl Event {
    /// Text used for in-session search.
    pub fn searchable(&self) -> (r: &str)
        ensures
            r@ == searchable_s(self@),
    {
        match self {
            Event::User(t) => t.as_str(),
            Event::Assistant(t) => t.as_str(),
            Event::Thinking(t) => t.as_str(),
            Event::ToolUse { headline, .. } => headline.as_str(),
            Event::ToolResult { preview, .. } => preview.as_str(),
        }
    }

    /// A copy with the same contents.
    pub fn copy(&self) -> (r: Event)
        ensures
            r@ == self@,
    {
        match self {
            Event::User(t) => Event::User(t.clone()),
            Event::Assistant(t) => Event::Assistant(t.clone()),
            Event::Thinking(t) => Event::Thinking(t.clone()),
            Event::ToolUse { name, headline, raw } => Event::ToolUse {
                name: name.clone(),
                headline: headline.clone(),
                raw: raw.clone(),
            },
            Event::ToolResult { is_error, preview, raw } => Event::ToolResult {
                is_error: *is_error,
                preview: preview.clone(),
                raw: raw.clone(),
            },
        }
    }
}

/// An entry as plain values: its instant in nanoseconds, whether it belongs
/// to a side conversation, and its event.
pub ghost struct EntryV {
    pub ts: Option<int>,
    pub sidechain: bool,
    pub event: EventV,
}

/// One event of a transcript, with the instant and side-conversation flag of
/// the record it came from. `ts` is in nanoseconds since the epoch, UTC.
#[derive(Debug, Clone)]
pub struct Entry {
    pub ts: Option<i128>,
    pub sidechain: bool,
    pub event: Event,
}

impl View for Entry {
    type V = EntryV;

    open spec fn view(&self) -> EntryV {
        EntryV {
            ts: match self.ts {
                Some(t) => Some(t as int),
                None => None,
            },
            sidechain: self.sidechain,
            event: self.event@,
        }
    }
}

/// How much of a transcript to load.
#[derive(Debug, Clone)]
pub struct LoadOpts {
    pub max_entries: usize,
    pub include_sidechains: bool,
}

impl Default for LoadOpts {
    /// Up to 2000 entries, side conversations left out.
    fn default() -> (r: Self)
        ensures
            r.max_entries == 2000,
            !r.include_sidechains,
    {
        LoadOpts { max_entries: 2000, include_sidechains: false }
    }
}

/// The entries of a session, in order.
#[derive(Debug, Clone)]
pub struct Transcript {
    pub entries: Vec<Entry>,
    /// True when `max_entries` cut the load short.
    pub truncated: bool,
}

/// The views of some entries.
pub open spec fn entries_v(v: Seq<Entry>) -> Seq<EntryV> {
    v.map_values(|e: Entry| e@)
}

/// Line breaks shown as ` ⏎ `, so that a multi-line text fits one line.
pub open spec fn newline_marked(s: Seq<char>) -> Seq<char> {
    replace_s(s, seq!['\n'], " \u{23ce} "@)
}

/// What a user turn shows: nothing for a slash command, else the text without
/// the CLI's noise tags, trimmed, when anything is left.
pub open spec fn user_text_s(text: Seq<char>) -> Option<EventV> {
    if tag_value_s(text, "command-name"@) is Some {
        None
    } else {
        let st = trim_s(strip_noise_tags_s(text));
        if st.len() > 0 {
            Some(EventV::User(st))
        } else {
            None
        }
    }
}

/// The input fields that say what a tool call does, most telling first.
pub open spec fn salient_s() -> Seq<Seq<char>> {
    seq![
        "command"@,
        "file_path"@,
        "pattern"@,
        "prompt"@,
        "path"@,
        "url"@,
        "query"@,
        "description"@,
    ]
}

/// The headline from the salient fields from the `k`-th on: the first that
/// holds a non-blank string, trimmed and on one line; else the whole input
/// as compact JSON. Either way at most 160 characters.
pub open spec fn headline_from(input: Json, k: int) -> Seq<char>
    decreases 8 - k,
{
    if k < 0 || k >= 8 {
        truncate_s(json_compact(input), 160)
    } else {
        match as_str_s(field(input, salient_s()[k])) {
            Some(s) => if trim_s(s).len() > 0 {
                truncate_s(newline_marked(trim_s(s)), 160)
            } else {
                headline_from(input, k + 1)
            },
            None => headline_from(input, k + 1),
        }
    }
}

/// The one field that says what a tool call does.
pub open spec fn headline_s(input: Json) -> Seq<char> {
    headline_from(input, 0)
}

/// A string member, or the empty string.
pub open spec fn str_or_empty(v: Json) -> Seq<char> {
    match as_str_s(v) {
        Some(s) => s,
        None => Seq::empty(),
    }
}

/// How a block of a tool result reads: a text block as its text, any other
/// as its type in brackets.
pub open spec fn result_label(b: Json) -> Seq<char> {
    let t = str_or_empty(field(b, "type"@));
    if t == "text"@ {
        str_or_empty(field(b, "text"@))
    } else {
        "["@ + t + "]"@
    }
}

/// The text of a tool result: a string as itself, blocks as their labels on
/// separate lines, nothing for `null`, anything else as compact JSON.
pub open spec fn result_text_s(content: Json) -> Seq<char> {
    match content {
        Json::Str(s) => s@,
        Json::Array(bs) => join_s(bs@.map_values(|b: Json| result_label(b)), "\n"@),
        Json::Null => Seq::empty(),
        _ => json_compact(content),
    }
}

/// A string that is not blank once trimmed, trimmed.
pub open spec fn nonblank(o: Option<Seq<char>>) -> Option<Seq<char>> {
    match o {
        Some(s) => if trim_s(s).len() > 0 {
            Some(trim_s(s))
        } else {
            None
        },
        None => None,
    }
}

/// The event a content block of a message makes, if any.
pub open spec fn block_event(b: Json, assistant: bool) -> Option<EventV> {
    let t = str_or_empty(field(b, "type"@));
    if t == "text"@ {
        match nonblank(as_str_s(field(b, "text"@))) {
            Some(x) => if assistant {
                Some(EventV::Assistant(x))
            } else {
                user_text_s(x)
            },
            None => None,
        }
    } else if t == "thinking"@ {
        match nonblank(as_str_s(field(b, "thinking"@))) {
            Some(x) => Some(EventV::Thinking(x)),
            None => None,
        }
    } else if t == "tool_use"@ {
        Some(
            EventV::ToolUse {
                name: match as_str_s(field(b, "name"@)) {
                    Some(n) => n,
                    None => "tool"@,
                },
                headline: headline_s(field(b, "input"@)),
                raw: json_pretty(field(b, "input"@)),
            },
        )
    } else if t == "tool_result"@ {
        let body = result_text_s(field(b, "content"@));
        Some(
            EventV::ToolResult {
                is_error: match as_bool_s(field(b, "is_error"@)) {
                    Some(x) => x,
                    None => false,
                },
                preview: truncate_s(newline_marked(body), 300),
                raw: body,
            },
        )
    } else {
        None
    }
}

/// An optional value as a sequence of at most one.
pub open spec fn opt_seq<T>(o: Option<T>) -> Seq<T> {
    match o {
        Some(x) => seq![x],
        None => Seq::empty(),
    }
}

/// The events of some content blocks, in order.
pub open spec fn block_events(bs: Seq<Json>, assistant: bool) -> Seq<EventV>
    decreases bs.len(),
{
    if bs.len() == 0 {
        Seq::empty()
    } else {
        block_events(bs.drop_last(), assistant) + opt_seq(block_event(bs.last(), assistant))
    }
}

/// The events of a message's content. Plain-string content is always a user
/// turn.
pub open spec fn blocks_of_s(content: Json, assistant: bool) -> Seq<EventV> {
    match content {
        Json::Str(s) => opt_seq(user_text_s(trim_s(s@))),
        Json::Array(bs) => block_events(bs@, assistant),
        _ => Seq::empty(),
    }
}

/// The events of a record: only user and assistant messages carry anything
/// worth showing.
pub open spec fn events_from_s(v: Json) -> Seq<EventV> {
    let t = str_or_empty(field(v, "type"@));
    if t == "user"@ {
        blocks_of_s(field(field(v, "message"@), "content"@), false)
    } else if t == "assistant"@ {
        blocks_of_s(field(field(v, "message"@), "content"@), true)
    } else {
        Seq::empty()
    }
}

/// The entries one line yields: none for an empty line, one that does not
/// parse, or a side-conversation record when those are left out.
#[verifier::opaque]
pub open spec fn line_entries(line: Seq<u8>, include_sidechains: bool) -> Seq<EntryV> {
    if line.len() == 0 {
        Seq::empty()
    } else {
        match json_parse(line) {
            None => Seq::empty(),
            Some(v) => {
                let side = match as_bool_s(field(v, "isSidechain"@)) {
                    Some(b) => b,
                    None => false,
                };
                if side && !include_sidechains {
                    Seq::empty()
                } else {
                    let ts = match as_str_s(field(v, "timestamp"@)) {
                        Some(s) => rfc3339_nanos(s),
                        None => None,
                    };
                    events_from_s(v).map_values(
                        |e: EventV| EntryV { ts: ts, sidechain: side, event: e },
                    )
                }
            },
        }
    }
}

/// The entries of some lines, in order.
pub open spec fn all_entries(ls: Seq<Seq<u8>>, include_sidechains: bool) -> Seq<EntryV>
    decreases ls.len(),
{
    if ls.len() == 0 {
        Seq::empty()
    } else {
        all_entries(ls.drop_last(), include_sidechains) + line_entries(ls.last(), include_sidechains)
    }
}

/// The entries of the lines before `k` followed by those of the rest are the
/// entries of all the lines.
proof fn lemma_entries_split(ls: Seq<Seq<u8>>, k: int, inc: bool)
    requires
        0 <= k <= ls.len(),
    ensures
        all_entries(ls, inc) == all_entries(ls.take(k), inc) + all_entries(ls.skip(k), inc),
    decreases ls.len(),
{
    if k == ls.len() {
        assert(ls.take(k) =~= ls);
        assert(ls.skip(k) =~= Seq::<Seq<u8>>::empty());
        assert(all_entries(ls, inc) + Seq::<EntryV>::empty() =~= all_entries(ls, inc));
    } else {
        let d = ls.drop_last();
        lemma_entries_split(d, k, inc);
        assert(d.take(k) =~= ls.take(k));
        assert(ls.skip(k).drop_last() =~= d.skip(k));
        assert(ls.skip(k).last() == ls.last());
        assert(all_entries(ls, inc) =~= all_entries(ls.take(k), inc) + all_entries(ls.skip(k), inc));
    }
}

/// Line breaks shown as ` ⏎ `.
pub fn mark_newlines(s: &str) -> (r: String)
    ensures
        r@ == newline_marked(s@),
{
    let v = chars_of(s);
    let nl: Vec<char> = vec!['\n'];
    assert(nl@ =~= seq!['\n']);
    replace(&v, &nl, " \u{23ce} ")
}

/// Every session opens with CLI-generated wrappers: a slash command, a caveat
/// about local commands, injected reminders. Rendering those as user turns
/// buries the real prompt, so they are dropped.
pub fn user_text(text: &str) -> (r: Option<Event>)
    ensures
        match r {
            Some(e) => user_text_s(text@) == Some(e@),
            None => user_text_s(text@) is None,
        },
{
    if tag_value(text, "command-name").is_some() {
        return None;
    }
    let stripped = strip_noise_tags(text);
    let st = trim(stripped.as_str());
    if st.as_str().is_empty() {
        None
    } else {
        Some(Event::User(st))
    }
}

/// The salient field at position `k`.
fn salient_key(k: usize) -> (r: &'static str)
    requires
        k < 8,
    ensures
        r@ == salient_s()[k as int],
{
    match k {
        0 => "command",
        1 => "file_path",
        2 => "pattern",
        3 => "prompt",
        4 => "path",
        5 => "url",
        6 => "query",
        _ => "description",
    }
}

/// The one field that says what a tool call actually does.
pub fn headline_for(input: &Json) -> (r: String)
    ensures
        r@ == headline_s(*input),
{
    let mut k: usize = 0;
    while k < 8
        invariant
            k <= 8,
            headline_s(*input) == headline_from(*input, k as int),
        decreases 8 - k,
    {
        match input.get(salient_key(k)) {
            Some(x) => match x.as_str() {
                Some(s) => {
                    let t = trim(s);
                    if !t.as_str().is_empty() {
                        let m = mark_newlines(t.as_str());
                        return truncate(m.as_str(), 160);
                    }
                },
                None => {},
            },
            None => {},
        }
        k = k + 1;
    }
    let c = compact(input);
    truncate(c.as_str(), 160)
}

/// The string member `key` of `v`, or the empty string.
fn member_or_empty<'a>(v: &'a Json, key: &str) -> (r: &'a str)
    ensures
        r@ == str_or_empty(field(*v, key@)),
{
    proof {
        reveal_strlit("");
    }
    match v.get(key) {
        Some(x) => match x.as_str() {
            Some(s) => s,
            None => "",
        },
        None => "",
    }
}

/// How one block of a tool result reads.
fn result_label_of(b: &Json) -> (r: String)
    ensures
        r@ == result_label(*b),
{
    let t = member_or_empty(b, "type");
    if str_eq(t, "text") {
        owned(member_or_empty(b, "text"))
    } else {
        let mut s = owned("[");
        crate::text::push_str(&mut s, t);
        crate::text::push_str(&mut s, "]");
        s
    }
}

/// The text of a tool result's content.
pub fn result_text(content: &Json) -> (r: String)
    ensures
        r@ == result_text_s(*content),
{
    match content {
        Json::Str(s) => s.clone(),
        Json::Array(bs) => {
            let mut labels: Vec<String> = Vec::new();
            let mut i: usize = 0;
            while i < bs.len()
                invariant
                    i <= bs@.len(),
                    labels@.map_values(|s: String| s@) == bs@.subrange(0, i as int).map_values(
                        |b: Json| result_label(b),
                    ),
                decreases bs@.len() - i,
            {
                let l = result_label_of(&bs[i]);
                let ghost before = labels@.map_values(|s: String| s@);
                let ghost lv = l@;
                labels.push(l);
                assert(labels@.map_values(|s: String| s@) =~= before.push(lv));
                assert(bs@.subrange(0, i + 1).map_values(|b: Json| result_label(b))
                    =~= bs@.subrange(0, i as int).map_values(|b: Json| result_label(b)).push(
                    result_label(bs@[i as int]),
                ));
                i = i + 1;
            }
            assert(bs@.subrange(0, bs@.len() as int) =~= bs@);
            join(&labels, "\n")
        },
        Json::Null => String::new(),
        _ => compact(content),
    }
}

/// The string member `key` of `b` when it is not blank, trimmed.
fn nonblank_member(b: &Json, key: &str) -> (r: Option<String>)
    ensures
        match r {
            Some(s) => nonblank(as_str_s(field(*b, key@))) == Some(s@),
            None => nonblank(as_str_s(field(*b, key@))) is None,
        },
{
    match b.get(key) {
        Some(x) => match x.as_str() {
            Some(s) => {
                let t = trim(s);
                if t.as_str().is_empty() {
                    None
                } else {
                    Some(t)
                }
            },
            None => None,
        },
        None => None,
    }
}

/// The event one content block makes, if any.
fn block_event_of(b: &Json, assistant: bool) -> (r: Option<Event>)
    ensures
        match r {
            Some(e) => block_event(*b, assistant) == Some(e@),
            None => block_event(*b, assistant) is None,
        },
{
    let t = member_or_empty(b, "type");
    if str_eq(t, "text") {
        match nonblank_member(b, "text") {
            Some(x) => if assistant {
                Some(Event::Assistant(x))
            } else {
                user_text(x.as_str())
            },
            None => None,
        }
    } else if str_eq(t, "thinking") {
        match nonblank_member(b, "thinking") {
            Some(x) => Some(Event::Thinking(x)),
            None => None,
        }
    } else if str_eq(t, "tool_use") {
        let name = match b.get("name") {
            Some(x) => match x.as_str() {
                Some(n) => owned(n),
                None => owned("tool"),
            },
            None => owned("tool"),
        };
        let (headline, raw) = match b.get("input") {
            Some(input) => (headline_for(input), pretty(input)),
            None => {
                let null = Json::Null;
                (headline_for(&null), pretty(&null))
            },
        };
        Some(Event::ToolUse { name, headline, raw })
    } else if str_eq(t, "tool_result") {
        let body = match b.get("content") {
            Some(c) => result_text(c),
            None => result_text(&Json::Null),
        };
        let is_error = match b.get("is_error") {
            Some(x) => match x.as_bool() {
                Some(e) => e,
                None => false,
            },
            None => false,
        };
        let marked = mark_newlines(body.as_str());
        let preview = truncate(marked.as_str(), 300);
        Some(Event::ToolResult { is_error, preview, raw: body })
    } else {
        None
    }
}

/// The events of a message's content.
pub fn blocks_of(content: &Json, assistant: bool) -> (r: Vec<Event>)
    ensures
        r@.map_values(|e: Event| e@) == blocks_of_s(*content, assistant),
{
    match content {
        Json::Str(s) => {
            let t = trim(s.as_str());
            let mut out: Vec<Event> = Vec::new();
            match user_text(t.as_str()) {
                Some(e) => {
                    out.push(e);
                },
                None => {},
            }
            assert(out@.map_values(|e: Event| e@) =~= blocks_of_s(*content, assistant));
            out
        },
        Json::Array(bs) => {
            let mut out: Vec<Event> = Vec::new();
            let mut i: usize = 0;
            while i < bs.len()
                invariant
                    i <= bs@.len(),
                    out@.map_values(|e: Event| e@) == block_events(
                        bs@.subrange(0, i as int),
                        assistant,
                    ),
                decreases bs@.len() - i,
            {
                assert(bs@.subrange(0, i + 1).drop_last() =~= bs@.subrange(0, i as int));
                let ghost before = out@.map_values(|e: Event| e@);
                match block_event_of(&bs[i], assistant) {
                    Some(e) => {
                        out.push(e);
                        assert(out@.map_values(|e: Event| e@) =~= before + opt_seq(
                            block_event(bs@[i as int], assistant),
                        ));
                    },
                    None => {
                        assert(out@.map_values(|e: Event| e@) =~= before + opt_seq(
                            block_event(bs@[i as int], assistant),
                        ));
                    },
                }
                i = i + 1;
            }
            assert(bs@.subrange(0, bs@.len() as int) =~= bs@);
            out
        },
        _ => {
            let out: Vec<Event> = Vec::new();
            assert(out@.map_values(|e: Event| e@) =~= blocks_of_s(*content, assistant));
            out
        },
    }
}

/// The events of one parsed record.
pub fn events_from(v: &Json) -> (r: Vec<Event>)
    ensures
        r@.map_values(|e: Event| e@) == events_from_s(*v),
{
    let t = member_or_empty(v, "type");
    if str_eq(t, "user") || str_eq(t, "assistant") {
        let assistant = !str_eq(t, "user");
        let content = match v.get("message") {
            Some(m) => match m.get("content") {
                Some(c) => c,
                None => &Json::Null,
            },
            None => &Json::Null,
        };
        blocks_of(content, assistant)
    } else {
        let out: Vec<Event> = Vec::new();
        assert(out@.map_values(|e: Event| e@) =~= events_from_s(*v));
        out
    }
}

impl Entry {
    /// A copy with the same contents.
    pub fn copy(&self) -> (r: Entry)
        ensures
            r@ == self@,
    {
        Entry { ts: self.ts, sidechain: self.sidechain, event: self.event.copy() }
    }
}

/// The entries one line of a transcript yields.
pub fn line_entries_of(line: &[u8], include_sidechains: bool) -> (r: Vec<Entry>)
    ensures
        entries_v(r@) == line_entries(line@, include_sidechains),
{
    reveal(line_entries);
    let none: Vec<Entry> = Vec::new();
    assert(entries_v(none@) =~= Seq::<EntryV>::empty());
    if line.len() == 0 {
        return none;
    }
    let v = match parse_json(line) {
        Some(v) => v,
        None => return none,
    };
    let side = match v.get("isSidechain") {
        Some(x) => match x.as_bool() {
            Some(b) => b,
            None => false,
        },
        None => false,
    };
    if side && !include_sidechains {
        return none;
    }
    let ts = match v.get("timestamp") {
        Some(x) => match x.as_str() {
            Some(t) => parse_ts(t),
            None => None,
        },
        None => None,
    };
    let ghost tsv: Option<int> = match ts {
        Some(t) => Some(t as int),
        None => None,
    };
    let evs = events_from(&v);
    let mut out: Vec<Entry> = Vec::new();
    let mut i: usize = 0;
    while i < evs.len()
        invariant
            i <= evs@.len(),
            out@.len() == i,
            tsv == (match ts {
                Some(t) => Some(t as int),
                None => None,
            }),
            forall|j: int|
                0 <= j < i ==> (#[trigger] out@[j])@ == (EntryV {
                    ts: tsv,
                    sidechain: side,
                    event: evs@[j]@,
                }),
        decreases evs@.len() - i,
    {
        let e = Entry { ts, sidechain: side, event: evs[i].copy() };
        assert(e@ == (EntryV { ts: tsv, sidechain: side, event: evs@[i as int]@ }));
        out.push(e);
        i = i + 1;
    }
    assert(evs@.map_values(|e: Event| e@) == events_from_s(v));
    assert(entries_v(out@) =~= line_entries(line@, include_sidechains)) by {
        assert forall|j: int| 0 <= j < out@.len() implies entries_v(out@)[j] == line_entries(
            line@,
            include_sidechains,
        )[j] by {
            assert(events_from_s(v)[j] == evs@[j]@);
        }
    }
    out
}

/// The entries of a transcript's bytes: at most `opts.max_entries`, with
/// `truncated` set when there were more. Lines that do not parse, records
/// that are not messages and (unless asked for) side conversations yield
/// none.
pub fn load(content: &[u8], opts: &LoadOpts) -> (r: Transcript)
    ensures
        r.truncated == (all_entries(lines_s(content@), opts.include_sidechains).len()
            > opts.max_entries),
        entries_v(r.entries@) == (if r.truncated {
            all_entries(lines_s(content@), opts.include_sidechains).take(opts.max_entries as int)
        } else {
            all_entries(lines_s(content@), opts.include_sidechains)
        }),
{
    let n = content.len();
    let max = opts.max_entries;
    let inc = opts.include_sidechains;
    let ghost c = content@;
    let ghost all = all_entries(lines_s(c), inc);
    let mut out: Vec<Entry> = Vec::new();
    let ghost mut done: Seq<Seq<u8>> = Seq::empty();
    let mut pos: usize = 0;
    assert(done + lines_from(c, 0) =~= lines_s(c));
    assert(entries_v(out@) =~= all_entries(done, inc));
    loop
        invariant_except_break
            pos <= n,
            done + lines_from(c, pos as int) == lines_s(c),
            entries_v(out@) == all_entries(done, inc),
            out@.len() <= max,
        invariant
            n == c.len(),
            c == content@,
            max == opts.max_entries,
            inc == opts.include_sidechains,
            all == all_entries(lines_s(c), inc),
        ensures
            entries_v(out@) == all,
            all.len() <= max,
        decreases n + 1 - pos,
    {
        let (end, last) = line_end(content, pos);
        let line = &content[pos..end];
        assert(line@ =~= c.subrange(pos as int, end as int));
        let ghost next = done.push(line@);
        let ghost k: int = done.len() as int + 1;
        proof {
            assert(next =~= lines_s(c).take(k));
            lemma_entries_split(lines_s(c), k, inc);
            assert(next.drop_last() =~= done);
            assert(next.last() == line@);
        }
        let es = line_entries_of(line, inc);
        let mut j: usize = 0;
        while j < es.len()
            invariant
                j <= es@.len(),
                entries_v(out@) == all_entries(done, inc) + entries_v(es@).take(j as int),
                out@.len() <= max,
                max == opts.max_entries,
                all == all_entries(next, inc) + all_entries(lines_s(c).skip(k), inc),
                all_entries(next, inc) == all_entries(done, inc) + entries_v(es@),
                all == all_entries(lines_s(c), inc),
                c == content@,
                inc == opts.include_sidechains,
            decreases es@.len() - j,
        {
            if out.len() >= max {
                proof {
                    assert(entries_v(out@).len() == max);
                    assert(all_entries(next, inc).len() > max);
                    assert(all.len() > max);
                    assert(entries_v(out@) =~= all.take(max as int));
                }
                return Transcript { entries: out, truncated: true };
            }
            let e = es[j].copy();
            let ghost before = entries_v(out@);
            out.push(e);
            assert(entries_v(out@) =~= before.push(es@[j as int]@));
            assert(entries_v(es@).take(j + 1) =~= entries_v(es@).take(j as int).push(
                es@[j as int]@,
            ));
            j = j + 1;
        }
        assert(entries_v(es@).take(es@.len() as int) =~= entries_v(es@));
        proof {
            done = next;
        }
        if last {
            assert(lines_s(c).skip(k) =~= Seq::<Seq<u8>>::empty());
            assert(all =~= all_entries(done, inc));
            break;
        }
        assert(done + lines_from(c, end + 1) =~= lines_s(c));
        pos = end + 1;
    }
    Transcript { entries: out, truncated: false }
}

/// Side conversations are opt-in: without asking for them, no entry comes
/// from one.
pub proof fn sidechains_are_opt_in(ls: Seq<Seq<u8>>)
    ensures
        forall|i: int| 0 <= i < all_entries(ls, false).len() ==> !(#[trigger] all_entries(ls, false)[i]).sidechain,
    decreases ls.len(),
{
    if ls.len() > 0 {
        sidechains_are_opt_in(ls.drop_last());
        let prev = all_entries(ls.drop_last(), false);
        let line = line_entries(ls.last(), false);
        assert forall|k: int| 0 <= k < line.len() implies !line[k].sidechain by {
            reveal(line_entries);
        }
        assert forall|i: int| 0 <= i < all_entries(ls, false).len() implies !(#[trigger] all_entries(
            ls,
            false,
        )[i]).sidechain by {
            if i < prev.len() {
                assert(all_entries(ls, false)[i] == prev[i]);
            } else {
                assert(all_entries(ls, false)[i] == line[i - prev.len()]);
            }
        }
    }
}

/// A tool call's headline comes from the first field, in the order
/// command, file_path, pattern, prompt, path, url, query, description, that
/// holds a non-blank string: when the fields ranked before `keys[k]` hold
/// none, and `keys[k]` holds `s`, the headline is `s` trimmed, on one line
/// and cut to 160 characters.
pub proof fn headline_takes_the_first_telling_field(input: Json, keys: Seq<Seq<char>>, k: int, s: Seq<char>)
    requires
        keys == seq![
            "command"@,
            "file_path"@,
            "pattern"@,
            "prompt"@,
            "path"@,
            "url"@,
            "query"@,
            "description"@,
        ],
        0 <= k < 8,
        forall|i: int|
            0 <= i < k ==> match #[trigger] as_str_s(field(input, keys[i])) {
                Some(t) => trim_s(t).len() == 0,
                None => true,
            },
        as_str_s(field(input, keys[k])) == Some(s),
        trim_s(s).len() > 0,
    ensures
        headline_s(input) == truncate_s(newline_marked(trim_s(s)), 160),
{
    assert(salient_s() == keys);
    lemma_headline_skips(input, 0, k);
}

/// Fields that hold no non-blank string are passed over.
proof fn lemma_headline_skips(input: Json, j: int, k: int)
    requires
        0 <= j <= k <= 8,
        forall|i: int|
            j <= i < k ==> match #[trigger] as_str_s(field(input, salient_s()[i])) {
                Some(t) => trim_s(t).len() == 0,
                None => true,
            },
    ensures
        headline_from(input, j) == headline_from(input, k),
    decreases k - j,
{
    if j < k {
        lemma_headline_skips(input, j + 1, k);
        assert(match as_str_s(field(input, salient_s()[j])) {
            Some(t) => trim_s(t).len() == 0,
            None => true,
        });
    }
}

/// A tool call none of whose telling fields (command, file_path, pattern,
/// prompt, path, url, query, description) holds a non-blank string is
/// headlined by its whole input as compact JSON, cut to 160 characters.
pub proof fn headline_falls_back_to_the_input(input: Json, keys: Seq<Seq<char>>)
    requires
        keys == seq![
            "command"@,
            "file_path"@,
            "pattern"@,
            "prompt"@,
            "path"@,
            "url"@,
            "query"@,
            "description"@,
        ],
        forall|i: int|
            0 <= i < 8 ==> match #[trigger] as_str_s(field(input, keys[i])) {
                Some(t) => trim_s(t).len() == 0,
                None => true,
            },
    ensures
        headline_s(input) == truncate_s(json_compact(input), 160),
{
    assert(salient_s() == keys);
    lemma_headline_skips(input, 0, 8);
}

} // verus!
