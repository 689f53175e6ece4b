//! What the terminal browser writes on screen, as text with a tone per
//! piece; the colours a tone stands for are the drawing code's business.

use vstd::prelude::*;
use crate::bytes::{human_bytes, human_bytes_s};
use crate::del::{plans_bytes, plans_files, plans_live, summarize, DeletePlan};
use crate::index::{SessionMeta, Sort};
use crate::num::{dec_s, dec_u64};
use crate::text::{chars_of, concat, owned, push_str, short_id, short_id_s, string_of_range,
    truncate, truncate_s};
use crate::transcript::{Entry, EntryV, Event, EventV};

verus! {

/// How a piece of text is shown.
#[derive(Debug, Clone, Copy, PartialEq, Eq, Structural)]
pub enum Tone {
    Plain,
    Bold,
    Dim,
    UserHead,
    AssistantHead,
    Thinking,
    ToolName,
    Failure,
    Warning,
    Mark,
}

/// A piece of a line, with its tone.
#[derive(Debug, Clone)]
pub struct Piece {
    pub text: String,
    pub tone: Tone,
}

/// A piece as plain values.
pub open spec fn piece_v(p: Piece) -> (Seq<char>, Tone) {
    (p.text@, p.tone)
}

/// A line as plain values.
pub open spec fn line_v(l: Vec<Piece>) -> Seq<(Seq<char>, Tone)> {
    l@.map_values(|p: Piece| piece_v(p))
}

/// Lines as plain values.
pub open spec fn lines_v(ls: Seq<Vec<Piece>>) -> Seq<Seq<(Seq<char>, Tone)>> {
    ls.map_values(|l: Vec<Piece>| line_v(l))
}

/// The pieces `s` splits into at each line feed (`str::split('\n')`).
pub open spec fn split_lines_from(s: Seq<char>, pos: int) -> Seq<Seq<char>>
    decreases s.len() + 1 - pos,
{
    if pos < 0 || pos > s.len() {
        Seq::empty()
    } else {
        match crate::text::find_from(s, seq!['\n'], pos) {
            Some(i) => if pos <= i < s.len() {
                seq![s.subrange(pos, i)] + split_lines_from(s, i + 1)
            } else {
                Seq::empty()
            },
            None => seq![s.subrange(pos, s.len() as int)],
        }
    }
}

/// One single-piece line per line of `text`, each in `tone`: a `\n` inside
/// one screen line would count as one scroll step however many rows it
/// takes.
pub open spec fn text_lines_s(text: Seq<char>, tone: Tone) -> Seq<Seq<(Seq<char>, Tone)>> {
    split_lines_from(text, 0).map_values(|l: Seq<char>| seq![(l, tone)])
}

/// A line of one piece.
fn one(text: String, tone: Tone) -> (r: Vec<Piece>)
    ensures
        line_v(r) == seq![(text@, tone)],
{
    let mut v: Vec<Piece> = Vec::new();
    v.push(Piece { text, tone });
    assert(line_v(v) =~= seq![(text@, tone)]);
    v
}

/// One line per line of `text`, in `tone`.
pub fn text_lines(text: &str, tone: Tone) -> (r: Vec<Vec<Piece>>)
    ensures
        lines_v(r@) == text_lines_s(text@, tone),
{
    let v = chars_of(text);
    let nl: Vec<char> = vec!['\n'];
    assert(nl@ =~= seq!['\n']);
    let mut out: Vec<Vec<Piece>> = Vec::new();
    let mut pos: usize = 0;
    loop
        invariant
            pos <= v@.len(),
            v@ == text@,
            nl@ == seq!['\n'],
            lines_v(out@) + split_lines_from(v@, pos as int).map_values(
                |l: Seq<char>| seq![(l, tone)],
            ) == text_lines_s(text@, tone),
        decreases v@.len() + 1 - pos,
    {
        let ghost rest = split_lines_from(v@, pos as int);
        match crate::text::find_chars(&v, &nl, pos) {
            Some(i) => {
                let piece = string_of_range(&v, pos, i);
                let ghost pv = piece@;
                let ghost before = lines_v(out@);
                out.push(one(piece, tone));
                assert(rest =~= seq![v@.subrange(pos as int, i as int)] + split_lines_from(
                    v@,
                    i + 1,
                ));
                assert(lines_v(out@) =~= before.push(seq![(pv, tone)]));
                assert(rest.map_values(|l: Seq<char>| seq![(l, tone)]) =~= seq![seq![(pv, tone)]]
                    + split_lines_from(v@, i + 1).map_values(|l: Seq<char>| seq![(l, tone)]));
                pos = i + 1;
            },
            None => {
                let piece = string_of_range(&v, pos, v.len());
                let ghost pv = piece@;
                let ghost before = lines_v(out@);
                out.push(one(piece, tone));
                assert(rest =~= seq![v@.subrange(pos as int, v@.len() as int)]);
                assert(lines_v(out@) =~= before.push(seq![(pv, tone)]));
                assert(rest.map_values(|l: Seq<char>| seq![(l, tone)]) =~= seq![seq![(pv, tone)]]);
                return out;
            },
        }
    }
}

/// The preview lines of one transcript entry: a head line, the text line by
/// line and a blank for prompts and replies; thinking cut to 400 characters;
/// a tool call on one line; a tool result cut to 200 characters.
pub open spec fn entry_lines_s(e: EntryV) -> Seq<Seq<(Seq<char>, Tone)>> {
    let blank: Seq<(Seq<char>, Tone)> = seq![(Seq::empty(), Tone::Plain)];
    match e.event {
        EventV::User(t) => seq![seq![("\u{258c} user"@, Tone::UserHead)]] + text_lines_s(t, Tone::Plain)
            + seq![blank],
        EventV::Assistant(t) => seq![seq![("\u{258c} assistant"@, Tone::AssistantHead)]]
            + text_lines_s(t, Tone::Plain) + seq![blank],
        EventV::Thinking(t) => text_lines_s("~ "@ + truncate_s(t, 400), Tone::Thinking) + seq![blank],
        EventV::ToolUse { name, headline, .. } => seq![
            seq![("\u{25b8} "@ + name + ": "@, Tone::ToolName), (headline, Tone::Dim)],
        ],
        EventV::ToolResult { is_error, preview, .. } => text_lines_s(
            "  \u{21b3} "@ + truncate_s(preview, 200),
            if is_error {
                Tone::Failure
            } else {
                Tone::Dim
            },
        ),
    }
}

/// The preview lines of one transcript entry.
pub fn entry_lines(e: &Entry) -> (r: Vec<Vec<Piece>>)
    ensures
        lines_v(r@) == entry_lines_s(e@),
{
    let ghost blank: Seq<(Seq<char>, Tone)> = seq![(Seq::empty(), Tone::Plain)];
    match &e.event {
        Event::User(t) => {
            let mut out: Vec<Vec<Piece>> = Vec::new();
            out.push(one(owned("\u{258c} user"), Tone::UserHead));
            let body = text_lines(t.as_str(), Tone::Plain);
            let ghost head = lines_v(out@);
            let mut body = body;
            out.append(&mut body);
            out.push(one(String::new(), Tone::Plain));
            assert(lines_v(out@) =~= entry_lines_s(e@));
            out
        },
        Event::Assistant(t) => {
            let mut out: Vec<Vec<Piece>> = Vec::new();
            out.push(one(owned("\u{258c} assistant"), Tone::AssistantHead));
            let mut body = text_lines(t.as_str(), Tone::Plain);
            out.append(&mut body);
            out.push(one(String::new(), Tone::Plain));
            assert(lines_v(out@) =~= entry_lines_s(e@));
            out
        },
        Event::Thinking(t) => {
            let text = concat("~ ", truncate(t.as_str(), 400).as_str());
            let mut out = text_lines(text.as_str(), Tone::Thinking);
            out.push(one(String::new(), Tone::Plain));
            assert(lines_v(out@) =~= entry_lines_s(e@));
            out
        },
        Event::ToolUse { name, headline, .. } => {
            let mut head = owned("\u{25b8} ");
            push_str(&mut head, name.as_str());
            push_str(&mut head, ": ");
            let ghost hv = head@;
            let mut line: Vec<Piece> = Vec::new();
            line.push(Piece { text: head, tone: Tone::ToolName });
            line.push(Piece { text: headline.clone(), tone: Tone::Dim });
            assert(line_v(line) =~= seq![(hv, Tone::ToolName), (headline@, Tone::Dim)]);
            let mut out: Vec<Vec<Piece>> = Vec::new();
            out.push(line);
            assert(lines_v(out@) =~= entry_lines_s(e@));
            out
        },
        Event::ToolResult { is_error, preview, .. } => {
            let text = concat("  \u{21b3} ", truncate(preview.as_str(), 200).as_str());
            text_lines(
                text.as_str(),
                if *is_error {
                    Tone::Failure
                } else {
                    Tone::Dim
                },
            )
        },
    }
}

/// The marked sessions' total size, as the status bar adds it up.
pub open spec fn marked_bytes(sessions: Seq<SessionMeta>, marked: Seq<String>) -> nat
    decreases sessions.len(),
{
    if sessions.len() == 0 {
        0
    } else {
        marked_bytes(sessions.drop_last(), marked) + if crate::index::is_marked(
            sessions.last(),
            marked,
        ) {
            sessions.last().size_bytes as nat
        } else {
            0
        }
    }
}

/// The left of the status bar: how many sessions are marked and their size.
pub open spec fn marks_line_s(count: nat, bytes: nat) -> Seq<char> {
    if count == 0 {
        "nothing marked"@
    } else {
        dec_s(count) + " marked \u{b7} "@ + human_bytes_s(bytes)
    }
}

/// The left of the status bar.
pub fn marks_line(count: usize, bytes: u64) -> (r: String)
    ensures
        r@ == marks_line_s(count as nat, bytes as nat),
{
    if count == 0 {
        return owned("nothing marked");
    }
    let mut r = dec_u64(count as u64);
    push_str(&mut r, " marked \u{b7} ");
    push_str(&mut r, human_bytes(bytes).as_str());
    r
}

/// The title of the session pane: how many are shown, the ordering, and the
/// filter when there is one.
pub open spec fn sessions_title_s(count: nat, sort: Sort, filter: Seq<char>) -> Seq<char> {
    "Sessions ("@ + dec_s(count) + ") \u{b7} sort:"@ + match sort {
        Sort::Date => "date"@,
        Sort::Size => "size"@,
        Sort::Msgs => "msgs"@,
    } + if filter.len() == 0 {
        Seq::empty()
    } else {
        " \u{b7} /"@ + filter
    }
}

/// The title of the session pane.
pub fn sessions_title(count: usize, sort: Sort, filter: &str) -> (r: String)
    ensures
        r@ == sessions_title_s(count as nat, sort, filter@),
{
    let mut r = owned("Sessions (");
    push_str(&mut r, dec_u64(count as u64).as_str());
    push_str(&mut r, ") \u{b7} sort:");
    push_str(&mut r, sort.label());
    if !filter.is_empty() {
        push_str(&mut r, " \u{b7} /");
        push_str(&mut r, filter);
    }
    r
}

/// The second line of a session row: a liveness flag up front (the part a
/// narrow pane must not cut), then `when` (on the reader's clock), messages
/// and size.
pub open spec fn session_meta_s(m: SessionMeta, live: bool, when: Seq<char>) -> Seq<char> {
    (if live {
        "  ACTIVE? "@
    } else {
        "  "@
    }) + when + "  "@ + dec_s((m.user_msgs + m.assistant_msgs) as nat) + " msgs  "@ + human_bytes_s(
        m.size_bytes as nat,
    )
}

/// The second line of a session row.
pub fn session_meta(m: &SessionMeta, live: bool, when: &str) -> (r: String)
    ensures
        r@ == session_meta_s(*m, live, when@),
{
    let mut r = if live {
        owned("  ACTIVE? ")
    } else {
        owned("  ")
    };
    push_str(&mut r, when);
    push_str(&mut r, "  ");
    push_str(&mut r, dec_u64(m.user_msgs as u64 + m.assistant_msgs as u64).as_str());
    push_str(&mut r, " msgs  ");
    push_str(&mut r, human_bytes(m.size_bytes).as_str());
    r
}

/// The first line of a session row: its mark box and title, cut to `width`.
pub open spec fn session_title_line_s(m: SessionMeta, marked: bool, width: nat) -> Seq<(Seq<char>, Tone)> {
    seq![
        (if marked {
            "[x] "@
        } else {
            "[ ] "@
        }, Tone::Mark),
        (truncate_s(m.title@, if width >= 4 {
            (width - 4) as nat
        } else {
            0
        }), Tone::Plain),
    ]
}

/// The first line of a session row.
pub fn session_title_line(m: &SessionMeta, marked: bool, width: usize) -> (r: Vec<Piece>)
    ensures
        line_v(r) == session_title_line_s(*m, marked, width as nat),
{
    let mut line: Vec<Piece> = Vec::new();
    line.push(
        Piece {
            text: if marked {
                owned("[x] ")
            } else {
                owned("[ ] ")
            },
            tone: Tone::Mark,
        },
    );
    let w = if width >= 4 {
        width - 4
    } else {
        0
    };
    line.push(Piece { text: truncate(m.title.as_str(), w), tone: Tone::Plain });
    assert(line_v(line) =~= session_title_line_s(*m, marked, width as nat));
    line
}

/// The second line of a project row: how many sessions and their size.
pub open spec fn project_meta_s(count: nat, bytes: nat) -> Seq<char> {
    "  "@ + dec_s(count) + " sessions \u{b7} "@ + human_bytes_s(bytes)
}

/// The second line of a project row.
pub fn project_meta(count: usize, bytes: u64) -> (r: String)
    ensures
        r@ == project_meta_s(count as nat, bytes as nat),
{
    let mut r = owned("  ");
    push_str(&mut r, dec_u64(count as u64).as_str());
    push_str(&mut r, " sessions \u{b7} ");
    push_str(&mut r, human_bytes(bytes).as_str());
    r
}

/// How many of `plans` the list on screen does not show.
pub open spec fn off_view(plans: Seq<DeletePlan>, visible: Seq<SessionMeta>) -> nat
    decreases plans.len(),
{
    if plans.len() == 0 {
        0
    } else {
        off_view(plans.drop_last(), visible) + if exists|i: int|
            0 <= i < visible.len() && #[trigger] visible[i].id@ == plans.last().id@ {
            0
        } else {
            1nat
        }
    }
}

/// The confirm dialog: what goes and how much, how many of those the list
/// does not show (marks are global), how many look live, up to eight of them
/// by short id and title, and the keys.
pub open spec fn confirm_lines_s(plans: Seq<DeletePlan>, visible: Seq<SessionMeta>) -> Seq<
    (Seq<char>, Tone),
> {
    let off = off_view(plans, visible);
    let live = plans_live(plans);
    seq![
        (
            "Move "@ + dec_s(plans.len()) + " session(s) \u{2014} "@ + dec_s(plans_files(plans))
                + " paths, "@ + human_bytes_s(plans_bytes(plans)) + " \u{2014} to the recycle bin?"@,
            Tone::Bold,
        ),
        (Seq::empty(), Tone::Plain),
    ] + (if off > 0 {
        seq![
            (dec_s(off) + " of these are outside the current view"@, Tone::Warning),
            (Seq::empty(), Tone::Plain),
        ]
    } else {
        Seq::empty()
    }) + (if live > 0 {
        seq![
            ("WARNING: "@ + dec_s(live) + " of these were active in the last 5 minutes"@, Tone::Warning),
            (Seq::empty(), Tone::Plain),
        ]
    } else {
        Seq::empty()
    }) + plans.take(if plans.len() < 8 {
        plans.len() as int
    } else {
        8
    }).map_values(
        |p: DeletePlan| ("  "@ + short_id_s(p.id@) + "  "@ + truncate_s(p.title@, 50), Tone::Plain),
    ) + (if plans.len() > 8 {
        seq![("  \u{2026} and "@ + dec_s((plans.len() - 8) as nat) + " more"@, Tone::Plain)]
    } else {
        Seq::empty()
    }) + seq![(Seq::empty(), Tone::Plain), ("y confirm \u{b7} any other key cancel"@, Tone::Dim)]
}

/// A plan is among the sessions the list shows.
fn shown(p: &DeletePlan, visible: &Vec<SessionMeta>) -> (r: bool)
    ensures
        r == exists|i: int| 0 <= i < visible@.len() && #[trigger] visible@[i].id@ == p.id@,
{
    let mut i: usize = 0;
    while i < visible.len()
        invariant
            i <= visible@.len(),
            forall|j: int| 0 <= j < i ==> visible@[j].id@ != p.id@,
        decreases visible@.len() - i,
    {
        if visible[i].id == p.id {
            return true;
        }
        i = i + 1;
    }
    false
}

/// A line of the dialog.
fn dialog_line(text: String, tone: Tone) -> (r: Piece)
    ensures
        piece_v(r) == (text@, tone),
{
    Piece { text, tone }
}

/// The lines of the confirm dialog, one piece each.
pub fn confirm_lines(plans: &Vec<DeletePlan>, visible: &Vec<SessionMeta>) -> (r: Vec<Piece>)
    requires
        plans_bytes(plans@) <= u64::MAX,
        plans_files(plans@) <= usize::MAX,
    ensures
        line_v(r) == confirm_lines_s(plans@, visible@),
{
    let sum = summarize(plans.as_slice());
    let mut off: usize = 0;
    let mut i: usize = 0;
    while i < plans.len()
        invariant
            i <= plans@.len(),
            off == off_view(plans@.take(i as int), visible@),
            off <= i,
        decreases plans@.len() - i,
    {
        assert(plans@.take(i + 1).drop_last() =~= plans@.take(i as int));
        if !shown(&plans[i], visible) {
            off = off + 1;
        }
        i = i + 1;
    }
    assert(plans@.take(plans@.len() as int) =~= plans@);
    let mut out: Vec<Piece> = Vec::new();
    let mut head = owned("Move ");
    push_str(&mut head, dec_u64(plans.len() as u64).as_str());
    push_str(&mut head, " session(s) \u{2014} ");
    push_str(&mut head, dec_u64(sum.files as u64).as_str());
    push_str(&mut head, " paths, ");
    push_str(&mut head, human_bytes(sum.bytes).as_str());
    push_str(&mut head, " \u{2014} to the recycle bin?");
    out.push(dialog_line(head, Tone::Bold));
    out.push(dialog_line(String::new(), Tone::Plain));
    let ghost off_v = off_view(plans@, visible@);
    let ghost live_v = plans_live(plans@);
    let ghost part1: Seq<(Seq<char>, Tone)> = seq![
        (
            "Move "@ + dec_s(plans@.len()) + " session(s) \u{2014} "@ + dec_s(plans_files(plans@))
                + " paths, "@ + human_bytes_s(plans_bytes(plans@)) + " \u{2014} to the recycle bin?"@,
            Tone::Bold,
        ),
        (Seq::empty(), Tone::Plain),
    ];
    let ghost part2: Seq<(Seq<char>, Tone)> = if off_v > 0 {
        seq![
            (dec_s(off_v) + " of these are outside the current view"@, Tone::Warning),
            (Seq::empty(), Tone::Plain),
        ]
    } else {
        Seq::empty()
    };
    let ghost part3: Seq<(Seq<char>, Tone)> = if live_v > 0 {
        seq![
            ("WARNING: "@ + dec_s(live_v) + " of these were active in the last 5 minutes"@, Tone::Warning),
            (Seq::empty(), Tone::Plain),
        ]
    } else {
        Seq::empty()
    };
    assert(line_v(out) =~= part1);
    if off > 0 {
        let mut t = dec_u64(off as u64);
        push_str(&mut t, " of these are outside the current view");
        out.push(dialog_line(t, Tone::Warning));
        out.push(dialog_line(String::new(), Tone::Plain));
    }
    assert(line_v(out) =~= part1 + part2);
    if sum.live > 0 {
        let mut t = owned("WARNING: ");
        push_str(&mut t, dec_u64(sum.live as u64).as_str());
        push_str(&mut t, " of these were active in the last 5 minutes");
        out.push(dialog_line(t, Tone::Warning));
        out.push(dialog_line(String::new(), Tone::Plain));
    }
    assert(line_v(out) =~= part1 + part2 + part3);
    let ghost top = line_v(out);
    let shown_count = if plans.len() < 8 {
        plans.len()
    } else {
        8
    };
    let mut k: usize = 0;
    while k < shown_count
        invariant
            k <= shown_count <= plans@.len(),
            line_v(out) == top + plans@.take(k as int).map_values(
                |p: DeletePlan| ("  "@ + short_id_s(p.id@) + "  "@ + truncate_s(p.title@, 50), Tone::Plain),
            ),
        decreases shown_count - k,
    {
        let p = &plans[k];
        let mut t = owned("  ");
        push_str(&mut t, short_id(p.id.as_str()).as_str());
        push_str(&mut t, "  ");
        push_str(&mut t, truncate(p.title.as_str(), 50).as_str());
        let ghost before = line_v(out);
        let ghost tv = t@;
        out.push(dialog_line(t, Tone::Plain));
        assert(line_v(out) =~= before.push((tv, Tone::Plain)));
        assert(plans@.take(k + 1).map_values(
            |p: DeletePlan| ("  "@ + short_id_s(p.id@) + "  "@ + truncate_s(p.title@, 50), Tone::Plain),
        ) =~= plans@.take(k as int).map_values(
            |p: DeletePlan| ("  "@ + short_id_s(p.id@) + "  "@ + truncate_s(p.title@, 50), Tone::Plain),
        ).push((tv, Tone::Plain)));
        k = k + 1;
    }
    if plans.len() > 8 {
        let mut t = owned("  \u{2026} and ");
        push_str(&mut t, dec_u64((plans.len() - 8) as u64).as_str());
        push_str(&mut t, " more");
        out.push(dialog_line(t, Tone::Plain));
    }
    out.push(dialog_line(String::new(), Tone::Plain));
    out.push(dialog_line(owned("y confirm \u{b7} any other key cancel"), Tone::Dim));
    assert(line_v(out) =~= confirm_lines_s(plans@, visible@));
    out
}

} // verus!
