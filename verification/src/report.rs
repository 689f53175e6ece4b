//! The text the command line prints: session and project tables, a session
//! shown in full, and what a delete is about to do.

use vstd::prelude::*;
use crate::bytes::{human_bytes, human_bytes_s};
use crate::cli::{matches_project, matches_project_s};
use crate::del::{plans_bytes, DeletePlan};
use crate::index::{is_sorted_result, location_s, msgs_fit, opt_str, total_bytes, Index, Project,
    SessionMeta, Sort};
use crate::json::{json_pretty, pretty, Json};
use crate::num::{dec_s, dec_u64};
use crate::text::{chars_of, concat, owned, push_char, push_str, short_id, short_id_s, truncate,
    truncate_s};
use crate::transcript::{Entry, EntryV, EventV};

verus! {

/// `n` spaces.
pub open spec fn spaces(n: nat) -> Seq<char> {
    Seq::new(n, |i: int| ' ')
}

/// `s` padded with spaces on the right to at least `w` characters (`{:<w}`).
pub open spec fn pad_right_s(s: Seq<char>, w: nat) -> Seq<char> {
    if s.len() < w {
        s + spaces((w - s.len()) as nat)
    } else {
        s
    }
}

/// `s` padded with spaces on the left to at least `w` characters (`{:>w}`).
pub open spec fn pad_left_s(s: Seq<char>, w: nat) -> Seq<char> {
    if s.len() < w {
        spaces((w - s.len()) as nat) + s
    } else {
        s
    }
}

/// `n` spaces as a string.
fn spaces_str(n: usize) -> (r: String)
    ensures
        r@ == spaces(n as nat),
{
    let mut r = String::new();
    let mut i: usize = 0;
    while i < n
        invariant
            i <= n,
            r@ == spaces(i as nat),
        decreases n - i,
    {
        push_char(&mut r, ' ');
        assert(r@ =~= spaces((i + 1) as nat));
        i = i + 1;
    }
    r
}

/// `s` left-aligned in a field of `w` characters.
pub fn pad_right(s: &str, w: usize) -> (r: String)
    ensures
        r@ == pad_right_s(s@, w as nat),
{
    let n = chars_of(s).len();
    let mut r = owned(s);
    if n < w {
        let pad = spaces_str(w - n);
        push_str(&mut r, pad.as_str());
    }
    r
}

/// `s` right-aligned in a field of `w` characters.
pub fn pad_left(s: &str, w: usize) -> (r: String)
    ensures
        r@ == pad_left_s(s@, w as nat),
{
    let n = chars_of(s).len();
    if n < w {
        let mut r = spaces_str(w - n);
        push_str(&mut r, s);
        r
    } else {
        owned(s)
    }
}

/// A session's message count.
pub open spec fn msgs_of(m: SessionMeta) -> nat {
    (m.user_msgs + m.assistant_msgs) as nat
}

/// The header of the session table.
pub open spec fn list_header_s() -> Seq<char> {
    pad_right_s("ID"@, 8) + "  "@ + pad_right_s("LAST ACTIVITY"@, 16) + "  "@ + pad_left_s(
        "MSGS"@,
        6,
    ) + "  "@ + pad_left_s("SIZE"@, 9) + "  "@ + "TITLE"@
}

/// One row of the session table; `when` is its last activity as the reader's
/// clock shows it.
pub open spec fn list_row_s(m: SessionMeta, when: Seq<char>) -> Seq<char> {
    pad_right_s(short_id_s(m.id@), 8) + "  "@ + pad_right_s(when, 16) + "  "@ + pad_left_s(
        dec_s(msgs_of(m)),
        6,
    ) + "  "@ + pad_left_s(human_bytes_s(m.size_bytes as nat), 9) + "  "@ + truncate_s(m.title@, 70)
}

/// The line under the session table: how many and how large.
pub open spec fn list_footer_s(sessions: Seq<SessionMeta>) -> Seq<char> {
    "\n"@ + dec_s(sessions.len()) + " sessions, "@ + human_bytes_s(total_bytes(sessions))
}

/// The header of the session table.
pub fn list_header() -> (r: String)
    ensures
        r@ == list_header_s(),
{
    let mut r = pad_right("ID", 8);
    push_str(&mut r, "  ");
    push_str(&mut r, pad_right("LAST ACTIVITY", 16).as_str());
    push_str(&mut r, "  ");
    push_str(&mut r, pad_left("MSGS", 6).as_str());
    push_str(&mut r, "  ");
    push_str(&mut r, pad_left("SIZE", 9).as_str());
    push_str(&mut r, "  ");
    push_str(&mut r, "TITLE");
    r
}

/// One row of the session table.
pub fn list_row(m: &SessionMeta, when: &str) -> (r: String)
    ensures
        r@ == list_row_s(*m, when@),
{
    let msgs = m.user_msgs as u64 + m.assistant_msgs as u64;
    let mut r = pad_right(short_id(m.id.as_str()).as_str(), 8);
    push_str(&mut r, "  ");
    push_str(&mut r, pad_right(when, 16).as_str());
    push_str(&mut r, "  ");
    push_str(&mut r, pad_left(dec_u64(msgs).as_str(), 6).as_str());
    push_str(&mut r, "  ");
    push_str(&mut r, pad_left(human_bytes(m.size_bytes).as_str(), 9).as_str());
    push_str(&mut r, "  ");
    push_str(&mut r, truncate(m.title.as_str(), 70).as_str());
    r
}

/// The total size of a prefix of some sessions is at most that of all.
proof fn lemma_total_prefix(s: Seq<SessionMeta>, i: int)
    requires
        0 <= i <= s.len(),
    ensures
        total_bytes(s.take(i)) <= total_bytes(s),
    decreases s.len() - i,
{
    if i < s.len() {
        lemma_total_prefix(s, i + 1);
        assert(s.take(i + 1).drop_last() =~= s.take(i));
    } else {
        assert(s.take(i) =~= s);
    }
}

/// The line under the session table.
pub fn list_footer(sessions: &Vec<SessionMeta>) -> (r: String)
    requires
        total_bytes(sessions@) <= u64::MAX,
    ensures
        r@ == list_footer_s(sessions@),
{
    let mut total: u64 = 0;
    let mut i: usize = 0;
    while i < sessions.len()
        invariant
            i <= sessions@.len(),
            total_bytes(sessions@) <= u64::MAX,
            total == total_bytes(sessions@.take(i as int)),
        decreases sessions@.len() - i,
    {
        assert(sessions@.take(i + 1).drop_last() =~= sessions@.take(i as int));
        proof {
            lemma_total_prefix(sessions@, i + 1);
        }
        total = total + sessions[i].size_bytes;
        i = i + 1;
    }
    assert(sessions@.take(sessions@.len() as int) =~= sessions@);
    let mut r = owned("\n");
    push_str(&mut r, dec_u64(sessions.len() as u64).as_str());
    push_str(&mut r, " sessions, ");
    push_str(&mut r, human_bytes(total).as_str());
    r
}

/// The sessions of `project`, in index order.
pub open spec fn project_sessions(sessions: Seq<SessionMeta>, project: Option<Seq<char>>) -> Seq<
    SessionMeta,
> {
    sessions.filter(|m: SessionMeta| matches_project_s(m, project))
}

/// The sessions `list` shows: those of `project`, in `sort` order.
pub fn list_sessions(index: &Index, project: Option<&str>, sort: Sort) -> (r: Vec<SessionMeta>)
    requires
        sort == Sort::Msgs ==> msgs_fit(index.sessions@),
    ensures
        is_sorted_result(sort, project_sessions(index.sessions@, opt_str(project)), r@),
{
    let ghost pv: Option<Seq<char>> = opt_str(project);
    let ghost pred = |m: SessionMeta| matches_project_s(m, pv);
    let mut list: Vec<SessionMeta> = Vec::new();
    let mut i: usize = 0;
    while i < index.sessions.len()
        invariant
            i <= index.sessions@.len(),
            pv == opt_str(project),
            pred == |m: SessionMeta| matches_project_s(m, pv),
            list@ == index.sessions@.subrange(0, i as int).filter(pred),
        decreases index.sessions@.len() - i,
    {
        assert(index.sessions@.subrange(0, i + 1).drop_last() =~= index.sessions@.subrange(
            0,
            i as int,
        ));
        reveal(Seq::filter);
        if matches_project(&index.sessions[i], project) {
            list.push(index.sessions[i].copy());
        }
        i = i + 1;
    }
    assert(index.sessions@.subrange(0, index.sessions@.len() as int) =~= index.sessions@);
    proof {
        if sort == Sort::Msgs {
            crate::index::lemma_filter_msgs_fit(index.sessions@, pred);
        }
    }
    sort.apply(&mut list);
    list
}

/// The header of the project table.
pub open spec fn projects_header_s() -> Seq<char> {
    pad_right_s("SESS"@, 6) + "  "@ + pad_left_s("SIZE"@, 9) + "  "@ + pad_right_s("SLUG"@, 40)
        + "  "@ + "LOCATION"@
}

/// One row of the project table.
pub open spec fn project_row_s(p: Project) -> Seq<char> {
    pad_right_s(dec_s(p.count as nat), 6) + "  "@ + pad_left_s(human_bytes_s(p.bytes as nat), 9)
        + "  "@ + pad_right_s(truncate_s(p.slug@, 40), 40) + "  "@ + p.label@
}

/// The header of the project table.
pub fn projects_header() -> (r: String)
    ensures
        r@ == projects_header_s(),
{
    let mut r = pad_right("SESS", 6);
    push_str(&mut r, "  ");
    push_str(&mut r, pad_left("SIZE", 9).as_str());
    push_str(&mut r, "  ");
    push_str(&mut r, pad_right("SLUG", 40).as_str());
    push_str(&mut r, "  ");
    push_str(&mut r, "LOCATION");
    r
}

/// One row of the project table.
pub fn project_row(p: &Project) -> (r: String)
    ensures
        r@ == project_row_s(*p),
{
    let mut r = pad_right(dec_u64(p.count as u64).as_str(), 6);
    push_str(&mut r, "  ");
    push_str(&mut r, pad_left(human_bytes(p.bytes).as_str(), 9).as_str());
    push_str(&mut r, "  ");
    push_str(&mut r, pad_right(truncate(p.slug.as_str(), 40).as_str(), 40).as_str());
    push_str(&mut r, "  ");
    push_str(&mut r, p.label.as_str());
    r
}

/// The lines that open `show`: title, id, location, branch (when known),
/// last activity (`when`, on the reader's clock) and volume, then a blank.
pub open spec fn show_header_s(m: SessionMeta, when: Seq<char>) -> Seq<Seq<char>> {
    seq!["# "@ + m.title@, "  id       "@ + m.id@, "  cwd      "@ + location_s(m)] + match m.git_branch {
        Some(b) => seq!["  branch   "@ + b@],
        None => Seq::empty(),
    } + seq![
        "  activity "@ + when,
        "  volume   "@ + dec_s(msgs_of(m)) + " messages, "@ + dec_s(m.tool_calls as nat)
            + " tool calls, "@ + human_bytes_s(m.size_bytes as nat),
        Seq::empty(),
    ]
}

/// The lines that open `show`.
pub fn show_header(m: &SessionMeta, when: &str) -> (r: Vec<String>)
    ensures
        r@.map_values(|s: String| s@) == show_header_s(*m, when@),
{
    let mut r: Vec<String> = Vec::new();
    r.push(concat("# ", m.title.as_str()));
    r.push(concat("  id       ", m.id.as_str()));
    r.push(concat("  cwd      ", m.location().as_str()));
    match &m.git_branch {
        Some(b) => r.push(concat("  branch   ", b.as_str())),
        None => {},
    }
    r.push(concat("  activity ", when));
    let msgs = m.user_msgs as u64 + m.assistant_msgs as u64;
    let mut v = owned("  volume   ");
    push_str(&mut v, dec_u64(msgs).as_str());
    push_str(&mut v, " messages, ");
    push_str(&mut v, dec_u64(m.tool_calls as u64).as_str());
    push_str(&mut v, " tool calls, ");
    push_str(&mut v, human_bytes(m.size_bytes).as_str());
    r.push(v);
    r.push(String::new());
    assert(r@.map_values(|s: String| s@) =~= show_header_s(*m, when@));
    r
}

/// How `show` prints one entry: `|` marks a side conversation; prompts and
/// replies are followed by a blank line.
pub open spec fn show_entry_s(e: EntryV) -> Seq<char> {
    let marker = if e.sidechain {
        "|"@
    } else {
        " "@
    };
    match e.event {
        EventV::User(t) => marker + "> "@ + t + "\n"@,
        EventV::Assistant(t) => marker + "  "@ + t + "\n"@,
        EventV::Thinking(t) => marker + "  ~ "@ + truncate_s(t, 300) + "\n"@,
        EventV::ToolUse { name, headline, .. } => marker + "  * "@ + name + ": "@ + headline,
        EventV::ToolResult { is_error, preview, .. } => marker + "  "@ + (if is_error {
            "!"@
        } else {
            "="@
        }) + " "@ + truncate_s(preview, 160),
    }
}

/// How `show` prints one entry.
pub fn show_entry(e: &Entry) -> (r: String)
    ensures
        r@ == show_entry_s(e@),
{
    let mut r = if e.sidechain {
        owned("|")
    } else {
        owned(" ")
    };
    match &e.event {
        crate::transcript::Event::User(t) => {
            push_str(&mut r, "> ");
            push_str(&mut r, t.as_str());
            push_str(&mut r, "\n");
        },
        crate::transcript::Event::Assistant(t) => {
            push_str(&mut r, "  ");
            push_str(&mut r, t.as_str());
            push_str(&mut r, "\n");
        },
        crate::transcript::Event::Thinking(t) => {
            push_str(&mut r, "  ~ ");
            push_str(&mut r, truncate(t.as_str(), 300).as_str());
            push_str(&mut r, "\n");
        },
        crate::transcript::Event::ToolUse { name, headline, .. } => {
            push_str(&mut r, "  * ");
            push_str(&mut r, name.as_str());
            push_str(&mut r, ": ");
            push_str(&mut r, headline.as_str());
        },
        crate::transcript::Event::ToolResult { is_error, preview, .. } => {
            push_str(&mut r, "  ");
            push_str(
                &mut r,
                if *is_error {
                    "!"
                } else {
                    "="
                },
            );
            push_str(&mut r, " ");
            push_str(&mut r, truncate(preview.as_str(), 160).as_str());
        },
    }
    r
}

/// The lines that list one plan: its short id and title (flagged when it
/// looks live), then each path it holds, indented.
pub open spec fn plan_lines_s(p: DeletePlan) -> Seq<Seq<char>> {
    seq![
        short_id_s(p.id@) + " "@ + p.title@ + if p.recent {
            "  [ACTIVE?]"@
        } else {
            Seq::empty()
        },
    ] + p.paths@.map_values(|q: String| "    "@ + q@)
}

/// The lines that list one plan.
pub fn plan_lines(p: &DeletePlan) -> (r: Vec<String>)
    ensures
        r@.map_values(|s: String| s@) == plan_lines_s(*p),
{
    let mut head = short_id(p.id.as_str());
    push_str(&mut head, " ");
    push_str(&mut head, p.title.as_str());
    if p.recent {
        push_str(&mut head, "  [ACTIVE?]");
    }
    let mut r: Vec<String> = Vec::new();
    r.push(head);
    let ghost first = r@.map_values(|s: String| s@);
    let mut i: usize = 0;
    while i < p.paths.len()
        invariant
            i <= p.paths@.len(),
            r@.map_values(|s: String| s@) == first + p.paths@.subrange(0, i as int).map_values(
                |q: String| "    "@ + q@,
            ),
        decreases p.paths@.len() - i,
    {
        let ghost before = r@.map_values(|s: String| s@);
        let line = concat("    ", p.paths[i].as_str());
        r.push(line);
        assert(p.paths@.subrange(0, i + 1).map_values(|q: String| "    "@ + q@) =~= p.paths@.subrange(
            0,
            i as int,
        ).map_values(|q: String| "    "@ + q@).push("    "@ + p.paths@[i as int]@));
        assert(r@.map_values(|s: String| s@) =~= before.push("    "@ + p.paths@[i as int]@));
        i = i + 1;
    }
    assert(p.paths@.subrange(0, p.paths@.len() as int) =~= p.paths@);
    assert(first =~= seq![plan_lines_s(*p)[0]]);
    assert(r@.map_values(|s: String| s@) =~= plan_lines_s(*p));
    r
}

/// The line under a plan listing: how many sessions and how much goes.
pub open spec fn plans_footer_s(plans: Seq<DeletePlan>) -> Seq<char> {
    "\n"@ + dec_s(plans.len()) + " session(s), "@ + human_bytes_s(plans_bytes(plans))
        + " to the recycle bin"@
}

/// The line under a plan listing.
pub fn plans_footer(plans: &Vec<DeletePlan>) -> (r: String)
    requires
        plans_bytes(plans@) <= u64::MAX,
    ensures
        r@ == plans_footer_s(plans@),
{
    let mut total: u64 = 0;
    let mut i: usize = 0;
    while i < plans.len()
        invariant
            i <= plans@.len(),
            plans_bytes(plans@) <= u64::MAX,
            total == plans_bytes(plans@.take(i as int)),
        decreases plans@.len() - i,
    {
        assert(plans@.take(i + 1).drop_last() =~= plans@.take(i as int));
        proof {
            lemma_plans_total_prefix(plans@, i + 1);
        }
        total = total + plans[i].bytes;
        i = i + 1;
    }
    assert(plans@.take(plans@.len() as int) =~= plans@);
    let mut r = owned("\n");
    push_str(&mut r, dec_u64(plans.len() as u64).as_str());
    push_str(&mut r, " session(s), ");
    push_str(&mut r, human_bytes(total).as_str());
    push_str(&mut r, " to the recycle bin");
    r
}

/// The total of a prefix of some plans is at most that of all.
proof fn lemma_plans_total_prefix(s: Seq<DeletePlan>, i: int)
    requires
        0 <= i <= s.len(),
    ensures
        plans_bytes(s.take(i)) <= plans_bytes(s),
    decreases s.len() - i,
{
    if i < s.len() {
        lemma_plans_total_prefix(s, i + 1);
        assert(s.take(i + 1).drop_last() =~= s.take(i));
    } else {
        assert(s.take(i) =~= s);
    }
}

/// The short ids of the plans that look live, in order.
pub open spec fn live_ids(plans: Seq<DeletePlan>) -> Seq<Seq<char>>
    decreases plans.len(),
{
    if plans.len() == 0 {
        Seq::empty()
    } else if plans.last().recent {
        live_ids(plans.drop_last()).push(short_id_s(plans.last().id@))
    } else {
        live_ids(plans.drop_last())
    }
}

/// Why a delete without `--force` is refused, when some plan looks live.
pub open spec fn live_refusal_s(plans: Seq<DeletePlan>) -> Option<Seq<char>> {
    let live = live_ids(plans);
    if live.len() == 0 {
        None
    } else {
        Some(
            dec_s(live.len()) + " session(s) were active in the last 5 minutes ("@
                + crate::text::join_s(live, ", "@) + "); pass --force to delete anyway"@,
        )
    }
}

/// Why a delete without `--force` is refused, when some plan looks live.
pub fn live_refusal(plans: &Vec<DeletePlan>) -> (r: Option<String>)
    ensures
        match r {
            Some(s) => live_refusal_s(plans@) == Some(s@),
            None => live_refusal_s(plans@) is None,
        },
{
    let mut live: Vec<String> = Vec::new();
    let mut i: usize = 0;
    while i < plans.len()
        invariant
            i <= plans@.len(),
            live@.map_values(|s: String| s@) == live_ids(plans@.take(i as int)),
        decreases plans@.len() - i,
    {
        assert(plans@.take(i + 1).drop_last() =~= plans@.take(i as int));
        if plans[i].recent {
            let ghost before = live@.map_values(|s: String| s@);
            let sid = plans[i].short_id();
            live.push(sid);
            assert(live@.map_values(|s: String| s@) =~= before.push(short_id_s(plans@[i as int].id@)));
        }
        i = i + 1;
    }
    assert(plans@.take(plans@.len() as int) =~= plans@);
    if live.len() == 0 {
        return None;
    }
    let mut r = dec_u64(live.len() as u64);
    push_str(&mut r, " session(s) were active in the last 5 minutes (");
    push_str(&mut r, crate::text::join(&live, ", ").as_str());
    push_str(&mut r, "); pass --force to delete anyway");
    Some(r)
}

/// What `csb delete` does once its plans are on screen.
#[derive(Debug)]
pub enum DeleteStep {
    /// `--dry-run`: say so and stop.
    DryRun,
    /// Refuse with this reason (a live session without `--force`).
    Refuse(String),
    /// Ask before deleting; a "no" aborts.
    Ask,
    /// Delete without asking (`--yes`).
    Go,
}

/// Decide what `csb delete` does once its plans are on screen: a dry run
/// stops first, then live sessions are refused unless forced, then the user
/// is asked unless `--yes` was given.
pub fn delete_step(plans: &Vec<DeletePlan>, dry_run: bool, force: bool, yes: bool) -> (r: DeleteStep)
    ensures
        dry_run ==> r is DryRun,
        !dry_run && !force && live_refusal_s(plans@) is Some ==> (r matches DeleteStep::Refuse(why)
            && live_refusal_s(plans@) == Some(why@)),
        !dry_run && (force || live_refusal_s(plans@) is None) ==> (if yes {
            r is Go
        } else {
            r is Ask
        }),
{
    if dry_run {
        return DeleteStep::DryRun;
    }
    if !force {
        match live_refusal(plans) {
            Some(why) => {
                return DeleteStep::Refuse(why);
            },
            None => {},
        }
    }
    if !yes {
        DeleteStep::Ask
    } else {
        DeleteStep::Go
    }
}

/// `v` is the JSON number `n`.
pub open spec fn num_is(v: Json, n: nat) -> bool {
    v matches Json::Number(s) && s@ == dec_s(n)
}

/// `v` is the JSON string `t`.
pub open spec fn str_is(v: Json, t: Seq<char>) -> bool {
    v matches Json::Str(s) && s@ == t
}

/// `v` is the JSON string `t`, or `null` for none.
pub open spec fn opt_is(v: Json, t: Option<Seq<char>>) -> bool {
    match t {
        Some(x) => str_is(v, x),
        None => v == Json::Null,
    }
}

/// The member `m` is called `k`.
pub open spec fn member_is(m: (String, Json), k: Seq<char>) -> bool {
    m.0@ == k
}

/// `v` is how `list --json` shows `m`: an object with these members in this
/// order (the last activity as RFC 3339 text, `null` only for an instant
/// chrono cannot represent).
pub open spec fn row_json(v: Json, m: SessionMeta) -> bool {
    &&& v matches Json::Object(ms)
    &&& ms@.len() == 11
    &&& member_is(ms@[0], "id"@) && str_is(ms@[0].1, m.id@)
    &&& member_is(ms@[1], "title"@) && str_is(ms@[1].1, m.title@)
    &&& member_is(ms@[2], "project"@) && str_is(ms@[2].1, m.project_slug@)
    &&& member_is(ms@[3], "cwd"@) && opt_is(ms@[3].1, crate::title::opt_view(m.cwd))
    &&& member_is(ms@[4], "gitBranch"@) && opt_is(ms@[4].1, crate::title::opt_view(m.git_branch))
    &&& member_is(ms@[5], "path"@) && str_is(ms@[5].1, m.path@)
    &&& member_is(ms@[6], "sizeBytes"@) && num_is(ms@[6].1, m.size_bytes as nat)
    &&& member_is(ms@[7], "lastActivity"@) && opt_is(
        ms@[7].1,
        crate::time::instant_text(crate::index::activity_s(m)),
    )
    &&& member_is(ms@[8], "userMessages"@) && num_is(ms@[8].1, m.user_msgs as nat)
    &&& member_is(ms@[9], "assistantMessages"@) && num_is(ms@[9].1, m.assistant_msgs as nat)
    &&& member_is(ms@[10], "toolCalls"@) && num_is(ms@[10].1, m.tool_calls as nat)
}

/// An optional string as JSON.
fn opt_json(o: &Option<String>) -> (r: Json)
    ensures
        opt_is(r, crate::title::opt_view(*o)),
{
    match o {
        Some(s) => Json::Str(s.clone()),
        None => Json::Null,
    }
}

/// How `list --json` shows one session.
pub fn row_json_of(m: &SessionMeta) -> (r: Json)
    ensures
        row_json(r, *m),
{
    let mut ms: Vec<(String, Json)> = Vec::new();
    ms.push((owned("id"), Json::Str(m.id.clone())));
    ms.push((owned("title"), Json::Str(m.title.clone())));
    ms.push((owned("project"), Json::Str(m.project_slug.clone())));
    ms.push((owned("cwd"), opt_json(&m.cwd)));
    ms.push((owned("gitBranch"), opt_json(&m.git_branch)));
    ms.push((owned("path"), Json::Str(m.path.clone())));
    ms.push((owned("sizeBytes"), Json::Number(dec_u64(m.size_bytes))));
    let last = match crate::time::rfc3339_of(m.activity()) {
        Some(t) => Json::Str(t),
        None => Json::Null,
    };
    ms.push((owned("lastActivity"), last));
    ms.push((owned("userMessages"), Json::Number(dec_u64(m.user_msgs as u64))));
    ms.push((owned("assistantMessages"), Json::Number(dec_u64(m.assistant_msgs as u64))));
    ms.push((owned("toolCalls"), Json::Number(dec_u64(m.tool_calls as u64))));
    Json::Object(ms)
}

/// `v` is an array of the rows of `sessions`, in order.
pub open spec fn rows_json(v: Json, sessions: Seq<SessionMeta>) -> bool {
    &&& v matches Json::Array(rows)
    &&& rows@.len() == sessions.len()
    &&& forall|i: int| 0 <= i < rows@.len() ==> row_json(#[trigger] rows@[i], sessions[i])
}

/// What `list --json` prints for `sessions`: a pretty-printed array of their
/// rows, in order.
pub fn list_json(sessions: &Vec<SessionMeta>) -> (r: String)
    ensures
        exists|v: Json| rows_json(v, sessions@) && r@ == #[trigger] json_pretty(v),
{
    let mut rows: Vec<Json> = Vec::new();
    let mut i: usize = 0;
    while i < sessions.len()
        invariant
            i <= sessions@.len(),
            rows@.len() == i,
            forall|j: int| 0 <= j < i ==> row_json(#[trigger] rows@[j], sessions@[j]),
        decreases sessions@.len() - i,
    {
        rows.push(row_json_of(&sessions[i]));
        i = i + 1;
    }
    let v = Json::Array(rows);
    assert(rows_json(v, sessions@));
    pretty(&v)
}

} // verus!
