//! `acs list <host>`: ask the remote proxy for every session's STATUS and
//! print a table. `acs list` asks every alias in the configuration at once.

pub mod laws;

use crate::client::code;
use crate::proto::laws::messages;
use crate::proto::{next_frame, Decoder, Msg, MsgView, Next, StatusInfo, StatusView};
use crate::text::{
    chars_of, concat, dec, decimal, joined, push_spaces, spaces, string_of, texts, trim_right,
    trim_right_vec,
};
use crate::VERSION;
use vstd::prelude::*;

verus! {

/// Why a host's sessions could not be listed.
#[derive(Debug)]
pub enum Failure {
    /// No connection, or no answer in time.
    Unreachable(String),
    /// The proxy answered with something that is not a STATUS reply.
    BadReply(String),
}

impl Failure {
    pub open spec fn words(self, host: Seq<char>) -> Seq<char> {
        match self {
            Failure::Unreachable(e) => e@,
            Failure::BadReply(e) => "bad reply from "@ + host + ": "@ + e@,
        }
    }

    /// What to tell the user about `host`.
    pub fn message(&self, host: &str) -> (s: String)
        ensures
            s@ == self.words(host@),
    {
        match self {
            Failure::Unreachable(e) => e.clone(),
            Failure::BadReply(e) => {
                let mut s = "bad reply from ".to_owned();
                s.append(host);
                s.append(": ");
                s.append(e.as_str());
                s
            },
        }
    }

    /// The client's exit status for it.
    pub fn code(&self) -> (c: u8)
        ensures
            c == match *self {
                Failure::Unreachable(_) => code::UNREACHABLE,
                Failure::BadReply(_) => code::ERROR,
            },
    {
        match self {
            Failure::Unreachable(_) => code::UNREACHABLE,
            Failure::BadReply(_) => code::ERROR,
        }
    }
}

/// What `acs list` says of a host that has no acs of this version.
pub open spec fn not_installed_text(host: Seq<char>) -> Seq<char> {
    "no sessions on "@ + host + " (acs "@ + VERSION@ + " is not installed there)"@
}

pub fn not_installed(host: &str) -> (s: String)
    ensures
        s@ == not_installed_text(host@),
{
    let mut s = "no sessions on ".to_owned();
    s.append(host);
    s.append(" (acs ");
    s.append(VERSION);
    s.append(" is not installed there)");
    s
}

// ---- the table -------------------------------------------------------------

/// A duration in one unit, rounded down: seconds below a minute, minutes
/// below an hour, hours below a day, else days.
pub open spec fn span_text(secs: nat) -> Seq<char> {
    if secs < 60 {
        dec(secs) + "s"@
    } else if secs < 3600 {
        dec(secs / 60) + "m"@
    } else if secs < 86_400 {
        dec(secs / 3600) + "h"@
    } else {
        dec(secs / 86_400) + "d"@
    }
}

/// Compact durations in one unit: `42s`, `7m`, `3h`, `12d`.
pub fn span(secs: u64) -> (s: String)
    ensures
        s@ == span_text(secs as nat),
{
    if secs < 60 {
        let mut s = decimal(secs);
        s.append("s");
        s
    } else if secs < 3600 {
        let mut s = decimal(secs / 60);
        s.append("m");
        s
    } else if secs < 86_400 {
        let mut s = decimal(secs / 3600);
        s.append("h");
        s
    } else {
        let mut s = decimal(secs / 86_400);
        s.append("d");
        s
    }
}

/// The headings of a session's cells.
pub open spec fn head() -> Seq<Seq<char>> {
    seq!["NAME"@, "STATE"@, "WHO"@, "IDLE"@, "AGE"@, "COMMAND"@]
}

/// One session's cells, in the order of [`head`]: an identity that is only
/// the last one attached stands in brackets.
pub open spec fn cells_of(s: StatusView, now: u64) -> Seq<Seq<char>> {
    seq![
        s.name,
        if s.attached {
            "attached"@
        } else {
            "detached"@
        },
        if s.identity.len() == 0 {
            "-"@
        } else if s.attached {
            s.identity
        } else {
            "("@ + s.identity + ")"@
        },
        span_text(s.idle_secs as nat),
        span_text(
            if now >= s.created_at {
                (now - s.created_at) as nat
            } else {
                0
            },
        ),
        s.command,
    ]
}

fn cells(s: &StatusInfo, now: u64) -> (v: Vec<String>)
    ensures
        texts(v@) == cells_of(s@, now),
{
    let state = if s.attached {
        "attached".to_owned()
    } else {
        "detached".to_owned()
    };
    let who = if s.identity.as_str().is_empty() {
        "-".to_owned()
    } else if s.attached {
        s.identity.clone()
    } else {
        let mut w = "(".to_owned();
        w.append(s.identity.as_str());
        w.append(")");
        w
    };
    let age: u64 = if now >= s.created_at {
        now - s.created_at
    } else {
        0
    };
    let v = vec![s.name.clone(), state, who, span(s.idle_secs), span(age), s.command.clone()];
    assert(texts(v@) =~= cells_of(s@, now));
    v
}

/// The characters of each cell of each row.
pub open spec fn grid(rows: Seq<Vec<String>>) -> Seq<Seq<Seq<char>>> {
    Seq::new(rows.len(), |i: int| texts(rows[i]@))
}

/// How wide column `i` is: as wide as its widest cell.
pub open spec fn col_width(head: Seq<Seq<char>>, rows: Seq<Seq<Seq<char>>>, i: int) -> nat
    decreases rows.len(),
{
    if rows.len() == 0 {
        head[i].len()
    } else {
        let w = col_width(head, rows.drop_last(), i);
        let c = rows.last()[i].len();
        if c > w {
            c
        } else {
            w
        }
    }
}

/// The first `n` cells of a line, each but the last padded to its column's
/// width and two spaces.
pub open spec fn padded(cells: Seq<Seq<char>>, widths: Seq<nat>, n: nat) -> Seq<char>
    decreases n,
{
    if n == 0 {
        Seq::empty()
    } else {
        let c = cells[n - 1];
        let before = padded(cells, widths, (n - 1) as nat);
        if n == cells.len() {
            before + c
        } else {
            let gap = if widths[n - 1] > c.len() {
                (widths[n - 1] - c.len()) as nat
            } else {
                0
            };
            before + c + spaces(gap) + "  "@
        }
    }
}

/// A line of the table, without its newline.
pub open spec fn line_text(cells: Seq<Seq<char>>, widths: Seq<nat>) -> Seq<char> {
    trim_right(padded(cells, widths, cells.len()))
}

pub open spec fn col_widths(head: Seq<Seq<char>>, rows: Seq<Seq<Seq<char>>>) -> Seq<nat> {
    Seq::new(head.len(), |i: int| col_width(head, rows, i))
}

/// The lines of the table of `rows` under `head`, each column as wide as its
/// widest cell (the last, the command, is not padded).
pub open spec fn table_of(head: Seq<Seq<char>>, rows: Seq<Seq<Seq<char>>>) -> Seq<Seq<char>> {
    seq![line_text(head, col_widths(head, rows))] + Seq::new(
        rows.len(),
        |i: int| line_text(rows[i], col_widths(head, rows)),
    )
}

fn line(cells: &Vec<String>, width: &Vec<usize>, Ghost(widths): Ghost<Seq<nat>>) -> (s: String)
    requires
        width.len() == cells.len(),
        widths.len() == cells.len(),
        forall|i: int| 0 <= i < width@.len() ==> #[trigger] width@[i] == widths[i],
    ensures
        s@ == line_text(texts(cells@), widths),
{
    let ghost all = texts(cells@);
    let mut s = String::new();
    for i in 0..cells.len()
        invariant
            all == texts(cells@),
            width.len() == cells.len(),
            widths.len() == cells.len(),
            forall|i: int| 0 <= i < width@.len() ==> #[trigger] width@[i] == widths[i],
            s@ == padded(all, widths, i as nat),
    {
        let c = cells[i].as_str();
        assert(all[i as int] == c@);
        s.append(c);
        if i + 1 < cells.len() {
            let n: usize = c.unicode_len();
            if width[i] > n {
                push_spaces(&mut s, width[i] - n);
            } else {
                assert(s@ + spaces(0) =~= s@);
            }
            s.append("  ");
        }
        assert(s@ =~= padded(all, widths, (i + 1) as nat));
    }
    let mut v = chars_of(s.as_str());
    trim_right_vec(&mut v);
    string_of(v.as_slice())
}

/// The lines of the table, without their newlines: the heading, then a line
/// per row.
pub(crate) fn table_lines(head: &Vec<String>, rows: &Vec<Vec<String>>) -> (out: Vec<String>)
    requires
        forall|i: int| 0 <= i < rows@.len() ==> #[trigger] rows@[i]@.len() == head@.len(),
    ensures
        texts(out@) == table_of(texts(head@), grid(rows@)),
{
    let ghost h = texts(head@);
    let ghost g = grid(rows@);
    let mut width: Vec<usize> = Vec::new();
    for i in 0..head.len()
        invariant
            h == texts(head@),
            width.len() == i,
            forall|k: int| 0 <= k < i ==> #[trigger] width@[k] == h[k].len(),
    {
        width.push(head[i].as_str().unicode_len());
    }
    assert forall|k: int| 0 <= k < width@.len() implies #[trigger] width@[k] == col_width(
        h,
        g.take(0),
        k,
    ) by {}
    for r in 0..rows.len()
        invariant
            h == texts(head@),
            g == grid(rows@),
            forall|i: int| 0 <= i < rows@.len() ==> #[trigger] rows@[i]@.len() == head@.len(),
            width.len() == head.len(),
            forall|k: int|
                0 <= k < width@.len() ==> #[trigger] width@[k] == col_width(h, g.take(r as int), k),
    {
        let row = &rows[r];
        assert(row@.len() == head@.len());
        assert(g.take(r + 1).drop_last() =~= g.take(r as int));
        assert(g.take(r + 1).last() == texts(row@));
        for i in 0..row.len()
            invariant
                g == grid(rows@),
                row == rows@[r as int],
                0 <= r < rows.len(),
                g.take(r + 1).drop_last() == g.take(r as int),
                g.take(r + 1).last() == texts(row@),
                row@.len() == head@.len(),
                width.len() == head.len(),
                forall|k: int|
                    0 <= k < i ==> #[trigger] width@[k] == col_width(h, g.take(r + 1), k),
                forall|k: int|
                    i <= k < width@.len() ==> #[trigger] width@[k] == col_width(
                        h,
                        g.take(r as int),
                        k,
                    ),
        {
            let n: usize = row[i].as_str().unicode_len();
            assert(texts(row@)[i as int].len() == n);
            if n > width[i] {
                width.set(i, n);
            }
        }
    }
    assert(g.take(rows@.len() as int) =~= g);
    let ghost widths = col_widths(h, g);
    let mut out: Vec<String> = Vec::new();
    out.push(line(head, &width, Ghost(widths)));
    for r in 0..rows.len()
        invariant
            h == texts(head@),
            g == grid(rows@),
            widths == col_widths(h, g),
            forall|i: int| 0 <= i < rows@.len() ==> #[trigger] rows@[i]@.len() == head@.len(),
            width.len() == head.len(),
            forall|k: int| 0 <= k < width@.len() ==> #[trigger] width@[k] == col_width(h, g, k),
            out.len() == r + 1,
            out@[0]@ == line_text(h, widths),
            forall|k: int| 0 <= k < r ==> #[trigger] out@[k + 1]@ == line_text(g[k], widths),
    {
        assert(rows@[r as int]@.len() == head@.len());
        out.push(line(&rows[r], &width, Ghost(widths)));
    }
    proof {
        let want = table_of(h, g);
        assert forall|k: int| 0 <= k < want.len() implies texts(out@)[k] == #[trigger] want[k] by {
            if k > 0 {
                assert(out@[(k - 1) + 1]@ == line_text(g[k - 1], widths));
            }
        }
        assert(texts(out@) =~= want);
    }
    out
}

fn head_cells() -> (v: Vec<String>)
    ensures
        texts(v@) == head(),
{
    let v = vec![
        "NAME".to_owned(),
        "STATE".to_owned(),
        "WHO".to_owned(),
        "IDLE".to_owned(),
        "AGE".to_owned(),
        "COMMAND".to_owned(),
    ];
    assert(texts(v@) =~= head());
    v
}

/// The views of a list of sessions.
pub open spec fn infos(v: Seq<StatusInfo>) -> Seq<StatusView> {
    Seq::new(v.len(), |i: int| v[i]@)
}

/// The cells of every session of `v`.
pub open spec fn rows_of(v: Seq<StatusView>, now: u64) -> Seq<Seq<Seq<char>>> {
    Seq::new(v.len(), |i: int| cells_of(v[i], now))
}

fn rows(sessions: &[StatusInfo], now: u64) -> (v: Vec<Vec<String>>)
    ensures
        grid(v@) == rows_of(infos(sessions@), now),
        forall|i: int| 0 <= i < v@.len() ==> #[trigger] v@[i]@.len() == 6,
{
    let mut v: Vec<Vec<String>> = Vec::new();
    for i in 0..sessions.len()
        invariant
            v.len() == i,
            forall|k: int|
                0 <= k < i ==> texts(#[trigger] v@[k]@) == cells_of(sessions@[k]@, now),
    {
        v.push(cells(&sessions[i], now));
    }
    assert forall|i: int| 0 <= i < v@.len() implies #[trigger] v@[i]@.len() == 6 by {
        assert(texts(v@[i]@).len() == cells_of(sessions@[i]@, now).len());
    }
    assert(grid(v@) =~= rows_of(infos(sessions@), now));
    v
}

/// The `acs list` table of `sessions` as lines, the heading first.
pub open spec fn lines_of(sessions: Seq<StatusView>, now: u64) -> Seq<Seq<char>> {
    table_of(head(), rows_of(sessions, now))
}

/// The `acs list` table of `sessions` as lines without their `\n`: the
/// heading first (the session menu).
pub fn lines(sessions: &[StatusInfo], now: u64) -> (v: Vec<String>)
    ensures
        texts(v@) == lines_of(infos(sessions@), now),
{
    let r = rows(sessions, now);
    let h = head_cells();
    assert(texts(h@).len() == 6);
    table_lines(&h, &r)
}

/// Lines, each ended by a newline, in one text.
pub open spec fn paragraph(v: Seq<Seq<char>>) -> Seq<char> {
    joined(Seq::new(v.len(), |i: int| v[i] + "\n"@))
}

pub(crate) fn newlines(v: Vec<String>) -> (s: String)
    ensures
        s@ == paragraph(texts(v@)),
{
    let mut ended: Vec<String> = Vec::new();
    for i in 0..v.len()
        invariant
            ended.len() == i,
            forall|k: int| 0 <= k < i ==> (#[trigger] ended@[k])@ == v@[k]@ + "\n"@,
    {
        let mut l = v[i].clone();
        l.append("\n");
        ended.push(l);
    }
    let ghost want = Seq::new(texts(v@).len(), |i: int| texts(v@)[i] + "\n"@);
    assert(texts(ended@) =~= want);
    concat(ended.as_slice())
}

/// What `acs list <host>` prints.
pub open spec fn render_text(host: Seq<char>, sessions: Seq<StatusView>, now: u64) -> Seq<char> {
    if sessions.len() == 0 {
        "no sessions on "@ + host + "\n"@
    } else {
        paragraph(lines_of(sessions, now))
    }
}

/// The table `acs list <host>` prints.
pub fn render(host: &str, sessions: &[StatusInfo], now: u64) -> (s: String)
    ensures
        s@ == render_text(host@, infos(sessions@), now),
{
    if sessions.len() == 0 {
        let mut s = "no sessions on ".to_owned();
        s.append(host);
        s.append("\n");
        return s;
    }
    newlines(lines(sessions, now))
}

// ---- every host ------------------------------------------------------------

/// The headings of the table of every host.
pub open spec fn host_head() -> Seq<Seq<char>> {
    seq!["HOST"@] + head()
}

/// The cells of the sessions of one host, under a HOST column.
pub open spec fn host_rows(
    host: Seq<char>,
    sessions: Seq<StatusView>,
    now: u64,
) -> Seq<Seq<Seq<char>>> {
    Seq::new(sessions.len(), |i: int| seq![host] + cells_of(sessions[i], now))
}

/// The cells of the sessions of every host, host by host.
pub open spec fn all_rows(
    hosts: Seq<(Seq<char>, Seq<StatusView>)>,
    now: u64,
) -> Seq<Seq<Seq<char>>>
    decreases hosts.len(),
{
    if hosts.len() == 0 {
        Seq::empty()
    } else {
        all_rows(hosts.drop_last(), now) + host_rows(hosts.last().0, hosts.last().1, now)
    }
}

/// The lines of the table of every host, the heading first.
pub open spec fn host_lines_of(
    hosts: Seq<(Seq<char>, Seq<StatusView>)>,
    now: u64,
) -> Seq<Seq<char>> {
    table_of(host_head(), all_rows(hosts, now))
}

fn host_head_cells() -> (v: Vec<String>)
    ensures
        texts(v@) == host_head(),
{
    let v = vec![
        "HOST".to_owned(),
        "NAME".to_owned(),
        "STATE".to_owned(),
        "WHO".to_owned(),
        "IDLE".to_owned(),
        "AGE".to_owned(),
        "COMMAND".to_owned(),
    ];
    assert(texts(v@) =~= host_head());
    v
}

/// Appends the rows of one host to `out`.
fn push_host_rows(out: &mut Vec<Vec<String>>, host: &str, sessions: &[StatusInfo], now: u64)
    requires
        forall|i: int| 0 <= i < old(out)@.len() ==> #[trigger] old(out)@[i]@.len() == 7,
    ensures
        grid(final(out)@) == grid(old(out)@) + host_rows(host@, infos(sessions@), now),
        forall|i: int| 0 <= i < final(out)@.len() ==> #[trigger] final(out)@[i]@.len() == 7,
{
    let ghost before = grid(out@);
    let ghost want = host_rows(host@, infos(sessions@), now);
    let ghost n0 = out@.len();
    for i in 0..sessions.len()
        invariant
            want == host_rows(host@, infos(sessions@), now),
            out@.len() == n0 + i,
            before.len() == n0,
            forall|k: int| 0 <= k < out@.len() ==> #[trigger] out@[k]@.len() == 7,
            forall|k: int| 0 <= k < n0 ==> texts(#[trigger] out@[k]@) == before[k],
            forall|k: int| n0 <= k < n0 + i ==> texts(#[trigger] out@[k]@) == want[k - n0],
    {
        let mut row: Vec<String> = Vec::new();
        row.push(host.to_owned());
        let mut c = cells(&sessions[i], now);
        let ghost cs = texts(c@);
        let ghost cv = c@;
        row.append(&mut c);
        assert(texts(row@) =~= seq![host@] + cs) by {
            assert forall|k: int| 0 <= k < texts(row@).len() implies texts(row@)[k] == (seq![host@]
                + cs)[k] by {
                if k > 0 {
                    assert(row@[k] == cv[k - 1]);
                }
            }
        }
        assert(cs.len() == 6);
        assert(row@.len() == 7);
        out.push(row);
    }
    assert(grid(out@) =~= before + want);
}

/// The names and sessions of hosts, as mathematical values.
pub open spec fn named(hosts: Seq<(&str, Vec<StatusInfo>)>) -> Seq<(Seq<char>, Seq<StatusView>)> {
    Seq::new(hosts.len(), |i: int| (hosts[i].0@, infos(hosts[i].1@)))
}

/// What `acs list` prints of the hosts that answered.
pub open spec fn render_all_text(
    hosts: Seq<(Seq<char>, Seq<StatusView>)>,
    now: u64,
) -> Seq<char> {
    if all_rows(hosts, now).len() == 0 {
        Seq::empty()
    } else {
        paragraph(host_lines_of(hosts, now))
    }
}

/// The table `acs list` prints: the sessions of every host that has any,
/// under a HOST column; empty if none has.
pub fn render_all(hosts: &[(&str, Vec<StatusInfo>)], now: u64) -> (s: String)
    ensures
        s@ == render_all_text(named(hosts@), now),
{
    let ghost all = named(hosts@);
    let mut r: Vec<Vec<String>> = Vec::new();
    assert(grid(r@) =~= all_rows(all.take(0), now));
    for i in 0..hosts.len()
        invariant
            all == named(hosts@),
            grid(r@) == all_rows(all.take(i as int), now),
            forall|k: int| 0 <= k < r@.len() ==> #[trigger] r@[k]@.len() == 7,
    {
        push_host_rows(&mut r, hosts[i].0, hosts[i].1.as_slice(), now);
        assert(all.take(i + 1).drop_last() =~= all.take(i as int));
        assert(all.take(i + 1).last() == all[i as int]);
    }
    assert(all.take(hosts@.len() as int) =~= all);
    assert(grid(r@).len() == r@.len());
    if r.len() == 0 {
        return String::new();
    }
    let h = host_head_cells();
    assert(texts(h@).len() == 7);
    newlines(table_lines(&h, &r))
}

/// The lines of the table of the sessions of every host, without their `\n`:
/// the heading first (the menu of every host).
pub fn host_lines(names: &[String], sessions: &[&[StatusInfo]], now: u64) -> (v: Vec<String>)
    requires
        names.len() == sessions.len(),
    ensures
        texts(v@) == host_lines_of(
            Seq::new(names@.len(), |i: int| (names@[i]@, infos(sessions@[i]@))),
            now,
        ),
{
    let ghost all: Seq<(Seq<char>, Seq<StatusView>)> = Seq::new(
        names@.len(),
        |i: int| (names@[i]@, infos(sessions@[i]@)),
    );
    let mut r: Vec<Vec<String>> = Vec::new();
    assert(grid(r@) =~= all_rows(all.take(0), now));
    for i in 0..names.len()
        invariant
            names.len() == sessions.len(),
            all == Seq::new(names@.len(), |i: int| (names@[i]@, infos(sessions@[i]@))),
            grid(r@) == all_rows(all.take(i as int), now),
            forall|k: int| 0 <= k < r@.len() ==> #[trigger] r@[k]@.len() == 7,
    {
        push_host_rows(&mut r, names[i].as_str(), sessions[i], now);
        assert(all.take(i + 1).drop_last() =~= all.take(i as int));
        assert(all.take(i + 1).last() == all[i as int]);
    }
    assert(all.take(names@.len() as int) =~= all);
    let h = host_head_cells();
    assert(texts(h@).len() == 7);
    table_lines(&h, &r)
}

/// What a host answered to the listing: its sessions, nothing because acs of
/// our version is not installed there, or why there was no answer.
pub type Listed = Result<Option<Vec<StatusInfo>>, Failure>;

/// The hosts that have sessions, with them, in order.
pub open spec fn with_sessions(
    aliases: Seq<String>,
    answers: Seq<Listed>,
) -> Seq<(Seq<char>, Seq<StatusView>)>
    decreases answers.len(),
{
    if answers.len() == 0 {
        Seq::empty()
    } else {
        let n = answers.len() - 1;
        let before = with_sessions(aliases, answers.drop_last());
        match answers.last() {
            Ok(Some(s)) => if s@.len() > 0 {
                before.push((aliases[n]@, infos(s@)))
            } else {
                before
            },
            _ => before,
        }
    }
}

/// A line for each host that answered and has no session to list.
pub open spec fn quiet_lines(aliases: Seq<String>, answers: Seq<Listed>) -> Seq<char>
    decreases answers.len(),
{
    if answers.len() == 0 {
        Seq::empty()
    } else {
        let n = answers.len() - 1;
        let before = quiet_lines(aliases, answers.drop_last());
        match answers.last() {
            Ok(Some(s)) => if s@.len() == 0 {
                before + ("no sessions on "@ + aliases[n]@ + "\n"@)
            } else {
                before
            },
            Ok(None) => before + (not_installed_text(aliases[n]@) + "\n"@),
            Err(_) => before,
        }
    }
}

/// A line for each host that did not answer as it should.
pub open spec fn failed_lines(aliases: Seq<String>, answers: Seq<Listed>) -> Seq<Seq<char>>
    decreases answers.len(),
{
    if answers.len() == 0 {
        Seq::empty()
    } else {
        let n = answers.len() - 1;
        let before = failed_lines(aliases, answers.drop_last());
        match answers.last() {
            Err(Failure::Unreachable(e)) => before.push("acs: "@ + aliases[n]@ + ": "@ + e@),
            Err(Failure::BadReply(e)) => before.push(
                "acs: bad reply from "@ + aliases[n]@ + ": "@ + e@,
            ),
            _ => before,
        }
    }
}

/// What `acs list` exits with.
pub open spec fn code_of(failed: Seq<Seq<char>>) -> u8 {
    if failed.len() == 0 {
        0
    } else {
        code::UNREACHABLE
    }
}

/// What `acs list` prints, says on stderr and exits with.
pub struct Report {
    pub out: String,
    pub failed: Vec<String>,
    pub code: u8,
}

/// `acs list` once every alias has answered: the sessions in one table, then
/// a line for each host without any; a line on stderr for each that failed.
/// It exits 0 if every host answered, 255 if any did not.
pub fn report(aliases: &Vec<String>, answers: &Vec<Listed>, now: u64) -> (r: Report)
    requires
        aliases.len() == answers.len(),
    ensures
        r.out@ == render_all_text(with_sessions(aliases@, answers@), now) + quiet_lines(
            aliases@,
            answers@,
        ),
        texts(r.failed@) == failed_lines(aliases@, answers@),
        r.code == code_of(failed_lines(aliases@, answers@)),
{
    let mut rows: Vec<Vec<String>> = Vec::new();
    let mut quiet = String::new();
    let mut failed: Vec<String> = Vec::new();
    let mut i: usize = 0;
    assert(with_sessions(aliases@, answers@.take(0)) =~= Seq::empty());
    assert(quiet_lines(aliases@, answers@.take(0)) =~= Seq::empty());
    assert(failed_lines(aliases@, answers@.take(0)) =~= Seq::empty());
    assert(grid(rows@) =~= Seq::empty());
    assert(texts(failed@) =~= Seq::empty());
    while i < answers.len()
        invariant
            i <= answers.len(),
            aliases.len() == answers.len(),
            grid(rows@) == all_rows(with_sessions(aliases@, answers@.take(i as int)), now),
            forall|k: int| 0 <= k < rows@.len() ==> #[trigger] rows@[k]@.len() == 7,
            quiet@ == quiet_lines(aliases@, answers@.take(i as int)),
            texts(failed@) == failed_lines(aliases@, answers@.take(i as int)),
        decreases answers.len() - i,
    {
        let alias = aliases[i].as_str();
        let ghost t = answers@.take(i + 1);
        let ghost before = with_sessions(aliases@, answers@.take(i as int));
        assert(t.drop_last() =~= answers@.take(i as int));
        assert(t.last() == answers@[i as int]);
        let ghost fv = failed@;
        match &answers[i] {
            Ok(Some(s)) => {
                if s.len() == 0 {
                    quiet.append("no sessions on ");
                    quiet.append(alias);
                    quiet.append("\n");
                    assert(quiet@ =~= quiet_lines(aliases@, t));
                } else {
                    push_host_rows(&mut rows, alias, s.as_slice(), now);
                    assert(before.push((alias@, infos(s@))).drop_last() =~= before);
                }
            },
            Ok(None) => {
                quiet.append(not_installed(alias).as_str());
                quiet.append("\n");
                assert(quiet@ =~= quiet_lines(aliases@, t));
            },
            Err(Failure::Unreachable(e)) => {
                let mut l = "acs: ".to_owned();
                l.append(alias);
                l.append(": ");
                l.append(e.as_str());
                failed.push(l);
                assert(texts(failed@) =~= texts(fv).push(l@));
            },
            Err(Failure::BadReply(e)) => {
                let mut l = "acs: bad reply from ".to_owned();
                l.append(alias);
                l.append(": ");
                l.append(e.as_str());
                failed.push(l);
                assert(texts(failed@) =~= texts(fv).push(l@));
            },
        }
        i = i + 1;
    }
    assert(answers@.take(answers@.len() as int) =~= answers@);
    assert(grid(rows@).len() == rows@.len());
    let mut out = if rows.len() == 0 {
        String::new()
    } else {
        let h = host_head_cells();
        assert(texts(h@).len() == 7);
        newlines(table_lines(&h, &rows))
    };
    out.append(quiet.as_str());
    let c = if failed.len() == 0 {
        0
    } else {
        code::UNREACHABLE
    };
    assert(texts(failed@).len() == failed@.len());
    Report { out, failed, code: c }
}

// ---- reading a listing -----------------------------------------------------

/// What is left of a stream once every whole message is taken off it.
pub open spec fn unread(s: Seq<u8>) -> Seq<u8>
    decreases s.len(),
{
    match next_frame(s) {
        Next::Got(_, n) => if 0 < n <= s.len() {
            unread(s.skip(n))
        } else {
            s
        },
        _ => s,
    }
}

/// The STATUS replies among messages.
pub open spec fn replies(ms: Seq<MsgView>) -> Seq<StatusView>
    decreases ms.len(),
{
    if ms.len() == 0 {
        Seq::empty()
    } else {
        match ms[0] {
            MsgView::StatusReply(s) => seq![s] + replies(ms.skip(1)),
            _ => replies(ms.skip(1)),
        }
    }
}

/// Takes every message that has arrived off `dec`, and adds the sessions that
/// the STATUS replies among them tell of to `sessions`; other messages are
/// passed over. A frame that cannot be read ends the listing.
pub fn take_replies(dec: &mut Decoder, sessions: &mut Vec<StatusInfo>) -> (res: Result<(), Failure>)
    requires
        old(dec).wf(),
    ensures
        final(dec).wf(),
        final(dec)@ == unread(old(dec)@),
        infos(final(sessions)@) == infos(old(sessions)@) + replies(messages(old(dec)@)),
        match next_frame(unread(old(dec)@)) {
            Next::Bad(e) => res matches Err(Failure::BadReply(m)) && m@ == e.words(),
            _ => res is Ok,
        },
{
    let ghost s0 = infos(sessions@);
    let ghost d0 = dec@;
    assert(s0 + replies(messages(d0)) =~= infos(sessions@) + replies(messages(dec@)));
    loop
        invariant
            dec.wf(),
            d0 == old(dec)@,
            s0 == infos(old(sessions)@),
            unread(dec@) == unread(d0),
            infos(sessions@) + replies(messages(dec@)) == s0 + replies(messages(d0)),
        ensures
            dec.wf(),
            dec@ == unread(d0),
            infos(sessions@) == s0 + replies(messages(d0)),
            next_frame(dec@) is More,
        decreases dec@.len(),
    {
        let ghost before = dec@;
        let ghost sv = sessions@;
        match dec.next_msg() {
            Err(e) => {
                assert(messages(dec@) =~= Seq::empty());
                assert(infos(sessions@) + replies(messages(dec@)) =~= infos(sessions@));
                return Err(Failure::BadReply(e.text()));
            },
            Ok(None) => {
                assert(messages(dec@) =~= Seq::empty());
                assert(infos(sessions@) + replies(messages(dec@)) =~= infos(sessions@));
                break;
            },
            Ok(Some(m)) => {
                proof {
                    let ms = messages(before);
                    assert(ms == seq![m@] + messages(dec@));
                    assert(ms.skip(1) =~= messages(dec@));
                    assert(ms[0] == m@);
                }
                if let Msg::StatusReply(s) = m {
                    sessions.push(s);
                    assert(infos(sessions@) =~= infos(sv).push(s@));
                    assert(infos(sv).push(s@) + replies(messages(dec@)) =~= infos(sv) + (seq![s@]
                        + replies(messages(dec@))));
                }
            },
        }
    }
    Ok(())
}

} // verus!
