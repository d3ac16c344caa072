//! The screen that shows the menu.

use super::{row_ok, rows_of, sessions_of, Answer, AnswerView, HostView, Menu, MenuView, Row};
use crate::list::{all_rows, host_lines, host_lines_of, infos, lines, lines_of};
use crate::proto::{StatusInfo, StatusView};
use crate::safe::{display_max, displayed, MAX_FIELD};
use crate::text::{chars_of, dec, decimal, join, joined_by, push_spaces, spaces, string_of, sub_vec, texts};
use vstd::prelude::*;
use vstd::utf8::encode_utf8;

verus! {

// ---- columns ---------------------------------------------------------------

/// Characters that take no column: combining marks, zero-width characters and
/// variation selectors.
pub open spec fn is_zero_width(c: u32) -> bool {
    ||| 0x0300 <= c <= 0x036F
    ||| 0x1AB0 <= c <= 0x1AFF
    ||| 0x1DC0 <= c <= 0x1DFF
    ||| 0x200B <= c <= 0x200F
    ||| 0x20D0 <= c <= 0x20FF
    ||| 0xFE00 <= c <= 0xFE0F
    ||| 0xFE20 <= c <= 0xFE2F
}

/// Characters that take two columns: East Asian wide and fullwidth characters
/// and emoji.
pub open spec fn is_wide(c: u32) -> bool {
    ||| 0x1100 <= c <= 0x115F
    ||| 0x2E80 <= c <= 0x303E
    ||| 0x3041 <= c <= 0x33FF
    ||| 0x3400 <= c <= 0x4DBF
    ||| 0x4E00 <= c <= 0x9FFF
    ||| 0xA000 <= c <= 0xA4CF
    ||| 0xAC00 <= c <= 0xD7A3
    ||| 0xF900 <= c <= 0xFAFF
    ||| 0xFE30 <= c <= 0xFE4F
    ||| 0xFF00 <= c <= 0xFF60
    ||| 0xFFE0 <= c <= 0xFFE6
    ||| 0x1F300 <= c <= 0x1F64F
    ||| 0x1F900 <= c <= 0x1F9FF
    ||| 0x20000 <= c <= 0x2FFFD
    ||| 0x30000 <= c <= 0x3FFFD
}

/// Columns a character takes in a terminal, as `wcwidth` has it for the common
/// cases.
pub open spec fn columns(c: char) -> nat {
    if is_zero_width(c as u32) {
        0
    } else if is_wide(c as u32) {
        2
    } else {
        1
    }
}

/// Columns a text takes.
pub open spec fn width_of(s: Seq<char>) -> nat
    decreases s.len(),
{
    if s.len() == 0 {
        0
    } else {
        width_of(s.drop_last()) + columns(s.last())
    }
}

/// The longest start of `s` that fits in `cols` columns.
pub open spec fn clipped(s: Seq<char>, cols: nat) -> Seq<char>
    decreases s.len(),
{
    if width_of(s) <= cols || s.len() == 0 {
        s
    } else {
        clipped(s.drop_last(), cols)
    }
}

/// Columns add up.
pub proof fn lemma_width_cat(a: Seq<char>, b: Seq<char>)
    ensures
        width_of(a + b) == width_of(a) + width_of(b),
    decreases b.len(),
{
    if b.len() == 0 {
        assert(a + b =~= a);
    } else {
        lemma_width_cat(a, b.drop_last());
        assert((a + b).drop_last() =~= a + b.drop_last());
    }
}

proof fn lemma_width_bytes(s: Seq<char>)
    ensures
        width_of(s) <= encode_utf8(s).len(),
    decreases s.len(),
{
    if s.len() > 0 {
        let rest = s.drop_first();
        lemma_width_bytes(rest);
        assert(seq![s[0]] + rest =~= s);
        lemma_width_cat(seq![s[0]], rest);
        assert(seq![s[0]].drop_last() =~= Seq::empty());
        assert(seq![s[0]].last() == s[0]);
        reveal_with_fuel(width_of, 2);
        assert(width_of(seq![s[0]]) == columns(s[0]));
    }
}

/// A longer start is no narrower.
proof fn lemma_width_grows(s: Seq<char>, k: int)
    requires
        0 <= k <= s.len(),
    ensures
        width_of(s.take(k)) <= width_of(s),
{
    assert(s =~= s.take(k) + s.skip(k));
    lemma_width_cat(s.take(k), s.skip(k));
}

proof fn lemma_clipped(s: Seq<char>, cols: nat, n: int)
    requires
        0 <= n <= s.len(),
        width_of(s.take(n)) <= cols,
        n < s.len() ==> width_of(s.take(n + 1)) > cols,
    ensures
        clipped(s, cols) == s.take(n),
    decreases s.len(),
{
    if n == s.len() {
        assert(s.take(n) =~= s);
    } else {
        lemma_width_grows(s, n + 1);
        let t = s.drop_last();
        assert(t.take(n) =~= s.take(n));
        if n < t.len() {
            assert(t.take(n + 1) =~= s.take(n + 1));
        }
        lemma_clipped(t, cols, n);
    }
}

fn char_width(c: char) -> (w: usize)
    ensures
        w == columns(c),
{
    let c: u32 = c as u32;
    if (c >= 0x0300 && c <= 0x036F) || (c >= 0x1AB0 && c <= 0x1AFF) || (c >= 0x1DC0 && c <= 0x1DFF)
        || (c >= 0x200B && c <= 0x200F) || (c >= 0x20D0 && c <= 0x20FF) || (c >= 0xFE00 && c
        <= 0xFE0F) || (c >= 0xFE20 && c <= 0xFE2F) {
        0
    } else if (c >= 0x1100 && c <= 0x115F) || (c >= 0x2E80 && c <= 0x303E) || (c >= 0x3041 && c
        <= 0x33FF) || (c >= 0x3400 && c <= 0x4DBF) || (c >= 0x4E00 && c <= 0x9FFF) || (c >= 0xA000
        && c <= 0xA4CF) || (c >= 0xAC00 && c <= 0xD7A3) || (c >= 0xF900 && c <= 0xFAFF) || (c
        >= 0xFE30 && c <= 0xFE4F) || (c >= 0xFF00 && c <= 0xFF60) || (c >= 0xFFE0 && c <= 0xFFE6)
        || (c >= 0x1F300 && c <= 0x1F64F) || (c >= 0x1F900 && c <= 0x1F9FF) || (c >= 0x20000 && c
        <= 0x2FFFD) || (c >= 0x30000 && c <= 0x3FFFD) {
        2
    } else {
        1
    }
}

/// How many terminal columns `s` takes.
pub fn width(s: &str) -> (w: usize)
    ensures
        w == width_of(s@),
{
    let bytes: usize = s.as_bytes().len();
    let v = chars_of(s);
    proof {
        lemma_width_bytes(s@);
    }
    let mut w: usize = 0;
    for i in 0..v.len()
        invariant
            v@ == s@,
            width_of(s@) <= bytes,
            w == width_of(s@.take(i as int)),
    {
        proof {
            lemma_width_grows(s@, i + 1);
            assert(s@.take(i + 1).drop_last() =~= s@.take(i as int));
        }
        w = w + char_width(v[i]);
    }
    assert(s@.take(s@.len() as int) =~= s@);
    w
}

/// The longest start of `s` that fits in `cols` columns.
pub fn clip(s: &str, cols: usize) -> (r: String)
    ensures
        r@ == clipped(s@, cols as nat),
{
    let v = chars_of(s);
    let mut used: usize = 0;
    let mut i: usize = 0;
    while i < v.len()
        invariant
            i <= v.len(),
            v@ == s@,
            used <= cols,
            used == width_of(s@.take(i as int)),
        decreases v.len() - i,
    {
        let w = char_width(v[i]);
        proof {
            assert(s@.take(i + 1).drop_last() =~= s@.take(i as int));
        }
        if w > cols - used {
            proof {
                lemma_clipped(s@, cols as nat, i as int);
            }
            let head = sub_vec(v.as_slice(), 0, i);
            assert(head@ =~= s@.take(i as int));
            return string_of(head.as_slice());
        }
        used = used + w;
        i = i + 1;
    }
    proof {
        lemma_clipped(s@, cols as nat, s@.len() as int);
        assert(s@.take(s@.len() as int) =~= s@);
    }
    string_of(v.as_slice())
}

// ---- the lines -------------------------------------------------------------

/// The names and sessions of the menu's hosts.
pub open spec fn listed(m: MenuView) -> Seq<(Seq<char>, Seq<StatusView>)> {
    Seq::new(m.hosts.len(), |i: int| (m.hosts[i].name, sessions_of(m.hosts[i])))
}

/// The table of every session, heading first.
pub open spec fn session_table(m: MenuView, now: u64) -> Seq<Seq<char>> {
    if m.every {
        host_lines_of(listed(m), now)
    } else {
        lines_of(sessions_of(m.hosts[0]), now)
    }
}

/// How many sessions the first `n` hosts have.
pub open spec fn sessions_before(hosts: Seq<HostView>, n: int) -> nat
    decreases n,
{
    if n <= 0 {
        0
    } else {
        sessions_before(hosts, n - 1) + sessions_of(hosts[n - 1]).len()
    }
}

/// What a row says.
pub open spec fn label(m: MenuView, now: u64, row: Row) -> Seq<char> {
    match row {
        Row::Session(h, i) => session_table(m, now)[sessions_before(m.hosts, h as int) + i + 1],
        Row::New => "new session"@,
        Row::Exit => "exit"@,
    }
}

/// The widest of the first `n` rows, with the five columns before its label.
pub open spec fn widest(m: MenuView, now: u64, n: nat) -> nat
    decreases n,
{
    if n == 0 {
        0
    } else {
        let w = 5 + width_of(label(m, now, rows_of(m)[n - 1]));
        let before = widest(m, now, (n - 1) as nat);
        if w > before {
            w
        } else {
            before
        }
    }
}

/// How wide the bar on the cursor's row is: as the widest row of the list, or
/// the terminal.
pub open spec fn bar_width(m: MenuView, now: u64, cols: nat) -> nat {
    let w = widest(m, now, rows_of(m).len());
    if w < cols {
        w
    } else {
        cols
    }
}

/// Whether every session of a list is attached.
pub open spec fn all_attached(s: Seq<StatusView>) -> bool {
    forall|i: int| 0 <= i < s.len() ==> (#[trigger] s[i]).attached
}

/// What is said of a host that has no row.
pub open spec fn host_line(h: HostView, all: bool) -> Option<Seq<char>> {
    match h.answer {
        AnswerView::Asking => Some("asking "@ + h.name + "…"@),
        AnswerView::Line(l) => Some(l),
        AnswerView::Sessions(s) => if s.len() == 0 {
            Some("no sessions on "@ + h.name)
        } else if !all && all_attached(s) {
            Some(
                "no detached sessions on "@ + h.name + " ("@ + dec(s.len())
                    + " attached: . shows them)"@,
            )
        } else {
            None
        },
    }
}

/// A line for each of the first `n` hosts without a row shown.
pub open spec fn quiet_hosts(hosts: Seq<HostView>, all: bool, n: nat) -> Seq<Seq<char>>
    decreases n,
{
    if n == 0 {
        Seq::empty()
    } else {
        let before = quiet_hosts(hosts, all, (n - 1) as nat);
        match host_line(hosts[n - 1], all) {
            Some(l) => before.push(l),
            None => before,
        }
    }
}

/// The lines under the rows: none in the menu of one host.
pub open spec fn host_info(m: MenuView) -> Seq<Seq<char>> {
    if m.every {
        quiet_hosts(m.hosts, m.all, m.hosts.len())
    } else {
        Seq::empty()
    }
}

pub open spec fn has_sessions(rows: Seq<Row>) -> bool {
    exists|k: int| 0 <= k < rows.len() && #[trigger] rows[k] is Session
}

pub open spec fn only_if(c: bool, s: Seq<Seq<char>>) -> Seq<Seq<char>> {
    if c {
        s
    } else {
        Seq::empty()
    }
}

/// The keys that act on the row under the cursor, and what they do there.
pub open spec fn key_words(m: MenuView) -> Seq<Seq<char>> {
    let rows = rows_of(m);
    let shown = ".: "@ + (if m.all {
        "detached only"@
    } else {
        "all"@
    });
    match rows[m.cursor as int] {
        Row::Session(..) => seq![
            "1-9, or ↑↓ jk and Enter: attach"@,
            shown,
            "x: end"@,
            "n: new"@ + (if m.every {
                " there"@
            } else {
                Seq::empty()
            }),
            "Esc: leave"@,
        ],
        Row::New => only_if(has_sessions(rows), seq!["1-9: attach"@]) + seq![
            "↑↓ jk: move"@,
            "Enter or n: new session"@,
            shown,
            "Esc: leave"@,
        ],
        Row::Exit => only_if(has_sessions(rows), seq!["1-9: attach"@]) + only_if(
            rows.len() > 1,
            seq!["↑↓ jk: move"@],
        ) + seq![shown, "Enter or Esc: leave"@],
    }
}

/// The key bar at the foot.
pub open spec fn key_bar(m: MenuView) -> Seq<char> {
    joined_by(key_words(m), "   "@)
}

/// The key that row `n` answers to.
pub open spec fn row_key(row: Row, n: int) -> char {
    match row {
        Row::Session(..) => if n < 9 {
            ((0x31 + n) as u32) as char
        } else {
            ' '
        },
        Row::New => 'n',
        Row::Exit => ' ',
    }
}

/// Row `n` of the screen: its mark, key and label, and whether the cursor is
/// on it.
pub open spec fn row_line(m: MenuView, now: u64, n: int) -> (Seq<char>, bool) {
    let row = rows_of(m)[n];
    let here = n == m.cursor;
    (
        seq![
            if here {
                '>'
            } else {
                ' '
            },
            ' ',
            row_key(row, n),
            ' ',
            ' ',
        ] + label(m, now, row),
        here,
    )
}

/// How many rows fit on a screen `height` high.
pub open spec fn fit(m: MenuView, height: nat) -> nat {
    let info = host_info(m).len();
    let used = 6 + (if info == 0 {
        0
    } else {
        info + 1
    });
    if height > used {
        (height - used) as nat
    } else {
        1
    }
}

/// The first row shown: the rows scroll to keep the cursor's in view.
pub open spec fn first_row(m: MenuView, height: nat) -> nat {
    if m.cursor + 1 > fit(m, height) {
        (m.cursor + 1 - fit(m, height)) as nat
    } else {
        0
    }
}

/// The row after the last one shown.
pub open spec fn end_row(m: MenuView, height: nat) -> nat {
    let end = first_row(m, height) + fit(m, height);
    if end < rows_of(m).len() {
        end
    } else {
        rows_of(m).len()
    }
}

pub open spec fn title(m: MenuView, host: Seq<char>) -> Seq<char> {
    let shown = if m.all {
        "all"@
    } else {
        "detached"@
    };
    "acs: "@ + shown + " sessions on "@ + (if m.every {
        "every host"@
    } else {
        host
    })
}

/// The rows shown, from `a` up to `b`.
pub open spec fn row_lines(m: MenuView, now: u64, a: nat, b: nat) -> Seq<(Seq<char>, bool)> {
    Seq::new((b - a) as nat, |k: int| row_line(m, now, a + k))
}

/// The lines under the rows, as they are shown.
pub open spec fn info_lines(m: MenuView) -> Seq<(Seq<char>, bool)> {
    let info = host_info(m);
    if info.len() == 0 {
        Seq::empty()
    } else {
        seq![(Seq::empty(), false)] + Seq::new(info.len(), |k: int| ("     "@ + info[k], false))
    }
}

/// The lines of the whole screen, and which of them the cursor is on.
pub open spec fn screen_lines(
    m: MenuView,
    host: Seq<char>,
    now: u64,
    height: nat,
) -> Seq<(Seq<char>, bool)> {
    seq![
        (title(m, host), false),
        (Seq::empty(), false),
        ("     "@ + session_table(m, now)[0], false),
    ] + row_lines(m, now, first_row(m, height), end_row(m, height)) + info_lines(m) + seq![
        (Seq::empty(), false),
        (key_bar(m), false),
        (m.note, false),
    ]
}

/// What of a line is drawn: nothing in it may move the cursor or erase a
/// neighbour, and it is no wider than the terminal.
pub open spec fn drawn_text(text: Seq<char>, cols: nat) -> Seq<char> {
    clipped(
        displayed(
            text,
            if cols > MAX_FIELD {
                cols
            } else {
                MAX_FIELD as nat
            },
        ),
        cols,
    )
}

/// A line as it is drawn: the cursor's reversed, in a bar of its own width.
pub open spec fn drawn(line: (Seq<char>, bool), cols: nat, bar: nat) -> Seq<char> {
    let t = drawn_text(line.0, cols);
    (if line.1 {
        let pad = if bar > width_of(t) {
            (bar - width_of(t)) as nat
        } else {
            0
        };
        "\x1b[7m"@ + t + spaces(pad) + "\x1b[0m"@
    } else {
        t
    }) + "\x1b[K"@
}

pub open spec fn drawn_lines(lines: Seq<(Seq<char>, bool)>, cols: nat, bar: nat) -> Seq<Seq<char>> {
    Seq::new(lines.len(), |k: int| drawn(lines[k], cols, bar))
}

/// The whole screen.
pub open spec fn screen(
    m: MenuView,
    host: Seq<char>,
    now: u64,
    cols: nat,
    height: nat,
) -> Seq<char> {
    "\x1b[H"@ + joined_by(
        drawn_lines(screen_lines(m, host, now, height), cols, bar_width(m, now, cols)),
        "\r\n"@,
    ) + "\x1b[J"@
}

// ---- drawing ---------------------------------------------------------------

proof fn lemma_before_grows(hosts: Seq<HostView>, a: int, b: int)
    requires
        0 <= a <= b <= hosts.len(),
    ensures
        sessions_before(hosts, a) <= sessions_before(hosts, b),
    decreases b,
{
    if a < b {
        lemma_before_grows(hosts, a, b - 1);
    }
}

proof fn lemma_all_rows_len(hosts: Seq<HostView>, v: Seq<(Seq<char>, Seq<StatusView>)>, now: u64)
    requires
        v.len() <= hosts.len(),
        forall|i: int| 0 <= i < v.len() ==> (#[trigger] v[i]).1 == sessions_of(hosts[i]),
    ensures
        all_rows(v, now).len() == sessions_before(hosts, v.len() as int),
    decreases v.len(),
{
    if v.len() > 0 {
        let w = v.drop_last();
        assert forall|i: int| 0 <= i < w.len() implies (#[trigger] w[i]).1 == sessions_of(hosts[i]) by {
            assert(w[i] == v[i]);
        }
        lemma_all_rows_len(hosts, w, now);
        assert(v.last() == v[v.len() - 1]);
    }
}

/// The table has a heading and a line for every session.
pub proof fn lemma_table_len(m: MenuView, now: u64)
    requires
        !m.every ==> m.hosts.len() == 1,
    ensures
        session_table(m, now).len() == 1 + sessions_before(m.hosts, m.hosts.len() as int),
{
    if m.every {
        lemma_all_rows_len(m.hosts, listed(m), now);
    } else {
        reveal_with_fuel(sessions_before, 2);
    }
}

impl Menu {
    fn table(&self, now: u64) -> (t: Vec<String>)
        requires
            self.wf(),
        ensures
            texts(t@) == session_table(self@, now),
            t.len() >= 1,
    {
        let t = if self.every {
            let mut names: Vec<String> = Vec::new();
            let mut sessions: Vec<&[StatusInfo]> = Vec::new();
            for h in 0..self.hosts.len()
                invariant
                    names.len() == h,
                    sessions.len() == h,
                    forall|k: int| 0 <= k < h ==> (#[trigger] names@[k])@ == self@.hosts[k].name,
                    forall|k: int|
                        0 <= k < h ==> infos((#[trigger] sessions@[k])@) == sessions_of(
                            self@.hosts[k],
                        ),
            {
                names.push(self.hosts[h].name.clone());
                sessions.push(self.sessions(h));
            }
            assert(Seq::new(names@.len(), |i: int| (names@[i]@, infos(sessions@[i]@)))
                =~= listed(self@));
            host_lines(names.as_slice(), sessions.as_slice(), now)
        } else {
            lines(self.sessions(0), now)
        };
        assert(texts(t@).len() == t@.len());
        t
    }

    /// Where in the table each host's sessions start.
    fn offsets(&self) -> (v: Vec<usize>)
        requires
            sessions_before(self@.hosts, self@.hosts.len() as int) <= usize::MAX,
        ensures
            v.len() == self.hosts.len(),
            forall|k: int|
                0 <= k < v@.len() ==> #[trigger] v@[k] == sessions_before(self@.hosts, k),
    {
        let mut v: Vec<usize> = Vec::new();
        let mut at: usize = 0;
        for h in 0..self.hosts.len()
            invariant
                v.len() == h,
                self@.hosts.len() == self.hosts.len(),
                at == sessions_before(self@.hosts, h as int),
                sessions_before(self@.hosts, self@.hosts.len() as int) <= usize::MAX,
                forall|k: int|
                    0 <= k < h ==> #[trigger] v@[k] == sessions_before(self@.hosts, k),
        {
            v.push(at);
            let s = self.sessions(h);
            proof {
                lemma_before_grows(self@.hosts, h + 1, self@.hosts.len() as int);
                assert(infos(s@).len() == s@.len());
            }
            at = at + s.len();
        }
        v
    }

    /// What each row says.
    fn labels(&self, rows: &Vec<Row>, table: &Vec<String>, Ghost(now): Ghost<u64>) -> (v: Vec<String>)
        requires
            self.wf(),
            rows@ == rows_of(self@),
            texts(table@) == session_table(self@, now),
        ensures
            v.len() == rows.len(),
            forall|k: int|
                0 <= k < v@.len() ==> (#[trigger] v@[k])@ == label(self@, now, rows@[k]),
    {
        proof {
            lemma_table_len(self@, now);
            assert(texts(table@).len() == table@.len());
            super::lemma_rows_ok(*self);
        }
        let total: usize = table.len();
        let offsets = self.offsets();
        let mut v: Vec<String> = Vec::new();
        for k in 0..rows.len()
            invariant
                v.len() == k,
                rows@ == rows_of(self@),
                texts(table@) == session_table(self@, now),
                total == table.len(),
                total == 1 + sessions_before(self@.hosts, self@.hosts.len() as int),
                self@.hosts.len() == self.hosts.len(),
                offsets.len() == self.hosts.len(),
                forall|j: int|
                    0 <= j < offsets@.len() ==> #[trigger] offsets@[j] == sessions_before(
                        self@.hosts,
                        j,
                    ),
                forall|j: int|
                    0 <= j < rows_of(self@).len() ==> row_ok(self@, #[trigger] rows_of(self@)[j]),
                forall|j: int| 0 <= j < k ==> (#[trigger] v@[j])@ == label(self@, now, rows@[j]),
        {
            assert(row_ok(self@, rows_of(self@)[k as int]));
            let l = match rows[k] {
                Row::Session(h, i) => {
                    proof {
                        lemma_before_grows(self@.hosts, h + 1, self@.hosts.len() as int);
                    }
                    let at: usize = offsets[h] + i + 1;
                    assert(texts(table@)[at as int] == table@[at as int]@);
                    table[at].clone()
                },
                Row::New => "new session".to_owned(),
                Row::Exit => "exit".to_owned(),
            };
            v.push(l);
        }
        v
    }

    /// A line for each host without a row shown, in configuration order; none
    /// in the menu of one.
    fn host_lines(&self) -> (v: Vec<String>)
        ensures
            texts(v@) == host_info(self@),
    {
        let mut v: Vec<String> = Vec::new();
        if !self.every {
            assert(texts(v@) =~= Seq::empty());
            return v;
        }
        assert(texts(v@) =~= quiet_hosts(self@.hosts, self.all, 0));
        for i in 0..self.hosts.len()
            invariant
                texts(v@) == quiet_hosts(self@.hosts, self.all, i as nat),
        {
            let h = &self.hosts[i];
            let ghost hv = self@.hosts[i as int];
            let ghost before = v@;
            let line: Option<String> = match &h.answer {
                Answer::Asking => {
                    let mut l = "asking ".to_owned();
                    l.append(h.name.as_str());
                    l.append("…");
                    Some(l)
                },
                Answer::Line(l) => Some(l.clone()),
                Answer::Sessions(s) => {
                    if s.len() == 0 {
                        let mut l = "no sessions on ".to_owned();
                        l.append(h.name.as_str());
                        Some(l)
                    } else if !self.all && every_attached(s) {
                        let mut l = "no detached sessions on ".to_owned();
                        l.append(h.name.as_str());
                        l.append(" (");
                        l.append(decimal(s.len() as u64).as_str());
                        l.append(" attached: . shows them)");
                        Some(l)
                    } else {
                        None
                    }
                },
            };
            if let Some(l) = line {
                v.push(l);
                assert(texts(v@) =~= texts(before).push(l@));
            }
        }
        v
    }

    /// The key bar at the foot: only the keys that act on the row under the
    /// cursor, so that x and n are not offered where they do nothing, and
    /// Enter is named for what it does there.
    fn keys(&self, rows: &Vec<Row>) -> (s: String)
        requires
            self.wf(),
            rows@ == rows_of(self@),
        ensures
            s@ == key_bar(self@),
    {
        let mut shown = ".: ".to_owned();
        if self.all {
            shown.append("detached only");
        } else {
            shown.append("all");
        }
        let mut keys: Vec<String> = Vec::new();
        let any = any_session(rows);
        match rows[self.cursor] {
            Row::Session(_, _) => {
                keys.push("1-9, or ↑↓ jk and Enter: attach".to_owned());
                keys.push(shown);
                keys.push("x: end".to_owned());
                let mut new = "n: new".to_owned();
                if self.every {
                    new.append(" there");
                } else {
                    assert(new@ + Seq::<char>::empty() =~= new@);
                }
                keys.push(new);
                keys.push("Esc: leave".to_owned());
            },
            Row::New => {
                if any {
                    keys.push("1-9: attach".to_owned());
                }
                keys.push("↑↓ jk: move".to_owned());
                keys.push("Enter or n: new session".to_owned());
                keys.push(shown);
                keys.push("Esc: leave".to_owned());
            },
            Row::Exit => {
                if any {
                    keys.push("1-9: attach".to_owned());
                }
                if rows.len() > 1 {
                    keys.push("↑↓ jk: move".to_owned());
                }
                keys.push(shown);
                keys.push("Enter or Esc: leave".to_owned());
            },
        }
        assert(texts(keys@) =~= key_words(self@));
        join(keys.as_slice(), "   ")
    }

    /// The title of the screen.
    fn title(&self, host: &str) -> (s: String)
        ensures
            s@ == title(self@, host@),
    {
        let mut s = "acs: ".to_owned();
        if self.all {
            s.append("all");
        } else {
            s.append("detached");
        }
        s.append(" sessions on ");
        if self.every {
            s.append("every host");
        } else {
            s.append(host);
        }
        s
    }

    /// The whole screen, for a terminal `cols` wide and `height` high: a
    /// title; the sessions as `acs list` shows them, the first nine numbered;
    /// the new-session and exit rows; the keys; the note. The cursor's row is
    /// marked and reversed, in a bar as wide as the widest row of the list, so
    /// it keeps its width as it moves; the rows scroll to keep it in view, and
    /// no line is wider than the terminal, so nothing wraps.
    ///
    /// The menu of every host titles itself with "every host" (`host` is not
    /// used), puts a HOST column first, and lists under the rows, as
    /// `acs list` does, each host that has no row to offer and why.
    #[verifier::spinoff_prover]
    #[verifier::rlimit(40)]
    pub fn render(&self, host: &str, now: u64, cols: usize, height: usize) -> (out: String)
        requires
            self.wf(),
        ensures
            out@ == screen(self@, host@, now, cols as nat, height as nat),
    {
        let table = self.table(now);
        let rows = self.rows();
        let labels = self.labels(&rows, &table, Ghost(now));
        let ghost m = self@;
        let mut bar: usize = 0;
        for k in 0..rows.len()
            invariant
                m == self@,
                rows@ == rows_of(m),
                labels.len() == rows.len(),
                forall|j: int|
                    0 <= j < labels@.len() ==> (#[trigger] labels@[j])@ == label(m, now, rows@[j]),
                bar == if widest(m, now, k as nat) < cols {
                    widest(m, now, k as nat)
                } else {
                    cols as nat
                },
        {
            let w = width(labels[k].as_str()).saturating_add(5);
            if w > bar {
                bar = if w < cols {
                    w
                } else {
                    cols
                };
            }
        }
        let info = self.host_lines();
        assert(texts(info@).len() == info@.len());
        let spare: usize = if info.len() == 0 {
            0
        } else {
            info.len().saturating_add(1)
        };
        let used: usize = spare.saturating_add(6);
        let fits: usize = if height > used {
            height - used
        } else {
            1
        };
        assert(fits == fit(m, height as nat));
        let first: usize = if self.cursor >= fits {
            self.cursor - fits + 1
        } else {
            0
        };
        let end: usize = if fits < rows.len() - first {
            first + fits
        } else {
            rows.len()
        };
        assert(first == first_row(m, height as nat));
        assert(end == end_row(m, height as nat));
        let mut heading = "     ".to_owned();
        assert(texts(table@)[0] == table@[0]@);
        heading.append(table[0].as_str());
        let ghost a = seq![
            (title(m, host@), false),
            (Seq::<char>::empty(), false),
            ("     "@ + session_table(m, now)[0], false),
        ];
        let ghost b = row_lines(m, now, first as nat, end as nat);
        let ghost i = info_lines(m);
        let ghost z = seq![(Seq::<char>::empty(), false), (key_bar(m), false), (m.note, false)];
        proof {
            reveal_strlit("");
            assert(""@ =~= Seq::empty());
        }
        let mut lines: Vec<String> = Vec::new();
        lines.push(draw(self.title(host).as_str(), false, cols, bar));
        lines.push(draw("", false, cols, bar));
        lines.push(draw(heading.as_str(), false, cols, bar));
        assert(texts(lines@) =~= drawn_lines(a, cols as nat, bar as nat));
        self.draw_rows(&mut lines, &rows, &labels, first, end, cols, bar, Ghost(now));
        self.draw_info(&mut lines, &info, cols, bar);
        let ghost before = lines@;
        lines.push(draw("", false, cols, bar));
        lines.push(draw(self.keys(&rows).as_str(), false, cols, bar));
        lines.push(draw(self.note.as_str(), false, cols, bar));
        assert(texts(lines@) =~= texts(before) + drawn_lines(z, cols as nat, bar as nat));
        proof {
            lemma_drawn_cat(a, b, cols as nat, bar as nat);
            lemma_drawn_cat(a + b, i, cols as nat, bar as nat);
            lemma_drawn_cat(a + b + i, z, cols as nat, bar as nat);
            assert(screen_lines(m, host@, now, height as nat) == a + b + i + z);
        }
        let mut out = "\x1b[H".to_owned();
        out.append(join(lines.as_slice(), "\r\n").as_str());
        out.append("\x1b[J");
        out
    }

    /// Appends the rows from `first` up to `end` as they are drawn.
    fn draw_rows(
        &self,
        lines: &mut Vec<String>,
        rows: &Vec<Row>,
        labels: &Vec<String>,
        first: usize,
        end: usize,
        cols: usize,
        bar: usize,
        Ghost(now): Ghost<u64>,
    )
        requires
            first <= end <= rows.len(),
            rows@ == rows_of(self@),
            labels.len() == rows.len(),
            forall|j: int|
                0 <= j < labels@.len() ==> (#[trigger] labels@[j])@ == label(self@, now, rows@[j]),
        ensures
            texts(final(lines)@) == texts(old(lines)@) + drawn_lines(
                row_lines(self@, now, first as nat, end as nat),
                cols as nat,
                bar as nat,
            ),
    {
        let ghost start = texts(lines@);
        assert(texts(lines@) =~= start + drawn_lines(
            row_lines(self@, now, first as nat, first as nat),
            cols as nat,
            bar as nat,
        ));
        for n in first..end
            invariant
                end <= rows.len(),
                rows@ == rows_of(self@),
                labels.len() == rows.len(),
                forall|j: int|
                    0 <= j < labels@.len() ==> (#[trigger] labels@[j])@ == label(
                        self@,
                        now,
                        rows@[j],
                    ),
                texts(lines@) == start + drawn_lines(
                    row_lines(self@, now, first as nat, n as nat),
                    cols as nat,
                    bar as nat,
                ),
        {
            let here = n == self.cursor;
            let mut l = String::new();
            l.push(
                if here {
                    '>'
                } else {
                    ' '
                },
            );
            l.push(' ');
            l.push(
                match rows[n] {
                    Row::Session(_, _) => if n < 9 {
                        (0x31u8 + n as u8) as char
                    } else {
                        ' '
                    },
                    Row::New => 'n',
                    Row::Exit => ' ',
                },
            );
            l.push(' ');
            l.push(' ');
            l.append(labels[n].as_str());
            assert(l@ =~= row_line(self@, now, n as int).0);
            let ghost before = lines@;
            let d = draw(l.as_str(), here, cols, bar);
            lines.push(d);
            assert(texts(lines@) =~= texts(before).push(d@));
            assert(texts(lines@) =~= start + drawn_lines(
                row_lines(self@, now, first as nat, (n + 1) as nat),
                cols as nat,
                bar as nat,
            ));
        }
    }

    /// Appends the lines under the rows as they are drawn.
    fn draw_info(&self, lines: &mut Vec<String>, info: &Vec<String>, cols: usize, bar: usize)
        requires
            texts(info@) == host_info(self@),
        ensures
            texts(final(lines)@) == texts(old(lines)@) + drawn_lines(
                info_lines(self@),
                cols as nat,
                bar as nat,
            ),
    {
        let ghost start = texts(lines@);
        let ghost want = drawn_lines(info_lines(self@), cols as nat, bar as nat);
        assert(texts(info@).len() == info@.len());
        if info.len() == 0 {
            assert(start + want =~= start);
            return;
        }
        proof {
            reveal_strlit("");
            assert(""@ =~= Seq::empty());
        }
        let d = draw("", false, cols, bar);
        lines.push(d);
        assert(texts(lines@) =~= start + want.take(1));
        for i in 0..info.len()
            invariant
                texts(info@) == host_info(self@),
                texts(info@).len() == info@.len(),
                info@.len() > 0,
                want == drawn_lines(info_lines(self@), cols as nat, bar as nat),
                texts(lines@) == start + want.take(i + 1),
        {
            let mut l = "     ".to_owned();
            l.append(info[i].as_str());
            assert(texts(info@)[i as int] == info@[i as int]@);
            assert(info_lines(self@)[i + 1] == ("     "@ + info@[i as int]@, false));
            let ghost before = lines@;
            let d = draw(l.as_str(), false, cols, bar);
            lines.push(d);
            assert(want[i + 1] == d@);
            assert(texts(lines@) =~= texts(before).push(d@));
            assert(texts(lines@) =~= start + want.take(i + 2));
        }
        assert(want.take((info@.len() + 1) as int) =~= want);
    }
}

proof fn lemma_drawn_cat(
    a: Seq<(Seq<char>, bool)>,
    b: Seq<(Seq<char>, bool)>,
    cols: nat,
    bar: nat,
)
    ensures
        drawn_lines(a + b, cols, bar) == drawn_lines(a, cols, bar) + drawn_lines(b, cols, bar),
{
    assert(drawn_lines(a + b, cols, bar) =~= drawn_lines(a, cols, bar) + drawn_lines(b, cols, bar));
}

/// One line as it is drawn.
fn draw(text: &str, here: bool, cols: usize, bar: usize) -> (s: String)
    ensures
        s@ == drawn((text@, here), cols as nat, bar as nat),
{
    let max: usize = if cols > MAX_FIELD {
        cols
    } else {
        MAX_FIELD
    };
    let safe = display_max(text, max);
    let t = clip(safe.as_str(), cols);
    if here {
        let mut s = "\x1b[7m".to_owned();
        s.append(t.as_str());
        let w = width(t.as_str());
        let pad: usize = if bar > w {
            bar - w
        } else {
            0
        };
        push_spaces(&mut s, pad);
        s.append("\x1b[0m");
        s.append("\x1b[K");
        s
    } else {
        let mut s = t;
        s.append("\x1b[K");
        s
    }
}

fn any_session(rows: &Vec<Row>) -> (r: bool)
    ensures
        r == has_sessions(rows@),
{
    for k in 0..rows.len()
        invariant
            forall|j: int| 0 <= j < k ==> !(#[trigger] rows@[j] is Session),
    {
        if let Row::Session(_, _) = rows[k] {
            return true;
        }
    }
    false
}

fn every_attached(s: &Vec<StatusInfo>) -> (r: bool)
    ensures
        r == all_attached(infos(s@)),
{
    for k in 0..s.len()
        invariant
            forall|j: int| 0 <= j < k ==> (#[trigger] infos(s@)[j]).attached,
    {
        if !s[k].attached {
            assert(!infos(s@)[k as int].attached);
            return false;
        }
    }
    true
}

} // verus!
