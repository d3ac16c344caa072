//! The session menu of a plain `acs <host>`, and of `acs list` on every host
//! alias at once.
//!
//! [`Menu`] is a pure state machine over the bytes typed and an injected
//! millisecond clock: keys in, a [`Choice`] out, and [`Menu::render`] for the
//! screen that shows it. Its rows are grouped by host: one for `acs <host>`,
//! every alias in configuration order for `acs list`, where each host's rows
//! arrive as it answers.

use crate::list::infos;
use crate::proto::{StatusInfo, StatusView};
use vstd::prelude::*;

pub mod laws;
pub mod screen;

verus! {

/// How long a lone ESC waits for the rest of an arrow key before it is the
/// Esc key — as long as the session's input holds an incomplete sequence.
pub const ESC_WAIT_MS: u64 = 100;

/// Longest escape sequence read before it is dropped as garbage.
pub const MAX_SEQ: usize = 32;

/// What the user chose. `host` is an index into the menu's hosts (always 0 in
/// the menu of one host).
#[derive(Debug, Clone, PartialEq, Eq)]
pub enum Choice {
    /// Attach to this session; `force` takes it over from the client attached
    /// to it.
    Attach { host: usize, name: String, force: bool },
    /// Create a new session on this host.
    New { host: usize },
    /// End this session on the host; the menu then goes on.
    Kill { host: usize, name: String },
    /// Leave the menu with this exit status.
    Leave(u8),
}

/// What a host said to the listing.
#[derive(Debug, Clone, PartialEq, Eq)]
pub enum Answer {
    /// Not yet: its rows come when it answers.
    Asking,
    /// Its sessions, perhaps none.
    Sessions(Vec<StatusInfo>),
    /// No sessions to offer, and the line `acs list` prints instead (not
    /// installed, unreachable).
    Line(String),
}

pub struct Host {
    pub name: String,
    pub answer: Answer,
}

#[derive(Debug, Clone, Copy, PartialEq, Eq, Structural)]
pub enum Row {
    /// A host, and an index into its sessions.
    Session(usize, usize),
    New,
    Exit,
}

#[derive(Debug, Clone, Copy, PartialEq, Eq, Structural)]
pub enum Key {
    Up,
    Down,
    Esc,
    Byte(u8),
    /// A sequence the menu has no use for (another cursor key, a function
    /// key).
    Other,
}

/// A question waiting for its answer, about a host's session.
#[derive(Debug, Clone, PartialEq, Eq)]
pub enum Ask {
    /// End this session? `y`, or `x` again.
    Kill(usize, String),
    /// Take this attached session over? `y`.
    Takeover(usize, String),
}

pub struct Menu {
    pub hosts: Vec<Host>,
    /// Every host alias (`acs list`): a HOST column, no new-session row.
    pub every: bool,
    /// Attached sessions are shown too (`.`).
    pub all: bool,
    /// Take over without asking (`--force`).
    pub force: bool,
    /// Index into the rows.
    pub cursor: usize,
    pub ask: Option<Ask>,
    /// An escape sequence being read, and when its ESC came.
    pub seq: Vec<u8>,
    pub seq_since: u64,
    /// The line under the menu: a question, or what the last action did.
    pub note: String,
}

// ---- the menu, as mathematical values --------------------------------------

pub enum ChoiceView {
    Attach { host: usize, name: Seq<char>, force: bool },
    New { host: usize },
    Kill { host: usize, name: Seq<char> },
    Leave(u8),
}

pub enum AnswerView {
    Asking,
    Sessions(Seq<StatusView>),
    Line(Seq<char>),
}

pub struct HostView {
    pub name: Seq<char>,
    pub answer: AnswerView,
}

pub enum AskView {
    Kill(usize, Seq<char>),
    Takeover(usize, Seq<char>),
}

pub struct MenuView {
    pub hosts: Seq<HostView>,
    pub every: bool,
    pub all: bool,
    pub force: bool,
    pub cursor: usize,
    pub ask: Option<AskView>,
    pub seq: Seq<u8>,
    pub seq_since: u64,
    pub note: Seq<char>,
}

impl View for Choice {
    type V = ChoiceView;

    open spec fn view(&self) -> ChoiceView {
        match *self {
            Choice::Attach { host, name, force } => ChoiceView::Attach { host, name: name@, force },
            Choice::New { host } => ChoiceView::New { host },
            Choice::Kill { host, name } => ChoiceView::Kill { host, name: name@ },
            Choice::Leave(c) => ChoiceView::Leave(c),
        }
    }
}

/// A choice that may not have been made, as a mathematical value.
pub open spec fn chosen(c: Option<Choice>) -> Option<ChoiceView> {
    match c {
        Some(c) => Some(c@),
        None => None,
    }
}

impl View for Answer {
    type V = AnswerView;

    open spec fn view(&self) -> AnswerView {
        match *self {
            Answer::Asking => AnswerView::Asking,
            Answer::Sessions(s) => AnswerView::Sessions(infos(s@)),
            Answer::Line(l) => AnswerView::Line(l@),
        }
    }
}

impl View for Host {
    type V = HostView;

    open spec fn view(&self) -> HostView {
        HostView { name: self.name@, answer: self.answer@ }
    }
}

impl View for Ask {
    type V = AskView;

    open spec fn view(&self) -> AskView {
        match *self {
            Ask::Kill(h, name) => AskView::Kill(h, name@),
            Ask::Takeover(h, name) => AskView::Takeover(h, name@),
        }
    }
}

pub open spec fn host_views(v: Seq<Host>) -> Seq<HostView> {
    Seq::new(v.len(), |i: int| v[i]@)
}

impl View for Menu {
    type V = MenuView;

    open spec fn view(&self) -> MenuView {
        MenuView {
            hosts: host_views(self.hosts@),
            every: self.every,
            all: self.all,
            force: self.force,
            cursor: self.cursor,
            ask: match self.ask {
                Some(a) => Some(a@),
                None => None,
            },
            seq: self.seq@,
            seq_since: self.seq_since,
            note: self.note@,
        }
    }
}

/// A host's sessions: none until it has answered with them.
pub open spec fn sessions_of(h: HostView) -> Seq<StatusView> {
    match h.answer {
        AnswerView::Sessions(s) => s,
        _ => Seq::empty(),
    }
}

/// The rows of the first `n` sessions `s` of host `h`: detached ones, and the
/// attached too where `all` are shown.
pub open spec fn session_rows(h: int, s: Seq<StatusView>, all: bool, n: nat) -> Seq<Row>
    decreases n,
{
    if n == 0 {
        Seq::empty()
    } else {
        let before = session_rows(h, s, all, (n - 1) as nat);
        if all || !s[n - 1].attached {
            before.push(Row::Session(h as usize, (n - 1) as usize))
        } else {
            before
        }
    }
}

/// The rows of the first `n` hosts.
pub open spec fn host_rows(hosts: Seq<HostView>, all: bool, n: nat) -> Seq<Row>
    decreases n,
{
    if n == 0 {
        Seq::empty()
    } else {
        let s = sessions_of(hosts[n - 1]);
        host_rows(hosts, all, (n - 1) as nat) + session_rows(n - 1, s, all, s.len())
    }
}

/// The shown sessions, host by host, then a row to create a new session (one
/// host only) and one to leave.
pub open spec fn rows_of(m: MenuView) -> Seq<Row> {
    host_rows(m.hosts, m.all, m.hosts.len()) + (if m.every {
        seq![Row::Exit]
    } else {
        seq![Row::New, Row::Exit]
    })
}

/// The session that a row shows.
pub open spec fn session_at(m: MenuView, h: usize, i: usize) -> StatusView {
    sessions_of(m.hosts[h as int])[i as int]
}

/// Whether row `r` of `after` is what row `at` of `before` was: the same
/// session of the same host, by name, or the same other row.
pub open spec fn same_row(before: MenuView, at: Row, after: MenuView, r: Row) -> bool {
    match (at, r) {
        (Row::Session(h, i), Row::Session(g, j)) => h == g && session_at(before, h, i).name
            == session_at(after, g, j).name,
        (Row::Session(..), _) => false,
        (_, Row::Session(..)) => false,
        _ => at == r,
    }
}

/// The first of `rows`, from `k` on, that is what row `at` was; or the place
/// `or` if none is.
pub open spec fn find_row(
    before: MenuView,
    at: Row,
    after: MenuView,
    rows: Seq<Row>,
    k: int,
    or: usize,
) -> usize
    decreases rows.len() - k,
{
    if k >= rows.len() {
        or
    } else if same_row(before, at, after, rows[k]) {
        k as usize
    } else {
        find_row(before, at, after, rows, k + 1, or)
    }
}

/// `after`, with the cursor on the row that it was on in `before` if that is
/// still there, else at the same place.
pub open spec fn keep_cursor(before: MenuView, after: MenuView) -> MenuView {
    let rows = rows_of(after);
    let or = if before.cursor < rows.len() {
        before.cursor
    } else {
        (rows.len() - 1) as usize
    };
    MenuView {
        cursor: find_row(
            before,
            rows_of(before)[before.cursor as int],
            after,
            rows,
            0,
            or,
        ),
        ..after
    }
}

/// ` on <host>` in a message of the menu of every host.
pub open spec fn on_host(m: MenuView, h: usize) -> Seq<char> {
    if m.every {
        " on "@ + m.hosts[h as int].name
    } else {
        Seq::empty()
    }
}

pub open spec fn noted(m: MenuView, note: Seq<char>) -> MenuView {
    MenuView { note, ..m }
}

pub open spec fn asking(m: MenuView, ask: AskView) -> MenuView {
    MenuView { ask: Some(ask), ..m }
}

/// Enter on a row, or its number.
pub open spec fn entered(m: MenuView, row: Row) -> (MenuView, Option<ChoiceView>) {
    match row {
        Row::New => (m, Some(ChoiceView::New { host: 0 })),
        Row::Exit => (m, Some(ChoiceView::Leave(0))),
        Row::Session(h, i) => {
            let s = session_at(m, h, i);
            if !s.attached || m.force {
                (m, Some(ChoiceView::Attach { host: h, name: s.name, force: s.attached }))
            } else {
                (
                    asking(
                        noted(
                            m,
                            "session '"@ + s.name + "'"@ + on_host(m, h) + " is attached from "@
                                + s.identity + " — take over? [y/N]"@,
                        ),
                        AskView::Takeover(h, s.name),
                    ),
                    None,
                )
            }
        },
    }
}

/// `x` on a row.
pub open spec fn ask_end(m: MenuView, row: Row) -> MenuView {
    match row {
        Row::Session(h, i) => {
            let s = session_at(m, h, i);
            let whose = if s.attached {
                ", attached from "@ + s.identity + ","@
            } else {
                Seq::empty()
            };
            asking(
                noted(
                    m,
                    "end session '"@ + s.name + "'"@ + on_host(m, h) + whose
                        + "? y (or x) ends it, any other key keeps it"@,
                ),
                AskView::Kill(h, s.name),
            )
        },
        _ => noted(m, "x ends the session under the cursor"@),
    }
}

/// `n` on a row.
pub open spec fn make_new(m: MenuView, row: Row) -> (MenuView, Option<ChoiceView>) {
    if m.every {
        match row {
            Row::Session(h, _) => (m, Some(ChoiceView::New { host: h })),
            _ => (
                noted(m, "n makes a new session on the host of the session under the cursor"@),
                None,
            ),
        }
    } else {
        match row {
            Row::Exit => (noted(m, "the 'new session' row above makes a new session"@), None),
            _ => (m, Some(ChoiceView::New { host: 0 })),
        }
    }
}

/// The answer to a question: any key but a yes is a no.
pub open spec fn answered(ask: AskView, k: Key) -> Option<ChoiceView> {
    match (ask, k) {
        (AskView::Kill(host, name), Key::Byte(b)) => if b == 0x79 || b == 0x59 || b == 0x78 {
            Some(ChoiceView::Kill { host, name })
        } else {
            None
        },
        (AskView::Takeover(host, name), Key::Byte(b)) => if b == 0x79 || b == 0x59 {
            Some(ChoiceView::Attach { host, name, force: true })
        } else {
            None
        },
        _ => None,
    }
}

/// One key with no question pending.
pub open spec fn plain_key(m: MenuView, k: Key) -> (MenuView, Option<ChoiceView>) {
    let rows = rows_of(m);
    let row = rows[m.cursor as int];
    if k == Key::Up || k == Key::Byte(0x6b) {
        (
            MenuView {
                cursor: if m.cursor > 0 {
                    (m.cursor - 1) as usize
                } else {
                    0
                },
                ..m
            },
            None,
        )
    } else if k == Key::Down || k == Key::Byte(0x6a) {
        (
            MenuView {
                cursor: if m.cursor + 1 < rows.len() {
                    (m.cursor + 1) as usize
                } else {
                    (rows.len() - 1) as usize
                },
                ..m
            },
            None,
        )
    } else {
        match k {
            Key::Byte(b) => if b == 0x0d || b == 0x0a {
                entered(m, row)
            } else if 0x31 <= b <= 0x39 {
                let n = b - 0x31;
                if n < rows.len() && rows[n] is Session {
                    entered(MenuView { cursor: n as usize, ..m }, rows[n])
                } else {
                    (m, None)
                }
            } else if b == 0x2e {
                (keep_cursor(m, MenuView { all: !m.all, ..m }), None)
            } else if b == 0x78 {
                (ask_end(m, row), None)
            } else if b == 0x6e {
                make_new(m, row)
            } else {
                (m, None)
            },
            _ => (m, None),
        }
    }
}

/// One key.
pub open spec fn pressed(m: MenuView, k: Key) -> (MenuView, Option<ChoiceView>) {
    if k == Key::Esc {
        (m, Some(ChoiceView::Leave(0)))
    } else if k == Key::Byte(3) {
        (m, Some(ChoiceView::Leave(130)))
    } else if k == Key::Other {
        (m, None)
    } else {
        match m.ask {
            Some(ask) => (
                MenuView { ask: None, note: Seq::empty(), ..m },
                answered(ask, k),
            ),
            None => plain_key(noted(m, Seq::empty()), k),
        }
    }
}

/// The cursor key a final byte (of `CSI … A` or `SS3 A`) stands for.
pub open spec fn arrow_key(f: u8) -> Key {
    if f == 0x41 {
        Key::Up
    } else if f == 0x42 {
        Key::Down
    } else {
        Key::Other
    }
}

/// The key that a sequence spells once it is whole. An ESC followed by
/// anything but `[` or `O` is the Esc key.
pub open spec fn spelled(s: Seq<u8>) -> Option<Key> {
    if s.len() < 2 {
        None
    } else if s[1] == 0x5b {
        if s.len() > 2 && 0x40 <= s.last() <= 0x7e {
            Some(arrow_key(s.last()))
        } else if s.len() < MAX_SEQ {
            None
        } else {
            Some(Key::Other)
        }
    } else if s[1] == 0x4f {
        if s.len() > 2 {
            Some(arrow_key(s[2]))
        } else {
            None
        }
    } else {
        Some(Key::Esc)
    }
}

/// One byte typed.
pub open spec fn typed(m: MenuView, b: u8, now: u64) -> (MenuView, Option<ChoiceView>) {
    if m.seq.len() == 0 && b != 0x1b {
        pressed(m, Key::Byte(b))
    } else {
        let seq = m.seq.push(b);
        let since = if seq.len() == 1 {
            now
        } else {
            m.seq_since
        };
        match spelled(seq) {
            Some(k) => pressed(MenuView { seq: Seq::empty(), seq_since: since, ..m }, k),
            None => (MenuView { seq, seq_since: since, ..m }, None),
        }
    }
}

/// Bytes typed, up to the first choice.
pub open spec fn typed_all(m: MenuView, input: Seq<u8>, now: u64) -> (MenuView, Option<ChoiceView>)
    decreases input.len(),
{
    if input.len() == 0 {
        (m, None)
    } else {
        let (n, c) = typed(m, input[0], now);
        match c {
            Some(_) => (MenuView { seq: Seq::empty(), ..n }, c),
            None => typed_all(n, input.skip(1), now),
        }
    }
}

/// What every menu satisfies: the cursor is on a row.
pub open spec fn valid(m: MenuView) -> bool {
    &&& m.cursor < rows_of(m).len()
    &&& !m.every ==> m.hosts.len() == 1
    &&& m.seq.len() > 0 ==> m.seq_since + ESC_WAIT_MS <= u64::MAX
}

proof fn lemma_session_rows(h: int, s: Seq<StatusView>, all: bool, n: nat)
    requires
        n <= s.len(),
        s.len() <= usize::MAX,
    ensures
        forall|k: int|
            0 <= k < session_rows(h, s, all, n).len() ==> {
                &&& #[trigger] session_rows(h, s, all, n)[k] is Session
                &&& session_rows(h, s, all, n)[k]->0 == h as usize
                &&& session_rows(h, s, all, n)[k]->1 < s.len()
            },
    decreases n,
{
    if n > 0 {
        lemma_session_rows(h, s, all, (n - 1) as nat);
    }
}

/// Every session row names a session that is there.
pub proof fn lemma_host_rows(hosts: Seq<HostView>, all: bool, n: nat)
    requires
        n <= hosts.len(),
        hosts.len() <= usize::MAX,
        forall|i: int|
            0 <= i < hosts.len() ==> sessions_of(#[trigger] hosts[i]).len() <= usize::MAX,
    ensures
        forall|k: int|
            0 <= k < host_rows(hosts, all, n).len() ==> {
                &&& #[trigger] host_rows(hosts, all, n)[k] is Session
                &&& host_rows(hosts, all, n)[k]->0 < n
                &&& host_rows(hosts, all, n)[k]->1 < sessions_of(
                    hosts[host_rows(hosts, all, n)[k]->0 as int],
                ).len()
            },
    decreases n,
{
    if n > 0 {
        lemma_host_rows(hosts, all, (n - 1) as nat);
        let s = sessions_of(hosts[n - 1]);
        lemma_session_rows(n - 1, s, all, s.len());
    }
}

/// The host and session of a session row are there.
pub open spec fn row_ok(m: MenuView, r: Row) -> bool {
    match r {
        Row::Session(h, i) => h < m.hosts.len() && i < sessions_of(m.hosts[h as int]).len(),
        _ => true,
    }
}

/// A host has answered.
pub open spec fn with_answer(m: MenuView, host: int, answer: AnswerView) -> MenuView {
    let after = MenuView {
        hosts: m.hosts.update(host, HostView { answer, ..m.hosts[host] }),
        ..m
    };
    let kept = keep_cursor(m, after);
    if m.cursor == 0 && rows_of(m)[0] == Row::Exit {
        MenuView { cursor: 0, ..kept }
    } else {
        kept
    }
}

/// The rows of a menu that is held in memory can be counted, and its session
/// rows name sessions that are there.
pub proof fn lemma_rows_ok(m: Menu)
    ensures
        forall|k: int| 0 <= k < rows_of(m@).len() ==> row_ok(m@, #[trigger] rows_of(m@)[k]),
{
    assert(m@.hosts.len() == m.hosts.len());
    assert forall|i: int| 0 <= i < m@.hosts.len() implies sessions_of(#[trigger] m@.hosts[i]).len()
        <= usize::MAX by {
        match m.hosts@[i].answer {
            Answer::Sessions(s) => {
                assert(infos(s@).len() == s.len());
            },
            _ => {},
        }
    }
    lemma_host_rows(m@.hosts, m.all, m@.hosts.len());
}

impl Menu {
    pub open spec fn wf(&self) -> bool {
        valid(self@)
    }

    /// The menu of one host's `sessions`.
    pub fn new(sessions: Vec<StatusInfo>, force: bool) -> (m: Menu)
        ensures
            m.wf(),
            m@ == (MenuView {
                hosts: seq![
                    HostView {
                        name: Seq::empty(),
                        answer: AnswerView::Sessions(infos(sessions@)),
                    },
                ],
                every: false,
                all: false,
                force,
                cursor: 0,
                ask: None,
                seq: Seq::empty(),
                seq_since: 0,
                note: Seq::empty(),
            }),
    {
        let hosts = vec![Host { name: String::new(), answer: Answer::Sessions(sessions) }];
        let m = Menu::with_hosts(hosts, false, force);
        assert(m@.hosts =~= seq![
            HostView { name: Seq::empty(), answer: AnswerView::Sessions(infos(sessions@)) },
        ]);
        m
    }

    /// The menu of every host alias, `names` in configuration order, each
    /// asked still ([`Menu::set_answer`] as it answers).
    pub fn every_host(names: Vec<String>, force: bool) -> (m: Menu)
        ensures
            m.wf(),
            m@ == (MenuView {
                hosts: Seq::new(
                    names@.len(),
                    |i: int| HostView { name: names@[i]@, answer: AnswerView::Asking },
                ),
                every: true,
                all: false,
                force,
                cursor: 0,
                ask: None,
                seq: Seq::empty(),
                seq_since: 0,
                note: Seq::empty(),
            }),
    {
        let mut hosts: Vec<Host> = Vec::new();
        for i in 0..names.len()
            invariant
                hosts.len() == i,
                forall|k: int|
                    0 <= k < i ==> (#[trigger] hosts@[k])@ == (HostView {
                        name: names@[k]@,
                        answer: AnswerView::Asking,
                    }),
        {
            hosts.push(Host { name: names[i].clone(), answer: Answer::Asking });
        }
        let m = Menu::with_hosts(hosts, true, force);
        assert(m@.hosts =~= Seq::new(
            names@.len(),
            |i: int| HostView { name: names@[i]@, answer: AnswerView::Asking },
        ));
        m
    }

    fn with_hosts(hosts: Vec<Host>, every: bool, force: bool) -> (m: Menu)
        requires
            !every ==> hosts.len() == 1,
        ensures
            m.wf(),
            m@ == (MenuView {
                hosts: host_views(hosts@),
                every,
                all: false,
                force,
                cursor: 0,
                ask: None,
                seq: Seq::empty(),
                seq_since: 0,
                note: Seq::empty(),
            }),
    {
        Menu {
            hosts,
            every,
            all: false,
            force,
            cursor: 0,
            ask: None,
            seq: Vec::new(),
            seq_since: 0,
            note: String::new(),
        }
    }

    /// Host `host`'s sessions (none until it has answered).
    pub fn sessions(&self, host: usize) -> (s: &[StatusInfo])
        requires
            host < self.hosts.len(),
        ensures
            infos(s@) == sessions_of(self@.hosts[host as int]),
    {
        match &self.hosts[host].answer {
            Answer::Sessions(s) => s.as_slice(),
            _ => {
                let none: &[StatusInfo] = &[];
                assert(infos(none@) =~= Seq::empty());
                none
            },
        }
    }

    /// Host `host`'s name, as configured (empty in the menu of one host).
    pub fn host_name(&self, host: usize) -> (s: &str)
        requires
            host < self.hosts.len(),
        ensures
            s@ == self@.hosts[host as int].name,
    {
        self.hosts[host].name.as_str()
    }

    pub fn set_note(&mut self, note: String)
        ensures
            final(self)@ == noted(old(self)@, note@),
    {
        self.note = note;
    }

    /// The shown sessions, host by host — detached only, unless `.` — then a
    /// row to create a new session (one host only) and one to leave.
    pub fn rows(&self) -> (rows: Vec<Row>)
        ensures
            rows@ == rows_of(self@),
            rows.len() > 0,
    {
        let mut rows: Vec<Row> = Vec::new();
        let ghost hosts = self@.hosts;
        for h in 0..self.hosts.len()
            invariant
                hosts == self@.hosts,
                rows@ == host_rows(hosts, self.all, h as nat),
        {
            let s = self.sessions(h);
            let ghost before = rows@;
            let ghost sv = sessions_of(hosts[h as int]);
            assert(rows@ =~= before + session_rows(h as int, sv, self.all, 0));
            for i in 0..s.len()
                invariant
                    sv == infos(s@),
                    rows@ == before + session_rows(h as int, sv, self.all, i as nat),
            {
                if self.all || !s[i].attached {
                    rows.push(Row::Session(h, i));
                }
                assert(rows@ =~= before + session_rows(h as int, sv, self.all, (i + 1) as nat));
            }
            assert(sv.len() == s@.len());
        }
        let ghost before = rows@;
        if !self.every {
            rows.push(Row::New);
        }
        rows.push(Row::Exit);
        assert(rows@ =~= rows_of(self@));
        rows
    }

    /// The name of the session that a row shows, if it shows one.
    fn row_name(&self, row: Row) -> (name: Option<String>)
        requires
            row_ok(self@, row),
        ensures
            match row {
                Row::Session(h, i) => name matches Some(s) && s@ == session_at(self@, h, i).name,
                _ => name is None,
            },
    {
        match row {
            Row::Session(h, i) => {
                let s = self.sessions(h);
                Some(s[i].name.clone())
            },
            _ => None,
        }
    }

    /// Moves the cursor to the row that it was on in `before`, row `at`.
    fn follow(&mut self, at: Row, name: Option<String>, Ghost(before): Ghost<MenuView>)
        requires
            before.cursor < rows_of(before).len(),
            at == rows_of(before)[before.cursor as int],
            old(self).cursor == before.cursor,
            match at {
                Row::Session(h, i) => name matches Some(s) && s@ == session_at(before, h, i).name,
                _ => name is None,
            },
        ensures
            final(self)@ == keep_cursor(before, old(self)@),
            final(self)@.cursor < rows_of(final(self)@).len(),
    {
        let rows = self.rows();
        let ghost after = self@;
        proof {
            lemma_rows_ok(*self);
        }
        let or: usize = if self.cursor < rows.len() {
            self.cursor
        } else {
            rows.len() - 1
        };
        let mut k: usize = 0;
        while k < rows.len()
            invariant
                k <= rows.len(),
                self@ == after,
                after == old(self)@,
                rows@ == rows_of(after),
                or < rows.len(),
                or == if before.cursor < rows_of(after).len() {
                    before.cursor
                } else {
                    (rows_of(after).len() - 1) as usize
                },
                at == rows_of(before)[before.cursor as int],
                forall|j: int|
                    0 <= j < rows_of(after).len() ==> row_ok(after, #[trigger] rows_of(after)[j]),
                match at {
                    Row::Session(h, i) => name matches Some(s) && s@ == session_at(before, h, i).name,
                    _ => name is None,
                },
                find_row(before, at, after, rows_of(after), 0, or) == find_row(
                    before,
                    at,
                    after,
                    rows_of(after),
                    k as int,
                    or,
                ),
            decreases rows.len() - k,
        {
            let r = rows[k];
            let same = match (at, r) {
                (Row::Session(h, _), Row::Session(g, j)) => {
                    assert(row_ok(after, rows_of(after)[k as int]));
                    let there = self.sessions(g);
                    match &name {
                        Some(n) => h == g && *n == there[j].name,
                        None => false,
                    }
                },
                (Row::Session(_, _), _) => false,
                (_, Row::Session(_, _)) => false,
                _ => at == r,
            };
            if same {
                self.cursor = k;
                assert(rows_of(self@) =~= rows_of(after));
                return;
            }
            k = k + 1;
        }
        self.cursor = or;
        assert(rows_of(self@) =~= rows_of(after));
    }

    /// A host's sessions changed (one was ended): the cursor stays on its
    /// row, or on the row that took its place.
    pub fn set_sessions(&mut self, host: usize, sessions: Vec<StatusInfo>)
        requires
            old(self).wf(),
            host < old(self).hosts.len(),
        ensures
            final(self).wf(),
            final(self)@ == with_answer(
                old(self)@,
                host as int,
                AnswerView::Sessions(infos(sessions@)),
            ),
    {
        self.set_answer(host, Answer::Sessions(sessions));
    }

    /// A host answered (or failed to): its rows come in, the cursor stays on
    /// its row — except on an exit row with nothing above it yet, the first
    /// thing shown while every host is still being asked: then the first rows
    /// to come take the cursor.
    pub fn set_answer(&mut self, host: usize, answer: Answer)
        requires
            old(self).wf(),
            host < old(self).hosts.len(),
        ensures
            final(self).wf(),
            final(self)@ == with_answer(old(self)@, host as int, answer@),
    {
        let rows = self.rows();
        let waiting = self.cursor == 0 && rows[0] == Row::Exit;
        let at = rows[self.cursor];
        proof {
            lemma_rows_ok(*self);
            assert(row_ok(self@, rows_of(self@)[self.cursor as int]));
        }
        let name = self.row_name(at);
        let ghost before = self@;
        let ghost hv = self.hosts@;
        self.hosts[host].answer = answer;
        assert(self@.hosts =~= before.hosts.update(
            host as int,
            HostView { answer: answer@, ..before.hosts[host as int] },
        ));
        self.follow(at, name, Ghost(before));
        if waiting {
            self.cursor = 0;
        }
    }

    /// When [`Menu::tick`] must run: a lone ESC is waiting.
    pub fn deadline(&self) -> (d: Option<u64>)
        requires
            self.wf(),
        ensures
            d == if self@.seq.len() > 0 {
                Some((self@.seq_since + ESC_WAIT_MS) as u64)
            } else {
                None
            },
    {
        if self.seq.len() > 0 {
            Some(self.seq_since + ESC_WAIT_MS)
        } else {
            None
        }
    }

    /// ` on <host>` in a message of the menu of every host; nothing in the
    /// menu of one.
    fn on(&self, host: usize) -> (s: String)
        requires
            host < self.hosts.len(),
        ensures
            s@ == on_host(self@, host),
    {
        if self.every {
            let mut s = " on ".to_owned();
            s.append(self.hosts[host].name.as_str());
            s
        } else {
            String::new()
        }
    }

    /// Enter on `row`, or its number.
    fn enter(&mut self, row: Row) -> (c: Option<Choice>)
        requires
            row_ok(old(self)@, row),
        ensures
            (final(self)@, chosen(c)) == entered(old(self)@, row),
    {
        match row {
            Row::New => Some(Choice::New { host: 0 }),
            Row::Exit => Some(Choice::Leave(0)),
            Row::Session(h, i) => {
                let s = &self.sessions(h)[i];
                assert(s@ == session_at(self@, h, i));
                let attached = s.attached;
                let name = s.name.clone();
                if !attached || self.force {
                    return Some(Choice::Attach { host: h, name, force: attached });
                }
                let mut note = "session '".to_owned();
                note.append(name.as_str());
                note.append("'");
                let on = self.on(h);
                note.append(on.as_str());
                note.append(" is attached from ");
                note.append(s.identity.as_str());
                note.append(" — take over? [y/N]");
                self.note = note;
                self.ask = Some(Ask::Takeover(h, name));
                None
            },
        }
    }

    /// `x` on `row`.
    fn ask_end(&mut self, row: Row)
        requires
            row_ok(old(self)@, row),
        ensures
            final(self)@ == ask_end(old(self)@, row),
    {
        match row {
            Row::Session(h, i) => {
                let s = &self.sessions(h)[i];
                assert(s@ == session_at(self@, h, i));
                let name = s.name.clone();
                let mut note = "end session '".to_owned();
                note.append(name.as_str());
                note.append("'");
                let on = self.on(h);
                note.append(on.as_str());
                if s.attached {
                    note.append(", attached from ");
                    note.append(s.identity.as_str());
                    note.append(",");
                }
                note.append("? y (or x) ends it, any other key keeps it");
                self.note = note;
                self.ask = Some(Ask::Kill(h, name));
                assert(self.note@ =~= ask_end(old(self)@, row).note);
            },
            _ => {
                self.note = "x ends the session under the cursor".to_owned();
            },
        }
    }

    /// `n` on `row`.
    fn make_new(&mut self, row: Row) -> (c: Option<Choice>)
        ensures
            (final(self)@, chosen(c)) == make_new(old(self)@, row),
    {
        if self.every {
            match row {
                Row::Session(h, _) => Some(Choice::New { host: h }),
                _ => {
                    self.note =
                    "n makes a new session on the host of the session under the cursor".to_owned();
                    None
                },
            }
        } else {
            match row {
                Row::Exit => {
                    self.note = "the 'new session' row above makes a new session".to_owned();
                    None
                },
                _ => Some(Choice::New { host: 0 }),
            }
        }
    }

    fn plain_key(&mut self, key: Key) -> (c: Option<Choice>)
        requires
            old(self).wf(),
        ensures
            final(self).wf(),
            (final(self)@, chosen(c)) == plain_key(old(self)@, key),
    {
        let rows = self.rows();
        let ghost before = self@;
        proof {
            lemma_rows_ok(*self);
            assert(row_ok(self@, rows_of(self@)[self.cursor as int]));
        }
        let row = rows[self.cursor];
        match key {
            Key::Up => {
                if self.cursor > 0 {
                    self.cursor = self.cursor - 1;
                }
                assert(rows_of(self@) =~= rows_of(before));
                None
            },
            Key::Down => {
                self.down(rows.len());
                assert(rows_of(self@) =~= rows_of(before));
                None
            },
            Key::Byte(b) => {
                if b == 0x6b {
                    if self.cursor > 0 {
                        self.cursor = self.cursor - 1;
                    }
                    assert(rows_of(self@) =~= rows_of(before));
                    None
                } else if b == 0x6a {
                    self.down(rows.len());
                    assert(rows_of(self@) =~= rows_of(before));
                    None
                } else if b == 0x0d || b == 0x0a {
                    let c = self.enter(row);
                    assert(rows_of(self@) =~= rows_of(before));
                    c
                } else if b >= 0x31 && b <= 0x39 {
                    // Sessions come first, so the n-th row is the n-th session.
                    let n: usize = (b - 0x31) as usize;
                    if n < rows.len() {
                        if let Row::Session(_, _) = rows[n] {
                            assert(row_ok(before, rows_of(before)[n as int]));
                            self.cursor = n;
                            let c = self.enter(rows[n]);
                            assert(rows_of(self@) =~= rows_of(before));
                            return c;
                        }
                    }
                    None
                } else if b == 0x2e {
                    let name = self.row_name(row);
                    self.all = !self.all;
                    self.follow(row, name, Ghost(before));
                    None
                } else if b == 0x78 {
                    self.ask_end(row);
                    assert(rows_of(self@) =~= rows_of(before));
                    None
                } else if b == 0x6e {
                    let c = self.make_new(row);
                    assert(rows_of(self@) =~= rows_of(before));
                    c
                } else {
                    None
                }
            },
            _ => None,
        }
    }

    fn down(&mut self, n: usize)
        requires
            old(self).cursor < n,
        ensures
            final(self)@ == (MenuView {
                cursor: if old(self).cursor + 1 < n {
                    (old(self).cursor + 1) as usize
                } else {
                    (n - 1) as usize
                },
                ..old(self)@
            }),
    {
        if self.cursor < n - 1 {
            self.cursor = self.cursor + 1;
        } else {
            self.cursor = n - 1;
        }
    }

    fn key(&mut self, key: Key) -> (c: Option<Choice>)
        requires
            old(self).wf(),
        ensures
            final(self).wf(),
            (final(self)@, chosen(c)) == pressed(old(self)@, key),
    {
        match key {
            // Esc and Ctrl-C leave at any point, a question pending or not.
            Key::Esc => return Some(Choice::Leave(0)),
            Key::Byte(b) => {
                if b == 3 {
                    return Some(Choice::Leave(130));
                }
            },
            Key::Other => return None,
            _ => {},
        }
        let ghost before = self@;
        self.note = String::new();
        assert(rows_of(self@) =~= rows_of(before));
        let mut ask: Option<Ask> = None;
        std::mem::swap(&mut self.ask, &mut ask);
        assert(rows_of(self@) =~= rows_of(before));
        match ask {
            // Any other key is a no.
            Some(Ask::Kill(host, name)) => match key {
                Key::Byte(b) => {
                    if b == 0x79 || b == 0x59 || b == 0x78 {
                        Some(Choice::Kill { host, name })
                    } else {
                        None
                    }
                },
                _ => None,
            },
            Some(Ask::Takeover(host, name)) => match key {
                Key::Byte(b) => {
                    if b == 0x79 || b == 0x59 {
                        Some(Choice::Attach { host, name, force: true })
                    } else {
                        None
                    }
                },
                _ => None,
            },
            None => self.plain_key(key),
        }
    }

    /// The clock moved on: an ESC nothing followed is the Esc key.
    pub fn tick(&mut self, now: u64) -> (c: Option<Choice>)
        requires
            old(self).wf(),
        ensures
            final(self).wf(),
            (final(self)@, chosen(c)) == ticked(old(self)@, now),
    {
        if self.seq.len() > 0 && now >= self.seq_since + ESC_WAIT_MS {
            let lone = self.seq.len() == 1;
            let ghost before = self@;
            self.seq.clear();
            assert(rows_of(self@) =~= rows_of(before));
            if lone {
                return self.key(Key::Esc);
            }
        }
        None
    }

    fn type_byte(&mut self, b: u8, now: u64) -> (c: Option<Choice>)
        requires
            old(self).wf(),
            now + ESC_WAIT_MS <= u64::MAX,
        ensures
            final(self).wf(),
            (final(self)@, chosen(c)) == typed(old(self)@, b, now),
    {
        if self.seq.len() == 0 && b != 0x1b {
            return self.key(Key::Byte(b));
        }
        let ghost before = self@;
        self.seq.push(b);
        if self.seq.len() == 1 {
            self.seq_since = now;
        }
        assert(rows_of(self@) =~= rows_of(before));
        let k = spell(self.seq.as_slice());
        match k {
            Some(k) => {
                let ghost mid = self@;
                self.seq.clear();
                assert(rows_of(self@) =~= rows_of(mid));
                self.key(k)
            },
            None => None,
        }
    }

    /// Bytes typed. The first choice ends the feed: what follows it was typed
    /// ahead of a screen that is about to go.
    pub fn feed(&mut self, input: &[u8], now: u64) -> (c: Option<Choice>)
        requires
            old(self).wf(),
            now + ESC_WAIT_MS <= u64::MAX,
        ensures
            final(self).wf(),
            (final(self)@, chosen(c)) == typed_all(old(self)@, input@, now),
    {
        let mut i: usize = 0;
        assert(input@.skip(0) =~= input@);
        while i < input.len()
            invariant
                i <= input.len(),
                self.wf(),
                now + ESC_WAIT_MS <= u64::MAX,
                typed_all(self@, input@.skip(i as int), now) == typed_all(
                    old(self)@,
                    input@,
                    now,
                ),
            decreases input.len() - i,
        {
            assert(input@.skip(i as int)[0] == input@[i as int]);
            assert(input@.skip(i as int).skip(1) =~= input@.skip(i + 1));
            let c = self.type_byte(input[i], now);
            if c.is_some() {
                let ghost mid = self@;
                self.seq.clear();
                assert(rows_of(self@) =~= rows_of(mid));
                return c;
            }
            i = i + 1;
        }
        None
    }
}

/// The clock at `now`.
pub open spec fn ticked(m: MenuView, now: u64) -> (MenuView, Option<ChoiceView>) {
    if m.seq.len() > 0 && now >= m.seq_since + ESC_WAIT_MS {
        let n = MenuView { seq: Seq::empty(), ..m };
        if m.seq.len() == 1 {
            pressed(n, Key::Esc)
        } else {
            (n, None)
        }
    } else {
        (m, None)
    }
}

/// The key `seq` spells once it is whole; `None` while more is to come.
fn spell(s: &[u8]) -> (k: Option<Key>)
    ensures
        k == spelled(s@),
{
    let n: usize = s.len();
    if n < 2 {
        return None;
    }
    if s[1] == 0x5b {
        let f = s[n - 1];
        if n > 2 && f >= 0x40 && f <= 0x7e {
            Some(arrow(f))
        } else if n < MAX_SEQ {
            None
        } else {
            Some(Key::Other)
        }
    } else if s[1] == 0x4f {
        if n > 2 {
            Some(arrow(s[2]))
        } else {
            None
        }
    } else {
        Some(Key::Esc)
    }
}

/// The cursor key a final byte stands for.
fn arrow(f: u8) -> (k: Key)
    ensures
        k == arrow_key(f),
{
    if f == 0x41 {
        Key::Up
    } else if f == 0x42 {
        Key::Down
    } else {
        Key::Other
    }
}

} // verus!
