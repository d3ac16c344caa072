//! The per-session master: owns the pty and the child, keeps the output ring,
//! and serves one active client at a time over a unix socket.
//!
//! The loop that accepts, reads, writes and waits stands outside; what each
//! event does to the session is decided here.

pub mod args;
pub mod laws;
pub mod step;

use crate::proto::{
    err, frame, AttachKind, Decoder, Hello, HelloView, Mode, Msg, MsgView, StatusInfo, StatusView,
    Welcome, WelcomeView, WinSize, PROTO_VERSION,
};
use crate::reconnect::{after_heard, later, Liveness};
use crate::resume::{fresh, ring_end, InputDedupe, OutputRing, Read, RingView};
use crate::session::given_view;
use crate::text::{chars_of, dec, decimal, parse_uint, parsed_max, same};
use crate::VERSION;
use vstd::prelude::*;

verus! {

/// Grace between SIGHUP and SIGKILL when a session is killed, in milliseconds.
pub const KILL_GRACE_MS: u64 = 3_000;

/// How long a master without a child waits for somebody to create the session.
pub const ORPHAN_MS: u64 = 30_000;

/// How often the socket path is looked at, unless the environment says otherwise.
pub const REBIND_MS: u64 = 60_000;

/// How often the socket path is looked at, in milliseconds.
pub open spec fn rebind_in(env: Option<Seq<char>>) -> u64 {
    match env {
        Some(v) => match parsed_max(v, u64::MAX as nat) {
            Some(n) => n as u64,
            None => REBIND_MS,
        },
        None => REBIND_MS,
    }
}

/// How often the socket path is looked at, in milliseconds; `env` is
/// `ACS_MASTER_REBIND_MS`.
pub fn rebind_every(env: Option<&str>) -> (ms: u64)
    ensures
        ms == rebind_in(given_view(env)),
{
    match env {
        Some(v) => match parse_uint(&chars_of(v), u64::MAX) {
            Some(n) => n,
            None => REBIND_MS,
        },
        None => REBIND_MS,
    }
}

/// Stop filling a client's buffer beyond this; the rest waits in the ring.
pub const OUT_HIGH_WATER: usize = 65_536;

/// Stop reading a client's input while this much is waiting for the pty.
pub const PTY_IN_HIGH_WATER: usize = 1_048_576;

#[derive(Debug, Clone, Copy, PartialEq, Eq, Structural)]
pub enum ConnState {
    /// Waiting for HELLO or STATUS.
    Pending,
    /// The one attached client; `next` is the next output offset to send.
    Active { next: u64 },
    /// Flush what is queued, then close.
    Closing,
    /// Asked to end the session from outside it: held open, and deaf, until the
    /// master exits, so the asker sees when the session is gone.
    Ending,
}

/// One client's connection.
pub struct Conn {
    /// Which connection this is, for the loop outside.
    pub key: u64,
    pub dec: Decoder,
    pub out: Vec<u8>,
    pub state: ConnState,
    pub identity: String,
    pub since: u64,
    pub dead: bool,
    /// Pings the attached client after silence and gives it up when it stays
    /// silent.
    pub live: Liveness,
}

#[verifier::ext_equal]
pub struct ConnView {
    pub key: u64,
    pub dec: Seq<u8>,
    pub out: Seq<u8>,
    pub state: ConnState,
    pub identity: Seq<char>,
    pub since: u64,
    pub dead: bool,
    pub live: Liveness,
}

impl View for Conn {
    type V = ConnView;

    open spec fn view(&self) -> ConnView {
        ConnView {
            key: self.key,
            dec: self.dec@,
            out: self.out@,
            state: self.state,
            identity: self.identity@,
            since: self.since,
            dead: self.dead,
            live: self.live,
        }
    }
}

/// The session's program.
pub struct Child {
    pub command: String,
    pub status: Option<i32>,
    pub pty_open: bool,
}

#[verifier::ext_equal]
pub struct ChildView {
    pub command: Seq<char>,
    pub status: Option<i32>,
    pub pty_open: bool,
}

impl View for Child {
    type V = ChildView;

    open spec fn view(&self) -> ChildView {
        ChildView { command: self.command@, status: self.status, pty_open: self.pty_open }
    }
}

pub open spec fn child_view(c: Option<Child>) -> Option<ChildView> {
    match c {
        None => None,
        Some(c) => Some(c@),
    }
}

pub open spec fn conn_views(v: Seq<Conn>) -> Seq<ConnView> {
    v.map_values(|c: Conn| c@)
}

/// A session and its clients.
pub struct Master {
    pub session: String,
    pub conns: Vec<Conn>,
    pub child: Option<Child>,
    pub ring: OutputRing,
    pub input: InputDedupe,
    pub pty_in: Vec<u8>,
    /// Input sequence last ACKed to the attached client.
    pub acked: u64,
    pub instance: u64,
    pub created_at: u64,
    pub creator: String,
    pub last_identity: String,
    pub size: WinSize,
    /// When something was last typed or printed, in milliseconds.
    pub last_activity: u64,
    pub kill_deadline: Option<u64>,
    pub next_rebind: u64,
    /// How often the socket path is looked at.
    pub rebind_ms: u64,
    pub born: u64,
    /// What a connection's patience starts from.
    pub patience: Liveness,
}

#[verifier::ext_equal]
pub struct MasterView {
    pub session: Seq<char>,
    pub conns: Seq<ConnView>,
    pub child: Option<ChildView>,
    pub ring: RingView,
    /// The input taken so far.
    pub written: u64,
    pub pty_in: Seq<u8>,
    pub acked: u64,
    pub instance: u64,
    pub created_at: u64,
    pub creator: Seq<char>,
    pub last_identity: Seq<char>,
    pub size: WinSize,
    pub last_activity: u64,
    pub kill_deadline: Option<u64>,
    pub next_rebind: u64,
    pub rebind_ms: u64,
    pub born: u64,
    pub patience: Liveness,
}

impl View for Master {
    type V = MasterView;

    open spec fn view(&self) -> MasterView {
        MasterView {
            session: self.session@,
            conns: conn_views(self.conns@),
            child: child_view(self.child),
            ring: self.ring@,
            written: self.input.written,
            pty_in: self.pty_in@,
            acked: self.acked,
            instance: self.instance,
            created_at: self.created_at,
            creator: self.creator@,
            last_identity: self.last_identity@,
            size: self.size,
            last_activity: self.last_activity,
            kill_deadline: self.kill_deadline,
            next_rebind: self.next_rebind,
            rebind_ms: self.rebind_ms,
            born: self.born,
            patience: self.patience,
        }
    }
}

/// The attached client of a session that is still there.
pub open spec fn attached(c: ConnView) -> bool {
    c.state is Active && !c.dead
}

/// The first attached client at or behind `from`.
pub open spec fn active_from(conns: Seq<ConnView>, from: int) -> Option<int>
    decreases conns.len() - from,
{
    if from < 0 || from >= conns.len() {
        None
    } else if attached(conns[from]) {
        Some(from)
    } else {
        active_from(conns, from + 1)
    }
}

/// The attached client.
pub open spec fn active_of(m: MasterView) -> Option<int> {
    active_from(m.conns, 0)
}

/// What holds of every session: the input still queued for the pty is part of
/// what was taken; there is at most one attached client; and everything it has
/// not been sent is still kept.
pub open spec fn sound(m: MasterView) -> bool {
    &&& m.pty_in.len() <= m.written
    &&& m.ring.bytes.len() <= m.ring.cap
    &&& ring_end(m.ring) <= u64::MAX
    &&& m.child is None ==> m.ring.start == 0
    &&& forall|i: int, j: int|
        0 <= i < m.conns.len() && 0 <= j < m.conns.len() && #[trigger] attached(m.conns[i])
            && #[trigger] attached(m.conns[j]) ==> i == j
    &&& forall|i: int|
        0 <= i < m.conns.len() && #[trigger] attached(m.conns[i]) ==> m.ring.start
            <= m.conns[i].state->next <= ring_end(m.ring)
}

/// A session that has not started.
pub open spec fn unborn(
    session: Seq<char>,
    ring: nat,
    instance: u64,
    rebind_ms: u64,
    patience: Liveness,
    now: u64,
    unix: u64,
) -> MasterView {
    MasterView {
        session,
        conns: Seq::empty(),
        child: None,
        ring: RingView { cap: ring, start: 0, bytes: Seq::empty() },
        written: 0,
        pty_in: Seq::empty(),
        acked: 0,
        instance,
        created_at: unix,
        creator: Seq::empty(),
        last_identity: Seq::empty(),
        size: WinSize { cols: 0, rows: 0, xpixel: 0, ypixel: 0 },
        last_activity: now,
        kill_deadline: None,
        next_rebind: later(now, rebind_ms),
        rebind_ms,
        born: now,
        patience,
    }
}

pub open spec fn has_master_text(session: Seq<char>) -> Seq<char> {
    "session '"@ + session + "' already has a master"@
}

fn has_master(session: &str) -> (s: String)
    ensures
        s@ == has_master_text(session@),
{
    let mut s = "session '".to_owned();
    s.append(session);
    s.append("' already has a master");
    s
}

pub open spec fn with_conn(m: MasterView, i: int, c: ConnView) -> MasterView {
    MasterView { conns: m.conns.update(i, c), ..m }
}

/// A message queued for connection `i`.
pub open spec fn sent(m: MasterView, i: int, msg: MsgView) -> MasterView {
    with_conn(m, i, ConnView { out: m.conns[i].out + frame(msg), ..m.conns[i] })
}

pub open spec fn in_state(m: MasterView, i: int, state: ConnState) -> MasterView {
    with_conn(m, i, ConnView { state, ..m.conns[i] })
}

/// Connection `i` is told why, and closed once it has been.
pub open spec fn rejected(m: MasterView, i: int, code: u16, message: Seq<char>) -> MasterView {
    in_state(sent(m, i, MsgView::Error { code, message }), i, ConnState::Closing)
}

/// What the loop has to do after an event.
pub enum Todo {
    /// Nothing more.
    Nothing,
    /// Set the pty's size.
    SetSize(WinSize),
    /// Tell the program to redraw.
    Redraw,
    /// Start the session's program, then go on with [`Master::started`] or
    /// [`Master::not_started`].
    StartChild(Hello),
    /// Hang up the session's program.
    HangUp,
    /// There is no program: leave.
    Leave,
}

pub enum TodoView {
    Nothing,
    SetSize(WinSize),
    Redraw,
    StartChild(HelloView),
    HangUp,
    Leave,
}

impl View for Todo {
    type V = TodoView;

    open spec fn view(&self) -> TodoView {
        match *self {
            Todo::Nothing => TodoView::Nothing,
            Todo::SetSize(s) => TodoView::SetSize(s),
            Todo::Redraw => TodoView::Redraw,
            Todo::StartChild(h) => TodoView::StartChild(h@),
            Todo::HangUp => TodoView::HangUp,
            Todo::Leave => TodoView::Leave,
        }
    }
}

/// Why a client of another protocol is refused.
pub open spec fn mismatch_text(session: Seq<char>, theirs: u16) -> Seq<char> {
    "session '"@ + session + "' runs acs protocol "@ + dec(PROTO_VERSION as nat)
        + " but the client speaks "@ + dec(theirs as nat)
        + " — finish or kill the session with the matching acs version"@
}

fn mismatch(session: &str, theirs: u16) -> (s: String)
    ensures
        s@ == mismatch_text(session@, theirs),
{
    let mut s = "session '".to_owned();
    s.append(session);
    s.append("' runs acs protocol ");
    s.append(&decimal(PROTO_VERSION as u64));
    s.append(" but the client speaks ");
    s.append(&decimal(theirs as u64));
    s.append(" — finish or kill the session with the matching acs version");
    s
}

pub open spec fn not_this_text(ours: Seq<char>, theirs: Seq<char>) -> Seq<char> {
    "this is session '"@ + ours + "', not '"@ + theirs + "'"@
}

fn not_this(ours: &str, theirs: &str) -> (s: String)
    ensures
        s@ == not_this_text(ours@, theirs@),
{
    let mut s = "this is session '".to_owned();
    s.append(ours);
    s.append("', not '");
    s.append(theirs);
    s.append("'");
    s
}

pub open spec fn no_session_text(session: Seq<char>) -> Seq<char> {
    "no session '"@ + session + "'"@
}

fn no_session(session: &str) -> (s: String)
    ensures
        s@ == no_session_text(session@),
{
    let mut s = "no session '".to_owned();
    s.append(session);
    s.append("'");
    s
}

pub open spec fn already_text(session: Seq<char>) -> Seq<char> {
    "session '"@ + session + "' already exists"@
}

fn already(session: &str) -> (s: String)
    ensures
        s@ == already_text(session@),
{
    let mut s = "session '".to_owned();
    s.append(session);
    s.append("' already exists");
    s
}

pub open spec fn not_started_text(e: Seq<char>) -> Seq<char> {
    "cannot start the session: "@ + e
}

fn not_started(e: &str) -> (s: String)
    ensures
        s@ == not_started_text(e@),
{
    let mut s = "cannot start the session: ".to_owned();
    s.append(e);
    s
}

// ---- what each event does --------------------------------------------------

pub open spec fn soon(now: u64, ms: u64) -> u64 {
    if now + ms > u64::MAX {
        u64::MAX
    } else {
        (now + ms) as u64
    }
}

/// A new size: set where it is one and not the one it has; else a redraw, where
/// one is wanted.
pub open spec fn resized(m: MasterView, s: WinSize, redraw: bool) -> (MasterView, TodoView) {
    if m.child is None {
        (m, TodoView::Nothing)
    } else if s.cols > 0 && s.rows > 0 && s != m.size {
        (MasterView { size: s, ..m }, TodoView::SetSize(s))
    } else if redraw {
        (m, TodoView::Redraw)
    } else {
        (m, TodoView::Nothing)
    }
}

/// The session is to end: its program is hung up, and has a grace.
pub open spec fn killing(m: MasterView, now: u64) -> (MasterView, TodoView) {
    match m.child {
        None => (m, TodoView::Leave),
        Some(c) => if c.status is Some {
            (m, TodoView::Nothing)
        } else {
            (
                MasterView { kill_deadline: Some(soon(now, KILL_GRACE_MS)), ..m },
                TodoView::HangUp,
            )
        },
    }
}

/// Another identity is attached, and `force` was not given: what is sent to say
/// so.
pub open spec fn busy_with(m: MasterView, identity: Seq<char>, force: bool) -> Option<MsgView> {
    match active_of(m) {
        None => None,
        Some(a) => {
            let other = m.conns[a];
            if !force && other.identity.len() > 0 && other.identity != identity {
                Some(MsgView::Busy { identity: other.identity, since: other.since })
            } else {
                None
            }
        },
    }
}

/// A KILL from outside the session: held to the rule a takeover is held to.
pub open spec fn kill_asked(
    m: MasterView,
    i: int,
    identity: Seq<char>,
    force: bool,
    now: u64,
) -> (MasterView, TodoView) {
    match busy_with(m, identity, force) {
        Some(busy) => (sent(m, i, busy), TodoView::Nothing),
        None => killing(in_state(m, i, ConnState::Ending), now),
    }
}

/// Where a client's output goes on, and how.
pub open spec fn resume_at(m: MasterView, h: HelloView, created: bool) -> (u64, AttachKind) {
    let (next, kind) = match h.resume {
        Some(r) if r.instance == m.instance => if m.ring.start <= r.offset <= ring_end(m.ring) {
            (r.offset, AttachKind::Resumed)
        } else {
            (ring_end(m.ring) as u64, AttachKind::Gap)
        },
        _ => (ring_end(m.ring) as u64, AttachKind::Fresh),
    };
    (
        if created {
            0
        } else {
            next
        },
        kind,
    )
}

/// Input bytes the pty has taken.
pub open spec fn to_pty(m: MasterView) -> u64 {
    (m.written - m.pty_in.len()) as u64
}

/// Client `i` is attached.
pub open spec fn attach(m: MasterView, i: int, h: HelloView, created: bool, unix: u64, now: u64) -> (
    MasterView,
    TodoView,
) {
    let (next, kind) = resume_at(m, h, created);
    let c = ConnView {
        identity: h.identity,
        since: unix,
        state: ConnState::Active { next },
        live: after_heard(Liveness { nonce: 0, question: None, ..m.patience }, now),
        out: m.conns[i].out + frame(
            MsgView::Welcome(
                WelcomeView {
                    proto: PROTO_VERSION,
                    session: m.session,
                    instance: m.instance,
                    offset: next,
                    created,
                    kind,
                    input_seq: to_pty(m),
                },
            ),
        ),
        ..m.conns[i]
    };
    let m1 = MasterView {
        creator: if created {
            h.identity
        } else {
            m.creator
        },
        last_identity: h.identity,
        last_activity: now,
        ..with_conn(m, i, c)
    };
    resized(m1, h.size, !created && !(kind is Resumed))
}

/// The attached client makes way for another.
pub open spec fn displaced(m: MasterView) -> MasterView {
    match active_of(m) {
        None => m,
        Some(a) => in_state(sent(m, a, MsgView::Takeover), a, ConnState::Closing),
    }
}

/// A HELLO: refused where the protocol, the session or the mode does not fit;
/// answered BUSY where another identity is attached; else attached, once the
/// session's program runs.
#[verifier::opaque]
pub open spec fn greeted(m: MasterView, i: int, h: HelloView, unix: u64, now: u64) -> (
    MasterView,
    TodoView,
) {
    if h.proto != PROTO_VERSION {
        (rejected(m, i, err::PROTO_MISMATCH, mismatch_text(m.session, h.proto)), TodoView::Nothing)
    } else if h.session != m.session {
        (rejected(m, i, err::BAD_REQUEST, not_this_text(m.session, h.session)), TodoView::Nothing)
    } else if h.mode is Attach && m.child is None {
        (rejected(m, i, err::NO_SESSION, no_session_text(m.session)), TodoView::Nothing)
    } else if h.mode is Create && m.child is Some {
        (rejected(m, i, err::EXISTS, already_text(m.session)), TodoView::Nothing)
    } else {
        match busy_with(m, h.identity, h.force) {
            Some(busy) => (sent(m, i, busy), TodoView::Nothing),
            None => {
                let m1 = displaced(m);
                if m.child is None {
                    (m1, TodoView::StartChild(h))
                } else {
                    attach(m1, i, h, false, unix, now)
                }
            },
        }
    }
}

/// The session's program runs, and client `i` is attached to it.
pub open spec fn begun(
    m: MasterView,
    i: int,
    h: HelloView,
    command: Seq<char>,
    t: Moment,
) -> (MasterView, TodoView) {
    let child = ChildView { command, status: None, pty_open: true };
    attach(
        MasterView {
            child: Some(child),
            size: if h.size.cols > 0 && h.size.rows > 0 {
                h.size
            } else {
                m.size
            },
            ..m
        },
        i,
        h,
        true,
        t.unix,
        t.now,
    )
}

/// Input: the new bytes of it are queued for the pty.
pub open spec fn input_taken(m: MasterView, i: int, seq: u64, bytes: Seq<u8>, now: u64) -> MasterView {
    match fresh(m.written, seq, bytes) {
        None => rejected(m, i, err::BAD_REQUEST, "input sequence out of range"@),
        Some(new) => MasterView {
            written: if seq + bytes.len() > m.written {
                (seq + bytes.len()) as u64
            } else {
                m.written
            },
            pty_in: m.pty_in + new,
            last_activity: if new.len() > 0 {
                now
            } else {
                m.last_activity
            },
            ..m
        },
    }
}

/// A session's state as it is told.
pub open spec fn status_of(m: MasterView, pid: u32, now: u64) -> StatusView {
    StatusView {
        name: m.session,
        attached: active_of(m) is Some,
        identity: match active_of(m) {
            Some(a) => m.conns[a].identity,
            None => m.last_identity,
        },
        creator: m.creator,
        created_at: m.created_at,
        idle_secs: if now > m.last_activity {
            ((now - m.last_activity) / 1000) as u64
        } else {
            0
        },
        command: match m.child {
            Some(c) => c.command,
            None => Seq::empty(),
        },
        size: m.size,
        version: VERSION@,
        pid,
    }
}

/// The time, and who we are.
#[derive(Clone, Copy)]
pub struct Moment {
    /// Milliseconds of a clock that only runs forward.
    pub now: u64,
    /// Seconds since 1970.
    pub unix: u64,
    pub pid: u32,
}

/// A message of a client that is not attached yet.
pub open spec fn pending_msg(m: MasterView, i: int, msg: MsgView, t: Moment) -> (
    MasterView,
    TodoView,
) {
    match msg {
        MsgView::Hello(h) => greeted(m, i, h, t.unix, t.now),
        MsgView::Status => (
            in_state(
                sent(m, i, MsgView::StatusReply(status_of(m, t.pid, t.now))),
                i,
                ConnState::Closing,
            ),
            TodoView::Nothing,
        ),
        MsgView::Kill => kill_asked(m, i, Seq::empty(), false, t.now),
        _ => (rejected(m, i, err::BAD_REQUEST, "expected HELLO"@), TodoView::Nothing),
    }
}

/// A message of the attached client.
pub open spec fn active_msg(m: MasterView, i: int, msg: MsgView, t: Moment) -> (
    MasterView,
    TodoView,
) {
    match msg {
        MsgView::Input { seq, bytes } => (input_taken(m, i, seq, bytes, t.now), TodoView::Nothing),
        MsgView::Resize(s) => resized(m, s, false),
        MsgView::Ping(n) => (sent(m, i, MsgView::Pong(n)), TodoView::Nothing),
        MsgView::Detach => (in_state(m, i, ConnState::Closing), TodoView::Nothing),
        MsgView::Kill => killing(m, t.now),
        _ => (m, TodoView::Nothing),
    }
}

/// What a message does.
pub open spec fn handled(m: MasterView, i: int, msg: MsgView, t: Moment) -> (MasterView, TodoView) {
    if m.conns[i].state is Pending {
        pending_msg(m, i, msg, t)
    } else {
        active_msg(m, i, msg, t)
    }
}

impl Master {
    pub open spec fn wf(&self) -> bool {
        &&& self.ring.wf()
        &&& sound(self@)
        &&& forall|i: int| 0 <= i < self.conns@.len() ==> (#[trigger] self.conns@[i]).dec.wf()
    }

    /// The master of a session that has not started, once its socket is its own.
    /// `taken` says that another master listens on the socket; `instance` is a random
    /// number that tells this session from an earlier one of its name.
    pub fn bind(
        session: String,
        taken: bool,
        ring: usize,
        instance: u64,
        rebind_ms: u64,
        patience: Liveness,
        now: u64,
        unix: u64,
    ) -> (r: Result<Master, String>)
        ensures
            match r {
                Ok(m) => !taken && m.wf() && m@ == unborn(
                    session@,
                    ring as nat,
                    instance,
                    rebind_ms,
                    patience,
                    now,
                    unix,
                ),
                Err(e) => taken && e@ == has_master_text(session@),
            },
    {
        if taken {
            return Err(has_master(&session));
        }
        let m = Master {
            session,
            conns: Vec::new(),
            child: None,
            ring: OutputRing::new(ring),
            input: InputDedupe::default(),
            pty_in: Vec::new(),
            acked: 0,
            instance,
            created_at: unix,
            creator: String::new(),
            last_identity: String::new(),
            size: WinSize { cols: 0, rows: 0, xpixel: 0, ypixel: 0 },
            last_activity: now,
            kill_deadline: None,
            next_rebind: now.saturating_add(rebind_ms),
            rebind_ms,
            born: now,
            patience,
        };
        proof {
            assert(m@.conns =~= Seq::empty());
            assert(m@.creator =~= Seq::empty());
            assert(m@.last_identity =~= Seq::empty());
            assert(m@.pty_in =~= Seq::empty());
        }
        Ok(m)
    }

    /// The attached client.
    pub fn active(&self) -> (r: Option<usize>)
        ensures
            match r {
                None => active_of(self@) is None,
                Some(i) => active_of(self@) == Some(i as int) && i < self@.conns.len()
                    && attached(self@.conns[i as int]),
            },
    {
        let mut i: usize = 0;
        while i < self.conns.len()
            invariant
                i <= self.conns.len(),
                active_of(self@) == active_from(self@.conns, i as int),
            decreases self.conns.len() - i,
        {
            assert(self@.conns[i as int] == self.conns@[i as int]@);
            let active = match self.conns[i].state {
                ConnState::Active { .. } => true,
                _ => false,
            };
            if active && !self.conns[i].dead {
                return Some(i);
            }
            i = i + 1;
        }
        None
    }

    pub(crate) fn send(&mut self, i: usize, m: &Msg)
        requires
            old(self).wf(),
            i < old(self)@.conns.len(),
        ensures
            final(self).wf(),
            final(self)@ == sent(old(self)@, i as int, m@),
    {
        let ghost before = *self;
        m.encode(&mut self.conns[i].out);
        proof {
            assert(self@.conns =~= sent(before@, i as int, m@).conns);
            lemma_out_is_sound(before@, i as int, self@.conns[i as int]);
        }
    }

    pub(crate) fn set_state(&mut self, i: usize, state: ConnState)
        requires
            old(self).wf(),
            i < old(self)@.conns.len(),
            !(state is Active),
        ensures
            final(self).wf(),
            final(self)@ == in_state(old(self)@, i as int, state),
    {
        let ghost before = *self;
        self.conns[i].state = state;
        proof {
            assert(self@.conns =~= in_state(before@, i as int, state).conns);
            lemma_inactive_is_sound(before@, i as int, self@.conns[i as int]);
        }
    }

    pub(crate) fn reject(&mut self, i: usize, code: u16, message: String)
        requires
            old(self).wf(),
            i < old(self)@.conns.len(),
        ensures
            final(self).wf(),
            final(self)@ == rejected(old(self)@, i as int, code, message@),
    {
        self.send(i, &Msg::Error { code, message });
        self.set_state(i, ConnState::Closing);
    }

    fn resize(&mut self, s: WinSize, redraw: bool) -> (t: Todo)
        requires
            old(self).wf(),
        ensures
            final(self).wf(),
            (final(self)@, t@) == resized(old(self)@, s, redraw),
    {
        if self.child.is_none() {
            Todo::Nothing
        } else if s.cols > 0 && s.rows > 0 && s != self.size {
            self.size = s;
            Todo::SetSize(s)
        } else if redraw {
            Todo::Redraw
        } else {
            Todo::Nothing
        }
    }

    /// The session is to end.
    pub fn start_kill(&mut self, now: u64) -> (t: Todo)
        requires
            old(self).wf(),
        ensures
            final(self).wf(),
            (final(self)@, t@) == killing(old(self)@, now),
    {
        match &self.child {
            None => Todo::Leave,
            Some(c) => {
                if c.status.is_some() {
                    Todo::Nothing
                } else {
                    self.kill_deadline = Some(now.saturating_add(KILL_GRACE_MS));
                    Todo::HangUp
                }
            },
        }
    }

    fn busy(&self, identity: &str, force: bool) -> (r: Option<Msg>)
        ensures
            match r {
                None => busy_with(self@, identity@, force) is None,
                Some(m) => busy_with(self@, identity@, force) == Some(m@),
            },
    {
        match self.active() {
            None => None,
            Some(a) => {
                let other = &self.conns[a];
                assert(self@.conns[a as int] == other@);
                if !force && !other.identity.as_str().is_empty() && !same(&other.identity, identity) {
                    Some(Msg::Busy { identity: other.identity.clone(), since: other.since })
                } else {
                    None
                }
            },
        }
    }

    /// A KILL from outside the session, by `identity`. Where another identity is
    /// attached, the asker stays pending: they may agree and retry.
    pub fn kill(&mut self, i: usize, identity: &str, force: bool, now: u64) -> (t: Todo)
        requires
            old(self).wf(),
            i < old(self)@.conns.len(),
        ensures
            final(self).wf(),
            (final(self)@, t@) == kill_asked(old(self)@, i as int, identity@, force, now),
    {
        match self.busy(identity, force) {
            Some(m) => {
                self.send(i, &m);
                Todo::Nothing
            },
            None => {
                self.set_state(i, ConnState::Ending);
                self.start_kill(now)
            },
        }
    }

    /// Input bytes the pty has taken: what was accepted, less what is still
    /// queued for it. This, not what was accepted, is what a client may forget.
    pub fn written_to_pty(&self) -> (n: u64)
        requires
            self.wf(),
        ensures
            n == to_pty(self@),
    {
        self.input.written() - self.pty_in.len() as u64
    }

    fn resume_point(&self, h: &Hello, created: bool) -> (r: (u64, AttachKind))
        requires
            self.wf(),
        ensures
            r == resume_at(self@, h@, created),
    {
        let end = self.ring.end();
        let (next, kind) = match h.resume {
            Some(r) => if r.instance == self.instance {
                match self.ring.read_from(r.offset, 0) {
                    Read::Data(_) => (r.offset, AttachKind::Resumed),
                    _ => (end, AttachKind::Gap),
                }
            } else {
                (end, AttachKind::Fresh)
            },
            None => (end, AttachKind::Fresh),
        };
        (if created {
            0
        } else {
            next
        }, kind)
    }

    fn attach(&mut self, i: usize, h: &Hello, created: bool, unix: u64, now: u64) -> (t: Todo)
        requires
            old(self).wf(),
            i < old(self)@.conns.len(),
            active_of(old(self)@) is None,
            created ==> old(self)@.ring.start == 0,
        ensures
            final(self).wf(),
            (final(self)@, t@) == attach(old(self)@, i as int, h@, created, unix, now),
    {
        let ghost before = *self;
        let (next, kind) = self.resume_point(h, created);
        let input_seq = self.written_to_pty();
        let welcome = Msg::Welcome(
            Welcome {
                proto: PROTO_VERSION,
                session: self.session.clone(),
                instance: self.instance,
                offset: next,
                created,
                kind,
                input_seq,
            },
        );
        let live = Liveness {
            nonce: 0,
            question: None,
            heard: now,
            pinged: None,
            ..self.patience
        };
        self.conns[i].identity = h.identity.clone();
        self.conns[i].since = unix;
        self.conns[i].live = live;
        self.conns[i].state = ConnState::Active { next };
        welcome.encode(&mut self.conns[i].out);
        if created {
            self.creator = h.identity.clone();
        }
        self.last_identity = h.identity.clone();
        self.last_activity = now;
        proof {
            lemma_none_active(before@);
            let w = self@;
            assert forall|k: int| 0 <= k < w.conns.len() && k != i implies !attached(
                #[trigger] w.conns[k],
            ) by {
                assert(w.conns[k] == before@.conns[k]);
            }
            let c = w.conns[i as int];
            assert(w.conns =~= before@.conns.update(i as int, c));
            assert(sound(w));
        }
        let redraw = !created && kind != AttachKind::Resumed;
        self.resize(h.size, redraw)
    }

    fn displace(&mut self)
        requires
            old(self).wf(),
        ensures
            final(self).wf(),
            final(self)@ == displaced(old(self)@),
            active_of(final(self)@) is None,
            final(self)@.conns.len() == old(self)@.conns.len(),
    {
        let ghost before = self@;
        if let Some(a) = self.active() {
            self.send(a, &Msg::Takeover);
            self.set_state(a, ConnState::Closing);
            proof {
                lemma_only_active(before, a as int);
                let w = self@;
                assert forall|k: int| 0 <= k < w.conns.len() implies !attached(
                    #[trigger] w.conns[k],
                ) by {
                    if k != a {
                        assert(w.conns[k] == before.conns[k]);
                    }
                }
                lemma_no_active(w, 0);
            }
        }
    }

    fn hello(&mut self, i: usize, h: Hello, unix: u64, now: u64) -> (t: Todo)
        requires
            old(self).wf(),
            i < old(self)@.conns.len(),
        ensures
            final(self).wf(),
            (final(self)@, t@) == greeted(old(self)@, i as int, h@, unix, now),
    {
        reveal(greeted);
        if h.proto != PROTO_VERSION {
            let msg = mismatch(&self.session, h.proto);
            self.reject(i, err::PROTO_MISMATCH, msg);
            return Todo::Nothing;
        }
        if !same(&h.session, &self.session) {
            let msg = not_this(&self.session, &h.session);
            self.reject(i, err::BAD_REQUEST, msg);
            return Todo::Nothing;
        }
        let there = self.child.is_some();
        if h.mode == Mode::Attach && !there {
            let msg = no_session(&self.session);
            self.reject(i, err::NO_SESSION, msg);
            return Todo::Nothing;
        }
        if h.mode == Mode::Create && there {
            let msg = already(&self.session);
            self.reject(i, err::EXISTS, msg);
            return Todo::Nothing;
        }
        if let Some(busy) = self.busy(&h.identity, h.force) {
            self.send(i, &busy);
            return Todo::Nothing;
        }
        self.displace();
        if !there {
            return Todo::StartChild(h);
        }
        self.attach(i, &h, false, unix, now)
    }

    /// The session's program runs as `command`: client `i` is attached to it.
    /// The pty starts with the size its HELLO carries, where it carries one.
    pub fn started(&mut self, i: usize, h: &Hello, command: String, t: Moment) -> (todo:
        Todo)
        requires
            old(self).wf(),
            i < old(self)@.conns.len(),
            active_of(old(self)@) is None,
            old(self)@.child is None,
        ensures
            final(self).wf(),
            (final(self)@, todo@) == begun(old(self)@, i as int, h@, command@, t),
    {
        self.child = Some(Child { command, status: None, pty_open: true });
        if h.size.cols > 0 && h.size.rows > 0 {
            self.size = h.size;
        }
        self.attach(i, h, true, t.unix, t.now)
    }

    /// The session's program could not be started.
    pub fn not_started(&mut self, i: usize, e: &str)
        requires
            old(self).wf(),
            i < old(self)@.conns.len(),
        ensures
            final(self).wf(),
            final(self)@ == rejected(
                old(self)@,
                i as int,
                err::INTERNAL,
                not_started_text(e@),
            ),
    {
        self.reject(i, err::INTERNAL, not_started(e));
    }

    /// The session's state.
    pub fn status(&self, t: Moment) -> (s: StatusInfo)
        ensures
            s@ == status_of(self@, t.pid, t.now),
    {
        let attached = self.active();
        let identity = match attached {
            Some(a) => {
                assert(self@.conns[a as int] == self.conns@[a as int]@);
                self.conns[a].identity.clone()
            },
            None => self.last_identity.clone(),
        };
        let command = match &self.child {
            Some(c) => c.command.clone(),
            None => {
                let s = String::new();
                assert(s@ =~= Seq::empty());
                s
            },
        };
        StatusInfo {
            name: self.session.clone(),
            attached: attached.is_some(),
            identity,
            creator: self.creator.clone(),
            created_at: self.created_at,
            idle_secs: if t.now > self.last_activity {
                (t.now - self.last_activity) / 1000
            } else {
                0
            },
            command,
            size: self.size,
            version: VERSION.to_owned(),
            pid: t.pid,
        }
    }

    fn take_input(&mut self, i: usize, seq: u64, bytes: &[u8], now: u64)
        requires
            old(self).wf(),
            i < old(self)@.conns.len(),
        ensures
            final(self).wf(),
            final(self)@ == input_taken(old(self)@, i as int, seq, bytes@, now),
    {
        match self.input.accept(seq, bytes) {
            None => {
                self.reject(i, err::BAD_REQUEST, "input sequence out of range".to_owned());
            },
            Some(new) => {
                let ghost before = self.pty_in@;
                if new.len() > 0 {
                    self.pty_in.extend_from_slice(&new);
                    self.last_activity = now;
                }
                assert(self.pty_in@ =~= before + new@);
            },
        }
    }

    /// A message of connection `i`.
    pub fn handle(&mut self, i: usize, msg: Msg, t: Moment) -> (todo: Todo)
        requires
            old(self).wf(),
            i < old(self)@.conns.len(),
        ensures
            final(self).wf(),
            (final(self)@, todo@) == handled(old(self)@, i as int, msg@, t),
    {
        assert(self@.conns[i as int] == self.conns@[i as int]@);
        if self.conns[i].state == ConnState::Pending {
            match msg {
                Msg::Hello(h) => self.hello(i, h, t.unix, t.now),
                Msg::Status => {
                    let info = self.status(t);
                    self.send(i, &Msg::StatusReply(info));
                    self.set_state(i, ConnState::Closing);
                    Todo::Nothing
                },
                Msg::Kill => {
                    assert(""@ =~= Seq::<char>::empty()) by {
                        reveal_strlit("");
                    }
                    self.kill(i, "", false, t.now)
                },
                _ => {
                    self.reject(i, err::BAD_REQUEST, "expected HELLO".to_owned());
                    Todo::Nothing
                },
            }
        } else {
            match msg {
                Msg::Input { seq, bytes } => {
                    self.take_input(i, seq, &bytes, t.now);
                    Todo::Nothing
                },
                Msg::Resize(s) => self.resize(s, false),
                Msg::Ping(n) => {
                    self.send(i, &Msg::Pong(n));
                    Todo::Nothing
                },
                Msg::Detach => {
                    self.set_state(i, ConnState::Closing);
                    Todo::Nothing
                },
                Msg::Kill => self.start_kill(t.now),
                _ => Todo::Nothing,
            }
        }
    }
}

/// Nothing but what is queued for a connection has changed.
pub proof fn lemma_out_is_sound(m: MasterView, i: int, c: ConnView)
    requires
        sound(m),
        0 <= i < m.conns.len(),
        c.state == m.conns[i].state,
        c.dead == m.conns[i].dead,
    ensures
        sound(with_conn(m, i, c)),
{
    let w = with_conn(m, i, c);
    assert forall|k: int| 0 <= k < w.conns.len() implies #[trigger] attached(w.conns[k]) == attached(
        m.conns[k],
    ) by {}
    assert forall|a: int, b: int|
        0 <= a < w.conns.len() && 0 <= b < w.conns.len() && #[trigger] attached(w.conns[a])
            && #[trigger] attached(w.conns[b]) implies a == b by {
        assert(attached(m.conns[a]) && attached(m.conns[b]));
    }
}

/// A connection that is not attached breaks nothing.
pub proof fn lemma_inactive_is_sound(m: MasterView, i: int, c: ConnView)
    requires
        sound(m),
        0 <= i < m.conns.len(),
        !attached(c),
    ensures
        sound(with_conn(m, i, c)),
{
    let w = with_conn(m, i, c);
    assert forall|k: int| 0 <= k < w.conns.len() && #[trigger] attached(w.conns[k]) implies attached(
        m.conns[k],
    ) && k != i by {}
    assert forall|a: int, b: int|
        0 <= a < w.conns.len() && 0 <= b < w.conns.len() && #[trigger] attached(w.conns[a])
            && #[trigger] attached(w.conns[b]) implies a == b by {
        assert(attached(m.conns[a]) && attached(m.conns[b]));
    }
}


proof fn lemma_active_from(m: MasterView, from: int)
    requires
        0 <= from,
    ensures
        match active_from(m.conns, from) {
            None => forall|k: int| from <= k < m.conns.len() ==> !attached(#[trigger] m.conns[k]),
            Some(a) => from <= a < m.conns.len() && attached(m.conns[a]),
        },
    decreases m.conns.len() - from,
{
    if from < m.conns.len() && !attached(m.conns[from]) {
        lemma_active_from(m, from + 1);
    }
}

/// Nobody is attached.
pub proof fn lemma_none_active(m: MasterView)
    requires
        active_of(m) is None,
    ensures
        forall|k: int| 0 <= k < m.conns.len() ==> !attached(#[trigger] m.conns[k]),
{
    lemma_active_from(m, 0);
}

/// The one that is found is attached.
pub proof fn lemma_active_is(m: MasterView)
    ensures
        active_of(m) is Some ==> 0 <= active_of(m)->0 < m.conns.len() && attached(
            m.conns[active_of(m)->0],
        ),
{
    lemma_active_from(m, 0);
}

/// Where nobody is attached, nobody is found.
pub proof fn lemma_no_active(m: MasterView, from: int)
    requires
        0 <= from,
        forall|k: int| from <= k < m.conns.len() ==> !attached(#[trigger] m.conns[k]),
    ensures
        active_from(m.conns, from) is None,
    decreases m.conns.len() - from,
{
    if from < m.conns.len() {
        assert(!attached(m.conns[from]));
        lemma_no_active(m, from + 1);
    }
}

/// The attached client is the only one.
pub proof fn lemma_only_active(m: MasterView, a: int)
    requires
        sound(m),
        0 <= a < m.conns.len(),
        attached(m.conns[a]),
    ensures
        forall|k: int| 0 <= k < m.conns.len() && k != a ==> !attached(#[trigger] m.conns[k]),
{
    assert(attached(m.conns[a]));
}

} // verus!
