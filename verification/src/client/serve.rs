//! One link, served: the handshake, then relaying until something ends it.
//!
//! The loop that reads, writes and waits stands outside; what each event does
//! to the link, to the session's state and to the terminal is decided here.

pub mod laws;

use crate::client::code;
use crate::client::connect::{no_answer_from, no_answer_from_text};
use crate::client::notes::{hold_until, noted, with_out, TermView, Terminal};
use crate::client::state::{
    input_frames, leave, left, output_written, put_input, queue_frames, queue_input, queued,
    write_output, State, StateView, CTRL_L,
};
use crate::keys::{deadline_of, open_after, PasteTracker};
use crate::modes::{clean, interruption, resets, start, ModesView};
use crate::proto::{
    err, frame, next_frame, AttachKind, Decoder, Hello, HelloView, Msg, MsgView, Next, Welcome,
    WelcomeView, WinSize,
};
use crate::reconnect::{
    after_heard, after_netcheck, after_pong, after_tick, next_look, Health, Liveness,
};
use crate::resume::{acked, around, rebased};
use crate::text::sub_vec;
use vstd::prelude::*;

verus! {

/// Why a link ended, so far as this side can tell. It decides whether the
/// connection the link ran on is still worth anything, and so whether the
/// redial ends the master that link was a channel on.
#[derive(Debug, Clone, Copy, PartialEq, Eq, Structural)]
pub enum LinkEnd {
    /// The transport is gone: end of stream on its pipes, a write to it that
    /// failed, or the poll watching them failing.
    Transport,
    /// Nothing came back in time. The transport is still running and the host
    /// is not answering.
    Silent,
    /// Bytes arrived on the link and ended it: a frame this client could not
    /// decode. The connection carried those bytes a moment ago, so it is up.
    Channel,
}

impl LinkEnd {
    /// Whether the evidence says the connection failed rather than only this
    /// channel on it.
    pub fn failed_the_connection(self) -> (r: bool)
        ensures
            r == !(self is Channel),
    {
        match self {
            LinkEnd::Transport | LinkEnd::Silent => true,
            LinkEnd::Channel => false,
        }
    }
}

/// How serving a link ended.
#[derive(Debug, Clone, Copy, PartialEq, Eq, Structural)]
pub enum Outcome {
    /// Leave with this exit code.
    Exit(u8),
    /// The link died, and how; the session may still be there.
    LinkLost(LinkEnd),
}

/// What the loop has to do after a message.
pub enum Turn {
    /// Nothing more.
    On,
    /// The session is ours: take the terminal, then go on with
    /// [`Relay::welcomed`] or [`Relay::no_terminal`].
    Raw(Welcome),
    /// Somebody else is attached: ask whether to take the session over, then go
    /// on with [`Relay::taken_over`].
    Ask { identity: String, since: u64 },
    /// A message that means nothing here.
    Ignored,
    /// The link is done with.
    Over(Outcome),
}

pub enum TurnView {
    On,
    Raw(WelcomeView),
    Ask { identity: Seq<char>, since: u64 },
    Ignored,
    Over(Outcome),
}

impl View for Turn {
    type V = TurnView;

    open spec fn view(&self) -> TurnView {
        match *self {
            Turn::On => TurnView::On,
            Turn::Raw(w) => TurnView::Raw(w@),
            Turn::Ask { identity, since } => TurnView::Ask { identity: identity@, since },
            Turn::Ignored => TurnView::Ignored,
            Turn::Over(o) => TurnView::Over(o),
        }
    }
}

/// One link to the remote.
pub struct Relay {
    pub dec: Decoder,
    /// Frames for the host that have not been written yet.
    pub out: Vec<u8>,
    pub welcomed: bool,
    /// The user asked to end the session: nothing more is read from them.
    pub exiting: bool,
    /// The host has until then to WELCOME us.
    pub handshake_until: u64,
    pub handshake_ms: u64,
    pub live: Liveness,
    /// The terminal size that the HELLO, or the last RESIZE, carried.
    pub sent_size: WinSize,
}

#[verifier::ext_equal]
pub struct RelayView {
    pub dec: Seq<u8>,
    pub out: Seq<u8>,
    pub welcomed: bool,
    pub exiting: bool,
    pub handshake_until: u64,
    pub handshake_ms: u64,
    pub live: Liveness,
    pub sent_size: WinSize,
}

impl View for Relay {
    type V = RelayView;

    open spec fn view(&self) -> RelayView {
        RelayView {
            dec: self.dec@,
            out: self.out@,
            welcomed: self.welcomed,
            exiting: self.exiting,
            handshake_until: self.handshake_until,
            handshake_ms: self.handshake_ms,
            live: self.live,
            sent_size: self.sent_size,
        }
    }
}

/// Everything a link's events act on.
#[verifier::ext_equal]
pub struct All {
    pub link: RelayView,
    pub state: StateView,
    pub term: TermView,
}

pub open spec fn soon(now: u64, ms: u64) -> u64 {
    if now + ms > u64::MAX {
        u64::MAX
    } else {
        (now + ms) as u64
    }
}

/// A frame queued for the host.
pub open spec fn sent(a: All, m: MsgView) -> All {
    All { link: RelayView { out: a.link.out + frame(m), ..a.link }, ..a }
}

/// A message printed.
pub open spec fn told(a: All, msg: Seq<char>, now: u64) -> All {
    All { term: noted(a.term, msg, now), ..a }
}

/// The name of the session, empty before it is known.
pub open spec fn name_of(s: StateView) -> Seq<char> {
    match s.session {
        None => Seq::empty(),
        Some(n) => n,
    }
}

pub open spec fn new_session_note_text(name: Seq<char>, host: Seq<char>) -> Seq<char> {
    "new session '"@ + name + "' on "@ + host
}

fn new_session_note(name: &str, host: &str) -> (s: String)
    ensures
        s@ == new_session_note_text(name@, host@),
{
    let mut s = "new session '".to_owned();
    s.append(name);
    s.append("' on ");
    s.append(host);
    s
}

pub open spec fn taken_note_text(host: Seq<char>, name: Seq<char>) -> Seq<char> {
    "another client took over "@ + host + "/"@ + name + " — reattach with: acs "@ + host + " "@ + name
}

fn taken_note(host: &str, name: &str) -> (s: String)
    ensures
        s@ == taken_note_text(host@, name@),
{
    let mut s = "another client took over ".to_owned();
    s.append(host);
    s.append("/");
    s.append(name);
    s.append(" — reattach with: acs ");
    s.append(host);
    s.append(" ");
    s.append(name);
    s
}

pub open spec fn detached_note_text(host: Seq<char>, name: Seq<char>) -> Seq<char> {
    "detached from "@ + host + "/"@ + name + " — reattach with: acs "@ + host + " "@ + name
}

fn detached_note(host: &str, name: &str) -> (s: String)
    ensures
        s@ == detached_note_text(host@, name@),
{
    let mut s = "detached from ".to_owned();
    s.append(host);
    s.append("/");
    s.append(name);
    s.append(" — reattach with: acs ");
    s.append(host);
    s.append(" ");
    s.append(name);
    s
}

pub open spec fn protocol_error_text(e: Seq<char>) -> Seq<char> {
    "protocol error: "@ + e
}

fn protocol_error(e: &str) -> (s: String)
    ensures
        s@ == protocol_error_text(e@),
{
    let mut s = "protocol error: ".to_owned();
    s.append(e);
    s
}

pub open spec fn no_terminal_text(e: Seq<char>) -> Seq<char> {
    "cannot use the terminal: "@ + e
}

fn no_terminal(e: &str) -> (s: String)
    ensures
        s@ == no_terminal_text(e@),
{
    let mut s = "cannot use the terminal: ".to_owned();
    s.append(e);
    s
}

// ---- messages --------------------------------------------------------------

/// The session is ours: who it is, and what it has of our input.
#[verifier::opaque]
pub open spec fn greeted(a: All, w: WelcomeView, now: u64) -> All {
    let s = a.state;
    let same = s.instance == Some(w.instance);
    let b = All { link: RelayView { welcomed: true, ..a.link }, ..a };
    let c = if s.instance is Some && !same {
        told(b, "the session was restarted"@, now)
    } else {
        b
    };
    let d = if w.created {
        told(c, new_session_note_text(w.session, s.host), now)
    } else {
        c
    };
    All {
        state: StateView {
            session: Some(w.session),
            instance: Some(w.instance),
            unacked: rebased(s.unacked, w.input_seq, same),
            paste: if same {
                s.paste
            } else {
                Seq::empty()
            },
            ..s
        },
        ..d
    }
}

/// Home, and clear to the end of the screen.
pub open spec fn clear_screen() -> Seq<u8> {
    seq![0x1bu8, 0x5b, 0x48, 0x1b, 0x5b, 0x4a]
}

/// The screen as the attach leaves it: as it is where the output carries on;
/// the modes of another program undone, and cleared for one that was already
/// there; cleared, with the modes kept, across a gap.
pub open spec fn redrawn(s: StateView, t: TermView, w: WelcomeView) -> (StateView, TermView) {
    match w.kind {
        AttachKind::Resumed => (s, t),
        AttachKind::Fresh => {
            let out = interruption(s.observer.at) + resets(s.observer.modes) + if w.created {
                Seq::empty()
            } else {
                clear_screen()
            };
            (
                StateView { observer: ModesView { modes: clean(), at: start() }, ..s },
                if out.len() > 0 {
                    with_out(t, out)
                } else {
                    t
                },
            )
        },
        AttachKind::Gap => (
            StateView { observer: ModesView { at: start(), ..s.observer }, ..s },
            with_out(t, interruption(s.observer.at) + clear_screen()),
        ),
    }
}

/// The terminal is ours: the screen, then what the master may not have, then
/// Ctrl-L, then the size if it has changed since the HELLO.
pub open spec fn attached(a: All, w: WelcomeView, size: Option<WinSize>) -> All {
    let (s1, t1) = redrawn(a.state, a.term, w);
    let s2 = StateView { offset: w.offset, attached_once: true, force_next: false, ..s1 };
    let out1 = a.link.out + input_frames(s2.unacked.seq, s2.unacked.bytes);
    let redraw = !w.created && s2.redraw_on_reconnect && !open_after(false, s2.paste);
    let s3 = if redraw {
        queued(s2, seq![CTRL_L])
    } else {
        s2
    };
    let out2 = if redraw {
        out1 + queue_frames(s2, seq![CTRL_L])
    } else {
        out1
    };
    let link = RelayView { out: out2, ..a.link };
    let b = All { link, state: s3, term: t1 };
    match size {
        Some(z) if z != a.link.sent_size => All {
            link: RelayView { sent_size: z, out: out2 + frame(MsgView::Resize(z)), ..link },
            ..b
        },
        _ => b,
    }
}

/// Output: what was not written yet goes to the terminal.
#[verifier::opaque]
pub open spec fn output_taken(a: All, offset: u64, bytes: Seq<u8>) -> All {
    let skip = if a.state.offset > offset {
        (a.state.offset - offset) as nat
    } else {
        0
    };
    if skip < bytes.len() {
        let (s, t) = output_written(a.state, a.term, bytes.skip(skip as int));
        All { state: StateView { offset: around(offset, bytes.len()), ..s }, term: t, ..a }
    } else {
        a
    }
}

/// The exit code of a session whose child left this wait status.
pub open spec fn exit_of(status: i32) -> u8 {
    let s = status as u32;
    if s % 128 == 0 {
        (s / 256 % 256) as u8
    } else {
        (128 + s % 128) as u8
    }
}

pub fn exit_code(status: i32) -> (c: u8)
    ensures
        c == exit_of(status),
{
    let s: u32 = status as u32;
    if s % 128 == 0 {
        (s / 256 % 256) as u8
    } else {
        (128 + s % 128) as u8
    }
}

/// What an ERROR frame ends with.
#[verifier::opaque]
pub open spec fn refused(a: All, c: u16, message: Seq<char>, now: u64) -> (All, TurnView) {
    let b = told(a, message, now);
    if c == err::NO_SESSION {
        (
            if a.state.instance is Some {
                told(b, "the session has ended"@, now)
            } else {
                b
            },
            TurnView::Over(Outcome::Exit(code::NO_SESSION)),
        )
    } else {
        (b, TurnView::Over(Outcome::Exit(code::ERROR)))
    }
}

/// Somebody else attached: the terminal is put back, and they are named.
#[verifier::opaque]
pub open spec fn displaced(a: All, now: u64) -> All {
    let (s, t) = left(a.state, a.term);
    told(
        All { state: s, term: t, ..a },
        taken_note_text(a.state.host, name_of(a.state)),
        now,
    )
}

/// What a message does.
pub open spec fn received(a: All, m: MsgView, now: u64) -> (All, TurnView) {
    match m {
        MsgView::Welcome(w) => if a.link.welcomed {
            (a, TurnView::Ignored)
        } else {
            (greeted(a, w, now), TurnView::Raw(w))
        },
        MsgView::Busy { identity, since } => if a.link.welcomed {
            (a, TurnView::Ignored)
        } else {
            (a, TurnView::Ask { identity, since })
        },
        MsgView::Error { code, message } => refused(a, code, message, now),
        MsgView::Data { offset, bytes } => if a.link.welcomed {
            (output_taken(a, offset, bytes), TurnView::On)
        } else {
            (a, TurnView::Ignored)
        },
        MsgView::Ack { seq } => (
            All { state: StateView { unacked: acked(a.state.unacked, seq), ..a.state }, ..a },
            TurnView::On,
        ),
        MsgView::Pong(n) => (
            All { link: RelayView { live: after_pong(a.link.live, n), ..a.link }, ..a },
            TurnView::On,
        ),
        MsgView::Ping(n) => (sent(a, MsgView::Pong(n)), TurnView::On),
        MsgView::Exit { status } => (a, TurnView::Over(Outcome::Exit(exit_of(status)))),
        MsgView::Takeover => (
            displaced(a, now),
            TurnView::Over(Outcome::Exit(code::TAKEN_OVER)),
        ),
        _ => (a, TurnView::Ignored),
    }
}

/// A message after it was heard.
pub open spec fn message_step(a: All, m: MsgView, now: u64) -> (All, TurnView) {
    received(
        All { link: RelayView { live: after_heard(a.link.live, now), ..a.link }, ..a },
        m,
        now,
    )
}

impl Relay {
    pub open spec fn wf(&self) -> bool {
        self.dec.wf()
    }

    /// A link past its marker: `early` came behind the marker, `greeting` is
    /// what is owed to the host, and `size` the terminal size it carries.
    pub fn start(
        early: &[u8],
        greeting: Vec<u8>,
        handshake_ms: u64,
        size: WinSize,
        live: Liveness,
        now: u64,
    ) -> (r: Relay)
        ensures
            r.wf(),
            r@ == (RelayView {
                dec: early@,
                out: greeting@,
                welcomed: false,
                exiting: false,
                handshake_until: soon(now, handshake_ms),
                handshake_ms,
                live,
                sent_size: size,
            }),
    {
        let mut dec = Decoder::new();
        dec.push(early);
        assert(dec@ =~= early@);
        Relay {
            dec,
            out: greeting,
            welcomed: false,
            exiting: false,
            handshake_until: now.saturating_add(handshake_ms),
            handshake_ms,
            live,
            sent_size: size,
        }
    }

    /// The whole of what a link's events act on.
    pub open spec fn all(&self, state: &State, term: &Terminal) -> All {
        All { link: self@, state: state@, term: term@ }
    }

    fn send(&mut self, m: &Msg)
        requires
            old(self).wf(),
        ensures
            final(self).wf(),
            final(self)@ == (RelayView { out: old(self)@.out + frame(m@), ..old(self)@ }),
    {
        m.encode(&mut self.out);
    }

    fn greet(&mut self, state: &mut State, term: &mut Terminal, w: &Welcome, now: u64)
        requires
            old(self).wf(),
            old(state).wf(),
        ensures
            final(self).wf(),
            final(state).wf(),
            (*final(self)).all(final(state), final(term)) == greeted(
                old(self).all(old(state), old(term)),
                w@,
                now,
            ),
    {
        reveal(greeted);
        self.welcomed = true;
        let same = match state.instance {
            Some(i) => i == w.instance,
            None => false,
        };
        if state.instance.is_some() && !same {
            term.note("the session was restarted", now);
        }
        if w.created {
            term.note(&new_session_note(&w.session, &state.host), now);
        }
        state.session = Some(w.session.clone());
        state.instance = Some(w.instance);
        state.unacked.rebase(w.input_seq, same);
        if !same {
            state.paste = PasteTracker::default();
        }
    }

    fn refuse(&mut self, state: &mut State, term: &mut Terminal, c: u16, message: &str, now: u64) -> (t:
        Turn)
        requires
            old(self).wf(),
            old(state).wf(),
        ensures
            final(self).wf(),
            final(state).wf(),
            ((*final(self)).all(final(state), final(term)), t@) == refused(
                old(self).all(old(state), old(term)),
                c,
                message@,
                now,
            ),
    {
        reveal(refused);
        term.note(message, now);
        if c == err::NO_SESSION {
            if state.instance.is_some() {
                term.note("the session has ended", now);
            }
            Turn::Over(Outcome::Exit(code::NO_SESSION))
        } else {
            Turn::Over(Outcome::Exit(code::ERROR))
        }
    }

    fn displace(&mut self, state: &mut State, term: &mut Terminal, now: u64)
        requires
            old(self).wf(),
            old(state).wf(),
        ensures
            final(self).wf(),
            final(state).wf(),
            (*final(self)).all(final(state), final(term)) == displaced(
                old(self).all(old(state), old(term)),
                now,
            ),
    {
        reveal(displaced);
        let name = session_name(state);
        leave(state, term);
        term.note(&taken_note(&state.host, &name), now);
    }

    fn output(&mut self, state: &mut State, term: &mut Terminal, offset: u64, bytes: &[u8])
        requires
            old(self).wf(),
            old(state).wf(),
        ensures
            final(self).wf(),
            final(state).wf(),
            (*final(self)).all(final(state), final(term)) == output_taken(
                old(self).all(old(state), old(term)),
                offset,
                bytes@,
            ),
    {
        reveal(output_taken);
        let skip: u64 = if state.offset > offset {
            state.offset - offset
        } else {
            0
        };
        if skip < bytes.len() as u64 {
            let new = sub_vec(bytes, skip as usize, bytes.len());
            assert(new@ =~= bytes@.skip(skip as int));
            write_output(state, term, &new);
            state.offset = offset.wrapping_add(bytes.len() as u64);
        }
    }

    /// A message of the host's.
    pub fn message(&mut self, state: &mut State, term: &mut Terminal, m: Msg, now: u64) -> (t: Turn)
        requires
            old(self).wf(),
            old(state).wf(),
        ensures
            final(self).wf(),
            final(state).wf(),
            ((*final(self)).all(final(state), final(term)), t@) == message_step(
                old(self).all(old(state), old(term)),
                m@,
                now,
            ),
    {
        self.live.heard(now);
        match m {
            Msg::Welcome(w) => {
                if self.welcomed {
                    Turn::Ignored
                } else {
                    self.greet(state, term, &w, now);
                    Turn::Raw(w)
                }
            },
            Msg::Busy { identity, since } => {
                if self.welcomed {
                    Turn::Ignored
                } else {
                    Turn::Ask { identity, since }
                }
            },
            Msg::Error { code: c, message } => self.refuse(state, term, c, &message, now),
            Msg::Data { offset, bytes } => {
                if self.welcomed {
                    self.output(state, term, offset, &bytes);
                    Turn::On
                } else {
                    Turn::Ignored
                }
            },
            Msg::Ack { seq } => {
                state.unacked.ack(seq);
                Turn::On
            },
            Msg::Pong(n) => {
                self.live.pong(n);
                Turn::On
            },
            Msg::Ping(n) => {
                self.send(&Msg::Pong(n));
                Turn::On
            },
            Msg::Exit { status } => Turn::Over(Outcome::Exit(exit_code(status))),
            Msg::Takeover => {
                self.displace(state, term, now);
                Turn::Over(Outcome::Exit(code::TAKEN_OVER))
            },
            _ => Turn::Ignored,
        }
    }
}

fn session_name(state: &State) -> (s: String)
    ensures
        s@ == name_of(state@),
{
    match &state.session {
        Some(n) => n.clone(),
        None => {
            let s = String::new();
            assert(s@ =~= Seq::empty());
            s
        },
    }
}

// ---- what follows a question -------------------------------------------------

/// A HELLO that may not be there.
pub open spec fn hello_view(h: Option<Hello>) -> Option<HelloView> {
    match h {
        None => None,
        Some(h) => Some(h@),
    }
}

/// The answer to whether to take the session over: with a yes the HELLO goes out
/// again, and the host has its whole time once more.
pub open spec fn answered(l: RelayView, s: StateView, again: Option<HelloView>, now: u64) -> (
    RelayView,
    StateView,
    TurnView,
) {
    match again {
        None => (l, s, TurnView::Over(Outcome::Exit(code::TAKEN_OVER))),
        Some(h) => (
            RelayView {
                handshake_until: soon(now, l.handshake_ms),
                sent_size: h.size,
                out: l.out + frame(MsgView::Hello(h)),
                ..l
            },
            StateView { force_next: true, ..s },
            TurnView::On,
        ),
    }
}

/// Bytes that came from the host: kept to be decoded, and proof it is there.
pub open spec fn arrived(l: RelayView, bytes: Seq<u8>, now: u64) -> RelayView {
    RelayView { dec: l.dec + bytes, live: after_heard(l.live, now), ..l }
}

/// A new terminal size: told once the host has welcomed us.
pub open spec fn resized(l: RelayView, size: WinSize) -> RelayView {
    if l.welcomed {
        RelayView { out: l.out + frame(MsgView::Resize(size)), ..l }
    } else {
        l
    }
}

/// This machine's network moved: whether the link is asked about it.
pub open spec fn moved(l: RelayView, now: u64) -> (RelayView, bool) {
    if l.welcomed {
        (
            RelayView {
                live: after_netcheck(l.live, now),
                out: l.out + frame(MsgView::Ping(l.live.nonce)),
                ..l
            },
            true,
        )
    } else {
        (l, false)
    }
}

/// The user detached: the terminal is put back, and how to come back is said.
pub open spec fn detached(a: All, now: u64) -> All {
    let (s, t) = left(a.state, a.term);
    told(
        All { state: s, term: t, ..a },
        detached_note_text(a.state.host, name_of(a.state)),
        now,
    )
}

/// The user asked for the session's end.
pub open spec fn ending(l: RelayView) -> RelayView {
    RelayView { out: l.out + frame(MsgView::Kill), exiting: true, ..l }
}

/// A look at the clock: silence loses a link that was welcomed, or one of a
/// session known before; a first connection gives up, and says that nothing came
/// `within` that many seconds.
pub open spec fn timed(a: All, dest: Seq<char>, within: Seq<char>, now: u64) -> (
    All,
    Option<Outcome>,
) {
    if a.link.welcomed {
        let (live, ping, health) = after_tick(a.link.live, now);
        let b = All { link: RelayView { live, out: a.link.out + ping, ..a.link }, ..a };
        (
            b,
            if health is Dead {
                Some(Outcome::LinkLost(LinkEnd::Silent))
            } else {
                None
            },
        )
    } else if now >= a.link.handshake_until {
        if a.state.instance is Some {
            (a, Some(Outcome::LinkLost(LinkEnd::Silent)))
        } else {
            (
                told(a, no_answer_from_text(dest, within), now),
                Some(Outcome::Exit(code::UNREACHABLE)),
            )
        }
    } else {
        (a, None)
    }
}

/// The earlier of a time and one that may not be set.
pub open spec fn earlier(a: u64, b: Option<u64>) -> u64 {
    match b {
        Some(t) if t < a => t,
        _ => a,
    }
}

/// How long the loop may wait, in milliseconds: until the detector, a held note,
/// or the host's silence is due.
pub open spec fn wait_for(a: All, now: u64) -> u64 {
    let first = if a.link.welcomed {
        next_look(a.link.live)
    } else {
        a.link.handshake_until
    };
    let due = earlier(earlier(first, deadline_of(a.state.detector)), hold_until(a.term));
    if due > now {
        (due - now) as u64
    } else {
        0
    }
}

/// What the decoder holds next.
pub enum Decoded {
    /// A message.
    Got(Msg),
    /// Nothing whole yet.
    More,
    /// Bytes that are no frame: the conversation on this channel is over.
    Over(Outcome),
}

impl Relay {
    /// The next message that has arrived whole.
    pub fn decode(&mut self, state: &State, term: &mut Terminal, now: u64) -> (d: Decoded)
        requires
            old(self).wf(),
        ensures
            final(self).wf(),
            match next_frame(old(self)@.dec) {
                Next::More => d is More && *final(term) == *old(term) && final(self)@ == old(self)@,
                Next::Bad(e) => d == Decoded::Over(Outcome::LinkLost(LinkEnd::Channel))
                    && final(term)@ == noted(old(term)@, protocol_error_text(e.words()), now)
                    && final(self)@ == old(self)@,
                Next::Got(m, n) => d is Got && d->Got_0@ == m && *final(term) == *old(term)
                    && final(self)@ == (RelayView {
                    dec: old(self)@.dec.skip(n),
                    ..old(self)@
                }),
            },
    {
        match self.dec.next_msg() {
            Ok(Some(m)) => Decoded::Got(m),
            Ok(None) => Decoded::More,
            Err(e) => {
                term.note(&protocol_error(&e.text()), now);
                Decoded::Over(Outcome::LinkLost(LinkEnd::Channel))
            },
        }
    }

    fn redraw(state: &mut State, term: &mut Terminal, w: &Welcome)
        requires
            old(state).wf(),
        ensures
            final(state).wf(),
            (final(state)@, final(term)@) == redrawn(old(state)@, old(term)@, w@),
    {
        match w.kind {
            AttachKind::Resumed => {},
            AttachKind::Fresh => {
                let mut out = state.observer.interrupt_sequence();
                let ghost a = out@;
                let reset = state.observer.reset_sequence();
                out.extend_from_slice(&reset);
                assert(out@ =~= a + reset@);
                let ghost b = out@;
                if !w.created {
                    let clear: [u8; 6] = [0x1b, 0x5b, 0x48, 0x1b, 0x5b, 0x4a];
                    assert(clear@ =~= clear_screen());
                    out.extend_from_slice(&clear);
                    assert(out@ =~= b + clear_screen());
                } else {
                    assert(out@ =~= b + Seq::<u8>::empty());
                }
                if out.len() > 0 {
                    term.out(out);
                }
                state.observer.clear();
            },
            AttachKind::Gap => {
                let mut out = state.observer.interrupt_sequence();
                let ghost a = out@;
                let clear: [u8; 6] = [0x1b, 0x5b, 0x48, 0x1b, 0x5b, 0x4a];
                assert(clear@ =~= clear_screen());
                out.extend_from_slice(&clear);
                assert(out@ =~= a + clear_screen());
                term.out(out);
                state.observer.resync();
            },
        }
    }

    /// The terminal is in raw mode: the attach goes on. `size` is the
    /// terminal's size now.
    pub fn welcomed(
        &mut self,
        state: &mut State,
        term: &mut Terminal,
        w: &Welcome,
        size: Option<WinSize>,
    )
        requires
            old(self).wf(),
            old(state).wf(),
        ensures
            final(self).wf(),
            final(state).wf(),
            (*final(self)).all(final(state), final(term)) == attached(
                old(self).all(old(state), old(term)),
                w@,
                size,
            ),
    {
        Relay::redraw(state, term, w);
        state.offset = w.offset;
        state.attached_once = true;
        state.force_next = false;
        let seq = state.unacked.seq;
        put_input(&mut self.out, seq, &state.unacked.bytes);
        if !w.created && state.redraw_on_reconnect && !state.paste.open() {
            let key: [u8; 1] = [CTRL_L];
            assert(key@ =~= seq![CTRL_L]);
            queue_input(state, &mut self.out, &key);
        }
        if let Some(z) = size {
            if z != self.sent_size {
                self.sent_size = z;
                self.send(&Msg::Resize(z));
            }
        }
    }

    /// The terminal cannot be used: the client leaves.
    pub fn no_terminal(term: &mut Terminal, e: &str, now: u64) -> (o: Outcome)
        ensures
            o == Outcome::Exit(code::ERROR),
            final(term)@ == noted(old(term)@, no_terminal_text(e@), now),
    {
        term.note(&no_terminal(e), now);
        Outcome::Exit(code::ERROR)
    }

    /// The user was asked whether to take the session over: `again` is the HELLO
    /// to send with a yes.
    pub fn taken_over(&mut self, state: &mut State, again: Option<Hello>, now: u64) -> (t: Turn)
        requires
            old(self).wf(),
            old(state).wf(),
        ensures
            final(self).wf(),
            final(state).wf(),
            (final(self)@, final(state)@, t@) == answered(
                old(self)@,
                old(state)@,
                hello_view(again),
                now,
            ),
    {
        match again {
            None => Turn::Over(Outcome::Exit(code::TAKEN_OVER)),
            Some(h) => {
                self.handshake_until = now.saturating_add(self.handshake_ms);
                state.force_next = true;
                self.sent_size = h.size;
                self.send(&Msg::Hello(h));
                Turn::On
            },
        }
    }

    /// Bytes from the host; none at all is the end of the transport.
    pub fn bytes(&mut self, bytes: &[u8], now: u64) -> (o: Option<Outcome>)
        requires
            old(self).wf(),
        ensures
            final(self).wf(),
            bytes@.len() == 0 ==> o == Some(Outcome::LinkLost(LinkEnd::Transport)) && final(self)@
                == old(self)@,
            bytes@.len() > 0 ==> o is None && final(self)@ == arrived(old(self)@, bytes@, now),
    {
        if bytes.len() == 0 {
            return Some(Outcome::LinkLost(LinkEnd::Transport));
        }
        self.dec.push(bytes);
        self.live.heard(now);
        None
    }

    /// The terminal has another size.
    pub fn window(&mut self, size: WinSize)
        requires
            old(self).wf(),
        ensures
            final(self).wf(),
            final(self)@ == resized(old(self)@, size),
    {
        if self.welcomed {
            self.send(&Msg::Resize(size));
        }
    }

    /// This machine's network moved under the link: whether the host is asked.
    /// Before the WELCOME the handshake's own deadline applies, and the change
    /// is not spent.
    pub fn netchange(&mut self, now: u64) -> (acted: bool)
        requires
            old(self).wf(),
        ensures
            final(self).wf(),
            (final(self)@, acted) == moved(old(self)@, now),
    {
        if self.welcomed {
            self.live.netcheck(&mut self.out, now);
            true
        } else {
            false
        }
    }

    /// The terminal went away: the session is left running.
    pub fn hung_up(&mut self) -> (o: Outcome)
        requires
            old(self).wf(),
        ensures
            final(self).wf(),
            final(self)@ == (RelayView {
                out: old(self)@.out + frame(MsgView::Detach),
                ..old(self)@
            }),
            o == Outcome::Exit(code::DETACHED),
    {
        self.send(&Msg::Detach);
        Outcome::Exit(code::DETACHED)
    }

    /// The user detached: what is still owed to the host ends with a DETACH.
    pub fn detach(&mut self)
        requires
            old(self).wf(),
        ensures
            final(self).wf(),
            final(self)@ == (RelayView {
                out: old(self)@.out + frame(MsgView::Detach),
                ..old(self)@
            }),
    {
        self.send(&Msg::Detach);
    }

    /// The link of a user who detached is closed: the terminal is put back.
    pub fn gone(&mut self, state: &mut State, term: &mut Terminal, now: u64) -> (o: Outcome)
        requires
            old(self).wf(),
            old(state).wf(),
        ensures
            final(self).wf(),
            final(state).wf(),
            (*final(self)).all(final(state), final(term)) == detached(
                old(self).all(old(state), old(term)),
                now,
            ),
            o == Outcome::Exit(code::DETACHED),
    {
        let name = session_name(state);
        leave(state, term);
        term.note(&detached_note(&state.host, &name), now);
        Outcome::Exit(code::DETACHED)
    }

    /// The user asked for the session's end.
    pub fn end_session(&mut self)
        requires
            old(self).wf(),
        ensures
            final(self).wf(),
            final(self)@ == ending(old(self)@),
    {
        self.send(&Msg::Kill);
        self.exiting = true;
    }

    /// A look at the clock. `within` is the time a handshake has, in seconds.
    pub fn clock(
        &mut self,
        state: &State,
        term: &mut Terminal,
        dest: &str,
        within: &str,
        now: u64,
    ) -> (o: Option<Outcome>)
        requires
            old(self).wf(),
        ensures
            final(self).wf(),
            ((*final(self)).all(state, final(term)), o) == timed(
                old(self).all(state, old(term)),
                dest@,
                within@,
                now,
            ),
    {
        if self.welcomed {
            match self.live.tick(&mut self.out, now) {
                Health::Alive => None,
                Health::Dead => Some(Outcome::LinkLost(LinkEnd::Silent)),
            }
        } else if now >= self.handshake_until {
            if state.instance.is_some() {
                return Some(Outcome::LinkLost(LinkEnd::Silent));
            }
            term.note(&no_answer_from(dest, within), now);
            Some(Outcome::Exit(code::UNREACHABLE))
        } else {
            None
        }
    }

    /// How long the loop may wait, in milliseconds.
    pub fn timeout(&self, state: &State, term: &Terminal, now: u64) -> (ms: u64)
        requires
            state.wf(),
        ensures
            ms == wait_for(self.all(state, term), now),
    {
        let mut due: u64 = if self.welcomed {
            self.live.next_deadline_ms()
        } else {
            self.handshake_until
        };
        if let Some(d) = state.detector.deadline() {
            if d < due {
                due = d;
            }
        }
        if let Some(d) = term.deadline() {
            if d < due {
                due = d;
            }
        }
        if due > now {
            due - now
        } else {
            0
        }
    }

    /// Whether keys are read: once welcomed, until the user asked for the end.
    pub fn reads_keys(&self) -> (r: bool)
        ensures
            r == (self@.welcomed && !self@.exiting),
    {
        self.welcomed && !self.exiting
    }
}

/// Nothing waits past its time: when the loop's wait is over, the notes held are
/// written, the detector is due, or the host's silence is looked at.
pub proof fn law_the_wait_is_no_longer_than_what_is_due(a: All, now: u64)
    requires
        now + wait_for(a, now) <= u64::MAX,
    ensures
        deadline_of(a.state.detector) is Some ==> now + wait_for(a, now) <= now || now + wait_for(
            a,
            now,
        ) <= deadline_of(a.state.detector)->0,
        hold_until(a.term) is Some ==> wait_for(a, now) == 0 || now + wait_for(a, now)
            <= hold_until(a.term)->0,
        a.link.welcomed ==> wait_for(a, now) == 0 || now + wait_for(a, now) <= next_look(
            a.link.live,
        ),
        !a.link.welcomed ==> wait_for(a, now) == 0 || now + wait_for(a, now)
            <= a.link.handshake_until,
{
}

/// A takeover that was agreed to is spent by the attach it was given for.
pub proof fn law_agreement_is_spent(a: All, w: WelcomeView, size: Option<WinSize>)
    ensures
        !attached(a, w, size).state.force_next,
{
}

/// A link that carried bytes it could not read does not take the shared
/// connection with it; every other ending that loses it does.
pub proof fn law_only_the_connection_is_blamed(
    a: All,
    dest: Seq<char>,
    within: Seq<char>,
    now: u64,
)
    ensures
        timed(a, dest, within, now).1 matches Some(Outcome::LinkLost(e)) ==> !(e is Channel),
{
}

/// What was sent and not acknowledged is sent again to the same session, and to
/// no other.
pub proof fn law_resumed_input_is_resent(a: All, w: WelcomeView, size: Option<WinSize>, now: u64)
    ensures
        a.state.instance == Some(w.instance) && w.input_seq <= a.state.unacked.seq ==> greeted(
            a,
            w,
            now,
        ).state.unacked == a.state.unacked,
        a.state.instance != Some(w.instance) ==> greeted(a, w, now).state.unacked.bytes.len() == 0,
        a.link.out + input_frames(a.state.unacked.seq, a.state.unacked.bytes) == attached(
            a,
            w,
            size,
        ).link.out.take(
            (a.link.out + input_frames(a.state.unacked.seq, a.state.unacked.bytes)).len() as int,
        ),
{
    reveal(greeted);
    let first = a.link.out + input_frames(a.state.unacked.seq, a.state.unacked.bytes);
    let all = attached(a, w, size).link.out;
    assert(all.take(first.len() as int) =~= first);
}

} // verus!
