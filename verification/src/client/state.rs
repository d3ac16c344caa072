//! What the client knows about its session across links, and what it does with
//! the session's bytes.

use crate::client::notes::{at_place, is_waiting, notes_of, with_out, ActView, TermView, Terminal};
use crate::keys::{deadline_of, fed, ticked, valid, Action, Detector, DetectorView, PasteTracker};
use crate::modes::{boundary, clean, interruption, observed, reopening, resets, start, ModeObserver, ModesView};
use crate::proto::laws::frames;
use crate::proto::{frame, Msg, MsgView, MAX_CHUNK};
use crate::resume::{around, Unacked, UnackedView};
use crate::text::sub_vec;
use vstd::prelude::*;

verus! {

/// Form feed: shells and most full-screen programs repaint on it.
pub const CTRL_L: u8 = 0x0c;

/// Rings the terminal's bell.
pub const BEL: u8 = 0x07;

/// What the client knows about its session across links.
pub struct State {
    pub host: String,
    /// Known once the first WELCOME arrives (not before, for `--new`).
    pub session: Option<String>,
    pub instance: Option<u64>,
    /// Offset of the next output byte we expect.
    pub offset: u64,
    pub unacked: Unacked,
    pub observer: ModeObserver,
    pub identity: String,
    /// Set once the terminal has seen session output (for resets).
    pub attached_once: bool,
    /// Ring the bell when command mode arms.
    pub command_bell: bool,
    /// A bell waits for the output to reach a boundary.
    pub bell_pending: bool,
    /// Send Ctrl-L after reconnecting to a session.
    pub redraw_on_reconnect: bool,
    /// Whether the input sent so far is inside a bracketed paste.
    pub paste: PasteTracker,
    /// The command-key detector. It belongs to the local terminal, not to a
    /// link: a press held when the link dies is still the first half of the
    /// double tap on the other side.
    pub detector: Detector,
    /// Take the session from whoever holds it on the next attach, and then
    /// stop.
    pub force_next: bool,
}

#[verifier::ext_equal]
pub struct StateView {
    pub host: Seq<char>,
    pub session: Option<Seq<char>>,
    pub instance: Option<u64>,
    pub offset: u64,
    pub unacked: UnackedView,
    pub observer: ModesView,
    pub identity: Seq<char>,
    pub attached_once: bool,
    pub command_bell: bool,
    pub bell_pending: bool,
    pub redraw_on_reconnect: bool,
    /// The input sent to the program now running.
    pub paste: Seq<u8>,
    pub detector: DetectorView,
    pub force_next: bool,
}

impl View for State {
    type V = StateView;

    open spec fn view(&self) -> StateView {
        StateView {
            host: self.host@,
            session: match self.session {
                None => None,
                Some(s) => Some(s@),
            },
            instance: self.instance,
            offset: self.offset,
            unacked: self.unacked@,
            observer: self.observer@,
            identity: self.identity@,
            attached_once: self.attached_once,
            command_bell: self.command_bell,
            bell_pending: self.bell_pending,
            redraw_on_reconnect: self.redraw_on_reconnect,
            paste: self.paste@,
            detector: self.detector@,
            force_next: self.force_next,
        }
    }
}

impl State {
    pub open spec fn wf(&self) -> bool {
        self.observer.wf() && self.paste.wf() && valid(self.detector@)
    }

    /// A session not attached to yet.
    pub fn new(
        host: String,
        session: Option<String>,
        identity: String,
        command_bell: bool,
        redraw_on_reconnect: bool,
        detector: Detector,
        force_next: bool,
    ) -> (s: State)
        requires
            valid(detector@),
        ensures
            s.wf(),
            s@ == (StateView {
                host: host@,
                session: match session {
                    None => None,
                    Some(s) => Some(s@),
                },
                instance: None,
                offset: 0,
                unacked: UnackedView { seq: 0, bytes: Seq::empty() },
                observer: ModesView { modes: clean(), at: start() },
                identity: identity@,
                attached_once: false,
                command_bell,
                bell_pending: false,
                redraw_on_reconnect,
                paste: Seq::empty(),
                detector: detector@,
                force_next,
            }),
    {
        State {
            host,
            session,
            instance: None,
            offset: 0,
            unacked: Unacked::new(0),
            observer: ModeObserver::new(),
            identity,
            attached_once: false,
            command_bell,
            bell_pending: false,
            redraw_on_reconnect,
            paste: PasteTracker::default(),
            detector,
            force_next,
        }
    }
}

// ---- input -----------------------------------------------------------------

/// One frame of input.
#[verifier::opaque]
pub open spec fn input_frame(seq: u64, bytes: Seq<u8>) -> Seq<u8> {
    frame(MsgView::Input { seq, bytes })
}

/// The frames that carry `bytes` of input, the first of them number `seq`.
pub open spec fn input_frames(seq: u64, bytes: Seq<u8>) -> Seq<u8>
    decreases bytes.len(),
{
    if bytes.len() == 0 {
        Seq::empty()
    } else if bytes.len() <= MAX_CHUNK {
        input_frame(seq, bytes)
    } else {
        input_frame(seq, bytes.take(MAX_CHUNK as int)) + input_frames(
            around(seq, MAX_CHUNK as nat),
            bytes.skip(MAX_CHUNK as int),
        )
    }
}

/// Input for the program: remembered until it is acknowledged.
pub open spec fn queued(s: StateView, bytes: Seq<u8>) -> StateView {
    StateView {
        unacked: UnackedView { bytes: s.unacked.bytes + bytes, ..s.unacked },
        paste: s.paste + bytes,
        ..s
    }
}

/// The frames `queued` sends.
pub open spec fn queue_frames(s: StateView, bytes: Seq<u8>) -> Seq<u8> {
    input_frames(around(s.unacked.seq, s.unacked.bytes.len()), bytes)
}

fn put_chunk(out: &mut Vec<u8>, seq: u64, bytes: Vec<u8>)
    ensures
        final(out)@ == old(out)@ + input_frame(seq, bytes@),
{
    reveal(input_frame);
    Msg::Input { seq, bytes }.encode(out);
}

fn next_seq(seq: u64) -> (r: u64)
    ensures
        r == around(seq, MAX_CHUNK as nat),
{
    seq.wrapping_add(MAX_CHUNK as u64)
}

/// The frames for `bytes` of input.
pub fn put_input(out: &mut Vec<u8>, seq: u64, bytes: &[u8])
    ensures
        final(out)@ == old(out)@ + input_frames(seq, bytes@),
{
    let mut at: usize = 0;
    let mut next: u64 = seq;
    let ghost before = out@;
    assert(bytes@.skip(0) =~= bytes@);
    while bytes.len() - at > MAX_CHUNK
        invariant
            at <= bytes.len(),
            out@ + input_frames(next, bytes@.skip(at as int)) == before + input_frames(seq, bytes@),
        decreases bytes.len() - at,
    {
        let chunk = sub_vec(bytes, at, at + MAX_CHUNK);
        let ghost rest = bytes@.skip(at as int);
        let ghost had = out@;
        let ghost first = input_frame(next, chunk@);
        let ghost more = input_frames(
            around(next, MAX_CHUNK as nat),
            bytes@.skip(at + MAX_CHUNK),
        );
        proof {
            assert(chunk@ =~= rest.take(MAX_CHUNK as int));
            assert(rest.skip(MAX_CHUNK as int) =~= bytes@.skip(at + MAX_CHUNK));
            assert(input_frames(next, rest) == first + more);
            crate::wire::lemma_cat_assoc(had, first, more);
        }
        put_chunk(out, next, chunk);
        at = at + MAX_CHUNK;
        next = next_seq(next);
    }
    if at < bytes.len() {
        let chunk = sub_vec(bytes, at, bytes.len());
        assert(chunk@ =~= bytes@.skip(at as int));
        put_chunk(out, next, chunk);
    } else {
        assert(bytes@.skip(at as int) =~= Seq::empty());
        assert(out@ + Seq::<u8>::empty() =~= out@);
    }
}

/// Send INPUT for bytes for the program: what the user typed, or the Ctrl-L
/// after a reconnect.
pub fn queue_input(state: &mut State, out: &mut Vec<u8>, bytes: &[u8])
    requires
        old(state).wf(),
    ensures
        final(state).wf(),
        final(state)@ == queued(old(state)@, bytes@),
        final(out)@ == old(out)@ + queue_frames(old(state)@, bytes@),
{
    state.paste.feed(bytes);
    let seq = state.unacked.push(bytes);
    put_input(out, seq, bytes);
}

// ---- output ----------------------------------------------------------------

/// After feeding or ticking the command detector: the bell rings when command
/// mode has just armed, between sequences only, and one still waiting is
/// dropped once it is over.
pub open spec fn followed(s: StateView, t: TermView, was_armed: bool) -> (StateView, TermView) {
    if !(s.detector.state is Command) {
        (StateView { bell_pending: false, ..s }, t)
    } else if !was_armed && s.command_bell {
        if boundary(s.observer.at) {
            (s, with_out(t, seq![BEL]))
        } else {
            (StateView { bell_pending: true, ..s }, t)
        }
    } else {
        (s, t)
    }
}

pub fn follow_detector(state: &mut State, term: &mut Terminal, was_armed: bool)
    requires
        old(state).wf(),
    ensures
        final(state).wf(),
        (final(state)@, final(term)@) == followed(old(state)@, old(term)@, was_armed),
{
    if !state.detector.armed() {
        state.bell_pending = false;
    } else if !was_armed && state.command_bell {
        if state.observer.at_boundary() {
            let bell = vec![BEL];
            assert(bell@ =~= seq![BEL]);
            term.out(bell);
        } else {
            state.bell_pending = true;
        }
    }
}

/// The first boundary of the stream in `bytes`, which start at `v`.
pub open spec fn first_boundary(v: ModesView, bytes: Seq<u8>, n: int) -> bool {
    &&& 0 <= n <= bytes.len()
    &&& boundary(observed(v, bytes.take(n)).at)
    &&& forall|k: int|
        0 <= k < n ==> !boundary((#[trigger] observed(v, bytes.take(k))).at)
}

pub open spec fn has_boundary(v: ModesView, bytes: Seq<u8>) -> bool {
    exists|n: int| first_boundary(v, bytes, n)
}

/// A frame of output written: whole where nothing of acs's own waits, or where
/// it is all one unfinished sequence; else cut at its first boundary, with the
/// bell and the held notes between the two halves.
pub open spec fn frame_written(s: StateView, t: TermView, bytes: Seq<u8>) -> (StateView, TermView) {
    let after = StateView { observer: observed(s.observer, bytes), ..s };
    if !s.bell_pending && !is_waiting(t) {
        (after, with_out(t, bytes))
    } else if !has_boundary(s.observer, bytes) {
        (after, with_out(t, bytes))
    } else {
        let n = choose|n: int| first_boundary(s.observer, bytes, n);
        let head = if s.bell_pending {
            bytes.take(n).push(BEL)
        } else {
            bytes.take(n)
        };
        (
            StateView { bell_pending: false, ..after },
            with_out(at_place(with_out(t, head), true), bytes.skip(n)),
        )
    }
}

/// Where the frame left the stream is where the next note may go.
pub open spec fn output_written(s: StateView, t: TermView, bytes: Seq<u8>) -> (
    StateView,
    TermView,
) {
    let (s2, t2) = frame_written(s, t, bytes);
    (s2, at_place(t2, boundary(s2.observer.at)))
}

proof fn lemma_first_boundary_is_one(v: ModesView, bytes: Seq<u8>, a: int, b: int)
    requires
        first_boundary(v, bytes, a),
        first_boundary(v, bytes, b),
    ensures
        a == b,
{
    assert(boundary(observed(v, bytes.take(a)).at));
    assert(boundary(observed(v, bytes.take(b)).at));
}

fn write_frame(state: &mut State, term: &mut Terminal, bytes: &[u8])
    requires
        old(state).wf(),
    ensures
        final(state).wf(),
        (final(state)@, final(term)@) == frame_written(old(state)@, old(term)@, bytes@),
{
    let whole = sub_vec(bytes, 0, bytes.len());
    assert(whole@ =~= bytes@);
    let ghost v = state.observer@;
    if !state.bell_pending && !term.waiting() {
        term.out(whole);
        state.observer.observe(bytes);
        return;
    }
    match state.observer.observe_to_boundary(bytes) {
        None => {
            proof {
                assert forall|n: int| !first_boundary(v, bytes@, n) by {
                    if first_boundary(v, bytes@, n) {
                        assert(boundary(observed(v, bytes@.take(n)).at));
                    }
                }
            }
            term.out(whole);
        },
        Some(n) => {
            proof {
                assert(first_boundary(v, bytes@, n as int));
                let m = choose|m: int| first_boundary(v, bytes@, m);
                lemma_first_boundary_is_one(v, bytes@, n as int, m);
            }
            let mut head = sub_vec(bytes, 0, n);
            assert(head@ =~= bytes@.take(n as int));
            if state.bell_pending {
                state.bell_pending = false;
                head.push(BEL);
            }
            term.out(head);
            term.at_boundary(true);
            let rest = sub_vec(bytes, n, bytes.len());
            assert(rest@ =~= bytes@.skip(n as int));
            state.observer.observe(&rest);
            proof {
                crate::modes::laws::law_observing_in_pieces(
                    v,
                    bytes@.take(n as int),
                    bytes@.skip(n as int),
                );
                assert(bytes@.take(n as int) + bytes@.skip(n as int) =~= bytes@);
            }
            term.out(rest);
        },
    }
}

/// Write session output to the terminal, with a waiting bell, and a note
/// waiting for the same thing, at the first boundary in it.
pub fn write_output(state: &mut State, term: &mut Terminal, bytes: &[u8])
    requires
        old(state).wf(),
    ensures
        final(state).wf(),
        (final(state)@, final(term)@) == output_written(old(state)@, old(term)@, bytes@),
{
    write_frame(state, term, bytes);
    term.at_boundary(state.observer.at_boundary());
}

/// The local terminal back the way it was found: an unfinished sequence is
/// ended, and the modes the program left on are undone.
pub open spec fn left(s: StateView, t: TermView) -> (StateView, TermView) {
    let out = interruption(s.observer.at) + resets(s.observer.modes);
    (
        StateView { observer: ModesView { modes: clean(), at: start() }, ..s },
        if out.len() > 0 {
            with_out(t, out)
        } else {
            t
        },
    )
}

/// Put the local terminal back the way we found it.
pub fn leave(state: &mut State, term: &mut Terminal)
    requires
        old(state).wf(),
    ensures
        final(state).wf(),
        (final(state)@, final(term)@) == left(old(state)@, old(term)@),
{
    let mut out = state.observer.interrupt_sequence();
    let ghost first = out@;
    let reset = state.observer.reset_sequence();
    out.extend_from_slice(&reset);
    assert(out@ =~= first + reset@);
    if out.len() > 0 {
        term.out(out);
    }
    state.observer.clear();
}

/// Bytes of acs's own over a stream that carries on afterwards: the program's
/// unfinished sequence is ended before them and re-opened after, where it can
/// be.
pub open spec fn over(s: StateView, bytes: Seq<u8>) -> Seq<u8> {
    interruption(s.observer.at) + bytes + match reopening(s.observer.at) {
        None => Seq::empty(),
        Some(b) => b,
    }
}

/// Write bytes of acs's own over a stream that carries on afterwards.
pub fn write_over_stream(state: &State, bytes: &[u8]) -> (out: Vec<u8>)
    ensures
        out@ == over(state@, bytes@),
{
    let mut out = state.observer.interrupt_sequence();
    let ghost a = out@;
    out.extend_from_slice(bytes);
    assert(out@ =~= a + bytes@);
    if let Some(again) = state.observer.reopen_sequence() {
        out.extend_from_slice(&again);
        assert(out@ =~= a + bytes@ + again@);
    } else {
        assert(out@ =~= a + bytes@ + Seq::<u8>::empty());
    }
    out
}

// ---- keys ------------------------------------------------------------------

/// Keys through the command detector: what they become.
pub open spec fn keyed(s: StateView, t: TermView, keys: Option<Seq<u8>>, now: u64) -> (
    StateView,
    TermView,
    Seq<u8>,
    Option<Action>,
) {
    let was = s.detector.state is Command;
    let r = match keys {
        Some(k) => fed(s.detector, k, now),
        None => ticked(s.detector, now),
    };
    let (s2, t2) = followed(StateView { detector: r.d, ..s }, t, was);
    (queued(s2, r.fwd), t2, queue_frames(s2, r.fwd), r.act)
}

/// Keys typed, or `None` once the detector's deadline has passed: what they
/// forward is queued, and the action they ask for is returned.
pub fn take_keys(
    state: &mut State,
    term: &mut Terminal,
    out: &mut Vec<u8>,
    keys: Option<&[u8]>,
    now: u64,
) -> (action: Option<Action>)
    requires
        old(state).wf(),
        crate::keys::clock_ok(old(state)@.detector.cfg, now),
    ensures
        final(state).wf(),
        ({
            let r = keyed(
                old(state)@,
                old(term)@,
                match keys {
                    Some(k) => Some(k@),
                    None => None,
                },
                now,
            );
            final(state)@ == r.0 && final(term)@ == r.1 && final(out)@ == old(out)@ + r.2
                && action == r.3
        }),
{
    let was = state.detector.armed();
    let o = match keys {
        Some(k) => state.detector.feed(k, now),
        None => state.detector.tick(now),
    };
    follow_detector(state, term, was);
    queue_input(state, out, &o.forward);
    o.action
}

/// When the detector has to be looked at again.
pub fn keys_deadline(state: &State) -> (r: Option<u64>)
    requires
        state.wf(),
    ensures
        r == deadline_of(state@.detector),
{
    state.detector.deadline()
}

// ---- what holds of it ------------------------------------------------------

/// The bytes of the session's stream that were put on the terminal.
pub open spec fn streamed(acts: Seq<ActView>) -> Seq<u8>
    decreases acts.len(),
{
    if acts.len() == 0 {
        Seq::empty()
    } else {
        streamed(acts.drop_last()) + match acts.last() {
            ActView::Out(b) => b,
            ActView::Note(_) => Seq::empty(),
        }
    }
}

proof fn lemma_streamed_notes(acts: Seq<ActView>, lines: Seq<Seq<char>>)
    ensures
        streamed(acts + notes_of(lines)) == streamed(acts),
    decreases lines.len(),
{
    let all = acts + notes_of(lines);
    if lines.len() == 0 {
        assert(all =~= acts);
    } else {
        assert(all.drop_last() =~= acts + notes_of(lines.drop_last()));
        assert(all.last() == ActView::Note(lines.last()));
        lemma_streamed_notes(acts, lines.drop_last());
        assert(streamed(acts) + Seq::<u8>::empty() =~= streamed(acts));
    }
}

proof fn lemma_streamed_out(t: TermView, bytes: Seq<u8>)
    ensures
        streamed(with_out(t, bytes).acts) == streamed(t.acts) + bytes,
{
    assert(t.acts.push(ActView::Out(bytes)).drop_last() =~= t.acts);
}

proof fn lemma_streamed_place(t: TermView, at: bool)
    ensures
        streamed(at_place(t, at).acts) == streamed(t.acts),
{
    if t.gate is Some {
        lemma_streamed_notes(t.acts, t.gate->0.held);
    }
}

/// Every byte of a frame reaches the terminal, in order, with nothing between
/// them but a bell that was waiting; and that only where the program's stream
/// stands outside any sequence and any character.
pub proof fn law_output_is_whole(s: StateView, t: TermView, bytes: Seq<u8>)
    ensures
        ({
            let (s2, t2) = output_written(s, t, bytes);
            let rung = s.bell_pending && !s2.bell_pending;
            &&& s2.observer == observed(s.observer, bytes)
            &&& !rung ==> streamed(t2.acts) == streamed(t.acts) + bytes
            &&& rung ==> exists|n: int|
                {
                    &&& #[trigger] first_boundary(s.observer, bytes, n)
                    &&& streamed(t2.acts) == streamed(t.acts) + (bytes.take(n).push(BEL)
                        + bytes.skip(n))
                }
        }),
{
    let (s1, t1) = frame_written(s, t, bytes);
    lemma_streamed_place(t1, boundary(s1.observer.at));
    if (!s.bell_pending && !is_waiting(t)) || !has_boundary(s.observer, bytes) {
        lemma_streamed_out(t, bytes);
    } else {
        let n = choose|n: int| first_boundary(s.observer, bytes, n);
        let head = if s.bell_pending {
            bytes.take(n).push(BEL)
        } else {
            bytes.take(n)
        };
        let a = with_out(t, head);
        lemma_streamed_out(t, head);
        lemma_streamed_place(a, true);
        lemma_streamed_out(at_place(a, true), bytes.skip(n));
        crate::wire::lemma_cat_assoc(streamed(t.acts), head, bytes.skip(n));
        assert(bytes.take(n) + bytes.skip(n) =~= bytes);
        assert(first_boundary(s.observer, bytes, n));
    }
}

/// The messages that carry `bytes` of input.
pub open spec fn input_msgs(seq: u64, bytes: Seq<u8>) -> Seq<MsgView>
    decreases bytes.len(),
{
    if bytes.len() == 0 {
        Seq::empty()
    } else if bytes.len() <= MAX_CHUNK {
        seq![MsgView::Input { seq, bytes }]
    } else {
        seq![MsgView::Input { seq, bytes: bytes.take(MAX_CHUNK as int) }] + input_msgs(
            around(seq, MAX_CHUNK as nat),
            bytes.skip(MAX_CHUNK as int),
        )
    }
}

/// The input that messages carry.
pub open spec fn input_of(v: Seq<MsgView>) -> Seq<u8>
    decreases v.len(),
{
    if v.len() == 0 {
        Seq::empty()
    } else {
        (match v[0] {
            MsgView::Input { bytes, .. } => bytes,
            _ => Seq::empty(),
        }) + input_of(v.skip(1))
    }
}

/// Input goes out whole and in order, in frames of at most one chunk each.
pub proof fn law_input_goes_out_whole(seq: u64, bytes: Seq<u8>)
    ensures
        frames(input_msgs(seq, bytes)) == input_frames(seq, bytes),
        input_of(input_msgs(seq, bytes)) == bytes,
    decreases bytes.len(),
{
    reveal(input_frame);
    reveal_with_fuel(frames, 2);
    reveal_with_fuel(input_of, 2);
    let msgs = input_msgs(seq, bytes);
    if bytes.len() == 0 {
    } else if bytes.len() <= MAX_CHUNK {
        assert(msgs.skip(1) =~= Seq::empty());
        assert(frame(msgs[0]) + Seq::<u8>::empty() =~= frame(msgs[0]));
        assert(bytes + Seq::<u8>::empty() =~= bytes);
    } else {
        let next = around(seq, MAX_CHUNK as nat);
        let rest = bytes.skip(MAX_CHUNK as int);
        law_input_goes_out_whole(next, rest);
        assert(msgs.skip(1) =~= input_msgs(next, rest));
        assert(bytes.take(MAX_CHUNK as int) + rest =~= bytes);
    }
}

} // verus!
