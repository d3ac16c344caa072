//! What holds of every link to a host.

use crate::client::notes::{hold_until, raised, with_out, TermView};
use crate::client::serve::{
    answered, attached, clear_screen, greeted, detached, displaced, ending, moved, output_taken, received,
    redrawn, refused, resized, timed, wait_for, All, LinkEnd, Outcome, RelayView, TurnView,
};
use crate::client::state::{
    followed, input_frames, input_msgs, input_of, keyed, law_input_goes_out_whole, law_output_is_whole, left,
    streamed, StateView,
};
use crate::keys::{deadline_of, fed, open_after};
use crate::modes::laws::{
    law_interruption_reaches_a_boundary, law_observing_in_pieces, law_places_are_reachable,
    law_resets_reset_everything,
};
use crate::modes::{
    boundary, clean, interruption, observed, reachable, resets, watched, ModesView,
};
use crate::proto::laws::frames;
use crate::proto::{err, frame, HelloView, MsgView, WelcomeView, WinSize};
use crate::reconnect::{after_tick, law_the_clock_is_looked_at_in_time, next_look};
use crate::resume::{around, UnackedView};
use vstd::prelude::*;

verus! {

// ---- how a session ends ----------------------------------------------------

/// A program that exits ends the client with the program's own code, and one that a
/// signal ended with 128 and the signal's number, as a shell says it.
pub proof fn law_the_program_s_end_is_ours(a: All, exit: u8, signal: u8, core: bool, now: u64)
    requires
        0 < signal < 127,
    ensures
        received(a, MsgView::Exit { status: (256 * exit) as i32 }, now).1 == TurnView::Over(
            Outcome::Exit(exit),
        ),
        received(
            a,
            MsgView::Exit {
                status: (signal + if core {
                    128int
                } else {
                    0
                }) as i32,
            },
            now,
        ).1 == TurnView::Over(Outcome::Exit((128 + signal) as u8)),
{
}

/// What ends a link on the host's word: a session that is not there ends the client
/// with 4, any other refusal with 1, a takeover with 3. The user is told each time.
pub proof fn law_the_end_is_told(a: All, c: u16, message: Seq<char>, now: u64)
    requires
        a.term.gate is None,
    ensures
        ({
            let (b, turn) = received(a, MsgView::Error { code: c, message }, now);
            &&& turn == TurnView::Over(
                Outcome::Exit(
                    if c == err::NO_SESSION {
                        4
                    } else {
                        1
                    },
                ),
            )
            &&& b.term.acts.len() > a.term.acts.len()
            &&& streamed(b.term.acts) == streamed(a.term.acts)
        }),
        received(a, MsgView::Takeover, now).1 == TurnView::Over(Outcome::Exit(3)),
        received(a, MsgView::Takeover, now).0.term.acts.len() > a.term.acts.len(),
{
    reveal(refused);
    reveal(displaced);
    reveal_with_fuel(streamed, 3);
    let b = received(a, MsgView::Error { code: c, message }, now).0;
    let n = a.term.acts.len();
    assert(b.term.acts.take(n as int) =~= a.term.acts);
    if b.term.acts.len() == n + 1 {
        assert(b.term.acts.drop_last() =~= a.term.acts);
    } else {
        assert(b.term.acts.drop_last().drop_last() =~= a.term.acts);
    }
}

/// A ping is answered with its own number, and nothing else comes of it.
pub proof fn law_a_ping_is_answered(a: All, n: u64, now: u64)
    ensures
        ({
            let (b, turn) = received(a, MsgView::Ping(n), now);
            &&& b.link.out == a.link.out + frame(MsgView::Pong(n))
            &&& b.link.dec == a.link.dec
            &&& b.state == a.state
            &&& b.term == a.term
            &&& turn is On
        }),
{
}

/// An acknowledgement lets go of exactly the input it covers; what is behind it is
/// still owed.
pub proof fn law_an_ack_lets_go_of_what_it_covers(a: All, k: nat, now: u64)
    requires
        k <= a.state.unacked.bytes.len(),
        a.state.unacked.seq + a.state.unacked.bytes.len() <= u64::MAX,
    ensures
        ({
            let u = a.state.unacked;
            let seq = (u.seq + k) as u64;
            let b = received(a, MsgView::Ack { seq }, now).0;
            &&& b.state.unacked.bytes == u.bytes.skip(k as int)
            &&& b.state.unacked.seq == seq
            &&& b.link.out == a.link.out
            &&& b.term == a.term
        }),
{
    let u = a.state.unacked;
    assert(u.bytes.skip(0) =~= u.bytes);
    if k == u.bytes.len() {
        assert(u.bytes.skip(k as int) =~= Seq::empty());
    }
}

/// Output goes to the terminal once: what was already written is left out, whatever the
/// host sends again, and nothing of the rest is missing.
pub proof fn law_output_is_written_once(a: All, offset: u64, bytes: Seq<u8>, now: u64)
    requires
        a.link.welcomed,
        !a.state.bell_pending,
        offset <= a.state.offset,
        offset + bytes.len() <= u64::MAX,
    ensures
        ({
            let b = received(a, MsgView::Data { offset, bytes }, now).0;
            let end = offset + bytes.len();
            &&& end <= a.state.offset ==> b == a
            &&& end >= a.state.offset ==> b.state.offset == end && streamed(b.term.acts)
                == streamed(a.term.acts) + bytes.skip(a.state.offset - offset)
            &&& b.state.unacked == a.state.unacked
            &&& b.link == a.link
        }),
{
    reveal(output_taken);
    let skip = a.state.offset - offset;
    if skip < bytes.len() {
        law_output_is_whole(a.state, a.term, bytes.skip(skip));
    } else {
        if skip == bytes.len() {
            assert(bytes.skip(skip) =~= Seq::empty());
            assert(streamed(a.term.acts) + Seq::<u8>::empty() =~= streamed(a.term.acts));
        }
    }
}

// ---- the terminal ----------------------------------------------------------

/// What was put on the terminal between two states undoes what the program had switched
/// on, wherever in its stream the program stood.
pub open spec fn undone(before: ModesView, a: TermView, b: TermView) -> bool {
    exists|out: Seq<u8>| #[trigger]
        undoes(before, out) && streamed(b.acts) == streamed(a.acts) + out
}

/// These bytes leave a terminal with every mode at its default, and outside any sequence.
pub open spec fn undoes(v: ModesView, out: Seq<u8>) -> bool {
    observed(v, out).modes == clean() && boundary(observed(v, out).at)
}

proof fn lemma_undoes(v: ModesView)
    requires
        reachable(v.at),
        forall|m: u16| v.modes.dec.contains(m) ==> #[trigger] watched().contains(m),
    ensures
        undoes(v, interruption(v.at) + resets(v.modes)),
{
    let first = interruption(v.at);
    law_interruption_reaches_a_boundary(v);
    law_places_are_reachable(v, first);
    law_observing_in_pieces(v, first, resets(v.modes));
    law_resets_reset_everything(observed(v, first));
}

proof fn lemma_out_streamed(t: TermView, out: Seq<u8>)
    ensures
        streamed(with_out(t, out).acts) == streamed(t.acts) + out,
{
    assert(with_out(t, out).acts.drop_last() =~= t.acts);
}

proof fn lemma_raised_streamed(t: TermView, line: Seq<char>, now: u64)
    ensures
        streamed(raised(t, line, now).acts) == streamed(t.acts),
{
    if raised(t, line, now).acts.len() > t.acts.len() {
        assert(raised(t, line, now).acts.drop_last() =~= t.acts);
        assert(streamed(t.acts) + Seq::<u8>::empty() =~= streamed(t.acts));
    }
}

proof fn lemma_left(s: StateView, t: TermView)
    requires
        reachable(s.observer.at),
        forall|m: u16| s.observer.modes.dec.contains(m) ==> #[trigger] watched().contains(m),
    ensures
        undone(s.observer, t, left(s, t).1),
        left(s, t).0.observer.modes == clean(),
{
    let out = interruption(s.observer.at) + resets(s.observer.modes);
    lemma_undoes(s.observer);
    lemma_out_streamed(t, out);
    if out.len() == 0 {
        assert(out =~= Seq::empty());
        assert(streamed(t.acts) + out =~= streamed(t.acts));
    }
    assert(undoes(s.observer, out));
}

/// However a client leaves its session, on the user's word or because somebody else
/// took it, the terminal is as it was found: everything the program switched on is off.
pub proof fn law_the_terminal_is_put_back(a: All, now: u64)
    requires
        reachable(a.state.observer.at),
        forall|m: u16| a.state.observer.modes.dec.contains(m) ==> #[trigger] watched().contains(m),
    ensures
        undone(a.state.observer, a.term, detached(a, now).term),
        undone(a.state.observer, a.term, received(a, MsgView::Takeover, now).0.term),
        detached(a, now).state.observer.modes == clean(),
        detached(a, now).link == a.link,
{
    reveal(displaced);
    lemma_left(a.state, a.term);
    let t = left(a.state, a.term).1;
    let out = choose|out: Seq<u8>| #[trigger]
        undoes(a.state.observer, out) && streamed(t.acts) == streamed(a.term.acts) + out;
    lemma_one_note(t, detached(a, now).term, now);
    lemma_one_note(t, received(a, MsgView::Takeover, now).0.term, now);
    assert(undoes(a.state.observer, out));
}

proof fn lemma_one_note(t: TermView, u: TermView, now: u64)
    requires
        exists|line: Seq<char>| u == #[trigger] raised(t, line, now),
    ensures
        streamed(u.acts) == streamed(t.acts),
{
    let line = choose|line: Seq<char>| u == #[trigger] raised(t, line, now);
    lemma_raised_streamed(t, line, now);
}

/// The screen when a session is attached: where the output carries on nothing is written;
/// where it begins anew what the last program switched on is undone, and the screen is
/// cleared unless the session is new; across a gap it is cleared and the program's modes
/// are kept.
pub proof fn law_the_screen_follows_the_attach(s: StateView, t: TermView, w: WelcomeView)
    requires
        reachable(s.observer.at),
        forall|m: u16| s.observer.modes.dec.contains(m) ==> #[trigger] watched().contains(m),
    ensures
        ({
            let (s2, t2) = redrawn(s, t, w);
            let wiped = clear_screen() == seq![0x1bu8, 0x5b, 0x48, 0x1b, 0x5b, 0x4a];
            &&& wiped
            &&& w.kind is Resumed ==> s2 == s && t2 == t
            &&& w.kind is Fresh && w.created ==> undone(s.observer, t, t2) && s2.observer.modes
                == clean()
            &&& w.kind is Fresh && !w.created ==> s2.observer.modes == clean() && exists|
                out: Seq<u8>,
            |
                #[trigger] undoes(s.observer, out) && streamed(t2.acts) == streamed(t.acts) + out
                    + clear_screen()
            &&& w.kind is Gap ==> s2.observer.modes == s.observer.modes && streamed(t2.acts)
                == streamed(t.acts) + interruption(s.observer.at) + clear_screen()
        }),
{
    let out = interruption(s.observer.at) + resets(s.observer.modes);
    lemma_undoes(s.observer);
    lemma_left(s, t);
    let (s2, t2) = redrawn(s, t, w);
    if w.kind is Fresh && w.created {
        assert(out + Seq::<u8>::empty() =~= out);
        assert(t2 == left(s, t).1);
    } else if w.kind is Fresh {
        lemma_out_streamed(t, out + clear_screen());
        assert(streamed(t.acts) + (out + clear_screen()) =~= streamed(t.acts) + out
            + clear_screen());
    } else if w.kind is Gap {
        let cut = interruption(s.observer.at);
        lemma_out_streamed(t, cut + clear_screen());
        assert(streamed(t.acts) + (cut + clear_screen()) =~= streamed(t.acts) + cut
            + clear_screen());
    }
}

// ---- what goes out ---------------------------------------------------------

proof fn lemma_frames_cat(a: Seq<MsgView>, b: Seq<MsgView>)
    ensures
        frames(a + b) == frames(a) + frames(b),
    decreases a.len(),
{
    if a.len() == 0 {
        assert(a + b =~= b);
        assert(Seq::<u8>::empty() + frames(b) =~= frames(b));
    } else {
        lemma_frames_cat(a.skip(1), b);
        assert((a + b).skip(1) =~= a.skip(1) + b);
        assert((frame(a[0]) + frames(a.skip(1))) + frames(b) =~= frame(a[0]) + (frames(a.skip(1))
            + frames(b)));
    }
}

proof fn lemma_input_cat(a: Seq<MsgView>, b: Seq<MsgView>)
    ensures
        input_of(a + b) == input_of(a) + input_of(b),
    decreases a.len(),
{
    if a.len() == 0 {
        assert(a + b =~= b);
        assert(Seq::<u8>::empty() + input_of(b) =~= input_of(b));
    } else {
        lemma_input_cat(a.skip(1), b);
        assert((a + b).skip(1) =~= a.skip(1) + b);
        assert(input_of(a + b) =~= input_of(a) + input_of(b));
    }
}

/// These messages are what goes out, and their input is this.
pub open spec fn goes_out(before: Seq<u8>, after: Seq<u8>, msgs: Seq<MsgView>, input: Seq<u8>) -> bool {
    after == before + frames(msgs) && input_of(msgs) == input
}

/// The messages are input, but for a last one that tells a size where there is one.
pub open spec fn ends_in(msgs: Seq<MsgView>, size: Option<WinSize>) -> bool {
    match size {
        Some(z) => msgs.len() > 0 && msgs.last() == MsgView::Resize(z),
        None => forall|k: int| 0 <= k < msgs.len() ==> (#[trigger] msgs[k]) is Input,
    }
}

/// Ctrl-L is typed for the user once attached: where they want a redraw, the session was
/// there before, and no paste is open.
pub open spec fn redraws(s: StateView, w: WelcomeView) -> bool {
    !w.created && s.redraw_on_reconnect && !open_after(false, s.paste)
}

/// What the program is owed once attached.
pub open spec fn owed(s: StateView, w: WelcomeView) -> Seq<u8> {
    s.unacked.bytes + if redraws(s, w) {
        seq![0x0cu8]
    } else {
        Seq::empty()
    }
}

/// Once attached, everything the program may not have had of what was typed goes out
/// again, in order and once, behind it the Ctrl-L where there is one; then the size of
/// the terminal where it has changed since it was last told.
pub proof fn law_an_attach_sends_what_is_owed(a: All, w: WelcomeView, size: Option<WinSize>)
    ensures
        ({
            let told = size is Some && size->0 != a.link.sent_size;
            let b = attached(a, w, size);
            exists|msgs: Seq<MsgView>| #[trigger]
                goes_out(a.link.out, b.link.out, msgs, owed(a.state, w)) && ends_in(
                    msgs,
                    if told {
                        size
                    } else {
                        None
                    },
                )
        }),
{
    let b = attached(a, w, size);
    let s = a.state;
    let more = if redraws(s, w) {
        seq![0x0cu8]
    } else {
        Seq::empty()
    };
    let at = around(s.unacked.seq, s.unacked.bytes.len());
    let out = input_frames(s.unacked.seq, s.unacked.bytes);
    assert(input_frames(at, Seq::<u8>::empty()) =~= Seq::empty());
    assert(out + Seq::<u8>::empty() =~= out);
    assert(redrawn(s, a.term, w).0.unacked == s.unacked);
    if size is Some && size->0 != a.link.sent_size {
        let last = MsgView::Resize(size->0);
        let msgs = lemma_owed(s.unacked, more, seq![last]);
        assert(a.link.out + out + input_frames(at, more) + frame(last) =~= a.link.out + (out
            + input_frames(at, more) + frame(last)));
        assert(goes_out(a.link.out, b.link.out, msgs, owed(s, w)));
        assert(ends_in(msgs, size));
    } else {
        let msgs = lemma_owed(s.unacked, more, Seq::empty());
        assert(a.link.out + out + input_frames(at, more) =~= a.link.out + (out + input_frames(
            at,
            more,
        ) + Seq::empty()));
        assert(goes_out(a.link.out, b.link.out, msgs, owed(s, w)));
        assert(ends_in(msgs, None));
    }
}

/// Once attached, what goes out stays owed until it is acknowledged, the output is
/// counted from where the host says, and a takeover that was asked for is not asked
/// again.
pub proof fn law_an_attach_settles_the_session(a: All, w: WelcomeView, size: Option<WinSize>)
    ensures
        ({
            let b = attached(a, w, size);
            &&& b.state.unacked.bytes == owed(a.state, w)
            &&& b.state.unacked.seq == a.state.unacked.seq
            &&& b.state.offset == w.offset
            &&& b.state.attached_once && !b.state.force_next
            &&& b.state.session == a.state.session && b.state.instance == a.state.instance
            &&& size is Some ==> b.link.sent_size == size->0
            &&& size is None ==> b.link.sent_size == a.link.sent_size
        }),
{
    let u = a.state.unacked.bytes;
    assert(u + Seq::<u8>::empty() =~= u);
}

/// The messages with what is owed, then more input, then what carries none.
proof fn lemma_owed(u: UnackedView, more: Seq<u8>, last: Seq<MsgView>) -> (msgs: Seq<MsgView>)
    requires
        last.len() <= 1,
        last.len() == 1 ==> !(last[0] is Input),
    ensures
        frames(msgs) == input_frames(u.seq, u.bytes) + input_frames(
            around(u.seq, u.bytes.len()),
            more,
        ) + if last.len() == 1 {
            frame(last[0])
        } else {
            Seq::empty()
        },
        input_of(msgs) == u.bytes + more,
        last.len() == 1 ==> msgs.len() > 0 && msgs.last() == last[0],
        last.len() == 0 ==> forall|k: int| 0 <= k < msgs.len() ==> (#[trigger] msgs[k]) is Input,
{
    let at = around(u.seq, u.bytes.len());
    let m1 = input_msgs(u.seq, u.bytes);
    let m2 = input_msgs(at, more);
    law_input_goes_out_whole(u.seq, u.bytes);
    lemma_only_input(u.seq, u.bytes);
    law_input_goes_out_whole(at, more);
    lemma_only_input(at, more);
    lemma_frames_cat(m1, m2);
    lemma_frames_cat(m1 + m2, last);
    lemma_input_cat(m1, m2);
    lemma_input_cat(m1 + m2, last);
    let msgs = m1 + m2 + last;
    reveal_with_fuel(frames, 2);
    reveal_with_fuel(input_of, 2);
    if last.len() == 1 {
        assert(last.skip(1) =~= Seq::empty());
        assert(frame(last[0]) + Seq::<u8>::empty() =~= frame(last[0]));
        assert(msgs.last() == last[0]);
    } else {
        assert(last =~= Seq::empty());
        assert forall|k: int| 0 <= k < msgs.len() implies (#[trigger] msgs[k]) is Input by {
            if k < m1.len() {
                assert(msgs[k] == m1[k]);
            } else {
                assert(msgs[k] == m2[k - m1.len()]);
            }
        }
    }
    assert(input_of(last) =~= Seq::empty());
    assert(u.bytes + more + Seq::<u8>::empty() =~= u.bytes + more);
    msgs
}

proof fn lemma_only_input(seq: u64, bytes: Seq<u8>)
    ensures
        forall|k: int|
            0 <= k < input_msgs(seq, bytes).len() ==> (#[trigger] input_msgs(seq, bytes)[k])
                is Input,
    decreases bytes.len(),
{
    if bytes.len() > crate::proto::MAX_CHUNK {
        let next = around(seq, crate::proto::MAX_CHUNK as nat);
        let rest = bytes.skip(crate::proto::MAX_CHUNK as int);
        lemma_only_input(next, rest);
        assert forall|k: int| 0 <= k < input_msgs(seq, bytes).len() implies (
        #[trigger] input_msgs(seq, bytes)[k]) is Input by {
            if k > 0 {
                assert(input_msgs(seq, bytes)[k] == input_msgs(next, rest)[k - 1]);
            }
        }
    }
}

/// What the user types and acs does not take for itself is owed to the program from then
/// on, and goes out behind what is owed already.
pub proof fn law_what_is_typed_is_sent(s: StateView, t: TermView, keys: Seq<u8>, now: u64)
    ensures
        ({
            let (s2, t2, out, act) = keyed(s, t, Some(keys), now);
            let r = fed(s.detector, keys, now);
            &&& s2.unacked.bytes == s.unacked.bytes + r.fwd
            &&& s2.unacked.seq == s.unacked.seq
            &&& s2.detector == r.d
            &&& act == r.act
            &&& s2.offset == s.offset && s2.session == s.session && s2.instance == s.instance
            &&& exists|msgs: Seq<MsgView>| #[trigger]
                goes_out(Seq::empty(), out, msgs, r.fwd) && (msgs.len() > 0 ==> msgs[0]->Input_seq
                    == around(s.unacked.seq, s.unacked.bytes.len()))
        }),
{
    let r = fed(s.detector, keys, now);
    let at = around(s.unacked.seq, s.unacked.bytes.len());
    let msgs = input_msgs(at, r.fwd);
    law_input_goes_out_whole(at, r.fwd);
    let out = keyed(s, t, Some(keys), now).2;
    assert(Seq::<u8>::empty() + frames(msgs) =~= frames(msgs));
    assert(goes_out(Seq::empty(), out, msgs, r.fwd));
}

/// The host is told of a new size, of the end of the session, and is asked whether it is
/// there, each with one message; before it has welcomed us it is told nothing of the
/// first and asked nothing.
pub proof fn law_the_host_is_told(l: RelayView, size: WinSize, now: u64)
    ensures
        l.welcomed ==> resized(l, size).out == l.out + frame(MsgView::Resize(size)),
        !l.welcomed ==> resized(l, size) == l,
        ending(l).out == l.out + frame(MsgView::Kill),
        ending(l).exiting,
        moved(l, now).1 == l.welcomed,
        l.welcomed ==> moved(l, now).0.out == l.out + frame(MsgView::Ping(l.live.nonce))
            && moved(l, now).0.live.question is Some,
        !l.welcomed ==> moved(l, now).0 == l,
{
}

/// A takeover that the user declines ends the client with 3, with nothing sent; one they
/// agree to sends the HELLO, and the host has its whole time again.
pub proof fn law_a_takeover_is_asked_for(l: RelayView, s: StateView, h: HelloView, now: u64)
    requires
        now + l.handshake_ms <= u64::MAX,
    ensures
        answered(l, s, None, now) == (l, s, TurnView::Over(Outcome::Exit(3))),
        ({
            let (l2, s2, turn) = answered(l, s, Some(h), now);
            &&& l2.out == l.out + frame(MsgView::Hello(h))
            &&& l2.handshake_until == now + l.handshake_ms
            &&& l2.sent_size == h.size
            &&& s2 == (StateView { force_next: true, ..s })
            &&& turn is On
        }),
{
}

// ---- the clock -------------------------------------------------------------

/// Until the time the loop waits for, a look at the clock changes nothing; and the loop
/// waits no longer than until a held note is to be written or a held key let go.
pub proof fn law_nothing_is_due_while_waiting(
    a: All,
    dest: Seq<char>,
    within: Seq<char>,
    now: u64,
    then: u64,
)
    requires
        now <= then < now + wait_for(a, now),
    ensures
        timed(a, dest, within, then) == (a, None::<Outcome>),
        hold_until(a.term) is Some ==> then < hold_until(a.term)->0,
        deadline_of(a.state.detector) is Some ==> then < deadline_of(a.state.detector)->0,
{
    law_the_clock_is_looked_at_in_time(a.link.live, then);
    assert(a.link.out + Seq::<u8>::empty() =~= a.link.out);
    assert(timed(a, dest, within, then).0.link =~= a.link);
}

/// A host that has not welcomed us in its time: a session that we had before is dialed
/// again; a first connection ends the client with 255, and the user is told.
pub proof fn law_a_host_that_does_not_answer(
    a: All,
    dest: Seq<char>,
    within: Seq<char>,
    now: u64,
)
    requires
        !a.link.welcomed,
    ensures
        now < a.link.handshake_until ==> timed(a, dest, within, now) == (a, None::<Outcome>),
        now >= a.link.handshake_until && a.state.instance is Some ==> timed(a, dest, within, now)
            == (a, Some(Outcome::LinkLost(LinkEnd::Silent))),
        now >= a.link.handshake_until && a.state.instance is None ==> timed(
            a,
            dest,
            within,
            now,
        ).1 == Some(Outcome::Exit(255)) && timed(a, dest, within, now).0.term != a.term,
{
    if now >= a.link.handshake_until && a.state.instance is None {
        let t = timed(a, dest, within, now).0.term;
        if a.term.gate is Some && a.term.gate->0.mid_sequence {
            assert(t.gate->0.held.len() == a.term.gate->0.held.len() + 1);
        } else {
            assert(t.acts.len() == a.term.acts.len() + 1);
        }
    }
}

/// A welcomed link is lost exactly when its host is given up.
pub proof fn law_a_silent_host_is_lost(a: All, dest: Seq<char>, within: Seq<char>, now: u64)
    requires
        a.link.welcomed,
    ensures
        ({
            let (b, end) = timed(a, dest, within, now);
            &&& end == if after_tick(a.link.live, now).2 is Dead {
                Some(Outcome::LinkLost(LinkEnd::Silent))
            } else {
                None
            }
            &&& end is None && now >= next_look(a.link.live) ==> b.link.out == a.link.out + frame(
                MsgView::Ping(a.link.live.nonce),
            )
            &&& b.state == a.state && b.term == a.term
        }),
{
    law_the_clock_is_looked_at_in_time(a.link.live, now);
}

// ---- being welcomed --------------------------------------------------------

/// A session that was restarted is another one: nothing typed for the last is sent to it,
/// and the user is told. One that is the same is owed exactly what it has not had.
pub proof fn law_a_restarted_session_is_another(a: All, w: WelcomeView, now: u64)
    requires
        !a.link.welcomed,
        a.term.gate is None,
    ensures
        ({
            let (b, turn) = received(a, MsgView::Welcome(w), now);
            let same = a.state.instance == Some(w.instance);
            &&& turn == TurnView::Raw(w)
            &&& b.link.welcomed
            &&& b.state.session == Some(w.session) && b.state.instance == Some(w.instance)
            &&& !same ==> b.state.unacked.bytes.len() == 0 && b.state.unacked.seq == w.input_seq
            &&& same && w.input_seq <= a.state.unacked.seq ==> b.state.unacked == a.state.unacked
            &&& a.state.instance is Some && !same ==> b.term.acts.len() > a.term.acts.len()
            &&& same && !w.created ==> b.term == a.term
            &&& streamed(b.term.acts) == streamed(a.term.acts)
        }),
{
    reveal(greeted);
    reveal_with_fuel(streamed, 3);
    let b = received(a, MsgView::Welcome(w), now).0;
    let n = a.term.acts.len();
    if b.term.acts.len() == n + 1 {
        assert(b.term.acts.drop_last() =~= a.term.acts);
    } else if b.term.acts.len() == n + 2 {
        assert(b.term.acts.drop_last().drop_last() =~= a.term.acts);
    }
}

/// The bell rings once as command mode arms, where the user wants it, and never inside a
/// sequence of the program's: there it waits; once command mode is over none is left.
pub proof fn law_the_bell_rings_as_command_mode_arms(s: StateView, t: TermView, was: bool)
    ensures
        ({
            let (s2, t2) = followed(s, t, was);
            let arms = s.detector.state is Command && !was && s.command_bell;
            &&& arms && boundary(s.observer.at) ==> streamed(t2.acts) == streamed(t.acts).push(
                0x07,
            )
            &&& arms && !boundary(s.observer.at) ==> s2.bell_pending && t2 == t
            &&& !arms ==> t2 == t
            &&& !(s.detector.state is Command) ==> !s2.bell_pending
            &&& s2 == (StateView { bell_pending: s2.bell_pending, ..s })
        }),
{
    let (s2, t2) = followed(s, t, was);
    lemma_out_streamed(t, seq![0x07u8]);
    assert(streamed(t.acts) + seq![0x07u8] =~= streamed(t.acts).push(0x07));
}

} // verus!
