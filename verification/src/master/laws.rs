//! What holds of every session.

use crate::master::step::{acknowledged, closing_words, fed, input_dropped, printed, pumped};
use crate::master::{
    active_of, attached, begun, busy_with, displaced, greeted, handled, input_taken, kill_asked,
    lemma_active_is, lemma_none_active, lemma_only_active, resume_at, sent, sound, status_of,
    to_pty, ConnState, ConnView, MasterView, Moment, TodoView,
};
use crate::proto::laws::frames;
use crate::proto::{
    frame, AttachKind, HelloView, MsgView, StatusView, WelcomeView, MAX_CHUNK, PROTO_VERSION,
};
use crate::resume::{
    data_from, keeps, law_the_newest_output_is_kept, pushed, ring_end, RingView,
};
use crate::wire::lemma_cat_assoc;
use vstd::prelude::*;

verus! {

/// The messages that carry the output kept from `next` on.
pub open spec fn data_msgs(next: u64, ring: RingView) -> Seq<MsgView>
    decreases ring_end(ring) - next,
{
    if next >= ring_end(ring) || next < ring.start || ring_end(ring) > u64::MAX {
        Seq::empty()
    } else {
        let bytes = data_from(ring, next, MAX_CHUNK as nat);
        seq![MsgView::Data { offset: next, bytes }] + data_msgs(
            (next + bytes.len()) as u64,
            ring,
        )
    }
}

/// The output that messages carry.
pub open spec fn output_of(v: Seq<MsgView>) -> Seq<u8>
    decreases v.len(),
{
    if v.len() == 0 {
        Seq::empty()
    } else {
        (match v[0] {
            MsgView::Data { bytes, .. } => bytes,
            _ => Seq::empty(),
        }) + output_of(v.skip(1))
    }
}

/// At the end of a session, everything the attached client was not sent yet
/// goes out whole and in order.
pub proof fn law_the_rest_goes_out_whole(out: Seq<u8>, next: u64, ring: RingView)
    requires
        ring.start <= next <= ring_end(ring) <= u64::MAX,
    ensures
        pumped(out, next, ring, true) == (
            out + frames(data_msgs(next, ring)),
            ring_end(ring) as u64,
        ),
        output_of(data_msgs(next, ring)) == ring.bytes.skip(next - ring.start),
    decreases ring_end(ring) - next,
{
    reveal_with_fuel(frames, 2);
    reveal_with_fuel(output_of, 2);
    let msgs = data_msgs(next, ring);
    if next == ring_end(ring) {
        assert(out + Seq::<u8>::empty() =~= out);
        assert(ring.bytes.skip(next - ring.start) =~= Seq::empty());
    } else {
        let bytes = data_from(ring, next, MAX_CHUNK as nat);
        let first = MsgView::Data { offset: next, bytes };
        let then = (next + bytes.len()) as u64;
        law_the_rest_goes_out_whole(out + frame(first), then, ring);
        assert(msgs.skip(1) =~= data_msgs(then, ring));
        lemma_cat_assoc(out, frame(first), frames(data_msgs(then, ring)));
        assert(bytes + ring.bytes.skip(then - ring.start) =~= ring.bytes.skip(next - ring.start));
    }
}

/// What a client is sent is a prefix of what it would be sent at the end: the
/// high-water mark holds output back, and never loses or reorders any.
pub proof fn law_pumping_only_waits(out: Seq<u8>, next: u64, ring: RingView)
    requires
        ring.start <= next <= ring_end(ring) <= u64::MAX,
    ensures
        ({
            let (o, n) = pumped(out, next, ring, false);
            &&& next <= n <= ring_end(ring)
            &&& pumped(o, n, ring, true) == pumped(out, next, ring, true)
        }),
    decreases ring_end(ring) - next,
{
    if next < ring_end(ring) && out.len() < crate::master::OUT_HIGH_WATER {
        let bytes = data_from(ring, next, MAX_CHUNK as nat);
        law_pumping_only_waits(
            out + frame(MsgView::Data { offset: next, bytes }),
            (next + bytes.len()) as u64,
            ring,
        );
    }
}

/// The status is the last thing the attached client is sent, behind everything
/// the program printed.
pub proof fn law_the_status_comes_last(m: MasterView)
    requires
        sound(m),
        active_of(m) is Some,
        m.child is Some,
        m.child->0.status is Some,
    ensures
        ({
            let a = active_of(m)->0;
            let c = m.conns[a];
            closing_words(m).conns[a].out == c.out + frames(data_msgs(c.state->next, m.ring)) + frame(
                MsgView::Exit { status: m.child->0.status->0 },
            )
        }),
{
    lemma_active_is(m);
    let a = active_of(m)->0;
    let c = m.conns[a];
    assert(attached(c));
    law_the_rest_goes_out_whole(c.out, c.state->next, m.ring);
    let w = fed(m, true);
    lemma_active_stays(m, w, 0);
}

/// Only one connection has changed, and it is attached as before.
proof fn lemma_active_stays(m: MasterView, w: MasterView, from: int)
    requires
        0 <= from,
        m.conns.len() == w.conns.len(),
        forall|k: int| 0 <= k < m.conns.len() ==> #[trigger] attached(w.conns[k]) == attached(
            m.conns[k],
        ),
    ensures
        crate::master::active_from(w.conns, from) == crate::master::active_from(m.conns, from),
    decreases m.conns.len() - from,
{
    if from < m.conns.len() {
        assert(attached(w.conns[from]) == attached(m.conns[from]));
        lemma_active_stays(m, w, from + 1);
    }
}

/// A client that another identity's session was refused to cannot end that
/// session: a KILL that is answered BUSY changes nothing but what the asker is
/// told.
pub proof fn law_a_refused_kill_ends_nothing(
    m: MasterView,
    i: int,
    identity: Seq<char>,
    now: u64,
)
    requires
        0 <= i < m.conns.len(),
        active_of(m) is Some,
        m.conns[active_of(m)->0].identity.len() > 0,
        m.conns[active_of(m)->0].identity != identity,
    ensures
        kill_asked(m, i, identity, false, now).1 is Nothing,
        kill_asked(m, i, identity, false, now).0 == sent(
            m,
            i,
            MsgView::Busy {
                identity: m.conns[active_of(m)->0].identity,
                since: m.conns[active_of(m)->0].since,
            },
        ),
{
}

/// A session that another identity is attached to is not taken without force:
/// the client is told who has it, and everybody else is left as they are.
pub proof fn law_a_takeover_takes_force(m: MasterView, i: int, h: HelloView, unix: u64, now: u64)
    requires
        0 <= i < m.conns.len(),
        h.proto == PROTO_VERSION,
        h.session == m.session,
        !(h.mode is Create),
        m.child is Some,
        active_of(m) is Some,
        m.conns[active_of(m)->0].identity.len() > 0,
        m.conns[active_of(m)->0].identity != h.identity,
        !h.force,
    ensures
        greeted(m, i, h, unix, now).1 is Nothing,
        forall|k: int|
            0 <= k < m.conns.len() && k != i ==> (#[trigger] greeted(m, i, h, unix, now).0.conns[k])
                == m.conns[k],
        greeted(m, i, h, unix, now).0.conns[i].state == m.conns[i].state,
{
    reveal(greeted);
}

/// A client that resumes the session it was attached to is sent exactly what it
/// has not seen, as long as that is still kept.
pub proof fn law_a_resume_goes_on_where_it_stopped(m: MasterView, h: HelloView)
    requires
        h.resume is Some,
        h.resume->0.instance == m.instance,
        m.ring.start <= h.resume->0.offset <= ring_end(m.ring) <= u64::MAX,
    ensures
        resume_at(m, h, false).0 == h.resume->0.offset,
        resume_at(m, h, false).1 is Resumed,
        output_of(data_msgs(resume_at(m, h, false).0, m.ring)) == m.ring.bytes.skip(
            h.resume->0.offset - m.ring.start,
        ),
{
    law_the_rest_goes_out_whole(Seq::empty(), h.resume->0.offset, m.ring);
}

/// Input is acknowledged once it has reached the pty, and not before: what is
/// still queued, and what was dropped, is not.
pub proof fn law_only_what_was_written_is_acknowledged(m: MasterView)
    requires
        sound(m),
    ensures
        acknowledged(m).acked == m.written - m.pty_in.len(),
        to_pty(input_dropped(m)) == to_pty(m),
        sound(input_dropped(m)),
{
}

/// Input that is sent again is written once.
pub proof fn law_input_is_written_once(m: MasterView, i: int, seq: u64, bytes: Seq<u8>, now: u64)
    requires
        sound(m),
        0 <= i < m.conns.len(),
        seq + bytes.len() <= u64::MAX,
    ensures
        ({
            let once = input_taken(m, i, seq, bytes, now);
            let twice = input_taken(once, i, seq, bytes, now);
            twice.pty_in == once.pty_in && twice.written == once.written
        }),
{
    let once = input_taken(m, i, seq, bytes, now);
    assert(once.pty_in + Seq::<u8>::empty() =~= once.pty_in);
}

// ---- attaching -------------------------------------------------------------

/// A HELLO that fits the session: its protocol, its name, and whether it is there.
pub open spec fn fits(m: MasterView, h: HelloView) -> bool {
    &&& h.proto == PROTO_VERSION
    &&& h.session == m.session
    &&& m.child is Some ==> !(h.mode is Create)
    &&& m.child is None ==> !(h.mode is Attach)
}

/// Somebody of another identity is attached.
pub open spec fn held_by_another(m: MasterView, identity: Seq<char>) -> bool {
    exists|k: int|
        0 <= k < m.conns.len() && (#[trigger] m.conns[k]).state is Active && !m.conns[k].dead
            && m.conns[k].identity.len() > 0 && m.conns[k].identity != identity
}

proof fn lemma_held(m: MasterView, identity: Seq<char>, force: bool)
    requires
        sound(m),
    ensures
        busy_with(m, identity, force) is Some <==> !force && held_by_another(m, identity),
        busy_with(m, identity, force) matches Some(b) ==> exists|k: int|
            0 <= k < m.conns.len() && attached(#[trigger] m.conns[k]) && b == (MsgView::Busy {
                identity: m.conns[k].identity,
                since: m.conns[k].since,
            }),
{
    lemma_active_is(m);
    match active_of(m) {
        Some(a) => {
            lemma_only_active(m, a);
            assert forall|k: int|
                0 <= k < m.conns.len() && (#[trigger] m.conns[k]).state is Active
                    && !m.conns[k].dead implies k == a by {
                assert(attached(m.conns[k]));
            }
        },
        None => {
            lemma_none_active(m);
            assert forall|k: int| 0 <= k < m.conns.len() implies !((
            #[trigger] m.conns[k]).state is Active && !m.conns[k].dead) by {
                assert(!attached(m.conns[k]));
            }
        },
    }
}

/// Who is let in to a session that runs: whoever greets it as it is, unless somebody of
/// another identity is attached and is not to be pushed out. Everybody else hears why,
/// and whoever was attached stays.
pub proof fn law_who_is_let_in(m: MasterView, i: int, h: HelloView, t: Moment)
    requires
        sound(m),
        0 <= i < m.conns.len(),
        m.conns[i].state is Pending,
        !m.conns[i].dead,
        m.child is Some,
    ensures
        ({
            let n = handled(m, i, MsgView::Hello(h), t).0;
            let c = n.conns[i];
            &&& n.conns.len() == m.conns.len()
            &&& (c.state is Active && !c.dead) <==> fits(m, h) && (h.force || !held_by_another(
                m,
                h.identity,
            ))
            &&& c.state is Active ==> c.identity == h.identity && c.since == t.unix
                && n.last_identity == h.identity && n.creator == m.creator
            &&& forall|k: int|
                0 <= k < m.conns.len() && k != i ==> (#[trigger] n.conns[k]) == if c.state is Active
                    && m.conns[k].state is Active && !m.conns[k].dead {
                    ConnView {
                        state: ConnState::Closing,
                        out: m.conns[k].out + frame(MsgView::Takeover),
                        ..m.conns[k]
                    }
                } else {
                    m.conns[k]
                }
            &&& n.ring == m.ring
            &&& n.pty_in == m.pty_in
            &&& n.child == m.child
        }),
{
    reveal(greeted);
    lemma_held(m, h.identity, h.force);
    lemma_active_is(m);
    if active_of(m) is Some {
        let a = active_of(m)->0;
        lemma_only_active(m, a);
        assert(attached(m.conns[a]));
    } else {
        lemma_none_active(m);
    }
    assert forall|k: int| 0 <= k < m.conns.len() implies attached(#[trigger] m.conns[k]) == (
    active_of(m) == Some(k)) by {}
}

/// The first client of a session has its program started.
pub proof fn lemma_first_hello(m: MasterView, i: int, h: HelloView, t: Moment)
    requires
        sound(m),
        0 <= i < m.conns.len(),
        m.conns[i].state is Pending,
        m.child is None,
        fits(m, h),
        h.force || !held_by_another(m, h.identity),
    ensures
        handled(m, i, MsgView::Hello(h), t).1 == TodoView::StartChild(h),
{
    lemma_held(m, h.identity, h.force);
    reveal(greeted);
}

/// What a client that is let in finds.
proof fn lemma_let_in(m: MasterView, i: int, h: HelloView, t: Moment)
    requires
        sound(m),
        0 <= i < m.conns.len(),
        m.conns[i].state is Pending,
        m.child is Some,
        handled(m, i, MsgView::Hello(h), t).0.conns[i].state is Active,
    ensures
        ({
            let (n, todo) = handled(m, i, MsgView::Hello(h), t);
            let (next, kind) = resume_at(m, h, false);
            &&& n.conns[i].state == ConnState::Active { next }
            &&& n.ring == m.ring
            &&& n.written == m.written
            &&& n.pty_in == m.pty_in
            &&& n.instance == m.instance
            &&& n.child == m.child
            &&& welcomed_with(m, n, i, plain_welcome(m, next, kind))
            &&& kind is Resumed || todo is Redraw || todo == TodoView::SetSize(h.size)
        }),
{
    reveal(greeted);
    let d = displaced(m);
    lemma_active_is(m);
    assert(d.conns[i].out == m.conns[i].out) by {
        if active_of(m) is Some {
            assert(active_of(m)->0 != i);
        }
    }
    assert(resume_at(d, h, false) == resume_at(m, h, false));
}

/// The WELCOME to a session that runs.
pub open spec fn plain_welcome(m: MasterView, offset: u64, kind: AttachKind) -> WelcomeView {
    WelcomeView {
        proto: PROTO_VERSION,
        session: m.session,
        instance: m.instance,
        offset,
        created: false,
        kind,
        input_seq: to_pty(m),
    }
}

/// A client that is let in finds the input as it was, and is told how much of it the
/// program has had.
pub proof fn lemma_a_hello_keeps_input(m: MasterView, i: int, h: HelloView, t: Moment)
    requires
        sound(m),
        0 <= i < m.conns.len(),
        m.conns[i].state is Pending,
        !m.conns[i].dead,
        m.child is Some,
        handled(m, i, MsgView::Hello(h), t).0.conns[i].state is Active,
    ensures
        ({
            let n = handled(m, i, MsgView::Hello(h), t).0;
            &&& sound(n)
            &&& n.written == m.written
            &&& n.pty_in == m.pty_in
            &&& n.instance == m.instance
            &&& exists|w: WelcomeView| #[trigger] welcomed_with(m, n, i, w)
        }),
{
    law_who_is_let_in(m, i, h, t);
    lemma_let_in(m, i, h, t);
    let n = handled(m, i, MsgView::Hello(h), t).0;
    let (next, kind) = resume_at(m, h, false);
    assert(welcomed_with(m, n, i, plain_welcome(m, next, kind)));
    assert forall|k: int| 0 <= k < n.conns.len() && #[trigger] attached(n.conns[k]) implies k
        == i by {
        if k != i {
            assert(attached(m.conns[k]) == (m.conns[k].state is Active && !m.conns[k].dead));
        }
    }
}

/// A client that attaches to a running session without resuming it is sent nothing that
/// was printed before: its screen is cleared, the program is told to draw it, and it is
/// sent what is printed from then on, all of it.
#[verifier::spinoff_prover]
pub proof fn law_an_attach_shows_nothing_old(
    m: MasterView,
    i: int,
    h: HelloView,
    t: Moment,
    all: Seq<u8>,
    more: Seq<u8>,
)
    requires
        sound(m),
        0 <= i < m.conns.len(),
        m.conns[i].state is Pending,
        !m.conns[i].dead,
        m.child is Some,
        keeps(m.ring, all),
        all.len() + more.len() <= u64::MAX,
        h.resume matches Some(r) ==> r.instance != m.instance,
        handled(m, i, MsgView::Hello(h), t).0.conns[i].state is Active,
    ensures
        ({
            let (n, todo) = handled(m, i, MsgView::Hello(h), t);
            let next = n.conns[i].state->next;
            &&& next == all.len()
            &&& output_of(data_msgs(next, n.ring)) == Seq::<u8>::empty()
            &&& exists|w: WelcomeView| #[trigger]
                welcomed_with(m, n, i, w) && w.offset == all.len() && w.kind is Fresh && !w.created
            &&& todo is Redraw || todo == TodoView::SetSize(h.size)
            &&& more.len() <= m.ring.cap ==> output_of(
                data_msgs(next, printed(n, more, t.now).ring),
            ) == more
        }),
{
    lemma_let_in(m, i, h, t);
    lemma_shown_anew(m, handled(m, i, MsgView::Hello(h), t).0, i, h, t, all, more);
}

proof fn lemma_shown_anew(
    m: MasterView,
    n: MasterView,
    i: int,
    h: HelloView,
    t: Moment,
    all: Seq<u8>,
    more: Seq<u8>,
)
    requires
        keeps(m.ring, all),
        all.len() + more.len() <= u64::MAX,
        h.resume matches Some(r) ==> r.instance != m.instance,
        n.ring == m.ring,
        n.child == m.child,
        m.child is Some,
        n.conns[i].state == (ConnState::Active { next: resume_at(m, h, false).0 }),
        welcomed_with(
            m,
            n,
            i,
            plain_welcome(m, resume_at(m, h, false).0, resume_at(m, h, false).1),
        ),
    ensures
        ({
            let next = n.conns[i].state->next;
            &&& next == all.len()
            &&& resume_at(m, h, false).1 is Fresh
            &&& output_of(data_msgs(next, n.ring)) == Seq::<u8>::empty()
            &&& exists|w: WelcomeView| #[trigger]
                welcomed_with(m, n, i, w) && w.offset == all.len() && w.kind is Fresh && !w.created
            &&& more.len() <= m.ring.cap ==> output_of(
                data_msgs(next, printed(n, more, t.now).ring),
            ) == more
        }),
{
    let next = n.conns[i].state->next;
    if more.len() <= m.ring.cap {
        law_the_newest_output_is_kept(m.ring, all, more);
        let p = pushed(m.ring, more);
        law_the_rest_goes_out_whole(Seq::empty(), next, p);
        assert(p.bytes.skip(next - p.start) =~= more);
    }
}

/// Client `i` was welcomed with `w`, to the session that this master has.
pub open spec fn welcomed_with(m: MasterView, n: MasterView, i: int, w: WelcomeView) -> bool {
    &&& n.conns[i].out == m.conns[i].out + frame(MsgView::Welcome(w))
    &&& w.proto == PROTO_VERSION
    &&& w.session == m.session
    &&& w.instance == m.instance
    &&& w.input_seq + m.pty_in.len() == m.written
}

/// A client that comes back to the session it lost goes on at the byte it asks for, as
/// long as that is kept: it is sent everything that was printed from there, once. Where
/// it is no longer kept it goes on with what is printed next, and is told of the gap.
#[verifier::spinoff_prover]
pub proof fn law_a_client_that_comes_back_goes_on(
    m: MasterView,
    i: int,
    h: HelloView,
    t: Moment,
    all: Seq<u8>,
)
    requires
        sound(m),
        0 <= i < m.conns.len(),
        m.conns[i].state is Pending,
        !m.conns[i].dead,
        m.child is Some,
        keeps(m.ring, all),
        h.resume matches Some(r) && r.instance == m.instance && r.offset <= all.len(),
        handled(m, i, MsgView::Hello(h), t).0.conns[i].state is Active,
    ensures
        ({
            let n = handled(m, i, MsgView::Hello(h), t).0;
            let next = n.conns[i].state->next;
            let seen = h.resume->0.offset;
            let kept = all.len() - seen <= m.ring.bytes.len();
            &&& next == if kept {
                seen as int
            } else {
                all.len() as int
            }
            &&& output_of(data_msgs(next, n.ring)) == all.skip(next as int)
            &&& exists|w: WelcomeView| #[trigger]
                welcomed_with(m, n, i, w) && w.offset == next && !w.created && (w.kind is Resumed
                    <==> kept) && (w.kind is Gap <==> !kept)
        }),
{
    lemma_let_in(m, i, h, t);
    lemma_goes_on(m, handled(m, i, MsgView::Hello(h), t).0, i, h, all);
}

proof fn lemma_goes_on(m: MasterView, n: MasterView, i: int, h: HelloView, all: Seq<u8>)
    requires
        keeps(m.ring, all),
        h.resume matches Some(r) && r.instance == m.instance && r.offset <= all.len(),
        n.ring == m.ring,
        n.conns[i].state == (ConnState::Active { next: resume_at(m, h, false).0 }),
        welcomed_with(
            m,
            n,
            i,
            plain_welcome(m, resume_at(m, h, false).0, resume_at(m, h, false).1),
        ),
    ensures
        ({
            let next = n.conns[i].state->next;
            let seen = h.resume->0.offset;
            let kept = all.len() - seen <= m.ring.bytes.len();
            &&& next == if kept {
                seen as int
            } else {
                all.len() as int
            }
            &&& output_of(data_msgs(next, n.ring)) == all.skip(next as int)
            &&& exists|w: WelcomeView| #[trigger]
                welcomed_with(m, n, i, w) && w.offset == next && !w.created && (w.kind is Resumed
                    <==> kept) && (w.kind is Gap <==> !kept)
        }),
{
    let next = resume_at(m, h, false).0;
    law_the_rest_goes_out_whole(Seq::empty(), next, m.ring);
    assert(m.ring.bytes.skip(next - m.ring.start) =~= all.skip(next as int));
}

/// Whoever creates a session sees it from its first byte: everything its program prints
/// goes out, and the session is told as theirs.
pub proof fn law_a_new_session_is_seen_from_its_start(
    m: MasterView,
    i: int,
    h: HelloView,
    command: Seq<char>,
    t: Moment,
    all: Seq<u8>,
)
    requires
        0 <= i < m.conns.len(),
        !m.conns[i].dead,
        m.ring == (RingView { bytes: Seq::empty(), start: 0, ..m.ring }),
        all.len() <= m.ring.cap,
        all.len() <= u64::MAX,
        m.pty_in.len() <= m.written,
    ensures
        ({
            let n = begun(m, i, h, command, t).0;
            let next = n.conns[i].state->next;
            &&& attached(n.conns[i])
            &&& n.conns[i].identity == h.identity
            &&& n.creator == h.identity
            &&& n.child matches Some(c) && c.command == command && c.status is None && c.pty_open
            &&& h.size.cols > 0 && h.size.rows > 0 ==> n.size == h.size
            &&& exists|w: WelcomeView| #[trigger]
                welcomed_with(m, n, i, w) && w.offset == 0 && w.created && next == 0
            &&& output_of(data_msgs(next, printed(n, all, t.now).ring)) == all
        }),
{
    let n = begun(m, i, h, command, t).0;
    let w = WelcomeView {
        proto: PROTO_VERSION,
        session: m.session,
        instance: m.instance,
        offset: 0,
        created: true,
        kind: resume_at(m, h, true).1,
        input_seq: to_pty(m),
    };
    assert(welcomed_with(m, n, i, w));
    let none = Seq::<u8>::empty();
    assert(m.ring.bytes =~= none.skip(0));
    law_the_newest_output_is_kept(m.ring, none, all);
    assert(none + all =~= all);
    let p = pushed(m.ring, all);
    law_the_rest_goes_out_whole(none, 0, p);
    assert(p.bytes.skip(0) =~= all);
}

// ---- what a session is told as ---------------------------------------------

/// What a STATUS is answered with, whoever asks: the session is attached exactly where a
/// client is attached to it and still there, and is told as that client's; else it is
/// detached, and told as the last one's. The asker is let go, and nothing else changes.
pub proof fn law_a_session_is_told_as_it_is(m: MasterView, i: int, t: Moment)
    requires
        sound(m),
        0 <= i < m.conns.len(),
        m.conns[i].state is Pending,
    ensures
        exists|s: StatusView|
            {
                let n = handled(m, i, MsgView::Status, t).0;
                &&& n == (MasterView { conns: n.conns, ..m })
                &&& n.conns == m.conns.update(
                    i,
                    ConnView {
                        state: ConnState::Closing,
                        out: m.conns[i].out + #[trigger] frame(MsgView::StatusReply(s)),
                        ..m.conns[i]
                    },
                )
                &&& s.attached <==> exists|k: int|
                    0 <= k < m.conns.len() && (#[trigger] m.conns[k]).state is Active
                        && !m.conns[k].dead
                &&& forall|k: int|
                    0 <= k < m.conns.len() && (#[trigger] m.conns[k]).state is Active
                        && !m.conns[k].dead ==> s.identity == m.conns[k].identity
                &&& !s.attached ==> s.identity == m.last_identity
                &&& s.name == m.session
                &&& s.creator == m.creator
                &&& s.created_at == m.created_at
                &&& s.size == m.size
                &&& s.pid == t.pid
                &&& s.version == crate::VERSION@
                &&& m.child matches Some(c) ==> s.command == c.command
                &&& t.now >= m.last_activity ==> 1000 * s.idle_secs <= t.now - m.last_activity
                    < 1000 * s.idle_secs + 1000
                &&& t.now <= m.last_activity ==> s.idle_secs == 0
            },
{
    let s = status_of(m, t.pid, t.now);
    let n = handled(m, i, MsgView::Status, t).0;
    lemma_active_is(m);
    match active_of(m) {
        Some(a) => {
            lemma_only_active(m, a);
            assert(m.conns[a].state is Active && !m.conns[a].dead);
            assert forall|k: int|
                0 <= k < m.conns.len() && (#[trigger] m.conns[k]).state is Active
                    && !m.conns[k].dead implies k == a by {
                assert(attached(m.conns[k]));
            }
        },
        None => {
            lemma_none_active(m);
            assert forall|k: int| 0 <= k < m.conns.len() implies !((
            #[trigger] m.conns[k]).state is Active && !m.conns[k].dead) by {
                assert(!attached(m.conns[k]));
            }
        },
    }
    assert(n.conns =~= m.conns.update(
        i,
        ConnView {
            state: ConnState::Closing,
            out: m.conns[i].out + frame(MsgView::StatusReply(s)),
            ..m.conns[i]
        },
    ));
}

/// What the attached client asks for: what it types is written once, a new size is the
/// program's, a ping is answered with its number, and a detach leaves the program, its
/// output and its input as they are. Nobody else's connection is touched.
pub proof fn law_the_attached_client_is_served(m: MasterView, i: int, msg: MsgView, t: Moment)
    requires
        sound(m),
        0 <= i < m.conns.len(),
        attached(m.conns[i]),
    ensures
        ({
            let (n, todo) = handled(m, i, msg, t);
            &&& n.conns.len() == m.conns.len()
            &&& forall|k: int|
                0 <= k < m.conns.len() && k != i ==> #[trigger] n.conns[k] == m.conns[k]
            &&& n.ring == m.ring
            &&& n.child == m.child
            &&& match msg {
                MsgView::Input { seq, bytes } => seq == m.written && seq + bytes.len() <= u64::MAX
                    ==> n.pty_in == m.pty_in + bytes && n.written == seq + bytes.len() && todo
                    is Nothing && n.conns == m.conns,
                MsgView::Resize(s) => s.cols > 0 && s.rows > 0 && m.child is Some ==> n.size == s && (
                s != m.size ==> todo == TodoView::SetSize(s)) && n.conns == m.conns && n.pty_in
                    == m.pty_in,
                MsgView::Ping(k) => n.conns[i] == (ConnView {
                    out: m.conns[i].out + frame(MsgView::Pong(k)),
                    ..m.conns[i]
                }) && n.pty_in == m.pty_in,
                MsgView::Detach => n.conns[i].state is Closing && n.conns[i].out == m.conns[i].out
                    && !n.conns[i].dead && todo is Nothing && n.pty_in == m.pty_in && n.kill_deadline
                    == m.kill_deadline,
                MsgView::Kill => m.child matches Some(c) && c.status is None ==> todo is HangUp
                    && n.kill_deadline is Some && n.kill_deadline->0 >= t.now && n.conns == m.conns,
                _ => n == m && todo is Nothing,
            }
        }),
{
    if let MsgView::Input { seq, bytes } = msg {
        assert(bytes.skip(0) =~= bytes);
        assert(m.pty_in + Seq::<u8>::empty() =~= m.pty_in);
        assert(bytes.len() == 0 ==> bytes =~= Seq::empty());
    }
}

} // verus!
