//! The rounds of a master's loop.

pub mod laws;

use crate::master::{
    active_of, attached, lemma_inactive_is_sound, lemma_none_active, lemma_only_active,
    lemma_out_is_sound, rejected, sent, soon, sound, to_pty, with_conn, ChildView, Conn, ConnState,
    ConnView, Master, MasterView, Moment, Todo, ORPHAN_MS, OUT_HIGH_WATER, PTY_IN_HIGH_WATER,
};
use crate::proto::{err, frame, next_frame, Decoder, Msg, MsgView, Next, MAX_CHUNK};
use crate::reconnect::{after_heard, after_tick, next_look, Health, Liveness};
use crate::resume::{data_from, law_room_is_kept, pushed, ring_end, room, Read, RingView};
use crate::wire::drop_front;
use vstd::prelude::*;

verus! {

// ---- connections -----------------------------------------------------------

/// A connection as it is accepted.
pub open spec fn new_conn(m: MasterView, key: u64, now: u64) -> ConnView {
    ConnView {
        key,
        dec: Seq::empty(),
        out: Seq::empty(),
        state: ConnState::Pending,
        identity: Seq::empty(),
        since: 0,
        dead: false,
        live: after_heard(Liveness { nonce: 0, question: None, ..m.patience }, now),
    }
}

/// Connection `i` is over.
pub open spec fn ended(m: MasterView, i: int) -> MasterView {
    with_conn(m, i, ConnView { dead: true, ..m.conns[i] })
}

/// Bytes of connection `i`: kept to be decoded, unless it is no longer for this
/// session.
pub open spec fn arrived(m: MasterView, i: int, bytes: Seq<u8>, now: u64) -> MasterView {
    let c = m.conns[i];
    let heard = ConnView { live: after_heard(c.live, now), ..c };
    with_conn(
        m,
        i,
        if c.state is Closing || c.state is Ending {
            heard
        } else {
            ConnView { dec: c.dec + bytes, ..heard }
        },
    )
}

/// A look at the grace of a hung up program: whether the program is killed.
pub open spec fn killed_at(m: MasterView, now: u64) -> (MasterView, bool) {
    match m.kill_deadline {
        Some(d) if now >= d => (
            MasterView { kill_deadline: None, ..m },
            m.child is Some && m.child->0.status is None,
        ),
        _ => (m, false),
    }
}

/// `n` bytes of what is queued for connection `i` were written.
pub open spec fn flushed(m: MasterView, i: int, n: nat) -> MasterView {
    with_conn(m, i, ConnView { out: m.conns[i].out.skip(n as int), ..m.conns[i] })
}

/// The connections that are not over.
pub open spec fn alive(conns: Seq<ConnView>) -> Seq<ConnView>
    decreases conns.len(),
{
    if conns.len() == 0 {
        Seq::empty()
    } else if conns[0].dead {
        alive(conns.skip(1))
    } else {
        seq![conns[0]] + alive(conns.skip(1))
    }
}

/// A connection that is to be closed, and has nothing left to be told, is over.
pub open spec fn settled(c: ConnView) -> ConnView {
    if c.state is Closing && c.out.len() == 0 {
        ConnView { dead: true, ..c }
    } else {
        c
    }
}

/// The attached client's patience: pinged after silence, over after too much.
pub open spec fn watched(c: ConnView, now: u64) -> ConnView {
    if attached(c) {
        let (live, ping, health) = after_tick(c.live, now);
        ConnView { live, out: c.out + ping, dead: health is Dead, ..c }
    } else {
        c
    }
}

/// When the attached clients' patience has to be looked at again.
pub open spec fn wake_of(conns: Seq<ConnView>) -> Option<u64>
    decreases conns.len(),
{
    if conns.len() == 0 {
        None
    } else {
        let before = wake_of(conns.drop_last());
        let c = conns.last();
        if attached(c) {
            match before {
                Some(w) if w <= next_look(c.live) => Some(w),
                _ => Some(next_look(c.live)),
            }
        } else {
            before
        }
    }
}

// ---- output ----------------------------------------------------------------

/// Output moved from the ring into a client's buffer, up to the high-water mark
/// or, at the end of a session, all of it: the buffer and the next offset.
pub open spec fn pumped(out: Seq<u8>, next: u64, ring: RingView, whole: bool) -> (Seq<u8>, u64)
    decreases ring_end(ring) - next,
{
    if next >= ring_end(ring) || next < ring.start || ring_end(ring) > u64::MAX || (!whole
        && out.len() >= OUT_HIGH_WATER) {
        (out, next)
    } else {
        let bytes = data_from(ring, next, MAX_CHUNK as nat);
        pumped(
            out + frame(MsgView::Data { offset: next, bytes }),
            (next + bytes.len()) as u64,
            ring,
            whole,
        )
    }
}

/// The attached client's buffer filled from the ring.
pub open spec fn fed(m: MasterView, whole: bool) -> MasterView {
    match active_of(m) {
        None => m,
        Some(a) => {
            let c = m.conns[a];
            let (out, next) = pumped(c.out, c.state->next, m.ring, whole);
            with_conn(m, a, ConnView { out, state: ConnState::Active { next }, ..c })
        },
    }
}

// ---- the pty ---------------------------------------------------------------

/// How much may be read from the pty before output the attached client has not
/// been sent would be overwritten; as much as is asked for without one.
pub open spec fn pty_room(m: MasterView, want: nat) -> nat {
    match active_of(m) {
        None => want,
        Some(a) => {
            let r = room(m.ring, m.conns[a].state->next);
            if r < want {
                r
            } else {
                want
            }
        },
    }
}

/// Output of the program.
pub open spec fn printed(m: MasterView, bytes: Seq<u8>, now: u64) -> MasterView {
    MasterView { ring: pushed(m.ring, bytes), last_activity: now, ..m }
}

/// The program's terminal is closed.
pub open spec fn pty_shut(m: MasterView) -> MasterView {
    match m.child {
        None => m,
        Some(c) => MasterView { child: Some(ChildView { pty_open: false, ..c }), ..m },
    }
}

/// The input still queued never reached the program, so it was never written.
pub open spec fn input_dropped(m: MasterView) -> MasterView {
    MasterView { written: to_pty(m), pty_in: Seq::empty(), ..m }
}

/// The attached client is told how much of its input the pty has taken.
pub open spec fn acknowledged(m: MasterView) -> MasterView {
    let seq = to_pty(m);
    if seq == m.acked {
        m
    } else {
        let m1 = MasterView { acked: seq, ..m };
        match active_of(m) {
            None => m1,
            Some(a) => sent(m1, a, MsgView::Ack { seq }),
        }
    }
}

/// Nobody ever created the session, and nobody is there to.
pub open spec fn orphaned(m: MasterView, now: u64) -> bool {
    m.child is None && m.conns.len() == 0 && now > soon(m.born, ORPHAN_MS)
}

/// The program is gone and everything it printed has been read.
pub open spec fn finished(m: MasterView) -> bool {
    match m.child {
        None => false,
        Some(c) => c.status is Some && !c.pty_open,
    }
}

/// The session is over: the attached client gets the rest, then the status.
pub open spec fn closing_words(m: MasterView) -> MasterView {
    let m1 = fed(m, true);
    let status = match m.child {
        Some(c) => match c.status {
            Some(s) => s,
            None => 0,
        },
        None => 0,
    };
    match active_of(m1) {
        None => m1,
        Some(a) => sent(m1, a, MsgView::Exit { status }),
    }
}

pub open spec fn until(deadline: u64, now: u64) -> u64 {
    if deadline > now {
        (deadline - now) as u64
    } else {
        0
    }
}

pub open spec fn least(a: u64, b: u64) -> u64 {
    if a < b {
        a
    } else {
        b
    }
}

/// How long the loop may wait, in milliseconds.
pub open spec fn wait_for(m: MasterView, wake: Option<u64>, now: u64) -> u64 {
    let a = until(m.next_rebind, now);
    let b = match m.kill_deadline {
        None => a,
        Some(d) => least(a, until(d, now)),
    };
    let c = match wake {
        None => b,
        Some(w) => least(b, until(w, now)),
    };
    if m.child is Some && m.child->0.status is Some {
        least(c, 50)
    } else {
        c
    }
}

proof fn lemma_data_len(ring: RingView, next: u64)
    requires
        ring.start <= next < ring_end(ring) <= u64::MAX,
    ensures
        0 < data_from(ring, next, MAX_CHUNK as nat).len() <= ring_end(ring) - next,
{
}

/// What holds of the connections of a sound session.
pub open spec fn conns_sound(conns: Seq<ConnView>, ring: RingView) -> bool {
    &&& forall|i: int, j: int|
        0 <= i < conns.len() && 0 <= j < conns.len() && #[trigger] attached(conns[i])
            && #[trigger] attached(conns[j]) ==> i == j
    &&& forall|i: int|
        0 <= i < conns.len() && #[trigger] attached(conns[i]) ==> ring.start
            <= conns[i].state->next <= ring_end(ring)
}

proof fn lemma_alive_none(conns: Seq<ConnView>)
    requires
        forall|k: int| 0 <= k < conns.len() ==> !attached(#[trigger] conns[k]),
    ensures
        forall|k: int| 0 <= k < alive(conns).len() ==> !attached(#[trigger] alive(conns)[k]),
    decreases conns.len(),
{
    if conns.len() > 0 {
        let rest = conns.skip(1);
        assert forall|k: int| 0 <= k < rest.len() implies !attached(#[trigger] rest[k]) by {
            assert(rest[k] == conns[k + 1]);
        }
        lemma_alive_none(rest);
        assert(!attached(conns[0]));
        if !conns[0].dead {
            assert forall|k: int| 0 <= k < alive(conns).len() implies !attached(
                #[trigger] alive(conns)[k],
            ) by {
                if k > 0 {
                    assert(alive(conns)[k] == alive(rest)[k - 1]);
                }
            }
        }
    }
}

proof fn lemma_alive_sound(conns: Seq<ConnView>, ring: RingView)
    requires
        conns_sound(conns, ring),
    ensures
        conns_sound(alive(conns), ring),
    decreases conns.len(),
{
    if conns.len() > 0 {
        let rest = conns.skip(1);
        assert forall|i: int, j: int|
            0 <= i < rest.len() && 0 <= j < rest.len() && #[trigger] attached(rest[i])
                && #[trigger] attached(rest[j]) implies i == j by {
            assert(attached(conns[i + 1]) && attached(conns[j + 1]));
        }
        assert forall|i: int| 0 <= i < rest.len() && #[trigger] attached(rest[i]) implies ring.start
            <= rest[i].state->next <= ring_end(ring) by {
            assert(attached(conns[i + 1]));
        }
        lemma_alive_sound(rest, ring);
        if !conns[0].dead {
            let w = alive(conns);
            let tail = alive(rest);
            assert forall|k: int| 1 <= k < w.len() implies #[trigger] w[k] == tail[k - 1] by {}
            assert(w[0] == conns[0]);
            if attached(conns[0]) {
                assert forall|k: int| 0 <= k < rest.len() implies !attached(#[trigger] rest[k]) by {
                    assert(rest[k] == conns[k + 1]);
                    if attached(conns[k + 1]) {
                        assert(attached(conns[0]));
                    }
                }
                lemma_alive_none(rest);
            }
            assert forall|i: int, j: int|
                0 <= i < w.len() && 0 <= j < w.len() && #[trigger] attached(w[i])
                    && #[trigger] attached(w[j]) implies i == j by {
                if i > 0 {
                    assert(w[i] == tail[i - 1]);
                }
                if j > 0 {
                    assert(w[j] == tail[j - 1]);
                }
            }
            assert forall|i: int| 0 <= i < w.len() && #[trigger] attached(w[i]) implies ring.start
                <= w[i].state->next <= ring_end(ring) by {
                if i > 0 {
                    assert(attached(tail[i - 1]));
                } else {
                    assert(attached(conns[0]));
                }
            }
        }
    }
}

impl Master {
    /// A new connection.
    pub fn accept(&mut self, key: u64, now: u64)
        requires
            old(self).wf(),
        ensures
            final(self).wf(),
            final(self)@ == (MasterView {
                conns: old(self)@.conns.push(new_conn(old(self)@, key, now)),
                ..old(self)@
            }),
    {
        let ghost before = *self;
        let live = Liveness { nonce: 0, question: None, heard: now, pinged: None, ..self.patience };
        let c = Conn {
            key,
            dec: Decoder::new(),
            out: Vec::new(),
            state: ConnState::Pending,
            identity: String::new(),
            since: 0,
            dead: false,
            live,
        };
        assert(c@ =~= new_conn(before@, key, now));
        self.conns.push(c);
        proof {
            assert(self@.conns =~= before@.conns.push(c@));
            let w = self@;
            assert forall|k: int| 0 <= k < w.conns.len() && #[trigger] attached(w.conns[k]) implies k
                < before@.conns.len() && attached(before@.conns[k]) by {}
            assert forall|i: int, j: int|
                0 <= i < w.conns.len() && 0 <= j < w.conns.len() && #[trigger] attached(w.conns[i])
                    && #[trigger] attached(w.conns[j]) implies i == j by {
                assert(attached(before@.conns[i]) && attached(before@.conns[j]));
            }
        }
    }

    /// Connection `i` was closed, or failed.
    pub fn conn_end(&mut self, i: usize)
        requires
            old(self).wf(),
            i < old(self)@.conns.len(),
        ensures
            final(self).wf(),
            final(self)@ == ended(old(self)@, i as int),
    {
        let ghost before = *self;
        self.conns[i].dead = true;
        proof {
            assert(self@.conns =~= ended(before@, i as int).conns);
            lemma_inactive_is_sound(before@, i as int, self@.conns[i as int]);
        }
    }

    /// Bytes of connection `i`.
    pub fn conn_bytes(&mut self, i: usize, bytes: &[u8], now: u64)
        requires
            old(self).wf(),
            i < old(self)@.conns.len(),
        ensures
            final(self).wf(),
            final(self)@ == arrived(old(self)@, i as int, bytes@, now),
    {
        let ghost before = *self;
        self.conns[i].live.heard(now);
        match self.conns[i].state {
            ConnState::Closing | ConnState::Ending => {},
            _ => {
                self.conns[i].dec.push(bytes);
            },
        }
        proof {
            assert(self@.conns =~= arrived(before@, i as int, bytes@, now).conns);
            lemma_out_is_sound(before@, i as int, self@.conns[i as int]);
        }
    }

    /// The next message of connection `i` that has arrived whole: what it asks
    /// for, or `None` once there is no more to be taken from it.
    pub fn conn_next(&mut self, i: usize, t: Moment) -> (r: Option<Todo>)
        requires
            old(self).wf(),
            i < old(self)@.conns.len(),
        ensures
            final(self).wf(),
            match r {
                None => final(self)@ == next_none(old(self)@, i as int),
                Some(todo) => (final(self)@, todo@) == next_some(old(self)@, i as int, t),
            },
            r is None <==> !has_next(old(self)@, i as int),
    {
        let ghost before = *self;
        assert(self@.conns[i as int] == self.conns@[i as int]@);
        if self.conns[i].dead {
            return None;
        }
        match self.conns[i].state {
            ConnState::Closing | ConnState::Ending => {
                return None;
            },
            _ => {},
        }
        let next = self.conns[i].dec.next_msg();
        proof {
            assert(self@.conns =~= before@.conns.update(i as int, self@.conns[i as int]));
            lemma_out_is_sound(before@, i as int, self@.conns[i as int]);
        }
        match next {
            Ok(Some(m)) => {
                proof {
                    let n = next_frame(before@.conns[i as int].dec)->Got_1;
                    assert(self@ =~= decoded(before@, i as int, n));
                }
                Some(self.handle(i, m, t))
            },
            Ok(None) => {
                assert(self@.conns =~= before@.conns);
                None
            },
            Err(e) => {
                assert(self@.conns =~= before@.conns);
                self.reject(i, err::BAD_REQUEST, e.text());
                None
            },
        }
    }

    /// `n` bytes of what is queued for connection `i` were written.
    pub fn conn_wrote(&mut self, i: usize, n: usize)
        requires
            old(self).wf(),
            i < old(self)@.conns.len(),
            n <= old(self)@.conns[i as int].out.len(),
        ensures
            final(self).wf(),
            final(self)@ == flushed(old(self)@, i as int, n as nat),
    {
        let ghost before = *self;
        assert(self@.conns[i as int] == self.conns@[i as int]@);
        drop_front(&mut self.conns[i].out, n);
        proof {
            assert(self@.conns =~= flushed(before@, i as int, n as nat).conns);
            lemma_out_is_sound(before@, i as int, self@.conns[i as int]);
        }
    }

    fn retain(&mut self)
        requires
            old(self).wf(),
        ensures
            final(self).wf(),
            final(self)@ == (MasterView { conns: alive(old(self)@.conns), ..old(self)@ }),
    {
        let ghost before = self@;
        let mut rest: Vec<Conn> = Vec::new();
        std::mem::swap(&mut rest, &mut self.conns);
        let mut kept: Vec<Conn> = Vec::new();
        assert(super_views(kept@) + alive(super_views(rest@)) =~= alive(before.conns));
        let ghost rest_of = *self;
        while rest.len() > 0
            invariant
                super_views(kept@) + alive(super_views(rest@)) == alive(before.conns),
                forall|k: int| 0 <= k < rest@.len() ==> (#[trigger] rest@[k]).dec.wf(),
                forall|k: int| 0 <= k < kept@.len() ==> (#[trigger] kept@[k]).dec.wf(),
            decreases rest.len(),
        {
            let ghost r0 = super_views(rest@);
            let ghost k0 = super_views(kept@);
            let ghost all0 = rest@;
            let c = rest.remove(0);
            proof {
                assert(super_views(rest@) =~= r0.skip(1));
                assert(r0[0] == c@);
                assert(c == all0[0]);
                assert forall|k: int| 0 <= k < rest@.len() implies (#[trigger] rest@[k]).dec.wf() by {
                    assert(rest@[k] == all0[k + 1]);
                }
            }
            if !c.dead {
                kept.push(c);
                assert(super_views(kept@) =~= k0.push(c@));
                assert(k0 + (seq![c@] + alive(r0.skip(1))) =~= super_views(kept@) + alive(
                    super_views(rest@),
                ));
            }
        }
        assert(super_views(kept@) + Seq::<ConnView>::empty() =~= super_views(kept@));
        self.conns = kept;
        proof {
            assert(conns_sound(before.conns, before.ring));
            lemma_alive_sound(before.conns, before.ring);
        }
    }

    /// The attached client's patience is looked at, and what is over is
    /// dropped: when to look again.
    pub fn watch(&mut self, now: u64) -> (wake: Option<u64>)
        requires
            old(self).wf(),
        ensures
            final(self).wf(),
            ({
                let all = old(self)@.conns.map_values(|c: ConnView| watched(c, now));
                &&& final(self)@ == (MasterView { conns: alive(all), ..old(self)@ })
                &&& wake == wake_of(all)
            }),
    {
        let ghost before = self@;
        let ghost all = before.conns.map_values(|c: ConnView| watched(c, now));
        let mut wake: Option<u64> = None;
        let n: usize = self.conns.len();
        let mut i: usize = 0;
        assert(self@.conns =~= all.take(0) + before.conns.skip(0));
        while i < n
            invariant
                i <= n,
                n == before.conns.len(),
                n == self.conns@.len(),
                self.wf(),
                all == before.conns.map_values(|c: ConnView| watched(c, now)),
                self@ == (MasterView { conns: all.take(i as int) + before.conns.skip(i as int), ..before }),
                wake == wake_of(all.take(i as int)),
            decreases n - i,
        {
            let ghost here = *self;
            assert(self@.conns[i as int] == before.conns[i as int]);
            assert(self@.conns[i as int] == self.conns@[i as int]@);
            assert(all[i as int] == watched(before.conns[i as int], now));
            let active = match self.conns[i].state {
                ConnState::Active { .. } => true,
                _ => false,
            };
            if active && !self.conns[i].dead {
                let mut ping: Vec<u8> = Vec::new();
                let h = self.conns[i].live.tick(&mut ping, now);
                self.conns[i].out.extend_from_slice(&ping);
                let ghost out1 = self.conns@[i as int].out@;
                assert(out1 =~= before.conns[i as int].out + ping@);
                assert(ping@ =~= after_tick(before.conns[i as int].live, now).1);
                if h == Health::Dead {
                    self.conns[i].dead = true;
                } else {
                    let next = self.conns[i].live.next_deadline_ms();
                    wake = match wake {
                        Some(w) => if w <= next {
                            Some(w)
                        } else {
                            Some(next)
                        },
                        None => Some(next),
                    };
                }
                proof {
                    let c = self@.conns[i as int];
                    assert(c =~= all[i as int]);
                    assert(self@.conns =~= here@.conns.update(i as int, c));
                    if c.dead {
                        lemma_inactive_is_sound(here@, i as int, c);
                    } else {
                        lemma_out_is_sound(here@, i as int, c);
                    }
                }
            }
            proof {
                assert(self@.conns =~= all.take(i + 1) + before.conns.skip(i + 1));
                assert(all.take(i + 1).drop_last() =~= all.take(i as int));
                assert(all.take(i + 1).last() == all[i as int]);
            }
            i = i + 1;
        }
        assert(all.take(n as int) + before.conns.skip(n as int) =~= all);
        assert(all.take(n as int) =~= all);
        self.retain();
        wake
    }

    /// What was to be closed, and has nothing left to be told, is dropped.
    pub fn settle(&mut self)
        requires
            old(self).wf(),
        ensures
            final(self).wf(),
            final(self)@ == (MasterView {
                conns: alive(old(self)@.conns.map_values(|c: ConnView| settled(c))),
                ..old(self)@
            }),
    {
        let ghost before = self@;
        let ghost all = before.conns.map_values(|c: ConnView| settled(c));
        let n: usize = self.conns.len();
        let mut i: usize = 0;
        assert(self@.conns =~= all.take(0) + before.conns.skip(0));
        while i < n
            invariant
                i <= n,
                n == before.conns.len(),
                n == self.conns@.len(),
                self.wf(),
                all == before.conns.map_values(|c: ConnView| settled(c)),
                self@ == (MasterView { conns: all.take(i as int) + before.conns.skip(i as int), ..before }),
            decreases n - i,
        {
            let ghost here = *self;
            assert(self@.conns[i as int] == before.conns[i as int]);
            assert(self@.conns[i as int] == self.conns@[i as int]@);
            if self.conns[i].state == ConnState::Closing && self.conns[i].out.len() == 0 {
                self.conns[i].dead = true;
                proof {
                    let c = self@.conns[i as int];
                    assert(self@.conns =~= here@.conns.update(i as int, c));
                    lemma_inactive_is_sound(here@, i as int, c);
                }
            }
            proof {
                assert(self@.conns =~= all.take(i + 1) + before.conns.skip(i + 1));
            }
            i = i + 1;
        }
        assert(all.take(n as int) + before.conns.skip(n as int) =~= all);
        self.retain();
    }

    fn pump(&mut self, whole: bool)
        requires
            old(self).wf(),
        ensures
            final(self).wf(),
            final(self)@ == fed(old(self)@, whole),
    {
        let a = match self.active() {
            None => return,
            Some(a) => a,
        };
        let ghost before = *self;
        assert(self@.conns[a as int] == self.conns@[a as int]@);
        let ghost c0 = self@.conns[a as int];
        let mut out: Vec<u8> = Vec::new();
        std::mem::swap(&mut out, &mut self.conns[a].out);
        let mut next: u64 = match self.conns[a].state {
            ConnState::Active { next } => next,
            _ => 0,
        };
        let end = self.ring.end();
        let ghost ring = self.ring@;
        proof {
            assert(attached(c0));
            assert(next == c0.state->next);
        }
        while next < end && (whole || out.len() < OUT_HIGH_WATER)
            invariant
                self.ring.wf(),
                ring == self.ring@,
                end == ring_end(ring),
                ring_end(ring) <= u64::MAX,
                ring.start <= next <= end,
                pumped(out@, next, ring, whole) == pumped(c0.out, c0.state->next, ring, whole),
            decreases end - next,
        {
            proof {
                lemma_data_len(ring, next);
            }
            match self.ring.read_from(next, MAX_CHUNK) {
                Read::Data(bytes) => {
                    let n: u64 = bytes.len() as u64;
                    put_data(&mut out, next, bytes);
                    next = next + n;
                },
                _ => {
                    assert(false);
                },
            }
        }
        self.conns[a].out = out;
        self.conns[a].state = ConnState::Active { next };
        proof {
            let c = self@.conns[a as int];
            assert(self@.conns =~= before@.conns.update(a as int, c));
            lemma_moved_is_sound(before@, a as int, c);
        }
    }

    /// Move ring data into the active client's buffer.
    pub fn pump_output(&mut self)
        requires
            old(self).wf(),
        ensures
            final(self).wf(),
            final(self)@ == fed(old(self)@, false),
    {
        self.pump(false);
    }

    /// Queue everything left in the ring for the active client, ignoring the
    /// high-water mark (the session is over).
    pub fn pump_output_all(&mut self)
        requires
            old(self).wf(),
        ensures
            final(self).wf(),
            final(self)@ == fed(old(self)@, true),
    {
        self.pump(true);
    }
}

impl Master {
    /// How much may be read from the pty now, of `want` bytes: nothing without
    /// one.
    pub fn pty_want(&self, want: usize) -> (n: usize)
        requires
            self.wf(),
        ensures
            n == if self@.child is Some && self@.child->0.pty_open {
                pty_room(self@, want as nat)
            } else {
                0
            },
    {
        match &self.child {
            None => 0,
            Some(c) => {
                if !c.pty_open {
                    return 0;
                }
                match self.active() {
                    None => want,
                    Some(a) => {
                        assert(self@.conns[a as int] == self.conns@[a as int]@);
                        let next: u64 = match self.conns[a].state {
                            ConnState::Active { next } => next,
                            _ => 0,
                        };
                        let r = self.ring.room_before_overwrite(next);
                        if r < want {
                            r
                        } else {
                            want
                        }
                    },
                }
            },
        }
    }

    /// Output of the program, no more than [`Master::pty_want`] asked for.
    pub fn pty_bytes(&mut self, bytes: &[u8], now: u64)
        requires
            old(self).wf(),
            old(self)@.child is Some,
            bytes@.len() <= pty_room(old(self)@, bytes@.len()),
            ring_end(old(self)@.ring) + bytes@.len() <= u64::MAX,
        ensures
            final(self).wf(),
            final(self)@ == printed(old(self)@, bytes@, now),
    {
        let ghost before = self@;
        self.ring.push(bytes);
        self.last_activity = now;
        proof {
            let w = self@;
            let r = before.ring;
            match active_of(before) {
                None => {
                    lemma_none_active(before);
                },
                Some(a) => {
                    crate::master::lemma_active_is(before);
                    lemma_only_active(before, a);
                    law_room_is_kept(r, before.conns[a].state->next, bytes@);
                },
            }
            assert(sound(w));
        }
    }

    /// The program's terminal is closed.
    pub fn pty_end(&mut self)
        requires
            old(self).wf(),
        ensures
            final(self).wf(),
            final(self)@ == pty_shut(old(self)@),
    {
        let mut child: Option<crate::master::Child> = None;
        std::mem::swap(&mut child, &mut self.child);
        if let Some(c) = child {
            let mut c = c;
            c.pty_open = false;
            self.child = Some(c);
        }
    }

    /// The program is gone.
    pub fn child_exited(&mut self, status: i32)
        requires
            old(self).wf(),
        ensures
            final(self).wf(),
            final(self)@ == (MasterView { child: gone(old(self)@.child, status), ..old(self)@ }),
    {
        let mut child: Option<crate::master::Child> = None;
        std::mem::swap(&mut child, &mut self.child);
        if let Some(c) = child {
            let mut c = c;
            if c.status.is_none() {
                c.status = Some(status);
            }
            self.child = Some(c);
        }
    }

    /// After a round: a program that is gone, with nothing more to read although
    /// it was asked for and a quiet poll confirms it, has printed everything.
    pub fn drained(&mut self, asked: bool, readable: bool, quiet: bool)
        requires
            old(self).wf(),
        ensures
            final(self).wf(),
            final(self)@ == if old(self)@.child is Some && old(self)@.child->0.status is Some
                && asked && !readable && quiet {
                pty_shut(old(self)@)
            } else {
                old(self)@
            },
    {
        let over = match &self.child {
            Some(c) => c.status.is_some(),
            None => false,
        };
        if over && asked && !readable && quiet {
            self.pty_end();
        }
    }

    /// `n` bytes of the input queued for the pty were written.
    pub fn pty_wrote(&mut self, n: usize)
        requires
            old(self).wf(),
            n <= old(self)@.pty_in.len(),
        ensures
            final(self).wf(),
            final(self)@ == (MasterView {
                pty_in: old(self)@.pty_in.skip(n as int),
                ..old(self)@
            }),
    {
        drop_front(&mut self.pty_in, n);
    }

    /// Drop the input queued for the pty, unwritten.
    pub fn drop_queued_input(&mut self)
        requires
            old(self).wf(),
        ensures
            final(self).wf(),
            final(self)@ == input_dropped(old(self)@),
    {
        self.input.rewind(self.pty_in.len());
        self.pty_in = Vec::new();
        assert(self@.pty_in =~= Seq::empty());
    }

    /// Tell the attached client how much of its input the pty has taken.
    pub fn ack_written(&mut self)
        requires
            old(self).wf(),
        ensures
            final(self).wf(),
            final(self)@ == acknowledged(old(self)@),
    {
        let seq = self.written_to_pty();
        if seq == self.acked {
            return;
        }
        self.acked = seq;
        if let Some(i) = self.active() {
            self.send(i, &Msg::Ack { seq });
        }
    }

    /// Whether the pty is waited for: to be read, and to be written.
    pub fn wants_pty(&self) -> (r: (bool, bool))
        requires
            self.wf(),
        ensures
            r.0 == (self@.child is Some && self@.child->0.pty_open && pty_room(self@, usize::MAX as nat)
                > 0),
            r.1 == (self@.child is Some && self@.child->0.pty_open && self@.pty_in.len() > 0),
    {
        let open = match &self.child {
            Some(c) => c.pty_open,
            None => false,
        };
        (self.pty_want(usize::MAX) > 0, open && self.pty_in.len() > 0)
    }

    /// Whether connection `i` is waited for: to be read, and to be written.
    pub fn wants(&self, i: usize) -> (r: (bool, bool))
        requires
            i < self@.conns.len(),
        ensures
            r.0 == (self@.pty_in.len() < PTY_IN_HIGH_WATER && !(self@.conns[i as int].state is Closing)),
            r.1 == (self@.conns[i as int].out.len() > 0),
    {
        assert(self@.conns[i as int] == self.conns@[i as int]@);
        (
            self.pty_in.len() < PTY_IN_HIGH_WATER && self.conns[i].state != ConnState::Closing,
            self.conns[i].out.len() > 0,
        )
    }

    /// How long the loop may wait, in milliseconds.
    pub fn timeout(&self, wake: Option<u64>, now: u64) -> (ms: u64)
        ensures
            ms == wait_for(self@, wake, now),
    {
        let mut t: u64 = left_until(self.next_rebind, now);
        if let Some(d) = self.kill_deadline {
            let k = left_until(d, now);
            if k < t {
                t = k;
            }
        }
        if let Some(w) = wake {
            let k = left_until(w, now);
            if k < t {
                t = k;
            }
        }
        let over = match &self.child {
            Some(c) => c.status.is_some(),
            None => false,
        };
        if over && t > 50 {
            t = 50;
        }
        t
    }

    /// Whether the grace of a hung up program is over: it is then killed, if it
    /// is still there.
    pub fn hard_kill(&mut self, now: u64) -> (kill: bool)
        requires
            old(self).wf(),
        ensures
            final(self).wf(),
            (final(self)@, kill) == killed_at(old(self)@, now),
    {
        match self.kill_deadline {
            Some(d) => {
                if now < d {
                    return false;
                }
                self.kill_deadline = None;
                match &self.child {
                    Some(c) => c.status.is_none(),
                    None => false,
                }
            },
            None => false,
        }
    }

    /// Whether the socket's path is to be looked at now; the next time is set.
    pub fn rebind_due(&mut self, now: u64) -> (due: bool)
        requires
            old(self).wf(),
        ensures
            final(self).wf(),
            due == (now >= old(self)@.next_rebind),
            final(self)@ == if due {
                MasterView { next_rebind: soon(now, old(self)@.rebind_ms), ..old(self)@ }
            } else {
                old(self)@
            },
    {
        if now >= self.next_rebind {
            self.next_rebind = now.saturating_add(self.rebind_ms);
            true
        } else {
            false
        }
    }

    /// Whether to give up: no client ever created the session.
    pub fn is_orphaned(&self, now: u64) -> (r: bool)
        ensures
            r == orphaned(self@, now),
    {
        self.child.is_none() && self.conns.len() == 0 && now > self.born.saturating_add(ORPHAN_MS)
    }

    /// Whether the session is over.
    pub fn is_finished(&self) -> (r: bool)
        ensures
            r == finished(self@),
    {
        match &self.child {
            None => false,
            Some(c) => c.status.is_some() && !c.pty_open,
        }
    }

    /// The child is gone and the pty drained: deliver the rest and EXIT.
    pub fn finish(&mut self)
        requires
            old(self).wf(),
        ensures
            final(self).wf(),
            final(self)@ == closing_words(old(self)@),
    {
        let status: i32 = match &self.child {
            Some(c) => match c.status {
                Some(s) => s,
                None => 0,
            },
            None => 0,
        };
        self.pump_output_all();
        if let Some(a) = self.active() {
            self.send(a, &Msg::Exit { status });
        }
    }
}

/// The child, with its status where it had none.
pub open spec fn gone(c: Option<ChildView>, status: i32) -> Option<ChildView> {
    match c {
        Some(c) if c.status is None => Some(ChildView { status: Some(status), ..c }),
        _ => c,
    }
}

fn left_until(deadline: u64, now: u64) -> (ms: u64)
    ensures
        ms == until(deadline, now),
{
    if deadline > now {
        deadline - now
    } else {
        0
    }
}

/// What a client's buffer holds once the frame of some output stands behind it.
fn put_data(out: &mut Vec<u8>, offset: u64, bytes: Vec<u8>)
    ensures
        final(out)@ == old(out)@ + frame(MsgView::Data { offset, bytes: bytes@ }),
{
    Msg::Data { offset, bytes }.encode(out);
}

/// The attached client has been sent more.
proof fn lemma_moved_is_sound(m: MasterView, i: int, c: ConnView)
    requires
        sound(m),
        0 <= i < m.conns.len(),
        attached(m.conns[i]),
        attached(c),
        m.ring.start <= c.state->next <= ring_end(m.ring),
    ensures
        sound(with_conn(m, i, c)),
{
    let w = with_conn(m, i, c);
    assert forall|k: int| 0 <= k < w.conns.len() implies #[trigger] attached(w.conns[k]) == attached(
        m.conns[k],
    ) by {}
    assert forall|a: int, b: int|
        0 <= a < w.conns.len() && 0 <= b < w.conns.len() && #[trigger] attached(w.conns[a])
            && #[trigger] attached(w.conns[b]) implies a == b by {
        assert(attached(m.conns[a]) && attached(m.conns[b]));
    }
}

spec fn super_views(v: Seq<Conn>) -> Seq<ConnView> {
    crate::master::conn_views(v)
}

/// Connection `i` with its first `n` undecoded bytes taken.
pub open spec fn decoded(m: MasterView, i: int, n: int) -> MasterView {
    with_conn(m, i, ConnView { dec: m.conns[i].dec.skip(n), ..m.conns[i] })
}

/// Connection `i` is still listened to.
pub open spec fn listened(m: MasterView, i: int) -> bool {
    let c = m.conns[i];
    !c.dead && !(c.state is Closing) && !(c.state is Ending)
}

/// A message of connection `i` has arrived whole.
pub open spec fn has_next(m: MasterView, i: int) -> bool {
    listened(m, i) && next_frame(m.conns[i].dec) is Got
}

/// What that message does.
pub open spec fn next_some(m: MasterView, i: int, t: Moment) -> (
    MasterView,
    crate::master::TodoView,
) {
    match next_frame(m.conns[i].dec) {
        Next::Got(msg, n) => crate::master::handled(decoded(m, i, n), i, msg, t),
        _ => (m, crate::master::TodoView::Nothing),
    }
}

/// Without one: bytes that are no frame are refused.
pub open spec fn next_none(m: MasterView, i: int) -> MasterView {
    if listened(m, i) {
        match next_frame(m.conns[i].dec) {
            Next::Bad(e) => rejected(m, i, err::BAD_REQUEST, e.words()),
            _ => m,
        }
    } else {
        m
    }
}

} // verus!
