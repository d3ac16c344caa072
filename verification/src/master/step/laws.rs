//! What holds of every round of a master's loop.

use crate::master::laws::{data_msgs, law_the_rest_goes_out_whole, output_of};
use crate::master::step::{
    alive, arrived, decoded, finished, flushed, has_next, killed_at, new_conn, next_none, next_some, orphaned,
    printed, pty_room, settled, wait_for, wake_of,
};
use crate::master::{
    active_of, attached, handled, lemma_active_is, sound, ConnView, MasterView, Moment,
};
use crate::proto::laws::{law_frame_reads_back, law_part_of_a_frame_is_waited_for, sendable};
use crate::proto::{frame, next_frame, MsgView};
use crate::reconnect::next_look;
use crate::resume::{law_room_is_kept, pushed, ring_end};
use vstd::prelude::*;

verus! {

/// Whatever pieces a message arrives in, it is handled once it is whole, and what came
/// behind it waits for its turn.
pub proof fn law_messages_are_handled_in_turn(
    m: MasterView,
    i: int,
    msg: MsgView,
    k: int,
    rest: Seq<u8>,
    t: Moment,
)
    requires
        0 <= i < m.conns.len(),
        m.conns[i].state is Pending || m.conns[i].state is Active,
        !m.conns[i].dead,
        m.conns[i].dec.len() == 0,
        sendable(msg),
        0 <= k <= frame(msg).len(),
    ensures
        ({
            let a = arrived(m, i, frame(msg).take(k), t.now);
            let b = arrived(a, i, frame(msg).skip(k) + rest, t.now);
            let heard = MasterView {
                conns: m.conns.update(i, ConnView { live: b.conns[i].live, dec: rest, ..m.conns[i] }),
                ..m
            };
            &&& k < frame(msg).len() ==> !has_next(a, i)
            &&& has_next(b, i)
            &&& next_some(b, i, t) == handled(heard, i, msg, t)
        }),
{
    let a = arrived(m, i, frame(msg).take(k), t.now);
    let b = arrived(a, i, frame(msg).skip(k) + rest, t.now);
    assert(m.conns[i].dec =~= Seq::empty());
    assert(a.conns[i].dec =~= frame(msg).take(k));
    assert(b.conns[i].dec =~= frame(msg) + rest);
    law_frame_reads_back(msg, rest);
    if k < frame(msg).len() {
        law_part_of_a_frame_is_waited_for(msg, k);
    }
    let n = frame(msg).len() as int;
    assert((frame(msg) + rest).skip(n) =~= rest);
    let heard = MasterView {
        conns: m.conns.update(i, ConnView { live: b.conns[i].live, dec: rest, ..m.conns[i] }),
        ..m
    };
    assert(decoded(b, i, n).conns =~= heard.conns);
    assert(decoded(b, i, n) =~= heard);
}

/// A connection that is over is dropped, and no other: the rest stay, in their order.
pub proof fn law_only_what_is_over_is_dropped(conns: Seq<ConnView>)
    ensures
        alive(conns) == conns.filter(|c: ConnView| !c.dead),
    decreases conns.len(),
{
    reveal(Seq::filter);
    let live = |c: ConnView| !c.dead;
    if conns.len() > 0 {
        let rest = conns.skip(1);
        law_only_what_is_over_is_dropped(rest);
        let first = seq![conns[0]];
        assert(conns =~= first + rest);
        Seq::filter_distributes_over_add(first, rest, live);
        assert(first.filter(live) =~= if live(conns[0]) {
            first
        } else {
            Seq::empty()
        }) by {
            assert(first.drop_last() =~= Seq::empty());
            assert(first.drop_last().filter(live) =~= Seq::empty());
            assert(Seq::<ConnView>::empty().push(conns[0]) =~= first);
        }
        assert(Seq::<ConnView>::empty() + alive(rest) =~= alive(rest));
    }
}

/// A connection that is to be closed is over once it has been told everything; every
/// other stays as it is.
pub proof fn law_a_refused_client_hears_why(c: ConnView)
    ensures
        c.out.len() > 0 ==> settled(c) == c,
        !(c.state is Closing) ==> settled(c) == c,
        c.state is Closing && c.out.len() == 0 ==> settled(c).dead,
        settled(c).out == c.out && settled(c).state == c.state,
{
}

/// The loop sleeps no longer than until the first thing that is due, and not less than
/// that either, but for a program that is gone: then it looks soon.
pub proof fn law_the_loop_wakes_in_time(m: MasterView, wake: Option<u64>, now: u64)
    ensures
        ({
            let ms = wait_for(m, wake, now);
            let over = m.child is Some && m.child->0.status is Some;
            &&& ms == 0 || now + ms <= m.next_rebind
            &&& m.kill_deadline is Some ==> ms == 0 || now + ms <= m.kill_deadline->0
            &&& wake is Some ==> ms == 0 || now + ms <= wake->0
            &&& over ==> ms <= 50
            &&& !over ==> now + ms >= m.next_rebind || (m.kill_deadline is Some && now + ms
                >= m.kill_deadline->0) || (wake is Some && now + ms >= wake->0)
        }),
{
}

/// A master leaves when its program is gone and everything it printed has been read, or
/// when nobody ever came; never while a program runs or somebody is there.
pub proof fn law_a_master_stays_while_it_is_needed(m: MasterView, now: u64)
    ensures
        finished(m) ==> m.child is Some && m.child->0.status is Some && !m.child->0.pty_open,
        m.child is Some && m.child->0.status is Some && !m.child->0.pty_open ==> finished(m),
        m.child is Some ==> !orphaned(m, now),
        m.conns.len() > 0 ==> !orphaned(m, now),
        m.child is None && m.conns.len() == 0 && m.born + 30_000 <= u64::MAX ==> (orphaned(m, now)
            <==> now - m.born > 30_000),
{
}

/// What is read from the program is never more than fits behind what the attached client
/// has not been sent, so that nothing it is owed is overwritten.
pub proof fn law_output_waits_for_the_client(m: MasterView, want: nat, bytes: Seq<u8>, now: u64)
    requires
        sound(m),
        bytes.len() <= pty_room(m, want),
        ring_end(m.ring) + bytes.len() <= u64::MAX,
    ensures
        pty_room(m, want) <= want,
        active_of(m) is Some ==> {
            let c = m.conns[active_of(m)->0];
            output_of(data_msgs(c.state->next, printed(m, bytes, now).ring)) == output_of(
                data_msgs(c.state->next, m.ring),
            ) + bytes
        },
        active_of(m) is None ==> pty_room(m, want) == want,
{
    lemma_active_is(m);
    if active_of(m) is Some {
        let a = active_of(m)->0;
        let next = m.conns[a].state->next;
        assert(attached(m.conns[a]));
        law_room_is_kept(m.ring, next, bytes);
        let p = pushed(m.ring, bytes);
        law_the_rest_goes_out_whole(Seq::empty(), next, m.ring);
        law_the_rest_goes_out_whole(Seq::empty(), next, p);
    }
}

/// The loop wakes for the first of the attached clients whose patience is due.
pub proof fn law_the_first_to_be_looked_at_wakes(conns: Seq<ConnView>)
    ensures
        wake_of(conns) is None <==> forall|k: int|
            0 <= k < conns.len() ==> !attached(#[trigger] conns[k]),
        wake_of(conns) matches Some(w) ==> (forall|k: int|
            0 <= k < conns.len() && attached(#[trigger] conns[k]) ==> w <= next_look(
                conns[k].live,
            )) && exists|k: int|
            0 <= k < conns.len() && attached(#[trigger] conns[k]) && w == next_look(conns[k].live),
    decreases conns.len(),
{
    if conns.len() > 0 {
        let before = conns.drop_last();
        law_the_first_to_be_looked_at_wakes(before);
        let n = conns.len() - 1;
        assert forall|k: int| 0 <= k < n implies #[trigger] conns[k] == before[k] by {}
        if let Some(w) = wake_of(conns) {
            if wake_of(before) == Some(w) {
                let k = choose|k: int|
                    0 <= k < before.len() && attached(#[trigger] before[k]) && w == next_look(
                        before[k].live,
                    );
                assert(conns[k] == before[k]);
            } else {
                assert(attached(conns[n]) && w == next_look(conns[n].live));
            }
        } else {
            assert(!attached(conns[n]));
        }
        if forall|k: int| 0 <= k < conns.len() ==> !attached(#[trigger] conns[k]) {
            assert forall|k: int| 0 <= k < before.len() implies !attached(
                #[trigger] before[k],
            ) by {
                assert(conns[k] == before[k]);
            }
            assert(!attached(conns[n]));
        }
    }
}

/// What is written to a connection is the front of what is queued for it, and the rest
/// stays queued, in order; nothing else of the session changes.
pub proof fn law_what_is_queued_goes_out_in_order(m: MasterView, i: int, n: nat)
    requires
        0 <= i < m.conns.len(),
        n <= m.conns[i].out.len(),
    ensures
        ({
            let f = flushed(m, i, n);
            &&& m.conns[i].out.take(n as int) + f.conns[i].out == m.conns[i].out
            &&& f.conns.len() == m.conns.len()
            &&& forall|k: int|
                0 <= k < m.conns.len() && k != i ==> #[trigger] f.conns[k] == m.conns[k]
            &&& f.conns[i] == (ConnView { out: f.conns[i].out, ..m.conns[i] })
            &&& f == (MasterView { conns: f.conns, ..m })
        }),
{
    assert(m.conns[i].out.take(n as int) + m.conns[i].out.skip(n as int) =~= m.conns[i].out);
}

/// Bytes that are no frame end the connection they came on, with the reason; a connection
/// whose next message is not whole yet is left as it is.
pub proof fn law_no_frame_no_connection(m: MasterView, i: int)
    requires
        0 <= i < m.conns.len(),
        m.conns[i].state is Pending || m.conns[i].state is Active,
        !m.conns[i].dead,
        !has_next(m, i),
    ensures
        ({
            let n = next_none(m, i);
            let bad = next_frame(m.conns[i].dec) is Bad;
            &&& n.conns[i].state is Closing <==> bad
            &&& bad ==> n.conns[i].out.len() > m.conns[i].out.len()
            &&& !bad ==> n == m
            &&& n.ring == m.ring && n.child == m.child && n.pty_in == m.pty_in
        }),
{
}

/// A connection begins with nothing heard and nothing to say, attached to nothing.
pub proof fn law_a_connection_begins_empty(m: MasterView, key: u64, now: u64)
    ensures
        ({
            let c = new_conn(m, key, now);
            &&& c.key == key
            &&& c.dec.len() == 0 && c.out.len() == 0
            &&& c.state is Pending && !c.dead && !attached(c)
            &&& settled(c) == c
        }),
{
}

/// A program that is told to end has its grace first: it is not killed before, it is killed
/// once the grace is over if it is still there, and it is killed once.
pub proof fn law_a_program_has_its_grace(m: MasterView, i: int, t: Moment, now: u64, later: u64)
    requires
        0 <= i < m.conns.len(),
        attached(m.conns[i]),
        m.child matches Some(c) && c.status is None,
        t.now + 3000 <= u64::MAX,
    ensures
        ({
            let n = handled(m, i, MsgView::Kill, t).0;
            &&& now < t.now + 3000 ==> killed_at(n, now) == (n, false)
            &&& now >= t.now + 3000 ==> killed_at(n, now).1 && !killed_at(
                killed_at(n, now).0,
                later,
            ).1
            &&& killed_at(n, now).0.child == m.child && killed_at(n, now).0.conns == m.conns
        }),
{
}

/// A session that nobody is attached to can be ended from outside: its program is hung up
/// on, and one that never had a program leaves; the asker's connection stays until then.
pub proof fn law_a_free_session_can_be_ended(m: MasterView, i: int, t: Moment)
    requires
        sound(m),
        0 <= i < m.conns.len(),
        m.conns[i].state is Pending,
        forall|k: int| 0 <= k < m.conns.len() ==> !attached(#[trigger] m.conns[k]),
    ensures
        ({
            let (n, todo) = handled(m, i, MsgView::Kill, t);
            &&& n.conns[i].state is Ending && !n.conns[i].dead == !m.conns[i].dead
            &&& m.child is None ==> todo is Leave
            &&& m.child matches Some(c) ==> (todo is HangUp <==> c.status is None)
            &&& todo is HangUp ==> n.kill_deadline is Some
            &&& n.ring == m.ring && n.child == m.child
        }),
{
    lemma_active_is(m);
}

} // verus!
