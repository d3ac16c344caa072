//! What a client and a session's master hold to together: over a link that was
//! lost, what the program printed and what the user typed both arrive whole.

use crate::cli::laws::law_the_words_behind_are_the_command;
use crate::cli::{meant, ArgsView, ParsedView, TargetView};
use crate::client::connect::greeting;
use crate::client::serve::{attached, greeted, message_step, All, RelayView, TurnView};
use crate::client::state::{
    input_frames, input_msgs, law_input_goes_out_whole, law_output_is_whole, streamed, StateView,
};
use crate::master::args::program_for;
use crate::master::laws::{
    data_msgs, held_by_another, law_a_client_that_comes_back_goes_on, law_the_rest_goes_out_whole,
    law_who_is_let_in, lemma_a_hello_keeps_input, lemma_first_hello, output_of, welcomed_with,
};
use crate::master::{handled, resume_at, sound, to_pty, MasterView, Moment};
use crate::modes::laws::law_observing_in_pieces;
use crate::modes::observed;
use crate::proto::laws::frames;
use crate::proto::{HelloView, MsgView, Resume, WelcomeView, WinSize, MAX_CHUNK};
use crate::reconnect::after_heard;
use crate::resume::{around, data_from, keeps, ring_end, RingView};
use crate::wire::lemma_cat_assoc;
use vstd::prelude::*;

verus! {

/// A client after the host's messages, one by one.
pub open spec fn all_heard(a: All, msgs: Seq<MsgView>, now: u64) -> All
    decreases msgs.len(),
{
    if msgs.len() == 0 {
        a
    } else {
        all_heard(message_step(a, msgs[0], now).0, msgs.skip(1), now)
    }
}

/// A master after the messages of client `i`, one by one.
pub open spec fn all_handled(m: MasterView, i: int, msgs: Seq<MsgView>, t: Moment) -> MasterView
    decreases msgs.len(),
{
    if msgs.len() == 0 {
        m
    } else {
        all_handled(handled(m, i, msgs[0], t).0, i, msgs.skip(1), t)
    }
}

/// Everything a master keeps from where a client stands is put on the client's
/// terminal, whole, in order and once.
pub proof fn law_all_output_arrives(a: All, ring: RingView, now: u64)
    requires
        a.link.welcomed,
        !a.state.bell_pending,
        ring.start <= a.state.offset <= ring_end(ring) <= u64::MAX,
    ensures
        ({
            let rest = ring.bytes.skip(a.state.offset - ring.start);
            let b = all_heard(a, data_msgs(a.state.offset, ring), now);
            &&& b.state.offset == ring_end(ring)
            &&& streamed(b.term.acts) == streamed(a.term.acts) + rest
            &&& b.state.observer == observed(a.state.observer, rest)
        }),
    decreases ring_end(ring) - a.state.offset,
{
    let next = a.state.offset;
    let rest = ring.bytes.skip(next - ring.start);
    let msgs = data_msgs(next, ring);
    if next == ring_end(ring) {
        assert(rest =~= Seq::empty());
        assert(streamed(a.term.acts) + rest =~= streamed(a.term.acts));
    } else {
        reveal(crate::client::serve::output_taken);
        let bytes = data_from(ring, next, MAX_CHUNK as nat);
        let then = (next + bytes.len()) as u64;
        let first = MsgView::Data { offset: next, bytes };
        assert(msgs.skip(1) =~= data_msgs(then, ring));
        let b = message_step(a, first, now).0;
        assert(bytes.skip(0) =~= bytes);
        law_output_is_whole(a.state, a.term, bytes);
        assert(around(next, bytes.len()) == then);
        law_all_output_arrives(b, ring, now);
        let more = ring.bytes.skip(then - ring.start);
        assert(bytes + more =~= rest);
        law_observing_in_pieces(a.state.observer, bytes, more);
        lemma_cat_assoc(streamed(a.term.acts), bytes, more);
    }
}

/// A client that comes back over a new link to the session it was attached to sees
/// exactly what it has not seen, as long as that is still kept: nothing is printed
/// twice, and nothing between is lost.
pub proof fn law_a_lost_link_loses_no_output(
    a: All,
    m: MasterView,
    h: HelloView,
    w: WelcomeView,
    size: Option<WinSize>,
    now: u64,
)
    requires
        !a.state.bell_pending,
        a.state.instance == Some(m.instance),
        m.ring.start <= a.state.offset <= ring_end(m.ring) <= u64::MAX,
        h.resume == Some(Resume { instance: m.instance, offset: a.state.offset }),
        w.instance == m.instance,
        !w.created,
        (w.offset, w.kind) == resume_at(m, h, false),
    ensures
        ({
            let rest = m.ring.bytes.skip(a.state.offset - m.ring.start);
            let b = attached(greeted(a, w, now), w, size);
            let c = all_heard(b, data_msgs(w.offset, m.ring), now);
            &&& output_of(data_msgs(w.offset, m.ring)) == rest
            &&& streamed(b.term.acts) == streamed(a.term.acts)
            &&& streamed(c.term.acts) == streamed(a.term.acts) + rest
            &&& c.state.observer == observed(a.state.observer, rest)
            &&& c.state.offset == ring_end(m.ring)
        }),
{
    reveal(greeted);
    law_the_rest_goes_out_whole(Seq::empty(), w.offset, m.ring);
    law_all_output_arrives(attached(greeted(a, w, now), w, size), m.ring, now);
}

/// Input that a master has part of already is taken from where that part ends.
proof fn lemma_all_input_taken(m: MasterView, i: int, seq: u64, bytes: Seq<u8>, t: Moment)
    requires
        0 <= i < m.conns.len(),
        crate::master::attached(m.conns[i]),
        seq <= m.written <= seq + bytes.len() <= u64::MAX,
    ensures
        ({
            let n = all_handled(m, i, input_msgs(seq, bytes), t);
            &&& n.pty_in == m.pty_in + bytes.skip(m.written - seq)
            &&& n.written == seq + bytes.len()
        }),
    decreases bytes.len(),
{
    reveal_with_fuel(all_handled, 2);
    let msgs = input_msgs(seq, bytes);
    assert(m.pty_in + Seq::<u8>::empty() =~= m.pty_in);
    if bytes.len() == 0 {
        assert(bytes.skip(0) =~= Seq::empty());
    } else if bytes.len() <= MAX_CHUNK {
        assert(msgs.skip(1) =~= Seq::empty());
        if m.written == seq + bytes.len() {
            assert(bytes.skip(m.written - seq) =~= Seq::empty());
        }
    } else {
        let chunk = bytes.take(MAX_CHUNK as int);
        let rest = bytes.skip(MAX_CHUNK as int);
        let next = around(seq, MAX_CHUNK as nat);
        assert(next == seq + MAX_CHUNK);
        assert(msgs.skip(1) =~= input_msgs(next, rest));
        let n = handled(m, i, msgs[0], t).0;
        lemma_all_input_taken(n, i, next, rest, t);
        if next <= m.written {
            assert(rest.skip(m.written - next) =~= bytes.skip(m.written - seq));
        } else {
            assert(chunk.skip(m.written - seq) + rest.skip(0) =~= bytes.skip(m.written - seq));
            lemma_cat_assoc(m.pty_in, chunk.skip(m.written - seq), rest.skip(0));
        }
    }
}

/// What was typed and not acknowledged before a link was lost is sent again over
/// the next one, behind what is owed already. The master gives the program all of
/// it that it has not had, in order and once.
pub proof fn law_a_lost_link_loses_no_input(
    a: All,
    m: MasterView,
    i: int,
    w: WelcomeView,
    size: Option<WinSize>,
    t: Moment,
    now: u64,
)
    requires
        sound(m),
        0 <= i < m.conns.len(),
        crate::master::attached(m.conns[i]),
        a.state.instance == Some(m.instance),
        w.instance == m.instance,
        w.input_seq == to_pty(m),
        a.state.unacked.seq <= to_pty(m),
        m.written <= a.state.unacked.seq + a.state.unacked.bytes.len() <= u64::MAX,
    ensures
        ({
            let g = greeted(a, w, now);
            let owed = input_msgs(g.state.unacked.seq, g.state.unacked.bytes);
            let n = all_handled(m, i, owed, t);
            let out = attached(g, w, size).link.out;
            let u = a.state.unacked;
            &&& (g.link.out + frames(owed)) == out.take((g.link.out + frames(owed)).len() as int)
            &&& n.pty_in == m.pty_in + u.bytes.skip(m.written - u.seq)
            &&& n.written == u.seq + u.bytes.len()
        }),
{
    reveal(greeted);
    let g = greeted(a, w, now);
    let u = a.state.unacked;
    let v = g.state.unacked;
    law_input_goes_out_whole(v.seq, v.bytes);
    let first = g.link.out + input_frames(v.seq, v.bytes);
    assert(attached(g, w, size).link.out.take(first.len() as int) =~= first);
    assert(v.seq == to_pty(m));
    assert(v.bytes =~= u.bytes.skip(to_pty(m) - u.seq));
    lemma_all_input_taken(m, i, v.seq, v.bytes, t);
    assert(v.bytes.skip(m.written - v.seq) =~= u.bytes.skip(m.written - u.seq));
}

// ---- the HELLO of a redial -------------------------------------------------

/// What was printed before a link was lost and what is printed after it is found again
/// is, together, what the program printed, once: the HELLO that the client sends, the
/// WELCOME that the master answers it with and the output that follows carry the
/// terminal from the byte it stands at to the last.
pub proof fn law_a_redial_prints_everything_once(
    args: ArgsView,
    a: All,
    m: MasterView,
    i: int,
    force: bool,
    term: Seq<char>,
    colorterm: Seq<char>,
    size: WinSize,
    t: Moment,
    now: u64,
    all: Seq<u8>,
)
    requires
        sound(m),
        0 <= i < m.conns.len(),
        m.conns[i].state is Pending,
        !m.conns[i].dead,
        m.child is Some,
        keeps(m.ring, all),
        !a.link.welcomed,
        !a.state.bell_pending,
        a.state.session == Some(m.session),
        a.state.instance == Some(m.instance),
        a.state.offset <= all.len() <= a.state.offset + m.ring.bytes.len(),
        streamed(a.term.acts) == all.take(a.state.offset as int),
        force || !held_by_another(m, a.state.identity),
    ensures
        ({
            let h = greeting(args, a.state, force, term, colorterm, size);
            let n = handled(m, i, MsgView::Hello(h), t).0;
            let next = n.conns[i].state->next;
            &&& n.conns[i].state is Active
            &&& next == a.state.offset
            &&& exists|w: WelcomeView| #[trigger]
                welcomed_with(m, n, i, w) && {
                    let (b, turn) = message_step(a, MsgView::Welcome(w), now);
                    let c = all_heard(
                        attached(b, w, Some(size)),
                        data_msgs(next, n.ring),
                        now,
                    );
                    &&& turn == TurnView::Raw(w)
                    &&& c.state.offset == all.len()
                    &&& streamed(c.term.acts) == all
                }
        }),
{
    let h = greeting(args, a.state, force, term, colorterm, size);
    let n = handled(m, i, MsgView::Hello(h), t).0;
    law_who_is_let_in(m, i, h, t);
    law_a_client_that_comes_back_goes_on(m, i, h, t, all);
    let next = n.conns[i].state->next;
    let w = choose|w: WelcomeView| #[trigger]
        welcomed_with(m, n, i, w) && w.offset == next && !w.created && w.kind is Resumed;
    lemma_carried_on(a, w, size, n.ring, now, all);
}

/// A client that resumes, and what is sent it then.
proof fn lemma_carried_on(
    a: All,
    w: WelcomeView,
    size: WinSize,
    ring: RingView,
    now: u64,
    all: Seq<u8>,
)
    requires
        !a.link.welcomed,
        !a.state.bell_pending,
        a.state.instance == Some(w.instance),
        w.offset == a.state.offset,
        w.kind is Resumed,
        !w.created,
        keeps(ring, all),
        ring.start <= a.state.offset <= all.len(),
        streamed(a.term.acts) == all.take(a.state.offset as int),
    ensures
        ({
            let (b, turn) = message_step(a, MsgView::Welcome(w), now);
            let c = all_heard(attached(b, w, Some(size)), data_msgs(w.offset, ring), now);
            &&& turn == TurnView::Raw(w)
            &&& c.state.offset == all.len()
            &&& streamed(c.term.acts) == all
        }),
{
    let heard = All {
        link: RelayView { live: after_heard(a.link.live, now), ..a.link },
        ..a
    };
    reveal(greeted);
    let next = w.offset;
    let b = attached(greeted(heard, w, now), w, Some(size));
    law_all_output_arrives(b, ring, now);
    assert(ring.bytes.skip(next - ring.start) =~= all.skip(next as int));
    assert(all.take(next as int) + all.skip(next as int) =~= all);
}

/// What was typed before a link was lost reaches the program after it is found again,
/// once and in order: over the HELLO that the client sends, the WELCOME that answers it,
/// and the input that follows. `typed` is all that was typed to this session.
pub proof fn law_a_redial_types_everything_once(
    args: ArgsView,
    a: All,
    m: MasterView,
    i: int,
    force: bool,
    term: Seq<char>,
    colorterm: Seq<char>,
    size: WinSize,
    t: Moment,
    now: u64,
    typed: Seq<u8>,
)
    requires
        sound(m),
        0 <= i < m.conns.len(),
        m.conns[i].state is Pending,
        !m.conns[i].dead,
        m.child is Some,
        !a.link.welcomed,
        a.state.session == Some(m.session),
        a.state.instance == Some(m.instance),
        typed.len() <= u64::MAX,
        a.state.unacked.seq + a.state.unacked.bytes.len() == typed.len(),
        a.state.unacked.bytes == typed.skip(a.state.unacked.seq as int),
        a.state.unacked.seq <= m.written - m.pty_in.len(),
        m.written <= typed.len(),
        force || !held_by_another(m, a.state.identity),
    ensures
        ({
            let h = greeting(args, a.state, force, term, colorterm, size);
            let n = handled(m, i, MsgView::Hello(h), t).0;
            exists|w: WelcomeView| #[trigger]
                welcomed_with(m, n, i, w) && {
                    let b = message_step(a, MsgView::Welcome(w), now).0;
                    let owed = input_msgs(b.state.unacked.seq, b.state.unacked.bytes);
                    let out = attached(b, w, Some(size)).link.out;
                    let p = all_handled(n, i, owed, t);
                    &&& out.take((b.link.out + frames(owed)).len() as int) == b.link.out + frames(
                        owed,
                    )
                    &&& p.pty_in == m.pty_in + typed.skip(m.written as int)
                    &&& p.written == typed.len()
                }
        }),
{
    let h = greeting(args, a.state, force, term, colorterm, size);
    let n = handled(m, i, MsgView::Hello(h), t).0;
    law_who_is_let_in(m, i, h, t);
    lemma_a_hello_keeps_input(m, i, h, t);
    let w = choose|w: WelcomeView| #[trigger] welcomed_with(m, n, i, w);
    lemma_typed_on(a, n, i, w, size, t, now, typed);
}

proof fn lemma_typed_on(
    a: All,
    n: MasterView,
    i: int,
    w: WelcomeView,
    size: WinSize,
    t: Moment,
    now: u64,
    typed: Seq<u8>,
)
    requires
        sound(n),
        0 <= i < n.conns.len(),
        crate::master::attached(n.conns[i]),
        !a.link.welcomed,
        a.state.instance == Some(n.instance),
        w.instance == n.instance,
        w.input_seq + n.pty_in.len() == n.written,
        a.state.unacked.seq <= w.input_seq,
        typed.len() <= u64::MAX,
        a.state.unacked.seq + a.state.unacked.bytes.len() == typed.len(),
        a.state.unacked.bytes == typed.skip(a.state.unacked.seq as int),
        n.written <= typed.len(),
    ensures
        ({
            let b = message_step(a, MsgView::Welcome(w), now).0;
            let owed = input_msgs(b.state.unacked.seq, b.state.unacked.bytes);
            let out = attached(b, w, Some(size)).link.out;
            let p = all_handled(n, i, owed, t);
            &&& out.take((b.link.out + frames(owed)).len() as int) == b.link.out + frames(owed)
            &&& p.pty_in == n.pty_in + typed.skip(n.written as int)
            &&& p.written == typed.len()
        }),
{
    let heard = All {
        link: RelayView { live: after_heard(a.link.live, now), ..a.link },
        ..a
    };
    law_a_lost_link_loses_no_input(heard, n, i, w, Some(size), t, now);
    let u = a.state.unacked;
    assert(u.bytes.skip(n.written - u.seq) =~= typed.skip(n.written as int));
}

/// The session that is asked for is the session that is started, and it runs what was
/// asked for: the words of the command line as they stand, or without any the login
/// shell, on the terminal that asked.
pub proof fn law_the_command_asked_for_is_run(
    args: ArgsView,
    s: StateView,
    m: MasterView,
    i: int,
    force: bool,
    term: Seq<char>,
    colorterm: Seq<char>,
    size: WinSize,
    shell: Option<Seq<char>>,
    t: Moment,
)
    requires
        sound(m),
        0 <= i < m.conns.len(),
        m.conns[i].state is Pending,
        !m.conns[i].dead,
        m.child is None,
        s.instance is None,
        match (s.session, args.target) {
            (Some(name), _) => name == m.session,
            (None, TargetView::Named(name)) => name == m.session,
            (None, TargetView::Pick(name)) => name == m.session,
            (None, TargetView::New) => m.session =~= Seq::empty(),
        },
        force || !held_by_another(m, s.identity),
    ensures
        ({
            let h = greeting(args, s, force, term, colorterm, size);
            let todo = handled(m, i, MsgView::Hello(h), t).1;
            &&& todo is StartChild
            &&& todo->StartChild_0.identity == s.identity
            &&& todo->StartChild_0.size == size
            &&& {
                let g = todo->StartChild_0;
                let p = program_for(shell, g.command, g.term, g.colorterm);
                &&& args.command.len() > 0 ==> p.argv == args.command
                &&& args.command.len() == 0 ==> p.argv.len() == 2 && p.argv[1] == "-l"@ && (
                shell is Some && shell->0.len() > 0 ==> p.argv[0] == shell->0) && (
                shell is None ==> p.argv[0] == "/bin/sh"@)
                &&& term.len() > 0 ==> p.term == term
                &&& p.colorterm == if colorterm.len() > 0 {
                    Some(colorterm)
                } else {
                    None
                }
            }
        }),
{
    let h = greeting(args, s, force, term, colorterm, size);
    lemma_first_hello(m, i, h, t);
}

/// From the command line to the program: the words behind a `--` are what the master of
/// a new session runs, one by one.
pub proof fn law_a_command_line_runs_its_command(
    before: Seq<Seq<char>>,
    command: Seq<Seq<char>>,
    default: Option<Seq<char>>,
    a: ArgsView,
    s: StateView,
    m: MasterView,
    i: int,
    term: Seq<char>,
    colorterm: Seq<char>,
    size: WinSize,
    shell: Option<Seq<char>>,
    t: Moment,
)
    requires
        forall|k: int| 0 <= k < before.len() ==> #[trigger] before[k] != "--"@,
        meant(before, default, false) == Ok::<ParsedView, Seq<char>>(ParsedView::Run(a)),
        command.len() > 0,
        sound(m),
        0 <= i < m.conns.len(),
        m.conns[i].state is Pending,
        !m.conns[i].dead,
        m.child is None,
        s.instance is None,
        s.session == Some(m.session),
        !held_by_another(m, s.identity),
    ensures
        meant(before + seq!["--"@] + command, default, false) matches Ok(ParsedView::Run(b)) && {
            let h = greeting(b, s, b.force, term, colorterm, size);
            let todo = handled(m, i, MsgView::Hello(h), t).1;
            &&& todo is StartChild
            &&& program_for(
                shell,
                todo->StartChild_0.command,
                todo->StartChild_0.term,
                todo->StartChild_0.colorterm,
            ).argv == command
        },
{
    law_the_words_behind_are_the_command(before, command, default, a);
    let b = ArgsView { command, ..a };
    law_the_command_asked_for_is_run(
        b,
        s,
        m,
        i,
        b.force,
        term,
        colorterm,
        size,
        shell,
        t,
    );
}

} // verus!
