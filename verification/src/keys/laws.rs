//! What command mode promises: no byte is lost or made up, only the double
//! tap can start a command, and a paste is never one.

use super::{
    at_lex, classify, clock_ok, collecting, deadline_of, expired, fed, ground, held, paste_end, release,
    stands_at, step, steps, ticked, token, valid, waiting_since, Action, Config, DetectorView, Kind, Lex, Run,
    StateView, MAX_STR, PENDING_MS,
};
use vstd::multiset::Multiset;
use vstd::prelude::*;
use vstd::seq_lib::lemma_multiset_commutative;

verus! {

/// The bytes that a detector has taken and neither forwarded nor used up: the
/// presses it holds, then the sequence it is reading.
pub open spec fn kept(d: DetectorView) -> Seq<u8> {
    held(d.state) + d.seq
}

/// Everything that went into a run and is not used up.
pub open spec fn account(r: Run) -> Multiset<u8> {
    r.fwd.to_multiset().add(held(r.d.state).to_multiset()).add(r.d.seq.to_multiset())
}

proof fn lemma_token_keeps(r: Run, kind: Kind, bytes: Seq<u8>, now: u64)
    requires
        r.act is None,
        token(r, kind, bytes, now).act is None,
    ensures
        account(token(r, kind, bytes, now)) =~= account(r).add(bytes.to_multiset()),
        token(r, kind, bytes, now).d.seq == r.d.seq,
        token(r, kind, bytes, now).d.lex == r.d.lex,
        token(r, kind, bytes, now).d.seq_since == r.d.seq_since,
{
    let h = held(r.d.state);
    lemma_multiset_commutative(r.fwd, bytes);
    lemma_multiset_commutative(r.fwd, h);
    lemma_multiset_commutative(r.fwd + h, bytes);
    lemma_multiset_commutative(h, bytes);
    lemma_empty();
}

proof fn lemma_empty()
    ensures
        Seq::<u8>::empty().to_multiset() =~= Multiset::<u8>::empty(),
{
    broadcast use vstd::seq_lib::group_to_multiset_ensures;

    assert(Seq::<u8>::empty().to_multiset().len() == 0);
}

proof fn lemma_push(s: Seq<u8>, b: u8)
    ensures
        s.push(b).to_multiset() =~= s.to_multiset().add(seq![b].to_multiset()),
{
    lemma_multiset_commutative(s, seq![b]);
    assert(s + seq![b] =~= s.push(b));
}

proof fn lemma_release_keeps(r: Run)
    ensures
        account(release(r)) =~= account(r),
{
    lemma_multiset_commutative(r.fwd, held(r.d.state));
    lemma_empty();
}

proof fn lemma_ground_keeps(r: Run, b: u8, now: u64)
    requires
        r.act is None,
        r.d.seq.len() == 0,
        ground(r, b, now).act is None,
    ensures
        account(ground(r, b, now)) =~= account(r).add(seq![b].to_multiset()),
{
    lemma_empty();
    assert(r.d.seq =~= Seq::empty());
    if b == 0x1b {
    } else if b == r.d.cfg.byte {
        lemma_token_keeps(r, Kind::EscPress, seq![b], now);
    } else {
        lemma_token_keeps(r, super::plain(b), seq![b], now);
    }
}

proof fn lemma_step_keeps(r: Run, b: u8, now: u64)
    requires
        r.act is None,
        valid(r.d),
        step(r, b, now).act is None,
    ensures
        account(step(r, b, now)) =~= account(r).add(seq![b].to_multiset()),
{
    lemma_empty();
    let none = Seq::<u8>::empty();
    let seq = r.d.seq.push(b);
    lemma_push(r.d.seq, b);
    match r.d.lex {
        Lex::Ground => lemma_ground_keeps(r, b, now),
        Lex::Esc => {
            if b == 0x5b || b == 0x4f {
            } else if b == 0x5d || b == 0x50 || b == 0x5f {
                lemma_token_keeps(collecting(r, none), Kind::Passive, seq, now);
            } else if b == 0x1b {
                let t = token(collecting(r, none), Kind::Key(None), r.d.seq, now);
                lemma_token_keeps(collecting(r, none), Kind::Key(None), r.d.seq, now);
                assert(step(r, b, now) == collecting(t, seq![b]));
                assert(account(t) =~= t.fwd.to_multiset().add(held(t.d.state).to_multiset()));
                assert(account(r) =~= account(t));
            } else {
                lemma_token_keeps(
                    at_lex(collecting(r, none), Lex::Ground),
                    Kind::Key(None),
                    seq,
                    now,
                );
            }
        },
        Lex::Ss3 => {
            let q = waiting_since(at_lex(collecting(r, none), Lex::Ground), None);
            lemma_token_keeps(q, Kind::Key(None), seq, now);
        },
        Lex::Csi => {
            let q = at_lex(collecting(r, none), Lex::Ground);
            if 0x20 <= b <= 0x3f && r.d.seq.len() < super::MAX_SEQ {
            } else if 0x40 <= b <= 0x7e {
                let w = waiting_since(q, None);
                let fin = seq.last();
                let body = seq.subrange(2, seq.len() - 1);
                if seq == super::paste_start() {
                    lemma_release_keeps(w);
                    lemma_multiset_commutative(release(w).fwd, seq);
                } else if body.len() == 0 && fin == 0x4d {
                } else if super::passive(body, fin) {
                    lemma_token_keeps(w, Kind::Passive, seq, now);
                } else {
                    lemma_token_keeps(
                        w,
                        super::classify(w.d.cfg, super::params(body), fin),
                        seq,
                        now,
                    );
                }
            } else {
                lemma_token_keeps(q, Kind::Key(None), r.d.seq, now);
                let t = waiting_since(token(q, Kind::Key(None), r.d.seq, now), None);
                lemma_ground_keeps(t, b, now);
            }
        },
        Lex::Mouse(left) => {
            if left == 1 {
                let q = waiting_since(at_lex(collecting(r, none), Lex::Ground), None);
                lemma_token_keeps(q, Kind::Passive, seq, now);
            }
        },
        Lex::Str { esc } => lemma_multiset_commutative(r.fwd, seq![b]),
        Lex::Paste(matched) => {
            lemma_release_keeps(r);
            lemma_multiset_commutative(release(r).fwd, seq![b]);
        },
    }
}

/// Every reachable detector stays valid.
pub proof fn law_steps_stay_valid(r: Run, b: u8, now: u64)
    requires
        valid(r.d),
        clock_ok(r.d.cfg, now),
    ensures
        valid(step(r, b, now).d),
        step(r, b, now).d.cfg == r.d.cfg,
{
}

proof fn lemma_steps_keep(r: Run, input: Seq<u8>, now: u64)
    requires
        r.act is None,
        valid(r.d),
        clock_ok(r.d.cfg, now),
        steps(r, input, now).act is None,
    ensures
        account(steps(r, input, now)) =~= account(r).add(input.to_multiset()),
        valid(steps(r, input, now).d),
    decreases input.len(),
{
    lemma_empty();
    if input.len() == 0 {
        assert(input =~= Seq::empty());
    } else {
        let q = step(r, input[0], now);
        law_steps_stay_valid(r, input[0], now);
        if q.act is None {
            lemma_step_keeps(r, input[0], now);
            lemma_steps_keep(q, input.skip(1), now);
            lemma_multiset_commutative(seq![input[0]], input.skip(1));
            assert(seq![input[0]] + input.skip(1) =~= input);
        }
    }
}

/// A read that completes no command loses no byte and makes none up: what it
/// forwards and what is kept back afterwards is, byte for byte, what was kept
/// back before and what was read. (Order can change in one way: a reply or a
/// report overtakes a held press.)
pub proof fn law_nothing_is_lost(d: DetectorView, input: Seq<u8>, now: u64)
    requires
        valid(d),
        clock_ok(d.cfg, now),
        fed(d, input, now).act is None,
    ensures
        fed(d, input, now).fwd.to_multiset().add(kept(fed(d, input, now).d).to_multiset())
            =~= kept(d).to_multiset().add(input.to_multiset()),
{
    let t = ticked(d, now);
    law_tick_loses_nothing(d, now);
    assert(valid(t.d) && t.d.cfg == d.cfg);
    let r = steps(t, input, now);
    lemma_steps_keep(t, input, now);
    let e = fed(d, input, now);
    lemma_empty();
    if r.d.lex is Esc {
        lemma_token_keeps(
            at_lex(collecting(r, Seq::empty()), Lex::Ground),
            Kind::Key(None),
            r.d.seq,
            now,
        );
    }
    assert(account(e) =~= account(r));
    lemma_multiset_commutative(held(e.d.state), e.d.seq);
    lemma_multiset_commutative(held(d.state), d.seq);
    lemma_multiset_commutative(held(t.d.state), t.d.seq);
    assert(e.fwd.to_multiset().add(kept(e.d).to_multiset()) =~= account(e));
    assert(t.fwd.to_multiset().add(kept(t.d).to_multiset()) =~= account(t));
    assert(account(t) =~= kept(d).to_multiset());
}

/// A tick forwards bytes that were kept back, and keeps the others.
pub proof fn law_tick_loses_nothing(d: DetectorView, now: u64)
    requires
        valid(d),
    ensures
        ticked(d, now).act is None,
        ticked(d, now).fwd.to_multiset().add(kept(ticked(d, now).d).to_multiset())
            =~= kept(d).to_multiset(),
{
    lemma_empty();
    let r0 = Run { d, fwd: Seq::empty(), act: None };
    let r1 = if d.lex is Str && now >= d.str_last + PENDING_MS {
        at_lex(r0, Lex::Ground)
    } else {
        r0
    };
    let due = d.seq_since is Some && now >= d.seq_since->0 + PENDING_MS;
    let q = at_lex(waiting_since(collecting(r1, Seq::empty()), None), Lex::Ground);
    let r2 = if due {
        token(q, Kind::Key(None), d.seq, now)
    } else {
        r1
    };
    if due {
        lemma_token_keeps(q, Kind::Key(None), d.seq, now);
    }
    lemma_release_keeps(r2);
    let e = ticked(d, now);
    assert(e == if expired(r2.d.state, now) {
        release(r2)
    } else {
        r2
    });
    lemma_multiset_commutative(held(e.d.state), e.d.seq);
    lemma_multiset_commutative(held(d.state), d.seq);
}

/// Nothing happens to what is kept back before the deadline.
pub proof fn law_nothing_before_the_deadline(d: DetectorView, now: u64)
    requires
        valid(d),
        deadline_of(d) matches Some(t) ==> now < t,
    ensures
        ticked(d, now).fwd == Seq::<u8>::empty(),
        ticked(d, now).d.state == d.state,
        ticked(d, now).d.seq == d.seq,
{
}

/// From its deadline on, a tick has sent what was held.
pub proof fn law_held_no_longer_than_the_deadline(d: DetectorView, now: u64)
    requires
        valid(d),
        expired(d.state, now),
    ensures
        ticked(d, now).d.state is Idle,
{
}

/// Only a detector that is armed completes a command, and only one that holds
/// a press is armed by a byte: a command takes the double tap.
pub proof fn law_command_takes_a_double_tap(r: Run, b: u8, now: u64)
    requires
        r.act is None,
        valid(r.d),
    ensures
        step(r, b, now).act is Some ==> r.d.state is Command,
        step(r, b, now).d.state is Command ==> r.d.state !is Idle,
{
}

/// The second press gives the configured window to choose the command key,
/// and never less than two seconds.
pub proof fn law_time_to_choose(r: Run, bytes: Seq<u8>, now: u64)
    requires
        r.d.state is Held,
        clock_ok(r.d.cfg, now),
    ensures
        token(r, Kind::EscPress, bytes, now).d.state matches StateView::Command { until, .. }
            && until - now >= 2000 && until - now >= r.d.cfg.window_ms,
{
}

/// Whether `t` ends with the first `m` bytes of the marker that ends a paste.
spec fn ends_in_marker(t: Seq<u8>, m: int) -> bool {
    0 <= m <= t.len() && m <= 6 && t.skip(t.len() - m) == paste_end().take(m)
}

proof fn lemma_marker_step(t: Seq<u8>, b: u8, m: int)
    requires
        0 <= m < 6,
    ensures
        ends_in_marker(t.push(b), m + 1) <==> ends_in_marker(t, m) && b == paste_end()[m],
{
    let u = t.push(b);
    if m <= t.len() {
        assert(u.skip(u.len() - (m + 1)) =~= t.skip(t.len() - m).push(b));
        assert(paste_end().take(m + 1) =~= paste_end().take(m).push(paste_end()[m]));
        let x = t.skip(t.len() - m).push(b);
        let y = paste_end().take(m).push(paste_end()[m]);
        if x == y {
            assert(x.drop_last() =~= t.skip(t.len() - m));
            assert(y.drop_last() =~= paste_end().take(m));
            assert(x.last() == b);
        }
    }
}

/// How much of the end marker a paste has matched is the most of it that the
/// pasted text ends with.
spec fn best_match(t: Seq<u8>, m: int) -> bool {
    ends_in_marker(t, m) && forall|k: int| m < k <= 6 ==> !#[trigger] ends_in_marker(t, k)
}

proof fn lemma_best_step(t: Seq<u8>, b: u8, m: int)
    requires
        0 <= m < 6,
        best_match(t, m),
    ensures
        best_match(
            t.push(b),
            if b == paste_end()[m] {
                m + 1
            } else if b == 0x1b {
                1
            } else {
                0
            },
        ),
{
    let e = paste_end();
    let u = t.push(b);
    assert forall|k: int| 0 <= k < 6 implies (#[trigger] ends_in_marker(u, k + 1)
        <==> ends_in_marker(t, k) && b == e[k]) by {
        lemma_marker_step(t, b, k);
    }
    assert(u.skip(u.len() as int) =~= e.take(0));
    assert(ends_in_marker(u, 0));
    assert(t.skip(t.len() as int) =~= e.take(0));
    assert(ends_in_marker(t, 0));
    let n: int = if b == e[m] {
        m + 1
    } else if b == 0x1b {
        1
    } else {
        0
    };
    assert forall|k: int| n < k <= 6 implies !#[trigger] ends_in_marker(u, k) by {
        if ends_in_marker(u, k) {
            assert(ends_in_marker(u, (k - 1) + 1));
            assert(ends_in_marker(t, k - 1) && b == e[k - 1]);
            if k - 1 > m {
                assert(false);
            } else if k - 1 < m && k - 1 >= 1 {
                let x = t.skip(t.len() - m);
                let y = t.skip(t.len() - (k - 1));
                assert(y[0] == e.take(k - 1)[0]);
                assert(x[m - (k - 1)] == y[0]);
                assert(x[m - (k - 1)] == e.take(m)[m - (k - 1)]);
                assert(e[m - (k - 1)] == 0x1b);
                assert(false);
            }
        }
    }
    if n > 0 {
        assert(ends_in_marker(u, (n - 1) + 1));
    }
}

proof fn lemma_paste_run(r: Run, done: Seq<u8>, rest: Seq<u8>, now: u64)
    requires
        r.act is None,
        r.d.state is Idle,
        rest.len() > 0,
        ends_in_marker(done + rest, 6),
        r.d.lex matches Lex::Paste(m) && m < 6 && best_match(done, m as int),
        forall|k: int|
            done.len() <= k < (done + rest).len() ==> !#[trigger] ends_in_marker(
                (done + rest).take(k),
                6,
            ),
    ensures
        steps(r, rest, now).act is None,
        steps(r, rest, now).d.lex is Ground,
        steps(r, rest, now).d.state is Idle,
        steps(r, rest, now).fwd == r.fwd + rest,
    decreases rest.len(),
{
    let m = r.d.lex->Paste_0;
    let b = rest[0];
    let q = step(r, b, now);
    let done2 = done.push(b);
    let rest2 = rest.skip(1);
    lemma_best_step(done, b, m as int);
    assert(done2 + rest2 =~= done + rest);
    assert(r.fwd + Seq::<u8>::empty() =~= r.fwd);
    assert(q.fwd == r.fwd + seq![b]);
    assert(seq![b] + rest2 =~= rest);
    assert((r.fwd + seq![b]) + rest2 =~= r.fwd + rest);
    assert((done + rest).take(done2.len() as int) =~= done2);
    if rest2.len() == 0 {
        assert(done2 =~= done + rest);
        assert(ends_in_marker(done2, 6));
        assert(q.d.lex is Ground);
    } else {
        assert(!ends_in_marker((done + rest).take(done2.len() as int), 6));
        lemma_paste_run(q, done2, rest2, now);
    }
}

/// A paste passes through untouched and starts no command, whatever it holds:
/// from its start marker to the first end marker every byte is forwarded as
/// it came, and nothing is held or decided.
#[verifier::spinoff_prover]
pub proof fn law_paste_passes_through(r: Run, text: Seq<u8>, now: u64)
    requires
        r.act is None,
        r.d.state is Idle,
        r.d.lex == Lex::Paste(0),
        forall|i: int| 0 <= i < text.len() ==> !stands_at(text + paste_end(), i, paste_end()),
    ensures
        steps(r, text + paste_end(), now).act is None,
        steps(r, text + paste_end(), now).d.lex is Ground,
        steps(r, text + paste_end(), now).d.state is Idle,
        steps(r, text + paste_end(), now).fwd == r.fwd + (text + paste_end()),
{
    let e = paste_end();
    let all = text + e;
    let none = Seq::<u8>::empty();
    assert(none + all =~= all);
    assert(all.skip(all.len() - 6) =~= e);
    assert(e.take(6) =~= e);
    assert(ends_in_marker(all, 6));
    assert(none.skip(0) =~= e.take(0));
    assert(best_match(none, 0));
    assert forall|k: int| 0 <= k < (none + all).len() implies !#[trigger] ends_in_marker(
        (none + all).take(k),
        6,
    ) by {
        if ends_in_marker((none + all).take(k), 6) {
            lemma_where_marker_ends(all, k);
        }
    }
    lemma_paste_run(r, none, all, now);
}

proof fn lemma_where_marker_ends(all: Seq<u8>, k: int)
    requires
        0 <= k <= all.len(),
        ends_in_marker(all.take(k), 6),
    ensures
        stands_at(all, k - 6, paste_end()),
{
    assert(paste_end().take(6) =~= paste_end());
    assert(all.take(k).skip(k - 6) =~= all.subrange(k - 6, k));
}

/// A string that a terminal sends cannot swallow the command key for ever:
/// within [`MAX_STR`] bytes the detector reads keys again.
pub proof fn law_a_string_cannot_last(r: Run, input: Seq<u8>, now: u64) -> (k: int)
    requires
        r.act is None,
        valid(r.d),
        r.d.lex is Str,
        clock_ok(r.d.cfg, now),
        input.len() + r.d.str_bytes >= MAX_STR,
    ensures
        0 < k <= input.len(),
        steps(r, input.take(k), now).d.lex is Ground,
    decreases input.len(),
{
    let q = step(r, input[0], now);
    law_steps_stay_valid(r, input[0], now);
    if q.d.lex is Ground {
        assert(input.take(1).skip(1).len() == 0);
        assert(input.take(1)[0] == input[0]);
        reveal_with_fuel(steps, 2);
        1
    } else {
        let k = law_a_string_cannot_last(q, input.skip(1), now);
        assert(input.take(k + 1).skip(1) =~= input.skip(1).take(k));
        assert(input.take(k + 1)[0] == input[0]);
        k + 1
    }
}

/// The escape key twice, in time, and then `d` detaches; then `x` ends the session: for
/// whichever key is the escape key, with nothing forwarded to the program; and after it the
/// detector is as it was. Any other key then goes to the program, behind the two presses.
pub proof fn law_a_command_is_two_presses_and_a_key(r: Run, c: u8, now: u64)
    requires
        valid(r.d),
        r.act is None,
        r.d.state is Idle,
        r.d.lex is Ground,
        r.d.cfg.byte != 0x1b,
        c != 0x1b,
        c != r.d.cfg.byte,
    ensures
        ({
            let k = r.d.cfg.byte;
            let after = step(step(step(r, k, now), k, now), c, now);
            &&& c == 0x64 || c == 0x44 ==> after.act == Some(Action::Detach) && after.fwd == r.fwd
            &&& c == 0x78 || c == 0x58 ==> after.act == Some(Action::Exit) && after.fwd == r.fwd
            &&& c != 0x64 && c != 0x44 && c != 0x78 && c != 0x58 ==> after.act is None && after.fwd
                == r.fwd + seq![k, k, c]
            &&& after.d.state is Idle
        }),
{
    let k = r.d.cfg.byte;
    let a = step(r, k, now);
    let b = step(a, k, now);
    assert(b.d.state is Command);
    let after = step(b, c, now);
    if c != 0x64 && c != 0x44 && c != 0x78 && c != 0x58 {
        assert(after.fwd =~= r.fwd + seq![k, k, c]);
    }
}

/// A key is named by a caret and its letter, in either case, as terminals spell control
/// characters; the key that begins every sequence cannot be the escape key, and nothing
/// else names one.
pub proof fn law_a_key_is_named_by_its_letter(s: Seq<u8>, c: u8)
    ensures
        0x41 <= c <= 0x5a ==> Config::key_named(seq![0x5e, c]) == Some((c - 0x40) as u8)
            && Config::key_named(seq![0x5e, (c + 0x20) as u8]) == Some((c - 0x40) as u8),
        0x5c <= c <= 0x5f ==> Config::key_named(seq![0x5e, c]) == Some((c - 0x40) as u8),
        Config::key_named(seq![0x5e, 0x5b]) is None,
        s.len() != 2 || s[0] != 0x5e ==> Config::key_named(s) is None,
        Config::key_named(s) matches Some(k) ==> 0 < k < 0x20 && k != 0x1b,
{
    assert(0x40 < c && c <= 0x5f ==> c ^ 0x40 == c - 0x40) by (bit_vector);
    if s.len() == 2 {
        let d: u8 = if 0x61 <= s[1] <= 0x7a {
            (s[1] - 0x20) as u8
        } else {
            s[1]
        };
        assert(0x40 < d && d <= 0x5f ==> d ^ 0x40 == d - 0x40) by (bit_vector);
    }
}

/// Terminals that report keys as numbers are read alike: the escape key with Ctrl is a press
/// or a release of it, whichever of the two ways it is reported; a printable key that is
/// pressed alone is that key; a release of any other key is a release.
pub proof fn law_a_reported_key_is_read(cfg: Config, c: u8)
    requires
        0x20 <= c < 0x7f,
        cfg.key_code() != c,
    ensures
        classify(cfg, seq![seq![cfg.key_code() as nat], seq![5nat]], 0x75) is EscPress,
        classify(cfg, seq![seq![cfg.key_code() as nat], seq![5nat, 1]], 0x75) is EscPress,
        classify(cfg, seq![seq![cfg.key_code() as nat], seq![5nat, 3]], 0x75) is EscRelease,
        classify(cfg, seq![seq![27nat], seq![5nat], seq![cfg.key_code() as nat]], 0x7e) is EscPress,
        classify(cfg, seq![seq![c as nat]], 0x75) == Kind::Key(Some(c)),
        classify(cfg, seq![seq![c as nat], seq![1nat, 3]], 0x75) is Release,
        classify(cfg, seq![seq![c as nat], seq![5nat]], 0x75) == Kind::Key(None),
{
    assert(4u32 & !(64u32 | 128u32) == 4) by (bit_vector);
    assert(0u32 & !(64u32 | 128u32) == 0) by (bit_vector);
}

} // verus!
