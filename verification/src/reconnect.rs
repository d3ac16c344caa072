//! Noticing that the other end of a link has gone, and when to dial it again.

use crate::proto::{frame, Msg, MsgView};
use vstd::prelude::*;

verus! {

/// Whether a link still answers.
#[derive(Debug, Clone, Copy, PartialEq, Eq, Structural)]
pub enum Health {
    Alive,
    Dead,
}

/// A ping after silence, and the patience that follows it.
#[derive(Debug, Clone, Copy)]
pub struct Liveness {
    /// Silence before the other end is pinged, in milliseconds.
    pub ping_ms: u64,
    /// Silence after which it is given up.
    pub dead_ms: u64,
    /// How long it has to answer the question a network change asks.
    pub netcheck_ms: u64,
    /// When something was last heard.
    pub heard: u64,
    /// When it was last pinged, if nothing was heard since.
    pub pinged: Option<u64>,
    /// The number of the next ping.
    pub nonce: u64,
    /// The ping a network change asked for, and when its answer is due.
    pub question: Option<(u64, u64)>,
}

pub open spec fn later(a: u64, ms: u64) -> u64 {
    if a + ms > u64::MAX {
        u64::MAX
    } else {
        (a + ms) as u64
    }
}

/// When the next ping is due.
pub open spec fn ping_due(l: Liveness) -> u64 {
    match l.pinged {
        None => later(l.heard, l.ping_ms),
        Some(at) => later(at, l.ping_ms),
    }
}

/// The other end has been silent for too long, or left a question open.
pub open spec fn silent(l: Liveness, now: u64) -> bool {
    now >= later(l.heard, l.dead_ms) || match l.question {
        None => false,
        Some((_, until)) => now >= until,
    }
}

pub open spec fn next_nonce(n: u64) -> u64 {
    if n == u64::MAX {
        0
    } else {
        (n + 1) as u64
    }
}

/// Something was heard at `now`.
pub open spec fn after_heard(l: Liveness, now: u64) -> Liveness {
    Liveness { heard: now, pinged: None, ..l }
}

/// A ping was answered.
pub open spec fn after_pong(l: Liveness, n: u64) -> Liveness {
    match l.question {
        Some((asked, _)) if asked == n => Liveness { question: None, ..l },
        _ => l,
    }
}

/// The question a network change asks.
pub open spec fn after_netcheck(l: Liveness, now: u64) -> Liveness {
    Liveness {
        question: Some((l.nonce, later(now, l.netcheck_ms))),
        nonce: next_nonce(l.nonce),
        pinged: Some(now),
        ..l
    }
}

/// A look at the clock: what becomes of it, and what is sent.
pub open spec fn after_tick(l: Liveness, now: u64) -> (Liveness, Seq<u8>, Health) {
    if silent(l, now) {
        (l, Seq::empty(), Health::Dead)
    } else if now >= ping_due(l) {
        (
            Liveness { pinged: Some(now), nonce: next_nonce(l.nonce), ..l },
            frame(MsgView::Ping(l.nonce)),
            Health::Alive,
        )
    } else {
        (l, Seq::empty(), Health::Alive)
    }
}

/// When the clock has to be looked at again.
pub open spec fn next_look(l: Liveness) -> u64 {
    let a = ping_due(l);
    let b = later(l.heard, l.dead_ms);
    let c = if a < b {
        a
    } else {
        b
    };
    match l.question {
        None => c,
        Some((_, until)) => if until < c {
            until
        } else {
            c
        },
    }
}

impl Liveness {
    pub fn new(now: u64, ping_ms: u64, dead_ms: u64, netcheck_ms: u64) -> (l: Liveness)
        ensures
            l == (Liveness {
                ping_ms,
                dead_ms,
                netcheck_ms,
                heard: now,
                pinged: None,
                nonce: 0,
                question: None,
            }),
    {
        Liveness { ping_ms, dead_ms, netcheck_ms, heard: now, pinged: None, nonce: 0, question: None }
    }

    /// Bytes arrived.
    pub fn heard(&mut self, now: u64)
        ensures
            *final(self) == after_heard(*old(self), now),
    {
        self.heard = now;
        self.pinged = None;
    }

    /// A ping was answered.
    pub fn pong(&mut self, n: u64)
        ensures
            *final(self) == after_pong(*old(self), n),
    {
        if let Some((asked, _)) = self.question {
            if asked == n {
                self.question = None;
            }
        }
    }

    fn take_nonce(&mut self) -> (n: u64)
        ensures
            n == old(self).nonce,
            *final(self) == (Liveness { nonce: next_nonce(old(self).nonce), ..*old(self) }),
    {
        let n = self.nonce;
        self.nonce = if n == u64::MAX {
            0
        } else {
            n + 1
        };
        n
    }

    /// This machine's network moved: ask whether the link survived it.
    pub fn netcheck(&mut self, out: &mut Vec<u8>, now: u64)
        ensures
            *final(self) == after_netcheck(*old(self), now),
            final(out)@ == old(out)@ + frame(MsgView::Ping(old(self).nonce)),
    {
        let n = self.take_nonce();
        self.question = Some((n, now.saturating_add(self.netcheck_ms)));
        self.pinged = Some(now);
        Msg::Ping(n).encode(out);
    }

    /// Ping after silence; dead after too much of it.
    pub fn tick(&mut self, out: &mut Vec<u8>, now: u64) -> (h: Health)
        ensures
            *final(self) == after_tick(*old(self), now).0,
            final(out)@ == old(out)@ + after_tick(*old(self), now).1,
            h == after_tick(*old(self), now).2,
    {
        let late = match self.question {
            None => false,
            Some((_, until)) => now >= until,
        };
        assert(out@ + Seq::<u8>::empty() =~= out@);
        if now >= self.heard.saturating_add(self.dead_ms) || late {
            return Health::Dead;
        }
        let due = match self.pinged {
            None => self.heard.saturating_add(self.ping_ms),
            Some(at) => at.saturating_add(self.ping_ms),
        };
        if now >= due {
            let n = self.take_nonce();
            self.pinged = Some(now);
            Msg::Ping(n).encode(out);
        }
        Health::Alive
    }

    /// When the clock has to be looked at again.
    pub fn next_deadline_ms(&self) -> (r: u64)
        ensures
            r == next_look(*self),
    {
        let a = match self.pinged {
            None => self.heard.saturating_add(self.ping_ms),
            Some(at) => at.saturating_add(self.ping_ms),
        };
        let b = self.heard.saturating_add(self.dead_ms);
        let c: u64 = if a < b {
            a
        } else {
            b
        };
        match self.question {
            None => c,
            Some((_, until)) => if until < c {
                until
            } else {
                c
            },
        }
    }
}

/// The clock needs no look before it is due, and at that time there is something to do:
/// the other end is pinged, or given up.
pub proof fn law_the_clock_is_looked_at_in_time(l: Liveness, now: u64)
    ensures
        now < next_look(l) ==> after_tick(l, now) == (l, Seq::<u8>::empty(), Health::Alive),
        now >= next_look(l) ==> after_tick(l, now).2 is Dead || after_tick(l, now).1 == frame(
            MsgView::Ping(l.nonce),
        ),
{
}

/// The other end is given up exactly when nothing was heard of it for the whole of its
/// patience, or when a question was not answered in its time; whatever is heard starts
/// the patience over.
pub proof fn law_only_silence_gives_up(l: Liveness, now: u64, then: u64)
    requires
        now + l.dead_ms <= u64::MAX,
        l.heard + l.dead_ms <= u64::MAX,
    ensures
        after_tick(l, now).2 is Dead <==> now - l.heard >= l.dead_ms || (l.question is Some && now
            >= (l.question->Some_0).1),
        l.question is None && now <= then < now + l.dead_ms ==> after_tick(
            after_heard(l, now),
            then,
        ).2 is Alive,
        l.question is None && then >= now + l.dead_ms ==> after_tick(after_heard(l, now), then).2
            is Dead,
        after_heard(l, now).question == l.question,
{
}

/// After silence the other end is pinged, once for each such while, with a number of its
/// own; before that it is left alone.
pub proof fn law_silence_is_asked_about(l: Liveness, now: u64)
    requires
        after_tick(l, now).2 is Alive,
        now + l.ping_ms <= u64::MAX,
        l.heard + l.ping_ms <= u64::MAX,
        l.pinged is Some ==> l.pinged->0 + l.ping_ms <= u64::MAX,
    ensures
        ({
            let last = match l.pinged {
                Some(at) => at,
                None => l.heard,
            };
            let (after, out, _) = after_tick(l, now);
            &&& now - last >= l.ping_ms ==> out == frame(MsgView::Ping(l.nonce)) && after.pinged
                == Some(now) && after.nonce != l.nonce
            &&& now - last < l.ping_ms ==> out.len() == 0 && after == l
            &&& after.heard == l.heard
            &&& after.question == l.question
        }),
{
}

/// A network that moved asks a question of its own: the link is given up unless that
/// very ping is answered in its time. Another answer does not count.
pub proof fn law_a_network_change_asks(l: Liveness, now: u64, other: u64)
    requires
        now + l.netcheck_ms <= u64::MAX,
    ensures
        ({
            let asked = after_netcheck(l, now);
            let due = (now + l.netcheck_ms) as u64;
            &&& after_tick(asked, due).2 is Dead
            &&& after_pong(asked, l.nonce).question is None
            &&& other != l.nonce ==> after_pong(asked, other) == asked
            &&& after_heard(asked, due).question == asked.question
        }),
{
}

// ---- dialing again ---------------------------------------------------------

/// The first wait that is one, in milliseconds.
pub const MIN_BACKOFF_MS: u64 = 500;

/// The longest wait between two dials, in milliseconds.
pub const MAX_BACKOFF_MS: u64 = 10_000;

/// What comes before the next dial: a wait in milliseconds, and then the dial itself,
/// or a look at whether the host answers at all.
#[derive(Debug, Clone, Copy, PartialEq, Eq, Structural)]
pub enum Pause {
    Look(u64),
    Dial(u64),
}

/// What follows a lost link, and how long the dial after that waits.
pub open spec fn after_loss(ms: u64, got_through: bool, look: Option<u64>) -> (Pause, u64) {
    let wait = if got_through {
        0
    } else {
        ms
    };
    match look {
        Some(every) => (Pause::Look(every), wait),
        None => (Pause::Dial(wait), doubled(wait)),
    }
}

/// What follows a look at the host, and how long the dial after that waits.
pub open spec fn after_look(ms: u64, answers: bool, look: Option<u64>) -> (Pause, u64) {
    match look {
        Some(every) if !answers => (Pause::Look(every), ms),
        _ => (Pause::Dial(ms), doubled(ms)),
    }
}

/// How long the next dial waits.
#[derive(Debug, Clone, Copy, PartialEq, Eq, Structural)]
pub struct Backoff {
    pub ms: u64,
}

/// The wait behind one of `ms`: twice as long, within the bounds.
pub open spec fn doubled(ms: u64) -> u64 {
    if 2 * ms < MIN_BACKOFF_MS {
        MIN_BACKOFF_MS
    } else if 2 * ms > MAX_BACKOFF_MS {
        MAX_BACKOFF_MS
    } else {
        (2 * ms) as u64
    }
}

impl Backoff {
    pub fn new() -> (b: Backoff)
        ensures
            b.ms == 0,
    {
        Backoff { ms: 0 }
    }

    fn next(&mut self) -> (p: Pause)
        ensures
            p == Pause::Dial(old(self).ms),
            final(self).ms == doubled(old(self).ms),
    {
        let ms = self.ms;
        self.ms = if ms < MIN_BACKOFF_MS / 2 {
            MIN_BACKOFF_MS
        } else if ms > MAX_BACKOFF_MS / 2 {
            MAX_BACKOFF_MS
        } else {
            2 * ms
        };
        Pause::Dial(ms)
    }

    /// A link was lost. Where something got through on it the dials start over, the
    /// first of them at once. Where the host is to be waited for, it is looked at every
    /// `look` milliseconds first.
    pub fn lost(&mut self, got_through: bool, look: Option<u64>) -> (p: Pause)
        ensures
            (p, final(self).ms) == after_loss(old(self).ms, got_through, look),
    {
        if got_through {
            self.ms = 0;
        }
        match look {
            Some(every) => Pause::Look(every),
            None => self.next(),
        }
    }

    /// The host was looked at: it is dialed once it answers, and looked at again where
    /// it does not and is still to be waited for.
    pub fn looked(&mut self, answers: bool, look: Option<u64>) -> (p: Pause)
        ensures
            (p, final(self).ms) == after_look(old(self).ms, answers, look),
    {
        match look {
            Some(every) if !answers => Pause::Look(every),
            _ => self.next(),
        }
    }
}

/// No dial waits longer than the bound, however many failed before it.
pub proof fn law_the_wait_is_bounded(ms: u64)
    ensures
        MIN_BACKOFF_MS <= doubled(ms) <= MAX_BACKOFF_MS,
        MIN_BACKOFF_MS <= ms <= MAX_BACKOFF_MS ==> ms <= doubled(ms),
{
}

/// Each dial that fails doubles the wait before the next, from half a second on up to
/// the bound; one that gets through has the next follow at once.
pub proof fn law_the_wait_doubles(ms: u64)
    ensures
        doubled(0) == MIN_BACKOFF_MS,
        MIN_BACKOFF_MS <= ms && 2 * ms <= MAX_BACKOFF_MS ==> doubled(ms) == 2 * ms,
        2 * ms >= MAX_BACKOFF_MS ==> doubled(ms) == MAX_BACKOFF_MS,
        MIN_BACKOFF_MS == 500,
        MAX_BACKOFF_MS == 10_000,
{
}

/// The waits of `n` dials that fail one after another, behind a link that something got
/// through on.
pub open spec fn wait_of(n: nat) -> u64
    decreases n,
{
    if n == 0 {
        0
    } else {
        doubled(wait_of((n - 1) as nat))
    }
}

/// A host that was lost is dialed at once, and then with waits of half a second, one, two,
/// four, eight and from then on ten seconds; each dial that fails leads to the next.
pub proof fn law_a_lost_host_is_dialed_again(ms: u64, n: nat)
    ensures
        after_loss(ms, true, None) == (Pause::Dial(0), wait_of(1)),
        after_loss(wait_of(n), false, None) == (Pause::Dial(wait_of(n)), wait_of(n + 1)),
        n >= 6 ==> wait_of(n) == 10_000,
        1 <= n <= 5 ==> wait_of(n) == [500u64, 1000, 2000, 4000, 8000]@[n - 1],
    decreases n,
{
    reveal_with_fuel(wait_of, 7);
    if n > 6 {
        law_a_lost_host_is_dialed_again(ms, (n - 1) as nat);
    }
}

/// A host that is to be waited for is looked at until it answers, each time after the same
/// while; then it is dialed, at once where something had got through before.
pub proof fn law_a_host_is_waited_for(ms: u64, got_through: bool, every: u64, answers: bool)
    ensures
        ({
            let (first, wait) = after_loss(ms, got_through, Some(every));
            let (next, _) = after_look(wait, answers, Some(every));
            &&& first == Pause::Look(every)
            &&& got_through ==> wait == 0
            &&& !got_through ==> wait == ms
            &&& next == if answers {
                Pause::Dial(wait)
            } else {
                Pause::Look(every)
            }
            &&& !answers ==> after_look(wait, answers, Some(every)).1 == wait
        }),
{
}

} // verus!
