//! Where a note may be written.
//!
//! Notes go to the terminal beside the session's bytes, and nothing in the
//! stream separates them: a note raised while the program is halfway through an
//! escape sequence or a character would be written into it. So while the frame
//! loop is relaying, and only then, a note raised with the stream mid-sequence
//! waits for the first boundary.
//!
//! - Nothing outside the frame loop waits.
//! - Order is kept: held notes queue oldest first, ahead of anything raised
//!   after the boundary.
//! - A quiet session cannot swallow one: the wait is bounded, and leaving the
//!   frame loop writes what is left.

use crate::safe::{display_max, displayed, MAX_FIELD};
use vstd::prelude::*;

verus! {

/// How long a note waits for a boundary when nothing else is asked for, in
/// milliseconds.
pub const HOLD_MS: u64 = 500;

/// Something to put on the terminal.
#[derive(Debug)]
pub enum Act {
    /// Bytes of the session's own stream.
    Out(Vec<u8>),
    /// A line of acs's own.
    Note(String),
}

pub enum ActView {
    Out(Seq<u8>),
    Note(Seq<char>),
}

impl View for Act {
    type V = ActView;

    open spec fn view(&self) -> ActView {
        match *self {
            Act::Out(b) => ActView::Out(b@),
            Act::Note(s) => ActView::Note(s@),
        }
    }
}

pub open spec fn act_views(v: Seq<Act>) -> Seq<ActView> {
    v.map_values(|a: Act| a@)
}

/// The frame loop is relaying: notes raised mid-sequence wait.
#[derive(Debug)]
pub struct Relaying {
    /// The last frame written left the terminal inside a sequence or a
    /// character: a note written now would land in the middle of it.
    pub mid_sequence: bool,
    /// Notes waiting for the boundary, oldest first.
    pub held: Vec<String>,
    /// When the oldest of them started waiting.
    pub since: u64,
}

#[verifier::ext_equal]
pub struct GateView {
    pub mid_sequence: bool,
    pub held: Seq<Seq<char>>,
    pub since: u64,
}

impl View for Relaying {
    type V = GateView;

    open spec fn view(&self) -> GateView {
        GateView {
            mid_sequence: self.mid_sequence,
            held: crate::text::texts(self.held@),
            since: self.since,
        }
    }
}

/// A gate as it is opened: between frames, nothing held.
pub open spec fn fresh_gate() -> GateView {
    GateView { mid_sequence: false, held: Seq::empty(), since: 0 }
}

impl Relaying {
    pub fn open() -> (g: Relaying)
        ensures
            g@ == fresh_gate(),
    {
        let g = Relaying { mid_sequence: false, held: Vec::new(), since: 0 };
        assert(g@.held =~= Seq::empty());
        g
    }
}

/// The terminal as the client writes to it: what is to be put there, in order,
/// and what holds notes back while the frame loop is relaying.
#[derive(Debug)]
pub struct Terminal {
    pub gate: Option<Relaying>,
    /// How long a note waits before it is written anyway.
    pub hold_ms: u64,
    pub acts: Vec<Act>,
}

#[verifier::ext_equal]
pub struct TermView {
    pub gate: Option<GateView>,
    pub hold_ms: u64,
    pub acts: Seq<ActView>,
}

impl View for Terminal {
    type V = TermView;

    open spec fn view(&self) -> TermView {
        TermView {
            gate: match self.gate {
                None => None,
                Some(g) => Some(g@),
            },
            hold_ms: self.hold_ms,
            acts: act_views(self.acts@),
        }
    }
}

/// The lines as notes.
pub open spec fn notes_of(lines: Seq<Seq<char>>) -> Seq<ActView> {
    lines.map_values(|s: Seq<char>| ActView::Note(s))
}

/// `bytes` of the session's stream.
pub open spec fn with_out(t: TermView, bytes: Seq<u8>) -> TermView {
    TermView { acts: t.acts.push(ActView::Out(bytes)), ..t }
}

/// A note that goes straight out.
pub open spec fn with_note(t: TermView, line: Seq<char>) -> TermView {
    TermView { acts: t.acts.push(ActView::Note(line)), ..t }
}

/// A line raised: held while the stream is mid-sequence, else written.
pub open spec fn raised(t: TermView, line: Seq<char>, now: u64) -> TermView {
    match t.gate {
        Some(g) if g.mid_sequence => TermView {
            gate: Some(
                GateView {
                    held: g.held.push(line),
                    since: if g.held.len() == 0 {
                        now
                    } else {
                        g.since
                    },
                    ..g
                },
            ),
            ..t
        },
        _ => with_note(t, line),
    }
}

/// Something waits for a boundary.
pub open spec fn is_waiting(t: TermView) -> bool {
    t.gate is Some && t.gate->0.held.len() > 0
}

/// What is held is written.
pub open spec fn flushed(t: TermView) -> TermView {
    match t.gate {
        None => t,
        Some(g) => TermView {
            gate: Some(GateView { held: Seq::empty(), ..g }),
            acts: t.acts + notes_of(g.held),
            ..t
        },
    }
}

/// The stream now stands at a boundary, or not.
pub open spec fn at_place(t: TermView, at: bool) -> TermView {
    match t.gate {
        None => t,
        Some(g) => {
            let moved = TermView { gate: Some(GateView { mid_sequence: !at, ..g }), ..t };
            if at {
                flushed(moved)
            } else {
                moved
            }
        },
    }
}

/// When the oldest held note is written whatever the stream is doing.
pub open spec fn hold_until(t: TermView) -> Option<u64> {
    if is_waiting(t) {
        Some(
            if t.gate->0.since + t.hold_ms > u64::MAX {
                u64::MAX
            } else {
                (t.gate->0.since + t.hold_ms) as u64
            },
        )
    } else {
        None
    }
}

/// Notes that have waited long enough are written.
pub open spec fn after_hold(t: TermView, now: u64) -> TermView {
    match hold_until(t) {
        Some(d) if now >= d => flushed(t),
        _ => t,
    }
}

/// The frame loop is over: what is held is written, and nothing waits.
pub open spec fn shut(t: TermView) -> TermView {
    TermView { gate: None, ..flushed(t) }
}

/// The line a message is printed as: one line that cannot steer the terminal.
pub open spec fn note_line(msg: Seq<char>, max: nat) -> Seq<char> {
    "acs: "@ + displayed(msg, max) + "\r\n"@
}

/// How long a note may be.
pub open spec fn note_max_len() -> nat {
    4 * MAX_FIELD as nat
}

/// A message printed, with the usual cap.
pub open spec fn noted(t: TermView, msg: Seq<char>, now: u64) -> TermView {
    raised(t, note_line(msg, note_max_len()), now)
}

impl Terminal {
    /// A terminal with nothing written to it, outside any frame loop.
    pub fn capture() -> (t: Terminal)
        ensures
            t@ == (TermView { gate: None, hold_ms: HOLD_MS, acts: Seq::empty() }),
    {
        let t = Terminal { gate: None, hold_ms: HOLD_MS, acts: Vec::new() };
        assert(t@.acts =~= Seq::empty());
        t
    }

    /// The frame loop starts relaying.
    pub fn relay(&mut self)
        ensures
            final(self)@ == (TermView { gate: Some(fresh_gate()), ..old(self)@ }),
    {
        self.gate = Some(Relaying::open());
    }

    /// Bytes of the session's stream.
    pub fn out(&mut self, bytes: Vec<u8>)
        ensures
            final(self)@ == with_out(old(self)@, bytes@),
    {
        self.acts.push(Act::Out(bytes));
        assert(self@.acts =~= old(self)@.acts.push(ActView::Out(bytes@)));
    }

    fn line(&mut self, line: String)
        ensures
            final(self)@ == with_note(old(self)@, line@),
    {
        self.acts.push(Act::Note(line));
        assert(self@.acts =~= old(self)@.acts.push(ActView::Note(line@)));
    }

    /// Print `line`, or hold it if the program's stream is mid-sequence.
    pub fn raise(&mut self, line: String, now: u64)
        ensures
            final(self)@ == raised(old(self)@, line@, now),
    {
        let mut gate: Option<Relaying> = None;
        std::mem::swap(&mut gate, &mut self.gate);
        match gate {
            Some(g) => {
                if g.mid_sequence {
                    let mut g = g;
                    let ghost before = g@;
                    if g.held.len() == 0 {
                        g.since = now;
                    }
                    g.held.push(line);
                    assert(g@.held =~= before.held.push(line@));
                    self.gate = Some(g);
                } else {
                    self.gate = Some(g);
                    self.line(line);
                }
            },
            None => {
                self.line(line);
            },
        }
    }

    /// Whether anything is waiting for a boundary.
    pub fn waiting(&self) -> (r: bool)
        ensures
            r == is_waiting(self@),
    {
        match &self.gate {
            Some(g) => g.held.len() > 0,
            None => false,
        }
    }

    fn flush(&mut self)
        ensures
            final(self)@ == flushed(old(self)@),
    {
        let mut gate: Option<Relaying> = None;
        std::mem::swap(&mut gate, &mut self.gate);
        if let Some(g) = gate {
            let mut g = g;
            let ghost held = g@.held;
            let ghost start = self@;
            let mut lines: Vec<String> = Vec::new();
            std::mem::swap(&mut lines, &mut g.held);
            assert(g@.held =~= Seq::empty());
            assert(start.acts =~= start.acts + notes_of(held.take(0)));
            let n: usize = lines.len();
            for i in 0..n
                invariant
                    n == lines.len(),
                    held == crate::text::texts(lines@),
                    self@.gate is None,
                    self@.hold_ms == start.hold_ms,
                    self@.acts == start.acts + notes_of(held.take(i as int)),
            {
                let ghost before = self@.acts;
                self.line(lines[i].clone());
                assert(held[i as int] == lines@[i as int]@);
                assert(self@.acts =~= start.acts + notes_of(held.take(i + 1)));
            }
            assert(held.take(n as int) =~= held);
            self.gate = Some(g);
        }
    }

    /// Where the program's stream stands after a frame was written to the
    /// terminal. A boundary releases what was held for it.
    pub fn at_boundary(&mut self, at: bool)
        ensures
            final(self)@ == at_place(old(self)@, at),
    {
        let mut gate: Option<Relaying> = None;
        std::mem::swap(&mut gate, &mut self.gate);
        if let Some(g) = gate {
            let mut g = g;
            g.mid_sequence = !at;
            self.gate = Some(g);
            if at {
                self.flush();
            }
        }
    }

    /// When the oldest held note is written whatever the stream is doing.
    pub fn deadline(&self) -> (r: Option<u64>)
        ensures
            r == hold_until(self@),
    {
        match &self.gate {
            Some(g) => if g.held.len() > 0 {
                Some(g.since.saturating_add(self.hold_ms))
            } else {
                None
            },
            None => None,
        }
    }

    /// Write the held notes if they have waited long enough: the program
    /// stopped mid-sequence, or the bytes that would finish it are not coming.
    pub fn flush_due(&mut self, now: u64)
        ensures
            final(self)@ == after_hold(old(self)@, now),
    {
        if let Some(d) = self.deadline() {
            if now >= d {
                self.flush();
            }
        }
    }

    /// The frame loop is over.
    pub fn close(&mut self)
        ensures
            final(self)@ == shut(old(self)@),
    {
        self.flush();
        self.gate = None;
    }

    /// Print a message on the terminal outside the session's byte stream.
    pub fn note(&mut self, msg: &str, now: u64)
        ensures
            final(self)@ == noted(old(self)@, msg@, now),
    {
        self.note_max(msg, 4 * MAX_FIELD, now);
    }

    /// [`Terminal::note`] with a cap of its own.
    pub fn note_max(&mut self, msg: &str, max: usize, now: u64)
        ensures
            final(self)@ == raised(old(self)@, note_line(msg@, max as nat), now),
    {
        let mut line = "acs: ".to_owned();
        line.append(&display_max(msg, max));
        line.append("\r\n");
        self.raise(line, now);
    }

    /// The notes written since the last call; nothing else is kept.
    pub fn written(&mut self) -> (r: Vec<String>)
        ensures
            notes_of(crate::text::texts(r@)) == old(self)@.acts.filter(
                |a: ActView| a is Note,
            ),
            final(self)@ == (TermView { acts: Seq::empty(), ..old(self)@ }),
    {
        let mut acts: Vec<Act> = Vec::new();
        std::mem::swap(&mut acts, &mut self.acts);
        assert(self@.acts =~= Seq::empty());
        let ghost all = act_views(acts@);
        let mut r: Vec<String> = Vec::new();
        let n: usize = acts.len();
        proof {
            reveal_with_fuel(Seq::filter, 1);
            assert(all.take(0) =~= Seq::empty());
            assert(notes_of(crate::text::texts(r@)) =~= Seq::empty());
        }
        for i in 0..n
            invariant
                n == acts.len(),
                all == act_views(acts@),
                notes_of(crate::text::texts(r@)) == all.take(i as int).filter(
                    |a: ActView| a is Note,
                ),
        {
            let ghost before = crate::text::texts(r@);
            proof {
                reveal_with_fuel(Seq::filter, 1);
                assert(all.take(i + 1).drop_last() =~= all.take(i as int));
                assert(all.take(i + 1).last() == acts@[i as int]@);
            }
            if let Act::Note(s) = &acts[i] {
                r.push(s.clone());
                assert(notes_of(crate::text::texts(r@)) =~= notes_of(before).push(
                    ActView::Note(s@),
                ));
            }
        }
        assert(all.take(n as int) =~= all);
        r
    }

    /// What is to be put on the terminal, in order; nothing is left of it.
    pub fn take(&mut self) -> (r: Vec<Act>)
        ensures
            act_views(r@) == old(self)@.acts,
            final(self)@ == (TermView { acts: Seq::empty(), ..old(self)@ }),
    {
        let mut acts: Vec<Act> = Vec::new();
        std::mem::swap(&mut acts, &mut self.acts);
        assert(self@.acts =~= Seq::empty());
        acts
    }
}

// ---- what holds of them ----------------------------------------------------

/// Notes are held only while the stream is mid-sequence.
pub open spec fn gate_ok(t: TermView) -> bool {
    is_waiting(t) ==> t.gate->0.mid_sequence
}

/// Every note, written or still held, in order.
pub open spec fn all_notes(t: TermView) -> Seq<ActView> {
    t.acts.filter(|a: ActView| a is Note) + match t.gate {
        None => Seq::empty(),
        Some(g) => notes_of(g.held),
    }
}

proof fn lemma_filter_notes(a: Seq<ActView>, lines: Seq<Seq<char>>)
    ensures
        (a + notes_of(lines)).filter(|a: ActView| a is Note) == a.filter(|a: ActView| a is Note)
            + notes_of(lines),
    decreases lines.len(),
{
    let f = |a: ActView| a is Note;
    reveal_with_fuel(Seq::filter, 1);
    if lines.len() == 0 {
        assert(a + notes_of(lines) =~= a);
        assert(a.filter(f) + notes_of(lines) =~= a.filter(f));
    } else {
        let w = a + notes_of(lines);
        assert(w.drop_last() =~= a + notes_of(lines.drop_last()));
        assert(w.last() == ActView::Note(lines.last()));
        lemma_filter_notes(a, lines.drop_last());
        assert(a.filter(f) + notes_of(lines) =~= (a.filter(f) + notes_of(lines.drop_last())).push(
            ActView::Note(lines.last()),
        ));
    }
}

/// No note is lost and none overtakes another: raising one puts it behind all
/// the others, and nothing else changes which notes there are or their order.
pub proof fn law_notes_keep_their_order(t: TermView, line: Seq<char>, now: u64, at: bool)
    requires
        gate_ok(t),
    ensures
        all_notes(raised(t, line, now)) == all_notes(t).push(ActView::Note(line)),
        all_notes(at_place(t, at)) == all_notes(t),
        all_notes(after_hold(t, now)) == all_notes(t),
        all_notes(shut(t)) == all_notes(t),
        gate_ok(raised(t, line, now)),
        gate_ok(at_place(t, at)),
        gate_ok(after_hold(t, now)),
        gate_ok(shut(t)),
{
    let f = |a: ActView| a is Note;
    reveal_with_fuel(Seq::filter, 1);
    match t.gate {
        None => {
            assert(t.acts.push(ActView::Note(line)).drop_last() =~= t.acts);
            assert(all_notes(raised(t, line, now)) =~= all_notes(t).push(ActView::Note(line)));
        },
        Some(g) => {
            lemma_filter_notes(t.acts, g.held);
            assert(notes_of(Seq::<Seq<char>>::empty()) =~= Seq::empty());
            assert(all_notes(flushed(t)) =~= all_notes(t));
            assert(all_notes(shut(t)) =~= all_notes(t));
            let moved = TermView { gate: Some(GateView { mid_sequence: !at, ..g }), ..t };
            assert(all_notes(flushed(moved)) =~= all_notes(t));
            if g.mid_sequence {
                assert(notes_of(g.held.push(line)) =~= notes_of(g.held).push(ActView::Note(line)));
                assert(all_notes(raised(t, line, now)) =~= all_notes(t).push(ActView::Note(line)));
            } else {
                assert(g.held =~= Seq::empty());
                assert(t.acts.push(ActView::Note(line)).drop_last() =~= t.acts);
                assert(all_notes(raised(t, line, now)) =~= all_notes(t).push(ActView::Note(line)));
            }
        },
    }
}

/// Outside the frame loop, and inside it with the stream at a boundary, a note
/// is written at once.
pub proof fn law_only_a_sequence_holds_a_note(t: TermView, line: Seq<char>, now: u64)
    requires
        t.gate is None || !t.gate->0.mid_sequence,
    ensures
        raised(t, line, now) == with_note(t, line),
{
}

/// A note waits no longer than the hold, and not past the frame loop.
pub proof fn law_no_note_is_swallowed(t: TermView, now: u64)
    requires
        t.gate is Some ==> t.gate->0.since + t.hold_ms <= now,
    ensures
        !is_waiting(after_hold(t, now)),
        !is_waiting(shut(t)),
{
}

} // verus!
