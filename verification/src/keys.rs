//! Command mode: Ctrl-] Ctrl-] followed by a command key.
//!
//! [`Detector`] is a pure state machine over stdin bytes and an injected
//! millisecond clock. It forwards everything unchanged except the escape
//! presses it consumes, recognising the escape key in all three encodings a
//! terminal may use (legacy byte, kitty `CSI … u`, xterm modifyOtherKeys),
//! never matching inside another escape sequence, and passing bracketed pastes
//! through untouched. [`PasteTracker`] follows the pastes in what was sent.

use crate::text::{
    byte_chars, chars_of_bytes, lower, parse_uint, parsed_max, split, split_at_char, sub_vec,
    to_lower, views,
};
use crate::wire::{drop_front, put_bytes};
use vstd::prelude::*;

pub mod laws;

verus! {

/// What a completed command asks the client to do.
#[derive(Debug, Clone, Copy, PartialEq, Eq, Structural)]
pub enum Action {
    /// Leave the session running and exit the client.
    Detach,
    /// End the session on the remote and exit.
    Exit,
}

/// The shortest the window to choose the command key ever gets.
pub const COMMAND_FLOOR_MS: u64 = 2000;

/// How long an incomplete escape sequence is held before being sent as is.
pub const PENDING_MS: u64 = 100;

/// Longest string (OSC, DCS, APC) the detector will stay inside.
pub const MAX_STR: usize = 64 * 1024;

/// Longest control sequence that is collected.
pub const MAX_SEQ: usize = 64;

#[derive(Debug, Clone, Copy, PartialEq, Eq, Structural)]
pub struct Config {
    /// The legacy control byte of the escape key (Ctrl-] = 0x1D).
    pub byte: u8,
    /// The escape window: the max gap between the two escape presses, and the
    /// window to then choose the command key where it is over the floor.
    pub window_ms: u64,
}

impl Default for Config {
    fn default() -> (c: Config)
        ensures
            c == (Config { byte: 0x1d, window_ms: 400 }),
    {
        Config { byte: 0x1d, window_ms: 400 }
    }
}

impl Config {
    /// How long command mode waits for the command key.
    pub open spec fn command_window(self) -> u64 {
        if self.window_ms > COMMAND_FLOOR_MS {
            self.window_ms
        } else {
            COMMAND_FLOOR_MS
        }
    }

    /// How long command mode waits for the command key: the configured escape
    /// window, never less than 2 s.
    pub fn command_window_ms(&self) -> (ms: u64)
        ensures
            ms == self.command_window(),
    {
        if self.window_ms > COMMAND_FLOOR_MS {
            self.window_ms
        } else {
            COMMAND_FLOOR_MS
        }
    }

    /// The character a terminal reports for Ctrl and this key.
    pub open spec fn key_code(self) -> u32 {
        lower(self.byte ^ 0x40) as u32
    }

    fn codepoint(&self) -> (c: u32)
        ensures
            c == self.key_code(),
    {
        to_lower(self.byte ^ 0x40) as u32
    }

    /// The control byte that `^c` writes: `^A` to `^Z`, in either case, and
    /// `^\`, `^]`, `^^`, `^_`.
    pub open spec fn key_named(s: Seq<u8>) -> Option<u8> {
        if s.len() == 2 && s[0] == 0x5e {
            let c = if 0x61 <= s[1] <= 0x7a {
                (s[1] - 0x20) as u8
            } else {
                s[1]
            };
            if 0x40 < c <= 0x5f && c != 0x5b {
                Some(c ^ 0x40)
            } else {
                None
            }
        } else {
            None
        }
    }

    /// Parses `^]`-style notation (also `^A`…`^Z`, `^\`, `^^`, `^_`).
    pub fn parse_key(s: &str) -> (r: Option<u8>)
        ensures
            r == Config::key_named(vstd::utf8::encode_utf8(s@)),
    {
        let b = s.as_bytes();
        if b.len() == 2 && b[0] == 0x5e {
            let mut c: u8 = b[1];
            if c >= 0x61 && c <= 0x7a {
                c = c - 0x20;
            }
            if c > 0x40 && c <= 0x5f && c != 0x5b {
                return Some(c ^ 0x40);
            }
        }
        None
    }
}

/// Result of feeding bytes or a clock tick.
#[derive(Debug, PartialEq, Eq)]
pub struct Output {
    pub forward: Vec<u8>,
    pub action: Option<Action>,
}

impl Default for Output {
    fn default() -> (o: Output)
        ensures
            o.forward@ == Seq::<u8>::empty(),
            o.action is None,
    {
        Output { forward: Vec::new(), action: None }
    }
}

/// What one token of the input is.
#[derive(Debug, Clone, Copy, PartialEq, Eq, Structural)]
pub enum Kind {
    /// Escape key pressed (or repeated).
    EscPress,
    /// Escape key released (kitty event types).
    EscRelease,
    /// Any other key; `Some(c)` when it is a plain character.
    Key(Option<u8>),
    /// A key release other than the escape key.
    Release,
    /// Terminal replies, mouse and focus reports: forwarded at once, never
    /// break a pending double tap.
    Passive,
}

/// Where in a sequence the input stands.
#[derive(Debug, Clone, Copy, PartialEq, Eq, Structural)]
pub enum Lex {
    Ground,
    /// After ESC, waiting for the next byte.
    Esc,
    /// Collecting `ESC [` … final.
    Csi,
    /// `ESC O` needs one more byte.
    Ss3,
    /// Inside a terminal reply's string — OSC, DCS or APC — until BEL or ST,
    /// or [`PENDING_MS`] without a byte; `esc` = saw ESC.
    Str { esc: bool },
    /// Legacy X10 mouse: raw bytes still to come after `CSI M`.
    Mouse(u8),
    /// Bracketed paste: bytes of its end marker matched so far.
    Paste(usize),
}

#[derive(Debug)]
enum State {
    Idle,
    /// One escape press held until `until`.
    Held { bytes: Vec<u8>, until: u64 },
    /// Double tap seen; waiting for the command key until `until`.
    Command { bytes: Vec<u8>, until: u64 },
}

pub struct Detector {
    cfg: Config,
    lex: Lex,
    /// Bytes of the sequence being lexed.
    seq: Vec<u8>,
    /// When an incomplete sequence started waiting.
    seq_since: Option<u64>,
    /// When the last byte of a string arrived.
    str_last: u64,
    /// Bytes taken by the string being lexed, held to [`MAX_STR`].
    str_bytes: usize,
    state: State,
}

// ---- the machine, as a mathematical function -------------------------------

pub enum StateView {
    Idle,
    Held { bytes: Seq<u8>, until: u64 },
    Command { bytes: Seq<u8>, until: u64 },
}

pub struct DetectorView {
    pub cfg: Config,
    pub lex: Lex,
    pub seq: Seq<u8>,
    pub seq_since: Option<u64>,
    pub str_last: u64,
    pub str_bytes: usize,
    pub state: StateView,
}

/// A detector, and what it has forwarded and decided since a read began.
pub struct Run {
    pub d: DetectorView,
    pub fwd: Seq<u8>,
    pub act: Option<Action>,
}

/// `CSI 201 ~`, which ends a bracketed paste.
pub open spec fn paste_end() -> Seq<u8> {
    seq![0x1bu8, 0x5b, 0x32, 0x30, 0x31, 0x7e]
}

/// `CSI 200 ~`, which starts one.
pub open spec fn paste_start() -> Seq<u8> {
    seq![0x1bu8, 0x5b, 0x32, 0x30, 0x30, 0x7e]
}

/// The bytes that a state holds back.
pub open spec fn held(s: StateView) -> Seq<u8> {
    match s {
        StateView::Idle => Seq::empty(),
        StateView::Held { bytes, .. } => bytes,
        StateView::Command { bytes, .. } => bytes,
    }
}

pub open spec fn forward(r: Run, bytes: Seq<u8>) -> Run {
    Run { fwd: r.fwd + bytes, ..r }
}

pub open spec fn in_state(r: Run, state: StateView) -> Run {
    Run { d: DetectorView { state, ..r.d }, ..r }
}

pub open spec fn at_lex(r: Run, lex: Lex) -> Run {
    Run { d: DetectorView { lex, ..r.d }, ..r }
}

pub open spec fn collecting(r: Run, seq: Seq<u8>) -> Run {
    Run { d: DetectorView { seq, ..r.d }, ..r }
}

pub open spec fn waiting_since(r: Run, seq_since: Option<u64>) -> Run {
    Run { d: DetectorView { seq_since, ..r.d }, ..r }
}

/// What is held back is sent.
pub open spec fn release(r: Run) -> Run {
    in_state(forward(r, held(r.d.state)), StateView::Idle)
}

/// One token of the input.
pub open spec fn token(r: Run, kind: Kind, bytes: Seq<u8>, now: u64) -> Run {
    match r.d.state {
        StateView::Idle => match kind {
            Kind::EscPress => in_state(
                r,
                StateView::Held { bytes, until: (now + r.d.cfg.window_ms) as u64 },
            ),
            _ => forward(r, bytes),
        },
        StateView::Held { bytes: h, until } => match kind {
            Kind::Passive => forward(r, bytes),
            Kind::EscRelease | Kind::Release => in_state(
                r,
                StateView::Held { bytes: h + bytes, until },
            ),
            Kind::EscPress => in_state(
                r,
                StateView::Command {
                    bytes: h + bytes,
                    until: (now + r.d.cfg.command_window()) as u64,
                },
            ),
            Kind::Key(_) => forward(release(r), bytes),
        },
        StateView::Command { bytes: h, until } => match kind {
            Kind::Passive => forward(r, bytes),
            Kind::EscRelease | Kind::Release => in_state(
                r,
                StateView::Command { bytes: h + bytes, until },
            ),
            Kind::Key(Some(c)) => if lower(c) == 0x64 {
                Run { act: Some(Action::Detach), ..in_state(r, StateView::Idle) }
            } else if lower(c) == 0x78 {
                Run { act: Some(Action::Exit), ..in_state(r, StateView::Idle) }
            } else {
                forward(release(r), bytes)
            },
            Kind::Key(None) | Kind::EscPress => forward(release(r), bytes),
        },
    }
}

/// `1;5:3` is `[[1], [5, 3]]`; a field that is no number is 0.
pub open spec fn params(body: Seq<u8>) -> Seq<Seq<nat>> {
    let fields = split(byte_chars(body), ';');
    Seq::new(fields.len(), |i: int| subparams(fields[i]))
}

pub open spec fn subparams(field: Seq<char>) -> Seq<nat> {
    let parts = split(field, ':');
    Seq::new(parts.len(), |j: int| number(parts[j]))
}

pub open spec fn number(s: Seq<char>) -> nat {
    match parsed_max(s, u32::MAX as nat) {
        Some(n) => n,
        None => 0,
    }
}

/// Sub-field `j` of field `i`, or `d` if there is none.
pub open spec fn param(p: Seq<Seq<nat>>, i: int, j: int, d: nat) -> nat {
    if 0 <= i < p.len() && 0 <= j < p[i].len() {
        p[i][j]
    } else {
        d
    }
}

/// Whether a kitty modifier field is Ctrl and no other key but locks.
pub open spec fn ctrl_only(m: nat) -> bool {
    m >= 1 && ((m - 1) as u32) & !(64u32 | 128u32) == 4
}

/// What key event a control sequence reports.
pub open spec fn classify(cfg: Config, p: Seq<Seq<nat>>, fin: u8) -> Kind {
    let event = param(p, 1, 1, 1);
    let mods = param(p, 1, 0, 1);
    let key = param(p, 0, 0, 0);
    if fin == 0x75 {
        if key == cfg.key_code() && ctrl_only(mods) {
            if event == 3 {
                Kind::EscRelease
            } else {
                Kind::EscPress
            }
        } else if event == 3 {
            Kind::Release
        } else if (if mods == 0 {
            0
        } else {
            (mods - 1) as u32
        }) & !(64u32 | 128u32) == 0 && 0x20 <= key < 0x7f {
            Kind::Key(Some(key as u8))
        } else {
            Kind::Key(None)
        }
    } else if fin == 0x7e && key == 27 {
        if param(p, 2, 0, 0) == cfg.key_code() && ctrl_only(mods) {
            Kind::EscPress
        } else {
            Kind::Key(None)
        }
    } else if event == 3 {
        Kind::Release
    } else {
        Kind::Key(None)
    }
}

/// Whether a control sequence is a reply or a report, not a key.
pub open spec fn passive(body: Seq<u8>, fin: u8) -> bool {
    ||| body.len() > 0 && 0x3c <= body[0] <= 0x3f
    ||| exists|i: int| 0 <= i < body.len() && 0x20 <= #[trigger] body[i] <= 0x2f
    ||| body.len() == 0 && (fin == 0x49 || fin == 0x4f)
    ||| fin == 0x52
}

/// A control sequence that is complete.
pub open spec fn csi(r0: Run, bytes: Seq<u8>, now: u64) -> Run {
    let r = waiting_since(r0, None);
    let fin = bytes.last();
    let body = bytes.subrange(2, bytes.len() - 1);
    if bytes == paste_start() {
        at_lex(forward(release(r), bytes), Lex::Paste(0))
    } else if body.len() == 0 && fin == 0x4d {
        at_lex(collecting(r, bytes), Lex::Mouse(3))
    } else if passive(body, fin) {
        token(r, Kind::Passive, bytes, now)
    } else {
        token(r, classify(r.d.cfg, params(body), fin), bytes, now)
    }
}

pub open spec fn plain(b: u8) -> Kind {
    if 0x20 <= b <= 0x7e {
        Kind::Key(Some(b))
    } else {
        Kind::Key(None)
    }
}

/// A byte outside every sequence.
pub open spec fn ground(r: Run, b: u8, now: u64) -> Run {
    if b == 0x1b {
        at_lex(collecting(r, seq![b]), Lex::Esc)
    } else if b == r.d.cfg.byte {
        token(r, Kind::EscPress, seq![b], now)
    } else {
        token(r, plain(b), seq![b], now)
    }
}

/// A byte after ESC.
pub open spec fn after_esc(r: Run, b: u8, now: u64) -> Run {
    let seq = r.d.seq.push(b);
    let none = Seq::<u8>::empty();
    if b == 0x5b {
        at_lex(collecting(r, seq), Lex::Csi)
    } else if b == 0x4f {
        at_lex(collecting(r, seq), Lex::Ss3)
    } else if b == 0x5d || b == 0x50 || b == 0x5f {
        let t = token(collecting(r, none), Kind::Passive, seq, now);
        Run {
            d: DetectorView { lex: Lex::Str { esc: false }, str_last: now, str_bytes: 0, ..t.d },
            ..t
        }
    } else if b == 0x1b {
        collecting(token(collecting(r, none), Kind::Key(None), r.d.seq, now), seq![b])
    } else {
        token(at_lex(collecting(r, none), Lex::Ground), Kind::Key(None), seq, now)
    }
}

/// A byte inside a control sequence. One that cannot continue it is read
/// again after it.
pub open spec fn in_csi(r: Run, b: u8, now: u64) -> Run {
    let none = Seq::<u8>::empty();
    if 0x20 <= b <= 0x3f && r.d.seq.len() < MAX_SEQ {
        collecting(r, r.d.seq.push(b))
    } else if 0x40 <= b <= 0x7e {
        csi(at_lex(collecting(r, none), Lex::Ground), r.d.seq.push(b), now)
    } else {
        let t = waiting_since(
            token(at_lex(collecting(r, none), Lex::Ground), Kind::Key(None), r.d.seq, now),
            None,
        );
        if t.act is Some {
            t
        } else {
            ground(t, b, now)
        }
    }
}

/// The last byte of a sequence of kind `kind`.
pub open spec fn ends(r: Run, kind: Kind, b: u8, now: u64) -> Run {
    token(
        waiting_since(at_lex(collecting(r, Seq::empty()), Lex::Ground), None),
        kind,
        r.d.seq.push(b),
        now,
    )
}

/// A byte inside a string.
pub open spec fn in_str(r: Run, esc: bool, b: u8, now: u64) -> Run {
    let n = (r.d.str_bytes + 1) as usize;
    let lex = if b == 7 || (esc && b == 0x5c) || n >= MAX_STR {
        Lex::Ground
    } else {
        Lex::Str { esc: b == 0x1b }
    };
    let f = forward(r, seq![b]);
    Run { d: DetectorView { lex, str_last: now, str_bytes: n, ..f.d }, ..f }
}

/// A byte inside a paste.
pub open spec fn in_paste(r: Run, matched: usize, b: u8) -> Run {
    let m: usize = if b == paste_end()[matched as int] {
        (matched + 1) as usize
    } else if b == 0x1b {
        1
    } else {
        0
    };
    at_lex(
        forward(release(r), seq![b]),
        if m == 6 {
            Lex::Ground
        } else {
            Lex::Paste(m)
        },
    )
}

/// One byte of the input.
pub open spec fn step(r: Run, b: u8, now: u64) -> Run {
    match r.d.lex {
        Lex::Ground => ground(r, b, now),
        Lex::Esc => after_esc(r, b, now),
        Lex::Ss3 => ends(r, Kind::Key(None), b, now),
        Lex::Csi => in_csi(r, b, now),
        Lex::Mouse(left) => if left == 1 {
            ends(r, Kind::Passive, b, now)
        } else {
            at_lex(collecting(r, r.d.seq.push(b)), Lex::Mouse((left - 1) as u8))
        },
        Lex::Str { esc } => in_str(r, esc, b, now),
        Lex::Paste(matched) => in_paste(r, matched, b),
    }
}

/// All the bytes of a read, up to the one that completes a command.
pub open spec fn steps(r: Run, input: Seq<u8>, now: u64) -> Run
    decreases input.len(),
{
    if input.len() == 0 || r.act is Some {
        r
    } else {
        steps(step(r, input[0], now), input.skip(1), now)
    }
}

/// The end of a read: a lone ESC is the Esc key, an incomplete sequence
/// starts to wait.
pub open spec fn end_of_read(r: Run, now: u64) -> Run {
    match r.d.lex {
        Lex::Esc => token(
            at_lex(collecting(r, Seq::empty()), Lex::Ground),
            Kind::Key(None),
            r.d.seq,
            now,
        ),
        Lex::Csi | Lex::Ss3 | Lex::Mouse(_) => if r.d.seq_since is None {
            waiting_since(r, Some(now))
        } else {
            r
        },
        _ => r,
    }
}

/// The timers that have expired at `now`.
pub open spec fn ticked(d: DetectorView, now: u64) -> Run {
    let r = Run { d, fwd: Seq::empty(), act: None };
    let r = if d.lex is Str && now >= d.str_last + PENDING_MS {
        at_lex(r, Lex::Ground)
    } else {
        r
    };
    let r = match d.seq_since {
        Some(since) => if now >= since + PENDING_MS {
            token(
                at_lex(waiting_since(collecting(r, Seq::empty()), None), Lex::Ground),
                Kind::Key(None),
                d.seq,
                now,
            )
        } else {
            r
        },
        None => r,
    };
    if expired(r.d.state, now) {
        release(r)
    } else {
        r
    }
}

pub open spec fn expired(s: StateView, now: u64) -> bool {
    match s {
        StateView::Idle => false,
        StateView::Held { until, .. } => now >= until,
        StateView::Command { until, .. } => now >= until,
    }
}

/// One read of `input` at `now`.
pub open spec fn fed(d: DetectorView, input: Seq<u8>, now: u64) -> Run {
    let r = steps(ticked(d, now), input, now);
    if r.act is Some {
        r
    } else {
        end_of_read(r, now)
    }
}

/// What every reachable detector satisfies.
pub open spec fn valid(d: DetectorView) -> bool {
    &&& d.str_last + PENDING_MS <= u64::MAX
    &&& d.seq_since matches Some(t) ==> t + PENDING_MS <= u64::MAX
    &&& d.seq_since is Some ==> d.lex is Csi || d.lex is Ss3 || d.lex is Mouse
    &&& match d.lex {
        Lex::Ground => d.seq.len() == 0,
        Lex::Esc => d.seq == seq![0x1bu8],
        Lex::Ss3 => d.seq.len() == 2,
        Lex::Csi => 2 <= d.seq.len() && d.seq[0] == 0x1b && d.seq[1] == 0x5b,
        Lex::Str { .. } => d.seq.len() == 0 && d.str_bytes < MAX_STR,
        Lex::Mouse(left) => 1 <= left <= 3,
        Lex::Paste(matched) => d.seq.len() == 0 && matched < 6,
    }
}

/// A time that every deadline can be counted from.
pub open spec fn clock_ok(cfg: Config, now: u64) -> bool {
    now + cfg.command_window() <= u64::MAX
}

// ---- the machine -----------------------------------------------------------

impl State {
    spec fn view(&self) -> StateView {
        match *self {
            State::Idle => StateView::Idle,
            State::Held { bytes, until } => StateView::Held { bytes: bytes@, until },
            State::Command { bytes, until } => StateView::Command { bytes: bytes@, until },
        }
    }
}

impl View for Detector {
    type V = DetectorView;

    closed spec fn view(&self) -> DetectorView {
        DetectorView {
            cfg: self.cfg,
            lex: self.lex,
            seq: self.seq@,
            seq_since: self.seq_since,
            str_last: self.str_last,
            str_bytes: self.str_bytes,
            state: self.state.view(),
        }
    }
}

/// A detector and its output so far, as a [`Run`].
spec fn run_of(d: Detector, out: Output) -> Run {
    Run { d: d@, fwd: out.forward@, act: out.action }
}

impl Detector {
    pub fn new(cfg: Config) -> (d: Detector)
        ensures
            valid(d@),
            d@ == (DetectorView {
                cfg,
                lex: Lex::Ground,
                seq: Seq::empty(),
                seq_since: None,
                str_last: 0,
                str_bytes: 0,
                state: StateView::Idle,
            }),
    {
        Detector {
            cfg,
            lex: Lex::Ground,
            seq: Vec::new(),
            seq_since: None,
            str_last: 0,
            str_bytes: 0,
            state: State::Idle,
        }
    }

    /// True while command mode waits for its command key (after the double
    /// tap, before the key or the timeout).
    pub fn armed(&self) -> (r: bool)
        ensures
            r == (self@.state is Command),
    {
        match &self.state {
            State::Command { .. } => true,
            _ => false,
        }
    }

    /// The earliest time [`Detector::tick`] must be called: when what is held
    /// runs out of time, or an incomplete sequence has waited long enough.
    pub fn deadline(&self) -> (r: Option<u64>)
        requires
            valid(self@),
        ensures
            r == deadline_of(self@),
    {
        let s: Option<u64> = match &self.state {
            State::Idle => None,
            State::Held { until, .. } => Some(*until),
            State::Command { until, .. } => Some(*until),
        };
        let p: Option<u64> = match self.seq_since {
            Some(t) => Some(t + PENDING_MS),
            None => None,
        };
        match (s, p) {
            (Some(a), Some(b)) => Some(if a <= b {
                a
            } else {
                b
            }),
            (Some(a), None) => Some(a),
            (None, b) => b,
        }
    }

    /// Sends what is held back.
    fn flush_held(&mut self, out: &mut Output)
        ensures
            run_of(*final(self), *final(out)) == release(run_of(*old(self), *old(out))),
    {
        let mut state = State::Idle;
        std::mem::swap(&mut self.state, &mut state);
        match state {
            State::Idle => {
                assert(out.forward@ + Seq::<u8>::empty() =~= out.forward@);
            },
            State::Held { bytes, .. } => put_bytes(&mut out.forward, bytes.as_slice()),
            State::Command { bytes, .. } => put_bytes(&mut out.forward, bytes.as_slice()),
        }
    }

    fn token(&mut self, kind: Kind, bytes: Vec<u8>, now: u64, out: &mut Output)
        requires
            clock_ok(old(self)@.cfg, now),
        ensures
            run_of(*final(self), *final(out)) == token(
                run_of(*old(self), *old(out)),
                kind,
                bytes@,
                now,
            ),
    {
        let mut state = State::Idle;
        std::mem::swap(&mut self.state, &mut state);
        match state {
            State::Idle => match kind {
                Kind::EscPress => {
                    self.state = State::Held { bytes, until: now + self.cfg.window_ms };
                },
                _ => put_bytes(&mut out.forward, bytes.as_slice()),
            },
            State::Held { bytes: mut h, until } => match kind {
                Kind::Passive => {
                    put_bytes(&mut out.forward, bytes.as_slice());
                    self.state = State::Held { bytes: h, until };
                },
                Kind::EscRelease | Kind::Release => {
                    put_bytes(&mut h, bytes.as_slice());
                    self.state = State::Held { bytes: h, until };
                },
                Kind::EscPress => {
                    put_bytes(&mut h, bytes.as_slice());
                    let until = now + self.cfg.command_window_ms();
                    self.state = State::Command { bytes: h, until };
                },
                Kind::Key(_) => {
                    put_bytes(&mut out.forward, h.as_slice());
                    put_bytes(&mut out.forward, bytes.as_slice());
                },
            },
            State::Command { bytes: mut h, until } => match kind {
                Kind::Passive => {
                    put_bytes(&mut out.forward, bytes.as_slice());
                    self.state = State::Command { bytes: h, until };
                },
                Kind::EscRelease | Kind::Release => {
                    put_bytes(&mut h, bytes.as_slice());
                    self.state = State::Command { bytes: h, until };
                },
                Kind::Key(Some(c)) => {
                    let c = to_lower(c);
                    if c == 0x64 {
                        out.action = Some(Action::Detach);
                    } else if c == 0x78 {
                        out.action = Some(Action::Exit);
                    } else {
                        put_bytes(&mut out.forward, h.as_slice());
                        put_bytes(&mut out.forward, bytes.as_slice());
                    }
                },
                Kind::Key(None) | Kind::EscPress => {
                    put_bytes(&mut out.forward, h.as_slice());
                    put_bytes(&mut out.forward, bytes.as_slice());
                },
            },
        }
    }

    /// The sequence collected so far, which is then empty.
    fn take_seq(&mut self) -> (v: Vec<u8>)
        ensures
            v@ == old(self)@.seq,
            final(self)@ == (DetectorView { seq: Seq::empty(), ..old(self)@ }),
    {
        let mut v: Vec<u8> = Vec::new();
        std::mem::swap(&mut self.seq, &mut v);
        v
    }

    /// Handles expired timers.
    pub fn tick(&mut self, now: u64) -> (out: Output)
        requires
            valid(old(self)@),
            clock_ok(old(self)@.cfg, now),
        ensures
            valid(final(self)@),
            ({
                let r = ticked(old(self)@, now);
                final(self)@ == r.d && out.forward@ == r.fwd && out.action == r.act
            }),
    {
        let mut out = Output::default();
        if let Lex::Str { .. } = self.lex {
            if now >= self.str_last + PENDING_MS {
                self.lex = Lex::Ground;
            }
        }
        if let Some(since) = self.seq_since {
            if now >= since + PENDING_MS {
                let bytes = self.take_seq();
                self.seq_since = None;
                self.lex = Lex::Ground;
                self.token(Kind::Key(None), bytes, now, &mut out);
            }
        }
        let over = match &self.state {
            State::Idle => false,
            State::Held { until, .. } => now >= *until,
            State::Command { until, .. } => now >= *until,
        };
        if over {
            self.flush_held(&mut out);
        }
        out
    }
}

/// When [`Detector::tick`] must be called.
pub open spec fn deadline_of(d: DetectorView) -> Option<u64> {
    let s = match d.state {
        StateView::Idle => None,
        StateView::Held { until, .. } => Some(until),
        StateView::Command { until, .. } => Some(until),
    };
    match (s, d.seq_since) {
        (Some(a), Some(t)) => if a <= t + PENDING_MS {
            Some(a)
        } else {
            Some((t + PENDING_MS) as u64)
        },
        (Some(a), None) => Some(a),
        (None, Some(t)) => Some((t + PENDING_MS) as u64),
        (None, None) => None,
    }
}

/// A control sequence's parameters, as [`params`] reads them.
spec fn param_views(v: Seq<Vec<u64>>) -> Seq<Seq<nat>> {
    Seq::new(v.len(), |i: int| Seq::new(v[i]@.len(), |j: int| v[i]@[j] as nat))
}

fn parse_subparams(field: &[char]) -> (r: Vec<u64>)
    ensures
        Seq::new(r@.len(), |j: int| r@[j] as nat) == subparams(field@),
        forall|j: int| 0 <= j < r@.len() ==> #[trigger] r@[j] <= u32::MAX,
{
    let parts = split_at_char(field, ':');
    let ghost want = subparams(field@);
    let mut r: Vec<u64> = Vec::new();
    for j in 0..parts.len()
        invariant
            views(parts@) == split(field@, ':'),
            want == subparams(field@),
            r.len() == j,
            forall|k: int| 0 <= k < j ==> #[trigger] r@[k] <= u32::MAX && r@[k] == want[k],
    {
        assert(views(parts@)[j as int] == parts@[j as int]@);
        let n: u64 = match parse_uint(parts[j].as_slice(), 0xffff_ffff) {
            Some(n) => n,
            None => 0,
        };
        r.push(n);
    }
    assert(views(parts@).len() == parts@.len());
    assert(Seq::new(r@.len(), |j: int| r@[j] as nat) =~= want);
    r
}

/// `1;5:3` → `[[1], [5, 3]]`; a field that is no number is 0.
fn parse_params(body: &[u8]) -> (r: Vec<Vec<u64>>)
    ensures
        param_views(r@) == params(body@),
        forall|i: int, j: int|
            0 <= i < r@.len() && 0 <= j < r@[i]@.len() ==> #[trigger] r@[i]@[j] <= u32::MAX,
{
    let text = chars_of_bytes(body);
    let fields = split_at_char(text.as_slice(), ';');
    let ghost want = params(body@);
    let mut r: Vec<Vec<u64>> = Vec::new();
    for i in 0..fields.len()
        invariant
            text@ == byte_chars(body@),
            views(fields@) == split(text@, ';'),
            want == params(body@),
            r.len() == i,
            forall|k: int|
                0 <= k < i ==> Seq::new(#[trigger] r@[k]@.len(), |j: int| r@[k]@[j] as nat)
                    == want[k],
            forall|k: int, j: int|
                0 <= k < i && 0 <= j < r@[k]@.len() ==> #[trigger] r@[k]@[j] <= u32::MAX,
    {
        assert(views(fields@)[i as int] == fields@[i as int]@);
        let f = parse_subparams(fields[i].as_slice());
        r.push(f);
    }
    assert(views(fields@).len() == fields@.len());
    assert(param_views(r@) =~= want);
    r
}

fn get_param(p: &Vec<Vec<u64>>, i: usize, j: usize, d: u32) -> (n: u32)
    requires
        forall|i: int, j: int|
            0 <= i < p@.len() && 0 <= j < p@[i]@.len() ==> #[trigger] p@[i]@[j] <= u32::MAX,
    ensures
        n == param(param_views(p@), i as int, j as int, d as nat),
{
    if i < p.len() && j < p[i].len() {
        assert(p@[i as int]@[j as int] <= u32::MAX);
        p[i][j] as u32
    } else {
        d
    }
}

fn is_ctrl_only(m: u32) -> (r: bool)
    ensures
        r == ctrl_only(m as nat),
{
    m >= 1 && ((m - 1) & !(64u32 | 128u32)) == 4
}

/// Whether a sequence is a reply or a report, not a key.
fn is_passive(bytes: &[u8]) -> (r: bool)
    requires
        bytes.len() >= 3,
    ensures
        r == passive(bytes@.subrange(2, bytes@.len() - 1), bytes@.last()),
{
    let n: usize = bytes.len() - 1;
    let fin = bytes[n];
    let ghost body = bytes@.subrange(2, bytes@.len() - 1);
    if fin == 0x52 {
        return true;
    }
    if n == 2 {
        return fin == 0x49 || fin == 0x4f;
    }
    assert(body[0] == bytes@[2]);
    if bytes[2] >= 0x3c && bytes[2] <= 0x3f {
        return true;
    }
    let mut i: usize = 2;
    while i < n
        invariant
            2 <= i <= n == bytes.len() - 1,
            body == bytes@.subrange(2, bytes@.len() - 1),
            forall|k: int| 0 <= k < i - 2 ==> !(0x20 <= #[trigger] body[k] <= 0x2f),
        decreases n - i,
    {
        assert(body[i - 2] == bytes@[i as int]);
        if bytes[i] >= 0x20 && bytes[i] <= 0x2f {
            return true;
        }
        i = i + 1;
    }
    false
}

impl Detector {
    fn classify(&self, p: &Vec<Vec<u64>>, fin: u8) -> (k: Kind)
        requires
            forall|i: int, j: int|
                0 <= i < p@.len() && 0 <= j < p@[i]@.len() ==> #[trigger] p@[i]@[j] <= u32::MAX,
        ensures
            k == classify(self@.cfg, param_views(p@), fin),
    {
        let event = get_param(p, 1, 1, 1);
        let mods = get_param(p, 1, 0, 1);
        let key = get_param(p, 0, 0, 0);
        if fin == 0x75 {
            let m: u32 = if mods == 0 {
                0
            } else {
                mods - 1
            };
            if key == self.cfg.codepoint() && is_ctrl_only(mods) {
                if event == 3 {
                    Kind::EscRelease
                } else {
                    Kind::EscPress
                }
            } else if event == 3 {
                Kind::Release
            } else if (m & !(64u32 | 128u32)) == 0 && key >= 0x20 && key < 0x7f {
                Kind::Key(Some(key as u8))
            } else {
                Kind::Key(None)
            }
        } else if fin == 0x7e && key == 27 {
            if get_param(p, 2, 0, 0) == self.cfg.codepoint() && is_ctrl_only(mods) {
                Kind::EscPress
            } else {
                Kind::Key(None)
            }
        } else if event == 3 {
            Kind::Release
        } else {
            Kind::Key(None)
        }
    }

    /// A control sequence that is complete.
    fn csi(&mut self, bytes: Vec<u8>, now: u64, out: &mut Output)
        requires
            clock_ok(old(self)@.cfg, now),
            bytes.len() >= 3,
            bytes@[0] == 0x1b,
            bytes@[1] == 0x5b,
        ensures
            run_of(*final(self), *final(out)) == csi(run_of(*old(self), *old(out)), bytes@, now),
    {
        self.seq_since = None;
        let n: usize = bytes.len() - 1;
        let fin = bytes[n];
        let ghost body = bytes@.subrange(2, bytes@.len() - 1);
        if n == 5 && bytes[2] == 0x32 && bytes[3] == 0x30 && bytes[4] == 0x30 && fin == 0x7e {
            assert(bytes@ =~= paste_start());
            self.flush_held(out);
            put_bytes(&mut out.forward, bytes.as_slice());
            self.lex = Lex::Paste(0);
            return;
        }
        assert(bytes@ != paste_start());
        if n == 2 && fin == 0x4d {
            self.seq = bytes;
            self.lex = Lex::Mouse(3);
            return;
        }
        if is_passive(bytes.as_slice()) {
            self.token(Kind::Passive, bytes, now, out);
            return;
        }
        let inner = sub_vec(bytes.as_slice(), 2, n);
        let p = parse_params(inner.as_slice());
        let kind = self.classify(&p, fin);
        self.token(kind, bytes, now, out);
    }

    fn ground(&mut self, b: u8, now: u64, out: &mut Output)
        requires
            clock_ok(old(self)@.cfg, now),
        ensures
            run_of(*final(self), *final(out)) == ground(run_of(*old(self), *old(out)), b, now),
    {
        if b == 0x1b {
            self.lex = Lex::Esc;
            self.seq = vec![b];
            assert(self.seq@ =~= seq![b]);
        } else {
            let bytes = vec![b];
            assert(bytes@ =~= seq![b]);
            if b == self.cfg.byte {
                self.token(Kind::EscPress, bytes, now, out);
            } else if b >= 0x20 && b <= 0x7e {
                self.token(Kind::Key(Some(b)), bytes, now, out);
            } else {
                self.token(Kind::Key(None), bytes, now, out);
            }
        }
    }

    fn after_esc(&mut self, b: u8, now: u64, out: &mut Output)
        requires
            clock_ok(old(self)@.cfg, now),
        ensures
            run_of(*final(self), *final(out)) == after_esc(run_of(*old(self), *old(out)), b, now),
    {
        if b == 0x1b {
            // ESC ESC: the first was a key on its own.
            let bytes = self.take_seq();
            self.token(Kind::Key(None), bytes, now, out);
            self.seq = vec![b];
            assert(self.seq@ =~= seq![b]);
            return;
        }
        self.seq.push(b);
        if b == 0x5b {
            self.lex = Lex::Csi;
        } else if b == 0x4f {
            self.lex = Lex::Ss3;
        } else if b == 0x5d || b == 0x50 || b == 0x5f {
            // The strings terminals reply with: OSC, DCS, APC.
            let bytes = self.take_seq();
            self.token(Kind::Passive, bytes, now, out);
            self.lex = Lex::Str { esc: false };
            self.str_last = now;
            self.str_bytes = 0;
        } else {
            let bytes = self.take_seq();
            self.lex = Lex::Ground;
            self.token(Kind::Key(None), bytes, now, out);
        }
    }

    fn in_csi(&mut self, b: u8, now: u64, out: &mut Output)
        requires
            clock_ok(old(self)@.cfg, now),
            old(self)@.seq.len() >= 2,
            old(self)@.seq[0] == 0x1b,
            old(self)@.seq[1] == 0x5b,
            old(out).action is None,
        ensures
            run_of(*final(self), *final(out)) == in_csi(run_of(*old(self), *old(out)), b, now),
    {
        if b >= 0x20 && b <= 0x3f && self.seq.len() < MAX_SEQ {
            self.seq.push(b);
        } else if b >= 0x40 && b <= 0x7e {
            self.seq.push(b);
            let bytes = self.take_seq();
            self.lex = Lex::Ground;
            self.csi(bytes, now, out);
        } else {
            // Not a valid CSI: send what we have and re-read `b`.
            let bytes = self.take_seq();
            self.lex = Lex::Ground;
            self.token(Kind::Key(None), bytes, now, out);
            self.seq_since = None;
            if out.action.is_none() {
                self.ground(b, now, out);
            }
        }
    }

    fn ends(&mut self, kind: Kind, b: u8, now: u64, out: &mut Output)
        requires
            clock_ok(old(self)@.cfg, now),
        ensures
            run_of(*final(self), *final(out)) == ends(run_of(*old(self), *old(out)), kind, b, now),
    {
        self.seq.push(b);
        let bytes = self.take_seq();
        self.lex = Lex::Ground;
        self.seq_since = None;
        self.token(kind, bytes, now, out);
    }

    fn in_paste(&mut self, matched: usize, b: u8, out: &mut Output)
        requires
            matched < 6,
        ensures
            run_of(*final(self), *final(out)) == in_paste(
                run_of(*old(self), *old(out)),
                matched,
                b,
            ),
    {
        // Pasted text is user input: release anything held first.
        self.flush_held(out);
        let ghost before = out.forward@;
        out.forward.push(b);
        assert(out.forward@ =~= before + seq![b]);
        let end: [u8; 6] = [0x1b, 0x5b, 0x32, 0x30, 0x31, 0x7e];
        assert(end@ =~= paste_end());
        let m: usize = if b == end[matched] {
            matched + 1
        } else if b == 0x1b {
            1
        } else {
            0
        };
        self.lex = if m == 6 {
            Lex::Ground
        } else {
            Lex::Paste(m)
        };
    }

    fn in_str(&mut self, esc: bool, b: u8, now: u64, out: &mut Output)
        requires
            old(self)@.str_bytes < MAX_STR,
        ensures
            run_of(*final(self), *final(out)) == in_str(run_of(*old(self), *old(out)), esc, b, now),
    {
        out.forward.push(b);
        assert(out.forward@ =~= old(out).forward@ + seq![b]);
        self.str_last = now;
        self.str_bytes = self.str_bytes + 1;
        self.lex = if b == 7 || (esc && b == 0x5c) || self.str_bytes >= MAX_STR {
            Lex::Ground
        } else {
            Lex::Str { esc: b == 0x1b }
        };
    }

    /// One byte of the input.
    fn step(&mut self, b: u8, now: u64, out: &mut Output)
        requires
            valid(old(self)@),
            clock_ok(old(self)@.cfg, now),
            old(out).action is None,
        ensures
            valid(final(self)@),
            final(self)@.cfg == old(self)@.cfg,
            run_of(*final(self), *final(out)) == step(run_of(*old(self), *old(out)), b, now),
    {
        match self.lex {
            Lex::Ground => self.ground(b, now, out),
            Lex::Esc => self.after_esc(b, now, out),
            Lex::Ss3 => self.ends(Kind::Key(None), b, now, out),
            Lex::Csi => self.in_csi(b, now, out),
            Lex::Mouse(left) => {
                if left == 1 {
                    self.ends(Kind::Passive, b, now, out);
                } else {
                    self.seq.push(b);
                    self.lex = Lex::Mouse(left - 1);
                }
            },
            Lex::Str { esc } => self.in_str(esc, b, now, out),
            Lex::Paste(matched) => self.in_paste(matched, b, out),
        }
    }

    /// Feeds bytes read from stdin at time `now`.
    pub fn feed(&mut self, input: &[u8], now: u64) -> (out: Output)
        requires
            valid(old(self)@),
            clock_ok(old(self)@.cfg, now),
        ensures
            valid(final(self)@),
            final(self)@.cfg == old(self)@.cfg,
            ({
                let r = fed(old(self)@, input@, now);
                final(self)@ == r.d && out.forward@ == r.fwd && out.action == r.act
            }),
    {
        let mut out = self.tick(now);
        let ghost start = ticked(old(self)@, now);
        let mut i: usize = 0;
        assert(input@.skip(0) =~= input@);
        while i < input.len()
            invariant
                i <= input.len(),
                valid(self@),
                self@.cfg == old(self)@.cfg,
                clock_ok(old(self)@.cfg, now),
                out.action is None,
                steps(run_of(*self, out), input@.skip(i as int), now) == steps(start, input@, now),
                start == ticked(old(self)@, now),
            decreases input.len() - i,
        {
            assert(input@.skip(i as int)[0] == input@[i as int]);
            assert(input@.skip(i as int).skip(1) =~= input@.skip(i + 1));
            self.step(input[i], now, &mut out);
            i = i + 1;
            if out.action.is_some() {
                return out;
            }
        }
        assert(input@.skip(i as int).len() == 0);
        match self.lex {
            // A lone ESC at the end of a read is the Esc key: never delay it.
            Lex::Esc => {
                let bytes = self.take_seq();
                self.lex = Lex::Ground;
                self.token(Kind::Key(None), bytes, now, &mut out);
            },
            Lex::Csi | Lex::Ss3 | Lex::Mouse(_) => {
                if self.seq_since.is_none() {
                    self.seq_since = Some(now);
                }
            },
            _ => {},
        }
        out
    }
}

// ---- bracketed pastes in what was sent -------------------------------------

/// Whether `m` stands at `i` in `s`.
pub open spec fn stands_at(s: Seq<u8>, i: int, m: Seq<u8>) -> bool {
    0 <= i && i + m.len() <= s.len() && s.subrange(i, i + m.len()) == m
}

/// Whether `s` ends inside a bracketed paste, if it started so: the last
/// marker that stands in it says.
pub open spec fn open_after(open: bool, s: Seq<u8>) -> bool
    decreases s.len(),
{
    if s.len() == 0 {
        open
    } else if stands_at(s, s.len() - 6, paste_start()) {
        true
    } else if stands_at(s, s.len() - 6, paste_end()) {
        false
    } else {
        open_after(open, s.drop_last())
    }
}

/// The last five bytes of `s`, or all of it.
pub open spec fn tail_of(s: Seq<u8>) -> Seq<u8> {
    if s.len() > 5 {
        s.skip(s.len() - 5)
    } else {
        s
    }
}

/// Whether the input sent to the program so far ends inside a bracketed
/// paste (`CSI 200 ~` without its `CSI 201 ~` yet), so that a byte the client
/// adds of its own never lands in the middle of pasted text. Markers split
/// across writes are found.
pub struct PasteTracker {
    open: bool,
    /// The last bytes seen, which may be the start of a marker.
    tail: Vec<u8>,
    /// Everything seen.
    sent: Ghost<Seq<u8>>,
}

/// A tracker is viewed as everything it has been fed.
impl View for PasteTracker {
    type V = Seq<u8>;

    closed spec fn view(&self) -> Seq<u8> {
        self.sent@
    }
}

impl Default for PasteTracker {
    fn default() -> (p: PasteTracker)
        ensures
            p.wf(),
            p@ == Seq::<u8>::empty(),
    {
        PasteTracker { open: false, tail: Vec::new(), sent: Ghost(Seq::empty()) }
    }
}

impl PasteTracker {
    /// What is kept fits what was seen.
    pub closed spec fn wf(&self) -> bool {
        self.open == open_after(false, self.sent@) && self.tail@ == tail_of(self.sent@)
    }

    /// A byte just sent to the program.
    fn feed_byte(&mut self, b: u8)
        requires
            old(self).wf(),
        ensures
            final(self).wf(),
            final(self)@ == old(self)@.push(b),
    {
        self.tail.push(b);
        let n: usize = self.tail.len();
        let ghost t = self.sent@;
        let ghost u = t.push(b);
        self.sent = Ghost(u);
        proof {
            lemma_open_step(t, b);
        }
        if n >= 6 {
            let w = sub_vec(self.tail.as_slice(), n - 6, n);
            proof {
                assert(w@ =~= u.subrange(u.len() - 6, u.len() as int));
                if w@[0] == 0x1b && w@[1] == 0x5b && w@[2] == 0x32 && w@[3] == 0x30 && w@[5] == 0x7e {
                    if w@[4] == 0x30 {
                        assert(w@ =~= paste_start());
                    } else if w@[4] == 0x31 {
                        assert(w@ =~= paste_end());
                    }
                }
            }
            if w[0] == 0x1b && w[1] == 0x5b && w[2] == 0x32 && w[3] == 0x30 && w[5] == 0x7e {
                if w[4] == 0x30 {
                    self.open = true;
                } else if w[4] == 0x31 {
                    self.open = false;
                }
            }
            drop_front(&mut self.tail, n - 5);
        }
        assert(self.tail@ =~= tail_of(u));
    }

    /// Bytes just sent to the program.
    pub fn feed(&mut self, bytes: &[u8])
        requires
            old(self).wf(),
        ensures
            final(self).wf(),
            final(self)@ == old(self)@ + bytes@,
    {
        assert(self@ =~= old(self)@ + bytes@.take(0));
        for i in 0..bytes.len()
            invariant
                self.wf(),
                self@ == old(self)@ + bytes@.take(i as int),
        {
            self.feed_byte(bytes[i]);
            assert(self@ =~= old(self)@ + bytes@.take(i + 1));
        }
        assert(bytes@.take(bytes@.len() as int) =~= bytes@);
    }

    pub fn open(&self) -> (r: bool)
        requires
            self.wf(),
        ensures
            r == open_after(false, self@),
    {
        self.open
    }
}

proof fn lemma_open_step(s: Seq<u8>, b: u8)
    ensures
        open_after(false, s.push(b)) == if stands_at(s.push(b), s.len() - 5, paste_start()) {
            true
        } else if stands_at(s.push(b), s.len() - 5, paste_end()) {
            false
        } else {
            open_after(false, s)
        },
{
    assert(s.push(b).drop_last() =~= s);
}

} // verus!
