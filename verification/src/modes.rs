//! Passive observer of terminal modes.
//!
//! Scans the output stream for the few sequences that switch terminal modes a
//! remote program should not leave behind — mouse reporting, bracketed paste,
//! the alternate screen, a hidden cursor, keyboard protocols, synchronized
//! output — and produces the resets for when the client leaves without the
//! program having cleaned up (detach, exit, abandoned reconnect).
//!
//! It never modifies, delays or reorders the stream: the caller writes the
//! bytes to the terminal and hands the same bytes to [`ModeObserver::observe`].
//! It also knows where the stream is between sequences and characters
//! ([`ModeObserver::at_boundary`]), the only place the client may put a byte
//! of its own, the command-mode bell — and, for a write that cannot wait for
//! one, how to step out of the sequence the stream is in and back into it
//! ([`ModeObserver::interrupt_sequence`], [`ModeObserver::reopen_sequence`]).

use crate::text::{
    byte_chars, chars_of_bytes, parse_uint, parsed_max, split, split_at_char, sub_vec, views,
};
use crate::wire::{dec_bytes, put_bytes, put_dec};
use vstd::prelude::*;

pub mod laws;

verus! {

/// Most parameter bytes of a control sequence that are kept.
pub const MAX_PARAMS: usize = 64;

/// Where in a sequence the stream stands.
#[derive(Debug, Clone, Copy, PartialEq, Eq, Structural)]
pub enum Lex {
    Ground,
    Esc,
    Csi,
    /// OSC/DCS/APC/PM/SOS body; `esc` = previous byte was ESC.
    Str { esc: bool },
}

pub struct ModeObserver {
    lex: Lex,
    seq: Vec<u8>,
    /// The CSI now being read was longer than `seq` keeps, so its bytes are no
    /// longer all here to write again.
    seq_full: bool,
    /// DEC modes currently different from their default.
    dec: Vec<u16>,
    /// Kitty keyboard flags pushed with `CSI > flags u` and not popped.
    kitty_depth: u32,
    /// Kitty flags set in place with `CSI = flags ; mode u`.
    kitty_set: bool,
    /// xterm modifyOtherKeys level, if non-zero.
    modify_other_keys: bool,
    /// Keypad application mode (`ESC =`).
    keypad_app: bool,
    /// A scroll region was set.
    scroll_region: bool,
    /// Continuation bytes still due for a UTF-8 character.
    utf8_left: u8,
    /// The bytes of that character seen so far.
    utf8: Vec<u8>,
}

// ---- what the stream has done, as a mathematical function ------------------

/// The modes that a program has switched away from their defaults.
pub struct Modes {
    /// DEC private modes that are not at their default.
    pub dec: Set<u16>,
    pub kitty_depth: u32,
    pub kitty_set: bool,
    pub modify_other_keys: bool,
    pub keypad_app: bool,
    pub scroll_region: bool,
}

/// How far into a sequence or a character the stream is.
pub struct Place {
    pub lex: Lex,
    pub seq: Seq<u8>,
    pub seq_full: bool,
    pub utf8_left: u8,
    pub utf8: Seq<u8>,
}

pub struct ModesView {
    pub modes: Modes,
    pub at: Place,
}

/// The DEC private modes worth resetting, in the order in which they are
/// reset: the alternate screens last but one, so that the others apply to the
/// screen the user returns to, then the cursor.
pub open spec fn watched() -> Seq<u16> {
    seq![
        1u16,  // application cursor keys
        1000,  // mouse: press/release
        1002,  // mouse: button motion
        1003,  // mouse: any motion
        1004,  // focus events
        1005,  // mouse: UTF-8 coordinates
        1006,  // mouse: SGR coordinates
        1015,  // mouse: urxvt coordinates
        1016,  // mouse: SGR pixel coordinates
        2004,  // bracketed paste
        2026,  // synchronized output
        1049,  // alternate screen + saved cursor
        1047,  // alternate screen
        47,  // alternate screen (old)
        25,  // cursor visible
    ]
}

/// The power-on value of a mode: only the cursor is on.
pub open spec fn default_on(m: u16) -> bool {
    m == 25
}

pub open spec fn clean() -> Modes {
    Modes {
        dec: Set::empty(),
        kitty_depth: 0,
        kitty_set: false,
        modify_other_keys: false,
        keypad_app: false,
        scroll_region: false,
    }
}

pub open spec fn start() -> Place {
    Place { lex: Lex::Ground, seq: Seq::empty(), seq_full: false, utf8_left: 0, utf8: Seq::empty() }
}

/// Whether a byte of the client's own may be written here.
pub open spec fn boundary(p: Place) -> bool {
    p.lex is Ground && p.utf8_left == 0
}

/// The numbers of a parameter list; a field that is no number is 0.
pub open spec fn nums(s: Seq<u8>) -> Seq<nat> {
    let fields = split(byte_chars(s), ';');
    Seq::new(fields.len(), |i: int| num_or(fields[i], 0))
}

pub open spec fn num_or(s: Seq<char>, d: nat) -> nat {
    match parsed_max(s, u32::MAX as nat) {
        Some(n) => n,
        None => d,
    }
}

/// The modes `ms` set on or off, in order; modes that are not watched are
/// ignored.
pub open spec fn switched(dec: Set<u16>, ms: Seq<nat>, on: bool) -> Set<u16>
    decreases ms.len(),
{
    if ms.len() == 0 {
        dec
    } else {
        let m = ms[0];
        let next = if m <= u16::MAX && watched().contains(m as u16) {
            if on == default_on(m as u16) {
                dec.remove(m as u16)
            } else {
                dec.insert(m as u16)
            }
        } else {
            dec
        };
        switched(next, ms.skip(1), on)
    }
}

/// What a complete control sequence does to the modes.
pub open spec fn csi(m: Modes, body: Seq<u8>, fin: u8) -> Modes {
    let args = body.skip(1);
    if body.len() > 0 && body[0] == 0x3f && (fin == 0x68 || fin == 0x6c) {
        Modes { dec: switched(m.dec, nums(args), fin == 0x68), ..m }
    } else if body.len() > 0 && body[0] == 0x3e && fin == 0x75 {
        Modes {
            kitty_depth: if m.kitty_depth < u32::MAX {
                (m.kitty_depth + 1) as u32
            } else {
                m.kitty_depth
            },
            ..m
        }
    } else if body.len() > 0 && body[0] == 0x3c && fin == 0x75 {
        let n = num_or(byte_chars(args), 1);
        let n = if n == 0 {
            1
        } else {
            n
        };
        Modes {
            kitty_depth: if m.kitty_depth >= n {
                (m.kitty_depth - n) as u32
            } else {
                0
            },
            ..m
        }
    } else if body.len() > 0 && body[0] == 0x3d && fin == 0x75 {
        if m.kitty_depth == 0 {
            Modes { kitty_set: nums(args)[0] != 0, ..m }
        } else {
            m
        }
    } else if body.len() > 0 && body[0] == 0x3e && fin == 0x6d {
        let p = nums(args);
        if p[0] == 4 {
            Modes { modify_other_keys: p.len() > 1 && p[1] != 0, ..m }
        } else {
            m
        }
    } else if fin == 0x72 && (body.len() == 0 || 0x30 <= body[0] <= 0x39 || body[0] == 0x3b) {
        let p = nums(body);
        Modes { scroll_region: exists|i: int| 0 <= i < p.len() && #[trigger] p[i] != 0, ..m }
    } else {
        m
    }
}

/// How many bytes follow a UTF-8 lead byte.
pub open spec fn continuations(b: u8) -> u8 {
    if b <= 0xdf {
        1
    } else if b <= 0xef {
        2
    } else {
        3
    }
}

/// An ESC: a sequence starts, and the one it interrupted is forgotten.
pub open spec fn esc(p: Place) -> Place {
    Place { lex: Lex::Esc, seq: Seq::empty(), seq_full: false, ..p }
}

pub open spec fn at_lex(p: Place, lex: Lex) -> Place {
    Place { lex, ..p }
}

/// A byte of text, or an ESC.
pub open spec fn ground(p: Place, b: u8) -> Place {
    let q = if 0x80 <= b <= 0xbf {
        if p.utf8_left > 0 {
            Place { utf8: p.utf8.push(b), utf8_left: (p.utf8_left - 1) as u8, ..p }
        } else {
            p
        }
    } else if 0xc2 <= b <= 0xf4 {
        Place { utf8: seq![b], utf8_left: continuations(b), ..p }
    } else {
        Place { utf8_left: 0, ..p }
    };
    if b == 0x1b {
        esc(q)
    } else {
        q
    }
}

/// One byte of the stream.
pub open spec fn step(v: ModesView, b: u8) -> ModesView {
    let m = v.modes;
    let p = v.at;
    match p.lex {
        Lex::Ground => ModesView { modes: m, at: ground(p, b) },
        Lex::Esc => if b == 0x5b {
            ModesView { modes: m, at: at_lex(p, Lex::Csi) }
        } else if b == 0x5d || b == 0x50 || b == 0x5f || b == 0x5e || b == 0x58 {
            ModesView { modes: m, at: at_lex(p, Lex::Str { esc: false }) }
        } else if b == 0x3d {
            ModesView { modes: Modes { keypad_app: true, ..m }, at: at_lex(p, Lex::Ground) }
        } else if b == 0x3e {
            ModesView { modes: Modes { keypad_app: false, ..m }, at: at_lex(p, Lex::Ground) }
        } else if b == 0x63 {
            // RIS: full reset.
            ModesView { modes: clean(), at: start() }
        } else if b == 0x1b {
            v
        } else {
            ModesView { modes: m, at: at_lex(p, Lex::Ground) }
        },
        Lex::Csi => if 0x20 <= b <= 0x3f {
            ModesView {
                modes: m,
                at: if p.seq.len() < MAX_PARAMS {
                    Place { seq: p.seq.push(b), ..p }
                } else {
                    Place { seq_full: true, ..p }
                },
            }
        } else if 0x40 <= b <= 0x7e {
            ModesView {
                modes: csi(m, p.seq, b),
                at: Place { lex: Lex::Ground, seq: Seq::empty(), seq_full: false, ..p },
            }
        } else if b == 0x1b {
            ModesView { modes: m, at: esc(p) }
        } else {
            // C0 controls inside CSI are executed; keep lexing.
            v
        },
        Lex::Str { esc } => ModesView {
            modes: m,
            at: at_lex(
                p,
                if b == 7 || (esc && b == 0x5c) {
                    Lex::Ground
                } else {
                    Lex::Str { esc: b == 0x1b }
                },
            ),
        },
    }
}

/// A stretch of the stream.
pub open spec fn observed(v: ModesView, bytes: Seq<u8>) -> ModesView
    decreases bytes.len(),
{
    if bytes.len() == 0 {
        v
    } else {
        step(observed(v, bytes.drop_last()), bytes.last())
    }
}

/// `CSI ? m h` or `CSI ? m l`: mode `m` at its default.
pub open spec fn restore(m: u16) -> Seq<u8> {
    seq![0x1bu8, 0x5b, 0x3f] + dec_bytes(m as nat) + seq![if default_on(m) {
        0x68u8
    } else {
        0x6c
    }]
}

/// The modes of `order` that are in `dec`, each restored.
pub open spec fn restores(order: Seq<u16>, dec: Set<u16>) -> Seq<u8>
    decreases order.len(),
{
    if order.len() == 0 {
        Seq::empty()
    } else if dec.contains(order.last()) {
        restores(order.drop_last(), dec) + restore(order.last())
    } else {
        restores(order.drop_last(), dec)
    }
}

pub open spec fn only_if(c: bool, s: Seq<u8>) -> Seq<u8> {
    if c {
        s
    } else {
        Seq::empty()
    }
}

/// `CSI < n u`: the kitty flags pushed are popped.
pub open spec fn pop_kitty(n: u32) -> Seq<u8> {
    seq![0x1bu8, 0x5b, 0x3c] + dec_bytes(n as nat) + seq![0x75u8]
}

/// `CSI = 0 ; 1 u`: no kitty flags.
pub open spec fn no_kitty() -> Seq<u8> {
    seq![0x1bu8, 0x5b, 0x3d, 0x30, 0x3b, 0x31, 0x75]
}

/// `CSI > 4 ; 0 m`: no modifyOtherKeys.
pub open spec fn no_modify() -> Seq<u8> {
    seq![0x1bu8, 0x5b, 0x3e, 0x34, 0x3b, 0x30, 0x6d]
}

/// `ESC >`: the numeric keypad.
pub open spec fn no_keypad() -> Seq<u8> {
    seq![0x1bu8, 0x3e]
}

/// `CSI r`: the whole screen scrolls.
pub open spec fn no_region() -> Seq<u8> {
    seq![0x1bu8, 0x5b, 0x72]
}

/// `CSI 0 m`: plain text.
pub open spec fn plain_text() -> Seq<u8> {
    seq![0x1bu8, 0x5b, 0x30, 0x6d]
}

/// The bytes that return a terminal in the modes `m` to its defaults.
pub open spec fn resets(m: Modes) -> Seq<u8> {
    if m == clean() {
        Seq::empty()
    } else {
        only_if(m.kitty_depth > 0, pop_kitty(m.kitty_depth)) + only_if(m.kitty_set, no_kitty())
            + only_if(m.modify_other_keys, no_modify()) + only_if(m.keypad_app, no_keypad())
            + only_if(m.scroll_region, no_region()) + restores(watched(), m.dec) + plain_text()
    }
}

/// `ESC \`, the string terminator: it ends every sequence and character.
pub open spec fn interruption(p: Place) -> Seq<u8> {
    if boundary(p) {
        Seq::empty()
    } else {
        seq![0x1bu8, 0x5c]
    }
}

/// What puts the terminal back inside the sequence that was interrupted,
/// where the terminal cannot have acted on it yet and all of it is known.
pub open spec fn reopening(p: Place) -> Option<Seq<u8>> {
    match p.lex {
        Lex::Ground => if p.utf8_left == 0 {
            Some(Seq::empty())
        } else {
            Some(p.utf8)
        },
        Lex::Esc => Some(seq![0x1bu8]),
        Lex::Csi => if p.seq_full {
            None
        } else {
            Some(seq![0x1bu8, 0x5b] + p.seq)
        },
        Lex::Str { .. } => None,
    }
}

/// What holds of every place a stream can be.
pub open spec fn reachable(p: Place) -> bool {
    &&& p.lex !is Csi ==> p.seq.len() == 0 && !p.seq_full
    &&& p.lex !is Ground ==> p.utf8_left == 0
    &&& p.seq.len() <= MAX_PARAMS
    &&& forall|i: int| 0 <= i < p.seq.len() ==> 0x20 <= #[trigger] p.seq[i] <= 0x3f
    &&& p.utf8_left > 0 ==> {
        &&& p.utf8.len() > 0
        &&& 0xc2 <= p.utf8[0] <= 0xf4
        &&& p.utf8_left + p.utf8.len() == continuations(p.utf8[0]) + 1
        &&& forall|i: int| 1 <= i < p.utf8.len() ==> 0x80 <= #[trigger] p.utf8[i] <= 0xbf
    }
}

// ---- the observer ----------------------------------------------------------

impl View for ModeObserver {
    type V = ModesView;

    closed spec fn view(&self) -> ModesView {
        ModesView {
            modes: Modes {
                dec: self.dec@.to_set(),
                kitty_depth: self.kitty_depth,
                kitty_set: self.kitty_set,
                modify_other_keys: self.modify_other_keys,
                keypad_app: self.keypad_app,
                scroll_region: self.scroll_region,
            },
            at: Place {
                lex: self.lex,
                seq: self.seq@,
                seq_full: self.seq_full,
                utf8_left: self.utf8_left,
                utf8: self.utf8@,
            },
        }
    }
}

impl Default for ModeObserver {
    fn default() -> (o: ModeObserver)
        ensures
            o.wf(),
            o@ == (ModesView { modes: clean(), at: start() }),
    {
        let o = ModeObserver {
            lex: Lex::Ground,
            seq: Vec::new(),
            seq_full: false,
            dec: Vec::new(),
            kitty_depth: 0,
            kitty_set: false,
            modify_other_keys: false,
            keypad_app: false,
            scroll_region: false,
            utf8_left: 0,
            utf8: Vec::new(),
        };
        assert(o.dec@.to_set() =~= Set::<u16>::empty());
        o
    }
}

fn is_watched(m: u16) -> (r: bool)
    ensures
        r == watched().contains(m),
{
    let r = m == 1 || m == 25 || m == 47 || m == 1000 || m == 1002 || m == 1003 || m == 1004 || m
        == 1005 || m == 1006 || m == 1015 || m == 1016 || m == 1047 || m == 1049 || m == 2004 || m
        == 2026;
    proof {
        let t = watched();
        assert(t[0] == 1 && t[1] == 1000 && t[2] == 1002 && t[3] == 1003 && t[4] == 1004 && t[5]
            == 1005 && t[6] == 1006 && t[7] == 1015 && t[8] == 1016 && t[9] == 2004 && t[10] == 2026
            && t[11] == 1049 && t[12] == 1047 && t[13] == 47 && t[14] == 25);
        if t.contains(m) {
            let i = choose|i: int| 0 <= i < t.len() && t[i] == m;
            assert(t.len() == 15);
        }
    }
    r
}

/// The numbers of a parameter list.
fn parse_nums(s: &[u8]) -> (r: Vec<u64>)
    ensures
        r@.len() == nums(s@).len(),
        r.len() >= 1,
        forall|i: int| 0 <= i < r@.len() ==> #[trigger] r@[i] == nums(s@)[i],
{
    let text = chars_of_bytes(s);
    let fields = split_at_char(text.as_slice(), ';');
    let ghost want = nums(s@);
    let mut r: Vec<u64> = Vec::new();
    assert(views(fields@).len() == fields@.len());
    for i in 0..fields.len()
        invariant
            text@ == byte_chars(s@),
            views(fields@) == split(text@, ';'),
            want == nums(s@),
            r.len() == i,
            forall|k: int| 0 <= k < i ==> #[trigger] r@[k] == want[k],
    {
        assert(views(fields@)[i as int] == fields@[i as int]@);
        let n: u64 = match parse_uint(fields[i].as_slice(), 0xffff_ffff) {
            Some(n) => n,
            None => 0,
        };
        r.push(n);
    }
    r
}

impl ModeObserver {
    pub closed spec fn wf(&self) -> bool {
        &&& reachable(self@.at)
        &&& self.dec@.no_duplicates()
        &&& forall|i: int| 0 <= i < self.dec@.len() ==> watched().contains(#[trigger] self.dec@[i])
    }

    pub fn new() -> (o: ModeObserver)
        ensures
            o.wf(),
            o@ == (ModesView { modes: clean(), at: start() }),
    {
        ModeObserver::default()
    }

    /// Forgets everything, e.g. after a fresh attach where the local terminal
    /// was cleared.
    pub fn clear(&mut self)
        ensures
            final(self).wf(),
            final(self)@ == (ModesView { modes: clean(), at: start() }),
    {
        *self = ModeObserver::default();
    }

    /// Forgets where the stream was but keeps the modes, after a resume that
    /// skipped output (a gap): the program is the same and still in its modes,
    /// but the next byte may start anywhere.
    pub fn resync(&mut self)
        requires
            old(self).wf(),
        ensures
            final(self).wf(),
            final(self)@ == (ModesView { modes: old(self)@.modes, at: start() }),
    {
        self.lex = Lex::Ground;
        self.seq.clear();
        self.seq_full = false;
        self.utf8_left = 0;
        self.utf8.clear();
    }

    /// True when the terminal is believed to be in its default state.
    pub fn is_clean(&self) -> (r: bool)
        requires
            self.wf(),
        ensures
            r == (self@.modes == clean()),
    {
        proof {
            if self.dec@.len() > 0 {
                assert(self.dec@.to_set().contains(self.dec@[0]));
            } else {
                assert(self.dec@.to_set() =~= Set::<u16>::empty());
            }
        }
        self.dec.len() == 0 && self.kitty_depth == 0 && !self.kitty_set && !self.modify_other_keys
            && !self.keypad_app && !self.scroll_region
    }

    /// Whether mode `m` is away from its default.
    fn has(&self, m: u16) -> (r: bool)
        ensures
            r == self@.modes.dec.contains(m),
    {
        for i in 0..self.dec.len()
            invariant
                forall|k: int| 0 <= k < i ==> self.dec@[k] != m,
        {
            if self.dec[i] == m {
                assert(self.dec@.to_set().contains(self.dec@[i as int]));
                return true;
            }
        }
        false
    }

    fn set_mode(&mut self, m: u16, on: bool)
        requires
            old(self).wf(),
            watched().contains(m),
        ensures
            final(self).wf(),
            final(self)@ == (ModesView {
                modes: Modes {
                    dec: if on {
                        old(self)@.modes.dec.insert(m)
                    } else {
                        old(self)@.modes.dec.remove(m)
                    },
                    ..old(self)@.modes
                },
                ..old(self)@
            }),
    {
        let ghost before = self.dec@;
        let mut i: usize = 0;
        while i < self.dec.len()
            invariant
                i <= self.dec.len(),
                *self == *old(self),
                self.wf(),
                before == self.dec@,
                forall|k: int| 0 <= k < i ==> self.dec@[k] != m,
            decreases self.dec.len() - i,
        {
            if self.dec[i] == m {
                assert(before.to_set().contains(before[i as int]));
                if !on {
                    self.dec.remove(i);
                    proof {
                        let after = self.dec@;
                        assert(after == before.remove(i as int));
                        assert forall|x: u16| after.contains(x) <==> (before.contains(x) && x != m) by {
                            if after.contains(x) {
                                let k = choose|k: int| 0 <= k < after.len() && after[k] == x;
                                if k < i {
                                    assert(before[k] == x);
                                } else {
                                    assert(before[k + 1] == x);
                                }
                            }
                            if before.contains(x) && x != m {
                                let k = choose|k: int| 0 <= k < before.len() && before[k] == x;
                                if k < i {
                                    assert(after[k] == x);
                                } else {
                                    assert(after[k - 1] == x);
                                }
                            }
                        }
                        assert(after.to_set() =~= before.to_set().remove(m));
                        assert forall|k: int| 0 <= k < after.len() implies watched().contains(
                            #[trigger] after[k],
                        ) by {
                            assert(after.contains(after[k]));
                            let j = choose|j: int| 0 <= j < before.len() && before[j] == after[k];
                        }
                    }
                } else {
                    assert(before.to_set().insert(m) =~= before.to_set());
                }
                return;
            }
            i = i + 1;
        }
        assert(!before.to_set().contains(m));
        if on {
            self.dec.push(m);
            proof {
                let after = self.dec@;
                assert forall|x: u16| after.contains(x) <==> (before.contains(x) || x == m) by {
                    if before.contains(x) {
                        let k = choose|k: int| 0 <= k < before.len() && before[k] == x;
                        assert(after[k] == x);
                    }
                    assert(after[before.len() as int] == m);
                }
                assert(after.to_set() =~= before.to_set().insert(m));
            }
        } else {
            assert(before.to_set().remove(m) =~= before.to_set());
        }
    }

    fn switch(&mut self, ms: &Vec<u64>, on: bool, Ghost(want): Ghost<Seq<nat>>)
        requires
            old(self).wf(),
            want.len() == ms.len(),
            forall|i: int| 0 <= i < ms@.len() ==> #[trigger] ms@[i] == want[i],
        ensures
            final(self).wf(),
            final(self)@ == (ModesView {
                modes: Modes {
                    dec: switched(old(self)@.modes.dec, want, on),
                    ..old(self)@.modes
                },
                ..old(self)@
            }),
    {
        let mut i: usize = 0;
        assert(want.skip(0) =~= want);
        while i < ms.len()
            invariant
                i <= ms.len(),
                self.wf(),
                want.len() == ms.len(),
                forall|i: int| 0 <= i < ms@.len() ==> #[trigger] ms@[i] == want[i],
                self@.at == old(self)@.at,
                self@.modes == (Modes { dec: self@.modes.dec, ..old(self)@.modes }),
                switched(self@.modes.dec, want.skip(i as int), on) == switched(
                    old(self)@.modes.dec,
                    want,
                    on,
                ),
            decreases ms.len() - i,
        {
            let m: u64 = ms[i];
            assert(want.skip(i as int)[0] == m);
            assert(want.skip(i as int).skip(1) =~= want.skip(i + 1));
            if m <= 0xffff && is_watched(m as u16) {
                self.set_mode(m as u16, on != (m == 25));
            }
            i = i + 1;
        }
        assert(want.skip(i as int).len() == 0);
    }

    /// A complete control sequence.
    fn csi(&mut self, body: &[u8], fin: u8)
        requires
            old(self).wf(),
        ensures
            final(self).wf(),
            final(self)@ == (ModesView {
                modes: csi(old(self)@.modes, body@, fin),
                at: old(self)@.at,
            }),
    {
        let n: usize = body.len();
        if n == 0 {
            if fin == 0x72 {
                let p = parse_nums(body);
                let ghost want = nums(body@);
                assert(byte_chars(body@) =~= Seq::empty());
                assert(want.len() == 1 && want[0] == 0) by {
                    assert(split(byte_chars(body@), ';') =~= seq![byte_chars(body@)]);
                    assert(parsed_max(byte_chars(body@), u32::MAX as nat) is None);
                }
                self.scroll_region = false;
            }
            return;
        }
        let args = sub_vec(body, 1, n);
        assert(args@ =~= body@.skip(1));
        let first = body[0];
        if first == 0x3f && (fin == 0x68 || fin == 0x6c) {
            let p = parse_nums(args.as_slice());
            self.switch(&p, fin == 0x68, Ghost(nums(args@)));
        } else if first == 0x3e && fin == 0x75 {
            if self.kitty_depth < u32::MAX {
                self.kitty_depth = self.kitty_depth + 1;
            }
        } else if first == 0x3c && fin == 0x75 {
            let text = chars_of_bytes(args.as_slice());
            let mut k: u64 = match parse_uint(text.as_slice(), 0xffff_ffff) {
                Some(k) => k,
                None => 1,
            };
            if k == 0 {
                k = 1;
            }
            if self.kitty_depth as u64 >= k {
                self.kitty_depth = self.kitty_depth - k as u32;
            } else {
                self.kitty_depth = 0;
            }
        } else if first == 0x3d && fin == 0x75 {
            let p = parse_nums(args.as_slice());
            if self.kitty_depth == 0 {
                self.kitty_set = p[0] != 0;
            }
        } else if first == 0x3e && fin == 0x6d {
            let p = parse_nums(args.as_slice());
            if p[0] == 4 {
                self.modify_other_keys = p.len() > 1 && p[1] != 0;
            }
        } else if fin == 0x72 && ((first >= 0x30 && first <= 0x39) || first == 0x3b) {
            let p = parse_nums(body);
            let ghost want = nums(body@);
            let mut set = false;
            for i in 0..p.len()
                invariant
                    want == nums(body@),
                    p@.len() == want.len(),
                    forall|k: int| 0 <= k < p@.len() ==> #[trigger] p@[k] == want[k],
                    set == exists|k: int| 0 <= k < i && #[trigger] want[k] != 0,
            {
                if p[i] != 0 {
                    assert(want[i as int] != 0);
                    set = true;
                }
            }
            self.scroll_region = set;
        }
    }

    fn step(&mut self, b: u8)
        requires
            old(self).wf(),
        ensures
            final(self).wf(),
            final(self)@ == step(old(self)@, b),
    {
        match self.lex {
            Lex::Ground => {
                if b >= 0x80 && b <= 0xbf {
                    if self.utf8_left > 0 {
                        self.utf8.push(b);
                        self.utf8_left = self.utf8_left - 1;
                    }
                } else if b >= 0xc2 && b <= 0xf4 {
                    self.utf8_left = if b <= 0xdf {
                        1
                    } else if b <= 0xef {
                        2
                    } else {
                        3
                    };
                    self.utf8 = vec![b];
                    assert(self.utf8@ =~= seq![b]);
                } else {
                    self.utf8_left = 0;
                }
                if b == 0x1b {
                    self.seq.clear();
                    self.seq_full = false;
                    self.lex = Lex::Esc;
                }
            },
            Lex::Esc => {
                if b == 0x5b {
                    self.lex = Lex::Csi;
                } else if b == 0x5d || b == 0x50 || b == 0x5f || b == 0x5e || b == 0x58 {
                    self.lex = Lex::Str { esc: false };
                } else if b == 0x3d {
                    self.keypad_app = true;
                    self.lex = Lex::Ground;
                } else if b == 0x3e {
                    self.keypad_app = false;
                    self.lex = Lex::Ground;
                } else if b == 0x63 {
                    // RIS: full reset.
                    self.clear();
                } else if b != 0x1b {
                    self.lex = Lex::Ground;
                }
            },
            Lex::Csi => {
                if b >= 0x20 && b <= 0x3f {
                    if self.seq.len() < MAX_PARAMS {
                        self.seq.push(b);
                    } else {
                        self.seq_full = true;
                    }
                } else if b >= 0x40 && b <= 0x7e {
                    let mut body: Vec<u8> = Vec::new();
                    std::mem::swap(&mut self.seq, &mut body);
                    self.seq_full = false;
                    self.lex = Lex::Ground;
                    self.csi(body.as_slice(), b);
                } else if b == 0x1b {
                    self.seq.clear();
                    self.seq_full = false;
                    self.lex = Lex::Esc;
                }
            },
            Lex::Str { esc } => {
                self.lex = if b == 7 || (esc && b == 0x5c) {
                    Lex::Ground
                } else {
                    Lex::Str { esc: b == 0x1b }
                };
            },
        }
    }

    /// The next bytes of the stream.
    pub fn observe(&mut self, bytes: &[u8])
        requires
            old(self).wf(),
        ensures
            final(self).wf(),
            final(self)@ == observed(old(self)@, bytes@),
    {
        for i in 0..bytes.len()
            invariant
                self.wf(),
                self@ == observed(old(self)@, bytes@.take(i as int)),
        {
            assert(bytes@.take(i + 1).drop_last() =~= bytes@.take(i as int));
            self.step(bytes[i]);
        }
        assert(bytes@.take(bytes@.len() as int) =~= bytes@);
    }

    /// True between sequences and characters: a byte written here (a BEL)
    /// cannot end an OSC/DCS string early or split a UTF-8 character.
    pub fn at_boundary(&self) -> (r: bool)
        ensures
            r == boundary(self@.at),
    {
        match self.lex {
            Lex::Ground => self.utf8_left == 0,
            _ => false,
        }
    }

    /// Observes `bytes` up to the first boundary ([`ModeObserver::at_boundary`]);
    /// returns how many were observed to get there (0 if already at one), or
    /// `None` when all of them were and none came.
    pub fn observe_to_boundary(&mut self, bytes: &[u8]) -> (r: Option<usize>)
        requires
            old(self).wf(),
        ensures
            final(self).wf(),
            match r {
                Some(n) => {
                    &&& n <= bytes@.len()
                    &&& final(self)@ == observed(old(self)@, bytes@.take(n as int))
                    &&& boundary(final(self)@.at)
                    &&& forall|k: int|
                        0 <= k < n ==> !boundary(
                            (#[trigger] observed(old(self)@, bytes@.take(k))).at,
                        )
                },
                None => {
                    &&& final(self)@ == observed(old(self)@, bytes@)
                    &&& forall|k: int|
                        0 <= k <= bytes@.len() ==> !boundary(
                            (#[trigger] observed(old(self)@, bytes@.take(k))).at,
                        )
                },
            },
    {
        let mut i: usize = 0;
        loop
            invariant
                i <= bytes.len(),
                self.wf(),
                self@ == observed(old(self)@, bytes@.take(i as int)),
                forall|k: int|
                    0 <= k < i ==> !boundary((#[trigger] observed(old(self)@, bytes@.take(k))).at),
            decreases bytes.len() - i,
        {
            if self.at_boundary() {
                return Some(i);
            }
            if i == bytes.len() {
                assert(bytes@.take(bytes@.len() as int) =~= bytes@);
                return None;
            }
            assert(bytes@.take(i + 1).drop_last() =~= bytes@.take(i as int));
            self.step(bytes[i]);
            i = i + 1;
        }
    }

    /// Bytes that end whatever the stream has left unfinished, for a write of
    /// acs's own that cannot wait for a boundary — the status line, the resets
    /// on the way out, the clear a reattach writes. Empty at a boundary.
    ///
    /// `ESC \` (ST) is the one answer that works for every state: it is the
    /// defined terminator of an OSC, DCS, APC, PM or SOS string, and its ESC
    /// alone cancels a half-written CSI or character.
    pub fn interrupt_sequence(&self) -> (v: Vec<u8>)
        ensures
            v@ == interruption(self@.at),
    {
        if self.at_boundary() {
            Vec::new()
        } else {
            let v: Vec<u8> = vec![0x1b, 0x5c];
            assert(v@ =~= seq![0x1bu8, 0x5c]);
            v
        }
    }

    /// Bytes that put the terminal back inside the sequence
    /// [`ModeObserver::interrupt_sequence`] ended, for a caller whose write is
    /// only passing through and whose stream carries on afterwards.
    ///
    /// `None` where that cannot be done faithfully: a string, whose body the
    /// terminal may already have acted on, or a CSI longer than what is kept.
    pub fn reopen_sequence(&self) -> (r: Option<Vec<u8>>)
        ensures
            match r {
                Some(v) => reopening(self@.at) == Some(v@),
                None => reopening(self@.at) is None,
            },
    {
        match self.lex {
            Lex::Ground => {
                if self.utf8_left == 0 {
                    Some(Vec::new())
                } else {
                    let v = sub_vec(self.utf8.as_slice(), 0, self.utf8.len());
                    assert(v@ =~= self.utf8@);
                    Some(v)
                }
            },
            Lex::Esc => {
                let v: Vec<u8> = vec![0x1b];
                assert(v@ =~= seq![0x1bu8]);
                Some(v)
            },
            Lex::Csi => {
                if self.seq_full {
                    None
                } else {
                    let mut v: Vec<u8> = vec![0x1b, 0x5b];
                    assert(v@ =~= seq![0x1bu8, 0x5b]);
                    put_bytes(&mut v, self.seq.as_slice());
                    Some(v)
                }
            },
            Lex::Str { .. } => None,
        }
    }

    /// Bytes that return the terminal to its defaults for every mode seen.
    /// Empty when nothing needs resetting.
    pub fn reset_sequence(&self) -> (out: Vec<u8>)
        requires
            self.wf(),
        ensures
            out@ == resets(self@.modes),
    {
        let mut out: Vec<u8> = Vec::new();
        if self.is_clean() {
            return out;
        }
        let ghost m = self@.modes;
        if self.kitty_depth > 0 {
            let head: [u8; 3] = [0x1b, 0x5b, 0x3c];
            put_bytes(&mut out, head.as_slice());
            put_dec(&mut out, self.kitty_depth as u64);
            out.push(0x75);
            assert(out@ =~= pop_kitty(m.kitty_depth));
        }
        let ghost t1 = only_if(m.kitty_depth > 0, pop_kitty(m.kitty_depth));
        assert(out@ =~= t1);
        if self.kitty_set {
            let s: [u8; 7] = [0x1b, 0x5b, 0x3d, 0x30, 0x3b, 0x31, 0x75];
            put_bytes(&mut out, s.as_slice());
            assert(s@ =~= no_kitty());
        }
        let ghost t2 = t1 + only_if(m.kitty_set, no_kitty());
        assert(out@ =~= t2);
        if self.modify_other_keys {
            let s: [u8; 7] = [0x1b, 0x5b, 0x3e, 0x34, 0x3b, 0x30, 0x6d];
            put_bytes(&mut out, s.as_slice());
            assert(s@ =~= no_modify());
        }
        let ghost t3 = t2 + only_if(m.modify_other_keys, no_modify());
        assert(out@ =~= t3);
        if self.keypad_app {
            let s: [u8; 2] = [0x1b, 0x3e];
            put_bytes(&mut out, s.as_slice());
            assert(s@ =~= no_keypad());
        }
        let ghost t4 = t3 + only_if(m.keypad_app, no_keypad());
        assert(out@ =~= t4);
        if self.scroll_region {
            let s: [u8; 3] = [0x1b, 0x5b, 0x72];
            put_bytes(&mut out, s.as_slice());
            assert(s@ =~= no_region());
        }
        let ghost t5 = t4 + only_if(m.scroll_region, no_region());
        assert(out@ =~= t5);
        let order: [u16; 15] = [
            1,
            1000,
            1002,
            1003,
            1004,
            1005,
            1006,
            1015,
            1016,
            2004,
            2026,
            1049,
            1047,
            47,
            25,
        ];
        assert(order@ =~= watched());
        assert(out@ =~= t5 + restores(order@.take(0), m.dec));
        for i in 0..15usize
            invariant
                order@.len() == 15,
                m == self@.modes,
                out@ == t5 + restores(order@.take(i as int), m.dec),
        {
            let x = order[i];
            assert(order@.take(i + 1).drop_last() =~= order@.take(i as int));
            if self.has(x) {
                let ghost before = out@;
                let head: [u8; 3] = [0x1b, 0x5b, 0x3f];
                put_bytes(&mut out, head.as_slice());
                put_dec(&mut out, x as u64);
                out.push(
                    if x == 25 {
                        0x68
                    } else {
                        0x6c
                    },
                );
                assert(out@ =~= before + restore(x));
                assert(out@ =~= t5 + (restores(order@.take(i as int), m.dec) + restore(x)));
            }
        }
        assert(order@.take(15) =~= watched());
        let s: [u8; 4] = [0x1b, 0x5b, 0x30, 0x6d];
        put_bytes(&mut out, s.as_slice());
        assert(s@ =~= plain_text());
        assert(m != clean());
        out
    }
}

} // verus!
