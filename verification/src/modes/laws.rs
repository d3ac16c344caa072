//! What the observer promises: the stream may be cut anywhere, an interrupted
//! sequence can be left and entered again, and the resets reset everything.

use super::{
    boundary, clean, continuations, csi, default_on, interruption, no_keypad, no_kitty, no_modify,
    no_region, nums, observed, only_if, plain_text, pop_kitty, reachable, reopening, resets,
    restore, restores, step, switched, watched, Lex, Modes, ModesView, Place, MAX_PARAMS,
};
use crate::text::{all_digits, byte_chars, digits_value, is_digit, parsed_max, split};
use crate::wire::{dec_bytes, lemma_dec_bytes};
use vstd::prelude::*;

verus! {

/// Where a stream is cut makes no difference.
pub proof fn law_observing_in_pieces(v: ModesView, a: Seq<u8>, b: Seq<u8>)
    ensures
        observed(v, a + b) == observed(observed(v, a), b),
    decreases b.len(),
{
    if b.len() == 0 {
        assert(a + b =~= a);
    } else {
        law_observing_in_pieces(v, a, b.drop_last());
        assert((a + b).drop_last() =~= a + b.drop_last());
    }
}

/// A stream only ever is at a reachable place.
pub proof fn law_places_are_reachable(v: ModesView, bytes: Seq<u8>)
    requires
        reachable(v.at),
    ensures
        reachable(observed(v, bytes).at),
    decreases bytes.len(),
{
    if bytes.len() > 0 {
        law_places_are_reachable(v, bytes.drop_last());
    }
}

/// Only modes that are worth resetting are ever remembered.
pub proof fn law_only_watched_modes(v: ModesView, bytes: Seq<u8>)
    requires
        forall|m: u16| v.modes.dec.contains(m) ==> #[trigger] watched().contains(m),
    ensures
        forall|m: u16|
            observed(v, bytes).modes.dec.contains(m) ==> #[trigger] watched().contains(m),
    decreases bytes.len(),
{
    if bytes.len() > 0 {
        let w = observed(v, bytes.drop_last());
        law_only_watched_modes(v, bytes.drop_last());
        if w.at.lex is Csi {
            lemma_switched_watched(w.modes.dec, nums(w.at.seq.skip(1)), bytes.last() == 0x68);
        }
    }
}

proof fn lemma_switched_watched(dec: Set<u16>, ms: Seq<nat>, on: bool)
    requires
        forall|m: u16| dec.contains(m) ==> #[trigger] watched().contains(m),
    ensures
        forall|m: u16| switched(dec, ms, on).contains(m) ==> #[trigger] watched().contains(m),
    decreases ms.len(),
{
    if ms.len() > 0 {
        let m = ms[0];
        let next = if m <= u16::MAX && watched().contains(m as u16) {
            if on == default_on(m as u16) {
                dec.remove(m as u16)
            } else {
                dec.insert(m as u16)
            }
        } else {
            dec
        };
        lemma_switched_watched(next, ms.skip(1), on);
    }
}

proof fn lemma_two(v: ModesView, a: u8, b: u8)
    ensures
        observed(v, seq![a, b]) == step(step(v, a), b),
{
    let s = seq![a, b];
    assert(s.drop_last() =~= seq![a]);
    assert(seq![a].drop_last() =~= Seq::empty());
    reveal_with_fuel(observed, 3);
}

proof fn lemma_one(v: ModesView, a: u8)
    ensures
        observed(v, seq![a]) == step(v, a),
{
    assert(seq![a].drop_last() =~= Seq::empty());
    reveal_with_fuel(observed, 2);
}

/// Writing the interruption brings the terminal to a boundary, whatever the
/// stream was in the middle of, and switches no mode.
pub proof fn law_interruption_reaches_a_boundary(v: ModesView)
    requires
        reachable(v.at),
    ensures
        boundary(observed(v, interruption(v.at)).at),
        observed(v, interruption(v.at)).modes == v.modes,
{
    if !boundary(v.at) {
        lemma_two(v, 0x1b, 0x5c);
    }
}

proof fn lemma_params_seen(v: ModesView, body: Seq<u8>)
    requires
        v.at.lex is Csi,
        v.at.seq.len() == 0,
        body.len() <= MAX_PARAMS,
        forall|i: int| 0 <= i < body.len() ==> 0x20 <= #[trigger] body[i] <= 0x3f,
    ensures
        observed(v, body) == (ModesView { at: Place { seq: body, ..v.at }, ..v }),
    decreases body.len(),
{
    if body.len() == 0 {
        assert(v.at.seq =~= body);
    } else {
        lemma_params_seen(v, body.drop_last());
        assert(body.last() == body[body.len() - 1]);
        assert(body.drop_last().push(body.last()) =~= body);
    }
}

proof fn lemma_rest_of_char(v: ModesView, left: u8, bytes: Seq<u8>)
    requires
        v.at.lex is Ground,
        v.at.utf8_left == left,
        bytes.len() <= left,
        forall|i: int| 0 <= i < bytes.len() ==> 0x80 <= #[trigger] bytes[i] <= 0xbf,
    ensures
        observed(v, bytes) == (ModesView {
            at: Place {
                utf8: v.at.utf8 + bytes,
                utf8_left: (left - bytes.len()) as u8,
                ..v.at
            },
            ..v
        }),
    decreases bytes.len(),
{
    if bytes.len() == 0 {
        assert(v.at.utf8 + bytes =~= v.at.utf8);
    } else {
        lemma_rest_of_char(v, left, bytes.drop_last());
        assert(bytes.last() == bytes[bytes.len() - 1]);
        assert((v.at.utf8 + bytes.drop_last()).push(bytes.last()) =~= v.at.utf8 + bytes);
    }
}

/// After the interruption, the reopening puts the stream back exactly where
/// it was, wherever there is one.
pub proof fn law_reopening_gives_back(v: ModesView)
    requires
        reachable(v.at),
        reopening(v.at) is Some,
    ensures
        observed(observed(v, interruption(v.at)), reopening(v.at)->0) == v,
{
    let p = v.at;
    let w = observed(v, interruption(p));
    if boundary(p) {
    } else {
        lemma_two(v, 0x1b, 0x5c);
        let back = reopening(p)->0;
        match p.lex {
            Lex::Ground => {
                let tail = back.skip(1);
                assert(back =~= seq![back[0]] + tail);
                law_observing_in_pieces(w, seq![back[0]], tail);
                lemma_one(w, back[0]);
                let x = step(w, back[0]);
                assert forall|i: int| 0 <= i < tail.len() implies 0x80 <= #[trigger] tail[i]
                    <= 0xbf by {
                    assert(tail[i] == p.utf8[i + 1]);
                }
                lemma_rest_of_char(x, continuations(back[0]), tail);
                assert(seq![back[0]] + tail =~= p.utf8);
                assert(p.seq =~= Seq::empty());
            },
            Lex::Esc => {
                lemma_one(w, 0x1b);
                assert(p.seq =~= Seq::empty());
            },
            Lex::Csi => {
                let head = seq![0x1bu8, 0x5b];
                law_observing_in_pieces(w, head, p.seq);
                lemma_two(w, 0x1b, 0x5b);
                lemma_params_seen(observed(w, head), p.seq);
            },
            Lex::Str { .. } => {},
        }
    }
}

// ---- the resets ------------------------------------------------------------

proof fn lemma_csi_seen(v: ModesView, body: Seq<u8>, fin: u8)
    requires
        reachable(v.at),
        boundary(v.at),
        body.len() <= MAX_PARAMS,
        forall|i: int| 0 <= i < body.len() ==> 0x20 <= #[trigger] body[i] <= 0x3f,
        0x40 <= fin <= 0x7e,
    ensures
        observed(v, seq![0x1bu8, 0x5b] + body + seq![fin]) == (ModesView {
            modes: csi(v.modes, body, fin),
            at: v.at,
        }),
{
    let head = seq![0x1bu8, 0x5b];
    law_observing_in_pieces(v, head + body, seq![fin]);
    law_observing_in_pieces(v, head, body);
    lemma_two(v, 0x1b, 0x5b);
    let w = observed(v, head);
    lemma_params_seen(w, body);
    lemma_one(observed(w, body), fin);
    assert(v.at.seq =~= Seq::empty());
}

proof fn lemma_digits_parse(n: nat)
    requires
        n <= u32::MAX,
    ensures
        parsed_max(byte_chars(dec_bytes(n)), u32::MAX as nat) == Some(n),
        split(byte_chars(dec_bytes(n)), ';') == seq![byte_chars(dec_bytes(n))],
        nums(dec_bytes(n)) == seq![n],
{
    lemma_dec_bytes(n);
    let s = byte_chars(dec_bytes(n));
    assert(is_digit(s[0]));
    lemma_no_cut(s);
    assert(nums(dec_bytes(n)) =~= seq![n]);
}

proof fn lemma_no_cut(s: Seq<char>)
    requires
        all_digits(s),
    ensures
        split(s, ';') == seq![s],
    decreases s.len(),
{
    if s.len() > 0 {
        assert(is_digit(s.last()));
        assert(all_digits(s.drop_last())) by {
            assert forall|i: int| 0 <= i < s.drop_last().len() implies is_digit(
                #[trigger] s.drop_last()[i],
            ) by {
                assert(is_digit(s[i]));
            }
        }
        lemma_no_cut(s.drop_last());
        let before = seq![s.drop_last()];
        assert(before.drop_last() =~= Seq::empty());
        assert(before.last().push(s.last()) =~= s);
        assert(split(s, ';') =~= seq![s]);
    }
}

proof fn lemma_restore_seen(v: ModesView, m: u16)
    requires
        reachable(v.at),
        boundary(v.at),
        watched().contains(m),
    ensures
        observed(v, restore(m)) == (ModesView {
            modes: Modes { dec: v.modes.dec.remove(m), ..v.modes },
            at: v.at,
        }),
{
    let body = seq![0x3fu8] + dec_bytes(m as nat);
    let fin: u8 = if default_on(m) {
        0x68
    } else {
        0x6c
    };
    lemma_dec_bytes(m as nat);
    assert(restore(m) =~= seq![0x1bu8, 0x5b] + body + seq![fin]);
    assert forall|i: int| 0 <= i < body.len() implies 0x20 <= #[trigger] body[i] <= 0x3f by {
        if i > 0 {
            assert(body[i] == dec_bytes(m as nat)[i - 1]);
        }
    }
    lemma_csi_seen(v, body, fin);
    assert(body.skip(1) =~= dec_bytes(m as nat));
    lemma_digits_parse(m as nat);
    let ms = seq![m as nat];
    assert(ms.skip(1).len() == 0);
    reveal_with_fuel(switched, 2);
    assert(csi(v.modes, body, fin).dec == v.modes.dec.remove(m));
}

proof fn lemma_restores_seen(v: ModesView, order: Seq<u16>, dec: Set<u16>)
    requires
        reachable(v.at),
        boundary(v.at),
        v.modes.dec == dec,
        forall|i: int| 0 <= i < order.len() ==> watched().contains(#[trigger] order[i]),
    ensures
        observed(v, restores(order, dec)) == (ModesView {
            modes: Modes { dec: dec.difference(order.to_set()), ..v.modes },
            at: v.at,
        }),
    decreases order.len(),
{
    if order.len() == 0 {
        assert(dec.difference(order.to_set()) =~= dec);
    } else {
        let most = order.drop_last();
        let m = order.last();
        assert(order[order.len() - 1] == m);
        assert forall|i: int| 0 <= i < most.len() implies watched().contains(#[trigger] most[i]) by {
            assert(most[i] == order[i]);
        }
        lemma_restores_seen(v, most, dec);
        let w = observed(v, restores(most, dec));
        assert forall|x: u16| order.to_set().contains(x) <==> (most.to_set().contains(x) || x == m) by {
            assert(order =~= most.push(m));
            if most.contains(x) {
                let i = choose|i: int| 0 <= i < most.len() && most[i] == x;
                assert(order[i] == x);
            }
            if order.contains(x) && x != m {
                let i = choose|i: int| 0 <= i < order.len() && order[i] == x;
                assert(most[i] == x);
            }
        }
        if dec.contains(m) {
            law_observing_in_pieces(v, restores(most, dec), restore(m));
            lemma_restore_seen(w, m);
            assert(dec.difference(most.to_set()).remove(m) =~= dec.difference(order.to_set()));
        } else {
            assert(dec.difference(most.to_set()) =~= dec.difference(order.to_set()));
        }
    }
}

proof fn lemma_pop_kitty_seen(v: ModesView)
    requires
        reachable(v.at),
        boundary(v.at),
    ensures
        observed(v, only_if(v.modes.kitty_depth > 0, pop_kitty(v.modes.kitty_depth))) == (
        ModesView { modes: Modes { kitty_depth: 0, ..v.modes }, at: v.at }),
{
    let n = v.modes.kitty_depth;
    if n > 0 {
        let body = seq![0x3cu8] + dec_bytes(n as nat);
        lemma_dec_bytes(n as nat);
        assert(pop_kitty(n) =~= seq![0x1bu8, 0x5b] + body + seq![0x75u8]);
        assert forall|i: int| 0 <= i < body.len() implies 0x20 <= #[trigger] body[i] <= 0x3f by {
            if i > 0 {
                assert(body[i] == dec_bytes(n as nat)[i - 1]);
            }
        }
        lemma_csi_seen(v, body, 0x75);
        assert(body.skip(1) =~= dec_bytes(n as nat));
        lemma_digits_parse(n as nat);
    }
}

proof fn lemma_pair(a: u8, b: u8)
    requires
        48 <= a <= 57,
        48 <= b <= 57,
    ensures
        nums(seq![a, 0x3bu8, b]) == seq![(a - 48) as nat, (b - 48) as nat],
{
    let s = byte_chars(seq![a, 0x3bu8, b]);
    let (x, y) = (a as char, b as char);
    assert(s =~= seq![x, ';', y]);
    assert(s.drop_last() =~= seq![x, ';']);
    assert(seq![x, ';'].drop_last() =~= seq![x]);
    lemma_one_digit(x);
    lemma_one_digit(y);
    lemma_no_cut(seq![x]);
    assert(split(seq![x, ';'], ';') =~= seq![seq![x], Seq::empty()]);
    let two = seq![seq![x], Seq::<char>::empty()];
    assert(two.last() =~= Seq::empty());
    assert(two.drop_last() =~= seq![seq![x]]);
    assert(two.last().push(y) =~= seq![y]);
    assert(split(s, ';') =~= seq![seq![x], seq![y]]);
    assert(nums(seq![a, 0x3bu8, b]) =~= seq![(a - 48) as nat, (b - 48) as nat]);
}

proof fn lemma_one_digit(x: char)
    requires
        is_digit(x),
    ensures
        all_digits(seq![x]),
        parsed_max(seq![x], u32::MAX as nat) == Some((x as u32 - 48) as nat),
{
    assert(seq![x].drop_last() =~= Seq::empty());
    assert(seq![x].last() == x);
    reveal_with_fuel(digits_value, 2);
}

proof fn lemma_no_kitty_seen(v: ModesView)
    requires
        reachable(v.at),
        boundary(v.at),
        v.modes.kitty_depth == 0,
    ensures
        observed(v, only_if(v.modes.kitty_set, no_kitty())) == (ModesView {
            modes: Modes { kitty_set: false, ..v.modes },
            at: v.at,
        }),
{
    if v.modes.kitty_set {
        let body = seq![0x3du8, 0x30, 0x3b, 0x31];
        assert(no_kitty() =~= seq![0x1bu8, 0x5b] + body + seq![0x75u8]);
        lemma_csi_seen(v, body, 0x75);
        assert(body.skip(1) =~= seq![0x30u8, 0x3b, 0x31]);
        lemma_pair(0x30, 0x31);
    }
}

proof fn lemma_no_modify_seen(v: ModesView)
    requires
        reachable(v.at),
        boundary(v.at),
    ensures
        observed(v, only_if(v.modes.modify_other_keys, no_modify())) == (ModesView {
            modes: Modes { modify_other_keys: false, ..v.modes },
            at: v.at,
        }),
{
    if v.modes.modify_other_keys {
        let body = seq![0x3eu8, 0x34, 0x3b, 0x30];
        assert(no_modify() =~= seq![0x1bu8, 0x5b] + body + seq![0x6du8]);
        lemma_csi_seen(v, body, 0x6d);
        assert(body.skip(1) =~= seq![0x34u8, 0x3b, 0x30]);
        lemma_pair(0x34, 0x30);
    }
}

proof fn lemma_no_keypad_seen(v: ModesView)
    requires
        reachable(v.at),
        boundary(v.at),
    ensures
        observed(v, only_if(v.modes.keypad_app, no_keypad())) == (ModesView {
            modes: Modes { keypad_app: false, ..v.modes },
            at: v.at,
        }),
{
    if v.modes.keypad_app {
        lemma_two(v, 0x1b, 0x3e);
        assert(v.at.seq =~= Seq::empty());
    }
}

proof fn lemma_no_region_seen(v: ModesView)
    requires
        reachable(v.at),
        boundary(v.at),
    ensures
        observed(v, only_if(v.modes.scroll_region, no_region())) == (ModesView {
            modes: Modes { scroll_region: false, ..v.modes },
            at: v.at,
        }),
{
    if v.modes.scroll_region {
        let body = Seq::<u8>::empty();
        assert(no_region() =~= seq![0x1bu8, 0x5b] + body + seq![0x72u8]);
        lemma_csi_seen(v, body, 0x72);
        assert(byte_chars(body) =~= Seq::empty());
        assert(split(byte_chars(body), ';') =~= seq![byte_chars(body)]);
        assert(nums(body) =~= seq![0nat]);
    }
}

proof fn lemma_plain_text_seen(v: ModesView)
    requires
        reachable(v.at),
        boundary(v.at),
    ensures
        observed(v, plain_text()) == v,
{
    let body = seq![0x30u8];
    assert(plain_text() =~= seq![0x1bu8, 0x5b] + body + seq![0x6du8]);
    lemma_csi_seen(v, body, 0x6d);
}

/// Written at a boundary, the resets leave a terminal with every mode at its
/// default, and at a boundary again.
pub proof fn law_resets_reset_everything(v: ModesView)
    requires
        reachable(v.at),
        boundary(v.at),
        forall|m: u16| v.modes.dec.contains(m) ==> #[trigger] watched().contains(m),
    ensures
        observed(v, resets(v.modes)) == (ModesView { modes: clean(), at: v.at }),
{
    let m = v.modes;
    if m != clean() {
        let p1 = only_if(m.kitty_depth > 0, pop_kitty(m.kitty_depth));
        let p2 = only_if(m.kitty_set, no_kitty());
        let p3 = only_if(m.modify_other_keys, no_modify());
        let p4 = only_if(m.keypad_app, no_keypad());
        let p5 = only_if(m.scroll_region, no_region());
        let p6 = restores(watched(), m.dec);
        let p7 = plain_text();
        law_observing_in_pieces(v, p1, p2);
        law_observing_in_pieces(v, p1 + p2, p3);
        law_observing_in_pieces(v, p1 + p2 + p3, p4);
        law_observing_in_pieces(v, p1 + p2 + p3 + p4, p5);
        law_observing_in_pieces(v, p1 + p2 + p3 + p4 + p5, p6);
        law_observing_in_pieces(v, p1 + p2 + p3 + p4 + p5 + p6, p7);
        lemma_pop_kitty_seen(v);
        let v1 = observed(v, p1);
        lemma_no_kitty_seen(v1);
        let v2 = observed(v1, p2);
        lemma_no_modify_seen(v2);
        let v3 = observed(v2, p3);
        lemma_no_keypad_seen(v3);
        let v4 = observed(v3, p4);
        lemma_no_region_seen(v4);
        let v5 = observed(v4, p5);
        assert forall|i: int| 0 <= i < watched().len() implies watched().contains(
            #[trigger] watched()[i],
        ) by {}
        lemma_restores_seen(v5, watched(), m.dec);
        let v6 = observed(v5, p6);
        assert(m.dec.difference(watched().to_set()) =~= Set::<u16>::empty());
        lemma_plain_text_seen(v6);
    }
}

/// Nothing is written for a terminal that is in its default state, and
/// something for every other.
pub proof fn law_clean_needs_no_reset(m: Modes)
    ensures
        resets(m).len() == 0 <==> m == clean(),
{
}

/// What a program may have switched on is all looked after: the mouse, focus and paste
/// reports, the cursor keys, held-back output, the other screens and the cursor; each once,
/// the screens behind the rest so that the rest is undone on the screen they leave, and the
/// cursor last.
pub proof fn law_every_mode_is_looked_after()
    ensures
        watched().contains(1),
        watched().contains(1000),
        watched().contains(1002),
        watched().contains(1003),
        watched().contains(1004),
        watched().contains(1005),
        watched().contains(1006),
        watched().contains(1015),
        watched().contains(1016),
        watched().contains(2004),
        watched().contains(2026),
        watched().contains(1049),
        watched().contains(1047),
        watched().contains(47),
        watched().last() == 25,
        watched().no_duplicates(),
        forall|i: int, k: int|
            0 <= i < k < watched().len() && (watched()[i] == 1049 || watched()[i] == 1047
                || watched()[i] == 47) ==> (#[trigger] watched()[i] == 1049 || watched()[i] == 1047
                || watched()[i] == 47) && (#[trigger] watched()[k] == 1047 || watched()[k] == 47
                || watched()[k] == 25),
{
    let w = watched();
    assert(w[0] == 1 && w[1] == 1000 && w[2] == 1002 && w[3] == 1003 && w[4] == 1004 && w[5]
        == 1005 && w[6] == 1006 && w[7] == 1015 && w[8] == 1016 && w[9] == 2004 && w[10] == 2026
        && w[11] == 1049 && w[12] == 1047 && w[13] == 47 && w[14] == 25 && w.len() == 15);
}

/// A mode that the program switches is remembered as it then stands: as one to be undone
/// exactly where it is not at its default, which is on for the cursor and off for every
/// other; no other mode is taken to have changed.
pub proof fn law_a_switched_mode_is_remembered(v: ModesView, m: u16, on: bool)
    requires
        reachable(v.at),
        boundary(v.at),
        watched().contains(m),
    ensures
        ({
            let word = seq![0x1bu8, 0x5b, 0x3f] + dec_bytes(m as nat) + seq![if on {
                0x68u8
            } else {
                0x6c
            }];
            let after = observed(v, word);
            &&& after.modes.dec.contains(m) <==> on == (m != 25)
            &&& forall|k: u16|
                k != m ==> #[trigger] after.modes.dec.contains(k) == v.modes.dec.contains(k)
            &&& after.modes == (Modes { dec: after.modes.dec, ..v.modes })
            &&& after.at == v.at
        }),
{
    let body = seq![0x3fu8] + dec_bytes(m as nat);
    let fin: u8 = if on {
        0x68
    } else {
        0x6c
    };
    lemma_dec_bytes(m as nat);
    assert(seq![0x1bu8, 0x5b, 0x3f] + dec_bytes(m as nat) + seq![fin] =~= seq![0x1bu8, 0x5b] + body
        + seq![fin]);
    assert forall|i: int| 0 <= i < body.len() implies 0x20 <= #[trigger] body[i] <= 0x3f by {
        if i > 0 {
            assert(body[i] == dec_bytes(m as nat)[i - 1]);
        }
    }
    lemma_csi_seen(v, body, fin);
    assert(body.skip(1) =~= dec_bytes(m as nat));
    lemma_digits_parse(m as nat);
    let ms = seq![m as nat];
    assert(ms.skip(1).len() == 0);
    reveal_with_fuel(switched, 2);
    assert(csi(v.modes, body, fin).dec == switched(v.modes.dec, ms, on));
}

} // verus!
