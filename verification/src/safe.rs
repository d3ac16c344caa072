//! Text from elsewhere, made safe to print: a session name, an identity or a
//! message that a remote chose may not steer the terminal.

use crate::text::chars_of;
use vstd::prelude::*;

verus! {

/// Longest field of remote text that is printed.
pub const MAX_FIELD: usize = 256;

/// Whether `c` is a control character.
pub open spec fn is_control(c: char) -> bool {
    c <= '\u{1f}' || '\u{7f}' <= c <= '\u{9f}'
}

pub fn is_control_char(c: char) -> (r: bool)
    ensures
        r == is_control(c),
{
    c <= '\u{1f}' || (c >= '\u{7f}' && c <= '\u{9f}')
}

/// `c` as it is printed.
pub open spec fn shown_char(c: char) -> char {
    if is_control(c) {
        '?'
    } else {
        c
    }
}

/// The first `max` characters of `s`, with a `?` for each control character.
pub open spec fn displayed(s: Seq<char>, max: nat) -> Seq<char> {
    let n = if s.len() < max {
        s.len()
    } else {
        max
    };
    Seq::new(n, |i: int| shown_char(s[i]))
}

/// `s` with no control characters, cut to at most `max` characters.
pub fn display_max(s: &str, max: usize) -> (r: String)
    ensures
        r@ == displayed(s@, max as nat),
{
    let v = chars_of(s);
    let mut r = String::new();
    let mut i: usize = 0;
    while i < v.len() && i < max
        invariant
            i <= v.len(),
            i <= max,
            v@ == s@,
            r@ == displayed(s@, i as nat),
        decreases v.len() - i,
    {
        let c = v[i];
        if c <= '\u{1f}' || (c >= '\u{7f}' && c <= '\u{9f}') {
            r.push('?');
        } else {
            r.push(c);
        }
        i = i + 1;
        assert(r@ =~= displayed(s@, i as nat));
    }
    assert(r@ =~= displayed(s@, max as nat));
    r
}

/// What is printed holds no control character and is no longer than it may
/// be; text that is already so is printed as it is.
pub proof fn law_display_is_safe(s: Seq<char>, max: nat)
    ensures
        displayed(s, max).len() <= max,
        forall|i: int| 0 <= i < displayed(s, max).len() ==> !is_control(#[trigger] displayed(s, max)[i]),
        s.len() <= max && (forall|i: int| 0 <= i < s.len() ==> !is_control(#[trigger] s[i]))
            ==> displayed(s, max) == s,
{
    if s.len() <= max && (forall|i: int| 0 <= i < s.len() ==> !is_control(#[trigger] s[i])) {
        assert(displayed(s, max) =~= s);
    }
}

} // verus!
