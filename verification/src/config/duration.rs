//! Durations as the configuration writes them.

use crate::config::double::{millis, rounded, tens};
use crate::config::{
    MAX_REACHABILITY_INTERVAL, MAX_REACHABILITY_TIMEOUT, MIN_REACHABILITY_INTERVAL,
};
use crate::text::{
    all_digits, chars_of, dec, decimal, digits_value, is_digit, same, split, split_at_char, sub_vec,
    trim_chars, trim_right, trim_right_vec, trimmed,
};
use vstd::prelude::*;

verus! {

/// The least and the most each duration setting takes, in milliseconds.
pub open spec fn bounds(key: Seq<char>) -> (u64, u64) {
    if key == "reachability_interval"@ {
        (MIN_REACHABILITY_INTERVAL, MAX_REACHABILITY_INTERVAL)
    } else {
        (1, MAX_REACHABILITY_TIMEOUT)
    }
}

/// `s` ends in `end`.
pub open spec fn ends_in(s: Seq<char>, end: Seq<char>) -> bool {
    s.len() >= end.len() && s.skip(s.len() - end.len()) == end
}

/// The number of a duration and whether it is in milliseconds: behind it stands
/// `ms`, `s`, or nothing for seconds.
pub open spec fn number_part(text: Seq<char>) -> (Seq<char>, bool) {
    let t = trimmed(text);
    if ends_in(t, "ms"@) {
        (trim_right(t.take(t.len() - 2)), true)
    } else if ends_in(t, "s"@) {
        (trim_right(t.take(t.len() - 1)), false)
    } else {
        (trim_right(t), false)
    }
}

/// Decimal figures and at most one point: no sign, exponent, inf or nan.
pub open spec fn plain_number(n: Seq<char>) -> bool {
    let p = split(n, '.');
    n.len() > 0 && p.len() <= 2 && all_digits(p[0]) && (p.len() == 2 ==> all_digits(p[1])) && (p[0].len()
        > 0 || p[1].len() > 0)
}

/// Numbers from here on are too long for any setting.
pub const FAR: u64 = 1_000_000_000;

/// How long the text of a duration is, in milliseconds: `FAR`, where its number is that
/// or more.
pub open spec fn length(n: Seq<char>, ms: bool) -> nat {
    let p = split(n, '.');
    let whole = digits_value(p[0]);
    let f = if p.len() == 2 {
        p[1]
    } else {
        Seq::empty()
    };
    if whole >= FAR {
        FAR as nat
    } else {
        millis(whole * tens(f.len()) + digits_value(f), tens(f.len()), ms)
    }
}

/// A duration as it is written: `2s` if whole seconds, else `500ms`.
pub open spec fn written(ms: u64) -> Seq<char> {
    if ms % 1000 == 0 {
        dec((ms / 1000) as nat) + "s"@
    } else {
        dec(ms as nat) + "ms"@
    }
}

pub open spec fn no_duration_text(text: Seq<char>) -> Seq<char> {
    "expected a duration such as 500ms or 2s, found '"@ + text + "'"@
}

/// Duration setting `key` as text writes it, or why it is none.
pub open spec fn duration_in(key: Seq<char>, text: Seq<char>) -> Result<u64, Seq<char>> {
    let (n, ms) = number_part(text);
    let (min, max) = bounds(key);
    if !plain_number(n) {
        Err(no_duration_text(text))
    } else if length(n, ms) < min {
        Err("'"@ + text + "' is too short: at least "@ + written(min))
    } else if length(n, ms) > max {
        Err("'"@ + text + "' is too long: at most "@ + written(max))
    } else {
        Ok(length(n, ms) as u64)
    }
}

/// A duration as [`parse_timeout`] reads it: `2s` if whole seconds, else `500ms`.
pub fn format_timeout(ms: u64) -> (s: String)
    ensures
        s@ == written(ms),
{
    if ms % 1000 == 0 {
        let mut s = decimal(ms / 1000);
        s.append("s");
        s
    } else {
        let mut s = decimal(ms);
        s.append("ms");
        s
    }
}

fn number_of(text: &str) -> (r: (Vec<char>, bool))
    ensures
        (r.0@, r.1) == number_part(text@),
{
    let t = trim_chars(&chars_of(text));
    let n: usize = t.len();
    proof {
        reveal_strlit("ms");
        reveal_strlit("s");
        if n >= 2 {
            let e = t@.skip(n - 2);
            assert(e == "ms"@ <==> e[0] == 'm' && e[1] == 's') by {
                if e[0] == 'm' && e[1] == 's' {
                    assert(e =~= "ms"@);
                }
            }
        }
        if n >= 1 {
            let e = t@.skip(n - 1);
            assert(e == "s"@ <==> e[0] == 's') by {
                if e[0] == 's' {
                    assert(e =~= "s"@);
                }
            }
        }
    }
    if n >= 2 && t[n - 2] == 'm' && t[n - 1] == 's' {
        let mut v = sub_vec(&t, 0, n - 2);
        assert(v@ =~= t@.take(n - 2));
        trim_right_vec(&mut v);
        (v, true)
    } else if n >= 1 && t[n - 1] == 's' {
        let mut v = sub_vec(&t, 0, n - 1);
        assert(v@ =~= t@.take(n - 1));
        trim_right_vec(&mut v);
        (v, false)
    } else {
        let mut v = t;
        trim_right_vec(&mut v);
        (v, false)
    }
}

fn digits_only(v: &Vec<char>) -> (r: bool)
    ensures
        r == all_digits(v@),
{
    let mut i: usize = 0;
    while i < v.len()
        invariant
            i <= v.len(),
            forall|k: int| 0 <= k < i ==> is_digit(#[trigger] v@[k]),
        decreases v.len() - i,
    {
        if !(v[i] >= '0' && v[i] <= '9') {
            assert(!is_digit(v@[i as int]));
            return false;
        }
        i = i + 1;
    }
    true
}

/// A number of figures, or `FAR` where it is that or more.
fn capped(v: &Vec<char>) -> (n: u64)
    requires
        all_digits(v@),
    ensures
        n <= FAR,
        digits_value(v@) <= FAR ==> n == digits_value(v@),
        digits_value(v@) > FAR ==> n == FAR,
{
    let mut n: u64 = 0;
    let mut i: usize = 0;
    while i < v.len()
        invariant
            i <= v.len(),
            all_digits(v@),
            n <= FAR,
            digits_value(v@.take(i as int)) <= FAR ==> n == digits_value(v@.take(i as int)),
            digits_value(v@.take(i as int)) > FAR ==> n == FAR,
        decreases v.len() - i,
    {
        let c = v[i];
        assert(is_digit(v@[i as int]));
        assert(v@.take(i + 1).drop_last() =~= v@.take(i as int));
        let d: u64 = (c as u32 - '0' as u32) as u64;
        let m: u64 = n * 10 + d;
        n = if m > FAR {
            FAR
        } else {
            m
        };
        i = i + 1;
    }
    assert(v@.take(v@.len() as int) =~= v@);
    n
}

fn no_duration(text: &str) -> (s: String)
    ensures
        s@ == no_duration_text(text@),
{
    let mut s = "expected a duration such as 500ms or 2s, found '".to_owned();
    s.append(text);
    s.append("'");
    s
}

/// Duration setting `key` as `500ms`, `0.5s`, `2s`, or a bare number of seconds
/// (`0.5`); to the millisecond, within the setting's bounds
/// (`reachability_timeout`: 1 ms to a minute; `reachability_interval`: 100 ms to
/// an hour).
pub fn parse_duration(key: &str, text: &str) -> (r: Result<u64, String>)
    ensures
        match r {
            Ok(ms) => duration_in(key@, text@) == Ok::<u64, Seq<char>>(ms),
            Err(e) => duration_in(key@, text@) == Err::<u64, Seq<char>>(e@),
        },
{
    let (min, max): (u64, u64) = if same(key, "reachability_interval") {
        (MIN_REACHABILITY_INTERVAL, MAX_REACHABILITY_INTERVAL)
    } else {
        (1, MAX_REACHABILITY_TIMEOUT)
    };
    let (n, ms) = number_of(text);
    let p = split_at_char(&n, '.');
    proof {
        crate::text::lemma_split_len(n@, '.');
    }
    let ghost parts = split(n@, '.');
    assert(parts.len() == p@.len());
    assert(parts[0] == p@[0]@);
    if n.len() == 0 || p.len() > 2 || !digits_only(&p[0]) {
        return Err(no_duration(text));
    }
    let empty: Vec<char> = Vec::new();
    assert(empty@ =~= Seq::empty());
    let f = if p.len() == 2 {
        assert(parts[1] == p@[1]@);
        if !digits_only(&p[1]) || (p[0].len() == 0 && p[1].len() == 0) {
            return Err(no_duration(text));
        }
        &p[1]
    } else {
        assert(p@[0]@.len() > 0) by {
            lemma_unsplit(n@, '.');
        }
        &empty
    };
    let whole = capped(&p[0]);
    let long: u64 = if whole >= FAR {
        FAR
    } else {
        rounded(whole, f, ms)
    };
    if long < min {
        let mut s = "'".to_owned();
        s.append(text);
        s.append("' is too short: at least ");
        s.append(&format_timeout(min));
        return Err(s);
    }
    if long > max {
        let mut s = "'".to_owned();
        s.append(text);
        s.append("' is too long: at most ");
        s.append(&format_timeout(max));
        return Err(s);
    }
    Ok(long)
}

/// Text without the separator is all there is of it.
proof fn lemma_unsplit(s: Seq<char>, sep: char)
    requires
        split(s, sep).len() == 1,
    ensures
        split(s, sep)[0] == s,
    decreases s.len(),
{
    crate::text::lemma_split_len(s, sep);
    if s.len() > 0 {
        crate::text::lemma_split_len(s.drop_last(), sep);
        if s.last() != sep {
            lemma_unsplit(s.drop_last(), sep);
            assert(s.drop_last().push(s.last()) =~= s);
        }
    }
}

/// A `reachability_timeout`: see [`parse_duration`].
pub fn parse_timeout(text: &str) -> (r: Result<u64, String>)
    ensures
        match r {
            Ok(ms) => duration_in("reachability_timeout"@, text@) == Ok::<u64, Seq<char>>(ms),
            Err(e) => duration_in("reachability_timeout"@, text@) == Err::<u64, Seq<char>>(e@),
        },
{
    parse_duration("reachability_timeout", text)
}

} // verus!
