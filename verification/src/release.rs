//! Comparing release versions.

use crate::text::{chars_of, parse_uint, parsed_max, split, split_at_char, views};
use vstd::prelude::*;

verus! {

/// The three numbers of a version `x.y.z`.
pub open spec fn numbers(v: Seq<char>) -> Option<(nat, nat, nat)> {
    let p = split(v, '.');
    if p.len() != 3 {
        None
    } else {
        match (
            parsed_max(p[0], u64::MAX as nat),
            parsed_max(p[1], u64::MAX as nat),
            parsed_max(p[2], u64::MAX as nat),
        ) {
            (Some(a), Some(b), Some(c)) => Some((a, b, c)),
            _ => None,
        }
    }
}

/// `new` is the same release as `have` or a later one; so is whatever cannot be
/// compared.
pub open spec fn at_least(new: Seq<char>, have: Seq<char>) -> bool {
    match (numbers(new), numbers(have)) {
        (Some(n), Some(h)) => n.0 > h.0 || n.0 == h.0 && (n.1 > h.1 || n.1 == h.1 && n.2 >= h.2),
        _ => true,
    }
}

fn numbers_of(v: &str) -> (r: Option<(u64, u64, u64)>)
    ensures
        match r {
            None => numbers(v@) is None,
            Some((a, b, c)) => numbers(v@) == Some((a as nat, b as nat, c as nat)),
        },
{
    let p = split_at_char(&chars_of(v), '.');
    assert(views(p@).len() == p@.len());
    if p.len() != 3 {
        return None;
    }
    assert(views(p@)[0] == p@[0]@ && views(p@)[1] == p@[1]@ && views(p@)[2] == p@[2]@);
    match (
        parse_uint(&p[0], u64::MAX),
        parse_uint(&p[1], u64::MAX),
        parse_uint(&p[2], u64::MAX),
    ) {
        (Some(a), Some(b), Some(c)) => Some((a, b, c)),
        _ => None,
    }
}

/// Whether `new` is not an older release than `have`.
pub fn not_older(new: &str, have: &str) -> (r: bool)
    ensures
        r == at_least(new@, have@),
{
    match (numbers_of(new), numbers_of(have)) {
        (Some(n), Some(h)) => n.0 > h.0 || n.0 == h.0 && (n.1 > h.1 || n.1 == h.1 && n.2 >= h.2),
        _ => true,
    }
}

/// Releases stand in one order: each is at least itself, of two one is at least the
/// other, and what is at least a later one is at least an earlier one. Of two that
/// differ, only the later is at least the other.
pub proof fn law_releases_are_in_order(a: Seq<char>, b: Seq<char>, c: Seq<char>)
    requires
        numbers(a) is Some,
        numbers(b) is Some,
        numbers(c) is Some,
    ensures
        at_least(a, a),
        at_least(a, b) || at_least(b, a),
        at_least(a, b) && at_least(b, c) ==> at_least(a, c),
        at_least(a, b) && at_least(b, a) ==> numbers(a) == numbers(b),
        (numbers(a)->Some_0).0 > (numbers(b)->Some_0).0 ==> !at_least(b, a),
        (numbers(a)->Some_0).0 == (numbers(b)->Some_0).0 && (numbers(a)->Some_0).1 > (numbers(b)->Some_0).1 ==> !at_least(b, a),
        (numbers(a)->Some_0).0 == (numbers(b)->Some_0).0 && (numbers(a)->Some_0).1 == (numbers(b)->Some_0).1
            && (numbers(a)->Some_0).2 > (numbers(b)->Some_0).2 ==> !at_least(b, a),
{
}

} // verus!
