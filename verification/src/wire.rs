//! Big-endian integers and length-prefixed strings on byte sequences.

use crate::text::sub_vec;
use vstd::prelude::*;

verus! {

pub open spec fn be16(v: u16) -> Seq<u8> {
    seq![(v / 256) as u8, (v % 256) as u8]
}

pub open spec fn be32(v: u32) -> Seq<u8> {
    be16((v / 0x1_0000) as u16) + be16((v % 0x1_0000) as u16)
}

pub open spec fn be64(v: u64) -> Seq<u8> {
    be32((v / 0x1_0000_0000) as u32) + be32((v % 0x1_0000_0000) as u32)
}

pub open spec fn from_be16(s: Seq<u8>) -> u16 {
    (s[0] * 256 + s[1]) as u16
}

pub open spec fn from_be32(s: Seq<u8>) -> u32 {
    (from_be16(s.take(2)) * 0x1_0000 + from_be16(s.skip(2))) as u32
}

pub open spec fn from_be64(s: Seq<u8>) -> u64 {
    (from_be32(s.take(4)) * 0x1_0000_0000 + from_be32(s.skip(4))) as u64
}

/// What two bytes write, big end first, is read back.
pub broadcast proof fn lemma_be16(v: u16)
    ensures
        #[trigger] be16(v).len() == 2,
        from_be16(be16(v)) == v,
{
}

/// What four bytes write, big end first, is read back.
pub broadcast proof fn lemma_be32(v: u32)
    ensures
        #[trigger] be32(v).len() == 4,
        from_be32(be32(v)) == v,
{
    assert(be32(v).take(2) =~= be16((v / 0x1_0000) as u16));
    assert(be32(v).skip(2) =~= be16((v % 0x1_0000) as u16));
}

/// What eight bytes write, big end first, is read back.
pub broadcast proof fn lemma_be64(v: u64)
    ensures
        #[trigger] be64(v).len() == 8,
        from_be64(be64(v)) == v,
{
    lemma_be32((v / 0x1_0000_0000) as u32);
    lemma_be32((v % 0x1_0000_0000) as u32);
    assert(be64(v).take(4) =~= be32((v / 0x1_0000_0000) as u32));
    assert(be64(v).skip(4) =~= be32((v % 0x1_0000_0000) as u32));
}

/// Two bytes are what the number they read as writes.
pub proof fn lemma_from_be16(s: Seq<u8>)
    requires
        s.len() == 2,
    ensures
        be16(from_be16(s)) == s,
{
    assert(be16(from_be16(s)) =~= s);
}

/// Four bytes are what the number they read as writes.
pub proof fn lemma_from_be32(s: Seq<u8>)
    requires
        s.len() == 4,
    ensures
        be32(from_be32(s)) == s,
{
    lemma_from_be16(s.take(2));
    lemma_from_be16(s.skip(2));
    let hi = from_be16(s.take(2));
    let lo = from_be16(s.skip(2));
    assert(from_be32(s) / 0x1_0000 == hi as u32);
    assert(from_be32(s) % 0x1_0000 == lo as u32);
    assert(be32(from_be32(s)) =~= s.take(2) + s.skip(2));
    assert(s.take(2) + s.skip(2) =~= s);
}

/// Eight bytes are what the number they read as writes.
pub proof fn lemma_from_be64(s: Seq<u8>)
    requires
        s.len() == 8,
    ensures
        be64(from_be64(s)) == s,
{
    lemma_from_be32(s.take(4));
    lemma_from_be32(s.skip(4));
    let hi = from_be32(s.take(4));
    let lo = from_be32(s.skip(4));
    assert(from_be64(s) / 0x1_0000_0000 == hi as u64);
    assert(from_be64(s) % 0x1_0000_0000 == lo as u64);
    assert(be64(from_be64(s)) =~= s.take(4) + s.skip(4));
    assert(s.take(4) + s.skip(4) =~= s);
}

/// Joining byte strings is associative.
pub broadcast proof fn lemma_cat_assoc<T>(a: Seq<T>, b: Seq<T>, c: Seq<T>)
    ensures
        #[trigger] ((a + b) + c) == a + (b + c),
{
    assert((a + b) + c =~= a + (b + c));
}

pub fn put_u8(out: &mut Vec<u8>, v: u8)
    ensures
        final(out)@ == old(out)@ + seq![v],
{
    out.push(v);
    assert(out@ =~= old(out)@ + seq![v]);
}

pub fn put_u16(out: &mut Vec<u8>, v: u16)
    ensures
        final(out)@ == old(out)@ + be16(v),
{
    out.push((v / 256) as u8);
    out.push((v % 256) as u8);
    assert(out@ =~= old(out)@ + be16(v));
}

pub fn put_u32(out: &mut Vec<u8>, v: u32)
    ensures
        final(out)@ == old(out)@ + be32(v),
{
    put_u16(out, (v / 0x1_0000) as u16);
    put_u16(out, (v % 0x1_0000) as u16);
    assert(out@ =~= old(out)@ + be32(v));
}

pub fn put_u64(out: &mut Vec<u8>, v: u64)
    ensures
        final(out)@ == old(out)@ + be64(v),
{
    put_u32(out, (v / 0x1_0000_0000) as u32);
    put_u32(out, (v % 0x1_0000_0000) as u32);
    assert(out@ =~= old(out)@ + be64(v));
}

pub fn put_bytes(out: &mut Vec<u8>, b: &[u8])
    ensures
        final(out)@ == old(out)@ + b@,
{
    out.extend_from_slice(b);
    assert(out@ =~= old(out)@ + b@);
}

pub fn get_u16(s: &[u8], at: usize) -> (v: u16)
    requires
        at + 2 <= s.len(),
    ensures
        v == from_be16(s@.subrange(at as int, at + 2)),
{
    s[at] as u16 * 256 + s[at + 1] as u16
}

pub fn get_u32(s: &[u8], at: usize) -> (v: u32)
    requires
        at + 4 <= s.len(),
    ensures
        v == from_be32(s@.subrange(at as int, at + 4)),
{
    let hi = get_u16(s, at);
    let lo = get_u16(s, at + 2);
    proof {
        let w = s@.subrange(at as int, at + 4);
        assert(w.take(2) =~= s@.subrange(at as int, at + 2));
        assert(w.skip(2) =~= s@.subrange(at + 2, at + 4));
    }
    hi as u32 * 0x1_0000 + lo as u32
}

pub fn get_u64(s: &[u8], at: usize) -> (v: u64)
    requires
        at + 8 <= s.len(),
    ensures
        v == from_be64(s@.subrange(at as int, at + 8)),
{
    let hi = get_u32(s, at);
    let lo = get_u32(s, at + 4);
    proof {
        let w = s@.subrange(at as int, at + 8);
        assert(w.take(4) =~= s@.subrange(at as int, at + 4));
        assert(w.skip(4) =~= s@.subrange(at + 4, at + 8));
    }
    hi as u64 * 0x1_0000_0000 + lo as u64
}

/// Takes the first `n` elements off `v`.
pub fn drop_front(v: &mut Vec<u8>, n: usize)
    requires
        n <= old(v).len(),
    ensures
        final(v)@ == old(v)@.skip(n as int),
{
    let rest = sub_vec(v, n, v.len());
    *v = rest;
    assert(v@ =~= old(v)@.skip(n as int));
}

/// The decimal digits of `n` in ASCII, most significant first.
pub open spec fn dec_bytes(n: nat) -> Seq<u8>
    decreases n,
{
    if n < 10 {
        seq![(48 + n) as u8]
    } else {
        dec_bytes(n / 10).push((48 + n % 10) as u8)
    }
}

/// Appends `n` in decimal.
pub fn put_dec(out: &mut Vec<u8>, n: u64)
    ensures
        final(out)@ == old(out)@ + dec_bytes(n as nat),
    decreases n,
{
    if n >= 10 {
        put_dec(out, n / 10);
    }
    out.push(48 + (n % 10) as u8);
    assert(out@ =~= old(out)@ + dec_bytes(n as nat));
}

/// Decimal digits are read back as the number they write.
pub proof fn lemma_dec_bytes(n: nat)
    ensures
        dec_bytes(n).len() >= 1,
        n <= u32::MAX ==> dec_bytes(n).len() <= 10,
        forall|i: int| 0 <= i < dec_bytes(n).len() ==> 48 <= #[trigger] dec_bytes(n)[i] <= 57,
        crate::text::all_digits(crate::text::byte_chars(dec_bytes(n))),
        crate::text::digits_value(crate::text::byte_chars(dec_bytes(n))) == n,
{
    lemma_dec_bytes_len(n, 10);
    lemma_dec_bytes_value(n);
}

proof fn lemma_dec_bytes_len(n: nat, k: nat)
    requires
        k >= 1,
    ensures
        dec_bytes(n).len() >= 1,
        n < vstd::arithmetic::power::pow(10, k) ==> dec_bytes(n).len() <= k,
        k == 10 ==> vstd::arithmetic::power::pow(10, k) == 10_000_000_000,
    decreases n,
{
    vstd::arithmetic::power::lemma_pow_positive(10, k);
    reveal_with_fuel(vstd::arithmetic::power::pow, 11);
    if n >= 10 {
        if k >= 2 {
            lemma_dec_bytes_len(n / 10, (k - 1) as nat);
            assert(vstd::arithmetic::power::pow(10, k) == 10 * vstd::arithmetic::power::pow(
                10,
                (k - 1) as nat,
            ));
        } else {
            lemma_dec_bytes_len(n / 10, 1);
        }
    }
}

proof fn lemma_dec_bytes_value(n: nat)
    ensures
        forall|i: int| 0 <= i < dec_bytes(n).len() ==> 48 <= #[trigger] dec_bytes(n)[i] <= 57,
        crate::text::all_digits(crate::text::byte_chars(dec_bytes(n))),
        crate::text::digits_value(crate::text::byte_chars(dec_bytes(n))) == n,
    decreases n,
{
    let s = crate::text::byte_chars(dec_bytes(n));
    if n < 10 {
        assert(s.drop_last() =~= Seq::empty());
        reveal_with_fuel(crate::text::digits_value, 2);
    } else {
        lemma_dec_bytes_value(n / 10);
        assert(s.drop_last() =~= crate::text::byte_chars(dec_bytes(n / 10)));
        assert(s.last() == (48 + n % 10) as u8 as char);
    }
}

} // verus!
