//! SHA-256 (FIPS 180-4), as the installer and the payload set use it.

use crate::wire::{be32, be64, from_be32, get_u32, lemma_be32, put_u32, put_u64};
use vstd::prelude::*;

verus! {

/// The round constants: the first 32 bits of the fractional parts of the cube
/// roots of the first 64 primes.
pub open spec fn round_constants() -> Seq<u32> {
    seq![
        0x428a2f98u32, 0x71374491, 0xb5c0fbcf, 0xe9b5dba5, 0x3956c25b, 0x59f111f1,
        0x923f82a4, 0xab1c5ed5, 0xd807aa98, 0x12835b01, 0x243185be, 0x550c7dc3,
        0x72be5d74, 0x80deb1fe, 0x9bdc06a7, 0xc19bf174, 0xe49b69c1, 0xefbe4786,
        0x0fc19dc6, 0x240ca1cc, 0x2de92c6f, 0x4a7484aa, 0x5cb0a9dc, 0x76f988da,
        0x983e5152, 0xa831c66d, 0xb00327c8, 0xbf597fc7, 0xc6e00bf3, 0xd5a79147,
        0x06ca6351, 0x14292967, 0x27b70a85, 0x2e1b2138, 0x4d2c6dfc, 0x53380d13,
        0x650a7354, 0x766a0abb, 0x81c2c92e, 0x92722c85, 0xa2bfe8a1, 0xa81a664b,
        0xc24b8b70, 0xc76c51a3, 0xd192e819, 0xd6990624, 0xf40e3585, 0x106aa070,
        0x19a4c116, 0x1e376c08, 0x2748774c, 0x34b0bcb5, 0x391c0cb3, 0x4ed8aa4a,
        0x5b9cca4f, 0x682e6ff3, 0x748f82ee, 0x78a5636f, 0x84c87814, 0x8cc70208,
        0x90befffa, 0xa4506ceb, 0xbef9a3f7, 0xc67178f2,
    ]
}

/// The state before the first block: the first 32 bits of the fractional parts
/// of the square roots of the first eight primes.
pub open spec fn initial() -> Seq<u32> {
    seq![
        0x6a09e667u32, 0xbb67ae85, 0x3c6ef372, 0xa54ff53a, 0x510e527f, 0x9b05688c,
        0x1f83d9ab, 0x5be0cd19,
    ]
}

pub open spec fn rotr(x: u32, n: u32) -> u32 {
    (x >> n) | (x << ((32 - n) as u32))
}

pub open spec fn small0(x: u32) -> u32 {
    rotr(x, 7) ^ rotr(x, 18) ^ (x >> 3u32)
}

pub open spec fn small1(x: u32) -> u32 {
    rotr(x, 17) ^ rotr(x, 19) ^ (x >> 10u32)
}

pub open spec fn big0(x: u32) -> u32 {
    rotr(x, 2) ^ rotr(x, 13) ^ rotr(x, 22)
}

pub open spec fn big1(x: u32) -> u32 {
    rotr(x, 6) ^ rotr(x, 11) ^ rotr(x, 25)
}

pub open spec fn ch(x: u32, y: u32, z: u32) -> u32 {
    (x & y) ^ (!x & z)
}

pub open spec fn maj(x: u32, y: u32, z: u32) -> u32 {
    (x & y) ^ (x & z) ^ (y & z)
}

/// Addition modulo 2^32.
pub open spec fn plus(a: u32, b: u32) -> u32 {
    ((a + b) % 0x1_0000_0000) as u32
}

/// Word `t` of the message schedule of a block.
pub open spec fn schedule(block: Seq<u8>, t: nat) -> u32
    decreases t,
{
    if t < 16 {
        from_be32(block.subrange(4 * t as int, 4 * t as int + 4))
    } else {
        plus(
            plus(
                plus(
                    small1(schedule(block, (t - 2) as nat)),
                    schedule(block, (t - 7) as nat),
                ),
                small0(schedule(block, (t - 15) as nat)),
            ),
            schedule(block, (t - 16) as nat),
        )
    }
}

/// One round on the working variables `a` to `h`.
pub open spec fn round(s: Seq<u32>, w: u32, k: u32) -> Seq<u32> {
    let t1 = plus(plus(plus(plus(s[7], big1(s[4])), ch(s[4], s[5], s[6])), k), w);
    let t2 = plus(big0(s[0]), maj(s[0], s[1], s[2]));
    seq![plus(t1, t2), s[0], s[1], s[2], plus(s[3], t1), s[4], s[5], s[6]]
}

/// The working variables after `t` rounds.
pub open spec fn rounds(s: Seq<u32>, block: Seq<u8>, t: nat) -> Seq<u32>
    decreases t,
{
    if t == 0 {
        s
    } else {
        round(
            rounds(s, block, (t - 1) as nat),
            schedule(block, (t - 1) as nat),
            round_constants()[t - 1],
        )
    }
}

/// The state after a block.
pub open spec fn compress(s: Seq<u32>, block: Seq<u8>) -> Seq<u32> {
    let r = rounds(s, block, 64);
    Seq::new(8, |i: int| plus(s[i], r[i]))
}

/// How many zero bytes stand between the one bit and the length.
pub open spec fn zeros(len: nat) -> nat {
    let r = (len + 9) % 64;
    if r == 0 {
        0
    } else {
        (64 - r) as nat
    }
}

/// A length in bits, modulo 2^64.
pub open spec fn bits(len: nat) -> u64 {
    ((len * 8) % 0x1_0000_0000_0000_0000) as u64
}

/// The message with its padding: a one bit, zeros, and its length in bits.
pub open spec fn padded(m: Seq<u8>) -> Seq<u8> {
    m + seq![0x80u8] + Seq::new(zeros(m.len()), |i: int| 0u8) + be64(bits(m.len()))
}

/// The state after the first `n` blocks of `p`.
pub open spec fn hashed(p: Seq<u8>, n: nat) -> Seq<u32>
    decreases n,
{
    if n == 0 {
        initial()
    } else {
        compress(hashed(p, (n - 1) as nat), p.subrange(64 * (n - 1), 64 * n as int))
    }
}

/// The bytes of eight words.
pub open spec fn words_bytes(s: Seq<u32>) -> Seq<u8> {
    be32(s[0]) + be32(s[1]) + be32(s[2]) + be32(s[3]) + be32(s[4]) + be32(s[5]) + be32(s[6])
        + be32(s[7])
}

/// The SHA-256 digest of `m`.
#[verifier::opaque]
pub open spec fn sha256(m: Seq<u8>) -> Seq<u8> {
    words_bytes(hashed(padded(m), padded(m).len() / 64))
}

fn rotate(x: u32, n: u32) -> (r: u32)
    requires
        0 < n < 32,
    ensures
        r == rotr(x, n),
{
    (x >> n) | (x << (32 - n))
}

fn sum(a: u32, b: u32) -> (r: u32)
    ensures
        r == plus(a, b),
{
    ((a as u64 + b as u64) % 0x1_0000_0000) as u32
}

fn lower0(x: u32) -> (r: u32)
    ensures
        r == small0(x),
{
    rotate(x, 7) ^ rotate(x, 18) ^ (x >> 3u32)
}

fn lower1(x: u32) -> (r: u32)
    ensures
        r == small1(x),
{
    rotate(x, 17) ^ rotate(x, 19) ^ (x >> 10u32)
}

fn upper0(x: u32) -> (r: u32)
    ensures
        r == big0(x),
{
    rotate(x, 2) ^ rotate(x, 13) ^ rotate(x, 22)
}

fn upper1(x: u32) -> (r: u32)
    ensures
        r == big1(x),
{
    rotate(x, 6) ^ rotate(x, 11) ^ rotate(x, 25)
}

fn constants() -> (k: [u32; 64])
    ensures
        k@ == round_constants(),
{
    let k: [u32; 64] = [
        0x428a2f98, 0x71374491, 0xb5c0fbcf, 0xe9b5dba5, 0x3956c25b, 0x59f111f1,
        0x923f82a4, 0xab1c5ed5, 0xd807aa98, 0x12835b01, 0x243185be, 0x550c7dc3,
        0x72be5d74, 0x80deb1fe, 0x9bdc06a7, 0xc19bf174, 0xe49b69c1, 0xefbe4786,
        0x0fc19dc6, 0x240ca1cc, 0x2de92c6f, 0x4a7484aa, 0x5cb0a9dc, 0x76f988da,
        0x983e5152, 0xa831c66d, 0xb00327c8, 0xbf597fc7, 0xc6e00bf3, 0xd5a79147,
        0x06ca6351, 0x14292967, 0x27b70a85, 0x2e1b2138, 0x4d2c6dfc, 0x53380d13,
        0x650a7354, 0x766a0abb, 0x81c2c92e, 0x92722c85, 0xa2bfe8a1, 0xa81a664b,
        0xc24b8b70, 0xc76c51a3, 0xd192e819, 0xd6990624, 0xf40e3585, 0x106aa070,
        0x19a4c116, 0x1e376c08, 0x2748774c, 0x34b0bcb5, 0x391c0cb3, 0x4ed8aa4a,
        0x5b9cca4f, 0x682e6ff3, 0x748f82ee, 0x78a5636f, 0x84c87814, 0x8cc70208,
        0x90befffa, 0xa4506ceb, 0xbef9a3f7, 0xc67178f2,
    ];
    assert(k@ =~= round_constants());
    k
}

/// The message schedule of a block.
fn expand(block: &[u8]) -> (w: Vec<u32>)
    requires
        block.len() == 64,
    ensures
        w.len() == 64,
        forall|t: int| 0 <= t < 64 ==> #[trigger] w@[t] == schedule(block@, t as nat),
{
    let mut w: Vec<u32> = Vec::new();
    let mut t: usize = 0;
    while t < 64
        invariant
            t <= 64,
            block.len() == 64,
            w.len() == t,
            forall|i: int| 0 <= i < t ==> #[trigger] w@[i] == schedule(block@, i as nat),
        decreases 64 - t,
    {
        let x: u32 = if t < 16 {
            get_u32(block, 4 * t)
        } else {
            assert(w@[t - 2] == schedule(block@, (t - 2) as nat));
            assert(w@[t - 7] == schedule(block@, (t - 7) as nat));
            assert(w@[t - 15] == schedule(block@, (t - 15) as nat));
            assert(w@[t - 16] == schedule(block@, (t - 16) as nat));
            sum(sum(sum(lower1(w[t - 2]), w[t - 7]), lower0(w[t - 15])), w[t - 16])
        };
        w.push(x);
        t = t + 1;
    }
    w
}

fn mix(s: &Vec<u32>, block: &[u8]) -> (r: Vec<u32>)
    requires
        s.len() == 8,
        block.len() == 64,
    ensures
        r.len() == 8,
        r@ == compress(s@, block@),
{
    let w = expand(block);
    let k = constants();
    let mut a: u32 = s[0];
    let mut b: u32 = s[1];
    let mut c: u32 = s[2];
    let mut d: u32 = s[3];
    let mut e: u32 = s[4];
    let mut f: u32 = s[5];
    let mut g: u32 = s[6];
    let mut h: u32 = s[7];
    let mut t: usize = 0;
    assert(s@ =~= seq![a, b, c, d, e, f, g, h]);
    while t < 64
        invariant
            t <= 64,
            w.len() == 64,
            k@ == round_constants(),
            forall|i: int| 0 <= i < 64 ==> #[trigger] w@[i] == schedule(block@, i as nat),
            seq![a, b, c, d, e, f, g, h] == rounds(s@, block@, t as nat),
        decreases 64 - t,
    {
        let ghost before = seq![a, b, c, d, e, f, g, h];
        let chosen: u32 = (e & f) ^ (!e & g);
        let major: u32 = (a & b) ^ (a & c) ^ (b & c);
        let t1: u32 = sum(sum(sum(sum(h, upper1(e)), chosen), k[t]), w[t]);
        let t2: u32 = sum(upper0(a), major);
        assert(w@[t as int] == schedule(block@, t as nat));
        h = g;
        g = f;
        f = e;
        e = sum(d, t1);
        d = c;
        c = b;
        b = a;
        a = sum(t1, t2);
        t = t + 1;
        assert(seq![a, b, c, d, e, f, g, h] =~= round(
            before,
            schedule(block@, (t - 1) as nat),
            round_constants()[t - 1],
        ));
    }
    let r = vec![
        sum(s[0], a),
        sum(s[1], b),
        sum(s[2], c),
        sum(s[3], d),
        sum(s[4], e),
        sum(s[5], f),
        sum(s[6], g),
        sum(s[7], h),
    ];
    assert(r@ =~= compress(s@, block@));
    r
}

fn bit_count(len: usize) -> (n: u64)
    ensures
        n == bits(len as nat),
{
    (len as u64).wrapping_mul(8)
}

/// The number of zero bytes that the padding of `len` bytes holds.
fn zero_count(len: usize) -> (z: usize)
    ensures
        z == zeros(len as nat),
        z < 64,
{
    let left: usize = (len % 64 + 9) % 64;
    if left == 0 {
        0
    } else {
        64 - left
    }
}

/// `m` with its padding.
fn pad(m: &[u8]) -> (p: Vec<u8>)
    ensures
        p@ == padded(m@),
{
    let mut p: Vec<u8> = Vec::new();
    crate::wire::put_bytes(&mut p, m);
    p.push(0x80);
    let z = zero_count(m.len());
    let ghost head = p@;
    assert(head =~= m@ + seq![0x80u8]);
    let mut i: usize = 0;
    assert(p@ =~= head + Seq::new(0, |i: int| 0u8));
    while i < z
        invariant
            i <= z,
            p@ == head + Seq::new(i as nat, |i: int| 0u8),
        decreases z - i,
    {
        p.push(0);
        i = i + 1;
        assert(p@ =~= head + Seq::new(i as nat, |i: int| 0u8));
    }
    put_u64(&mut p, bit_count(m.len()));
    p
}

/// The eight words as bytes.
fn bytes_of(s: &Vec<u32>) -> (d: [u8; 32])
    requires
        s.len() == 8,
    ensures
        d@ == words_bytes(s@),
{
    broadcast use lemma_be32;

    let mut out: Vec<u8> = Vec::new();
    put_u32(&mut out, s[0]);
    put_u32(&mut out, s[1]);
    put_u32(&mut out, s[2]);
    put_u32(&mut out, s[3]);
    put_u32(&mut out, s[4]);
    put_u32(&mut out, s[5]);
    put_u32(&mut out, s[6]);
    put_u32(&mut out, s[7]);
    assert(out@ =~= words_bytes(s@));
    let mut d: [u8; 32] = [0; 32];
    let mut j: usize = 0;
    while j < 32
        invariant
            j <= 32,
            out.len() == 32,
            d@.len() == 32,
            forall|i: int| 0 <= i < j ==> #[trigger] d@[i] == out@[i],
        decreases 32 - j,
    {
        d[j] = out[j];
        j = j + 1;
    }
    assert(d@ =~= out@);
    d
}

/// The SHA-256 digest of `m`.
pub fn digest(m: &[u8]) -> (d: [u8; 32])
    ensures
        d@ == sha256(m@),
{
    reveal(sha256);
    let p = pad(m);
    let mut s: Vec<u32> = vec![
        0x6a09e667, 0xbb67ae85, 0x3c6ef372, 0xa54ff53a, 0x510e527f, 0x9b05688c,
        0x1f83d9ab, 0x5be0cd19,
    ];
    assert(s@ =~= initial());
    let n: usize = p.len() / 64;
    let mut b: usize = 0;
    while b < n
        invariant
            b <= n,
            n == p.len() / 64,
            s.len() == 8,
            s@ == hashed(p@, b as nat),
        decreases n - b,
    {
        let block = &p.as_slice()[64 * b..64 * b + 64];
        assert(block@ =~= p@.subrange(64 * b as int, 64 * (b + 1)));
        s = mix(&s, block);
        b = b + 1;
    }
    bytes_of(&s)
}

/// The lower-case hexadecimal digit for `n`, below sixteen.
pub open spec fn hex_digit(n: u8) -> char {
    if n < 10 {
        ((48 + n) as u8) as char
    } else {
        ((87 + n) as u8) as char
    }
}

/// Two hexadecimal digits for each byte.
pub open spec fn hex_text(b: Seq<u8>) -> Seq<char>
    decreases b.len(),
{
    if b.len() == 0 {
        Seq::empty()
    } else {
        hex_text(b.drop_last()).push(hex_digit(b.last() / 16)).push(hex_digit(b.last() % 16))
    }
}

fn hex_char(n: u8) -> (c: char)
    requires
        n < 16,
    ensures
        c == hex_digit(n),
{
    if n < 10 {
        (48 + n) as char
    } else {
        (87 + n) as char
    }
}

/// `b` in lower-case hexadecimal.
pub fn hex(b: &[u8]) -> (s: String)
    ensures
        s@ == hex_text(b@),
{
    let mut s = String::new();
    for i in 0..b.len()
        invariant
            s@ == hex_text(b@.take(i as int)),
    {
        s.push(hex_char(b[i] / 16));
        s.push(hex_char(b[i] % 16));
        assert(b@.take(i + 1).drop_last() =~= b@.take(i as int));
    }
    assert(b@.take(b@.len() as int) =~= b@);
    s
}

} // verus!
