//! Internet addresses and the way they are written.

use crate::text::{
    all_digits, chars_of, dec, decimal, digits_value, is_digit, parse_uint, split, split_at_char,
    sub_vec, views,
};
use vstd::prelude::*;

verus! {

/// An address.
#[derive(Debug, Clone, Copy, PartialEq, Eq, Structural)]
pub enum Ip {
    V4(u32),
    V6(u128),
}

// ---- reading ---------------------------------------------------------------

/// One part of a dotted address: up to three digits, no needless zero, at most
/// 255.
pub open spec fn octet(s: Seq<char>) -> Option<nat> {
    if 0 < s.len() <= 3 && all_digits(s) && (s.len() == 1 || s[0] != '0') && digits_value(s) <= 255 {
        Some(digits_value(s))
    } else {
        None
    }
}

/// A dotted address.
pub open spec fn v4_of(s: Seq<char>) -> Option<u32> {
    let p = split(s, '.');
    if p.len() != 4 {
        None
    } else {
        match (octet(p[0]), octet(p[1]), octet(p[2]), octet(p[3])) {
            (Some(a), Some(b), Some(c), Some(d)) => Some(
                (a * 0x100_0000 + b * 0x1_0000 + c * 0x100 + d) as u32,
            ),
            _ => None,
        }
    }
}

pub open spec fn hex_value(c: char) -> Option<nat> {
    if '0' <= c <= '9' {
        Some((c as u32 - '0' as u32) as nat)
    } else if 'a' <= c <= 'f' {
        Some((c as u32 - 'a' as u32 + 10) as nat)
    } else if 'A' <= c <= 'F' {
        Some((c as u32 - 'A' as u32 + 10) as nat)
    } else {
        None
    }
}

/// The number that hexadecimal digits write.
pub open spec fn hex_number(s: Seq<char>) -> Option<nat>
    decreases s.len(),
{
    if s.len() == 0 {
        Some(0)
    } else {
        match (hex_number(s.drop_last()), hex_value(s.last())) {
            (Some(n), Some(d)) => Some(n * 16 + d),
            _ => None,
        }
    }
}

/// One group of a longer address: up to four hexadecimal digits.
pub open spec fn group(s: Seq<char>) -> Option<nat> {
    if 0 < s.len() <= 4 {
        hex_number(s)
    } else {
        None
    }
}

/// The groups of the parts; the last may be a dotted address, which is two.
pub open spec fn groups(parts: Seq<Seq<char>>) -> Option<Seq<nat>>
    decreases parts.len(),
{
    if parts.len() == 0 {
        Some(Seq::empty())
    } else {
        match groups_plain(parts.drop_last()) {
            None => None,
            Some(g) => match group(parts.last()) {
                Some(n) => Some(g.push(n)),
                None => match v4_of(parts.last()) {
                    Some(a) => Some(
                        g.push((a / 0x1_0000) as nat).push((a % 0x1_0000) as nat),
                    ),
                    None => None,
                },
            },
        }
    }
}

/// The groups of the parts, all of them hexadecimal.
pub open spec fn groups_plain(parts: Seq<Seq<char>>) -> Option<Seq<nat>>
    decreases parts.len(),
{
    if parts.len() == 0 {
        Some(Seq::empty())
    } else {
        match (groups_plain(parts.drop_last()), group(parts.last())) {
            (Some(g), Some(n)) => Some(g.push(n)),
            _ => None,
        }
    }
}

/// The parts of text between colons; none of empty text.
pub open spec fn parts_of(s: Seq<char>) -> Seq<Seq<char>> {
    if s.len() == 0 {
        Seq::empty()
    } else {
        split(s, ':')
    }
}

/// Where `::` stands first at or behind `from`.
pub open spec fn gap_at(s: Seq<char>, from: int) -> Option<int>
    decreases s.len() - from,
{
    if from < 0 || from + 1 >= s.len() {
        None
    } else if s[from] == ':' && s[from + 1] == ':' {
        Some(from)
    } else {
        gap_at(s, from + 1)
    }
}

/// Eight groups as one number.
pub open spec fn v6_number(g: Seq<nat>) -> nat
    decreases g.len(),
{
    if g.len() == 0 {
        0
    } else {
        v6_number(g.drop_last()) * 0x1_0000 + g.last()
    }
}

pub open spec fn zeros(n: nat) -> Seq<nat> {
    Seq::new(n, |i: int| 0nat)
}

/// The groups of a longer address: eight of them, or fewer with one `::` that
/// stands for at least one that is zero.
pub open spec fn v6_groups(s: Seq<char>) -> Option<Seq<nat>> {
    match gap_at(s, 0) {
        None => match groups(parts_of(s)) {
            Some(g) if g.len() == 8 => Some(g),
            _ => None,
        },
        Some(i) => match (groups_plain(parts_of(s.take(i))), groups(parts_of(s.skip(i + 2)))) {
            (Some(a), Some(b)) if a.len() + b.len() <= 7 => Some(
                a + zeros((8 - a.len() - b.len()) as nat) + b,
            ),
            _ => None,
        },
    }
}

/// An address of either family.
pub open spec fn ip_of(s: Seq<char>) -> Option<Ip> {
    match v4_of(s) {
        Some(a) => Some(Ip::V4(a)),
        None => match v6_groups(s) {
            Some(g) => Some(Ip::V6(v6_number(g) as u128)),
            None => None,
        },
    }
}

// ---- writing ---------------------------------------------------------------

/// A number in hexadecimal, without needless zeros.
pub open spec fn hex_of(n: nat) -> Seq<char>
    decreases n,
{
    if n < 16 {
        seq![hex_digit(n)]
    } else {
        hex_of(n / 16).push(hex_digit(n % 16))
    }
}

pub open spec fn hex_digit(n: nat) -> char {
    if n < 10 {
        (48 + n) as char
    } else {
        (87 + n) as char
    }
}

pub open spec fn v4_text(a: u32) -> Seq<char> {
    dec((a / 0x100_0000) as nat) + "."@ + dec((a / 0x1_0000 % 256) as nat) + "."@ + dec(
        (a / 0x100 % 256) as nat,
    ) + "."@ + dec((a % 256) as nat)
}

/// Group `i` of a longer address.
pub open spec fn group_of(a: u128, i: nat) -> nat
    decreases 8 - i,
{
    if i >= 7 {
        (a % 0x1_0000) as nat
    } else {
        group_of(a / 0x1_0000, i + 1)
    }
}

pub open spec fn groups_of(a: u128) -> Seq<nat> {
    Seq::new(8, |i: int| group_of(a, i as nat))
}

/// How many groups from `i` on are zero.
pub open spec fn run_at(g: Seq<nat>, i: int) -> nat
    decreases g.len() - i,
{
    if i < 0 || i >= g.len() || g[i] != 0 {
        0
    } else {
        1 + run_at(g, i + 1)
    }
}

/// The first of the longest runs of zero groups among the first `n` places.
pub open spec fn longest(g: Seq<nat>, n: nat) -> (int, nat)
    decreases n,
{
    if n == 0 {
        (0, 0)
    } else {
        let (at, len) = longest(g, (n - 1) as nat);
        let r = run_at(g, n - 1);
        if r > len {
            (n - 1, r)
        } else {
            (at, len)
        }
    }
}

/// Groups with colons between them.
pub open spec fn colons(g: Seq<nat>) -> Seq<char>
    decreases g.len(),
{
    if g.len() == 0 {
        Seq::empty()
    } else if g.len() == 1 {
        hex_of(g[0])
    } else {
        colons(g.drop_last()) + ":"@ + hex_of(g.last())
    }
}

/// The text of a longer address: the first of its longest runs of zero groups is
/// `::`; an address that carries a dotted one shows it.
pub open spec fn v6_text(a: u128) -> Seq<char> {
    if a / 0x1_0000_0000 == 0xffff {
        "::ffff:"@ + v4_text((a % 0x1_0000_0000) as u32)
    } else {
        let g = groups_of(a);
        let (at, len) = longest(g, 8);
        if len > 1 {
            colons(g.take(at)) + "::"@ + colons(g.skip(at + len))
        } else {
            colons(g)
        }
    }
}

pub open spec fn ip_text(ip: Ip) -> Seq<char> {
    match ip {
        Ip::V4(a) => v4_text(a),
        Ip::V6(a) => v6_text(a),
    }
}

// ---- the functions ---------------------------------------------------------

fn read_octet(s: &[char]) -> (r: Option<u32>)
    ensures
        match r {
            Some(n) => octet(s@) == Some(n as nat) && n <= 255,
            None => octet(s@) is None,
        },
{
    if s.len() == 0 || s.len() > 3 || (s.len() > 1 && s[0] == '0') || s[0] == '+' {
        assert(s@.len() > 0 && s@[0] == '+' ==> !is_digit(s@[0]));
        return None;
    }
    match parse_uint(s, 255) {
        Some(n) => Some(n as u32),
        None => None,
    }
}

fn read_v4(s: &[char]) -> (r: Option<u32>)
    ensures
        r == v4_of(s@),
{
    let p = split_at_char(s, '.');
    assert(views(p@).len() == p@.len());
    if p.len() != 4 {
        return None;
    }
    assert(views(p@)[0] == p@[0]@ && views(p@)[1] == p@[1]@ && views(p@)[2] == p@[2]@ && views(
        p@,
    )[3] == p@[3]@);
    match (read_octet(&p[0]), read_octet(&p[1]), read_octet(&p[2]), read_octet(&p[3])) {
        (Some(a), Some(b), Some(c), Some(d)) => Some(
            a * 0x100_0000 + b * 0x1_0000 + c * 0x100 + d,
        ),
        _ => None,
    }
}

fn read_hex(c: char) -> (r: Option<u16>)
    ensures
        match r {
            Some(n) => hex_value(c) == Some(n as nat) && n < 16,
            None => hex_value(c) is None,
        },
{
    if c >= '0' && c <= '9' {
        Some((c as u32 - '0' as u32) as u16)
    } else if c >= 'a' && c <= 'f' {
        Some((c as u32 - 'a' as u32 + 10) as u16)
    } else if c >= 'A' && c <= 'F' {
        Some((c as u32 - 'A' as u32 + 10) as u16)
    } else {
        None
    }
}

proof fn lemma_hex_none(s: Seq<char>, k: int)
    requires
        0 <= k <= s.len(),
        hex_number(s.take(k)) is None,
    ensures
        hex_number(s) is None,
    decreases s.len() - k,
{
    if k < s.len() {
        assert(s.take(k + 1).drop_last() =~= s.take(k));
        lemma_hex_none(s, k + 1);
    } else {
        assert(s.take(k) =~= s);
    }
}

fn read_group(s: &[char]) -> (r: Option<u16>)
    ensures
        match r {
            Some(n) => group(s@) == Some(n as nat),
            None => group(s@) is None,
        },
{
    if s.len() == 0 || s.len() > 4 {
        return None;
    }
    let mut n: u32 = 0;
    let mut i: usize = 0;
    let mut most: u32 = 1;
    while i < s.len()
        invariant
            i <= s.len() <= 4,
            hex_number(s@.take(i as int)) == Some(n as nat),
            n < most,
            i == 0 ==> most == 1,
            i == 1 ==> most == 16,
            i == 2 ==> most == 256,
            i == 3 ==> most == 4096,
            i == 4 ==> most == 65536,
        decreases s.len() - i,
    {
        assert(s@.take(i + 1).drop_last() =~= s@.take(i as int));
        match read_hex(s[i]) {
            None => {
                proof {
                    lemma_hex_none(s@, i + 1);
                }
                return None;
            },
            Some(d) => {
                n = n * 16 + d as u32;
                most = most * 16;
            },
        }
        i = i + 1;
    }
    assert(s@.take(s@.len() as int) =~= s@);
    Some(n as u16)
}

/// Numbers as they stand in specifications.
pub open spec fn nats(v: Seq<u16>) -> Seq<nat> {
    v.map_values(|n: u16| n as nat)
}

proof fn lemma_plain_none(parts: Seq<Seq<char>>, k: int)
    requires
        0 <= k <= parts.len(),
        groups_plain(parts.take(k)) is None,
    ensures
        groups_plain(parts) is None,
    decreases parts.len() - k,
{
    if k < parts.len() {
        assert(parts.take(k + 1).drop_last() =~= parts.take(k));
        lemma_plain_none(parts, k + 1);
    } else {
        assert(parts.take(k) =~= parts);
    }
}

fn read_plain(parts: &Vec<Vec<char>>, n: usize) -> (r: Option<Vec<u16>>)
    requires
        n <= parts.len(),
    ensures
        match r {
            Some(g) => groups_plain(views(parts@).take(n as int)) == Some(nats(g@)),
            None => groups_plain(views(parts@).take(n as int)) is None,
        },
{
    let ghost all = views(parts@);
    let mut g: Vec<u16> = Vec::new();
    assert(nats(g@) =~= Seq::empty());
    let mut i: usize = 0;
    while i < n
        invariant
            i <= n <= parts.len(),
            all == views(parts@),
            groups_plain(all.take(i as int)) == Some(nats(g@)),
        decreases n - i,
    {
        let ghost before = nats(g@);
        assert(all.take(i + 1).drop_last() =~= all.take(i as int));
        assert(all[i as int] == parts@[i as int]@);
        match read_group(&parts[i]) {
            None => {
                proof {
                    assert(all.take(n as int).take(i + 1) =~= all.take(i + 1));
                    lemma_plain_none(all.take(n as int), i + 1);
                }
                return None;
            },
            Some(x) => {
                g.push(x);
                assert(nats(g@) =~= before.push(x as nat));
            },
        }
        i = i + 1;
    }
    Some(g)
}

fn parts(s: &[char]) -> (p: Vec<Vec<char>>)
    ensures
        views(p@) == parts_of(s@),
{
    if s.len() == 0 {
        let p: Vec<Vec<char>> = Vec::new();
        assert(views(p@) =~= Seq::empty());
        return p;
    }
    split_at_char(s, ':')
}

fn read_groups(s: &[char]) -> (r: Option<Vec<u16>>)
    ensures
        match r {
            Some(g) => groups(parts_of(s@)) == Some(nats(g@)),
            None => groups(parts_of(s@)) is None,
        },
{
    let p = parts(s);
    let ghost all = parts_of(s@);
    assert(all.len() == p@.len());
    let n: usize = p.len();
    if n == 0 {
        let g: Vec<u16> = Vec::new();
        assert(nats(g@) =~= Seq::empty());
        return Some(g);
    }
    assert(all.drop_last() =~= all.take(n - 1));
    assert(all.last() == p@[n - 1]@);
    match read_plain(&p, n - 1) {
        None => None,
        Some(g) => {
            let mut g = g;
            let ghost before = nats(g@);
            match read_group(&p[n - 1]) {
                Some(x) => {
                    g.push(x);
                    assert(nats(g@) =~= before.push(x as nat));
                    Some(g)
                },
                None => match read_v4(&p[n - 1]) {
                    Some(a) => {
                        g.push((a / 0x1_0000) as u16);
                        g.push((a % 0x1_0000) as u16);
                        assert(nats(g@) =~= before.push((a / 0x1_0000) as nat).push(
                            (a % 0x1_0000) as nat,
                        ));
                        Some(g)
                    },
                    None => None,
                },
            }
        },
    }
}

fn find_gap(s: &[char]) -> (r: Option<usize>)
    ensures
        match r {
            Some(i) => gap_at(s@, 0) == Some(i as int) && i + 1 < s@.len(),
            None => gap_at(s@, 0) is None,
        },
{
    let mut i: usize = 0;
    while s.len() >= 2 && i < s.len() - 1
        invariant
            i <= s.len(),
            gap_at(s@, 0) == gap_at(s@, i as int),
        decreases s.len() - i,
    {
        if s[i] == ':' && s[i + 1] == ':' {
            return Some(i);
        }
        i = i + 1;
    }
    None
}

proof fn lemma_v6_bound(g: Seq<u16>)
    requires
        g.len() <= 8,
    ensures
        v6_number(nats(g)) < if g.len() == 0 {
            1nat
        } else if g.len() == 1 {
            0x1_0000
        } else if g.len() == 2 {
            0x1_0000_0000
        } else if g.len() == 3 {
            0x1_0000_0000_0000
        } else if g.len() == 4 {
            0x1_0000_0000_0000_0000
        } else if g.len() == 5 {
            0x1_0000_0000_0000_0000_0000
        } else if g.len() == 6 {
            0x1_0000_0000_0000_0000_0000_0000
        } else if g.len() == 7 {
            0x1_0000_0000_0000_0000_0000_0000_0000
        } else {
            0x1_0000_0000_0000_0000_0000_0000_0000_0000nat
        },
    decreases g.len(),
{
    if g.len() > 0 {
        assert(nats(g).drop_last() =~= nats(g.drop_last()));
        assert(nats(g).last() == g.last() as nat);
        lemma_v6_bound(g.drop_last());
    }
}

fn number(g: &Vec<u16>) -> (a: u128)
    requires
        g.len() == 8,
    ensures
        a == v6_number(nats(g@)),
{
    let mut a: u128 = 0;
    let mut i: usize = 0;
    assert(nats(g@.take(0)) =~= Seq::empty());
    while i < 8
        invariant
            i <= 8,
            g.len() == 8,
            a == v6_number(nats(g@.take(i as int))),
        decreases 8 - i,
    {
        proof {
            let t = g@.take(i + 1);
            assert(nats(t).drop_last() =~= nats(g@.take(i as int)));
            assert(nats(t).last() == g@[i as int] as nat);
            lemma_v6_bound(t);
            lemma_v6_bound(g@.take(i as int));
        }
        a = a * 0x1_0000 + g[i] as u128;
        i = i + 1;
    }
    assert(g@.take(8) =~= g@);
    a
}

fn read_v6(s: &[char]) -> (r: Option<u128>)
    ensures
        match r {
            Some(a) => v6_groups(s@) is Some && v6_number(v6_groups(s@)->0) == a,
            None => v6_groups(s@) is None,
        },
{
    match find_gap(s) {
        None => match read_groups(s) {
            Some(g) => {
                if g.len() == 8 {
                    Some(number(&g))
                } else {
                    None
                }
            },
            None => None,
        },
        Some(i) => {
            let left = sub_vec(s, 0, i);
            let n: usize = s.len();
            assert(i + 2 <= n);
            let right = sub_vec(s, i + 2, n);
            assert(left@ =~= s@.take(i as int));
            assert(right@ =~= s@.skip(i + 2));
            let p = parts(&left);
            assert(views(p@).take(p@.len() as int) =~= views(p@));
            match (read_plain(&p, p.len()), read_groups(&right)) {
                (Some(a), Some(b)) => {
                    if a.len() > 7 || b.len() > 7 - a.len() {
                        return None;
                    }
                    let ghost first = nats(a@);
                    let mut k: usize = a.len() + b.len();
                    let mut g = a;
                    let ghost n0 = (8 - a@.len() - b@.len()) as nat;
                    assert(first + zeros(0) =~= first);
                    while k < 8
                        invariant
                            k <= 8,
                            n0 + a@.len() + b@.len() == 8,
                            g@.len() == k - b@.len(),
                            nats(g@) == first + zeros((k - a@.len() - b@.len()) as nat),
                            first.len() == a@.len(),
                        decreases 8 - k,
                    {
                        let ghost had = nats(g@);
                        let ghost n = (k - a@.len() - b@.len()) as nat;
                        g.push(0);
                        k = k + 1;
                        assert(nats(g@) =~= had.push(0));
                        assert(zeros(n + 1) =~= zeros(n).push(0));
                        assert((first + zeros(n)).push(0) =~= first + zeros(n).push(0));
                    }
                    let ghost middle = nats(g@);
                    let ghost had = g@;
                    g.extend_from_slice(&b);
                    assert(g@ =~= had + b@);
                    assert(nats(g@) =~= middle + nats(b@));
                    assert(nats(g@) =~= first + zeros(n0) + nats(b@));
                    Some(number(&g))
                },
                _ => None,
            }
        },
    }
}

/// Reads an address.
pub fn parse_ip(s: &[char]) -> (r: Option<Ip>)
    ensures
        r == ip_of(s@),
{
    match read_v4(s) {
        Some(a) => Some(Ip::V4(a)),
        None => match read_v6(s) {
            Some(a) => Some(Ip::V6(a)),
            None => None,
        },
    }
}

impl Ip {
    /// Reads an address.
    pub fn parse(s: &str) -> (r: Option<Ip>)
        ensures
            r == ip_of(s@),
    {
        parse_ip(&chars_of(s))
    }

    pub fn is_ipv6(&self) -> (r: bool)
        ensures
            r == (*self is V6),
    {
        match self {
            Ip::V4(_) => false,
            Ip::V6(_) => true,
        }
    }
}

fn show_v4(a: u32) -> (s: String)
    ensures
        s@ == v4_text(a),
{
    let mut s = decimal((a / 0x100_0000) as u64);
    s.append(".");
    s.append(&decimal((a / 0x1_0000 % 256) as u64));
    s.append(".");
    s.append(&decimal((a / 0x100 % 256) as u64));
    s.append(".");
    s.append(&decimal((a % 256) as u64));
    s
}

fn digit16(n: u16) -> (c: char)
    requires
        n < 16,
    ensures
        c == hex_digit(n as nat),
{
    if n < 10 {
        (48 + n as u8) as char
    } else {
        (87 + n as u8) as char
    }
}

fn show_hex(n: u16) -> (s: String)
    ensures
        s@ == hex_of(n as nat),
    decreases n,
{
    if n < 16 {
        let mut s = String::new();
        s.push(digit16(n));
        assert(s@ =~= seq![hex_digit(n as nat)]);
        s
    } else {
        let mut s = show_hex(n / 16);
        s.push(digit16(n % 16));
        s
    }
}

fn show_colons(g: &Vec<u16>, a: usize, b: usize) -> (s: String)
    requires
        a <= b <= g.len(),
    ensures
        s@ == colons(nats(g@).subrange(a as int, b as int)),
{
    let ghost all = nats(g@);
    let mut s = String::new();
    assert(s@ =~= Seq::empty());
    let mut i: usize = a;
    assert(all.subrange(a as int, a as int) =~= Seq::empty());
    while i < b
        invariant
            a <= i <= b <= g.len(),
            all == nats(g@),
            s@ == colons(all.subrange(a as int, i as int)),
        decreases b - i,
    {
        let ghost t = all.subrange(a as int, i + 1);
        assert(t.drop_last() =~= all.subrange(a as int, i as int));
        assert(t.last() == g@[i as int] as nat);
        if i > a {
            s.append(":");
        } else {
            assert(s@ =~= Seq::empty());
            assert(Seq::<char>::empty() + hex_of(t[0]) =~= hex_of(t[0]));
        }
        s.append(&show_hex(g[i]));
        i = i + 1;
    }
    s
}

pub proof fn lemma_group_of(a: u128, i: nat)
    requires
        i <= 7,
    ensures
        group_of(a, i) <= 0xffff,
    decreases 8 - i,
{
    if i < 7 {
        lemma_group_of(a / 0x1_0000, i + 1);
    }
}

fn split_groups(a: u128) -> (g: Vec<u16>)
    ensures
        nats(g@) == groups_of(a),
{
    let mut g: Vec<u16> = Vec::new();
    let mut i: usize = 0;
    while i < 8
        invariant
            i <= 8,
            g@.len() == i,
            forall|k: int| 0 <= k < i ==> (#[trigger] g@[k]) as nat == group_of(a, k as nat),
        decreases 8 - i,
    {
        let mut x: u128 = a;
        let mut k: usize = i;
        while k < 7
            invariant
                i <= k <= 7,
                group_of(a, i as nat) == group_of(x, k as nat),
            decreases 7 - k,
        {
            x = x / 0x1_0000;
            k = k + 1;
        }
        proof {
            lemma_group_of(a, i as nat);
        }
        g.push((x % 0x1_0000) as u16);
        i = i + 1;
    }
    assert(nats(g@) =~= groups_of(a));
    g
}

fn run_from(g: &Vec<u16>, i: usize) -> (r: usize)
    requires
        i <= g.len(),
    ensures
        r == run_at(nats(g@), i as int),
        i + r <= g.len(),
    decreases g.len() - i,
{
    if i == g.len() {
        return 0;
    }
    assert(nats(g@)[i as int] == g@[i as int] as nat);
    if g[i] != 0 {
        0
    } else {
        1 + run_from(g, i + 1)
    }
}

/// The text of an address.
pub fn show_ip(ip: Ip) -> (s: String)
    ensures
        s@ == ip_text(ip),
{
    match ip {
        Ip::V4(a) => show_v4(a),
        Ip::V6(a) => {
            if a / 0x1_0000_0000 == 0xffff {
                let mut s = "::ffff:".to_owned();
                s.append(&show_v4((a % 0x1_0000_0000) as u32));
                return s;
            }
            let g = split_groups(a);
            let ghost all = nats(g@);
            assert(all.len() == 8);
            let mut at: usize = 0;
            let mut len: usize = 0;
            let mut i: usize = 0;
            while i < 8
                invariant
                    i <= 8,
                    all == nats(g@),
                    g@.len() == 8,
                    longest(all, i as nat) == (at as int, len as nat),
                    at + len <= 8,
                decreases 8 - i,
            {
                let r = run_from(&g, i);
                if r > len {
                    at = i;
                    len = r;
                }
                i = i + 1;
            }
            if len > 1 {
                let mut s = show_colons(&g, 0, at);
                assert(all.subrange(0, at as int) =~= all.take(at as int));
                assert(all.subrange(at + len, 8) =~= all.skip(at + len));
                s.append("::");
                s.append(&show_colons(&g, at + len, 8));
                s
            } else {
                assert(all.subrange(0, 8) =~= all);
                show_colons(&g, 0, 8)
            }
        },
    }
}

} // verus!
