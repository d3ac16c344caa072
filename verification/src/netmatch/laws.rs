//! What is written of an address or a network is read back the same.

use super::ip::{
    colons, gap_at, group, group_of, groups, groups_of, groups_plain, hex_digit, hex_number, hex_of,
    hex_value, ip_of, ip_text, longest, octet, parts_of, run_at, v4_of, v4_text, v6_groups,
    v6_number, v6_text, zeros, Ip,
};
use super::{cidr, mask128_of, mask32_of, net_of, network_of, LocalNet};
use crate::text::{
    all_digits, dec, digit, holds_no, is_digit, lemma_digits, lemma_one_piece, lemma_piece_more,
    parsed_max, split,
};
use vstd::prelude::*;

verus! {

// ---- dotted addresses ------------------------------------------------------

/// Digits hold nothing that separates.
proof fn lemma_no_mark(s: Seq<char>, c: char)
    requires
        all_digits(s),
        c == '.' || c == ':' || c == '/',
    ensures
        holds_no(s, c),
{
    assert forall|i: int| 0 <= i < s.len() implies #[trigger] s[i] != c by {
        assert(is_digit(s[i]));
    }
}

proof fn lemma_octet(n: nat)
    requires
        n <= 255,
    ensures
        octet(dec(n)) == Some(n),
        0 < dec(n).len() <= 3,
{
    lemma_digits(n);
    reveal_with_fuel(dec, 4);
    if n >= 10 {
        let d = dec(n);
        assert(d[0] != '0') by {
            if n < 100 {
                assert(d[0] == digit(n / 10));
            } else {
                assert(d[0] == digit(n / 10 / 10));
            }
        }
    }
}

/// The four numbers of a dotted address.
pub open spec fn octets_of(a: u32) -> Seq<nat> {
    seq![
        (a / 0x100_0000) as nat,
        (a / 0x1_0000 % 256) as nat,
        (a / 0x100 % 256) as nat,
        (a % 256) as nat,
    ]
}

/// A text that ends in four numbers with points between is cut into them there.
proof fn lemma_cut_at_points(head: Seq<char>, a: u32)
    requires
        holds_no(head, '.'),
    ensures
        split(head + v4_text(a), '.') == seq![
            head + dec(octets_of(a)[0]),
            dec(octets_of(a)[1]),
            dec(octets_of(a)[2]),
            dec(octets_of(a)[3]),
        ],
        holds_no(v4_text(a), ':'),
        holds_no(v4_text(a), '/'),
        v4_text(a).len() > 4,
{
    reveal_strlit(".");
    let o = octets_of(a);
    lemma_octet(o[0]);
    lemma_octet(o[1]);
    lemma_octet(o[2]);
    lemma_octet(o[3]);
    let (d0, d1, d2, d3) = (dec(o[0]), dec(o[1]), dec(o[2]), dec(o[3]));
    lemma_digits(o[0]);
    lemma_digits(o[1]);
    lemma_digits(o[2]);
    lemma_digits(o[3]);
    lemma_no_mark(d0, '.');
    lemma_no_mark(d1, '.');
    lemma_no_mark(d2, '.');
    lemma_no_mark(d3, '.');
    let s0 = head + d0;
    assert(holds_no(s0, '.')) by {
        assert forall|i: int| 0 <= i < s0.len() implies #[trigger] s0[i] != '.' by {
            if i < head.len() {
                assert(s0[i] == head[i]);
            } else {
                assert(s0[i] == d0[i - head.len()]);
            }
        }
    }
    let s1 = s0.push('.') + d1;
    let s2 = s1.push('.') + d2;
    let s3 = s2.push('.') + d3;
    lemma_one_piece(s0, '.');
    lemma_piece_more(s0, '.', d1);
    lemma_piece_more(s1, '.', d2);
    lemma_piece_more(s2, '.', d3);
    assert(head + v4_text(a) =~= s3);
    assert(split(s3, '.') =~= seq![s0, d1, d2, d3]);
    let t = v4_text(a);
    assert(t =~= d0.push('.') + d1.push('.') + d2.push('.') + d3);
    assert forall|i: int| 0 <= i < t.len() implies t[i] == '.' || is_digit(#[trigger] t[i]) by {
        let (n0, n1, n2) = (d0.len() + 1, d1.len() + 1, d2.len() + 1);
        if i < n0 - 1 {
            assert(t[i] == d0[i]);
        } else if n0 <= i < n0 + n1 - 1 {
            assert(t[i] == d1[i - n0]);
        } else if n0 + n1 <= i < n0 + n1 + n2 - 1 {
            assert(t[i] == d2[i - n0 - n1]);
        } else if i >= n0 + n1 + n2 {
            assert(t[i] == d3[i - n0 - n1 - n2]);
        }
    }
}

proof fn lemma_v4_read(a: u32)
    ensures
        v4_of(v4_text(a)) == Some(a),
{
    let none = Seq::<char>::empty();
    lemma_cut_at_points(none, a);
    assert(none + v4_text(a) =~= v4_text(a));
    let o = octets_of(a);
    assert(none + dec(o[0]) =~= dec(o[0]));
    lemma_octet(o[0]);
    lemma_octet(o[1]);
    lemma_octet(o[2]);
    lemma_octet(o[3]);
    assert(o[0] * 0x100_0000 + o[1] * 0x1_0000 + o[2] * 0x100 + o[3] == a);
}

// ---- groups ----------------------------------------------------------------

/// A hexadecimal digit, as it is written.
pub open spec fn is_hex(c: char) -> bool {
    '0' <= c <= '9' || 'a' <= c <= 'f'
}

proof fn lemma_hex(n: nat)
    ensures
        hex_number(hex_of(n)) == Some(n),
        hex_of(n).len() > 0,
        forall|i: int| 0 <= i < hex_of(n).len() ==> is_hex(#[trigger] hex_of(n)[i]),
    decreases n,
{
    let d = hex_digit(n % 16);
    assert(is_hex(d) && hex_value(d) == Some(n % 16));
    let h = hex_of(n);
    if n < 16 {
        assert(h.drop_last() =~= Seq::empty());
        assert(hex_number(h.drop_last()) == Some(0nat));
    } else {
        lemma_hex(n / 16);
        assert(h.drop_last() =~= hex_of(n / 16));
        assert forall|i: int| 0 <= i < h.len() implies is_hex(#[trigger] h[i]) by {
            if i < hex_of(n / 16).len() {
                assert(h[i] == hex_of(n / 16)[i]);
            }
        }
    }
}

proof fn lemma_group(n: nat)
    requires
        n <= 0xffff,
    ensures
        group(hex_of(n)) == Some(n),
        hex_of(n).len() > 0,
        forall|i: int| 0 <= i < hex_of(n).len() ==> is_hex(#[trigger] hex_of(n)[i]),
{
    lemma_hex(n);
    reveal_with_fuel(hex_of, 5);
    assert(hex_of(n).len() <= 4);
}

/// Groups that fit their place.
pub open spec fn small(g: Seq<nat>) -> bool {
    forall|i: int| 0 <= i < g.len() ==> #[trigger] g[i] <= 0xffff
}

/// No two colons stand together in `s`, nor is one at its end.
pub open spec fn no_gap(s: Seq<char>) -> bool {
    &&& forall|i: int|
        0 <= i < s.len() ==> #[trigger] s[i] != ':' || i + 1 < s.len() && s[i + 1] != ':'
    &&& forall|i: int| 0 <= i < s.len() ==> is_hex(#[trigger] s[i]) || s[i] == ':'
}

/// Groups that are written between colons are read back.
proof fn lemma_colons(g: Seq<nat>)
    requires
        small(g),
    ensures
        no_gap(colons(g)),
        g.len() > 0 ==> colons(g).len() > 0,
        groups_plain(parts_of(colons(g))) == Some(g),
        groups(parts_of(colons(g))) == Some(g),
    decreases g.len(),
{
    reveal_strlit(":");
    let s = colons(g);
    if g.len() == 0 {
        assert(g =~= Seq::empty());
    } else {
        let h = hex_of(g.last());
        assert(g[g.len() - 1] <= 0xffff);
        lemma_group(g.last());
        assert(holds_no(h, ':')) by {
            assert forall|i: int| 0 <= i < h.len() implies #[trigger] h[i] != ':' by {
                assert(is_hex(h[i]));
            }
        }
        let most = g.drop_last();
        assert(small(most)) by {
            assert forall|i: int| 0 <= i < most.len() implies #[trigger] most[i] <= 0xffff by {
                assert(most[i] == g[i]);
            }
        }
        lemma_colons(most);
        let p = parts_of(s);
        if g.len() == 1 {
            lemma_one_piece(h, ':');
            assert(most =~= Seq::empty());
            assert(p.drop_last() =~= Seq::empty());
            assert(Seq::<nat>::empty().push(g.last()) =~= g);
        } else {
            let t = colons(most);
            assert(s =~= t.push(':') + h);
            lemma_piece_more(t, ':', h);
            assert(p.drop_last() =~= parts_of(t));
            assert(most.push(g.last()) =~= g);
            assert forall|i: int| 0 <= i < s.len() implies #[trigger] s[i] != ':' || i + 1
                < s.len() && s[i + 1] != ':' by {
                if i < t.len() {
                    assert(s[i] == t[i]);
                    if i + 1 < t.len() {
                        assert(s[i + 1] == t[i + 1]);
                    }
                } else if i == t.len() {
                    assert(s[i + 1] == h[0]);
                } else {
                    assert(s[i] == h[i - t.len() - 1]);
                }
            }
            assert forall|i: int| 0 <= i < s.len() implies is_hex(#[trigger] s[i]) || s[i]
                == ':' by {
                if i < t.len() {
                    assert(s[i] == t[i]);
                } else if i > t.len() {
                    assert(s[i] == h[i - t.len() - 1]);
                }
            }
        }
        assert(p.last() == h);
    }
}

proof fn lemma_no_gap(s: Seq<char>, from: int)
    requires
        no_gap(s),
        0 <= from,
    ensures
        gap_at(s, from) is None,
    decreases s.len() - from,
{
    if from + 1 < s.len() {
        lemma_no_gap(s, from + 1);
        assert(s[from] != ':' || s[from + 1] != ':');
    }
}

proof fn lemma_gap_found(a: Seq<char>, b: Seq<char>, from: int)
    requires
        no_gap(a),
        0 <= from <= a.len(),
    ensures
        gap_at(a + seq![':', ':'] + b, from) == Some(a.len() as int),
    decreases a.len() - from,
{
    let s = a + seq![':', ':'] + b;
    if from < a.len() {
        lemma_gap_found(a, b, from + 1);
        assert(s[from] == a[from]);
        if from + 1 < a.len() {
            assert(s[from + 1] == a[from + 1]);
        }
    } else {
        assert(s[from] == ':' && s[from + 1] == ':');
    }
}

proof fn lemma_run(g: Seq<nat>, i: int)
    requires
        0 <= i,
    ensures
        run_at(g, i) > 0 ==> i + run_at(g, i) <= g.len(),
        forall|k: int| i <= k < i + run_at(g, i) ==> #[trigger] g[k] == 0,
    decreases g.len() - i,
{
    if i < g.len() && g[i] == 0 {
        lemma_run(g, i + 1);
    }
}

proof fn lemma_longest(g: Seq<nat>, n: nat)
    ensures
        ({
            let (at, len) = longest(g, n);
            &&& 0 <= at
            &&& len > 0 ==> at + len <= g.len()
            &&& forall|k: int| at <= k < at + len ==> #[trigger] g[k] == 0
        }),
    decreases n,
{
    if n > 0 {
        lemma_longest(g, (n - 1) as nat);
        lemma_run(g, n - 1);
    }
}

// ---- the number ------------------------------------------------------------

/// How many numbers `k` groups can write.
pub open spec fn reach(k: nat) -> nat
    decreases k,
{
    if k == 0 {
        1
    } else {
        0x1_0000 * reach((k - 1) as nat)
    }
}

/// The last `k` groups of an address that fits them are its number.
proof fn lemma_number(a: u128, k: nat)
    requires
        k <= 8,
        a < reach(k),
    ensures
        v6_number(Seq::new(k, |i: int| group_of(a, (8 - k + i) as nat))) == a,
    decreases k,
{
    let g = Seq::new(k, |i: int| group_of(a, (8 - k + i) as nat));
    if k > 0 {
        let b = a / 0x1_0000;
        let most = Seq::new((k - 1) as nat, |i: int| group_of(b, (8 - (k - 1) + i) as nat));
        assert(b < reach((k - 1) as nat)) by (nonlinear_arith)
            requires
                a < 0x1_0000 * reach((k - 1) as nat),
                b == a / 0x1_0000,
        ;
        lemma_number(b, (k - 1) as nat);
        assert forall|i: int| 0 <= i < k - 1 implies g.drop_last()[i] == most[i] by {
            assert(group_of(a, (8 - k + i) as nat) == group_of(b, (8 - k + i + 1) as nat));
        }
        assert(g.drop_last() =~= most);
        assert(g.last() == group_of(a, 7));
        assert(b * 0x1_0000 + a % 0x1_0000 == a);
    }
}

proof fn lemma_groups_number(a: u128)
    ensures
        v6_number(groups_of(a)) == a,
        small(groups_of(a)),
{
    reveal_with_fuel(reach, 9);
    assert(reach(8) == 0x1_0000_0000_0000_0000_0000_0000_0000_0000);
    lemma_number(a, 8);
    let g = groups_of(a);
    assert(g =~= Seq::new(8, |i: int| group_of(a, (8 - 8 + i) as nat)));
    assert forall|i: int| 0 <= i < 8 implies #[trigger] g[i] <= 0xffff by {
        super::ip::lemma_group_of(a, i as nat);
    }
}

/// A longer address that shows no dotted one is read back.
proof fn lemma_v6_plain(a: u128)
    requires
        a / 0x1_0000_0000 != 0xffff,
    ensures
        v6_groups(v6_text(a)) == Some(groups_of(a)),
        forall|i: int|
            0 <= i < v6_text(a).len() ==> is_hex(#[trigger] v6_text(a)[i]) || v6_text(a)[i] == ':',
{
    reveal_strlit("::");
    let g = groups_of(a);
    let s = v6_text(a);
    lemma_groups_number(a);
    lemma_longest(g, 8);
    let (at, len) = longest(g, 8);
    if len > 1 {
        let (x, y) = (g.take(at), g.skip(at + len));
        assert(small(x)) by {
            assert forall|i: int| 0 <= i < x.len() implies #[trigger] x[i] <= 0xffff by {
                assert(x[i] == g[i]);
            }
        }
        assert(small(y)) by {
            assert forall|i: int| 0 <= i < y.len() implies #[trigger] y[i] <= 0xffff by {
                assert(y[i] == g[i + at + len]);
            }
        }
        lemma_colons(x);
        lemma_colons(y);
        let (t, u) = (colons(x), colons(y));
        assert("::"@ =~= seq![':', ':']);
        assert(s =~= t + seq![':', ':'] + u);
        lemma_gap_found(t, u, 0);
        assert(s.take(t.len() as int) =~= t);
        assert(s.skip(t.len() as int + 2) =~= u);
        assert(x + zeros((8 - x.len() - y.len()) as nat) + y =~= g);
        assert forall|i: int| 0 <= i < s.len() implies is_hex(#[trigger] s[i]) || s[i] == ':' by {
            if i < t.len() {
                assert(s[i] == t[i]);
            } else if i >= t.len() + 2 {
                assert(s[i] == u[i - t.len() - 2]);
            }
        }
    } else {
        lemma_colons(g);
        lemma_no_gap(s, 0);
    }
}

/// The group before a dotted address.
proof fn lemma_ffff()
    ensures
        groups_plain(seq![seq!['f', 'f', 'f', 'f']]) == Some(seq![0xffffnat]),
        holds_no(seq!['f', 'f', 'f', 'f'], ':'),
{
    let f = seq!['f', 'f', 'f', 'f'];
    reveal_with_fuel(hex_number, 5);
    assert(f.drop_last() =~= seq!['f', 'f', 'f']);
    assert(seq!['f', 'f', 'f'].drop_last() =~= seq!['f', 'f']);
    assert(seq!['f', 'f'].drop_last() =~= seq!['f']);
    assert(seq!['f'].drop_last() =~= Seq::empty());
    assert(hex_value('f') == Some(15nat));
    assert(group(f) == Some(0xffffnat));
    assert(seq![f].drop_last() =~= Seq::empty());
    assert(groups_plain(Seq::<Seq<char>>::empty()) == Some(Seq::<nat>::empty()));
    assert(Seq::<nat>::empty().push(0xffffnat) =~= seq![0xffffnat]);
}

/// The number of the groups that carry a dotted address.
proof fn lemma_mapped_number(b: u32)
    ensures
        v6_number(
            zeros(5) + seq![0xffffnat, (b / 0x1_0000) as nat, (b % 0x1_0000) as nat],
        ) == 0xffff_0000_0000 + b,
{
    let y = seq![0xffffnat, (b / 0x1_0000) as nat, (b % 0x1_0000) as nat];
    let g = zeros(5) + y;
    let g7 = zeros(5) + seq![y[0], y[1]];
    let g6 = zeros(5) + seq![y[0]];
    assert(g.drop_last() =~= g7);
    assert(g7.drop_last() =~= g6);
    assert(g6.drop_last() =~= zeros(5));
    lemma_zeros(zeros(5));
    assert(v6_number(g6) == 0xffff);
    assert(v6_number(g7) == 0xffff * 0x1_0000 + b / 0x1_0000);
}

/// A longer address that carries a dotted one is read back.
proof fn lemma_v6_mapped(a: u128)
    requires
        a / 0x1_0000_0000 == 0xffff,
    ensures
        v6_groups(v6_text(a)) is Some,
        v6_number(v6_groups(v6_text(a))->0) == a,
        v4_of(v6_text(a)) is None,
        holds_no(v6_text(a), '/'),
{
    reveal_strlit("::ffff:");
    let b = (a % 0x1_0000_0000) as u32;
    let head = "::ffff:"@;
    let t = v4_text(b);
    let s = v6_text(a);
    assert(s == head + t);
    // Not a dotted address by itself.
    lemma_cut_at_points(head, b);
    let first = head + dec(octets_of(b)[0]);
    assert(first[0] == ':' && !is_digit(first[0]));
    assert(octet(first) is None);
    assert(v4_of(s) is None);
    // The gap, the one group, and the dotted rest.
    let none = Seq::<char>::empty();
    let f = seq!['f', 'f', 'f', 'f'];
    let u = f.push(':') + t;
    assert(s =~= none + seq![':', ':'] + u);
    lemma_gap_found(none, u, 0);
    assert(s.take(0) =~= none);
    assert(s.skip(2) =~= u);
    lemma_ffff();
    lemma_one_piece(f, ':');
    lemma_piece_more(f, ':', t);
    let p = parts_of(u);
    assert(p =~= seq![f, t]);
    assert(p.drop_last() =~= seq![f]);
    lemma_v4_read(b);
    let y = seq![0xffffnat, (b / 0x1_0000) as nat, (b % 0x1_0000) as nat];
    assert(seq![0xffffnat].push((b / 0x1_0000) as nat).push((b % 0x1_0000) as nat) =~= y);
    assert(group(t) is None);
    assert(groups(p) == Some(y));
    assert(groups_plain(parts_of(none)) == Some(Seq::<nat>::empty()));
    assert(Seq::<nat>::empty() + zeros(5) + y =~= zeros(5) + y);
    assert(v6_groups(s) == Some(zeros(5) + y));
    lemma_mapped_number(b);
    assert(a == 0xffff_0000_0000 + b);
    assert forall|i: int| 0 <= i < s.len() implies #[trigger] s[i] != '/' by {
        if i >= head.len() {
            assert(s[i] == t[i - head.len()]);
        }
    }
}

proof fn lemma_zeros(g: Seq<nat>)
    requires
        forall|i: int| 0 <= i < g.len() ==> #[trigger] g[i] == 0,
    ensures
        v6_number(g) == 0,
    decreases g.len(),
{
    if g.len() > 0 {
        let most = g.drop_last();
        assert forall|i: int| 0 <= i < most.len() implies #[trigger] most[i] == 0 by {
            assert(most[i] == g[i]);
        }
        lemma_zeros(most);
        assert(g[g.len() - 1] == 0);
    }
}

/// An address that is written is read back.
pub proof fn law_an_address_reads_back(ip: Ip)
    ensures
        ip_of(ip_text(ip)) == Some(ip),
        holds_no(ip_text(ip), '/'),
{
    match ip {
        Ip::V4(a) => {
            lemma_v4_read(a);
            lemma_cut_at_points(Seq::empty(), a);
        },
        Ip::V6(a) => {
            let s = v6_text(a);
            if a / 0x1_0000_0000 == 0xffff {
                lemma_v6_mapped(a);
            } else {
                lemma_v6_plain(a);
                lemma_groups_number(a);
                assert(holds_no(s, '.') && holds_no(s, '/')) by {
                    assert forall|i: int| 0 <= i < s.len() implies #[trigger] s[i] != '.' && s[i]
                        != '/' by {
                        assert(is_hex(s[i]) || s[i] == ':');
                    }
                }
                lemma_one_piece(s, '.');
            }
        },
    }
}

/// A network that can be given: it has a prefix, and one that fits its address.
pub open spec fn sayable_net(n: LocalNet) -> bool {
    1 <= n.prefix <= (if n.addr is V4 {
        32int
    } else {
        128
    })
}

/// Two networks that hold the same addresses, whatever address each is written with.
pub open spec fn same_net(a: LocalNet, b: LocalNet) -> bool {
    network_of(a) == network_of(b) && a.prefix == b.prefix
}

/// A network that is written is read back: with the network's own address, and the
/// same network.
pub proof fn law_a_network_reads_back(n: LocalNet)
    requires
        sayable_net(n),
    ensures
        net_of(cidr(n)) == Ok::<LocalNet, Seq<char>>(
            LocalNet { addr: network_of(n), prefix: n.prefix },
        ),
        same_net(LocalNet { addr: network_of(n), prefix: n.prefix }, n),
{
    reveal_strlit("/");
    let s = ip_text(network_of(n));
    let d = dec(n.prefix as nat);
    law_an_address_reads_back(network_of(n));
    lemma_digits(n.prefix as nat);
    lemma_no_mark(d, '/');
    lemma_one_piece(s, '/');
    lemma_piece_more(s, '/', d);
    assert(cidr(n) =~= s.push('/') + d);
    assert(split(cidr(n), '/') =~= seq![s, d]);
    assert(is_digit(d[0]));
    assert(parsed_max(d, 255) == Some(n.prefix as nat));
    match n.addr {
        Ip::V4(a) => {
            let m = mask32_of(n.prefix);
            assert((a & m) & m == a & m) by (bit_vector);
        },
        Ip::V6(a) => {
            let m = mask128_of(n.prefix);
            assert((a & m) & m == a & m) by (bit_vector);
        },
    }
}

/// Every network that is read can be given again.
pub proof fn lemma_read_is_sayable(text: Seq<char>)
    ensures
        net_of(text) is Ok ==> sayable_net(net_of(text)->Ok_0),
{
}

} // verus!
