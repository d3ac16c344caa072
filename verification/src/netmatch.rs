//! Which of an alias's hosts is on a network this machine is on: the client's
//! own networks matched against the addresses each host name resolves to.

pub mod ip;
pub mod laws;

use crate::netmatch::ip::{ip_text, parse_ip, show_ip, ip_of, Ip};
use crate::text::{chars_of, dec, decimal, parse_uint, parsed_max, split, split_at_char, views};
use vstd::prelude::*;

verus! {

/// A network: an address and the prefix length of its network.
#[derive(Debug, Clone, Copy, PartialEq, Eq, Structural)]
pub struct LocalNet {
    pub addr: Ip,
    pub prefix: u8,
}

/// The first `p` bits of two 32-bit addresses are the same.
pub open spec fn same_bits32(a: u32, b: u32, p: u8) -> bool {
    p == 0 || (if p >= 32 {
        a == b
    } else {
        a >> ((32 - p) as u32) == b >> ((32 - p) as u32)
    })
}

/// The first `p` bits of two 128-bit addresses are the same.
pub open spec fn same_bits128(a: u128, b: u128, p: u8) -> bool {
    p == 0 || (if p >= 128 {
        a == b
    } else {
        a >> ((128 - p) as u32) == b >> ((128 - p) as u32)
    })
}

/// `ip` is on the network: the same family, and the same first bits.
pub open spec fn on(n: LocalNet, ip: Ip) -> bool {
    match (n.addr, ip) {
        (Ip::V4(a), Ip::V4(b)) => same_bits32(a, b, n.prefix),
        (Ip::V6(a), Ip::V6(b)) => same_bits128(a, b, n.prefix),
        _ => false,
    }
}

/// Worth matching against: not loopback, link-local, unspecified, or every
/// address there is.
pub open spec fn worth(n: LocalNet) -> bool {
    n.prefix != 0 && match n.addr {
        Ip::V4(a) => !(a / 0x100_0000 == 127 || a / 0x1_0000 == 0xa9fe || a == 0),
        Ip::V6(a) => !(a == 1 || a == 0 || a / 0x40_0000_0000_0000_0000_0000_0000_0000 == 0x3fa),
    }
}

pub open spec fn mask32_of(p: u8) -> u32 {
    if p == 0 {
        0
    } else if p >= 32 {
        u32::MAX
    } else {
        u32::MAX << ((32 - p) as u32)
    }
}

pub open spec fn mask128_of(p: u8) -> u128 {
    if p == 0 {
        0
    } else if p >= 128 {
        u128::MAX
    } else {
        u128::MAX << ((128 - p) as u32)
    }
}

fn mask32(prefix: u8) -> (m: u32)
    ensures
        m == mask32_of(prefix),
{
    if prefix == 0 {
        0
    } else if prefix >= 32 {
        u32::MAX
    } else {
        u32::MAX << ((32 - prefix) as u32)
    }
}

fn mask128(prefix: u8) -> (m: u128)
    ensures
        m == mask128_of(prefix),
{
    if prefix == 0 {
        0
    } else if prefix >= 128 {
        u128::MAX
    } else {
        u128::MAX << ((128 - prefix) as u32)
    }
}

proof fn lemma_mask32(a: u32, b: u32, p: u8)
    ensures
        (a & mask32_of(p) == b & mask32_of(p)) == same_bits32(a, b, p),
{
    if p == 0 {
        assert(a & 0u32 == 0 && b & 0u32 == 0) by (bit_vector);
    } else if p >= 32 {
        assert(a & 0xffff_ffffu32 == a && b & 0xffff_ffffu32 == b) by (bit_vector);
    } else {
        let s = (32 - p) as u32;
        assert((a & (0xffff_ffffu32 << s) == b & (0xffff_ffffu32 << s)) == (a >> s == b >> s))
            by (bit_vector)
            requires
                s < 32,
        ;
    }
}

/// What a mask keeps is what a shift keeps.
proof fn lemma_high128(a: u128, s: u32)
    requires
        s < 128,
    ensures
        a & (0xffff_ffff_ffff_ffff_ffff_ffff_ffff_ffffu128 << s) == (a >> s) << s,
        ((a >> s) << s) >> s == a >> s,
{
    assert(a & (0xffff_ffff_ffff_ffff_ffff_ffff_ffff_ffffu128 << s) == (a >> s) << s)
        by (bit_vector)
        requires
            s < 128,
    ;
    assert(((a >> s) << s) >> s == a >> s) by (bit_vector)
        requires
            s < 128,
    ;
}

proof fn lemma_mask128(a: u128, b: u128, p: u8)
    ensures
        (a & mask128_of(p) == b & mask128_of(p)) == same_bits128(a, b, p),
{
    if p == 0 {
        assert(a & 0u128 == 0 && b & 0u128 == 0) by (bit_vector);
    } else if p >= 128 {
        assert(a & 0xffff_ffff_ffff_ffff_ffff_ffff_ffff_ffffu128 == a && b
            & 0xffff_ffff_ffff_ffff_ffff_ffff_ffff_ffffu128 == b) by (bit_vector);
    } else {
        let s = (128 - p) as u32;
        lemma_high128(a, s);
        lemma_high128(b, s);
    }
}

/// The network's own address: what comes after the prefix is zero.
pub open spec fn network_of(n: LocalNet) -> Ip {
    match n.addr {
        Ip::V4(a) => Ip::V4(a & mask32_of(n.prefix)),
        Ip::V6(a) => Ip::V6(a & mask128_of(n.prefix)),
    }
}

/// The network in CIDR form: `192.168.1.0/24`, `fd00::/64`.
pub open spec fn cidr(n: LocalNet) -> Seq<char> {
    ip_text(network_of(n)) + "/"@ + dec(n.prefix as nat)
}

/// What is said of text that is no network.
pub open spec fn no_network_text(text: Seq<char>) -> Seq<char> {
    "expected a network such as 172.16.0.0/16 or fd00::/48, found '"@ + text + "'"@
}

/// The network that `text` writes, or why it writes none.
pub open spec fn net_of(text: Seq<char>) -> Result<LocalNet, Seq<char>> {
    let parts = split(text, '/');
    if parts.len() != 2 {
        Err(no_network_text(text))
    } else {
        match (ip_of(parts[0]), parsed_max(parts[1], 255)) {
            (Some(addr), Some(p)) => {
                let most = if addr is V4 {
                    32nat
                } else {
                    128nat
                };
                if p == 0 {
                    Err("'"@ + text + "': a /0 network is every address"@)
                } else if p > most {
                    Err(
                        "'"@ + text + "': /"@ + dec(p) + " is too long for an "@ + (if addr is V4 {
                            "IPv4"@
                        } else {
                            "IPv6"@
                        }) + " network (at most /"@ + dec(most) + ")"@,
                    )
                } else {
                    Ok(LocalNet { addr, prefix: p as u8 })
                }
            },
            _ => Err(no_network_text(text)),
        }
    }
}

fn no_network(text: &str) -> (s: String)
    ensures
        s@ == no_network_text(text@),
{
    let mut s = "expected a network such as 172.16.0.0/16 or fd00::/48, found '".to_owned();
    s.append(text);
    s.append("'");
    s
}

impl LocalNet {
    pub fn new(addr: Ip, prefix: u8) -> (n: LocalNet)
        ensures
            n == (LocalNet { addr, prefix }),
    {
        LocalNet { addr, prefix }
    }

    /// Whether `ip` is on this network: the same family, and the same first
    /// `prefix` bits.
    pub fn contains(&self, ip: Ip) -> (r: bool)
        ensures
            r == on(*self, ip),
    {
        match (self.addr, ip) {
            (Ip::V4(n), Ip::V4(a)) => {
                let mask = mask32(self.prefix);
                proof {
                    lemma_mask32(n, a, self.prefix);
                }
                n & mask == a & mask
            },
            (Ip::V6(n), Ip::V6(a)) => {
                let mask = mask128(self.prefix);
                proof {
                    lemma_mask128(n, a, self.prefix);
                }
                n & mask == a & mask
            },
            _ => false,
        }
    }

    /// Worth matching against.
    pub fn usable(&self) -> (r: bool)
        ensures
            r == worth(*self),
    {
        if self.prefix == 0 {
            return false;
        }
        match self.addr {
            Ip::V4(a) => !(a / 0x100_0000 == 127 || a / 0x1_0000 == 0xa9fe || a == 0),
            Ip::V6(a) => !(a == 1 || a == 0 || a / 0x40_0000_0000_0000_0000_0000_0000_0000 == 0x3fa),
        }
    }

    /// The network in CIDR form.
    pub fn text(&self) -> (s: String)
        ensures
            s@ == cidr(*self),
    {
        let net = match self.addr {
            Ip::V4(a) => Ip::V4(a & mask32(self.prefix)),
            Ip::V6(a) => Ip::V6(a & mask128(self.prefix)),
        };
        let mut s = show_ip(net);
        s.append("/");
        s.append(&decimal(self.prefix as u64));
        s
    }

    /// The network that `text` writes.
    pub fn parse(text: &str) -> (r: Result<LocalNet, String>)
        ensures
            match r {
                Ok(n) => net_of(text@) == Ok::<LocalNet, Seq<char>>(n),
                Err(e) => net_of(text@) == Err::<LocalNet, Seq<char>>(e@),
            },
    {
        let parts = split_at_char(&chars_of(text), '/');
        assert(views(parts@).len() == parts@.len());
        if parts.len() != 2 {
            return Err(no_network(text));
        }
        assert(views(parts@)[0] == parts@[0]@ && views(parts@)[1] == parts@[1]@);
        match (parse_ip(&parts[0]), parse_uint(&parts[1], 255)) {
            (Some(addr), Some(p)) => {
                let v4 = match addr {
                    Ip::V4(_) => true,
                    Ip::V6(_) => false,
                };
                let most: u64 = if v4 {
                    32
                } else {
                    128
                };
                if p == 0 {
                    let mut s = "'".to_owned();
                    s.append(text);
                    s.append("': a /0 network is every address");
                    Err(s)
                } else if p > most {
                    let mut s = "'".to_owned();
                    s.append(text);
                    s.append("': /");
                    s.append(&decimal(p));
                    s.append(" is too long for an ");
                    s.append(
                        if v4 {
                            "IPv4"
                        } else {
                            "IPv6"
                        },
                    );
                    s.append(" network (at most /");
                    s.append(&decimal(most));
                    s.append(")");
                    Err(s)
                } else {
                    Ok(LocalNet { addr, prefix: p as u8 })
                }
            },
            _ => Err(no_network(text)),
        }
    }
}

/// One of `addrs` is on the network.
pub open spec fn any_on(n: LocalNet, addrs: Seq<Ip>) -> bool {
    exists|k: int| 0 <= k < addrs.len() && on(n, #[trigger] addrs[k])
}

/// The first of `nets` that one of `addrs` is on.
pub open spec fn first_match(nets: Seq<LocalNet>, addrs: Seq<Ip>) -> Option<LocalNet>
    decreases nets.len(),
{
    if nets.len() == 0 {
        None
    } else if any_on(nets[0], addrs) {
        Some(nets[0])
    } else {
        first_match(nets.skip(1), addrs)
    }
}

fn holds_any(n: &LocalNet, addrs: &[Ip]) -> (r: bool)
    ensures
        r == any_on(*n, addrs@),
{
    let mut i: usize = 0;
    while i < addrs.len()
        invariant
            i <= addrs.len(),
            forall|k: int| 0 <= k < i ==> !on(*n, #[trigger] addrs@[k]),
        decreases addrs.len() - i,
    {
        if n.contains(addrs[i]) {
            assert(on(*n, addrs@[i as int]));
            return true;
        }
        i = i + 1;
    }
    false
}

/// The first of `nets` that one of `addrs` is on.
pub fn matching(nets: &[LocalNet], addrs: &[Ip]) -> (r: Option<LocalNet>)
    ensures
        r == first_match(nets@, addrs@),
{
    let mut i: usize = 0;
    assert(nets@.skip(0) =~= nets@);
    while i < nets.len()
        invariant
            i <= nets.len(),
            first_match(nets@, addrs@) == first_match(nets@.skip(i as int), addrs@),
        decreases nets.len() - i,
    {
        assert(nets@.skip(i as int)[0] == nets@[i as int]);
        assert(nets@.skip(i as int).skip(1) =~= nets@.skip(i + 1));
        if holds_any(&nets[i], addrs) {
            return Some(nets[i]);
        }
        i = i + 1;
    }
    None
}

/// How many bits a byte has set.
pub open spec fn ones(b: u8) -> nat {
    (b % 2 + b / 2 % 2 + b / 4 % 2 + b / 8 % 2 + b / 16 % 2 + b / 32 % 2 + b / 64 % 2 + b
        / 128) as nat
}

/// How many bits of a netmask are set, with bytes that are missing read as zero.
pub open spec fn ones_of(mask: Seq<u8>) -> nat
    decreases mask.len(),
{
    if mask.len() == 0 {
        0
    } else {
        ones_of(mask.drop_last()) + ones(mask.last())
    }
}

/// A netmask's prefix length, from the address bytes of it that there are.
pub fn mask_prefix(mask: &[u8]) -> (p: u8)
    requires
        mask.len() <= 16,
    ensures
        p == ones_of(mask@),
{
    let mut n: u8 = 0;
    for i in 0..mask.len()
        invariant
            mask.len() <= 16,
            n == ones_of(mask@.take(i as int)),
            n <= 8 * i,
    {
        let b = mask[i];
        assert(mask@.take(i + 1).drop_last() =~= mask@.take(i as int));
        n = n + (b % 2 + b / 2 % 2 + b / 4 % 2 + b / 8 % 2 + b / 16 % 2 + b / 32 % 2 + b / 64 % 2 + b
            / 128);
    }
    assert(mask@.take(mask@.len() as int) =~= mask@);
    n
}

/// One address of a network interface: whether the interface is up, its address if
/// that is of a family here, and the address bytes of its netmask if it has one.
pub struct Interface {
    pub up: bool,
    pub addr: Option<Ip>,
    pub mask: Option<Vec<u8>>,
}

/// The network that an interface is on, if it is up and the network is worth matching
/// against.
pub open spec fn network_at(i: Interface) -> Option<LocalNet> {
    match (i.addr, i.mask) {
        (Some(addr), Some(mask)) => {
            let net = LocalNet { addr, prefix: ones_of(mask@) as u8 };
            if i.up && worth(net) {
                Some(net)
            } else {
                None
            }
        },
        _ => None,
    }
}

/// The networks that interfaces are on, in order.
pub open spec fn networks_at(found: Seq<Interface>) -> Seq<LocalNet>
    decreases found.len(),
{
    if found.len() == 0 {
        Seq::empty()
    } else {
        match network_at(found.last()) {
            Some(net) => networks_at(found.drop_last()).push(net),
            None => networks_at(found.drop_last()),
        }
    }
}

/// The networks this machine is on: every up interface's address with its prefix, the
/// [`LocalNet::usable`] ones.
pub fn local_networks(found: &[Interface]) -> (nets: Vec<LocalNet>)
    requires
        forall|i: int|
            0 <= i < found@.len() ==> match (#[trigger] found@[i]).mask {
                Some(m) => m@.len() <= 16,
                None => true,
            },
    ensures
        nets@ == networks_at(found@),
{
    let mut nets: Vec<LocalNet> = Vec::new();
    assert(nets@ =~= networks_at(found@.take(0)));
    for i in 0..found.len()
        invariant
            nets@ == networks_at(found@.take(i as int)),
            forall|i: int|
                0 <= i < found@.len() ==> match (#[trigger] found@[i]).mask {
                    Some(m) => m@.len() <= 16,
                    None => true,
                },
    {
        let f = &found[i];
        proof {
            assert(found@.take(i + 1).drop_last() =~= found@.take(i as int));
            assert(found@.take(i + 1).last() == *f);
            assert(found@[i as int] == *f);
        }
        if let (Some(addr), Some(mask)) = (&f.addr, &f.mask) {
            let net = LocalNet::new(*addr, mask_prefix(mask));
            if f.up && net.usable() {
                nets.push(net);
            }
        }
    }
    assert(found@.take(found@.len() as int) =~= found@);
    nets
}

/// An address is on its own network, and the network's text names it.
pub proof fn law_an_address_is_on_its_own_network(n: LocalNet)
    ensures
        on(n, n.addr),
        on(n, network_of(n)),
{
    match n.addr {
        Ip::V4(a) => {
            let m = mask32_of(n.prefix);
            assert((a & m) & m == a & m) by (bit_vector);
            lemma_mask32(a, a & m, n.prefix);
        },
        Ip::V6(a) => {
            let m = mask128_of(n.prefix);
            assert((a & m) & m == a & m) by (bit_vector);
            lemma_mask128(a, a & m, n.prefix);
        },
    }
}

/// The network an address is found on: the first in the list that any of the addresses is
/// on, and none exactly where they are on none.
pub proof fn law_the_first_network_that_matches(nets: Seq<LocalNet>, addrs: Seq<Ip>)
    ensures
        first_match(nets, addrs) is None <==> forall|i: int, k: int|
            0 <= i < nets.len() && 0 <= k < addrs.len() ==> !on(#[trigger] nets[i], #[trigger] addrs[k]),
        first_match(nets, addrs) matches Some(n) ==> exists|i: int|
            0 <= i < nets.len() && #[trigger] nets[i] == n && any_on(n, addrs) && forall|j: int|
                0 <= j < i ==> !any_on(#[trigger] nets[j], addrs),
    decreases nets.len(),
{
    if nets.len() > 0 {
        let rest = nets.skip(1);
        law_the_first_network_that_matches(rest, addrs);
        if any_on(nets[0], addrs) {
            assert(nets[0] == nets[0]);
        } else {
            if let Some(n) = first_match(rest, addrs) {
                let i = choose|i: int|
                    0 <= i < rest.len() && #[trigger] rest[i] == n && any_on(n, addrs) && forall|j: int|
                        0 <= j < i ==> !any_on(#[trigger] rest[j], addrs);
                assert(nets[i + 1] == n);
                assert forall|j: int| 0 <= j < i + 1 implies !any_on(#[trigger] nets[j], addrs) by {
                    if j > 0 {
                        assert(rest[j - 1] == nets[j]);
                    }
                }
                let k = choose|k: int| 0 <= k < addrs.len() && on(n, #[trigger] addrs[k]);
                assert(on(nets[i + 1], addrs[k]));
            } else {
                assert forall|i: int, k: int| 0 <= i < nets.len() && 0 <= k < addrs.len() implies !on(
                    #[trigger] nets[i],
                    #[trigger] addrs[k],
                ) by {
                    if i > 0 {
                        assert(rest[i - 1] == nets[i]);
                    }
                }
            }
        }
    }
}

/// Networks that say nothing about where a machine stands are not matched against:
/// loopback, link-local, the unspecified address, and the network of every address there
/// is. Every other is.
pub proof fn law_which_networks_are_matched(n: LocalNet, x: u32)
    requires
        x < 0x100_0000,
    ensures
        n.prefix == 0 ==> !worth(n),
        !worth(LocalNet { addr: Ip::V4((127 * 0x100_0000 + x) as u32), ..n }),
        x < 0x1_0000 ==> !worth(LocalNet { addr: Ip::V4((0xa9fe * 0x1_0000 + x) as u32), ..n }),
        !worth(LocalNet { addr: Ip::V4(0), ..n }),
        !worth(LocalNet { addr: Ip::V6(0), ..n }),
        !worth(LocalNet { addr: Ip::V6(1), ..n }),
        n.prefix > 0 ==> worth(LocalNet { addr: Ip::V4((10 * 0x100_0000 + x) as u32), ..n }),
        n.prefix > 0 && 0 < x < 0x1_0000 ==> worth(
            LocalNet { addr: Ip::V4((0xc0a8 * 0x1_0000 + x) as u32), ..n },
        ),
{
}

/// The netmask of a prefix, as bytes.
pub open spec fn prefix_mask(prefix: nat, bytes: nat) -> Seq<u8> {
    Seq::new(
        bytes,
        |i: int|
            if prefix >= 8 * i + 8 {
                255
            } else if prefix == 8 * i + 7 {
                254
            } else if prefix == 8 * i + 6 {
                252
            } else if prefix == 8 * i + 5 {
                248
            } else if prefix == 8 * i + 4 {
                240
            } else if prefix == 8 * i + 3 {
                224
            } else if prefix == 8 * i + 2 {
                192
            } else if prefix == 8 * i + 1 {
                128
            } else {
                0
            },
    )
}

/// A netmask gives the prefix that it stands for.
pub proof fn law_a_netmask_gives_its_prefix(prefix: nat, bytes: nat)
    ensures
        ones_of(prefix_mask(prefix, bytes)) == if prefix <= 8 * bytes {
            prefix
        } else {
            8 * bytes
        },
    decreases bytes,
{
    let mask = prefix_mask(prefix, bytes);
    if bytes > 0 {
        let less = (bytes - 1) as nat;
        law_a_netmask_gives_its_prefix(prefix, less);
        assert(mask.drop_last() =~= prefix_mask(prefix, less));
    }
}

/// The networks of a machine are those of its interfaces that are up, have an address and
/// are worth matching, in their order: one that is down adds nothing.
pub proof fn law_an_interface_that_is_down_is_on_no_network(found: Seq<Interface>)
    requires
        found.len() > 0,
    ensures
        ({
            let (all, before) = (networks_at(found), networks_at(found.drop_last()));
            let i = found.last();
            &&& !i.up || i.addr is None || i.mask is None ==> all == before
            &&& all == before || (all.drop_last() == before && all.len() == before.len() + 1
                && all.last().addr == i.addr->0 && worth(all.last()) && i.up)
        }),
{
    let before = networks_at(found.drop_last());
    if let Some(net) = network_at(found.last()) {
        assert(before.push(net).drop_last() =~= before);
    }
}

/// A prefix counts bits from the front: an address that differs from the network's in one
/// bit is on the network exactly where that bit is behind the prefix. An address of the
/// other family never is.
pub proof fn law_the_prefix_counts_bits(a: u32, b: u128, p: u8, k: u32)
    ensures
        p <= 32 && k < 32 ==> (on(LocalNet { addr: Ip::V4(a), prefix: p }, Ip::V4(a ^ (1u32 << k)))
            <==> k < 32 - p),
        p <= 128 && k < 128 ==> (on(
            LocalNet { addr: Ip::V6(b), prefix: p },
            Ip::V6(b ^ (1u128 << k)),
        ) <==> k < 128 - p),
        !on(LocalNet { addr: Ip::V4(a), prefix: p }, Ip::V6(b)),
        !on(LocalNet { addr: Ip::V6(b), prefix: p }, Ip::V4(a)),
{
    if p <= 32 && k < 32 {
        assert(a ^ (1u32 << k) != a) by (bit_vector)
            requires
                k < 32,
        ;
        if 0 < p < 32 {
            let s = (32 - p) as u32;
            assert((a >> s == (a ^ (1u32 << k)) >> s) == (k < s)) by (bit_vector)
                requires
                    s < 32,
                    k < 32,
            ;
        }
    }
    if p <= 128 && k < 128 {
        assert(b ^ (1u128 << k) != b) by (bit_vector)
            requires
                k < 128,
        ;
        if 0 < p < 128 {
            let s = (128 - p) as u32;
            let (one, front) = (1u128 << k, mask128_of(p));
            lemma_mask128(b, b ^ one, p);
            assert((b & front == (b ^ one) & front) == (one & front == 0)) by (bit_vector);
            assert(((1u128 << k) & (0xffff_ffff_ffff_ffff_ffff_ffff_ffff_ffffu128 << s) == 0) == (k
                < s)) by (bit_vector)
                requires
                    s < 128,
                    k < 128,
            ;
        }
    }
}

} // verus!
