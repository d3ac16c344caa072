//! Noticing that the local network changed: a Wi-Fi switch or a wake from sleep is a
//! good moment to redial at once instead of waiting out the backoff.
//!
//! Two halves, and the second is the one that decides:
//!
//! 1. A hint that the kernel touched the network at all. On macOS a `PF_ROUTE` socket
//!    also reports ARP cache churn, which is not a change, so only address and
//!    interface messages count there.
//! 2. Whether anything changed: the networks this machine could dial from, compared
//!    with the ones it was on when the hint before it arrived. A hint that leaves them
//!    as they were is the kernel mentioning the network, not the network changing.

use crate::netmatch::ip::{ip_text, show_ip};
use crate::netmatch::LocalNet;
use crate::text::{chars_of, dec, decimal, same, texts};
use vstd::prelude::*;

verus! {

/// An address was added, an address was removed, or an interface changed: the message
/// types that matter.
pub open spec fn type_matters(t: u8) -> bool {
    t == 0xc || t == 0xd || t == 0xe
}

/// Two bytes as a number, the most significant first or last.
pub open spec fn number_of(a: u8, b: u8, big: bool) -> int {
    if big {
        256 * a + b
    } else {
        a + 256 * b
    }
}

/// Routing messages start with their length in two bytes, a version and a type; one of
/// them matters. A length that leads nowhere ends the reading.
pub open spec fn messages_matter(buf: Seq<u8>, big: bool) -> bool
    decreases buf.len(),
{
    if buf.len() < 4 {
        false
    } else if type_matters(buf[3]) {
        true
    } else {
        let len = number_of(buf[0], buf[1], big);
        if len < 4 || len > buf.len() {
            false
        } else {
            messages_matter(buf.skip(len), big)
        }
    }
}

/// Whether one of the messages matters, with lengths written in the given byte order.
pub fn matters(buf: &[u8], big: bool) -> (r: bool)
    ensures
        r == messages_matter(buf@, big),
{
    let mut at: usize = 0;
    let n: usize = buf.len();
    assert(buf@.skip(0) =~= buf@);
    while at < n && 4 <= n - at
        invariant
            at <= n,
            n == buf@.len(),
            messages_matter(buf@.skip(at as int), big) == messages_matter(buf@, big),
        decreases n - at,
    {
        let ghost here = buf@.skip(at as int);
        let (a, b) = (buf[at] as usize, buf[at + 1] as usize);
        assert(here[0] == buf@[at as int] && here[1] == buf@[at + 1] && here[3] == buf@[at + 3]);
        let t = buf[at + 3];
        if t == 0xc || t == 0xd || t == 0xe {
            return true;
        }
        let len = if big {
            256 * a + b
        } else {
            a + 256 * b
        };
        if len < 4 || len > n - at {
            return false;
        }
        assert(here.skip(len as int) =~= buf@.skip(at + len));
        at = at + len;
    }
    false
}

/// `u16::from_ne_bytes` of a zero and a one: which it is tells the byte order of this
/// machine.
#[verifier::external_body]
fn native_one() -> (r: u16)
    ensures
        r == 1 || r == 256,
{
    u16::from_ne_bytes([0, 1])
}

/// Whether one of the BSD routing messages in `buf` matters: address and interface
/// events do, route churn (ARP, neighbour discovery) does not. Lengths are in this
/// machine's byte order.
pub fn route_messages_matter(buf: &[u8]) -> (r: bool)
    ensures
        r == messages_matter(buf@, false) || r == messages_matter(buf@, true),
        messages_matter(buf@, false) == messages_matter(buf@, true) ==> r == messages_matter(
            buf@,
            false,
        ),
{
    matters(buf, native_one() == 1)
}

// ---- the networks ----------------------------------------------------------

/// One text comes before another: character by character, and a text before what
/// goes on from it.
pub open spec fn before(a: Seq<char>, b: Seq<char>) -> bool
    decreases a.len(),
{
    if b.len() == 0 {
        false
    } else if a.len() == 0 {
        true
    } else if a[0] != b[0] {
        (a[0] as int) < (b[0] as int)
    } else {
        before(a.skip(1), b.skip(1))
    }
}

/// Sorted, with nothing twice.
pub open spec fn in_order(v: Seq<Seq<char>>) -> bool {
    forall|i: int, j: int| 0 <= i < j < v.len() ==> before(#[trigger] v[i], #[trigger] v[j])
}

/// The same texts, whatever their order and number.
pub open spec fn same_texts(a: Seq<Seq<char>>, b: Seq<Seq<char>>) -> bool {
    forall|s: Seq<char>| a.contains(s) == #[trigger] b.contains(s)
}

pub proof fn lemma_before_trans(a: Seq<char>, b: Seq<char>, c: Seq<char>)
    requires
        before(a, b),
        before(b, c),
    ensures
        before(a, c),
    decreases a.len(),
{
    if a.len() > 0 && b.len() > 0 && c.len() > 0 && a[0] == b[0] && b[0] == c[0] {
        lemma_before_trans(a.skip(1), b.skip(1), c.skip(1));
    }
}

pub proof fn lemma_before_total(a: Seq<char>, b: Seq<char>)
    ensures
        before(a, b) || a == b || before(b, a),
        !(before(a, b) && before(b, a)),
        before(a, b) ==> a != b,
    decreases a.len(),
{
    if a.len() == 0 || b.len() == 0 {
        if a.len() == 0 && b.len() == 0 {
            assert(a =~= b);
        }
    } else if a[0] == b[0] {
        lemma_before_total(a.skip(1), b.skip(1));
        if a.skip(1) == b.skip(1) {
            assert(a =~= seq![a[0]] + a.skip(1));
            assert(b =~= seq![b[0]] + b.skip(1));
        }
    }
}

fn is_before(a: &str, b: &str) -> (r: bool)
    ensures
        r == before(a@, b@),
{
    let (x, y) = (chars_of(a), chars_of(b));
    let mut i: usize = 0;
    assert(x@.skip(0) =~= x@ && y@.skip(0) =~= y@);
    while i < x.len() && i < y.len() && x[i] == y[i]
        invariant
            i <= x.len(),
            i <= y.len(),
            x@ == a@,
            y@ == b@,
            before(x@.skip(i as int), y@.skip(i as int)) == before(a@, b@),
        decreases x.len() - i,
    {
        proof {
            let (p, q) = (x@.skip(i as int), y@.skip(i as int));
            assert(p[0] == x@[i as int] && q[0] == y@[i as int]);
            assert(p.skip(1) =~= x@.skip(i + 1) && q.skip(1) =~= y@.skip(i + 1));
        }
        i = i + 1;
    }
    proof {
        let (p, q) = (x@.skip(i as int), y@.skip(i as int));
        assert(i < x.len() ==> p[0] == x@[i as int]);
        assert(i < y.len() ==> q[0] == y@[i as int]);
    }
    if i >= y.len() {
        false
    } else if i >= x.len() {
        true
    } else {
        x[i] < y[i]
    }
}

/// Put `s` into a sorted list, unless it is there.
fn put_in(v: &mut Vec<String>, s: String)
    requires
        in_order(texts(old(v)@)),
    ensures
        in_order(texts(final(v)@)),
        forall|t: Seq<char>|
            #[trigger] texts(final(v)@).contains(t) == (texts(old(v)@).contains(t) || t == s@),
{
    let ghost all = texts(v@);
    let mut i: usize = 0;
    while i < v.len() && is_before(&v[i], &s)
        invariant
            i <= v.len(),
            all == texts(v@),
            forall|j: int| 0 <= j < i ==> before(#[trigger] all[j], s@),
        decreases v.len() - i,
    {
        assert(all[i as int] == v@[i as int]@);
        i = i + 1;
    }
    if i < v.len() && same(&v[i], &s) {
        assert(all[i as int] == s@);
        assert(all.contains(s@));
        return;
    }
    let ghost had = v@;
    proof {
        if i < had.len() {
            assert(all[i as int] == had[i as int]@);
            lemma_before_total(all[i as int], s@);
            assert forall|j: int| i <= j < all.len() implies before(s@, #[trigger] all[j]) by {
                if j > i {
                    lemma_before_trans(s@, all[i as int], all[j]);
                }
            }
        }
    }
    v.insert(i, s);
    proof {
        let now = texts(v@);
        assert forall|a: int, b: int| 0 <= a < b < now.len() implies before(
            #[trigger] now[a],
            #[trigger] now[b],
        ) by {
            if a < i && b > i {
                assert(now[a] == all[a] && now[b] == all[b - 1]);
            } else if a < i && b < i {
                assert(now[a] == all[a] && now[b] == all[b]);
            } else if a > i {
                assert(now[a] == all[a - 1] && now[b] == all[b - 1]);
            } else if a == i {
                assert(now[b] == all[b - 1]);
            } else {
                assert(now[a] == all[a]);
            }
        }
        assert forall|t: Seq<char>| #[trigger] now.contains(t) == (all.contains(t) || t == s@) by {
            if all.contains(t) {
                let k = choose|k: int| 0 <= k < all.len() && all[k] == t;
                if k < i {
                    assert(now[k] == t);
                } else {
                    assert(now[k + 1] == t);
                }
            }
            if t == s@ {
                assert(now[i as int] == t);
            }
            if now.contains(t) {
                let k = choose|k: int| 0 <= k < now.len() && now[k] == t;
                if k < i {
                    assert(all[k] == t);
                } else if k > i {
                    assert(all[k - 1] == t);
                }
            }
        }
    }
}

/// Networks as they are compared: sorted, with nothing twice.
pub fn sorted(nets: Vec<String>) -> (r: Vec<String>)
    ensures
        in_order(texts(r@)),
        same_texts(texts(r@), texts(nets@)),
{
    let mut r: Vec<String> = Vec::new();
    let ghost all = texts(nets@);
    assert(all.take(0) =~= Seq::empty());
    assert(texts(r@) =~= Seq::empty());
    for i in 0..nets.len()
        invariant
            all == texts(nets@),
            in_order(texts(r@)),
            same_texts(texts(r@), all.take(i as int)),
    {
        let ghost had = texts(r@);
        put_in(&mut r, nets[i].clone());
        proof {
            let (was, now) = (all.take(i as int), all.take(i + 1));
            assert forall|t: Seq<char>| texts(r@).contains(t) == #[trigger] now.contains(t) by {
                assert(had.contains(t) == was.contains(t));
                if was.contains(t) {
                    let k = choose|k: int| 0 <= k < was.len() && was[k] == t;
                    assert(now[k] == t);
                }
                if t == nets@[i as int]@ {
                    assert(now[i as int] == t);
                }
                if now.contains(t) {
                    let k = choose|k: int| 0 <= k < now.len() && now[k] == t;
                    if k < i {
                        assert(was[k] == t);
                    } else {
                        assert(all[i as int] == nets@[i as int]@);
                    }
                }
            }
        }
    }
    assert(all.take(all.len() as int) =~= all);
    r
}

/// A network as it is compared: the address and its prefix, so a new lease on the
/// same subnet counts too.
pub fn net_text(n: &LocalNet) -> (s: String)
    ensures
        s@ == ip_text(n.addr) + "/"@ + dec(n.prefix as nat),
{
    let mut s = show_ip(n.addr);
    s.append("/");
    s.append(&decimal(n.prefix as u64));
    s
}

/// What the watcher remembers: the networks as of the last hint that was reported as a
/// change, or as of the moment the watcher was made, so the first hint of an outage is
/// judged like any other rather than taken on trust.
#[derive(Debug)]
pub struct NetWatch {
    pub nets: Vec<String>,
}

impl View for NetWatch {
    type V = Seq<Seq<char>>;

    open spec fn view(&self) -> Seq<Seq<char>> {
        texts(self.nets@)
    }
}

impl NetWatch {
    pub open spec fn wf(&self) -> bool {
        in_order(self@)
    }

    /// A watcher of a machine that is on these networks now.
    pub fn new(nets: Vec<String>) -> (w: NetWatch)
        ensures
            w.wf(),
            same_texts(w@, texts(nets@)),
    {
        NetWatch { nets: sorted(nets) }
    }

    /// The pending messages are drained: whether the network this machine dials from
    /// is not the one it was on. A hint is only a reason to look; what makes it a
    /// change is the networks differing, and the answer is remembered, so a kernel
    /// that repeats itself is answered once.
    pub fn changed(&mut self, hinted: bool, nets: Vec<String>) -> (r: bool)
        requires
            old(self).wf(),
        ensures
            final(self).wf(),
            r == (hinted && !same_texts(old(self)@, texts(nets@))),
            r ==> same_texts(final(self)@, texts(nets@)),
            !r ==> final(self)@ == old(self)@,
    {
        if !hinted {
            return false;
        }
        let ghost given = texts(nets@);
        let now = sorted(nets);
        if same_lists(&self.nets, &now) {
            assert(same_texts(self@, given));
            return false;
        }
        proof {
            if same_texts(self@, given) {
                assert forall|t: Seq<char>| self@.contains(t) == #[trigger] texts(now@).contains(
                    t,
                ) by {
                    assert(texts(now@).contains(t) == given.contains(t));
                }
                law_sorted_networks_are_one_list(self@, texts(now@));
            }
        }
        self.nets = now;
        true
    }
}

fn same_lists(a: &Vec<String>, b: &Vec<String>) -> (r: bool)
    ensures
        r == (texts(a@) == texts(b@)),
{
    assert(texts(a@).len() == a@.len() && texts(b@).len() == b@.len());
    if a.len() != b.len() {
        return false;
    }
    let mut i: usize = 0;
    while i < a.len()
        invariant
            i <= a.len(),
            a.len() == b.len(),
            forall|j: int| 0 <= j < i ==> #[trigger] texts(a@)[j] == texts(b@)[j],
        decreases a.len() - i,
    {
        assert(texts(a@)[i as int] == a@[i as int]@ && texts(b@)[i as int] == b@[i as int]@);
        if !same(&a[i], &b[i]) {
            return false;
        }
        i = i + 1;
    }
    assert(texts(a@) =~= texts(b@));
    true
}

/// Order is not identity: the same networks, in whatever order and however often they
/// were named, are compared as one and the same list.
pub proof fn law_sorted_networks_are_one_list(a: Seq<Seq<char>>, b: Seq<Seq<char>>)
    requires
        in_order(a),
        in_order(b),
        same_texts(a, b),
    ensures
        a == b,
    decreases a.len(),
{
    if a.len() == 0 || b.len() == 0 {
        if a.len() > 0 {
            assert(a.contains(a[0]));
            assert(b.contains(a[0]));
        }
        if b.len() > 0 {
            assert(b.contains(b[0]));
            assert(a.contains(b[0]));
        }
        assert(a =~= b);
    } else {
        let (x, y) = (a.last(), b.last());
        assert(a[a.len() - 1] == x && b[b.len() - 1] == y);
        assert(a.contains(x) && b.contains(y));
        assert(b.contains(x) && a.contains(y));
        lemma_before_total(x, y);
        let k = choose|k: int| 0 <= k < b.len() && b[k] == x;
        let m = choose|m: int| 0 <= m < a.len() && a[m] == y;
        if k < b.len() - 1 {
            assert(before(b[k], b[b.len() - 1]));
        }
        if m < a.len() - 1 {
            assert(before(a[m], a[a.len() - 1]));
        }
        assert(x == y);
        let (c, d) = (a.drop_last(), b.drop_last());
        assert forall|t: Seq<char>| c.contains(t) == #[trigger] d.contains(t) by {
            lemma_drop(a, t);
            lemma_drop(b, t);
            assert(a.contains(t) == b.contains(t));
        }
        law_sorted_networks_are_one_list(c, d);
        assert(a =~= c.push(x));
        assert(b =~= d.push(y));
    }
}

proof fn lemma_drop(a: Seq<Seq<char>>, t: Seq<char>)
    requires
        a.len() > 0,
        in_order(a),
    ensures
        a.drop_last().contains(t) == (a.contains(t) && t != a.last()),
{
    let c = a.drop_last();
    if c.contains(t) {
        let k = choose|k: int| 0 <= k < c.len() && c[k] == t;
        assert(a[k] == t);
        assert(before(a[k], a[a.len() - 1]));
        lemma_before_total(a[k], a.last());
    }
    if a.contains(t) && t != a.last() {
        let k = choose|k: int| 0 <= k < a.len() && a[k] == t;
        assert(c[k] == t);
    }
}

/// Messages of the kernel are read one after the other, each as long as it says: what
/// arrives matters exactly where one of its messages is about an address or an interface.
pub proof fn law_each_message_is_looked_at(first: Seq<u8>, rest: Seq<u8>, big: bool)
    requires
        first.len() >= 4,
        number_of(first[0], first[1], big) == first.len(),
    ensures
        messages_matter(first + rest, big) <==> (first[3] == 0xc || first[3] == 0xd || first[3]
            == 0xe) || messages_matter(rest, big),
        !messages_matter(Seq::empty(), big),
{
    let buf = first + rest;
    assert(buf[0] == first[0] && buf[1] == first[1] && buf[3] == first[3]);
    assert(buf.skip(first.len() as int) =~= rest);
}

} // verus!
