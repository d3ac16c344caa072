//! What holds of the master whatever the transport.

use super::{
    configured, connection, control_dir, control_socket, fed, fed_all, forwarding, le64, refused,
    vetoed, MuxView,
};
use crate::ssh::{key_of, shares, Call, TransportView};
use crate::text::{dec, lemma_digits};
use vstd::prelude::*;
use vstd::utf8::{encode_utf8, encode_utf8_decode_utf8};

verus! {

proof fn lemma_le64(a: u64, b: u64)
    requires
        le64(a) == le64(b),
    ensures
        a == b,
{
    let (x, y) = (le64(a), le64(b));
    assert(x[0] == y[0] && x[1] == y[1] && x[2] == y[2] && x[3] == y[3] && x[4] == y[4] && x[5]
        == y[5] && x[6] == y[6] && x[7] == y[7]);
    assert(a == b) by (bit_vector)
        requires
            a as u8 == b as u8,
            (a >> 8) as u8 == (b >> 8) as u8,
            (a >> 16) as u8 == (b >> 16) as u8,
            (a >> 24) as u8 == (b >> 24) as u8,
            (a >> 32) as u8 == (b >> 32) as u8,
            (a >> 40) as u8 == (b >> 40) as u8,
            (a >> 48) as u8 == (b >> 48) as u8,
            (a >> 56) as u8 == (b >> 56) as u8,
    ;
}

/// Every text is short enough for its length to be written down.
pub open spec fn all_short(v: Seq<Seq<char>>) -> bool {
    forall|i: int| 0 <= i < v.len() ==> encode_utf8(#[trigger] v[i]).len() <= u64::MAX
}

/// Texts, fed first to last.
spec fn fed_on(v: Seq<Seq<char>>) -> Seq<u8>
    decreases v.len(),
{
    if v.len() == 0 {
        Seq::empty()
    } else {
        fed(v[0]) + fed_on(v.skip(1))
    }
}

proof fn lemma_fed_on(v: Seq<Seq<char>>)
    ensures
        fed_all(v) == fed_on(v),
    decreases v.len(),
{
    if v.len() > 0 {
        lemma_fed_on(v.drop_last());
        lemma_fed_on_push(v.drop_last(), v.last());
        assert(v.drop_last().push(v.last()) =~= v);
    }
}

proof fn lemma_fed_on_push(v: Seq<Seq<char>>, s: Seq<char>)
    ensures
        fed_on(v.push(s)) == fed_on(v) + fed(s),
    decreases v.len(),
{
    if v.len() == 0 {
        reveal_with_fuel(fed_on, 2);
        assert(v.push(s).skip(1) =~= Seq::empty());
        assert(fed_on(v.push(s)) =~= fed(s));
        assert(fed_on(v) + fed(s) =~= fed(s));
    } else {
        lemma_fed_on_push(v.skip(1), s);
        assert(v.push(s).skip(1) =~= v.skip(1).push(s));
        assert(fed_on(v.push(s)) =~= fed_on(v) + fed(s));
    }
}

proof fn lemma_fed_is_read_back(a: Seq<Seq<char>>, b: Seq<Seq<char>>)
    requires
        all_short(a),
        all_short(b),
        fed_on(a) == fed_on(b),
    ensures
        a == b,
    decreases a.len(),
{
    if a.len() == 0 || b.len() == 0 {
        if a.len() > 0 {
            assert(fed_on(a).len() >= 8);
        }
        if b.len() > 0 {
            assert(fed_on(b).len() >= 8);
        }
        assert(a =~= b);
    } else {
        let (x, y) = (fed_on(a), fed_on(b));
        let (p, q) = (encode_utf8(a[0]), encode_utf8(b[0]));
        assert(x.take(8) =~= le64(p.len() as u64));
        assert(y.take(8) =~= le64(q.len() as u64));
        lemma_le64(p.len() as u64, q.len() as u64);
        assert(p.len() == q.len());
        assert(x.subrange(8, 8 + p.len() as int) =~= p);
        assert(y.subrange(8, 8 + q.len() as int) =~= q);
        encode_utf8_decode_utf8(a[0]);
        encode_utf8_decode_utf8(b[0]);
        assert(a[0] == b[0]);
        assert(x.skip(8 + p.len() as int) =~= fed_on(a.skip(1)));
        assert(y.skip(8 + q.len() as int) =~= fed_on(b.skip(1)));
        assert(all_short(a.skip(1))) by {
            assert forall|i: int| 0 <= i < a.skip(1).len() implies encode_utf8(
                #[trigger] a.skip(1)[i],
            ).len() <= u64::MAX by {
                assert(a.skip(1)[i] == a[i + 1]);
            }
        }
        assert(all_short(b.skip(1))) by {
            assert forall|i: int| 0 <= i < b.skip(1).len() implies encode_utf8(
                #[trigger] b.skip(1)[i],
            ).len() <= u64::MAX by {
                assert(b.skip(1)[i] == b[i + 1]);
            }
        }
        lemma_fed_is_read_back(a.skip(1), b.skip(1));
        assert(a =~= seq![a[0]] + a.skip(1));
        assert(b =~= seq![b[0]] + b.skip(1));
    }
}

/// What the socket's name is a hash of tells two connections apart: where it is the
/// same, so are the ssh program, every single option, the key in use and the
/// destination.
pub proof fn law_the_name_follows_everything_that_picks_the_connection(
    a: TransportView,
    b: TransportView,
)
    requires
        all_short(connection(a)),
        all_short(connection(b)),
        fed_all(connection(a)) == fed_all(connection(b)),
    ensures
        a.ssh == b.ssh,
        a.user_opts == b.user_opts,
        a.destination == b.destination,
        key_of(a) == key_of(b) || (key_of(a) is None && key_of(b) == Some(Seq::<char>::empty())) || (
        key_of(b) is None && key_of(a) == Some(Seq::<char>::empty())),
{
    let (x, y) = (connection(a), connection(b));
    lemma_fed_on(x);
    lemma_fed_on(y);
    lemma_fed_is_read_back(x, y);
    let n = a.user_opts.len() as int;
    assert(x.len() == n + 4 && y.len() == b.user_opts.len() + 4);
    assert(x[1] == a.ssh && y[1] == b.ssh);
    assert(x.subrange(2, 2 + n) =~= a.user_opts);
    assert(y.subrange(2, 2 + n) =~= b.user_opts);
    assert(x[n + 3] == a.destination && y[n + 3] == b.destination);
    assert(x[n + 2] == match key_of(a) {
        Some(key) => key,
        None => Seq::empty(),
    });
    assert(y[n + 2] == match key_of(b) {
        Some(key) => key,
        None => Seq::empty(),
    });
}

/// A redial never goes over the shared master, whatever the transport.
pub proof fn law_a_redial_never_multiplexes(t: TransportView)
    ensures
        !shares(t, Call::Redial),
{
}

/// A session that forwards a port, or that does not run ssh, is never given a
/// master; nor is any where the persist window is zero.
pub proof fn law_a_forward_keeps_its_own_connection(
    t: TransportView,
    dir: Seq<char>,
    persist: u64,
    opened: Option<Seq<char>>,
    max: u64,
)
    ensures
        vetoed(t) is Some || persist == 0 ==> configured(t, dir, persist, opened, max).0.mux is None,
        t.local_forwards.len() > 0 || t.transport_cmd is Some ==> vetoed(t) is Some,
{
}

/// Deciding on a master changes nothing else, and where a master is given its socket
/// has a path that fits.
pub proof fn law_only_the_master_is_decided(
    t: TransportView,
    dir: Seq<char>,
    persist: u64,
    opened: Option<Seq<char>>,
    max: u64,
)
    ensures
        ({
            let after = configured(t, dir, persist, opened, max).0;
            &&& after == TransportView { mux: after.mux, ..t }
            &&& after.mux is Some ==> control_socket(after, max) is Some && opened is None
        }),
{
}

/// Two users never share a directory for their masters, unless one of them says so.
pub proof fn law_users_have_their_own_directory(a: u32, b: u32, given: Seq<char>)
    ensures
        control_dir(None, a) == control_dir(None, b) ==> a == b,
        control_dir(Some(Seq::empty()), a) == control_dir(None, a),
        given.len() > 0 ==> control_dir(Some(given), a) == given,
{
    lemma_digits(a as nat);
    lemma_digits(b as nat);
    let lead = "/tmp/acs-mux-"@;
    let (x, y) = (control_dir(None, a), control_dir(None, b));
    if x == y {
        assert(x.skip(lead.len() as int) =~= dec(a as nat));
        assert(y.skip(lead.len() as int) =~= dec(b as nat));
    }
}

/// A transport has a master exactly where nothing objects: no forward and no transport of
/// the user's own, masters are not switched off, the directory is safe, and the socket's
/// path is short enough. Nothing else of the transport changes, either way.
pub proof fn law_when_a_master_is_used(
    t: TransportView,
    dir: Seq<char>,
    persist: u64,
    opened: Option<Seq<char>>,
    max: u64,
)
    ensures
        ({
            let n = configured(t, dir, persist, opened, max).0;
            &&& n == (TransportView { mux: n.mux, ..t })
            &&& n.mux is Some ==> n.mux->0.dir == dir && n.mux->0.persist == persist
            &&& n.mux is Some ==> vetoed(t) is None && persist > 0 && opened is None
                && control_socket(n, max) is Some
            &&& t.transport_cmd is Some || t.local_forwards.len() > 0 || persist == 0
                || opened is Some ==> n.mux is None
            &&& refused(t, persist) is None <==> vetoed(t) is None && persist > 0
            &&& vetoed(t) is None && persist > 0 && opened is None && control_socket(
                TransportView { mux: Some(MuxView { dir, persist }), ..t },
                max,
            ) is Some ==> n.mux is Some
            &&& vetoed(t) is None <==> t.transport_cmd is None && t.local_forwards.len() == 0
                && forwarding(t.user_opts) is None
        }),
{
}

} // verus!
