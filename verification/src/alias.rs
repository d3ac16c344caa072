//! Host aliases: `acs [user@]<alias>` connects to the first of the alias's
//! configured hosts that answers a ping, or that is not checked. The hosts are
//! pinged at once, and their rank decides: local first, then `prefer: true`, then
//! the configured order. An entry is local either because the host resolves onto a
//! network this machine's interfaces are on (`prefer_local_network`) or because this
//! machine is on one of the entry's own `local_networks`. Under `-v` every entry of
//! the alias accounts for itself, the ones the choice never reached included.

pub mod laws;

use crate::config::duration::{format_timeout, written};
use crate::config::{
    alias_of, destination_of, host_views, or_else, place, Alias, Config, ConfigView, HostEntry,
    HostView, Said,
};
use crate::netmatch::ip::Ip;
use crate::netmatch::{cidr, first_match, matching, LocalNet};
use crate::text::{chars_of, dec, decimal, join, joined_by, string_of, sub_vec, texts};
use crate::yaml::opt_text;
use vstd::prelude::*;

verus! {

/// Where the last `@` of `s` is, before `end`.
pub open spec fn last_at(s: Seq<char>, end: int) -> Option<int>
    decreases end,
{
    if end <= 0 {
        None
    } else if s[end - 1] == '@' {
        Some(end - 1)
    } else {
        last_at(s, end - 1)
    }
}

/// `user@host` as its login name and host, split at the last `@` as ssh does; a
/// name without one (or with an empty user) has no login name.
pub open spec fn user_split(s: Seq<char>) -> (Option<Seq<char>>, Seq<char>) {
    match last_at(s, s.len() as int) {
        Some(i) if i > 0 => (Some(s.take(i)), s.skip(i + 1)),
        _ => (None, s),
    }
}

/// `user@host` as its login name and host.
pub fn split_user(name: &str) -> (r: (Option<String>, String))
    ensures
        (opt_text(r.0), r.1@) == user_split(name@),
{
    let v = chars_of(name);
    let mut i: usize = v.len();
    while i > 0
        invariant
            i <= v.len(),
            v@ == name@,
            last_at(v@, v@.len() as int) == last_at(v@, i as int),
        decreases i,
    {
        if v[i - 1] == '@' {
            if i == 1 {
                return (None, name.to_owned());
            }
            let user = sub_vec(&v, 0, i - 1);
            let host = sub_vec(&v, i, v.len());
            assert(user@ =~= name@.take(i - 1));
            assert(host@ =~= name@.skip(i as int));
            return (Some(string_of(&user)), string_of(&host));
        }
        i = i - 1;
    }
    (None, name.to_owned())
}

// ---- the rank --------------------------------------------------------------

/// Why an entry is ranked as local: the two directions the match can run. Both name
/// the network to report; neither exempts the host from its ping.
#[derive(Debug, Clone, Copy, PartialEq, Eq, Structural)]
pub enum Local {
    /// `prefer_local_network`: the host resolves onto a network this machine's
    /// interfaces are on.
    Host(LocalNet),
    /// `local_networks` on the entry: one of this machine's own addresses is on one
    /// of them.
    Caller(LocalNet),
}

/// How early an entry is tried: the local ones first, then the preferred.
pub open spec fn rank_key(local: bool, prefer: bool) -> nat {
    (if local {
        0nat
    } else {
        2
    }) + (if prefer {
        0nat
    } else {
        1
    })
}

/// The entry at `i` is local.
pub open spec fn local_at(on_net: Seq<Option<Local>>, i: int) -> bool {
    i < on_net.len() && on_net[i] is Some
}

/// How early each entry is tried.
pub open spec fn rank_keys(entries: Seq<HostView>, on_net: Seq<Option<Local>>) -> Seq<nat> {
    Seq::new(entries.len(), |i: int| rank_key(local_at(on_net, i), entries[i].prefer))
}

/// The places below `n` whose key is `key`, in order.
pub open spec fn places_with(keys: Seq<nat>, key: nat, n: int) -> Seq<int>
    decreases n,
{
    if n <= 0 {
        Seq::empty()
    } else if keys[n - 1] == key {
        places_with(keys, key, n - 1).push(n - 1)
    } else {
        places_with(keys, key, n - 1)
    }
}

/// The places in the order they are tried: by key, and each key's in order.
pub open spec fn in_rank(keys: Seq<nat>) -> Seq<int> {
    let n = keys.len() as int;
    places_with(keys, 0, n) + places_with(keys, 1, n) + places_with(keys, 2, n) + places_with(
        keys,
        3,
        n,
    )
}

/// The entries' places in the order they are tried.
pub open spec fn rank_of(entries: Seq<HostView>, on_net: Seq<Option<Local>>) -> Seq<int> {
    in_rank(rank_keys(entries, on_net))
}

pub open spec fn ints(v: Seq<usize>) -> Seq<int> {
    v.map_values(|i: usize| i as int)
}

fn push_places(entries: &[HostEntry], on_net: &[Option<Local>], local: bool, prefer: bool, out: &mut Vec<usize>)
    ensures
        ints(final(out)@) == ints(old(out)@) + places_with(
            rank_keys(host_views(entries@), on_net@),
            rank_key(local, prefer),
            entries@.len() as int,
        ),
{
    let ghost keys = rank_keys(host_views(entries@), on_net@);
    let ghost before = ints(out@);
    assert(before + places_with(keys, rank_key(local, prefer), 0) =~= before);
    for i in 0..entries.len()
        invariant
            keys == rank_keys(host_views(entries@), on_net@),
            ints(out@) == before + places_with(keys, rank_key(local, prefer), i as int),
    {
        let here = i < on_net.len() && on_net[i].is_some();
        proof {
            assert(host_views(entries@)[i as int] == entries@[i as int]@);
            assert(keys[i as int] == rank_key(here, entries@[i as int].prefer));
        }
        if here == local && entries[i].prefer == prefer {
            let ghost had = out@;
            out.push(i);
            assert(ints(out@) =~= ints(had).push(i as int));
        }
        assert(ints(out@) =~= before + places_with(keys, rank_key(local, prefer), i + 1));
    }
}

/// The indices of `entries` in the order they are tried: the local ones (`on_net`,
/// empty for none, whichever direction made them local) first, then those with
/// `prefer: true`, then the rest, each group in configured order.
pub fn rank(entries: &[HostEntry], on_net: &[Option<Local>]) -> (order: Vec<usize>)
    ensures
        ints(order@) == rank_of(host_views(entries@), on_net@),
        order@.len() == entries@.len(),
        forall|k: int| 0 <= k < order@.len() ==> #[trigger] order@[k] < entries@.len(),
{
    let mut order: Vec<usize> = Vec::new();
    push_places(entries, on_net, true, true, &mut order);
    push_places(entries, on_net, true, false, &mut order);
    push_places(entries, on_net, false, true, &mut order);
    push_places(entries, on_net, false, false, &mut order);
    proof {
        let keys = rank_keys(host_views(entries@), on_net@);
        assert(ints(order@) =~= in_rank(keys));
        laws::lemma_rank_is_whole(keys);
        assert(ints(order@).len() == order@.len());
        assert forall|k: int| 0 <= k < order@.len() implies #[trigger] order@[k] < entries@.len() by {
            assert(ints(order@)[k] == order@[k]);
            assert(0 <= in_rank(keys)[k] < keys.len());
        }
    }
    order
}

/// An alias's entries in the order they are tried when no local network is looked
/// at: those with `prefer: true` first, then the rest, each in configured order.
pub fn ranked(entries: &[HostEntry]) -> (r: Vec<&HostEntry>)
    ensures
        r@.len() == entries@.len(),
        forall|k: int|
            0 <= k < r@.len() ==> (#[trigger] r@[k])@ == host_views(entries@)[rank_of(
                host_views(entries@),
                Seq::empty(),
            )[k]],
{
    let order = rank(entries, &[]);
    let mut r: Vec<&HostEntry> = Vec::new();
    let ghost places = rank_of(host_views(entries@), Seq::empty());
    assert(ints(order@) == places) by {
        let none: Seq<Option<Local>> = Seq::empty();
        assert([]@ =~= none);
    }
    for k in 0..order.len()
        invariant
            r@.len() == k,
            ints(order@) == places,
            order@.len() == entries@.len(),
            forall|j: int| 0 <= j < order@.len() ==> #[trigger] order@[j] < entries@.len(),
            forall|j: int|
                0 <= j < k ==> (#[trigger] r@[j])@ == host_views(entries@)[places[j]],
    {
        r.push(&entries[order[k]]);
        assert(ints(order@)[k as int] == order@[k as int]);
    }
    r
}

// ---- what an alias stands for ----------------------------------------------

pub open spec fn logging_in_text(name: Seq<char>, user: Seq<char>) -> Seq<char> {
    name + ": logging in as "@ + user + ", from the command line"@
}

fn logging_in(name: &str, user: &str) -> (s: String)
    ensures
        s@ == logging_in_text(name@, user@),
{
    let mut s = name.to_owned();
    s.append(": logging in as ");
    s.append(user);
    s.append(", from the command line");
    s
}

pub open spec fn on_local_network_text(name: Seq<char>, host: Seq<char>, net: Seq<char>) -> Seq<char> {
    name + ": "@ + host + " is on the local network "@ + net
}

fn on_local_network(name: &str, host: &str, net: &str) -> (s: String)
    ensures
        s@ == on_local_network_text(name@, host@, net@),
{
    let mut s = name.to_owned();
    s.append(": ");
    s.append(host);
    s.append(" is on the local network ");
    s.append(net);
    s
}

pub open spec fn machine_on_text(name: Seq<char>, net: Seq<char>, host: Seq<char>) -> Seq<char> {
    name + ": this machine is on "@ + net + ", so "@ + host + " is local"@
}

fn machine_on(name: &str, net: &str, host: &str) -> (s: String)
    ensures
        s@ == machine_on_text(name@, net@, host@),
{
    let mut s = name.to_owned();
    s.append(": this machine is on ");
    s.append(net);
    s.append(", so ");
    s.append(host);
    s.append(" is local");
    s
}

pub open spec fn using_text(name: Seq<char>, dest: Seq<char>, why: Seq<char>) -> Seq<char> {
    name + ": using "@ + dest + " ("@ + why + ")"@
}

fn using(name: &str, dest: &str, why: &str) -> (s: String)
    ensures
        s@ == using_text(name@, dest@, why@),
{
    let mut s = name.to_owned();
    s.append(": using ");
    s.append(dest);
    s.append(" (");
    s.append(why);
    s.append(")");
    s
}

pub open spec fn answers_ping_text(name: Seq<char>, host: Seq<char>, dest: Seq<char>, why: Seq<char>) -> Seq<char> {
    name + ": "@ + host + " answers ping, using "@ + dest + why
}

fn answers_ping(name: &str, host: &str, dest: &str, why: &str) -> (s: String)
    ensures
        s@ == answers_ping_text(name@, host@, dest@, why@),
{
    let mut s = name.to_owned();
    s.append(": ");
    s.append(host);
    s.append(" answers ping, using ");
    s.append(dest);
    s.append(why);
    s
}

pub open spec fn no_answer_text(name: Seq<char>, host: Seq<char>, within: Seq<char>) -> Seq<char> {
    name + ": "@ + host + " does not answer ping within "@ + within
}

fn no_answer(name: &str, host: &str, within: &str) -> (s: String)
    ensures
        s@ == no_answer_text(name@, host@, within@),
{
    let mut s = name.to_owned();
    s.append(": ");
    s.append(host);
    s.append(" does not answer ping within ");
    s.append(within);
    s
}

pub open spec fn nobody_text(name: Seq<char>, tried: Seq<char>) -> Seq<char> {
    "no host for '"@ + name + "' is reachable (tried "@ + tried + ")"@
}

fn nobody(name: &str, tried: &str) -> (s: String)
    ensures
        s@ == nobody_text(name@, tried@),
{
    let mut s = "no host for '".to_owned();
    s.append(name);
    s.append("' is reachable (tried ");
    s.append(tried);
    s.append(")");
    s
}

pub open spec fn not_tried_text(name: Seq<char>, host: Seq<char>, why: Seq<char>) -> Seq<char> {
    name + ": "@ + host + " not tried: "@ + why
}

fn not_tried(name: &str, host: &str, why: &str) -> (s: String)
    ensures
        s@ == not_tried_text(name@, host@, why@),
{
    let mut s = name.to_owned();
    s.append(": ");
    s.append(host);
    s.append(" not tried: ");
    s.append(why);
    s
}

pub open spec fn listed_after_text(host: Seq<char>) -> Seq<char> {
    "it is listed after "@ + host + ", whose reachability_check is off"@
}

fn listed_after(host: &str) -> (s: String)
    ensures
        s@ == listed_after_text(host@),
{
    let mut s = "it is listed after ".to_owned();
    s.append(host);
    s.append(", whose reachability_check is off");
    s
}

pub open spec fn chosen_first_text(host: Seq<char>) -> Seq<char> {
    host + " was chosen first"@
}

fn chosen_first(host: &str) -> (s: String)
    ensures
        s@ == chosen_first_text(host@),
{
    let mut s = host.to_owned();
    s.append(" was chosen first");
    s
}

/// What is known of an alias before any of its hosts is asked.
#[derive(Debug)]
pub struct Search {
    /// Under which login name the command line asks for it, said under `-v`.
    pub login: Option<String>,
    /// The alias's entries, each with the login name and key it is reached with.
    pub entries: Vec<HostEntry>,
    /// How long the hosts have to answer, in milliseconds.
    pub timeout: u64,
    /// This machine's networks are looked at.
    pub networks: bool,
    /// The hosts' names are resolved, too, and their addresses matched against this
    /// machine's networks.
    pub by_host: bool,
}

#[verifier::ext_equal]
pub struct SearchView {
    pub login: Option<Seq<char>>,
    pub entries: Seq<HostView>,
    pub timeout: u64,
    pub networks: bool,
    pub by_host: bool,
}

impl View for Search {
    type V = SearchView;

    open spec fn view(&self) -> SearchView {
        SearchView {
            login: opt_text(self.login),
            entries: host_views(self.entries@),
            timeout: self.timeout,
            networks: self.networks,
            by_host: self.by_host,
        }
    }
}

/// An entry as it is reached: as the user the command line names, whatever the entry
/// says, and with the alias's key where the entry has none.
pub open spec fn reached(
    e: HostView,
    user: Option<Seq<char>>,
    key: Option<Said<Seq<char>>>,
) -> HostView {
    HostView {
        user: match user {
            Some(u) => Some(u),
            None => e.user,
        },
        identity_file: match e.identity_file {
            Some(k) => Some(k),
            None => key,
        },
        ..e
    }
}

pub open spec fn all_reached(
    entries: Seq<HostView>,
    user: Option<Seq<char>>,
    key: Option<Said<Seq<char>>>,
) -> Seq<HostView> {
    Seq::new(entries.len(), |i: int| reached(entries[i], user, key))
}

/// An entry says which networks make it the local one.
pub open spec fn names_networks(entries: Seq<HostView>) -> bool {
    exists|i: int| 0 <= i < entries.len() && (#[trigger] entries[i]).local_networks.len() > 0
}

/// What `name` stands for; `None` if it is not an alias.
pub open spec fn searched(c: ConfigView, name: Seq<char>) -> Option<SearchView> {
    let (user, alias) = user_split(name);
    match alias_of(c, alias) {
        None => None,
        Some(a) => {
            let by_host = or_else(a.prefer_local_network, c.prefer_local_network).value;
            Some(
                SearchView {
                    login: match user {
                        Some(u) => Some(logging_in_text(name, u)),
                        None => None,
                    },
                    entries: all_reached(a.entries, user, a.identity_file),
                    timeout: or_else(a.reachability_timeout, c.reachability_timeout).value,
                    networks: by_host || names_networks(a.entries),
                    by_host,
                },
            )
        },
    }
}

fn reached_entries(alias: &Alias, user: &Option<String>) -> (r: Vec<HostEntry>)
    ensures
        host_views(r@) == all_reached(alias@.entries, opt_text(*user), alias@.identity_file),
{
    let mut r: Vec<HostEntry> = Vec::new();
    for i in 0..alias.entries.len()
        invariant
            r@.len() == i,
            forall|j: int|
                0 <= j < i ==> (#[trigger] r@[j])@ == reached(
                    alias@.entries[j],
                    opt_text(*user),
                    alias@.identity_file,
                ),
    {
        assert(alias@.entries[i as int] == alias.entries@[i as int]@);
        let mut e = alias.entries[i].copy();
        if let Some(u) = user {
            e.user = Some(u.clone());
        }
        if e.identity_file.is_none() {
            if let Some(key) = &alias.identity_file {
                e.identity_file = Some(key.copy_text());
            }
        }
        assert(e@ =~= reached(alias@.entries[i as int], opt_text(*user), alias@.identity_file));
        r.push(e);
    }
    assert(host_views(r@) =~= all_reached(alias@.entries, opt_text(*user), alias@.identity_file));
    r
}

fn has_networks(entries: &Vec<HostEntry>) -> (r: bool)
    ensures
        r == names_networks(host_views(entries@)),
{
    let mut i: usize = 0;
    while i < entries.len()
        invariant
            i <= entries.len(),
            forall|j: int|
                0 <= j < i ==> (#[trigger] host_views(entries@)[j]).local_networks.len() == 0,
        decreases entries.len() - i,
    {
        assert(host_views(entries@)[i as int] == entries@[i as int]@);
        if entries[i].local_networks.len() > 0 {
            return true;
        }
        i = i + 1;
    }
    false
}

/// What `name` stands for: `None` if it is not an alias, else what the choice among
/// its entries goes by.
///
/// `user@<alias>` goes through the alias as that user: every entry's `user` is the
/// given one, whatever the entry says. An entry without an `identity_file` takes the
/// alias's. This machine's networks are needed either way that an entry can be
/// local; only `prefer_local_network` also resolves the hosts' names.
pub fn resolve(name: &str, config: &Config) -> (r: Option<Search>)
    ensures
        match r {
            None => searched(config@, name@) is None,
            Some(s) => searched(config@, name@) == Some(s@),
        },
{
    let (user, alias) = split_user(name);
    match config.alias(&alias) {
        None => None,
        Some(a) => {
            let login = match &user {
                Some(u) => Some(logging_in(name, u)),
                None => None,
            };
            let by_host = config.prefer_local_network_for(a).value;
            Some(
                Search {
                    login,
                    entries: reached_entries(a, &user),
                    timeout: config.reachability_timeout_for(a).value,
                    networks: by_host || has_networks(&a.entries),
                    by_host,
                },
            )
        },
    }
}

// ---- who is local ----------------------------------------------------------

/// The addresses of networks.
pub open spec fn addresses(nets: Seq<LocalNet>) -> Seq<Ip> {
    nets.map_values(|n: LocalNet| n.addr)
}

/// Why an entry is local to a caller with these addresses.
pub open spec fn caller_local(e: HostView, mine: Seq<Ip>) -> Option<Local> {
    match first_match(e.local_networks, mine) {
        Some(net) => Some(Local::Caller(net)),
        None => None,
    }
}

/// Each entry whose `local_networks` one of this machine's own addresses falls in:
/// the caller-side direction, which needs no name resolution at all. The network
/// reported is the first of the entry's own that matches, so several are taken in
/// configured order.
pub fn caller_side(entries: &[HostEntry], networks: &[LocalNet]) -> (r: Vec<Option<Local>>)
    ensures
        r@.len() == entries@.len(),
        forall|i: int|
            0 <= i < r@.len() ==> #[trigger] r@[i] == caller_local(
                entries@[i]@,
                addresses(networks@),
            ),
{
    let mut mine: Vec<Ip> = Vec::new();
    for i in 0..networks.len()
        invariant
            mine@ == addresses(networks@.take(i as int)),
    {
        mine.push(networks[i].addr);
        assert(mine@ =~= addresses(networks@.take(i + 1)));
    }
    assert(networks@.take(networks@.len() as int) =~= networks@);
    let mut r: Vec<Option<Local>> = Vec::new();
    for i in 0..entries.len()
        invariant
            r@.len() == i,
            mine@ == addresses(networks@),
            forall|j: int|
                0 <= j < i ==> #[trigger] r@[j] == caller_local(
                    entries@[j]@,
                    addresses(networks@),
                ),
    {
        r.push(
            match matching(&entries[i].local_networks, &mine) {
                Some(net) => Some(Local::Caller(net)),
                None => None,
            },
        );
    }
    r
}

/// The entry at `i` after its host's name was resolved: a host match overrides a
/// caller-side one, being the statement about the host itself.
pub open spec fn located(
    on_net: Seq<Option<Local>>,
    i: int,
    networks: Seq<LocalNet>,
    addrs: Seq<Ip>,
) -> Seq<Option<Local>> {
    match first_match(networks, addrs) {
        Some(net) => on_net.update(i, Some(Local::Host(net))),
        None => on_net,
    }
}

/// Take what the name of the entry at `i` resolves to (`prefer_local_network`). A
/// name that is not resolved by the deadline is never handed in, and counts as on
/// no network.
pub fn locate(on_net: &mut Vec<Option<Local>>, i: usize, networks: &[LocalNet], addrs: &[Ip])
    requires
        i < old(on_net)@.len(),
    ensures
        final(on_net)@ == located(old(on_net)@, i as int, networks@, addrs@),
{
    if let Some(net) = matching(networks, addrs) {
        on_net.set(i, Some(Local::Host(net)));
    }
}

// ---- the choice ------------------------------------------------------------

/// The first place in the rank, from `from` on, whose entry is not checked.
pub open spec fn unchecked_from(entries: Seq<HostView>, ranked: Seq<int>, from: int) -> Option<int>
    decreases ranked.len() - from,
{
    if from >= ranked.len() {
        None
    } else if !entries[ranked[from]].reachability_check {
        Some(from)
    } else {
        unchecked_from(entries, ranked, from + 1)
    }
}

/// The places below `n` whose entry is checked, in order.
pub open spec fn checked_below(entries: Seq<HostView>, n: int) -> Seq<int>
    decreases n,
{
    if n <= 0 {
        Seq::empty()
    } else if entries[n - 1].reachability_check {
        checked_below(entries, n - 1).push(n - 1)
    } else {
        checked_below(entries, n - 1)
    }
}

/// The hosts to ping: nothing ranked after an unchecked host can be chosen, so
/// nothing there is pinged, unless the rank is known only once the names are
/// resolved.
pub open spec fn pinged(
    entries: Seq<HostView>,
    on_net: Seq<Option<Local>>,
    by_host: bool,
) -> Seq<int> {
    if by_host {
        checked_below(entries, entries.len() as int)
    } else {
        let ranked = rank_of(entries, on_net);
        match unchecked_from(entries, ranked, 0) {
            Some(p) => ranked.take(p),
            None => ranked,
        }
    }
}

fn find_unchecked(entries: &[HostEntry], ranked: &[usize]) -> (r: Option<usize>)
    requires
        forall|k: int| 0 <= k < ranked@.len() ==> #[trigger] ranked@[k] < entries@.len(),
    ensures
        match r {
            None => unchecked_from(host_views(entries@), ints(ranked@), 0) is None,
            Some(p) => p < ranked@.len() && unchecked_from(host_views(entries@), ints(ranked@), 0)
                == Some(p as int),
        },
{
    let mut k: usize = 0;
    while k < ranked.len()
        invariant
            k <= ranked.len(),
            forall|j: int| 0 <= j < ranked@.len() ==> #[trigger] ranked@[j] < entries@.len(),
            unchecked_from(host_views(entries@), ints(ranked@), 0) == unchecked_from(
                host_views(entries@),
                ints(ranked@),
                k as int,
            ),
        decreases ranked.len() - k,
    {
        assert(ints(ranked@)[k as int] == ranked@[k as int]);
        assert(host_views(entries@)[ranked@[k as int] as int] == entries@[ranked@[k as int] as int]@);
        if !entries[ranked[k]].reachability_check {
            return Some(k);
        }
        k = k + 1;
    }
    None
}

/// The hosts to ping at once: every checked one that could be chosen, or with
/// `by_host` every checked one, since the rank is known only once the names are
/// resolved.
pub fn pings(entries: &[HostEntry], on_net: &[Option<Local>], by_host: bool) -> (r: Vec<usize>)
    ensures
        ints(r@) == pinged(host_views(entries@), on_net@, by_host),
{
    if by_host {
        let mut r: Vec<usize> = Vec::new();
        assert(ints(r@) =~= checked_below(host_views(entries@), 0));
        for i in 0..entries.len()
            invariant
                ints(r@) == checked_below(host_views(entries@), i as int),
        {
            assert(host_views(entries@)[i as int] == entries@[i as int]@);
            if entries[i].reachability_check {
                let ghost had = r@;
                r.push(i);
                assert(ints(r@) =~= ints(had).push(i as int));
            }
        }
        r
    } else {
        let order = rank(entries, on_net);
        match find_unchecked(entries, &order) {
            Some(p) => {
                let r = sub_vec(&order, 0, p);
                assert(ints(r@) =~= ints(order@).take(p as int));
                r
            },
            None => order,
        }
    }
}

/// A line for each local entry below `n`.
pub open spec fn local_lines(
    name: Seq<char>,
    entries: Seq<HostView>,
    on_net: Seq<Option<Local>>,
    n: int,
) -> Seq<Seq<char>>
    decreases n,
{
    if n <= 0 {
        Seq::empty()
    } else {
        let lines = local_lines(name, entries, on_net, n - 1);
        match on_net[n - 1] {
            Some(Local::Host(net)) => lines.push(
                on_local_network_text(name, entries[n - 1].host, cidr(net)),
            ),
            Some(Local::Caller(net)) => lines.push(
                machine_on_text(name, cidr(net), entries[n - 1].host),
            ),
            None => lines,
        }
    }
}

/// Why an entry ranks where it does.
pub open spec fn reasons(e: HostView, local: Option<Local>) -> Seq<Seq<char>> {
    (match local {
        Some(Local::Host(net)) => seq!["on "@ + cidr(net)],
        Some(Local::Caller(net)) => seq!["this machine is on "@ + cidr(net)],
        None => Seq::empty(),
    }) + (if e.prefer {
        seq!["preferred"@]
    } else {
        Seq::empty()
    })
}

/// What is said of an entry that is taken without a ping.
pub open spec fn unchecked_line(name: Seq<char>, e: HostView, local: Option<Local>) -> Seq<char> {
    using_text(
        name,
        destination_of(e),
        joined_by(
            seq!["reachability_check is off"@] + reasons(e, local) + seq![place(e.origin)],
            ", "@,
        ),
    )
}

/// What is said of an entry that answers.
pub open spec fn answering_line(name: Seq<char>, e: HostView, local: Option<Local>) -> Seq<char> {
    let why = reasons(e, local);
    answers_ping_text(
        name,
        e.host,
        destination_of(e),
        if why.len() == 0 {
            Seq::empty()
        } else {
            " ("@ + joined_by(why, ", "@) + ")"@
        },
    )
}

/// Why the entry at place `j` of the rank was never reached once the one at `k` was
/// taken: one ranked behind an unchecked entry that did not itself win was out of
/// the running before any ping, and the others were beaten to it.
pub open spec fn untried_line(
    name: Seq<char>,
    entries: Seq<HostView>,
    ranked: Seq<int>,
    k: int,
    j: int,
) -> Seq<char> {
    not_tried_text(
        name,
        entries[ranked[j]].host,
        match unchecked_from(entries, ranked, 0) {
            Some(p) if j > p && p != k => listed_after_text(entries[ranked[p]].host),
            _ => chosen_first_text(entries[ranked[k]].host),
        },
    )
}

/// The entries that the choice never reached, up to place `n` of the rank.
pub open spec fn untried_lines(
    name: Seq<char>,
    entries: Seq<HostView>,
    ranked: Seq<int>,
    k: int,
    n: int,
) -> Seq<Seq<char>>
    decreases n - k,
{
    if n <= k + 1 {
        Seq::empty()
    } else {
        untried_lines(name, entries, ranked, k, n - 1).push(
            untried_line(name, entries, ranked, k, n - 1),
        )
    }
}

/// How the choice stands.
#[derive(Debug)]
pub enum Pick {
    /// It waits for this entry's host to answer, or not to.
    Wait(usize),
    /// This entry is taken; the lines say why each was taken or skipped.
    Use(HostEntry, Vec<String>),
    /// No host answers; the error names every one tried.
    Nobody(String, Vec<String>),
}

#[verifier::ext_equal]
pub enum PickView {
    Wait(int),
    Use(HostView, Seq<Seq<char>>),
    Nobody(Seq<char>, Seq<Seq<char>>),
}

impl View for Pick {
    type V = PickView;

    open spec fn view(&self) -> PickView {
        match *self {
            Pick::Wait(i) => PickView::Wait(i as int),
            Pick::Use(e, log) => PickView::Use(e@, texts(log@)),
            Pick::Nobody(error, log) => PickView::Nobody(error@, texts(log@)),
        }
    }
}

/// The walk through the rank from place `k` on, with what was said and who was tried
/// so far.
pub open spec fn walked(
    name: Seq<char>,
    entries: Seq<HostView>,
    on_net: Seq<Option<Local>>,
    timeout: u64,
    answers: Seq<Option<bool>>,
    k: int,
    log: Seq<Seq<char>>,
    tried: Seq<Seq<char>>,
) -> PickView
    decreases entries.len() - k,
{
    let ranked = rank_of(entries, on_net);
    if k >= entries.len() {
        PickView::Nobody(nobody_text(name, joined_by(tried, ", "@)), log)
    } else {
        let i = ranked[k];
        let e = entries[i];
        let rest = untried_lines(name, entries, ranked, k, entries.len() as int);
        if !e.reachability_check {
            PickView::Use(e, log.push(unchecked_line(name, e, on_net[i])) + rest)
        } else {
            match answers[i] {
                None => PickView::Wait(i),
                Some(true) => PickView::Use(
                    e,
                    log.push(answering_line(name, e, on_net[i])) + rest,
                ),
                Some(false) => walked(
                    name,
                    entries,
                    on_net,
                    timeout,
                    answers,
                    k + 1,
                    log.push(no_answer_text(name, e.host, written(timeout))),
                    tried.push(e.host),
                ),
            }
        }
    }
}

/// The choice, as far as the answers decide it.
pub open spec fn picked(
    name: Seq<char>,
    entries: Seq<HostView>,
    on_net: Seq<Option<Local>>,
    timeout: u64,
    answers: Seq<Option<bool>>,
) -> PickView {
    walked(
        name,
        entries,
        on_net,
        timeout,
        answers,
        0,
        local_lines(name, entries, on_net, entries.len() as int),
        Seq::empty(),
    )
}

fn push_line(log: &mut Vec<String>, line: String)
    ensures
        texts(final(log)@) == texts(old(log)@).push(line@),
{
    log.push(line);
    assert(texts(log@) =~= texts(old(log)@).push(line@));
}

fn say_locals(name: &str, entries: &[HostEntry], on_net: &[Option<Local>]) -> (log: Vec<String>)
    requires
        on_net@.len() == entries@.len(),
    ensures
        texts(log@) == local_lines(
            name@,
            host_views(entries@),
            on_net@,
            entries@.len() as int,
        ),
{
    let mut log: Vec<String> = Vec::new();
    assert(texts(log@) =~= Seq::empty());
    for i in 0..entries.len()
        invariant
            on_net@.len() == entries@.len(),
            texts(log@) == local_lines(name@, host_views(entries@), on_net@, i as int),
    {
        assert(host_views(entries@)[i as int] == entries@[i as int]@);
        match on_net[i] {
            Some(Local::Host(net)) => {
                push_line(&mut log, on_local_network(name, &entries[i].host, &net.text()));
            },
            Some(Local::Caller(net)) => {
                push_line(&mut log, machine_on(name, &net.text(), &entries[i].host));
            },
            None => {},
        }
    }
    log
}

fn why_ranked(e: &HostEntry, local: Option<Local>) -> (why: Vec<String>)
    ensures
        texts(why@) == reasons(e@, local),
{
    let mut why: Vec<String> = Vec::new();
    assert(texts(why@) =~= Seq::empty());
    match local {
        Some(Local::Host(net)) => {
            let mut s = "on ".to_owned();
            s.append(&net.text());
            push_line(&mut why, s);
        },
        Some(Local::Caller(net)) => {
            let mut s = "this machine is on ".to_owned();
            s.append(&net.text());
            push_line(&mut why, s);
        },
        None => {},
    }
    if e.prefer {
        push_line(&mut why, "preferred".to_owned());
    }
    assert(texts(why@) =~= reasons(e@, local));
    why
}

fn say_unchecked(name: &str, e: &HostEntry, local: Option<Local>) -> (s: String)
    ensures
        s@ == unchecked_line(name@, e@, local),
{
    let mut why = why_ranked(e, local);
    let ghost ranked = why@;
    why.insert(0, "reachability_check is off".to_owned());
    push_line(&mut why, e.origin.text());
    assert(texts(why@) =~= seq!["reachability_check is off"@] + texts(ranked) + seq![
        place(e@.origin),
    ]);
    using(name, &e.destination(), &join(&why, ", "))
}

fn say_answering(name: &str, e: &HostEntry, local: Option<Local>) -> (s: String)
    ensures
        s@ == answering_line(name@, e@, local),
{
    let why = why_ranked(e, local);
    assert(texts(why@).len() == why@.len());
    let mut shown = String::new();
    if why.len() > 0 {
        shown.append(" (");
        shown.append(&join(&why, ", "));
        shown.append(")");
        assert(shown@ =~= " ("@ + joined_by(reasons(e@, local), ", "@) + ")"@);
    }
    answers_ping(name, &e.host, &e.destination(), &shown)
}

/// Say why each entry behind the chosen one was never reached.
fn untried(name: &str, entries: &[HostEntry], ranked: &[usize], k: usize, log: &mut Vec<String>)
    requires
        k < ranked@.len(),
        forall|j: int| 0 <= j < ranked@.len() ==> #[trigger] ranked@[j] < entries@.len(),
    ensures
        texts(final(log)@) == texts(old(log)@) + untried_lines(
            name@,
            host_views(entries@),
            ints(ranked@),
            k as int,
            ranked@.len() as int,
        ),
{
    let unchecked = find_unchecked(entries, ranked);
    let ghost views = host_views(entries@);
    let ghost places = ints(ranked@);
    let ghost before = texts(log@);
    let n: usize = ranked.len();
    assert(k + 1 <= n);
    let mut j: usize = k + 1;
    assert(before + untried_lines(name@, views, places, k as int, j as int) =~= before);
    while j < ranked.len()
        invariant
            k < j <= ranked.len(),
            views == host_views(entries@),
            places == ints(ranked@),
            forall|j: int| 0 <= j < ranked@.len() ==> #[trigger] ranked@[j] < entries@.len(),
            match unchecked {
                None => unchecked_from(views, places, 0) is None,
                Some(p) => p < ranked@.len() && unchecked_from(views, places, 0) == Some(p as int),
            },
            texts(log@) == before + untried_lines(name@, views, places, k as int, j as int),
        decreases ranked.len() - j,
    {
        proof {
            assert(places[j as int] == ranked@[j as int]);
            assert(places[k as int] == ranked@[k as int]);
            assert(views[places[j as int]] == entries@[places[j as int]]@);
            assert(views[places[k as int]] == entries@[places[k as int]]@);
        }
        let why = match unchecked {
            Some(p) => {
                assert(places[p as int] == ranked@[p as int]);
                assert(views[places[p as int]] == entries@[places[p as int]]@);
                if j > p && p != k {
                    listed_after(&entries[ranked[p]].host)
                } else {
                    chosen_first(&entries[ranked[k]].host)
                }
            },
            None => chosen_first(&entries[ranked[k]].host),
        };
        push_line(log, not_tried(name, &entries[ranked[j]].host, &why));
        assert(texts(log@) =~= before + untried_lines(name@, views, places, k as int, j + 1));
        j = j + 1;
    }
}

/// The entry to use, as far as the answers decide it. `answers` holds, for each
/// entry, whether its host answered a ping (`None` while it may still do so); after
/// the deadline every host that has not answered counts as one that does not. The
/// entry at the k-th place of the rank is taken as soon as it has answered and every
/// one ranked before it has not: what trying them one after another would choose, in
/// at most one `timeout`.
pub fn pick(
    name: &str,
    entries: &[HostEntry],
    on_net: &[Option<Local>],
    timeout: u64,
    answers: &[Option<bool>],
) -> (r: Pick)
    requires
        on_net@.len() == entries@.len(),
        answers@.len() == entries@.len(),
    ensures
        r@ == picked(name@, host_views(entries@), on_net@, timeout, answers@),
{
    let ranked = rank(entries, on_net);
    let mut log = say_locals(name, entries, on_net);
    let mut tried: Vec<String> = Vec::new();
    let ghost views = host_views(entries@);
    assert(texts(tried@) =~= Seq::empty());
    let mut k: usize = 0;
    while k < ranked.len()
        invariant
            k <= ranked.len(),
            ranked@.len() == entries@.len(),
            on_net@.len() == entries@.len(),
            answers@.len() == entries@.len(),
            views == host_views(entries@),
            ints(ranked@) == rank_of(views, on_net@),
            forall|j: int| 0 <= j < ranked@.len() ==> #[trigger] ranked@[j] < entries@.len(),
            picked(name@, views, on_net@, timeout, answers@) == walked(
                name@,
                views,
                on_net@,
                timeout,
                answers@,
                k as int,
                texts(log@),
                texts(tried@),
            ),
        decreases ranked.len() - k,
    {
        let i = ranked[k];
        let e = &entries[i];
        proof {
            assert(ints(ranked@)[k as int] == i);
            assert(views[i as int] == e@);
        }
        if !e.reachability_check {
            push_line(&mut log, say_unchecked(name, e, on_net[i]));
            untried(name, entries, &ranked, k, &mut log);
            return Pick::Use(e.copy(), log);
        }
        match answers[i] {
            None => {
                return Pick::Wait(i);
            },
            Some(up) => {
                if up {
                    push_line(&mut log, say_answering(name, e, on_net[i]));
                    untried(name, entries, &ranked, k, &mut log);
                    return Pick::Use(e.copy(), log);
                }
            },
        }
        push_line(&mut log, no_answer(name, &e.host, &format_timeout(timeout)));
        push_line(&mut tried, e.host.clone());
        k = k + 1;
    }
    Pick::Nobody(nobody(name, &join(&tried, ", ")), log)
}

// ---- ping ------------------------------------------------------------------

/// What macOS `ping` exits with when it cannot resolve the host, which it says for
/// every IPv6 address, being IPv4-only (`EX_NOHOST`).
pub const NO_HOST: i32 = 68;

/// What comes of one ping.
#[derive(Debug, Clone, Copy, PartialEq, Eq, Structural)]
pub enum Pinged {
    Up,
    Down,
    /// Ask `ping6`: macOS ping is IPv4-only, so an IPv6 literal, or a name with only
    /// AAAA records, is "cannot resolve" to it.
    AskV6,
}

/// What comes of the usual ping, by its exit code (`None` when it had to be killed
/// at the deadline or could not be run).
pub fn ping_said(code: Option<i32>) -> (r: Pinged)
    ensures
        r == match code {
            Some(0) => Pinged::Up,
            Some(68) => Pinged::AskV6,
            _ => Pinged::Down,
        },
{
    match code {
        Some(c) => if c == 0 {
            Pinged::Up
        } else if c == NO_HOST {
            Pinged::AskV6
        } else {
            Pinged::Down
        },
        None => Pinged::Down,
    }
}

/// The arguments of one ping: one packet, and a deadline for ping itself.
pub open spec fn ping_line(host: Seq<char>, deadline: u64, macos: bool) -> Seq<Seq<char>> {
    seq![
        "-c"@,
        "1"@,
        if macos {
            "-t"@
        } else {
            "-W"@
        },
        dec((deadline / 1000 + 2) as nat),
        "--"@,
        host,
    ]
}

/// The arguments of one ping. The deadline in milliseconds is acs's own: macOS `-t`
/// and BusyBox `-W` take whole seconds, and iputils `-W` fractions only in newer
/// releases. The one given to ping, a second or more past it, is a backstop should
/// acs not get to kill it.
pub fn ping_args(host: &str, deadline: u64, macos: bool) -> (r: Vec<String>)
    ensures
        texts(r@) == ping_line(host@, deadline, macos),
{
    let flag = if macos {
        "-t"
    } else {
        "-W"
    };
    let mut r: Vec<String> = Vec::new();
    r.push("-c".to_owned());
    r.push("1".to_owned());
    r.push(flag.to_owned());
    r.push(decimal(deadline / 1000 + 2));
    r.push("--".to_owned());
    r.push(host.to_owned());
    assert(texts(r@) =~= ping_line(host@, deadline, macos));
    r
}

/// The arguments of one `ping6`, which takes no timeout flag: acs's own deadline
/// kills it.
pub fn ping6_args(host: &str) -> (r: Vec<String>)
    ensures
        texts(r@) == seq!["-c"@, "1"@, "--"@, host@],
{
    let mut r: Vec<String> = Vec::new();
    r.push("-c".to_owned());
    r.push("1".to_owned());
    r.push("--".to_owned());
    r.push(host.to_owned());
    assert(texts(r@) =~= seq!["-c"@, "1"@, "--"@, host@]);
    r
}

} // verus!
