//! What holds of every choice among an alias's hosts.

use super::{
    in_rank, local_at, picked, pinged, places_with, rank_key, rank_keys, rank_of, unchecked_from, untried_lines, walked, Local,
    PickView, local_lines, checked_below, caller_local, located, ping_line, reached, searched,
    user_split,
};
use crate::config::{alias_of, ConfigView, HostView, Said};
use crate::netmatch::ip::Ip;
use crate::netmatch::{any_on, law_the_first_network_that_matches, LocalNet};
use vstd::prelude::*;

verus! {

proof fn lemma_places(keys: Seq<nat>, key: nat, n: int)
    requires
        0 <= n <= keys.len(),
    ensures
        forall|k: int|
            0 <= k < places_with(keys, key, n).len() ==> 0 <= #[trigger] places_with(keys, key, n)[k] < n
                && keys[places_with(keys, key, n)[k]] == key,
        forall|j: int, k: int|
            0 <= j < k < places_with(keys, key, n).len() ==> (#[trigger] places_with(keys, key, n)[j])
                < (#[trigger] places_with(keys, key, n)[k]),
        forall|i: int| 0 <= i < n && #[trigger] keys[i] == key ==> places_with(keys, key, n).contains(i),
    decreases n,
{
    if n > 0 {
        lemma_places(keys, key, n - 1);
        let less = places_with(keys, key, n - 1);
        let all = places_with(keys, key, n);
        assert forall|i: int| 0 <= i < n && #[trigger] keys[i] == key implies all.contains(i) by {
            if i == n - 1 {
                assert(all[all.len() - 1] == i);
            } else {
                let k = choose|k: int| 0 <= k < less.len() && less[k] == i;
                assert(all[k] == i);
            }
        }
    }
}

proof fn lemma_count(keys: Seq<nat>, n: int)
    requires
        0 <= n <= keys.len(),
        forall|i: int| 0 <= i < keys.len() ==> #[trigger] keys[i] < 4,
    ensures
        places_with(keys, 0, n).len() + places_with(keys, 1, n).len() + places_with(keys, 2, n).len()
            + places_with(keys, 3, n).len() == n,
    decreases n,
{
    if n > 0 {
        lemma_count(keys, n - 1);
        assert(keys[n - 1] < 4);
    }
}

/// Every place is in the rank, once.
pub proof fn lemma_rank_is_whole(keys: Seq<nat>)
    requires
        forall|i: int| 0 <= i < keys.len() ==> #[trigger] keys[i] < 4,
    ensures
        in_rank(keys).len() == keys.len(),
        forall|k: int| 0 <= k < keys.len() ==> 0 <= #[trigger] in_rank(keys)[k] < keys.len(),
        forall|j: int, k: int|
            0 <= j < k < keys.len() ==> goes_before(
                keys,
                #[trigger] in_rank(keys)[j],
                #[trigger] in_rank(keys)[k],
            ),
        forall|i: int| 0 <= i < keys.len() ==> #[trigger] in_rank(keys).contains(i),
{
    let n = keys.len() as int;
    lemma_count(keys, n);
    lemma_places(keys, 0, n);
    lemma_places(keys, 1, n);
    lemma_places(keys, 2, n);
    lemma_places(keys, 3, n);
    let (a, b, c, d) = (
        places_with(keys, 0, n),
        places_with(keys, 1, n),
        places_with(keys, 2, n),
        places_with(keys, 3, n),
    );
    let all = in_rank(keys);
    let (x, y, z) = (a.len() as int, a.len() + b.len(), a.len() + b.len() + c.len());
    assert forall|k: int| 0 <= k < n implies #[trigger] all[k] == (if k < x {
        a[k]
    } else if k < y {
        b[k - x]
    } else if k < z {
        c[k - y]
    } else {
        d[k - z]
    }) by {}
    assert forall|i: int| 0 <= i < n implies #[trigger] all.contains(i) by {
        assert(keys[i] < 4);
        if keys[i] == 0 {
            let k = choose|k: int| 0 <= k < a.len() && a[k] == i;
            assert(all[k] == i);
        } else if keys[i] == 1 {
            let k = choose|k: int| 0 <= k < b.len() && b[k] == i;
            assert(all[x + k] == i);
        } else if keys[i] == 2 {
            let k = choose|k: int| 0 <= k < c.len() && c[k] == i;
            assert(all[y + k] == i);
        } else {
            let k = choose|k: int| 0 <= k < d.len() && d[k] == i;
            assert(all[z + k] == i);
        }
    }
}

/// One place is tried before another: its key is smaller, or it comes first among
/// those with the same.
pub open spec fn goes_before(keys: Seq<nat>, i: int, j: int) -> bool {
    keys[i] < keys[j] || (keys[i] == keys[j] && i < j)
}

/// Every entry of an alias is in the rank exactly once, and the rank goes local
/// first, then `prefer: true`, then the configured order.
pub proof fn law_local_then_preferred_then_order(entries: Seq<HostView>, on_net: Seq<Option<Local>>)
    ensures
        rank_of(entries, on_net).len() == entries.len(),
        forall|i: int| 0 <= i < entries.len() ==> #[trigger] rank_of(entries, on_net).contains(i),
        forall|j: int, k: int|
            0 <= j < k < entries.len() ==> {
                let (a, b) = (
                    #[trigger] rank_of(entries, on_net)[j],
                    #[trigger] rank_of(entries, on_net)[k],
                );
                &&& a != b
                &&& local_at(on_net, b) ==> local_at(on_net, a)
                &&& local_at(on_net, a) == local_at(on_net, b) && entries[b].prefer
                    ==> entries[a].prefer
                &&& local_at(on_net, a) == local_at(on_net, b) && entries[a].prefer
                    == entries[b].prefer ==> a < b
            },
{
    let keys = rank_keys(entries, on_net);
    lemma_rank_is_whole(keys);
    assert forall|j: int, k: int| 0 <= j < k < entries.len() implies {
        let (a, b) = (
            #[trigger] rank_of(entries, on_net)[j],
            #[trigger] rank_of(entries, on_net)[k],
        );
        &&& a != b
        &&& local_at(on_net, b) ==> local_at(on_net, a)
        &&& local_at(on_net, a) == local_at(on_net, b) && entries[b].prefer ==> entries[a].prefer
        &&& local_at(on_net, a) == local_at(on_net, b) && entries[a].prefer == entries[b].prefer
            ==> a < b
    } by {
        let (a, b) = (in_rank(keys)[j], in_rank(keys)[k]);
        assert(goes_before(keys, a, b));
        assert(0 <= a < keys.len() && 0 <= b < keys.len());
        assert(keys[a] == rank_key(local_at(on_net, a), entries[a].prefer));
        assert(keys[b] == rank_key(local_at(on_net, b), entries[b].prefer));
    }
}

/// The entry at place `j` of the rank was pinged and does not answer.
pub open spec fn passed_over(
    entries: Seq<HostView>,
    on_net: Seq<Option<Local>>,
    answers: Seq<Option<bool>>,
    j: int,
) -> bool {
    let i = rank_of(entries, on_net)[j];
    entries[i].reachability_check && answers[i] == Some(false)
}

/// Every entry before place `k` of the rank was pinged and does not answer.
pub open spec fn all_passed_over(
    entries: Seq<HostView>,
    on_net: Seq<Option<Local>>,
    answers: Seq<Option<bool>>,
    k: int,
) -> bool {
    forall|j: int| 0 <= j < k ==> #[trigger] passed_over(entries, on_net, answers, j)
}

/// The entry at place `k` of the rank is the first that is not checked, or that
/// answers.
pub open spec fn is_first(
    entries: Seq<HostView>,
    on_net: Seq<Option<Local>>,
    answers: Seq<Option<bool>>,
    k: int,
) -> bool {
    let i = rank_of(entries, on_net)[k];
    &&& 0 <= k < entries.len()
    &&& all_passed_over(entries, on_net, answers, k)
    &&& !entries[i].reachability_check || answers[i] == Some(true)
}

/// The choice waits at place `k` of the rank.
pub open spec fn waits_at(
    entries: Seq<HostView>,
    on_net: Seq<Option<Local>>,
    answers: Seq<Option<bool>>,
    k: int,
) -> bool {
    let i = rank_of(entries, on_net)[k];
    &&& 0 <= k < entries.len()
    &&& all_passed_over(entries, on_net, answers, k)
    &&& entries[i].reachability_check && answers[i] is None
}

proof fn lemma_untried_count(
    name: Seq<char>,
    entries: Seq<HostView>,
    ranked: Seq<int>,
    k: int,
    n: int,
)
    requires
        k < n,
    ensures
        untried_lines(name, entries, ranked, k, n).len() == n - k - 1,
    decreases n - k,
{
    if n > k + 1 {
        lemma_untried_count(name, entries, ranked, k, n - 1);
    }
}

proof fn lemma_walk(
    name: Seq<char>,
    entries: Seq<HostView>,
    on_net: Seq<Option<Local>>,
    timeout: u64,
    answers: Seq<Option<bool>>,
    k: int,
    log: Seq<Seq<char>>,
    tried: Seq<Seq<char>>,
)
    requires
        0 <= k <= entries.len(),
        all_passed_over(entries, on_net, answers, k),
    ensures
        match walked(name, entries, on_net, timeout, answers, k, log, tried) {
            PickView::Use(e, said) => said.len() == log.len() + entries.len() - k && exists|m: int| #[trigger]
                is_first(entries, on_net, answers, m) && e == entries[rank_of(entries, on_net)[m]],
            PickView::Nobody(_, said) => said.len() == log.len() + entries.len() - k && all_passed_over(
                entries,
                on_net,
                answers,
                entries.len() as int,
            ),
            PickView::Wait(i) => exists|m: int| #[trigger]
                waits_at(entries, on_net, answers, m) && i == rank_of(entries, on_net)[m],
        },
    decreases entries.len() - k,
{
    let ranked = rank_of(entries, on_net);
    if k < entries.len() {
        lemma_untried_count(name, entries, ranked, k, entries.len() as int);
        let i = ranked[k];
        let e = entries[i];
        if !e.reachability_check || answers[i] == Some(true) {
            assert(is_first(entries, on_net, answers, k));
        } else if answers[i] is None {
            assert(waits_at(entries, on_net, answers, k));
        } else {
            assert(passed_over(entries, on_net, answers, k));
            assert(all_passed_over(entries, on_net, answers, k + 1));
            lemma_walk(
                name,
                entries,
                on_net,
                timeout,
                answers,
                k + 1,
                log.push(super::no_answer_text(name, e.host, crate::config::duration::written(timeout))),
                tried.push(e.host),
            );
        }
    }
}

/// The entry that is used is the first in the rank that is not checked or that
/// answers: what trying them one after another would choose. None is used only where
/// every one was pinged and does not answer.
pub proof fn law_the_first_in_rank_that_answers_is_used(
    name: Seq<char>,
    entries: Seq<HostView>,
    on_net: Seq<Option<Local>>,
    timeout: u64,
    answers: Seq<Option<bool>>,
)
    ensures
        match picked(name, entries, on_net, timeout, answers) {
            PickView::Use(e, _) => exists|k: int| #[trigger]
                is_first(entries, on_net, answers, k) && e == entries[rank_of(entries, on_net)[k]],
            PickView::Nobody(..) => all_passed_over(
                entries,
                on_net,
                answers,
                entries.len() as int,
            ),
            PickView::Wait(i) => exists|k: int| #[trigger]
                waits_at(entries, on_net, answers, k) && i == rank_of(entries, on_net)[k],
        },
{
    lemma_walk(
        name,
        entries,
        on_net,
        timeout,
        answers,
        0,
        local_lines(name, entries, on_net, entries.len() as int),
        Seq::empty(),
    );
}

/// Once the choice is made every entry has accounted for itself: beside the lines on
/// who is local there is exactly one line for each.
pub proof fn law_every_entry_accounts_for_itself(
    name: Seq<char>,
    entries: Seq<HostView>,
    on_net: Seq<Option<Local>>,
    timeout: u64,
    answers: Seq<Option<bool>>,
)
    ensures
        ({
            let locals = local_lines(name, entries, on_net, entries.len() as int).len();
            match picked(name, entries, on_net, timeout, answers) {
                PickView::Use(_, said) => said.len() == locals + entries.len(),
                PickView::Nobody(_, said) => said.len() == locals + entries.len(),
                PickView::Wait(_) => true,
            }
        }),
{
    lemma_walk(
        name,
        entries,
        on_net,
        timeout,
        answers,
        0,
        local_lines(name, entries, on_net, entries.len() as int),
        Seq::empty(),
    );
}

proof fn lemma_checked_below(entries: Seq<HostView>, n: int, i: int)
    requires
        0 <= i < n <= entries.len(),
        entries[i].reachability_check,
    ensures
        checked_below(entries, n).contains(i),
    decreases n,
{
    let all = checked_below(entries, n);
    if i == n - 1 {
        assert(all[all.len() - 1] == i);
    } else {
        lemma_checked_below(entries, n - 1, i);
        let less = checked_below(entries, n - 1);
        let k = choose|k: int| 0 <= k < less.len() && less[k] == i;
        assert(all[k] == i);
    }
}

proof fn lemma_unchecked_is_later(
    entries: Seq<HostView>,
    on_net: Seq<Option<Local>>,
    answers: Seq<Option<bool>>,
    k: int,
    from: int,
)
    requires
        0 <= from <= k,
        waits_at(entries, on_net, answers, k),
    ensures
        unchecked_from(entries, rank_of(entries, on_net), from) matches Some(p) ==> p > k && p
            < rank_of(entries, on_net).len(),
    decreases rank_of(entries, on_net).len() - from,
{
    let ranked = rank_of(entries, on_net);
    if from < ranked.len() && entries[ranked[from]].reachability_check {
        if from < k {
            lemma_unchecked_is_later(entries, on_net, answers, k, from + 1);
        } else {
            lemma_unchecked_within(entries, ranked, from + 1);
        }
    } else if from < k {
        assert(passed_over(entries, on_net, answers, from));
    }
}

proof fn lemma_unchecked_within(entries: Seq<HostView>, ranked: Seq<int>, from: int)
    requires
        0 <= from,
    ensures
        unchecked_from(entries, ranked, from) matches Some(p) ==> from <= p < ranked.len(),
    decreases ranked.len() - from,
{
    if from < ranked.len() && entries[ranked[from]].reachability_check {
        lemma_unchecked_within(entries, ranked, from + 1);
    }
}

/// The choice only ever waits for a host that was pinged.
pub proof fn law_only_a_pinged_host_is_waited_for(
    name: Seq<char>,
    entries: Seq<HostView>,
    on_net: Seq<Option<Local>>,
    timeout: u64,
    answers: Seq<Option<bool>>,
    by_host: bool,
)
    ensures
        picked(name, entries, on_net, timeout, answers) matches PickView::Wait(i) ==> pinged(
            entries,
            on_net,
            by_host,
        ).contains(i) && answers[i] is None,
{
    law_the_first_in_rank_that_answers_is_used(name, entries, on_net, timeout, answers);
    if let PickView::Wait(i) = picked(name, entries, on_net, timeout, answers) {
        let ranked = rank_of(entries, on_net);
        let keys = rank_keys(entries, on_net);
        lemma_rank_is_whole(keys);
        let k = choose|k: int| #[trigger] waits_at(entries, on_net, answers, k) && i == ranked[k];
        assert(0 <= in_rank(keys)[k] < keys.len());
        if by_host {
            lemma_checked_below(entries, entries.len() as int, i);
        } else {
            lemma_unchecked_is_later(entries, on_net, answers, k, 0);
            match unchecked_from(entries, ranked, 0) {
                Some(p) => {
                    assert(ranked.take(p)[k] == i);
                },
                None => {
                    assert(ranked[k] == i);
                },
            }
        }
    }
}

// ---- how an entry is reached -----------------------------------------------

/// An entry is reached as the user given with the alias, before the entry's own, and with
/// the entry's own key, before the alias's; its host, networks and settings are its own.
pub proof fn law_an_entry_is_reached_as_asked(
    e: HostView,
    user: Option<Seq<char>>,
    key: Option<Said<Seq<char>>>,
)
    ensures
        ({
            let r = reached(e, user, key);
            &&& user is Some ==> r.user == user
            &&& user is None ==> r.user == e.user
            &&& e.identity_file is Some ==> r.identity_file == e.identity_file
            &&& e.identity_file is None ==> r.identity_file == key
            &&& r == (HostView { user: r.user, identity_file: r.identity_file, ..e })
        }),
{
}

/// A name is searched for where an alias goes by it, with a login name in front or without;
/// all of the alias's hosts are in the search, in order, reached as that user.
pub proof fn law_a_name_is_searched_with_its_user(c: ConfigView, name: Seq<char>)
    ensures
        searched(c, name) is Some <==> alias_of(c, user_split(name).1) is Some,
        searched(c, name) matches Some(s) ==> {
            let (user, alias) = user_split(name);
            let a = alias_of(c, alias)->0;
            &&& s.entries.len() == a.entries.len()
            &&& forall|i: int|
                0 <= i < s.entries.len() ==> (#[trigger] s.entries[i]).host == a.entries[i].host && (
                user is Some ==> s.entries[i].user == user)
            &&& s.login is Some <==> user is Some
            &&& s.timeout == if a.reachability_timeout is Some {
                a.reachability_timeout->0.value
            } else {
                c.reachability_timeout.value
            }
            &&& s.by_host == if a.prefer_local_network is Some {
                a.prefer_local_network->0.value
            } else {
                c.prefer_local_network.value
            }
            &&& s.by_host ==> s.networks
        },
{
}

/// An entry is local to this machine exactly where one of the machine's addresses is on one
/// of the networks the entry names; and local by its host exactly where one of the host's
/// addresses is on a network of this machine, which no other entry hears of.
pub proof fn law_what_makes_an_entry_local(
    e: HostView,
    mine: Seq<Ip>,
    on_net: Seq<Option<Local>>,
    i: int,
    k: int,
    networks: Seq<LocalNet>,
    addrs: Seq<Ip>,
)
    requires
        0 <= i < on_net.len(),
        0 <= k < on_net.len(),
    ensures
        caller_local(e, mine) is Some <==> exists|n: int|
            0 <= n < e.local_networks.len() && any_on(#[trigger] e.local_networks[n], mine),
        ({
            let after = located(on_net, i, networks, addrs);
            let met = exists|n: int|
                0 <= n < networks.len() && any_on(#[trigger] networks[n], addrs);
            &&& after.len() == on_net.len()
            &&& k != i ==> after[k] == on_net[k]
            &&& met ==> after[i] is Some && after[i]->0 is Host
            &&& !met ==> after == on_net
        }),
{
    lemma_met(e.local_networks, mine);
    lemma_met(networks, addrs);
}

proof fn lemma_met(nets: Seq<LocalNet>, addrs: Seq<Ip>)
    ensures
        crate::netmatch::first_match(nets, addrs) is Some <==> exists|n: int|
            0 <= n < nets.len() && any_on(#[trigger] nets[n], addrs),
    decreases nets.len(),
{
    law_the_first_network_that_matches(nets, addrs);
    if crate::netmatch::first_match(nets, addrs) is None {
        assert forall|n: int| 0 <= n < nets.len() implies !any_on(#[trigger] nets[n], addrs) by {
            if any_on(nets[n], addrs) {
                let k = choose|k: int|
                    0 <= k < addrs.len() && crate::netmatch::on(nets[n], #[trigger] addrs[k]);
                assert(crate::netmatch::on(nets[n], addrs[k]));
            }
        }
    }
}

/// A ping is one packet to that very host, which no name can turn into an option; ping gives
/// up on its own, after the time it is waited for.
pub proof fn law_one_packet_to_the_host(host: Seq<char>, deadline: u64, macos: bool)
    ensures
        ({
            let line = ping_line(host, deadline, macos);
            let secs = crate::text::digits_value(line[3]);
            &&& line.len() == 6
            &&& line[0] == "-c"@ && line[1] == "1"@
            &&& line[4] == "--"@ && line[5] == host
            &&& secs * 1000 > deadline
        }),
{
    crate::text::lemma_digits((deadline / 1000 + 2) as nat);
}

} // verus!
