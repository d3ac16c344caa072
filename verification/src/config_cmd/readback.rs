//! What `acs config` shows, read as a file, is the configuration it was shown from.

use super::laws::{lemma_found, lemma_truth_text};
use super::show::{
    entry_shown, from_comment, networks_node, noted, own_bool, own_duration, own_text, scalar_of,
    shown, shown_alias, shown_aliases, shown_entries, shown_entry, shown_own, shown_setting,
    shown_settings,
};
use super::typed_as;
use crate::config::apply::{
    alias_applied, aliases_applied, applied, bool_set, configured, duration_set, entries_applied,
    entries_in, entry_applied, hosts_in, listed, loaded, nothing_own, own_with, owns, parts_in,
    with_bool, with_duration, OwnView,
};
use crate::config::duration::{bounds, written};
use crate::config::entry::{
    blank, entry_in, good_host, good_user, networks_in, networks_in_list, networks_in_parts,
    networks_in_text, steady, with_field, with_fields, with_value, DraftView,
};
use crate::config::laws::{
    last_given, law_a_duration_reads_back, law_a_file_sets_what_it_names, lemma_alias_found,
    lemma_files_apart, lemma_kinds_apart, lemma_no_hostless, named_apart,
};
use crate::config::{
    alias_from, bool_of, defaults, duration_of, hostless, is_alias_bool_key, is_bool_key,
    is_duration_key, AliasView, ConfigView, HostView, OriginView, Said,
};
use crate::netmatch::laws::{law_a_network_reads_back, lemma_read_is_sayable, same_net, sayable_net};
use crate::netmatch::{cidr, LocalNet};
use crate::text::{split, trimmed};
use crate::yaml::{bare, bool_node, find_key, text_node, NodeView, ValueView};
use vstd::prelude::*;

verus! {

// ---- the same values -------------------------------------------------------

/// The same value, wherever each of the two is from.
pub open spec fn same_said<T>(a: Said<T>, b: Said<T>) -> bool {
    a.value == b.value
}

pub open spec fn same_opt<T>(a: Option<Said<T>>, b: Option<Said<T>>) -> bool {
    match (a, b) {
        (Some(x), Some(y)) => x.value == y.value,
        (None, None) => true,
        _ => false,
    }
}

/// The same networks in the same order, whatever address each is written with.
pub open spec fn same_nets(a: Seq<LocalNet>, b: Seq<LocalNet>) -> bool {
    a.len() == b.len() && forall|i: int| 0 <= i < a.len() ==> same_net(#[trigger] a[i], b[i])
}

pub open spec fn same_host(a: HostView, b: HostView) -> bool {
    &&& a.host == b.host
    &&& a.user == b.user
    &&& a.reachability_check == b.reachability_check
    &&& a.prefer == b.prefer
    &&& same_opt(a.identity_file, b.identity_file)
    &&& same_opt(a.persist, b.persist)
    &&& same_nets(a.local_networks, b.local_networks)
}

pub open spec fn same_hosts(a: Seq<HostView>, b: Seq<HostView>) -> bool {
    a.len() == b.len() && forall|i: int| 0 <= i < a.len() ==> same_host(#[trigger] a[i], b[i])
}

pub open spec fn same_own(o: OwnView, a: AliasView) -> bool {
    &&& same_opt(o.identity_file, a.identity_file)
    &&& same_opt(o.redraw_on_reconnect, a.redraw_on_reconnect)
    &&& same_opt(o.reachability_timeout, a.reachability_timeout)
    &&& same_opt(o.persist, a.persist)
    &&& same_opt(o.reachability_interval, a.reachability_interval)
    &&& same_opt(o.prefer_local_network, a.prefer_local_network)
}

pub open spec fn same_alias(a: AliasView, b: AliasView) -> bool {
    &&& a.name == b.name
    &&& same_hosts(a.entries, b.entries)
    &&& same_opt(a.identity_file, b.identity_file)
    &&& same_opt(a.redraw_on_reconnect, b.redraw_on_reconnect)
    &&& same_opt(a.reachability_timeout, b.reachability_timeout)
    &&& same_opt(a.persist, b.persist)
    &&& same_opt(a.reachability_interval, b.reachability_interval)
    &&& same_opt(a.prefer_local_network, b.prefer_local_network)
}

pub open spec fn same_aliases(a: Seq<AliasView>, b: Seq<AliasView>) -> bool {
    a.len() == b.len() && forall|i: int| 0 <= i < a.len() ==> same_alias(#[trigger] a[i], b[i])
}

/// Two configurations that say the same, wherever they say it.
pub open spec fn same_config(a: ConfigView, b: ConfigView) -> bool {
    &&& same_said(a.install_on_remote, b.install_on_remote)
    &&& same_said(a.update_check, b.update_check)
    &&& same_said(a.command_bell, b.command_bell)
    &&& same_said(a.redraw_on_reconnect, b.redraw_on_reconnect)
    &&& same_said(a.reachability_timeout, b.reachability_timeout)
    &&& same_said(a.persist, b.persist)
    &&& same_said(a.prefer_local_network, b.prefer_local_network)
    &&& same_said(a.reachability_interval, b.reachability_interval)
    &&& same_aliases(a.hosts, b.hosts)
}

// ---- what a file can say ---------------------------------------------------

/// A duration that setting `key` takes.
pub open spec fn fitting(key: Seq<char>, ms: u64) -> bool {
    bounds(key).0 <= ms <= bounds(key).1
}

pub open spec fn fitting_opt(key: Seq<char>, s: Option<Said<u64>>) -> bool {
    s is Some ==> fitting(key, s->0.value)
}

/// A path that an `identity_file` takes.
pub open spec fn path_opt(s: Option<Said<Seq<char>>>) -> bool {
    s is Some ==> s->0.value.len() > 0 && steady(s->0.value)
}

/// A host entry as a file can give it.
pub open spec fn sayable_host(e: HostView) -> bool {
    &&& e.host.len() > 0
    &&& good_host(e.host)
    &&& e.user is Some ==> e.user->0.len() > 0 && good_user(e.user->0)
    &&& path_opt(e.identity_file)
    &&& sayable_nets(e.local_networks)
}

pub open spec fn sayable_nets(v: Seq<LocalNet>) -> bool {
    forall|i: int| 0 <= i < v.len() ==> sayable_net(#[trigger] v[i])
}

pub open spec fn sayable_hosts(v: Seq<HostView>) -> bool {
    forall|i: int| 0 <= i < v.len() ==> sayable_host(#[trigger] v[i])
}

pub open spec fn sayable_own(o: OwnView) -> bool {
    &&& path_opt(o.identity_file)
    &&& fitting_opt("reachability_timeout"@, o.reachability_timeout)
    &&& fitting_opt("reachability_interval"@, o.reachability_interval)
}

pub open spec fn sayable_alias(a: AliasView) -> bool {
    &&& sayable_hosts(a.entries)
    &&& path_opt(a.identity_file)
    &&& fitting_opt("reachability_timeout"@, a.reachability_timeout)
    &&& fitting_opt("reachability_interval"@, a.reachability_interval)
}

pub open spec fn sayable(c: ConfigView) -> bool {
    &&& fitting("reachability_timeout"@, c.reachability_timeout.value)
    &&& fitting("reachability_interval"@, c.reachability_interval.value)
    &&& forall|i: int| 0 <= i < c.hosts.len() ==> sayable_alias(#[trigger] c.hosts[i])
}

// ---- host entries ----------------------------------------------------------

proof fn lemma_host_keys_apart()
    ensures
        "host"@ != "user"@,
        "host"@ != "identity_file"@,
        "host"@ != "reachability_check"@,
        "host"@ != "prefer"@,
        "host"@ != "persist"@,
        "host"@ != "local_networks"@,
        "identity_file"@ != "local_networks"@,
        "user"@ != "identity_file"@,
        "user"@ != "local_networks"@,
        "user"@ != "reachability_check"@,
        "user"@ != "prefer"@,
        "user"@ != "persist"@,
        "identity_file"@ != "reachability_check"@,
        "identity_file"@ != "prefer"@,
        "identity_file"@ != "persist"@,
        "local_networks"@ != "reachability_check"@,
        "local_networks"@ != "prefer"@,
        "local_networks"@ != "persist"@,
        "reachability_check"@ != "prefer"@,
        "reachability_check"@ != "persist"@,
        "prefer"@ != "persist"@,
{
    reveal_strlit("host");
    reveal_strlit("user");
    reveal_strlit("identity_file");
    reveal_strlit("local_networks");
    reveal_strlit("reachability_check");
    reveal_strlit("prefer");
    reveal_strlit("persist");
    assert("host"@[0] == 'h' && "user"@[0] == 'u');
    assert("host"@.len() == 4 && "user"@.len() == 4 && "prefer"@.len() == 6 && "persist"@.len() == 7);
    assert("identity_file"@.len() == 13 && "local_networks"@.len() == 14);
    assert("reachability_check"@.len() == 18);
}

proof fn lemma_one_more(file: Seq<char>, m: Seq<(Seq<char>, NodeView)>, key: Seq<char>, n: NodeView)
    requires
        with_fields(file, m) is Ok,
    ensures
        with_fields(file, m + seq![(key, n)]) == with_field(with_fields(file, m)->Ok_0, file, key, n),
{
    let more = m + seq![(key, n)];
    assert(more.drop_last() =~= m);
}

/// What a host entry says, its networks aside.
spec fn says(d: DraftView, e: HostView) -> bool {
    &&& d.host == Some(e.host)
    &&& d.user == e.user
    &&& same_opt(d.identity, e.identity_file)
    &&& d.check == e.reachability_check
    &&& d.prefer == e.prefer
    &&& same_opt(d.persist, e.persist)
}

/// An entry without networks of its own is read as it was.
proof fn lemma_plain_read(file: Seq<char>, e: HostView, home: Option<Seq<char>>)
    requires
        sayable_host(e),
        e.local_networks.len() == 0,
    ensures
        shown_entry(e, home).value is Mapping,
        with_fields(file, shown_entry(e, home).value->Mapping_0) is Ok,
        says(with_fields(file, shown_entry(e, home).value->Mapping_0)->Ok_0, e),
        with_fields(file, shown_entry(e, home).value->Mapping_0)->Ok_0.networks.len() == 0,
{
    reveal(with_field);
    reveal(with_value);
    lemma_host_keys_apart();
    lemma_truth_text(true);
    lemma_truth_text(false);
    let m = entry_shown(e);
    let host = noted(text_node(e.host), from_comment(Some(e.origin), home));
    let none = Seq::<(Seq<char>, NodeView)>::empty();
    let p1 = match e.user {
        Some(u) => seq![("user"@, text_node(u))],
        None => none,
    };
    let p2 = match e.identity_file {
        Some(k) => seq![("identity_file"@, text_node(k.value))],
        None => none,
    };
    let p3 = if !e.reachability_check {
        seq![("reachability_check"@, bool_node(false))]
    } else {
        none
    };
    let p4 = if e.prefer {
        seq![("prefer"@, bool_node(true))]
    } else {
        none
    };
    let p5 = match e.persist {
        Some(p) => seq![("persist"@, bool_node(p.value))],
        None => none,
    };
    let m0 = none + seq![("host"@, host)];
    let m1 = m0 + p1;
    let m2 = m1 + p2;
    let m3 = m2 + p3;
    let m4 = m3 + p4;
    let m5 = m4 + p5;
    assert(m =~= seq![("host"@, text_node(e.host))] + p1 + p2 + p3 + p4 + p5);
    assert(m.update(0, (m[0].0, noted(m[0].1, from_comment(Some(e.origin), home)))) =~= m5);
    lemma_one_more(file, none, "host"@, host);
    let d0 = with_fields(file, m0)->Ok_0;
    assert(d0 == (DraftView { host: Some(e.host), ..blank() }));
    match e.user {
        Some(u) => lemma_one_more(file, m0, "user"@, text_node(u)),
        None => assert(m1 =~= m0),
    }
    let d1 = with_fields(file, m1)->Ok_0;
    assert(d1 == (DraftView { user: e.user, ..d0 }));
    match e.identity_file {
        Some(k) => lemma_one_more(file, m1, "identity_file"@, text_node(k.value)),
        None => assert(m2 =~= m1),
    }
    let d2 = with_fields(file, m2)->Ok_0;
    assert(d2 == (DraftView { identity: d2.identity, ..d1 }) && same_opt(
        d2.identity,
        e.identity_file,
    ));
    if !e.reachability_check {
        lemma_one_more(file, m2, "reachability_check"@, bool_node(false));
    } else {
        assert(m3 =~= m2);
    }
    let d3 = with_fields(file, m3)->Ok_0;
    assert(d3 == (DraftView { check: e.reachability_check, ..d2 }));
    if e.prefer {
        lemma_one_more(file, m3, "prefer"@, bool_node(true));
    } else {
        assert(m4 =~= m3);
    }
    let d4 = with_fields(file, m4)->Ok_0;
    assert(d4 == (DraftView { prefer: e.prefer, ..d3 }));
    match e.persist {
        Some(p) => {
            lemma_truth_text(p.value);
            lemma_one_more(file, m4, "persist"@, bool_node(p.value));
        },
        None => assert(m5 =~= m4),
    }
    let d5 = with_fields(file, m5)->Ok_0;
    assert(d5 == (DraftView { persist: d5.persist, ..d4 }) && same_opt(d5.persist, e.persist));
}

/// An entry that is shown is read as it was.
proof fn lemma_entry_read(file: Seq<char>, e: HostView, home: Option<Seq<char>>)
    requires
        sayable_host(e),
    ensures
        entry_in(file, shown_entry(e, home)) is Ok,
        same_host(entry_in(file, shown_entry(e, home))->Ok_0, e),
{
    let plain = HostView { local_networks: Seq::empty(), ..e };
    lemma_plain_read(file, plain, home);
    let had = shown_entry(plain, home).value->Mapping_0;
    let m = shown_entry(e, home).value->Mapping_0;
    let nets = networks_node(e.local_networks);
    if e.local_networks.len() > 0 {
        assert(m =~= had + seq![("local_networks"@, nets)]);
        lemma_one_more(file, had, "local_networks"@, nets);
        lemma_nets_read(e.local_networks);
        lemma_host_keys_apart();
        reveal(with_field);
        reveal(with_value);
        let d = with_fields(file, had)->Ok_0;
        assert(with_fields(file, m) == Ok::<DraftView, Seq<char>>(
            DraftView { networks: networks_in(nets.value)->Ok_0, ..d },
        ));
    } else {
        assert(m =~= had);
        assert(e.local_networks =~= Seq::empty());
    }
}

/// Networks that are shown are read as they were.
proof fn lemma_nets_read(v: Seq<LocalNet>)
    requires
        sayable_nets(v),
    ensures
        networks_in(networks_node(v).value) is Ok,
        same_nets(networks_in(networks_node(v).value)->Ok_0, v),
    decreases v.len(),
{
    let items = v.map_values(|n: LocalNet| text_node(cidr(n)));
    if v.len() > 0 {
        let most = v.drop_last();
        assert forall|i: int| 0 <= i < most.len() implies sayable_net(#[trigger] most[i]) by {
            assert(most[i] == v[i]);
        }
        lemma_nets_read(most);
        assert(items.drop_last() =~= most.map_values(|n: LocalNet| text_node(cidr(n))));
        assert(sayable_net(v[v.len() - 1]));
        law_a_network_reads_back(v.last());
    }
}

proof fn lemma_entries_read(
    file: Seq<char>,
    name: Seq<char>,
    v: Seq<HostView>,
    home: Option<Seq<char>>,
)
    requires
        sayable_hosts(v),
    ensures
        entries_in(file, name, shown_entries(v, home)) is Ok,
        same_hosts(entries_in(file, name, shown_entries(v, home))->Ok_0, v),
    decreases v.len(),
{
    let items = shown_entries(v, home);
    if v.len() > 0 {
        let most = v.drop_last();
        assert forall|i: int| 0 <= i < most.len() implies sayable_host(#[trigger] most[i]) by {
            assert(most[i] == v[i]);
        }
        lemma_entries_read(file, name, most, home);
        assert(items.drop_last() =~= shown_entries(most, home));
        assert(sayable_host(v[v.len() - 1]));
        lemma_entry_read(file, v.last(), home);
    }
}

// ---- aliases ---------------------------------------------------------------

proof fn lemma_own_keys_apart()
    ensures
        "hosts"@ != "identity_file"@,
        "hosts"@ != "redraw_on_reconnect"@,
        "hosts"@ != "reachability_timeout"@,
        "hosts"@ != "reachability_interval"@,
        "hosts"@ != "persist"@,
        "hosts"@ != "prefer_local_network"@,
        "host"@ != "hosts"@,
        "host"@ != "identity_file"@,
        "host"@ != "redraw_on_reconnect"@,
        "host"@ != "reachability_timeout"@,
        "host"@ != "reachability_interval"@,
        "host"@ != "persist"@,
        "host"@ != "prefer_local_network"@,
        "identity_file"@ != "redraw_on_reconnect"@,
        "identity_file"@ != "reachability_timeout"@,
        "identity_file"@ != "reachability_interval"@,
        "identity_file"@ != "persist"@,
        "identity_file"@ != "prefer_local_network"@,
        "redraw_on_reconnect"@ != "reachability_timeout"@,
        "redraw_on_reconnect"@ != "reachability_interval"@,
        "redraw_on_reconnect"@ != "persist"@,
        "redraw_on_reconnect"@ != "prefer_local_network"@,
        "persist"@ != "reachability_timeout"@,
        "persist"@ != "reachability_interval"@,
        "persist"@ != "prefer_local_network"@,
        "prefer_local_network"@ != "reachability_timeout"@,
        "prefer_local_network"@ != "reachability_interval"@,
        "reachability_timeout"@ != "reachability_interval"@,
{
    reveal_strlit("host");
    reveal_strlit("hosts");
    reveal_strlit("identity_file");
    reveal_strlit("redraw_on_reconnect");
    reveal_strlit("reachability_timeout");
    reveal_strlit("reachability_interval");
    reveal_strlit("persist");
    reveal_strlit("prefer_local_network");
    assert("host"@.len() == 4 && "hosts"@.len() == 5 && "persist"@.len() == 7);
    assert("identity_file"@.len() == 13 && "redraw_on_reconnect"@.len() == 19);
    assert("reachability_timeout"@.len() == 20 && "prefer_local_network"@.len() == 20);
    assert("reachability_interval"@.len() == 21);
    assert("reachability_timeout"@[0] == 'r' && "prefer_local_network"@[0] == 'p');
}

proof fn lemma_own_more(
    file: Seq<char>,
    name: Seq<char>,
    m: Seq<(Seq<char>, NodeView)>,
    key: Seq<char>,
    n: NodeView,
)
    requires
        owns(file, name, m) is Ok,
    ensures
        owns(file, name, m + seq![(key, n)]) == own_with(
            owns(file, name, m)->Ok_0,
            file,
            name,
            key,
            n,
        ),
{
    let more = m + seq![(key, n)];
    assert(more.drop_last() =~= m);
}

/// A value as it is read from a node that is shown.
pub open spec fn read_again<T>(file: Seq<char>, s: Said<T>) -> Said<T> {
    Said { value: s.value, origin: Some(OriginView { file, line: 0 }) }
}

proof fn lemma_own_bool(
    file: Seq<char>,
    name: Seq<char>,
    m: Seq<(Seq<char>, NodeView)>,
    key: Seq<char>,
    s: Option<Said<bool>>,
    home: Option<Seq<char>>,
)
    requires
        owns(file, name, m) is Ok,
        is_alias_bool_key(key),
    ensures
        owns(file, name, m + own_bool(key, s, home)) == Ok::<OwnView, Seq<char>>(
            match s {
                None => owns(file, name, m)->Ok_0,
                Some(x) => with_bool(owns(file, name, m)->Ok_0, key, read_again(file, x)),
            },
        ),
{
    lemma_own_keys_apart();
    match s {
        None => assert(m + own_bool(key, s, home) =~= m),
        Some(x) => {
            reveal(own_with);
            lemma_truth_text(x.value);
            lemma_own_more(
                file,
                name,
                m,
                key,
                noted(bool_node(x.value), from_comment(x.origin, home)),
            );
        },
    }
}

proof fn lemma_own_duration(
    file: Seq<char>,
    name: Seq<char>,
    m: Seq<(Seq<char>, NodeView)>,
    key: Seq<char>,
    s: Option<Said<u64>>,
    home: Option<Seq<char>>,
)
    requires
        owns(file, name, m) is Ok,
        is_duration_key(key),
        fitting_opt(key, s),
    ensures
        owns(file, name, m + own_duration(key, s, home)) == Ok::<OwnView, Seq<char>>(
            match s {
                None => owns(file, name, m)->Ok_0,
                Some(x) => with_duration(owns(file, name, m)->Ok_0, key, read_again(file, x)),
            },
        ),
{
    lemma_own_keys_apart();
    match s {
        None => assert(m + own_duration(key, s, home) =~= m),
        Some(x) => {
            reveal(own_with);
            law_a_duration_reads_back(key, x.value);
            lemma_own_more(
                file,
                name,
                m,
                key,
                noted(text_node(written(x.value)), from_comment(x.origin, home)),
            );
        },
    }
}

proof fn lemma_own_path(
    file: Seq<char>,
    name: Seq<char>,
    s: Option<Said<Seq<char>>>,
    home: Option<Seq<char>>,
)
    requires
        path_opt(s),
    ensures
        owns(file, name, own_text("identity_file"@, s, home)) == Ok::<OwnView, Seq<char>>(
            OwnView {
                identity_file: match s {
                    None => None,
                    Some(x) => Some(read_again(file, x)),
                },
                ..nothing_own()
            },
        ),
{
    lemma_own_keys_apart();
    let none = Seq::<(Seq<char>, NodeView)>::empty();
    assert(none + own_text("identity_file"@, s, home) =~= own_text("identity_file"@, s, home));
    if let Some(x) = s {
        reveal(own_with);
        lemma_own_more(
            file,
            name,
            none,
            "identity_file"@,
            noted(text_node(x.value), from_comment(x.origin, home)),
        );
    }
}

/// The settings of its own that an alias is shown with are read as they were.
proof fn lemma_own_read(file: Seq<char>, name: Seq<char>, a: AliasView, home: Option<Seq<char>>)
    requires
        sayable_alias(a),
    ensures
        owns(file, name, shown_own(a, home)) is Ok,
        same_own(owns(file, name, shown_own(a, home))->Ok_0, a),
        forall|i: int|
            0 <= i < shown_own(a, home).len() ==> (#[trigger] shown_own(a, home)[i]).0 != "host"@,
{
    lemma_own_keys_apart();
    let m1 = own_text("identity_file"@, a.identity_file, home);
    let m2 = m1 + own_bool("redraw_on_reconnect"@, a.redraw_on_reconnect, home);
    let m3 = m2 + own_duration("reachability_timeout"@, a.reachability_timeout, home);
    let m4 = m3 + own_duration("reachability_interval"@, a.reachability_interval, home);
    let m5 = m4 + own_bool("persist"@, a.persist, home);
    lemma_own_path(file, name, a.identity_file, home);
    lemma_own_bool(file, name, m1, "redraw_on_reconnect"@, a.redraw_on_reconnect, home);
    lemma_own_duration(file, name, m2, "reachability_timeout"@, a.reachability_timeout, home);
    lemma_own_duration(file, name, m3, "reachability_interval"@, a.reachability_interval, home);
    lemma_own_bool(file, name, m4, "persist"@, a.persist, home);
    lemma_own_bool(file, name, m5, "prefer_local_network"@, a.prefer_local_network, home);
}

/// An alias that is shown is read as it was.
proof fn lemma_alias_read(file: Seq<char>, a: AliasView, home: Option<Seq<char>>)
    requires
        sayable_alias(a),
        a.entries.len() > 0,
    ensures
        parts_in(file, a.name, shown_alias(a, home)) is Ok,
        ({
            let (entries, own) = parts_in(file, a.name, shown_alias(a, home))->Ok_0;
            same_hosts(entries, a.entries) && same_own(own, a)
        }),
{
    reveal(parts_in);
    reveal(hosts_in);
    let list = bare(ValueView::List(shown_entries(a.entries, home)));
    let own = shown_own(a, home);
    lemma_entries_read(file, a.name, a.entries, home);
    lemma_own_read(file, a.name, a, home);
    if own.len() > 0 {
        let m = own.push(("hosts"@, list));
        assert(m =~= own + seq![("hosts"@, list)]);
        lemma_own_more(file, a.name, own, "hosts"@, list);
        reveal(own_with);
        lemma_own_keys_apart();
        lemma_found(m, "host"@, 0);
        assert(find_key(m, "host"@) is None) by {
            if let Some(i) = find_key(m, "host"@) {
                if i < own.len() {
                    assert(m[i] == own[i]);
                }
            }
        }
        assert(listed(m) == Some(list));
    } else {
        assert(own =~= Seq::empty());
        assert(owns(file, a.name, own) == Ok::<OwnView, Seq<char>>(nothing_own()));
    }
}

proof fn lemma_aliases_read(
    c: ConfigView,
    file: Seq<char>,
    v: Seq<AliasView>,
    home: Option<Seq<char>>,
)
    requires
        c.hosts.len() == 0,
        named_apart(v),
        forall|i: int|
            0 <= i < v.len() ==> sayable_alias(#[trigger] v[i]) && v[i].entries.len() > 0,
    ensures
        ({
            let (d, e) = aliases_applied(c, file, shown_aliases(v, home));
            &&& e is None
            &&& d == (ConfigView { hosts: d.hosts, ..c })
            &&& same_aliases(d.hosts, v)
        }),
    decreases v.len(),
{
    let m = shown_aliases(v, home);
    if v.len() > 0 {
        let most = v.drop_last();
        let a = v.last();
        assert forall|i: int| 0 <= i < most.len() implies #[trigger] most[i] == v[i] by {}
        lemma_aliases_read(c, file, most, home);
        assert(m.drop_last() =~= shown_aliases(most, home));
        let (d, _) = aliases_applied(c, file, m.drop_last());
        reveal(alias_applied);
        assert(v[v.len() - 1] == a);
        lemma_alias_read(file, a, home);
        lemma_alias_found(d.hosts, a.name, 0);
        assert(alias_from(d.hosts, a.name, 0) is None) by {
            if let Some(i) = alias_from(d.hosts, a.name, 0) {
                assert(same_alias(d.hosts[i], most[i]));
                assert(v[i].name != v[v.len() - 1].name);
            }
        }
        assert(m.last() == (a.name, shown_alias(a, home)));
    }
}

// ---- the settings ----------------------------------------------------------

proof fn lemma_keys_apart()
    ensures
        "install_on_remote"@ != "update_check"@,
        "install_on_remote"@ != "command_bell"@,
        "install_on_remote"@ != "redraw_on_reconnect"@,
        "install_on_remote"@ != "persist"@,
        "install_on_remote"@ != "prefer_local_network"@,
        "update_check"@ != "command_bell"@,
        "update_check"@ != "redraw_on_reconnect"@,
        "update_check"@ != "persist"@,
        "update_check"@ != "prefer_local_network"@,
        "command_bell"@ != "redraw_on_reconnect"@,
        "command_bell"@ != "persist"@,
        "command_bell"@ != "prefer_local_network"@,
        "redraw_on_reconnect"@ != "persist"@,
        "redraw_on_reconnect"@ != "prefer_local_network"@,
        "persist"@ != "prefer_local_network"@,
        "reachability_timeout"@ != "reachability_interval"@,
        !is_bool_key("aliases"@),
        !is_duration_key("aliases"@),
        !is_bool_key("reachability_timeout"@),
        !is_bool_key("reachability_interval"@),
{
    reveal_strlit("install_on_remote");
    reveal_strlit("update_check");
    reveal_strlit("command_bell");
    reveal_strlit("redraw_on_reconnect");
    reveal_strlit("reachability_timeout");
    reveal_strlit("reachability_interval");
    reveal_strlit("persist");
    reveal_strlit("prefer_local_network");
    reveal_strlit("aliases");
    assert("install_on_remote"@.len() == 17 && "redraw_on_reconnect"@.len() == 19);
    assert("update_check"@.len() == 12 && "command_bell"@.len() == 12);
    assert("update_check"@[0] == 'u' && "command_bell"@[0] == 'c');
    assert("persist"@.len() == 7 && "aliases"@.len() == 7);
    assert("persist"@[0] == 'p' && "aliases"@[0] == 'a');
    assert("reachability_timeout"@.len() == 20 && "prefer_local_network"@.len() == 20);
    assert("reachability_timeout"@[0] == 'r' && "prefer_local_network"@[0] == 'p');
    assert("reachability_interval"@.len() == 21);
}

/// A true-or-false setting that is shown is read as it was.
proof fn lemma_bool_read(
    d: ConfigView,
    file: Seq<char>,
    c: ConfigView,
    key: Seq<char>,
    home: Option<Seq<char>>,
)
    requires
        is_bool_key(key),
    ensures
        shown_setting(c, key, home).0 == key,
        entry_applied(d, file, key, shown_setting(c, key, home).1) == (
            bool_set(d, key, read_again(file, bool_of(c, key)->0)),
            None::<Seq<char>>,
        ),
{
    reveal(entry_applied);
    lemma_truth_text(bool_of(c, key)->0.value);
}

/// A duration that is shown is read as it was.
proof fn lemma_duration_read(
    d: ConfigView,
    file: Seq<char>,
    c: ConfigView,
    key: Seq<char>,
    home: Option<Seq<char>>,
)
    requires
        is_duration_key(key),
        fitting(key, duration_of(c, key)->0.value),
    ensures
        shown_setting(c, key, home).0 == key,
        entry_applied(d, file, key, shown_setting(c, key, home).1) == (
            duration_set(d, key, read_again(file, duration_of(c, key)->0)),
            None::<Seq<char>>,
        ),
{
    reveal(entry_applied);
    lemma_keys_apart();
    law_a_duration_reads_back(key, duration_of(c, key)->0.value);
}

proof fn lemma_settings_more(
    d: ConfigView,
    file: Seq<char>,
    m: Seq<(Seq<char>, NodeView)>,
    k: int,
)
    requires
        0 <= k < m.len(),
        entries_applied(d, file, m.take(k)).1 is None,
    ensures
        entries_applied(d, file, m.take(k + 1)) == entry_applied(
            entries_applied(d, file, m.take(k)).0,
            file,
            m[k].0,
            m[k].1,
        ),
{
    assert(m.take(k + 1).drop_last() =~= m.take(k));
}

/// The settings that are shown are read as they were.
proof fn lemma_settings_read(file: Seq<char>, c: ConfigView, home: Option<Seq<char>>)
    requires
        sayable(c),
    ensures
        ({
            let (d, e) = entries_applied(defaults(), file, shown_settings(c, home));
            &&& e is None
            &&& same_config(ConfigView { hosts: Seq::empty(), ..d }, ConfigView {
                hosts: Seq::empty(),
                ..c
            })
            &&& d.hosts.len() == 0
        }),
{
    lemma_keys_apart();
    let m = shown_settings(c, home);
    let d = defaults();
    assert(m.take(0) =~= Seq::empty());
    lemma_settings_more(d, file, m, 0);
    lemma_bool_read(d, file, c, "install_on_remote"@, home);
    let d1 = bool_set(d, "install_on_remote"@, read_again(file, c.install_on_remote));
    lemma_settings_more(d, file, m, 1);
    lemma_bool_read(d1, file, c, "update_check"@, home);
    let d2 = bool_set(d1, "update_check"@, read_again(file, c.update_check));
    lemma_settings_more(d, file, m, 2);
    lemma_bool_read(d2, file, c, "command_bell"@, home);
    let d3 = bool_set(d2, "command_bell"@, read_again(file, c.command_bell));
    lemma_settings_more(d, file, m, 3);
    lemma_bool_read(d3, file, c, "redraw_on_reconnect"@, home);
    let d4 = bool_set(d3, "redraw_on_reconnect"@, read_again(file, c.redraw_on_reconnect));
    lemma_settings_more(d, file, m, 4);
    lemma_duration_read(d4, file, c, "reachability_timeout"@, home);
    let d5 = duration_set(d4, "reachability_timeout"@, read_again(file, c.reachability_timeout));
    lemma_settings_more(d, file, m, 5);
    lemma_bool_read(d5, file, c, "persist"@, home);
    let d6 = bool_set(d5, "persist"@, read_again(file, c.persist));
    lemma_settings_more(d, file, m, 6);
    lemma_duration_read(d6, file, c, "reachability_interval"@, home);
    let d7 = duration_set(d6, "reachability_interval"@, read_again(file, c.reachability_interval));
    lemma_settings_more(d, file, m, 7);
    lemma_bool_read(d7, file, c, "prefer_local_network"@, home);
    let d8 = bool_set(d7, "prefer_local_network"@, read_again(file, c.prefer_local_network));
    assert(m.take(8) =~= m);
    assert(entries_applied(d, file, m) == (d8, None::<Seq<char>>));
}

// ---- what was loaded -------------------------------------------------------

/// A host entry as far as it has been read.
pub open spec fn sayable_draft(d: DraftView) -> bool {
    &&& d.host is Some ==> d.host->0.len() > 0 && good_host(d.host->0)
    &&& d.user is Some ==> d.user->0.len() > 0 && good_user(d.user->0)
    &&& path_opt(d.identity)
    &&& sayable_nets(d.networks)
}

proof fn lemma_list_sayable(items: Seq<NodeView>)
    ensures
        networks_in_list(items) is Ok ==> sayable_nets(networks_in_list(items)->Ok_0),
    decreases items.len(),
{
    if items.len() > 0 {
        lemma_list_sayable(items.drop_last());
        if let ValueView::Scalar { text, .. } = items.last().value {
            lemma_read_is_sayable(text);
        }
    }
}

proof fn lemma_parts_of_nets_sayable(parts: Seq<Seq<char>>)
    ensures
        networks_in_parts(parts) is Ok ==> sayable_nets(networks_in_parts(parts)->Ok_0),
    decreases parts.len(),
{
    if parts.len() > 0 {
        lemma_parts_of_nets_sayable(parts.drop_last());
        lemma_read_is_sayable(trimmed(parts.last()));
    }
}

proof fn lemma_nets_sayable(v: ValueView)
    ensures
        networks_in(v) is Ok ==> sayable_nets(networks_in(v)->Ok_0),
{
    match v {
        ValueView::List(items) => lemma_list_sayable(items),
        ValueView::Scalar { text, .. } => lemma_parts_of_nets_sayable(split(text, ',')),
        _ => {},
    }
}

proof fn lemma_draft_sayable(file: Seq<char>, m: Seq<(Seq<char>, NodeView)>)
    ensures
        with_fields(file, m) is Ok ==> sayable_draft(with_fields(file, m)->Ok_0),
    decreases m.len(),
{
    reveal(with_field);
    reveal(with_value);
    if m.len() > 0 {
        lemma_draft_sayable(file, m.drop_last());
        lemma_nets_sayable(m.last().1.value);
    }
}

proof fn lemma_entries_sayable(file: Seq<char>, name: Seq<char>, items: Seq<NodeView>)
    ensures
        entries_in(file, name, items) is Ok ==> sayable_hosts(
            entries_in(file, name, items)->Ok_0,
        ),
    decreases items.len(),
{
    if items.len() > 0 {
        lemma_entries_sayable(file, name, items.drop_last());
        if let ValueView::Mapping(m) = items.last().value {
            lemma_draft_sayable(file, m);
        }
    }
}

proof fn lemma_own_sayable(file: Seq<char>, name: Seq<char>, m: Seq<(Seq<char>, NodeView)>)
    ensures
        owns(file, name, m) is Ok ==> sayable_own(owns(file, name, m)->Ok_0),
    decreases m.len(),
{
    reveal(own_with);
    lemma_own_keys_apart();
    if m.len() > 0 {
        lemma_own_sayable(file, name, m.drop_last());
    }
}

proof fn lemma_parts_sayable(file: Seq<char>, name: Seq<char>, n: NodeView)
    ensures
        parts_in(file, name, n) is Ok ==> ({
            let (entries, own) = parts_in(file, name, n)->Ok_0;
            sayable_hosts(entries) && sayable_own(own)
        }),
{
    reveal(parts_in);
    reveal(hosts_in);
    if let ValueView::List(items) = n.value {
        lemma_entries_sayable(file, name, items);
    }
    lemma_entries_sayable(file, name, seq![n]);
    if let ValueView::Mapping(m) = n.value {
        lemma_own_sayable(file, name, m);
        if let Some(l) = listed(m) {
            if let ValueView::List(items) = l.value {
                lemma_entries_sayable(file, name, items);
            }
            lemma_entries_sayable(file, name, seq![l]);
        }
    }
}

proof fn lemma_aliases_sayable(c: ConfigView, file: Seq<char>, m: Seq<(Seq<char>, NodeView)>)
    requires
        sayable(c),
    ensures
        sayable(aliases_applied(c, file, m).0),
    decreases m.len(),
{
    if m.len() > 0 {
        let (d, e) = aliases_applied(c, file, m.drop_last());
        lemma_aliases_sayable(c, file, m.drop_last());
        if e is None {
            let (name, n) = m.last();
            reveal(alias_applied);
            lemma_parts_sayable(file, name, n);
            lemma_alias_found(d.hosts, name, 0);
            let after = alias_applied(d, file, name, n).0;
            assert forall|i: int| 0 <= i < after.hosts.len() implies sayable_alias(
                #[trigger] after.hosts[i],
            ) by {
                if i < d.hosts.len() {
                    assert(sayable_alias(d.hosts[i]));
                }
            }
        }
    }
}

proof fn lemma_settings_sayable(c: ConfigView, file: Seq<char>, m: Seq<(Seq<char>, NodeView)>)
    requires
        sayable(c),
    ensures
        sayable(entries_applied(c, file, m).0),
    decreases m.len(),
{
    if m.len() > 0 {
        let (d, e) = entries_applied(c, file, m.drop_last());
        lemma_settings_sayable(c, file, m.drop_last());
        if e is None {
            reveal(entry_applied);
            lemma_keys_apart();
            if let ValueView::Mapping(am) = m.last().1.value {
                lemma_aliases_sayable(d, file, am);
            }
        }
    }
}

proof fn lemma_loaded_sayable(files: Seq<(Seq<char>, Option<NodeView>)>)
    ensures
        loaded(files) is Ok ==> sayable(loaded(files)->Ok_0),
    decreases files.len(),
{
    lemma_keys_apart();
    if files.len() > 0 {
        lemma_loaded_sayable(files.drop_last());
        if loaded(files.drop_last()) is Ok {
            let c = loaded(files.drop_last())->Ok_0;
            if let Some(root) = files.last().1 {
                if let ValueView::Mapping(m) = root.value {
                    lemma_settings_sayable(c, files.last().0, m);
                }
            }
        }
    }
}

proof fn lemma_no_fault(hosts: Seq<AliasView>, from: int)
    requires
        0 <= from,
        forall|i: int| from <= i < hosts.len() ==> (#[trigger] hosts[i]).entries.len() > 0,
    ensures
        hostless(hosts, from) is None,
    decreases hosts.len() - from,
{
    if from < hosts.len() {
        assert(hosts[from].entries.len() > 0);
        lemma_no_fault(hosts, from + 1);
    }
}

/// What `acs config` shows of the files acs reads is itself a file that acs reads,
/// and it says the same: every setting, and every alias with its settings and hosts
/// in their order.
pub proof fn law_what_is_shown_reads_back(
    files: Seq<(Seq<char>, Option<NodeView>)>,
    global: Seq<char>,
    local: Seq<char>,
    home: Option<Seq<char>>,
    file: Seq<char>,
)
    requires
        configured(files) is Ok,
    ensures
        ({
            let c = configured(files)->Ok_0;
            let again = configured(seq![(file, Some(shown(c, global, local, home).root))]);
            again is Ok && same_config(again->Ok_0, c)
        }),
{
    let c = configured(files)->Ok_0;
    let root = shown(c, global, local, home).root;
    lemma_loaded_sayable(files);
    lemma_files_apart(files);
    lemma_no_hostless(c.hosts, 0);
    lemma_keys_apart();
    let m = shown_settings(c, home);
    let (d, _) = entries_applied(defaults(), file, m);
    lemma_settings_read(file, c, home);
    let node = if c.hosts.len() == 0 {
        NodeView { flow: true, ..noted(bare(ValueView::Mapping(Seq::empty())), "# none"@) }
    } else {
        bare(ValueView::Mapping(shown_aliases(c.hosts, home)))
    };
    let all = m.push(("aliases"@, node));
    assert(root.value == ValueView::Mapping(all));
    assert(all.drop_last() =~= m);
    assert(entries_applied(defaults(), file, all) == entry_applied(d, file, "aliases"@, node));
    reveal(entry_applied);
    assert(shown_aliases(c.hosts, home).len() == c.hosts.len());
    assert(c.hosts.len() == 0 ==> shown_aliases(c.hosts, home) =~= Seq::empty());
    lemma_aliases_read(d, file, c.hosts, home);
    let (e, _) = aliases_applied(d, file, shown_aliases(c.hosts, home));
    assert(applied(defaults(), file, root) == (e, None::<Seq<char>>));
    let one = seq![(file, Some(root))];
    reveal_with_fuel(loaded, 2);
    assert(one.drop_last() =~= Seq::empty());
    let again = loaded(one)->Ok_0;
    assert(again.hosts == e.hosts);
    assert forall|i: int| 0 <= i < e.hosts.len() implies (#[trigger] e.hosts[i]).entries.len()
        > 0 by {
        assert(same_alias(e.hosts[i], c.hosts[i]));
    }
    lemma_no_fault(e.hosts, 0);
}

/// What a file says of a setting, if anything.
pub open spec fn says_of(root: Option<NodeView>, key: Seq<char>) -> bool {
    root matches Some(n) && n.value matches ValueView::Mapping(m) && last_given(m, key) is Some
}

proof fn lemma_left_alone(files: Seq<(Seq<char>, Option<NodeView>)>, key: Seq<char>)
    requires
        loaded(files) is Ok,
        is_bool_key(key) || is_duration_key(key),
        forall|i: int| 0 <= i < files.len() ==> !says_of((#[trigger] files[i]).1, key),
    ensures
        bool_of(loaded(files)->Ok_0, key) == bool_of(defaults(), key),
        duration_of(loaded(files)->Ok_0, key) == duration_of(defaults(), key),
    decreases files.len(),
{
    lemma_kinds_apart(key);
    if files.len() > 0 {
        let most = files.drop_last();
        assert forall|i: int| 0 <= i < most.len() implies !says_of((#[trigger] most[i]).1, key) by {
            assert(most[i] == files[i]);
        }
        lemma_left_alone(most, key);
        let (file, root) = files[files.len() - 1];
        let c = loaded(most)->Ok_0;
        if let Some(root) = root {
            if let ValueView::Mapping(m) = root.value {
                law_a_file_sets_what_it_names(c, file, root, m, key);
            }
        }
    }
}

/// A setting that no file gives is shown with its default, and as that.
pub proof fn law_what_is_not_set_is_shown_as_the_default(
    files: Seq<(Seq<char>, Option<NodeView>)>,
    key: Seq<char>,
    home: Option<Seq<char>>,
)
    requires
        configured(files) is Ok,
        is_bool_key(key) || is_duration_key(key),
        forall|i: int| 0 <= i < files.len() ==> !says_of((#[trigger] files[i]).1, key),
    ensures
        ({
            let c = configured(files)->Ok_0;
            let (n, origin) = scalar_of(defaults(), key)->0;
            &&& origin is None
            &&& shown_setting(c, key, home) == (key, noted(n, "# default"@))
            &&& shown_settings(c, home).contains((key, noted(n, "# default"@)))
        }),
{
    lemma_left_alone(files, key);
    lemma_kinds_apart(key);
    let v = shown_settings(configured(files)->Ok_0, home);
    assert(exists|i: int| 0 <= i < 8 && (#[trigger] v[i]).0 == key);
}

/// The networks that `set` writes are read as the networks that were given, in their
/// order; what is none is refused.
pub proof fn law_networks_that_are_set_read_back(value: Seq<char>)
    ensures
        match networks_in_text(value) {
            Err(_) => typed_as("local_networks"@, value) is Err,
            Ok(nets) => {
                let n = typed_as("local_networks"@, value);
                &&& n is Ok
                &&& networks_in(n->Ok_0.value) is Ok
                &&& same_nets(networks_in(n->Ok_0.value)->Ok_0, nets)
            },
        },
{
    lemma_networks_apart();
    if networks_in_text(value) is Ok {
        lemma_parts_of_nets_sayable(split(value, ','));
        lemma_nets_read(networks_in_text(value)->Ok_0);
    }
}

/// The networks are no setting of another kind.
proof fn lemma_networks_apart()
    ensures
        !is_bool_key("local_networks"@),
        !is_alias_bool_key("local_networks"@),
        !is_duration_key("local_networks"@),
{
    reveal_strlit("local_networks");
    reveal_strlit("install_on_remote");
    reveal_strlit("update_check");
    reveal_strlit("command_bell");
    reveal_strlit("redraw_on_reconnect");
    reveal_strlit("persist");
    reveal_strlit("prefer_local_network");
    reveal_strlit("reachability_timeout");
    reveal_strlit("reachability_interval");
    assert("local_networks"@.len() == 14);
}

} // verus!
