//! Merging a file's settings over what is there.

use crate::config::entry::{
    at, bool_in, bool_value, duration_value, duration_value_in, entry_in, host_entry, identity_file,
    identity_in, origin_at,
};
use crate::config::{
    alias_bool_key, alias_from, bad_alias_text, bool_key, duration_key, fault, good_alias,
    host_views, is_alias_bool_key, is_bool_key, is_duration_key, opt_said, opt_said_text, place,
    validate_alias, Alias, AliasView, Config, ConfigView, HostEntry, HostView, Origin, OriginView,
    Said, Setting, ALIAS_KEYS, KEYS,
};
use crate::text::same;
use crate::yaml::{
    entry_views, find_key, kind_of, lemma_entry_views, lemma_node_views, node_view, node_views,
    position, Node, NodeView, Value, ValueView,
};
use vstd::prelude::*;

verus! {

/// The settings one file gives an alias of its own; `None` where it gives none.
pub struct AliasSettings {
    pub identity_file: Option<Setting<String>>,
    pub redraw_on_reconnect: Option<Setting<bool>>,
    pub reachability_timeout: Option<Setting<u64>>,
    pub persist: Option<Setting<bool>>,
    pub reachability_interval: Option<Setting<u64>>,
    pub prefer_local_network: Option<Setting<bool>>,
}

#[verifier::ext_equal]
pub struct OwnView {
    pub identity_file: Option<Said<Seq<char>>>,
    pub redraw_on_reconnect: Option<Said<bool>>,
    pub reachability_timeout: Option<Said<u64>>,
    pub persist: Option<Said<bool>>,
    pub reachability_interval: Option<Said<u64>>,
    pub prefer_local_network: Option<Said<bool>>,
}

impl View for AliasSettings {
    type V = OwnView;

    open spec fn view(&self) -> OwnView {
        OwnView {
            identity_file: opt_said_text(self.identity_file),
            redraw_on_reconnect: opt_said(self.redraw_on_reconnect),
            reachability_timeout: opt_said(self.reachability_timeout),
            persist: opt_said(self.persist),
            reachability_interval: opt_said(self.reachability_interval),
            prefer_local_network: opt_said(self.prefer_local_network),
        }
    }
}

pub open spec fn nothing_own() -> OwnView {
    OwnView {
        identity_file: None,
        redraw_on_reconnect: None,
        reachability_timeout: None,
        persist: None,
        reachability_interval: None,
        prefer_local_network: None,
    }
}

/// What a file sets over what was set before.
pub open spec fn over<T>(to: Option<T>, from: Option<T>) -> Option<T> {
    if from is Some {
        from
    } else {
        to
    }
}

/// The alias with what this file sets of it; the rest stays as it was.
pub open spec fn merged(a: AliasView, entries: Seq<HostView>, own: OwnView) -> AliasView {
    AliasView {
        entries: a.entries + entries,
        identity_file: over(a.identity_file, own.identity_file),
        redraw_on_reconnect: over(a.redraw_on_reconnect, own.redraw_on_reconnect),
        reachability_timeout: over(a.reachability_timeout, own.reachability_timeout),
        persist: over(a.persist, own.persist),
        prefer_local_network: over(a.prefer_local_network, own.prefer_local_network),
        reachability_interval: over(a.reachability_interval, own.reachability_interval),
        ..a
    }
}

/// An alias no file has said anything of.
pub open spec fn new_alias(name: Seq<char>, origin: OriginView) -> AliasView {
    AliasView {
        name,
        entries: Seq::empty(),
        identity_file: None,
        redraw_on_reconnect: None,
        reachability_timeout: None,
        persist: None,
        prefer_local_network: None,
        reachability_interval: None,
        origin,
    }
}

/// What is wrong at a node of a file.
pub open spec fn fail_text(file: Seq<char>, n: NodeView, msg: Seq<char>) -> Seq<char> {
    place(at(file, n)) + ": "@ + msg
}

fn fail(file: &str, n: &Node, msg: &str) -> (s: String)
    ensures
        s@ == fail_text(file@, n@, msg@),
{
    let mut s = origin_at(file, n).text();
    s.append(": ");
    s.append(msg);
    s
}

/// What is wrong at a node of an alias.
pub open spec fn alias_fail_text(
    file: Seq<char>,
    name: Seq<char>,
    n: NodeView,
    msg: Seq<char>,
) -> Seq<char> {
    place(at(file, n)) + ": aliases."@ + name + ": "@ + msg
}

fn alias_fail(file: &str, name: &str, n: &Node, msg: &str) -> (s: String)
    ensures
        s@ == alias_fail_text(file@, name@, n@, msg@),
{
    let mut s = origin_at(file, n).text();
    s.append(": aliases.");
    s.append(name);
    s.append(": ");
    s.append(msg);
    s
}

pub open spec fn keyed_text(key: Seq<char>, e: Seq<char>) -> Seq<char> {
    key + ": "@ + e
}

fn keyed(key: &str, e: &str) -> (s: String)
    ensures
        s@ == keyed_text(key@, e@),
{
    let mut s = key.to_owned();
    s.append(": ");
    s.append(e);
    s
}

pub open spec fn no_list_text(kind: Seq<char>) -> Seq<char> {
    "expected a list of hosts ('- host: name'), found "@ + kind
}

fn no_list(kind: &str) -> (s: String)
    ensures
        s@ == no_list_text(kind@),
{
    let mut s = "expected a list of hosts ('- host: name'), found ".to_owned();
    s.append(kind);
    s
}

pub open spec fn no_alias_key_text(key: Seq<char>) -> Seq<char> {
    "unknown key '"@ + key + "' (an alias takes "@ + ALIAS_KEYS@
        + "; a single host entry needs 'host: <name>')"@
}

fn no_alias_key(key: &str) -> (s: String)
    ensures
        s@ == no_alias_key_text(key@),
{
    let mut s = "unknown key '".to_owned();
    s.append(key);
    s.append("' (an alias takes ");
    s.append(ALIAS_KEYS);
    s.append("; a single host entry needs 'host: <name>')");
    s
}

// ---- an alias --------------------------------------------------------------

/// An alias's own settings with one more, a true-or-false one.
pub open spec fn with_bool(o: OwnView, key: Seq<char>, s: Said<bool>) -> OwnView {
    if key == "redraw_on_reconnect"@ {
        OwnView { redraw_on_reconnect: Some(s), ..o }
    } else if key == "persist"@ {
        OwnView { persist: Some(s), ..o }
    } else {
        OwnView { prefer_local_network: Some(s), ..o }
    }
}

/// An alias's own settings with one more, a duration.
pub open spec fn with_duration(o: OwnView, key: Seq<char>, s: Said<u64>) -> OwnView {
    if key == "reachability_timeout"@ {
        OwnView { reachability_timeout: Some(s), ..o }
    } else {
        OwnView { reachability_interval: Some(s), ..o }
    }
}

/// One key of an alias written as a mapping, but its `hosts`.
#[verifier::opaque]
pub open spec fn own_with(o: OwnView, file: Seq<char>, name: Seq<char>, key: Seq<char>, n: NodeView) -> Result<
    OwnView,
    Seq<char>,
> {
    if key == "hosts"@ {
        Ok(o)
    } else if key == "identity_file"@ {
        match identity_in(file, n) {
            Err(e) => Err(alias_fail_text(file, name, n, keyed_text(key, e))),
            Ok(i) => Ok(OwnView { identity_file: i, ..o }),
        }
    } else if is_alias_bool_key(key) {
        if n.value is Null {
            Ok(o)
        } else {
            match bool_in(n.value) {
                Err(e) => Err(alias_fail_text(file, name, n, keyed_text(key, e))),
                Ok(value) => Ok(with_bool(o, key, Said { value, origin: Some(at(file, n)) })),
            }
        }
    } else if is_duration_key(key) {
        if n.value is Null {
            Ok(o)
        } else {
            match duration_value_in(key, n.value) {
                Err(e) => Err(alias_fail_text(file, name, n, keyed_text(key, e))),
                Ok(value) => Ok(with_duration(o, key, Said { value, origin: Some(at(file, n)) })),
            }
        }
    } else {
        Err(alias_fail_text(file, name, n, no_alias_key_text(key)))
    }
}

/// The keys of an alias written as a mapping, but its `hosts`.
pub open spec fn owns(file: Seq<char>, name: Seq<char>, m: Seq<(Seq<char>, NodeView)>) -> Result<
    OwnView,
    Seq<char>,
>
    decreases m.len(),
{
    if m.len() == 0 {
        Ok(nothing_own())
    } else {
        match owns(file, name, m.drop_last()) {
            Err(e) => Err(e),
            Ok(o) => own_with(o, file, name, m.last().0, m.last().1),
        }
    }
}

/// The last `hosts` of an alias written as a mapping, unless it is empty.
pub open spec fn listed(m: Seq<(Seq<char>, NodeView)>) -> Option<NodeView>
    decreases m.len(),
{
    if m.len() == 0 {
        None
    } else if m.last().0 == "hosts"@ {
        if m.last().1.value is Null {
            None
        } else {
            Some(m.last().1)
        }
    } else {
        listed(m.drop_last())
    }
}

/// The host entries of a list, or what is wrong with the first that is none.
pub open spec fn entries_in(file: Seq<char>, name: Seq<char>, items: Seq<NodeView>) -> Result<
    Seq<HostView>,
    Seq<char>,
>
    decreases items.len(),
{
    if items.len() == 0 {
        Ok(Seq::empty())
    } else {
        match entries_in(file, name, items.drop_last()) {
            Err(e) => Err(e),
            Ok(v) => match entry_in(file, items.last()) {
                Err(e) => Err(alias_fail_text(file, name, items.last(), e)),
                Ok(h) => Ok(v.push(h)),
            },
        }
    }
}

/// The hosts that a node lists: a list of entries, or one without the list.
#[verifier::opaque]
pub open spec fn hosts_in(file: Seq<char>, name: Seq<char>, list: NodeView) -> Result<
    Seq<HostView>,
    Seq<char>,
> {
    match list.value {
        ValueView::List(items) => match entries_in(file, name, items) {
            Err(e) => Err(e),
            Ok(v) => if v.len() == 0 {
                Err(alias_fail_text(file, name, list, "no hosts listed"@))
            } else {
                Ok(v)
            },
        },
        ValueView::Mapping(_) => entries_in(file, name, seq![list]),
        _ => Err(alias_fail_text(file, name, list, no_list_text(kind_of(list.value)))),
    }
}

/// One file's entries and settings for an alias: a list of entries, one entry
/// without the list, or a mapping of the alias's settings and its `hosts` (which
/// another file may supply instead).
#[verifier::opaque]
pub open spec fn parts_in(file: Seq<char>, name: Seq<char>, n: NodeView) -> Result<
    (Seq<HostView>, OwnView),
    Seq<char>,
> {
    match n.value {
        ValueView::Mapping(m) if find_key(m, "host"@) is None => match owns(file, name, m) {
            Err(e) => Err(e),
            Ok(o) => match listed(m) {
                None => Ok((Seq::empty(), o)),
                Some(l) => match hosts_in(file, name, l) {
                    Err(e) => Err(e),
                    Ok(v) => Ok((v, o)),
                },
            },
        },
        _ => match hosts_in(file, name, n) {
            Err(e) => Err(e),
            Ok(v) => Ok((v, nothing_own())),
        },
    }
}

impl AliasSettings {
    fn empty() -> (o: AliasSettings)
        ensures
            o@ == nothing_own(),
    {
        AliasSettings {
            identity_file: None,
            redraw_on_reconnect: None,
            reachability_timeout: None,
            persist: None,
            reachability_interval: None,
            prefer_local_network: None,
        }
    }

    fn set(&mut self, file: &str, name: &str, k: &str, v: &Node) -> (r: Result<(), String>)
        ensures
            match r {
                Ok(_) => own_with(old(self)@, file@, name@, k@, v@) == Ok::<OwnView, Seq<char>>(
                    final(self)@,
                ),
                Err(e) => own_with(old(self)@, file@, name@, k@, v@) == Err::<OwnView, Seq<char>>(e@),
            },
    {
        reveal(own_with);
        if same(k, "hosts") {
            Ok(())
        } else if same(k, "identity_file") {
            match identity_file(v, file) {
                Err(e) => Err(alias_fail(file, name, v, &keyed(k, &e))),
                Ok(i) => {
                    self.identity_file = i;
                    Ok(())
                },
            }
        } else if alias_bool_key(k) {
            if v.value.is_null() {
                return Ok(());
            }
            match bool_value(v) {
                Err(e) => Err(alias_fail(file, name, v, &keyed(k, &e))),
                Ok(value) => {
                    let s = Some(Setting { value, origin: Some(origin_at(file, v)) });
                    if same(k, "redraw_on_reconnect") {
                        self.redraw_on_reconnect = s;
                    } else if same(k, "persist") {
                        self.persist = s;
                    } else {
                        self.prefer_local_network = s;
                    }
                    Ok(())
                },
            }
        } else if duration_key(k) {
            if v.value.is_null() {
                return Ok(());
            }
            match duration_value(k, v) {
                Err(e) => Err(alias_fail(file, name, v, &keyed(k, &e))),
                Ok(value) => {
                    let s = Some(Setting { value, origin: Some(origin_at(file, v)) });
                    if same(k, "reachability_timeout") {
                        self.reachability_timeout = s;
                    } else {
                        self.reachability_interval = s;
                    }
                    Ok(())
                },
            }
        } else {
            Err(alias_fail(file, name, v, &no_alias_key(k)))
        }
    }

    /// Set on `alias` what this file sets; the rest stays as it was.
    fn merge_into(self, alias: &mut Alias, entries: Vec<HostEntry>)
        ensures
            final(alias)@ == merged(old(alias)@, host_views(entries@), self@),
    {
        let ghost before = alias@;
        let mut more = entries;
        let ghost added = host_views(more@);
        let ghost had = alias.entries@;
        alias.entries.append(&mut more);
        assert(alias@.entries =~= before.entries + added);
        if self.identity_file.is_some() {
            alias.identity_file = self.identity_file;
        }
        if self.redraw_on_reconnect.is_some() {
            alias.redraw_on_reconnect = self.redraw_on_reconnect;
        }
        if self.reachability_timeout.is_some() {
            alias.reachability_timeout = self.reachability_timeout;
        }
        if self.persist.is_some() {
            alias.persist = self.persist;
        }
        if self.prefer_local_network.is_some() {
            alias.prefer_local_network = self.prefer_local_network;
        }
        if self.reachability_interval.is_some() {
            alias.reachability_interval = self.reachability_interval;
        }
    }
}

proof fn lemma_owns_err(file: Seq<char>, name: Seq<char>, m: Seq<(Seq<char>, NodeView)>, k: int)
    requires
        0 <= k <= m.len(),
        owns(file, name, m.take(k)) is Err,
    ensures
        owns(file, name, m) == owns(file, name, m.take(k)),
    decreases m.len() - k,
{
    if k < m.len() {
        assert(m.take(k + 1).drop_last() =~= m.take(k));
        lemma_owns_err(file, name, m, k + 1);
    } else {
        assert(m.take(k) =~= m);
    }
}

proof fn lemma_entries_err(file: Seq<char>, name: Seq<char>, items: Seq<NodeView>, k: int)
    requires
        0 <= k <= items.len(),
        entries_in(file, name, items.take(k)) is Err,
    ensures
        entries_in(file, name, items) == entries_in(file, name, items.take(k)),
    decreases items.len() - k,
{
    if k < items.len() {
        assert(items.take(k + 1).drop_last() =~= items.take(k));
        lemma_entries_err(file, name, items, k + 1);
    } else {
        assert(items.take(k) =~= items);
    }
}

pub open spec fn res_hosts(r: Result<Vec<HostEntry>, String>) -> Result<Seq<HostView>, Seq<char>> {
    match r {
        Ok(v) => Ok(host_views(v@)),
        Err(e) => Err(e@),
    }
}

fn entry_list(file: &str, name: &str, items: &Vec<Node>) -> (r: Result<Vec<HostEntry>, String>)
    ensures
        res_hosts(r) == entries_in(file@, name@, node_views(items@)),
{
    let ghost all = node_views(items@);
    let mut v: Vec<HostEntry> = Vec::new();
    let mut i: usize = 0;
    assert(host_views(v@) =~= Seq::empty());
    proof {
        lemma_node_views(items@);
    }
    while i < items.len()
        invariant
            i <= items.len(),
            all == node_views(items@),
            all.len() == items@.len(),
            entries_in(file@, name@, all.take(i as int)) == Ok::<Seq<HostView>, Seq<char>>(
                host_views(v@),
            ),
        decreases items.len() - i,
    {
        let ghost before = host_views(v@);
        proof {
            lemma_node_views(items@);
            assert(node_views(items@)[i as int] == node_view(items@[i as int]));
            assert(all.take(i + 1).drop_last() =~= all.take(i as int));
            assert(all.take(i + 1).last() == all[i as int]);
        }
        match host_entry(&items[i], file) {
            Ok(h) => {
                let ghost hv = h@;
                v.push(h);
                assert(host_views(v@) =~= before.push(hv));
            },
            Err(e) => {
                proof {
                    lemma_entries_err(file@, name@, all, i + 1);
                }
                return Err(alias_fail(file, name, &items[i], &e));
            },
        }
        i = i + 1;
    }
    assert(all.take(all.len() as int) =~= all);
    Ok(v)
}

fn hosts_of(file: &str, name: &str, list: &Node) -> (r: Result<Vec<HostEntry>, String>)
    ensures
        res_hosts(r) == hosts_in(file@, name@, list@),
{
    reveal(hosts_in);
    match &list.value {
        Value::List(items) => match entry_list(file, name, items) {
            Err(e) => Err(e),
            Ok(v) => {
                assert(host_views(v@).len() == v@.len());
                if v.len() == 0 {
                    Err(alias_fail(file, name, list, "no hosts listed"))
                } else {
                    Ok(v)
                }
            },
        },
        Value::Mapping(_) => {
            proof {
                let one = seq![list@];
                reveal_with_fuel(entries_in, 2);
                assert(one.drop_last() =~= Seq::empty());
                assert(one.last() == list@);
            }
            match host_entry(list, file) {
                Err(e) => Err(alias_fail(file, name, list, &e)),
                Ok(h) => {
                    let v = vec![h];
                    assert(host_views(v@) =~= Seq::<HostView>::empty().push(h@));
                    Ok(v)
                },
            }
        },
        other => Err(alias_fail(file, name, list, &no_list(other.kind()))),
    }
}

fn own_settings(file: &str, name: &str, m: &Vec<(String, Node)>) -> (r: Result<AliasSettings, String>)
    ensures
        match r {
            Ok(o) => owns(file@, name@, entry_views(m@)) == Ok::<OwnView, Seq<char>>(o@),
            Err(e) => owns(file@, name@, entry_views(m@)) == Err::<OwnView, Seq<char>>(e@),
        },
{
    let ghost all = entry_views(m@);
    proof {
        lemma_entry_views(m@);
    }
    let mut o = AliasSettings::empty();
    let mut i: usize = 0;
    while i < m.len()
        invariant
            i <= m.len(),
            all == entry_views(m@),
            all.len() == m@.len(),
            owns(file@, name@, all.take(i as int)) == Ok::<OwnView, Seq<char>>(o@),
        decreases m.len() - i,
    {
        proof {
            lemma_entry_views(m@);
            assert(entry_views(m@)[i as int] == (m@[i as int].0@, node_view(m@[i as int].1)));
            assert(all.take(i + 1).drop_last() =~= all.take(i as int));
            assert(all.take(i + 1).last() == all[i as int]);
        }
        match o.set(file, name, &m[i].0, &m[i].1) {
            Ok(_) => {},
            Err(e) => {
                proof {
                    lemma_owns_err(file@, name@, all, i + 1);
                }
                return Err(e);
            },
        }
        i = i + 1;
    }
    assert(all.take(all.len() as int) =~= all);
    Ok(o)
}

fn hosts_node(m: &Vec<(String, Node)>) -> (r: Option<&Node>)
    ensures
        match r {
            None => listed(entry_views(m@)) is None,
            Some(n) => listed(entry_views(m@)) == Some(n@),
        },
{
    let ghost all = entry_views(m@);
    proof {
        lemma_entry_views(m@);
    }
    let mut i: usize = m.len();
    assert(all.take(all.len() as int) =~= all);
    while i > 0
        invariant
            i <= m.len(),
            all == entry_views(m@),
            all.len() == m@.len(),
            listed(all) == listed(all.take(i as int)),
        decreases i,
    {
        proof {
            lemma_entry_views(m@);
            assert(entry_views(m@)[i - 1] == (m@[i - 1].0@, node_view(m@[i - 1].1)));
            assert(all.take(i as int).drop_last() =~= all.take(i - 1));
            assert(all.take(i as int).last() == all[i - 1]);
        }
        i = i - 1;
        if same(&m[i].0, "hosts") {
            if m[i].1.value.is_null() {
                return None;
            }
            return Some(&m[i].1);
        }
    }
    None
}

pub open spec fn res_parts(r: Result<(Vec<HostEntry>, AliasSettings), String>) -> Result<
    (Seq<HostView>, OwnView),
    Seq<char>,
> {
    match r {
        Ok((v, o)) => Ok((host_views(v@), o@)),
        Err(e) => Err(e@),
    }
}

/// One file's entries and settings for the alias `name`.
pub fn alias_parts(name: &str, node: &Node, file: &str) -> (r: Result<
    (Vec<HostEntry>, AliasSettings),
    String,
>)
    ensures
        res_parts(r) == parts_in(file@, name@, node@),
{
    reveal(parts_in);
    if let Value::Mapping(m) = &node.value {
        if position(m, "host").is_none() {
            let own = match own_settings(file, name, m) {
                Err(e) => return Err(e),
                Ok(o) => o,
            };
            return match hosts_node(m) {
                None => {
                    let none: Vec<HostEntry> = Vec::new();
                    assert(host_views(none@) =~= Seq::empty());
                    Ok((none, own))
                },
                Some(l) => match hosts_of(file, name, l) {
                    Err(e) => Err(e),
                    Ok(v) => Ok((v, own)),
                },
            };
        }
    }
    match hosts_of(file, name, node) {
        Err(e) => Err(e),
        Ok(v) => Ok((v, AliasSettings::empty())),
    }
}

// ---- a file ----------------------------------------------------------------

pub open spec fn no_settings_text(kind: Seq<char>) -> Seq<char> {
    "expected settings as 'key: value' lines, found "@ + kind
}

fn no_settings(kind: &str) -> (s: String)
    ensures
        s@ == no_settings_text(kind@),
{
    let mut s = "expected settings as 'key: value' lines, found ".to_owned();
    s.append(kind);
    s
}

pub open spec fn no_aliases_text(kind: Seq<char>) -> Seq<char> {
    "aliases: expected a mapping of alias names, found "@ + kind
}

fn no_aliases(kind: &str) -> (s: String)
    ensures
        s@ == no_aliases_text(kind@),
{
    let mut s = "aliases: expected a mapping of alias names, found ".to_owned();
    s.append(kind);
    s
}

pub open spec fn no_setting_text(key: Seq<char>) -> Seq<char> {
    "unknown setting '"@ + key + "' (known: "@ + KEYS@ + ")"@
}

fn no_setting(key: &str) -> (s: String)
    ensures
        s@ == no_setting_text(key@),
{
    let mut s = "unknown setting '".to_owned();
    s.append(key);
    s.append("' (known: ");
    s.append(KEYS);
    s.append(")");
    s
}

/// A configuration with one true-or-false setting set.
pub open spec fn bool_set(c: ConfigView, key: Seq<char>, s: Said<bool>) -> ConfigView {
    if key == "install_on_remote"@ {
        ConfigView { install_on_remote: s, ..c }
    } else if key == "update_check"@ {
        ConfigView { update_check: s, ..c }
    } else if key == "command_bell"@ {
        ConfigView { command_bell: s, ..c }
    } else if key == "redraw_on_reconnect"@ {
        ConfigView { redraw_on_reconnect: s, ..c }
    } else if key == "persist"@ {
        ConfigView { persist: s, ..c }
    } else {
        ConfigView { prefer_local_network: s, ..c }
    }
}

/// A configuration with one duration set.
pub open spec fn duration_set(c: ConfigView, key: Seq<char>, s: Said<u64>) -> ConfigView {
    if key == "reachability_timeout"@ {
        ConfigView { reachability_timeout: s, ..c }
    } else {
        ConfigView { reachability_interval: s, ..c }
    }
}

/// One alias of a file merged, added if it is new; what is wrong with it, if
/// anything.
#[verifier::opaque]
pub open spec fn alias_applied(c: ConfigView, file: Seq<char>, name: Seq<char>, n: NodeView) -> (
    ConfigView,
    Option<Seq<char>>,
) {
    if !good_alias(name) {
        (c, Some(fail_text(file, n, bad_alias_text(name))))
    } else {
        match parts_in(file, name, n) {
            Err(e) => (c, Some(e)),
            Ok((entries, own)) => match alias_from(c.hosts, name, 0) {
                Some(i) => (
                    ConfigView { hosts: c.hosts.update(i, merged(c.hosts[i], entries, own)), ..c },
                    None,
                ),
                None => (
                    ConfigView {
                        hosts: c.hosts.push(
                            merged(new_alias(name, at(file, n)), entries, own),
                        ),
                        ..c
                    },
                    None,
                ),
            },
        }
    }
}

/// The aliases of a file merged, up to the first that is wrong.
pub open spec fn aliases_applied(
    c: ConfigView,
    file: Seq<char>,
    m: Seq<(Seq<char>, NodeView)>,
) -> (ConfigView, Option<Seq<char>>)
    decreases m.len(),
{
    if m.len() == 0 {
        (c, None)
    } else {
        let (c1, e) = aliases_applied(c, file, m.drop_last());
        if e is Some {
            (c1, e)
        } else {
            alias_applied(c1, file, m.last().0, m.last().1)
        }
    }
}

/// One setting of a file merged; what is wrong with it, if anything. An empty
/// value sets nothing.
#[verifier::opaque]
pub open spec fn entry_applied(c: ConfigView, file: Seq<char>, key: Seq<char>, n: NodeView) -> (
    ConfigView,
    Option<Seq<char>>,
) {
    if n.value is Null {
        (c, None)
    } else if is_bool_key(key) {
        match bool_in(n.value) {
            Err(e) => (c, Some(fail_text(file, n, keyed_text(key, e)))),
            Ok(value) => (bool_set(c, key, Said { value, origin: Some(at(file, n)) }), None),
        }
    } else if is_duration_key(key) {
        match duration_value_in(key, n.value) {
            Err(e) => (c, Some(fail_text(file, n, keyed_text(key, e)))),
            Ok(value) => (duration_set(c, key, Said { value, origin: Some(at(file, n)) }), None),
        }
    } else if key == "aliases"@ {
        match n.value {
            ValueView::Mapping(m) => aliases_applied(c, file, m),
            _ => (c, Some(fail_text(file, n, no_aliases_text(kind_of(n.value))))),
        }
    } else if key == "hosts"@ {
        (c, Some(fail_text(file, n, "'hosts' is now 'aliases': rename the key"@)))
    } else {
        (c, Some(fail_text(file, n, no_setting_text(key))))
    }
}

/// The settings of a file merged, up to the first that is wrong.
pub open spec fn entries_applied(
    c: ConfigView,
    file: Seq<char>,
    m: Seq<(Seq<char>, NodeView)>,
) -> (ConfigView, Option<Seq<char>>)
    decreases m.len(),
{
    if m.len() == 0 {
        (c, None)
    } else {
        let (c1, e) = entries_applied(c, file, m.drop_last());
        if e is Some {
            (c1, e)
        } else {
            entry_applied(c1, file, m.last().0, m.last().1)
        }
    }
}

/// One file's settings over what is there; what is wrong with it, if anything.
pub open spec fn applied(c: ConfigView, file: Seq<char>, root: NodeView) -> (
    ConfigView,
    Option<Seq<char>>,
) {
    match root.value {
        ValueView::Null => (c, None),
        ValueView::Mapping(m) => entries_applied(c, file, m),
        _ => (c, Some(fail_text(file, root, no_settings_text(kind_of(root.value))))),
    }
}

/// The error of a result.
pub open spec fn err_of(r: Result<(), String>) -> Option<Seq<char>> {
    match r {
        Ok(_) => None,
        Err(e) => Some(e@),
    }
}

proof fn lemma_aliases_err(
    c: ConfigView,
    file: Seq<char>,
    m: Seq<(Seq<char>, NodeView)>,
    k: int,
)
    requires
        0 <= k <= m.len(),
        aliases_applied(c, file, m.take(k)).1 is Some,
    ensures
        aliases_applied(c, file, m) == aliases_applied(c, file, m.take(k)),
    decreases m.len() - k,
{
    if k < m.len() {
        assert(m.take(k + 1).drop_last() =~= m.take(k));
        lemma_aliases_err(c, file, m, k + 1);
    } else {
        assert(m.take(k) =~= m);
    }
}

proof fn lemma_entries_applied_err(
    c: ConfigView,
    file: Seq<char>,
    m: Seq<(Seq<char>, NodeView)>,
    k: int,
)
    requires
        0 <= k <= m.len(),
        entries_applied(c, file, m.take(k)).1 is Some,
    ensures
        entries_applied(c, file, m) == entries_applied(c, file, m.take(k)),
    decreases m.len() - k,
{
    if k < m.len() {
        assert(m.take(k + 1).drop_last() =~= m.take(k));
        lemma_entries_applied_err(c, file, m, k + 1);
    } else {
        assert(m.take(k) =~= m);
    }
}

fn fresh_alias(name: &str, origin: Origin) -> (a: Alias)
    ensures
        a@ == new_alias(name@, origin@),
{
    let a = Alias {
        name: name.to_owned(),
        entries: Vec::new(),
        identity_file: None,
        redraw_on_reconnect: None,
        reachability_timeout: None,
        persist: None,
        prefer_local_network: None,
        reachability_interval: None,
        origin,
    };
    assert(a@.entries =~= Seq::empty());
    a
}

impl Config {
    fn apply_alias(&mut self, file: &str, name: &str, n: &Node) -> (r: Result<(), String>)
        ensures
            (final(self)@, err_of(r)) == alias_applied(old(self)@, file@, name@, n@),
    {
        reveal(alias_applied);
        if let Err(e) = validate_alias(name) {
            return Err(fail(file, n, &e));
        }
        let (entries, own) = match alias_parts(name, n, file) {
            Err(e) => return Err(e),
            Ok(p) => p,
        };
        let ghost before = self@;
        match self.alias_index(name) {
            Some(i) => {
                assert(before.hosts[i as int] == self.hosts@[i as int]@);
                own.merge_into(&mut self.hosts[i], entries);
                assert(self@.hosts =~= before.hosts.update(i as int, self@.hosts[i as int]));
            },
            None => {
                let mut a = fresh_alias(name, origin_at(file, n));
                own.merge_into(&mut a, entries);
                let ghost av = a@;
                self.hosts.push(a);
                assert(self@.hosts =~= before.hosts.push(av));
            },
        }
        Ok(())
    }

    fn apply_aliases(&mut self, file: &str, m: &Vec<(String, Node)>) -> (r: Result<(), String>)
        ensures
            (final(self)@, err_of(r)) == aliases_applied(old(self)@, file@, entry_views(m@)),
    {
        let ghost all = entry_views(m@);
        let ghost before = self@;
        proof {
            lemma_entry_views(m@);
        }
        let mut i: usize = 0;
        while i < m.len()
            invariant
                i <= m.len(),
                all == entry_views(m@),
                all.len() == m@.len(),
                before == old(self)@,
                aliases_applied(before, file@, all.take(i as int)) == (
                    self@,
                    None::<Seq<char>>,
                ),
            decreases m.len() - i,
        {
            proof {
                lemma_entry_views(m@);
                assert(entry_views(m@)[i as int] == (m@[i as int].0@, node_view(m@[i as int].1)));
                assert(all.take(i + 1).drop_last() =~= all.take(i as int));
                assert(all.take(i + 1).last() == all[i as int]);
            }
            match self.apply_alias(file, &m[i].0, &m[i].1) {
                Ok(_) => {},
                Err(e) => {
                    proof {
                        lemma_aliases_err(before, file@, all, i + 1);
                    }
                    return Err(e);
                },
            }
            i = i + 1;
        }
        assert(all.take(all.len() as int) =~= all);
        Ok(())
    }

    fn set_bool(&mut self, key: &str, s: Setting<bool>)
        requires
            is_bool_key(key@),
        ensures
            final(self)@ == bool_set(old(self)@, key@, crate::config::said(s)),
    {
        if same(key, "install_on_remote") {
            self.install_on_remote = s;
        } else if same(key, "update_check") {
            self.update_check = s;
        } else if same(key, "command_bell") {
            self.command_bell = s;
        } else if same(key, "redraw_on_reconnect") {
            self.redraw_on_reconnect = s;
        } else if same(key, "persist") {
            self.persist = s;
        } else {
            self.prefer_local_network = s;
        }
    }

    fn apply_entry(&mut self, file: &str, key: &str, node: &Node) -> (r: Result<(), String>)
        ensures
            (final(self)@, err_of(r)) == entry_applied(old(self)@, file@, key@, node@),
    {
        reveal(entry_applied);
        if node.value.is_null() {
            return Ok(());
        }
        if bool_key(key) {
            match bool_value(node) {
                Err(e) => Err(fail(file, node, &keyed(key, &e))),
                Ok(value) => {
                    self.set_bool(key, Setting { value, origin: Some(origin_at(file, node)) });
                    Ok(())
                },
            }
        } else if duration_key(key) {
            match duration_value(key, node) {
                Err(e) => Err(fail(file, node, &keyed(key, &e))),
                Ok(value) => {
                    let s = Setting { value, origin: Some(origin_at(file, node)) };
                    if same(key, "reachability_timeout") {
                        self.reachability_timeout = s;
                    } else {
                        self.reachability_interval = s;
                    }
                    Ok(())
                },
            }
        } else if same(key, "aliases") {
            match &node.value {
                Value::Mapping(m) => self.apply_aliases(file, m),
                other => Err(fail(file, node, &no_aliases(other.kind()))),
            }
        } else if same(key, "hosts") {
            Err(fail(file, node, "'hosts' is now 'aliases': rename the key"))
        } else {
            Err(fail(file, node, &no_setting(key)))
        }
    }

    /// Merge one file's settings over what is there.
    pub fn apply(&mut self, file: &str, root: &Node) -> (r: Result<(), String>)
        ensures
            (final(self)@, err_of(r)) == applied(old(self)@, file@, root@),
    {
        let m = match &root.value {
            Value::Null => return Ok(()),
            Value::Mapping(m) => m,
            other => return Err(fail(file, root, &no_settings(other.kind()))),
        };
        let ghost all = entry_views(m@);
        let ghost before = self@;
        proof {
            lemma_entry_views(m@);
        }
        let mut i: usize = 0;
        while i < m.len()
            invariant
                i <= m.len(),
                all == entry_views(m@),
                all.len() == m@.len(),
                root@.value == ValueView::Mapping(all),
                before == old(self)@,
                entries_applied(before, file@, all.take(i as int)) == (
                    self@,
                    None::<Seq<char>>,
                ),
            decreases m.len() - i,
        {
            proof {
                lemma_entry_views(m@);
                assert(entry_views(m@)[i as int] == (m@[i as int].0@, node_view(m@[i as int].1)));
                assert(all.take(i + 1).drop_last() =~= all.take(i as int));
                assert(all.take(i + 1).last() == all[i as int]);
            }
            match self.apply_entry(file, &m[i].0, &m[i].1) {
                Ok(_) => {},
                Err(e) => {
                    proof {
                        lemma_entries_applied_err(before, file@, all, i + 1);
                    }
                    return Err(e);
                },
            }
            i = i + 1;
        }
        assert(all.take(all.len() as int) =~= all);
        Ok(())
    }
}

// ---- the files -------------------------------------------------------------

/// The files merged in order; those that are not there are left out.
pub open spec fn loaded(files: Seq<(Seq<char>, Option<NodeView>)>) -> Result<ConfigView, Seq<char>>
    decreases files.len(),
{
    if files.len() == 0 {
        Ok(crate::config::defaults())
    } else {
        match loaded(files.drop_last()) {
            Err(e) => Err(e),
            Ok(c) => match files.last().1 {
                None => Ok(c),
                Some(root) => {
                    let (c1, e) = applied(c, files.last().0, root);
                    match e {
                        Some(e) => Err(e),
                        None => Ok(ConfigView { files: c1.files.push(files.last().0), ..c1 }),
                    }
                },
            },
        }
    }
}

/// A file, and what is in it if it is there.
pub struct Source {
    pub file: String,
    pub doc: Option<crate::yaml::Document>,
}

pub open spec fn source_views(v: Seq<Source>) -> Seq<(Seq<char>, Option<NodeView>)> {
    v.map_values(
        |s: Source|
            (
                s.file@,
                match s.doc {
                    None => None,
                    Some(d) => Some(d.root@),
                },
            ),
    )
}

/// The configuration that the files give, or what is wrong with them.
pub open spec fn configured(files: Seq<(Seq<char>, Option<NodeView>)>) -> Result<
    ConfigView,
    Seq<char>,
> {
    match loaded(files) {
        Err(e) => Err(e),
        Ok(c) => match fault(c) {
            Some(e) => Err(e),
            None => Ok(c),
        },
    }
}

proof fn lemma_loaded_err(files: Seq<(Seq<char>, Option<NodeView>)>, k: int)
    requires
        0 <= k <= files.len(),
        loaded(files.take(k)) is Err,
    ensures
        loaded(files) == loaded(files.take(k)),
    decreases files.len() - k,
{
    if k < files.len() {
        assert(files.take(k + 1).drop_last() =~= files.take(k));
        lemma_loaded_err(files, k + 1);
    } else {
        assert(files.take(k) =~= files);
    }
}

impl Config {
    /// The configuration that `files` give, in order; later ones override earlier
    /// ones.
    pub fn load_files(files: &[Source]) -> (r: Result<Config, String>)
        ensures
            match r {
                Ok(c) => configured(source_views(files@)) == Ok::<ConfigView, Seq<char>>(c@),
                Err(e) => configured(source_views(files@)) == Err::<ConfigView, Seq<char>>(e@),
            },
    {
        let ghost all = source_views(files@);
        let mut c = Config::default();
        let mut i: usize = 0;
        while i < files.len()
            invariant
                i <= files.len(),
                all == source_views(files@),
                loaded(all.take(i as int)) == Ok::<ConfigView, Seq<char>>(c@),
            decreases files.len() - i,
        {
            proof {
                assert(all.take(i + 1).drop_last() =~= all.take(i as int));
                assert(all.take(i + 1).last() == all[i as int]);
            }
            if let Some(doc) = &files[i].doc {
                if let Err(e) = c.apply(&files[i].file, &doc.root) {
                    proof {
                        lemma_loaded_err(all, i + 1);
                    }
                    return Err(e);
                }
                let ghost before = c@;
                c.files.push(files[i].file.clone());
                assert(c@.files =~= before.files.push(files@[i as int].file@));
            }
            i = i + 1;
        }
        assert(all.take(all.len() as int) =~= all);
        match c.check() {
            Ok(_) => Ok(c),
            Err(e) => Err(e),
        }
    }
}

} // verus!
