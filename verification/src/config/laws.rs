//! What holds of the configuration as a whole.

use crate::config::apply::{
    alias_applied, aliases_applied, applied, configured, entries_applied, entry_applied, loaded,
    merged, new_alias, parts_in,
};
use crate::config::double::{lemma_whole, tens};
use crate::config::duration::{
    bounds, duration_in, ends_in, length, number_part, plain_number, written,
};
use crate::config::entry::{at, bool_in, duration_value_in};
use crate::config::{
    alias_from, alias_of, bool_of, duration_of, good_alias, hostless, is_bool_key, is_duration_key,
    AliasView, ConfigView, Said,
};
use crate::text::{
    dec, digits_value, is_digit, lemma_digits, lemma_one_piece, trim_left, trim_right,
};
use crate::yaml::{NodeView, ValueView};
use vstd::prelude::*;

verus! {

// ---- durations -------------------------------------------------------------

/// What is written of a duration is read back the same: a setting that `acs config`
/// shows or writes means what it meant.
pub proof fn law_a_duration_reads_back(key: Seq<char>, ms: u64)
    requires
        bounds(key).0 <= ms <= bounds(key).1,
    ensures
        duration_in(key, written(ms)) == Ok::<u64, Seq<char>>(ms),
{
    reveal_strlit("ms");
    reveal_strlit("s");
    let n: nat = if ms % 1000 == 0 {
        (ms / 1000) as nat
    } else {
        ms as nat
    };
    let d = dec(n);
    let unit = if ms % 1000 == 0 {
        "s"@
    } else {
        "ms"@
    };
    let t = written(ms);
    lemma_digits(n);
    lemma_one_piece(d, '.');
    assert(t == d + unit);
    assert(is_digit(d[0]) && is_digit(d[d.len() - 1]));
    assert(t[0] == d[0] && t.last() == 's');
    assert(trim_right(t) == t);
    assert(trim_left(t) == t);
    assert(trim_right(d) == d);
    if ms % 1000 == 0 {
        assert(t[t.len() - 2] == d[d.len() - 1]);
        assert(!ends_in(t, "ms"@)) by {
            if ends_in(t, "ms"@) {
                assert(t.skip(t.len() - 2)[0] == "ms"@[0]);
            }
        }
        assert(t.skip(t.len() - 1) =~= "s"@);
        assert(t.take(t.len() - 1) =~= d);
    } else {
        assert(t.skip(t.len() - 2) =~= "ms"@);
        assert(t.take(t.len() - 2) =~= d);
    }
    assert(number_part(t) == (d, ms % 1000 != 0));
    assert(plain_number(d));
    lemma_whole(n, ms % 1000 != 0);
    assert(tens(0) == 1 && digits_value(Seq::empty()) == 0);
    assert(n * tens(0) + 0 == n);
    assert(length(d, ms % 1000 != 0) == ms);
}

// ---- what a file sets ------------------------------------------------------

/// The last value that a file gives `key`, but an empty one.
pub open spec fn last_given(m: Seq<(Seq<char>, NodeView)>, key: Seq<char>) -> Option<NodeView>
    decreases m.len(),
{
    if m.len() == 0 {
        None
    } else if m.last().0 == key && !(m.last().1.value is Null) {
        Some(m.last().1)
    } else {
        last_given(m.drop_last(), key)
    }
}

/// Aliases are all that a file's aliases change.
proof fn lemma_aliases_only(c: ConfigView, file: Seq<char>, m: Seq<(Seq<char>, NodeView)>)
    ensures
        aliases_applied(c, file, m).0 == (ConfigView {
            hosts: aliases_applied(c, file, m).0.hosts,
            ..c
        }),
    decreases m.len(),
{
    if m.len() > 0 {
        lemma_aliases_only(c, file, m.drop_last());
        reveal(alias_applied);
    }
}

proof fn lemma_bools(c: ConfigView, file: Seq<char>, m: Seq<(Seq<char>, NodeView)>, key: Seq<char>)
    requires
        is_bool_key(key),
        entries_applied(c, file, m).1 is None,
    ensures
        match last_given(m, key) {
            None => bool_of(entries_applied(c, file, m).0, key) == bool_of(c, key),
            Some(n) => bool_in(n.value) is Ok && bool_of(entries_applied(c, file, m).0, key) == Some(
                Said { value: bool_in(n.value)->Ok_0, origin: Some(at(file, n)) },
            ),
        },
    decreases m.len(),
{
    if m.len() > 0 {
        let before = m.drop_last();
        let (k, n) = m.last();
        let (c1, e) = entries_applied(c, file, before);
        assert(e is None);
        lemma_bools(c, file, before, key);
        reveal(entry_applied);
        if k == "aliases"@ {
            if let ValueView::Mapping(am) = n.value {
                lemma_aliases_only(c1, file, am);
            }
        }
    }
}

proof fn lemma_durations(
    c: ConfigView,
    file: Seq<char>,
    m: Seq<(Seq<char>, NodeView)>,
    key: Seq<char>,
)
    requires
        is_duration_key(key),
        entries_applied(c, file, m).1 is None,
    ensures
        match last_given(m, key) {
            None => duration_of(entries_applied(c, file, m).0, key) == duration_of(c, key),
            Some(n) => duration_value_in(key, n.value) is Ok && duration_of(
                entries_applied(c, file, m).0,
                key,
            ) == Some(
                Said { value: duration_value_in(key, n.value)->Ok_0, origin: Some(at(file, n)) },
            ),
        },
    decreases m.len(),
{
    if m.len() > 0 {
        let before = m.drop_last();
        let (k, n) = m.last();
        let (c1, e) = entries_applied(c, file, before);
        assert(e is None);
        lemma_durations(c, file, before, key);
        reveal(entry_applied);
        lemma_kinds_apart(key);
        lemma_kinds_apart(k);
        if k == "aliases"@ {
            if let ValueView::Mapping(am) = n.value {
                lemma_aliases_only(c1, file, am);
            }
        }
    }
}

/// No setting is both true or false and a duration.
pub proof fn lemma_kinds_apart(key: Seq<char>)
    ensures
        !(is_bool_key(key) && is_duration_key(key)),
{
    reveal_strlit("install_on_remote");
    reveal_strlit("update_check");
    reveal_strlit("command_bell");
    reveal_strlit("redraw_on_reconnect");
    reveal_strlit("persist");
    reveal_strlit("prefer_local_network");
    reveal_strlit("reachability_timeout");
    reveal_strlit("reachability_interval");
    if is_bool_key(key) {
        assert(key.len() < 20 || key[0] == 'p');
    }
    if is_duration_key(key) {
        assert(key.len() >= 20 && key[0] == 'r');
    }
}

/// A file that is merged sets what it names, with itself as the origin, and leaves
/// every other setting as the files before it left it; an empty value sets nothing.
pub proof fn law_a_file_sets_what_it_names(
    c: ConfigView,
    file: Seq<char>,
    root: NodeView,
    m: Seq<(Seq<char>, NodeView)>,
    key: Seq<char>,
)
    requires
        root.value == ValueView::Mapping(m),
        applied(c, file, root).1 is None,
    ensures
        is_bool_key(key) ==> match last_given(m, key) {
            None => bool_of(applied(c, file, root).0, key) == bool_of(c, key),
            Some(n) => bool_in(n.value) is Ok && bool_of(applied(c, file, root).0, key) == Some(
                Said { value: bool_in(n.value)->Ok_0, origin: Some(at(file, n)) },
            ),
        },
        is_duration_key(key) ==> match last_given(m, key) {
            None => duration_of(applied(c, file, root).0, key) == duration_of(c, key),
            Some(n) => duration_value_in(key, n.value) is Ok && duration_of(
                applied(c, file, root).0,
                key,
            ) == Some(
                Said { value: duration_value_in(key, n.value)->Ok_0, origin: Some(at(file, n)) },
            ),
        },
{
    if is_bool_key(key) {
        lemma_bools(c, file, m, key);
    }
    if is_duration_key(key) {
        lemma_durations(c, file, m, key);
    }
}

// ---- aliases ---------------------------------------------------------------

pub proof fn lemma_alias_found(hosts: Seq<AliasView>, name: Seq<char>, from: int)
    requires
        0 <= from,
    ensures
        match alias_from(hosts, name, from) {
            Some(i) => from <= i < hosts.len() && hosts[i].name == name && forall|j: int|
                from <= j < i ==> (#[trigger] hosts[j]).name != name,
            None => forall|j: int| from <= j < hosts.len() ==> (#[trigger] hosts[j]).name != name,
        },
    decreases hosts.len() - from,
{
    if from < hosts.len() && hosts[from].name != name {
        lemma_alias_found(hosts, name, from + 1);
    }
}

/// Two files may each say something of an alias: its hosts are the first file's and
/// then the second's, a setting of its own is the second's where that gives one, and
/// no other alias changes.
pub proof fn law_an_alias_is_merged(
    c: ConfigView,
    file: Seq<char>,
    name: Seq<char>,
    n: NodeView,
    other: Seq<char>,
)
    requires
        alias_applied(c, file, name, n).1 is None,
    ensures
        parts_in(file, name, n) is Ok,
        alias_of(alias_applied(c, file, name, n).0, name) == Some(
            merged(
                match alias_of(c, name) {
                    Some(a) => a,
                    None => new_alias(name, at(file, n)),
                },
                parts_in(file, name, n)->Ok_0.0,
                parts_in(file, name, n)->Ok_0.1,
            ),
        ),
        other != name ==> alias_of(alias_applied(c, file, name, n).0, other) == alias_of(c, other),
{
    reveal(alias_applied);
    let after = alias_applied(c, file, name, n).0.hosts;
    lemma_alias_found(c.hosts, name, 0);
    lemma_alias_found(after, name, 0);
    lemma_alias_found(c.hosts, other, 0);
    lemma_alias_found(after, other, 0);
    match alias_from(c.hosts, name, 0) {
        Some(i) => {
            assert(after[i].name == name);
            assert(forall|j: int| 0 <= j < i ==> (#[trigger] after[j]).name == c.hosts[j].name);
            assert(forall|j: int|
                0 <= j < after.len() ==> (#[trigger] after[j]).name == c.hosts[j].name);
            assert(forall|j: int|
                0 <= j < after.len() ==> (#[trigger] c.hosts[j]).name == after[j].name);
        },
        None => {
            assert(after.last().name == name);
            assert(forall|j: int| 0 <= j < c.hosts.len() ==> #[trigger] after[j] == c.hosts[j]);
            assert(forall|j: int| 0 <= j < c.hosts.len() ==> #[trigger] c.hosts[j] == after[j]);
        },
    }
}

/// Aliases under names that an alias can have, each its own.
pub open spec fn named_apart(hosts: Seq<AliasView>) -> bool {
    &&& forall|i: int| 0 <= i < hosts.len() ==> good_alias((#[trigger] hosts[i]).name)
    &&& forall|i: int, j: int|
        0 <= i < j < hosts.len() ==> (#[trigger] hosts[i]).name != (#[trigger] hosts[j]).name
}

proof fn lemma_alias_apart(c: ConfigView, file: Seq<char>, name: Seq<char>, n: NodeView)
    requires
        named_apart(c.hosts),
    ensures
        named_apart(alias_applied(c, file, name, n).0.hosts),
{
    reveal(alias_applied);
    lemma_alias_found(c.hosts, name, 0);
    let after = alias_applied(c, file, name, n).0.hosts;
    assert forall|i: int| 0 <= i < after.len() implies good_alias((#[trigger] after[i]).name) by {
        if i < c.hosts.len() {
            assert(after[i].name == c.hosts[i].name);
        }
    }
    assert forall|i: int, j: int| 0 <= i < j < after.len() implies (#[trigger] after[i]).name
        != (#[trigger] after[j]).name by {
        assert(after[i].name == c.hosts[i].name);
        if j < c.hosts.len() {
            assert(after[j].name == c.hosts[j].name);
        }
    }
}

proof fn lemma_aliases_apart(c: ConfigView, file: Seq<char>, m: Seq<(Seq<char>, NodeView)>)
    requires
        named_apart(c.hosts),
    ensures
        named_apart(aliases_applied(c, file, m).0.hosts),
    decreases m.len(),
{
    if m.len() > 0 {
        lemma_aliases_apart(c, file, m.drop_last());
        let (c1, e) = aliases_applied(c, file, m.drop_last());
        if e is None {
            lemma_alias_apart(c1, file, m.last().0, m.last().1);
        }
    }
}

proof fn lemma_entries_apart(c: ConfigView, file: Seq<char>, m: Seq<(Seq<char>, NodeView)>)
    requires
        named_apart(c.hosts),
    ensures
        named_apart(entries_applied(c, file, m).0.hosts),
    decreases m.len(),
{
    if m.len() > 0 {
        lemma_entries_apart(c, file, m.drop_last());
        let (c1, e) = entries_applied(c, file, m.drop_last());
        reveal(entry_applied);
        if let ValueView::Mapping(am) = m.last().1.value {
            lemma_aliases_apart(c1, file, am);
        }
    }
}

pub proof fn lemma_files_apart(files: Seq<(Seq<char>, Option<NodeView>)>)
    ensures
        loaded(files) is Ok ==> named_apart(loaded(files)->Ok_0.hosts),
    decreases files.len(),
{
    if files.len() > 0 {
        lemma_files_apart(files.drop_last());
        if loaded(files.drop_last()) is Ok {
            let c = loaded(files.drop_last())->Ok_0;
            if let Some(root) = files.last().1 {
                if let ValueView::Mapping(m) = root.value {
                    lemma_entries_apart(c, files.last().0, m);
                }
            }
        }
    }
}

pub proof fn lemma_no_hostless(hosts: Seq<AliasView>, from: int)
    requires
        0 <= from,
        hostless(hosts, from) is None,
    ensures
        forall|i: int| from <= i < hosts.len() ==> (#[trigger] hosts[i]).entries.len() > 0,
    decreases hosts.len() - from,
{
    if from < hosts.len() {
        lemma_no_hostless(hosts, from + 1);
    }
}

/// Of a configuration that loads, every alias has a host and a name of its own that
/// an alias can have.
pub proof fn law_every_alias_has_a_host(files: Seq<(Seq<char>, Option<NodeView>)>, i: int)
    requires
        configured(files) is Ok,
        0 <= i < configured(files)->Ok_0.hosts.len(),
    ensures
        configured(files)->Ok_0.hosts[i].entries.len() > 0,
        named_apart(configured(files)->Ok_0.hosts),
{
    let c = configured(files)->Ok_0;
    lemma_files_apart(files);
    lemma_no_hostless(c.hosts, 0);
    assert(c.hosts[i].entries.len() > 0);
}

} // verus!
