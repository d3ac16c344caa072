//! What holds of the edits as a whole.

use super::edit::{
    alias_at, alone, as_form, as_list, below_lines, collapsed, edited, host_added, host_of,
    host_removed, is_form, keys_left, list_removed, lists_host, map_edited, map_of, mapped,
    new_node, others, own_set, own_unset, ready, rooted, set_in, with_alias, with_aliases,
    with_aliases_left, with_key, with_map, with_node, without,
};
use super::CmdView;
use crate::config::apply::applied;
use crate::config::duration::duration_in;
use crate::config::entry::{lowered, truth};
use crate::config::laws::{
    last_given, law_a_duration_reads_back, law_a_file_sets_what_it_names, lemma_kinds_apart,
};
use crate::config::{bool_of, duration_of, good_alias, is_bool_key, is_duration_key, ConfigView};
use crate::text::lower_char;
use crate::yaml::{bool_text, find_from, find_key, DocView, NodeView, ValueView};
use vstd::prelude::*;

verus! {

/// No key twice.
pub open spec fn keys_apart(m: Seq<(Seq<char>, NodeView)>) -> bool {
    forall|i: int, j: int| 0 <= i < j < m.len() ==> (#[trigger] m[i]).0 != (#[trigger] m[j]).0
}

pub proof fn lemma_found(m: Seq<(Seq<char>, NodeView)>, key: Seq<char>, from: int)
    requires
        0 <= from,
    ensures
        match find_from(m, key, from) {
            Some(i) => from <= i < m.len() && m[i].0 == key && forall|j: int|
                from <= j < i ==> (#[trigger] m[j]).0 != key,
            None => forall|j: int| from <= j < m.len() ==> (#[trigger] m[j]).0 != key,
        },
    decreases m.len() - from,
{
    if from < m.len() && m[from].0 != key {
        lemma_found(m, key, from + 1);
    }
}

proof fn lemma_given(m: Seq<(Seq<char>, NodeView)>, key: Seq<char>, i: int)
    requires
        0 <= i < m.len(),
        m[i].0 == key,
        !(m[i].1.value is Null),
        forall|j: int| i < j < m.len() ==> (#[trigger] m[j]).0 != key,
    ensures
        last_given(m, key) == Some(m[i].1),
    decreases m.len(),
{
    if i < m.len() - 1 {
        assert(m[m.len() - 1].0 != key);
        assert forall|j: int| i < j < m.drop_last().len() implies (#[trigger] m.drop_last()[j]).0
            != key by {
            assert(m.drop_last()[j] == m[j]);
        }
        lemma_given(m.drop_last(), key, i);
    }
}

pub proof fn lemma_truth_text(b: bool)
    ensures
        truth(bool_text(b)) == Some(b),
{
    reveal_strlit("true");
    reveal_strlit("false");
    let t = bool_text(b);
    assert forall|i: int| 0 <= i < t.len() implies lower_char(#[trigger] t[i]) == t[i] by {}
    assert(lowered(t) =~= t);
    assert("true"@.len() != "false"@.len());
}

/// What `acs config set` writes is what acs then reads: the setting has the value
/// that was given, whatever stood there before.
pub proof fn law_what_is_set_is_read(
    d: DocView,
    key: Seq<char>,
    value: Seq<char>,
    c: ConfigView,
    file: Seq<char>,
)
    requires
        edited(d, CmdView::SetTo(key, value)).1 is Ok,
        keys_apart(map_of(d.root)),
        applied(c, file, edited(d, CmdView::SetTo(key, value)).0.root).1 is None,
    ensures
        is_bool_key(key) ==> truth(value) is Some && bool_of(
            applied(c, file, edited(d, CmdView::SetTo(key, value)).0.root).0,
            key,
        )->0.value == truth(value)->0,
        is_duration_key(key) ==> duration_in(key, value) is Ok && duration_of(
            applied(c, file, edited(d, CmdView::SetTo(key, value)).0.root).0,
            key,
        )->0.value == duration_in(key, value)->Ok_0,
{
    let cmd = CmdView::SetTo(key, value);
    let new = new_node(cmd)->Ok_0;
    let d1 = rooted(d);
    let m = map_of(d1.root);
    assert(d1.root.value == ValueView::Mapping(m));
    let m2 = set_in(m, key, new);
    let d2 = edited(d, cmd).0;
    assert(d2.root.value == ValueView::Mapping(m2));
    lemma_found(m, key, 0);
    let i: int = match find_key(m, key) {
        Some(i) => i,
        None => m.len() as int,
    };
    assert(m2[i].0 == key && m2[i].1.value == new.value);
    assert forall|j: int| i < j < m2.len() implies (#[trigger] m2[j]).0 != key by {
        assert(m2[j] == m[j]);
        assert(m[i].0 == key);
    }
    lemma_given(m2, key, i);
    law_a_file_sets_what_it_names(c, file, d2.root, m2, key);
    lemma_kinds_apart(key);
    if is_bool_key(key) {
        lemma_truth_text(truth(value)->0);
    } else if is_duration_key(key) {
        let ms = duration_in(key, value)->Ok_0;
        law_a_duration_reads_back(key, ms);
    }
}

// ---- what an edit leaves alone ---------------------------------------------

/// The entry is the same, but for comment lines put above its own.
pub open spec fn kept(was: (Seq<char>, NodeView), is: (Seq<char>, NodeView)) -> bool {
    &&& is.0 == was.0
    &&& kept_node(was.1, is.1)
}

/// The node is the same, but for comment lines put above its own.
pub open spec fn kept_node(was: NodeView, is: NodeView) -> bool {
    &&& is == (NodeView { before: is.before, ..was })
    &&& is.before.len() >= was.before.len()
    &&& is.before.skip(is.before.len() - was.before.len()) == was.before
}

/// The top-level key that an edit is about.
pub open spec fn about(cmd: CmdView) -> Seq<char> {
    match cmd {
        CmdView::SetTo(key, _) => key,
        CmdView::Unset(key) => key,
        _ => "aliases"@,
    }
}

/// Where the entry at `i` stands once the one at `gone` is no more.
pub open spec fn moved(i: int, gone: int) -> int {
    if i > gone {
        i - 1
    } else {
        i
    }
}

/// Everything but what is called `key` is kept, in its order; `gone` is the place of
/// an entry called `key` that is no more, or the end.
pub open spec fn rest_kept(
    was: Seq<(Seq<char>, NodeView)>,
    is: Seq<(Seq<char>, NodeView)>,
    key: Seq<char>,
    gone: int,
) -> bool {
    &&& 0 <= gone <= was.len()
    &&& gone < was.len() ==> was[gone].0 == key
    &&& forall|i: int|
        0 <= i < was.len() && i != gone && (#[trigger] was[i]).0 != key ==> moved(i, gone) < is.len()
            && kept(was[i], is[moved(i, gone)])
}

proof fn lemma_same_kept(n: NodeView)
    ensures
        kept_node(n, n),
{
    assert(n.before.skip(0) =~= n.before);
}

proof fn lemma_below_kept(n: NodeView, lines: Seq<Seq<char>>)
    ensures
        kept_node(n, below_lines(n, lines)),
{
    assert((lines + n.before).skip(lines.len() as int) =~= n.before);
}

/// A mapping of which only the entry at `i` is another, or that is longer.
proof fn lemma_in_place(was: Seq<(Seq<char>, NodeView)>, is: Seq<(Seq<char>, NodeView)>, key: Seq<char>)
    requires
        was.len() <= is.len(),
        forall|i: int| 0 <= i < was.len() && (#[trigger] was[i]).0 != key ==> is[i] == was[i],
    ensures
        rest_kept(was, is, key, was.len() as int),
{
    assert forall|i: int| 0 <= i < was.len() && (#[trigger] was[i]).0 != key implies kept(
        was[i],
        is[moved(i, was.len() as int)],
    ) by {
        lemma_same_kept(was[i].1);
    }
}

/// The entry at `i` is taken away.
proof fn lemma_taken(was: Seq<(Seq<char>, NodeView)>, mid: Seq<(Seq<char>, NodeView)>, key: Seq<char>, i: int)
    requires
        0 <= i < was.len(),
        was[i].0 == key,
        mid.len() == was.len(),
        forall|j: int| 0 <= j < was.len() && j != i ==> #[trigger] mid[j] == was[j],
    ensures
        rest_kept(was, without(mid, i), key, i),
{
    let is = without(mid, i);
    assert forall|j: int| 0 <= j < was.len() && j != i && (#[trigger] was[j]).0 != key implies moved(
        j,
        i,
    ) < is.len() && kept(was[j], is[moved(j, i)]) by {
        assert(mid[j] == was[j]);
        lemma_same_kept(was[j].1);
        lemma_below_kept(was[j].1, mid[i].1.before);
    }
}

/// An edit keeps everything it is not about, with its comments and in its order: the
/// one thing that changes is that the comment lines above what was taken away stay,
/// above what follows it.
pub proof fn law_an_edit_leaves_the_rest(d: DocView, cmd: CmdView)
    requires
        rooted(d).root.value is Mapping,
        new_node(cmd) is Ok,
    ensures
        edited(d, cmd).0.root.value is Mapping,
        exists|gone: int| #[trigger]
            rest_kept(map_of(rooted(d).root), map_of(edited(d, cmd).0.root), about(cmd), gone),
{
    let m = map_of(rooted(d).root);
    let new = new_node(cmd)->Ok_0;
    let m2 = map_edited(m, cmd, new).0;
    assert(edited(d, cmd).0.root.value == ValueView::Mapping(m2));
    assert(map_of(edited(d, cmd).0.root) == m2);
    let key = about(cmd);
    lemma_found(m, key, 0);
    let same = m.len() as int;
    match cmd {
        CmdView::SetTo(_, _) => {
            lemma_in_place(m, m2, key);
            assert(rest_kept(m, m2, key, same));
        },
        CmdView::Unset(_) => {
            match find_key(m, key) {
                Some(i) => {
                    lemma_taken(m, m, key, i);
                    assert(rest_kept(m, m2, key, i));
                },
                None => {
                    lemma_in_place(m, m2, key);
                    assert(rest_kept(m, m2, key, same));
                },
            }
        },
        CmdView::HostAdd { .. } | CmdView::HostSet { .. } => {
            lemma_in_place(m, m2, key);
            assert(rest_kept(m, m2, key, same));
        },
        CmdView::HostUnset { alias, .. } | CmdView::HostRemove { alias, .. } => {
            match alias_at(m, alias) {
                None => {
                    lemma_in_place(m, m2, key);
                    assert(rest_kept(m, m2, key, same));
                },
                Some((hi, ai)) => {
                    if m2.len() < m.len() {
                        lemma_shrunk(m, m2, hi, cmd, new);
                        assert(rest_kept(m, m2, key, hi));
                    } else {
                        lemma_in_place(m, m2, key);
                        assert(rest_kept(m, m2, key, same));
                    }
                },
            }
        },
        _ => {
            lemma_in_place(m, m2, key);
            assert(rest_kept(m, m2, key, same));
        },
    }
}

proof fn lemma_shrunk(
    m: Seq<(Seq<char>, NodeView)>,
    m2: Seq<(Seq<char>, NodeView)>,
    hi: int,
    cmd: CmdView,
    new: NodeView,
)
    requires
        cmd is HostUnset || cmd is HostRemove,
        0 <= hi < m.len(),
        find_key(m, "aliases"@) == Some(hi),
        m[hi].0 == "aliases"@,
        m2 == map_edited(m, cmd, new).0,
        m2.len() < m.len(),
    ensures
        rest_kept(m, m2, "aliases"@, hi),
{
    let am = map_of(m[hi].1);
    let alias = match cmd {
        CmdView::HostUnset { alias, .. } => alias,
        CmdView::HostRemove { alias, .. } => alias,
        _ => Seq::empty(),
    };
    assert(alias_at(m, alias) is Some);
    let (_, ai) = alias_at(m, alias)->0;
    let empty = with_aliases(m, hi, Seq::empty());
    assert(m2 == without(empty, hi)) by {
        match cmd {
            CmdView::HostUnset { key, .. } => {
                let (n, _) = own_unset(am[ai].1, key)->0;
                let left = without(with_node(am, ai, n), ai);
                assert(left.len() == 0);
                assert(left =~= Seq::empty());
            },
            CmdView::HostRemove { host, .. } => {
                match host {
                    None => {
                        assert(without(am, ai) =~= Seq::empty());
                    },
                    Some(h) => {
                        let n = host_removed(am[ai].1, h).0;
                        let am1 = with_node(am, ai, n);
                        lemma_found(am, alias, 0);
                        assert(am1.len() > 0);
                        assert(without(am1, ai) =~= Seq::empty());
                    },
                }
            },
            _ => {},
        }
    }
    lemma_taken(m, empty, "aliases"@, hi);
}

/// The aliases of a file.
pub open spec fn aliases_in(m: Seq<(Seq<char>, NodeView)>) -> Seq<(Seq<char>, NodeView)> {
    match find_key(m, "aliases"@) {
        Some(hi) => map_of(m[hi].1),
        None => Seq::empty(),
    }
}

/// The alias that an edit is about.
pub open spec fn alias_about(cmd: CmdView) -> Option<Seq<char>> {
    match cmd {
        CmdView::HostAdd { alias, .. } => Some(alias),
        CmdView::HostSet { alias, .. } => Some(alias),
        CmdView::HostUnset { alias, .. } => Some(alias),
        CmdView::HostRemove { alias, .. } => Some(alias),
        _ => None,
    }
}

/// Where `aliases` is once its node is another.
proof fn lemma_aliases_at(
    m: Seq<(Seq<char>, NodeView)>,
    m2: Seq<(Seq<char>, NodeView)>,
    hi: int,
    am: Seq<(Seq<char>, NodeView)>,
)
    requires
        0 <= hi < m2.len(),
        m2[hi].0 == "aliases"@,
        m2[hi].1.value == ValueView::Mapping(am),
        hi <= m.len(),
        forall|j: int| 0 <= j < hi ==> (#[trigger] m2[j]).0 == m[j].0,
        match find_key(m, "aliases"@) {
            Some(i) => i == hi,
            None => hi == m.len(),
        },
    ensures
        aliases_in(m2) == am,
{
    lemma_found(m, "aliases"@, 0);
    lemma_found(m2, "aliases"@, 0);
    assert(find_key(m2, "aliases"@) == Some(hi));
}

/// The alias at `ai` is taken away, and `aliases` with it if it was the last.
proof fn lemma_alias_taken(
    m: Seq<(Seq<char>, NodeView)>,
    hi: int,
    am: Seq<(Seq<char>, NodeView)>,
    mid: Seq<(Seq<char>, NodeView)>,
    alias: Seq<char>,
    ai: int,
)
    requires
        keys_apart(m),
        find_key(m, "aliases"@) == Some(hi),
        0 <= ai < am.len(),
        am[ai].0 == alias,
        mid.len() == am.len(),
        forall|j: int| 0 <= j < am.len() && j != ai ==> #[trigger] mid[j] == am[j],
    ensures
        rest_kept(am, aliases_in(with_aliases_left(m, hi, without(mid, ai))), alias, ai),
{
    lemma_found(m, "aliases"@, 0);
    let left = without(mid, ai);
    let m1 = with_aliases(m, hi, left);
    let m2 = with_aliases_left(m, hi, left);
    lemma_taken(am, mid, alias, ai);
    if left.len() == 0 {
        assert(m2 == without(m1, hi));
        lemma_found(m2, "aliases"@, 0);
        assert(find_key(m2, "aliases"@) is None) by {
            if let Some(j) = find_key(m2, "aliases"@) {
                let was: int = if j < hi {
                    j
                } else {
                    j + 1
                };
                assert(m1[was].0 == m2[j].0);
                assert(m1[was].0 == m[was].0);
                assert(m[hi].0 == "aliases"@);
                assert(was != hi);
            }
        }
        assert(am.len() == 1);
    } else {
        lemma_aliases_at(m, m2, hi, left);
    }
}

/// An edit of one alias keeps the others, with their comments and in their order.
pub proof fn law_other_aliases_stay(d: DocView, cmd: CmdView, alias: Seq<char>)
    requires
        rooted(d).root.value is Mapping,
        keys_apart(map_of(rooted(d).root)),
        new_node(cmd) is Ok,
        alias_about(cmd) == Some(alias),
    ensures
        exists|gone: int| #[trigger]
            rest_kept(
                aliases_in(map_of(rooted(d).root)),
                aliases_in(map_of(edited(d, cmd).0.root)),
                alias,
                gone,
            ),
{
    let m = map_of(rooted(d).root);
    let new = new_node(cmd)->Ok_0;
    let m2 = map_edited(m, cmd, new).0;
    assert(edited(d, cmd).0.root.value == ValueView::Mapping(m2));
    assert(map_of(edited(d, cmd).0.root) == m2);
    lemma_found(m, "aliases"@, 0);
    let am = aliases_in(m);
    let am2 = aliases_in(m2);
    lemma_found(am, alias, 0);
    let same = am.len() as int;
    match cmd {
        CmdView::HostAdd { .. } | CmdView::HostSet { .. } => {
            let (m1, hi) = ready(m);
            match with_alias(m, alias) {
                Err(_) => {
                    assert(am =~= Seq::empty());
                    assert(rest_kept(am, am2, alias, same));
                },
                Ok((_, _, added, ai)) => {
                    lemma_aliases_at(m, m2, hi, map_of(m2[hi].1));
                    assert(am2 == map_of(m2[hi].1));
                    assert(map_of(m1[hi].1) =~= am);
                    lemma_in_place(am, am2, alias);
                    assert(rest_kept(am, am2, alias, same));
                },
            }
        },
        _ => match alias_at(m, alias) {
            None => {
                lemma_in_place(am, am2, alias);
                assert(rest_kept(am, am2, alias, same));
            },
            Some((hi, ai)) => {
                lemma_alias_edited(m, cmd, new, hi, ai, alias);
            },
        },
    }
}

proof fn lemma_alias_edited(
    m: Seq<(Seq<char>, NodeView)>,
    cmd: CmdView,
    new: NodeView,
    hi: int,
    ai: int,
    alias: Seq<char>,
)
    requires
        keys_apart(m),
        cmd is HostUnset || cmd is HostRemove,
        alias_about(cmd) == Some(alias),
        alias_at(m, alias) == Some((hi, ai)),
    ensures
        exists|gone: int| #[trigger]
            rest_kept(aliases_in(m), aliases_in(map_edited(m, cmd, new).0), alias, gone),
{
    lemma_found(m, "aliases"@, 0);
    let am = map_of(m[hi].1);
    lemma_found(am, alias, 0);
    assert(aliases_in(m) == am);
    let m2 = map_edited(m, cmd, new).0;
    let am2 = aliases_in(m2);
    let same = am.len() as int;
    match cmd {
        CmdView::HostUnset { key, .. } => match own_unset(am[ai].1, key) {
            None => {
                lemma_in_place(am, am2, alias);
                assert(rest_kept(am, am2, alias, same));
            },
            Some((n, gone)) => {
                if gone {
                    lemma_alias_taken(m, hi, am, with_node(am, ai, n), alias, ai);
                    assert(rest_kept(am, am2, alias, ai));
                } else {
                    lemma_aliases_at(m, m2, hi, with_node(am, ai, n));
                    lemma_in_place(am, am2, alias);
                    assert(rest_kept(am, am2, alias, same));
                }
            },
        },
        CmdView::HostRemove { host, .. } => match host {
            None => {
                lemma_alias_taken(m, hi, am, am, alias, ai);
                assert(rest_kept(am, am2, alias, ai));
            },
            Some(h) => {
                let (n, count, empty) = host_removed(am[ai].1, h);
                let am1 = with_node(am, ai, n);
                if count > 0 && empty {
                    lemma_alias_taken(m, hi, am, am1, alias, ai);
                    assert(rest_kept(am, am2, alias, ai));
                } else {
                    lemma_aliases_at(m, m2, hi, am1);
                    lemma_in_place(am, am2, alias);
                    assert(rest_kept(am, am2, alias, same));
                }
            },
        },
        _ => {},
    }
}

// ---- a host comes and goes -------------------------------------------------

proof fn lemma_others(items: Seq<NodeView>, e: NodeView, host: Seq<char>)
    requires
        !lists_host(items, host),
        host_of(e) == Some(host),
    ensures
        others(items.push(e), host, Seq::empty()) == items,
    decreases items.len(),
{
    let all = items.push(e);
    if items.len() == 0 {
        assert(all.skip(1) =~= Seq::empty());
        assert(others(all.skip(1), host, Seq::<Seq<char>>::empty() + e.before) =~= Seq::empty());
        assert(others(all, host, Seq::empty()) =~= items);
    } else {
        assert(host_of(items[0]) != Some(host));
        assert(all[0] == items[0]);
        assert(all.skip(1) =~= items.skip(1).push(e));
        assert(!lists_host(items.skip(1), host)) by {
            if lists_host(items.skip(1), host) {
                let i = choose|i: int|
                    0 <= i < items.skip(1).len() && host_of(#[trigger] items.skip(1)[i]) == Some(host);
                assert(host_of(items[i + 1]) == Some(host));
            }
        }
        lemma_others(items.skip(1), e, host);
        assert(Seq::<Seq<char>>::empty() + items[0].before =~= items[0].before);
        assert(below_lines(items[0], Seq::empty()) == items[0]);
        assert(seq![items[0]] + items.skip(1) =~= items);
    }
}

/// A host that was added to an alias with hosts, written as a list, can be removed
/// again, and leaves the file as it was.
pub proof fn law_an_added_host_can_be_removed(
    d: DocView,
    alias: Seq<char>,
    host: Seq<char>,
    add: CmdView,
    remove: CmdView,
    m: Seq<(Seq<char>, NodeView)>,
    hi: int,
    ai: int,
    items: Seq<NodeView>,
)
    requires
        add matches CmdView::HostAdd { alias: a, host: h, .. } && a == alias && h == host,
        remove == (CmdView::HostRemove { alias, host: Some(host) }),
        good_alias(alias),
        d.root.value == ValueView::Mapping(m),
        alias_at(m, alias) == Some((hi, ai)),
        map_of(m[hi].1)[ai].1.value == ValueView::List(items),
        !m[hi].1.flow,
        !map_of(m[hi].1)[ai].1.flow,
        items.len() > 0,
        !lists_host(items, host),
    ensures
        edited(d, add).1 is Ok,
        edited(edited(d, add).0, remove).1 is Ok,
        edited(edited(d, add).0, remove).0 == d,
{
    let am = map_of(m[hi].1);
    let n = am[ai].1;
    lemma_found(m, "aliases"@, 0);
    lemma_found(am, alias, 0);
    let e = new_node(add)->Ok_0;
    // Added.
    assert(with_node(m, hi, m[hi].1) =~= m);
    assert(ready(m) == (m, hi));
    assert(with_key(am, alias) == (am, ai));
    assert(host_of(e) == Some(host)) by {
        let f = map_of(e);
        assert(f[0].0 == "host"@);
        assert(find_key(f, "host"@) == Some(0int));
    }
    assert(as_list(n) == n);
    let n1 = NodeView { value: ValueView::List(items.push(e)), ..n };
    assert(host_added(n, alias, host, e) == (n1, Ok::<nat, Seq<char>>(items.len() + 1)));
    let am1 = with_node(am, ai, n1);
    let m1 = with_aliases(m, hi, am1);
    let d1 = with_map(d, m1);
    assert(edited(d, add).0 == d1);
    // Removed.
    lemma_others(items, e, host);
    assert(list_removed(n1, host).0 == n);
    lemma_found(m1, "aliases"@, 0);
    lemma_found(am1, alias, 0);
    assert(find_key(m1, "aliases"@) == Some(hi)) by {
        assert(m1[hi].0 == "aliases"@);
        assert(forall|j: int| 0 <= j < hi ==> (#[trigger] m1[j]).0 == m[j].0);
    }
    assert(map_of(m1[hi].1) == am1);
    assert(find_key(am1, alias) == Some(ai)) by {
        assert(am1[ai].0 == alias);
        assert(forall|j: int| 0 <= j < ai ==> (#[trigger] am1[j]).0 == am[j].0);
    }
    assert(alias_at(m1, alias) == Some((hi, ai)));
    assert(with_node(am1, ai, n) =~= am);
    assert(with_aliases(m1, hi, am) =~= m) by {
        assert(mapped(m1[hi].1, am) == m[hi].1);
    }
    assert(with_map(d1, m) == d);
}

/// Where an alias is stays the same when its node and the mapping around it are put in
/// anew.
proof fn lemma_alias_stays(
    m: Seq<(Seq<char>, NodeView)>,
    alias: Seq<char>,
    hi: int,
    ai: int,
    n: NodeView,
)
    requires
        alias_at(m, alias) == Some((hi, ai)),
    ensures
        ({
            let am = map_of(m[hi].1);
            let am1 = with_node(am, ai, n);
            let m1 = with_aliases(m, hi, am1);
            &&& 0 <= hi < m.len()
            &&& 0 <= ai < am.len()
            &&& m[hi].0 == "aliases"@
            &&& am[ai].0 == alias
            &&& map_of(m1[hi].1) == am1
            &&& alias_at(m1, alias) == Some((hi, ai))
            &&& with_aliases(m1, hi, with_node(am1, ai, am[ai].1)) == m
        }),
{
    let am = map_of(m[hi].1);
    lemma_found(m, "aliases"@, 0);
    lemma_found(am, alias, 0);
    let am1 = with_node(am, ai, n);
    let m1 = with_aliases(m, hi, am1);
    lemma_found(m1, "aliases"@, 0);
    lemma_found(am1, alias, 0);
    assert(find_key(m1, "aliases"@) == Some(hi)) by {
        assert(m1[hi].0 == "aliases"@);
        assert(forall|j: int| 0 <= j < hi ==> (#[trigger] m1[j]).0 == m[j].0);
    }
    assert(map_of(m1[hi].1) == am1);
    assert(find_key(am1, alias) == Some(ai)) by {
        assert(am1[ai].0 == alias);
        assert(forall|j: int| 0 <= j < ai ==> (#[trigger] am1[j]).0 == am[j].0);
    }
    assert(with_node(am1, ai, am[ai].1) =~= am);
    assert(with_aliases(m1, hi, am) =~= m) by {
        assert(mapped(m1[hi].1, am) == m[hi].1);
    }
}

/// Unsetting the only setting of an alias undoes setting it: the hosts, which moved
/// under the alias, move back, and every comment and the order of everything is as it
/// was. `host` and `hosts` are no settings.
pub proof fn law_unsetting_undoes_setting(
    d: DocView,
    alias: Seq<char>,
    key: Seq<char>,
    value: Seq<char>,
    m: Seq<(Seq<char>, NodeView)>,
    hi: int,
    ai: int,
)
    requires
        d.root.value == ValueView::Mapping(m),
        alias_at(m, alias) == Some((hi, ai)),
        map_of(m[hi].1)[ai].1.value is List,
        !m[hi].1.flow,
        key != "hosts"@,
        key != "host"@,
        edited(d, CmdView::HostSet { alias, key, value }).1 is Ok,
    ensures
        ({
            let set = edited(d, CmdView::HostSet { alias, key, value }).0;
            let unset = edited(set, CmdView::HostUnset { alias, key });
            unset.1 is Ok && unset.0 == d
        }),
{
    reveal_strlit("host");
    reveal_strlit("hosts");
    let am = map_of(m[hi].1);
    let n = am[ai].1;
    let new = new_node(CmdView::HostSet { alias, key, value })->Ok_0;
    lemma_found(m, "aliases"@, 0);
    lemma_found(am, alias, 0);
    // Set.
    assert(with_node(m, hi, m[hi].1) =~= m);
    assert(ready(m) == (m, hi));
    assert(with_key(am, alias) == (am, ai));
    let hosts = ("hosts"@, alone(n));
    let f = seq![hosts];
    assert(map_of(as_form(n)) == f);
    lemma_found(f, key, 0);
    assert(find_key(f, key) is None);
    let g = seq![(key, new)] + f;
    let n1 = own_set(n, key, new);
    assert(n1 == mapped(as_form(n), g));
    lemma_alias_stays(m, alias, hi, ai, n1);
    let am1 = with_node(am, ai, n1);
    let m1 = with_aliases(m, hi, am1);
    let d1 = with_map(d, m1);
    assert(edited(d, CmdView::HostSet { alias, key, value }).0 == d1);
    // Unset.
    assert(new.before =~= Seq::empty());
    lemma_found(g, "host"@, 0);
    assert(g[0].0 == key && g[1].0 == "hosts"@);
    assert(is_form(n1));
    assert(find_key(g, key) == Some(0int));
    let left = without(g, 0);
    assert(below_lines(alone(n), new.before) == alone(n)) by {
        assert(new.before + alone(n).before =~= alone(n).before);
    }
    assert(left =~= f);
    reveal_with_fuel(keys_left, 2);
    assert(keys_left(f, 1) =~= seq!["hosts"@]);
    assert(find_key(f, "hosts"@) == Some(0int));
    let n2 = collapsed(n1, alone(n));
    assert(n1.before + alone(n).before =~= n.before);
    assert(n2 == n);
    assert(own_unset(n1, key) == Some((n, false)));
    assert(with_map(d1, m) == d);
}

} // verus!
