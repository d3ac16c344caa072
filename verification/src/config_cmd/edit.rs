//! Edits of a configuration file, on its tree: a file keeps its comments and the
//! order of everything the edit did not touch.

use super::{
    is_setting, typed, typed_as, unknown_key, unknown_key_text, value_shown, value_text, Cmd,
    CmdView,
};
use crate::config::entry::res_text;
use crate::config::{bad_alias_text, good_alias, validate_alias};
use crate::text::{dec, decimal, same, texts};
use crate::yaml::{
    bare, bool_node, entry_views, find_key, lemma_entry_views, lemma_node_views, node_view, node_views, opt_text,
    position, text_node, value_view, DocView, Document, Node, NodeView, Value, ValueView,
};
use vstd::prelude::*;

verus! {

/// What is said of a file that holds no settings.
pub const NO_SETTINGS: &'static str = "the file does not hold 'key: value' settings; fix it by hand";

/// What is said of `aliases` that hold no aliases.
pub const NO_ALIASES: &'static str = "'aliases' is not a mapping of aliases; fix it by hand";

pub open spec fn set_to_text(key: Seq<char>, shown: Seq<char>) -> Seq<char> {
    "set "@ + key + " to "@ + shown
}

fn set_to(key: &str, shown: &str) -> (s: String)
    ensures
        s@ == set_to_text(key@, shown@),
{
    let mut s = "set ".to_owned();
    s.append(key);
    s.append(" to ");
    s.append(shown);
    s
}

pub open spec fn not_set_text(key: Seq<char>) -> Seq<char> {
    key + " is not set in this file"@
}

fn not_set(key: &str) -> (s: String)
    ensures
        s@ == not_set_text(key@),
{
    let mut s = key.to_owned();
    s.append(" is not set in this file");
    s
}

pub open spec fn removed_key_text(key: Seq<char>) -> Seq<char> {
    "removed "@ + key
}

fn removed_key(key: &str) -> (s: String)
    ensures
        s@ == removed_key_text(key@),
{
    let mut s = "removed ".to_owned();
    s.append(key);
    s
}

pub open spec fn already_host_text(host: Seq<char>, alias: Seq<char>) -> Seq<char> {
    host + " is already a host of "@ + alias
}

fn already_host(host: &str, alias: &str) -> (s: String)
    ensures
        s@ == already_host_text(host@, alias@),
{
    let mut s = host.to_owned();
    s.append(" is already a host of ");
    s.append(alias);
    s
}

pub open spec fn no_list_text(alias: Seq<char>) -> Seq<char> {
    "aliases."@ + alias + " is not a list of hosts; fix it by hand"@
}

fn no_list(alias: &str) -> (s: String)
    ensures
        s@ == no_list_text(alias@),
{
    let mut s = "aliases.".to_owned();
    s.append(alias);
    s.append(" is not a list of hosts; fix it by hand");
    s
}

pub open spec fn added_text(dest: Seq<char>, alias: Seq<char>, place: Seq<char>, key: Seq<char>) -> Seq<char> {
    "added "@ + dest + " to "@ + alias + " as "@ + place + key
}

fn added(dest: &str, alias: &str, place: &str, key: &str) -> (s: String)
    ensures
        s@ == added_text(dest@, alias@, place@, key@),
{
    let mut s = "added ".to_owned();
    s.append(dest);
    s.append(" to ");
    s.append(alias);
    s.append(" as ");
    s.append(place);
    s.append(key);
    s
}

pub open spec fn set_of_text(key: Seq<char>, alias: Seq<char>, shown: Seq<char>) -> Seq<char> {
    "set "@ + key + " of "@ + alias + " to "@ + shown
}

fn set_of(key: &str, alias: &str, shown: &str) -> (s: String)
    ensures
        s@ == set_of_text(key@, alias@, shown@),
{
    let mut s = "set ".to_owned();
    s.append(key);
    s.append(" of ");
    s.append(alias);
    s.append(" to ");
    s.append(shown);
    s
}

pub open spec fn not_set_of_text(key: Seq<char>, alias: Seq<char>) -> Seq<char> {
    key + " of "@ + alias + " is not set in this file"@
}

fn not_set_of(key: &str, alias: &str) -> (s: String)
    ensures
        s@ == not_set_of_text(key@, alias@),
{
    let mut s = key.to_owned();
    s.append(" of ");
    s.append(alias);
    s.append(" is not set in this file");
    s
}

pub open spec fn removed_of_text(key: Seq<char>, alias: Seq<char>) -> Seq<char> {
    "removed "@ + key + " of "@ + alias
}

fn removed_of(key: &str, alias: &str) -> (s: String)
    ensures
        s@ == removed_of_text(key@, alias@),
{
    let mut s = "removed ".to_owned();
    s.append(key);
    s.append(" of ");
    s.append(alias);
    s
}

pub open spec fn removed_with_alias_text(key: Seq<char>, alias: Seq<char>) -> Seq<char> {
    "removed "@ + key + " of "@ + alias + ", and "@ + alias + ", which has no hosts in this file"@
}

fn removed_with_alias(key: &str, alias: &str) -> (s: String)
    ensures
        s@ == removed_with_alias_text(key@, alias@),
{
    let mut s = "removed ".to_owned();
    s.append(key);
    s.append(" of ");
    s.append(alias);
    s.append(", and ");
    s.append(alias);
    s.append(", which has no hosts in this file");
    s
}

pub open spec fn no_alias_text(alias: Seq<char>) -> Seq<char> {
    "no alias '"@ + alias + "' in this file"@
}

fn no_alias(alias: &str) -> (s: String)
    ensures
        s@ == no_alias_text(alias@),
{
    let mut s = "no alias '".to_owned();
    s.append(alias);
    s.append("' in this file");
    s
}

pub open spec fn removed_alias_text(alias: Seq<char>) -> Seq<char> {
    "removed alias "@ + alias
}

fn removed_alias(alias: &str) -> (s: String)
    ensures
        s@ == removed_alias_text(alias@),
{
    let mut s = "removed alias ".to_owned();
    s.append(alias);
    s
}

pub open spec fn no_host_of_text(host: Seq<char>, alias: Seq<char>) -> Seq<char> {
    host + " is not a host of "@ + alias + " in this file"@
}

fn no_host_of(host: &str, alias: &str) -> (s: String)
    ensures
        s@ == no_host_of_text(host@, alias@),
{
    let mut s = host.to_owned();
    s.append(" is not a host of ");
    s.append(alias);
    s.append(" in this file");
    s
}

pub open spec fn removed_last_text(host: Seq<char>, alias: Seq<char>) -> Seq<char> {
    "removed "@ + host + ", the last host of "@ + alias + ", and the alias"@
}

fn removed_last(host: &str, alias: &str) -> (s: String)
    ensures
        s@ == removed_last_text(host@, alias@),
{
    let mut s = "removed ".to_owned();
    s.append(host);
    s.append(", the last host of ");
    s.append(alias);
    s.append(", and the alias");
    s
}

pub open spec fn removed_host_text(host: Seq<char>, alias: Seq<char>) -> Seq<char> {
    "removed "@ + host + " from "@ + alias
}

fn removed_host(host: &str, alias: &str) -> (s: String)
    ensures
        s@ == removed_host_text(host@, alias@),
{
    let mut s = "removed ".to_owned();
    s.append(host);
    s.append(" from ");
    s.append(alias);
    s
}

// ---- the tree --------------------------------------------------------------

/// The node with comment lines put above it.
pub open spec fn below_lines(n: NodeView, lines: Seq<Seq<char>>) -> NodeView {
    NodeView { before: lines + n.before, ..n }
}

/// The mapping without the entry at `i`, the comment lines above it kept for what
/// follows (they are dropped with the last one).
pub open spec fn without(m: Seq<(Seq<char>, NodeView)>, i: int) -> Seq<(Seq<char>, NodeView)> {
    let rest = m.remove(i);
    if i < rest.len() {
        rest.update(i, (rest[i].0, below_lines(rest[i].1, m[i].1.before)))
    } else {
        rest
    }
}

/// The node with another value, its comments kept.
pub open spec fn valued(n: NodeView, new: NodeView) -> NodeView {
    NodeView { value: new.value, flow: new.flow, ..n }
}

/// The mapping with the node of the entry at `i` replaced.
pub open spec fn with_node(m: Seq<(Seq<char>, NodeView)>, i: int, n: NodeView) -> Seq<
    (Seq<char>, NodeView),
> {
    m.update(i, (m[i].0, n))
}

/// The mapping with `key` set, at its place or behind everything.
pub open spec fn set_in(m: Seq<(Seq<char>, NodeView)>, key: Seq<char>, new: NodeView) -> Seq<
    (Seq<char>, NodeView),
> {
    match find_key(m, key) {
        Some(i) => with_node(m, i, valued(m[i].1, new)),
        None => m.push((key, new)),
    }
}

/// The mapping with `key` in it, added empty behind everything if it is missing,
/// and where it is.
pub open spec fn with_key(m: Seq<(Seq<char>, NodeView)>, key: Seq<char>) -> (
    Seq<(Seq<char>, NodeView)>,
    int,
) {
    match find_key(m, key) {
        Some(i) => (m, i),
        None => (m.push((key, bare(ValueView::Null))), m.len() as int),
    }
}

/// The document with its root a mapping, if it was empty: in a file of comments
/// only, they head the settings added below them.
pub open spec fn rooted(d: DocView) -> DocView {
    if d.root.value is Null {
        DocView {
            root: NodeView {
                value: ValueView::Mapping(Seq::empty()),
                flow: false,
                before: d.root.before + d.tail,
                ..d.root
            },
            tail: Seq::empty(),
        }
    } else {
        d
    }
}

/// The document with another mapping for its root.
pub open spec fn with_map(d: DocView, m: Seq<(Seq<char>, NodeView)>) -> DocView {
    DocView { root: NodeView { value: ValueView::Mapping(m), ..d.root }, ..d }
}

proof fn lemma_entry_update(v: Seq<(String, Node)>, w: Seq<(String, Node)>, i: int)
    requires
        0 <= i < v.len(),
        w.len() == v.len(),
        w[i].0@ == v[i].0@,
        forall|j: int| 0 <= j < v.len() && j != i ==> #[trigger] w[j] == v[j],
    ensures
        entry_views(w) == with_node(entry_views(v), i, node_view(w[i].1)),
{
    lemma_entry_views(v);
    lemma_entry_views(w);
    assert(entry_views(w) =~= with_node(entry_views(v), i, node_view(w[i].1)));
}

proof fn lemma_entry_push(v: Seq<(String, Node)>, e: (String, Node))
    ensures
        entry_views(v.push(e)) == entry_views(v).push((e.0@, node_view(e.1))),
{
    assert(v.push(e).drop_last() =~= v);
}

/// Put comment lines above a node.
fn put_above(n: &mut Node, lines: Vec<String>)
    ensures
        final(n)@ == below_lines(old(n)@, texts(lines@)),
{
    let mut all = lines;
    let ghost had = texts(all@);
    all.append(&mut n.before);
    assert(texts(all@) =~= had + texts(old(n).before@));
    n.before = all;
}

fn set_value(n: &mut Node, new: Node)
    ensures
        final(n)@ == valued(old(n)@, new@),
{
    n.value = new.value;
    n.flow = new.flow;
}

/// Remove the entry at `i`, keeping the comment lines above it for what follows.
fn remove_entry(map: &mut Vec<(String, Node)>, i: usize)
    requires
        i < old(map)@.len(),
    ensures
        entry_views(final(map)@) == without(entry_views(old(map)@), i as int),
{
    let ghost all = map@;
    proof {
        lemma_entry_views(all);
    }
    let (_, gone) = map.remove(i);
    let ghost rest = map@;
    proof {
        lemma_entry_views(rest);
        assert(entry_views(rest) =~= entry_views(all).remove(i as int));
        assert(entry_views(all)[i as int].1.before == texts(gone.before@));
    }
    if i < map.len() {
        put_above(&mut map[i].1, gone.before);
        proof {
            lemma_entry_update(rest, map@, i as int);
        }
    }
}

/// Set `key`, at its place or behind everything.
fn set_entry(map: &mut Vec<(String, Node)>, key: &str, new: Node)
    ensures
        entry_views(final(map)@) == set_in(entry_views(old(map)@), key@, new@),
{
    let ghost all = map@;
    proof {
        lemma_entry_views(all);
    }
    match position(map, key) {
        Some(i) => {
            set_value(&mut map[i].1, new);
            proof {
                lemma_entry_update(all, map@, i as int);
            }
        },
        None => {
            map.push((key.to_owned(), new));
            proof {
                lemma_entry_push(all, map@.last());
                assert(map@ =~= all.push(map@.last()));
            }
        },
    }
}

/// Where `key` is, added empty behind everything if it is missing.
fn ensure_key(map: &mut Vec<(String, Node)>, key: &str) -> (i: usize)
    ensures
        (entry_views(final(map)@), i as int) == with_key(entry_views(old(map)@), key@),
        i < final(map)@.len(),
{
    let ghost all = map@;
    proof {
        lemma_entry_views(all);
    }
    match position(map, key) {
        Some(i) => i,
        None => {
            let n: usize = map.len();
            map.push((key.to_owned(), Node::new(Value::Null)));
            proof {
                lemma_entry_push(all, map@.last());
                assert(map@ =~= all.push(map@.last()));
            }
            n
        },
    }
}

/// Make the root a mapping, if the document is empty.
fn root(doc: &mut Document)
    ensures
        final(doc)@ == rooted(old(doc)@),
{
    if doc.root.value.is_null() {
        doc.root.value = Value::Mapping(Vec::new());
        doc.root.flow = false;
        let mut before: Vec<String> = Vec::new();
        std::mem::swap(&mut before, &mut doc.root.before);
        let ghost had = texts(before@);
        before.append(&mut doc.tail);
        assert(texts(before@) =~= had + texts(old(doc).tail@));
        doc.root.before = before;
        proof {
            reveal_with_fuel(value_view, 2);
            assert(entry_views(Seq::<(String, Node)>::empty()) =~= Seq::empty());
            assert(doc@ =~= rooted(old(doc)@));
        }
    }
}

// ---- an alias --------------------------------------------------------------

/// An alias's node is the mapping of its settings and `hosts` rather than its list
/// of hosts or its one host entry.
pub open spec fn is_form(n: NodeView) -> bool {
    match n.value {
        ValueView::Mapping(m) => find_key(m, "host"@) is None,
        _ => false,
    }
}

/// The entries of a mapping; none for anything else.
pub open spec fn map_of(n: NodeView) -> Seq<(Seq<char>, NodeView)> {
    match n.value {
        ValueView::Mapping(m) => m,
        _ => Seq::empty(),
    }
}

/// The node with another mapping for its value.
pub open spec fn mapped(n: NodeView, m: Seq<(Seq<char>, NodeView)>) -> NodeView {
    NodeView { value: ValueView::Mapping(m), ..n }
}

/// The `host:` of a host entry.
pub open spec fn host_of(n: NodeView) -> Option<Seq<char>> {
    match n.value {
        ValueView::Mapping(m) => match find_key(m, "host"@) {
            Some(i) => match m[i].1.value {
                ValueView::Scalar { text, .. } => Some(text),
                _ => None,
            },
            None => None,
        },
        _ => None,
    }
}

pub(crate) fn is_alias_form(n: &Node) -> (r: bool)
    ensures
        r == is_form(n@),
{
    match &n.value {
        Value::Mapping(m) => position(m, "host").is_none(),
        _ => false,
    }
}

fn is_entry_for(n: &Node, host: &str) -> (r: bool)
    ensures
        r == (host_of(n@) == Some(host@)),
{
    match &n.value {
        Value::Mapping(m) => match position(m, "host") {
            Some(i) => {
                proof {
                    lemma_entry_views(m@);
                    assert(entry_views(m@)[i as int] == (m@[i as int].0@, node_view(m@[i as int].1)));
                }
                match &m[i].1.value {
                    Value::Scalar(s) => same(&s.text, host),
                    _ => false,
                }
            },
            None => false,
        },
        _ => false,
    }
}

// ---- host add --------------------------------------------------------------

/// A host entry, as it is written.
pub open spec fn entry_fields(
    host: Seq<char>,
    user: Option<Seq<char>>,
    identity_file: Option<Seq<char>>,
    check: bool,
    prefer: bool,
    persist: Option<bool>,
) -> Seq<(Seq<char>, NodeView)> {
    seq![("host"@, text_node(host))] + (match user {
        Some(u) => seq![("user"@, text_node(u))],
        None => Seq::empty(),
    }) + (match identity_file {
        Some(k) => seq![("identity_file"@, text_node(k))],
        None => Seq::empty(),
    }) + (if !check {
        seq![("reachability_check"@, bool_node(false))]
    } else {
        Seq::empty()
    }) + (if prefer {
        seq![("prefer"@, bool_node(true))]
    } else {
        Seq::empty()
    }) + (match persist {
        Some(p) => seq![("persist"@, bool_node(p))],
        None => Seq::empty(),
    })
}

/// One host entry: `host`, then what is not the default.
pub fn entry_map(
    host: &str,
    user: &Option<String>,
    identity_file: &Option<String>,
    check: bool,
    prefer: bool,
    persist: Option<bool>,
) -> (m: Vec<(String, Node)>)
    ensures
        entry_views(m@) == entry_fields(
            host@,
            opt_text(*user),
            opt_text(*identity_file),
            check,
            prefer,
            persist,
        ),
{
    let mut m: Vec<(String, Node)> = Vec::new();
    assert(entry_views(m@) =~= Seq::empty());
    push_field(&mut m, "host", Node::string(host));
    if let Some(u) = user {
        push_field(&mut m, "user", Node::string(u));
    }
    if let Some(k) = identity_file {
        push_field(&mut m, "identity_file", Node::string(k));
    }
    if !check {
        push_field(&mut m, "reachability_check", Node::bool(false));
    }
    if prefer {
        push_field(&mut m, "prefer", Node::bool(true));
    }
    if let Some(p) = persist {
        push_field(&mut m, "persist", Node::bool(p));
    }
    assert(entry_views(m@) =~= entry_fields(
        host@,
        opt_text(*user),
        opt_text(*identity_file),
        check,
        prefer,
        persist,
    ));
    m
}

pub(crate) fn push_field(m: &mut Vec<(String, Node)>, key: &str, n: Node)
    ensures
        entry_views(final(m)@) == entry_views(old(m)@).push((key@, n@)),
{
    let ghost had = m@;
    m.push((key.to_owned(), n));
    proof {
        lemma_entry_push(had, m@.last());
        assert(m@ =~= had.push(m@.last()));
    }
}

/// A node as the only item of a list.
pub open spec fn alone(n: NodeView) -> NodeView {
    NodeView { value: n.value, flow: n.flow, ..bare(ValueView::Null) }
}

/// The list of an alias's hosts, as one to add to: one entry written without a list
/// becomes a list.
pub open spec fn as_list(n: NodeView) -> NodeView {
    NodeView {
        value: match n.value {
            ValueView::Null => ValueView::List(Seq::empty()),
            ValueView::Mapping(_) => ValueView::List(seq![alone(n)]),
            other => other,
        },
        flow: false,
        ..n
    }
}

/// One of the entries is for `host`.
pub open spec fn lists_host(items: Seq<NodeView>, host: Seq<char>) -> bool {
    exists|i: int| 0 <= i < items.len() && host_of(#[trigger] items[i]) == Some(host)
}

/// A list of hosts with one more behind them, and how many it then has.
pub open spec fn list_added(n: NodeView, alias: Seq<char>, host: Seq<char>, e: NodeView) -> (
    NodeView,
    Result<nat, Seq<char>>,
) {
    let l = as_list(n);
    match l.value {
        ValueView::List(items) => if lists_host(items, host) {
            (l, Err(already_host_text(host, alias)))
        } else {
            (NodeView { value: ValueView::List(items.push(e)), ..l }, Ok(items.len() + 1))
        },
        _ => (l, Err(no_list_text(alias))),
    }
}

/// An alias with one more host; one written as a mapping gets `hosts` if it has
/// none.
pub open spec fn host_added(n: NodeView, alias: Seq<char>, host: Seq<char>, e: NodeView) -> (
    NodeView,
    Result<nat, Seq<char>>,
) {
    if is_form(n) {
        let (m, i) = with_key(map_of(n), "hosts"@);
        let (l, r) = list_added(m[i].1, alias, host, e);
        (NodeView { flow: false, ..mapped(n, with_node(m, i, l)) }, r)
    } else {
        list_added(n, alias, host, e)
    }
}

fn make_list(n: &mut Node)
    ensures
        final(n)@ == as_list(old(n)@),
{
    proof {
        reveal_with_fuel(value_view, 2);
        reveal_with_fuel(node_views, 2);
    }
    let flow = n.flow;
    n.flow = false;
    let mut value = Value::Null;
    std::mem::swap(&mut value, &mut n.value);
    match value {
        Value::Null => {
            n.value = Value::List(Vec::new());
            assert(n@.value == ValueView::List(node_views(Seq::<Node>::empty())));
        },
        Value::Mapping(m) => {
            let single = Node {
                value: Value::Mapping(m),
                line: 0,
                before: Vec::new(),
                comment: None,
                flow,
            };
            let mut items: Vec<Node> = Vec::new();
            items.push(single);
            proof {
                assert(texts(Seq::<String>::empty()) =~= Seq::empty());
                assert(single@ =~= alone(old(n)@));
                lemma_node_views(items@);
                assert(node_views(items@) =~= seq![alone(old(n)@)]);
            }
            n.value = Value::List(items);
        },
        other => {
            n.value = other;
        },
    }
}

fn has_host(items: &Vec<Node>, host: &str) -> (r: bool)
    ensures
        r == lists_host(node_views(items@), host@),
{
    let ghost all = node_views(items@);
    proof {
        lemma_node_views(items@);
    }
    let mut i: usize = 0;
    while i < items.len()
        invariant
            i <= items.len(),
            all == node_views(items@),
            all.len() == items@.len(),
            forall|j: int| 0 <= j < i ==> host_of(#[trigger] all[j]) != Some(host@),
        decreases items.len() - i,
    {
        proof {
            lemma_node_views(items@);
            assert(node_views(items@)[i as int] == node_view(items@[i as int]));
        }
        if is_entry_for(&items[i], host) {
            return true;
        }
        i = i + 1;
    }
    false
}

/// A count, or an error.
pub open spec fn counted(r: Result<usize, String>) -> Result<nat, Seq<char>> {
    match r {
        Ok(n) => Ok(n as nat),
        Err(e) => Err(e@),
    }
}

fn add_to_list(n: &mut Node, alias: &str, host: &str, e: Node) -> (r: Result<usize, String>)
    ensures
        (final(n)@, counted(r)) == list_added(old(n)@, alias@, host@, e@),
{
    make_list(n);
    let ghost l = n@;
    match &mut n.value {
        Value::List(items) => {
            if has_host(items, host) {
                return Err(already_host(host, alias));
            }
            let ghost had = items@;
            items.push(e);
            proof {
                assert(items@.drop_last() =~= had);
                lemma_node_views(had);
                lemma_node_views(items@);
            }
            Ok(items.len())
        },
        _ => Err(no_list(alias)),
    }
}

fn add_host(n: &mut Node, alias: &str, host: &str, e: Node) -> (r: Result<usize, String>)
    ensures
        (final(n)@, counted(r)) == host_added(old(n)@, alias@, host@, e@),
{
    if !is_alias_form(n) {
        return add_to_list(n, alias, host, e);
    }
    n.flow = false;
    match &mut n.value {
        Value::Mapping(m) => {
            let i = ensure_key(m, "hosts");
            let ghost had = m@;
            proof {
                lemma_entry_views(had);
                assert(entry_views(had)[i as int] == (had[i as int].0@, node_view(had[i as int].1)));
            }
            let r = add_to_list(&mut m[i].1, alias, host, e);
            proof {
                lemma_entry_update(had, m@, i as int);
            }
            r
        },
        _ => Err(no_list(alias)),
    }
}

// ---- host set --------------------------------------------------------------

/// An alias's node as the mapping of its settings, its list of hosts (or one entry,
/// made a list) moved under `hosts`, so a setting can go beside them.
pub open spec fn as_form(n: NodeView) -> NodeView {
    if is_form(n) {
        NodeView { flow: false, ..n }
    } else {
        NodeView {
            value: ValueView::Mapping(
                match n.value {
                    ValueView::Null => Seq::empty(),
                    ValueView::Mapping(_) => seq![
                        ("hosts"@, bare(ValueView::List(seq![alone(n)]))),
                    ],
                    _ => seq![("hosts"@, alone(n))],
                },
            ),
            flow: false,
            ..n
        }
    }
}

/// An alias with a setting of its own, at its place or before everything.
pub open spec fn own_set(n: NodeView, key: Seq<char>, new: NodeView) -> NodeView {
    let f = as_form(n);
    let m = map_of(f);
    mapped(
        f,
        match find_key(m, key) {
            Some(i) => with_node(m, i, valued(m[i].1, new)),
            None => seq![(key, new)] + m,
        },
    )
}

fn make_form(n: &mut Node)
    ensures
        final(n)@ == as_form(old(n)@),
        final(n).value is Mapping,
{
    proof {
        reveal_with_fuel(value_view, 2);
        reveal_with_fuel(node_views, 2);
        reveal_with_fuel(entry_views, 2);
    }
    if is_alias_form(n) {
        n.flow = false;
        return;
    }
    let flow = n.flow;
    n.flow = false;
    let mut value = Value::Null;
    std::mem::swap(&mut value, &mut n.value);
    let mut m: Vec<(String, Node)> = Vec::new();
    assert(entry_views(m@) =~= Seq::empty());
    match value {
        Value::Null => {},
        Value::Mapping(single) => {
            let mut only = Node::new(Value::Mapping(single));
            only.flow = flow;
            assert(only@ =~= alone(old(n)@));
            let mut items: Vec<Node> = Vec::new();
            items.push(only);
            proof {
                lemma_node_views(items@);
                assert(node_views(items@) =~= seq![alone(old(n)@)]);
            }
            push_field(&mut m, "hosts", Node::new(Value::List(items)));
            assert(entry_views(m@) =~= seq![
                ("hosts"@, bare(ValueView::List(seq![alone(old(n)@)]))),
            ]);
        },
        list => {
            let mut hosts = Node::new(list);
            hosts.flow = flow;
            assert(hosts@ =~= alone(old(n)@));
            push_field(&mut m, "hosts", hosts);
            assert(entry_views(m@) =~= seq![("hosts"@, alone(old(n)@))]);
        },
    }
    n.value = Value::Mapping(m);
}

fn set_own(n: &mut Node, key: &str, new: Node)
    ensures
        final(n)@ == own_set(old(n)@, key@, new@),
{
    make_form(n);
    match &mut n.value {
        Value::Mapping(m) => {
            let ghost had = m@;
            proof {
                lemma_entry_views(had);
            }
            match position(m, key) {
                Some(i) => {
                    set_value(&mut m[i].1, new);
                    proof {
                        lemma_entry_update(had, m@, i as int);
                    }
                },
                None => {
                    m.insert(0, (key.to_owned(), new));
                    proof {
                        lemma_entry_views(m@);
                        assert(entry_views(m@) =~= seq![(key@, new@)] + entry_views(had));
                    }
                },
            }
        },
        _ => {},
    }
}

// ---- host remove -----------------------------------------------------------

/// The entries that are not for `host`, the comment lines above a removed one put
/// above what follows it (they are dropped with the last one).
pub open spec fn others(items: Seq<NodeView>, host: Seq<char>, lines: Seq<Seq<char>>) -> Seq<
    NodeView,
>
    decreases items.len(),
{
    if items.len() == 0 {
        Seq::empty()
    } else if host_of(items[0]) == Some(host) {
        others(items.skip(1), host, lines + items[0].before)
    } else {
        seq![below_lines(items[0], lines)] + others(items.skip(1), host, Seq::empty())
    }
}

/// A list of hosts without those for `host`: how many were removed, and whether
/// none is left.
pub open spec fn list_removed(n: NodeView, host: Seq<char>) -> (NodeView, nat, bool) {
    match n.value {
        ValueView::List(items) => {
            let left = others(items, host, Seq::empty());
            (
                NodeView { value: ValueView::List(left), ..n },
                (items.len() - left.len()) as nat,
                left.len() == 0,
            )
        },
        ValueView::Mapping(_) => (
            n,
            if host_of(n) == Some(host) {
                1
            } else {
                0
            },
            true,
        ),
        _ => (n, 0, true),
    }
}

/// An alias without the entries for `host`.
pub open spec fn host_removed(n: NodeView, host: Seq<char>) -> (NodeView, nat, bool) {
    if !is_form(n) {
        list_removed(n, host)
    } else {
        let m = map_of(n);
        match find_key(m, "hosts"@) {
            None => (n, 0, true),
            Some(i) => {
                let (l, removed, empty) = list_removed(m[i].1, host);
                (mapped(n, with_node(m, i, l)), removed, empty)
            },
        }
    }
}

proof fn lemma_others_len(items: Seq<NodeView>, host: Seq<char>, lines: Seq<Seq<char>>)
    ensures
        others(items, host, lines).len() <= items.len(),
    decreases items.len(),
{
    if items.len() > 0 {
        if host_of(items[0]) == Some(host) {
            lemma_others_len(items.skip(1), host, lines + items[0].before);
        } else {
            lemma_others_len(items.skip(1), host, Seq::empty());
        }
    }
}

fn remove_items(items: &mut Vec<Node>, host: &str)
    ensures
        node_views(final(items)@) == others(node_views(old(items)@), host@, Seq::empty()),
{
    let mut left: Vec<Node> = Vec::new();
    let mut lines: Vec<String> = Vec::new();
    let ghost want = others(node_views(items@), host@, Seq::empty());
    proof {
        assert(texts(lines@) =~= Seq::empty());
        assert(node_views(left@) =~= Seq::empty());
        assert(Seq::<NodeView>::empty() + want =~= want);
    }
    while items.len() > 0
        invariant
            want == node_views(left@) + others(node_views(items@), host@, texts(lines@)),
        decreases items.len(),
    {
        let ghost all = items@;
        let mut first = items.remove(0);
        proof {
            lemma_node_views(all);
            lemma_node_views(items@);
            assert(node_views(all)[0] == first@);
            assert(node_views(all).skip(1) =~= node_views(items@));
        }
        if is_entry_for(&first, host) {
            let ghost had = texts(lines@);
            lines.append(&mut first.before);
            assert(texts(lines@) =~= had + node_views(all)[0].before);
        } else {
            let mut above: Vec<String> = Vec::new();
            std::mem::swap(&mut above, &mut lines);
            let ghost had = left@;
            let ghost done = node_views(had);
            let ghost rest = others(node_views(items@), host@, Seq::empty());
            put_above(&mut first, above);
            let ghost kept = first@;
            left.push(first);
            proof {
                assert(left@.drop_last() =~= had);
                assert(node_views(left@) =~= done.push(kept));
                assert(texts(lines@) =~= Seq::empty());
                assert(done + (seq![kept] + rest) =~= done.push(kept) + rest);
            }
        }
    }
    proof {
        lemma_node_views(items@);
        assert(others(node_views(items@), host@, texts(lines@)) =~= Seq::empty());
        assert(node_views(left@) + Seq::<NodeView>::empty() =~= node_views(left@));
    }
    *items = left;
}

fn remove_from_list(n: &mut Node, host: &str) -> (r: (usize, bool))
    ensures
        (final(n)@, r.0 as nat, r.1) == list_removed(old(n)@, host@),
{
    let single = is_entry_for(n, host);
    match &mut n.value {
        Value::List(items) => {
            let before: usize = items.len();
            proof {
                lemma_node_views(items@);
                lemma_others_len(node_views(items@), host@, Seq::empty());
            }
            remove_items(items, host);
            proof {
                lemma_node_views(items@);
            }
            (before - items.len(), items.len() == 0)
        },
        Value::Mapping(_) => (
            if single {
                1
            } else {
                0
            },
            true,
        ),
        _ => (0, true),
    }
}

fn remove_host(n: &mut Node, host: &str) -> (r: (usize, bool))
    ensures
        (final(n)@, r.0 as nat, r.1) == host_removed(old(n)@, host@),
{
    if !is_alias_form(n) {
        return remove_from_list(n, host);
    }
    match &mut n.value {
        Value::Mapping(m) => match position(m, "hosts") {
            None => (0, true),
            Some(i) => {
                let ghost had = m@;
                proof {
                    lemma_entry_views(had);
                    assert(entry_views(had)[i as int] == (had[i as int].0@, node_view(had[i as int].1)));
                }
                let r = remove_from_list(&mut m[i].1, host);
                proof {
                    lemma_entry_update(had, m@, i as int);
                }
                r
            },
        },
        _ => (0, true),
    }
}

// ---- host unset ------------------------------------------------------------

/// The keys below `n` that something is set to.
pub open spec fn keys_left(m: Seq<(Seq<char>, NodeView)>, n: int) -> Seq<Seq<char>>
    decreases n,
{
    if n <= 0 {
        Seq::empty()
    } else if m[n - 1].1.value is Null {
        keys_left(m, n - 1)
    } else {
        keys_left(m, n - 1).push(m[n - 1].0)
    }
}

/// Two comments behind a value, in one.
pub open spec fn both_comments(a: Option<Seq<char>>, b: Option<Seq<char>>) -> Option<Seq<char>> {
    match (a, b) {
        (Some(x), Some(y)) => Some(x + " "@ + y),
        (Some(x), None) => Some(x),
        (None, y) => y,
    }
}

/// An alias back as the plain list of its hosts. The comments of the `hosts:` line
/// move with its value, or they would be dropped with the line: the lines above it go
/// above the alias, and its trailing comment joins the alias's own.
pub open spec fn collapsed(n: NodeView, hosts: NodeView) -> NodeView {
    NodeView {
        value: hosts.value,
        flow: hosts.flow,
        before: n.before + hosts.before,
        comment: both_comments(n.comment, hosts.comment),
        ..n
    }
}

/// An alias without a setting of its own, and whether nothing is left of it; `None`
/// if it has no such setting.
pub open spec fn own_unset(n: NodeView, key: Seq<char>) -> Option<(NodeView, bool)> {
    if !is_form(n) {
        None
    } else {
        match find_key(map_of(n), key) {
            None => None,
            Some(k) => {
                let m = without(map_of(n), k);
                let left = keys_left(m, m.len() as int);
                if left.len() == 0 {
                    Some((mapped(n, m), true))
                } else if left == seq!["hosts"@] {
                    match find_key(m, "hosts"@) {
                        Some(i) => Some((collapsed(n, m[i].1), false)),
                        None => Some((mapped(n, m), false)),
                    }
                } else {
                    Some((mapped(n, m), false))
                }
            },
        }
    }
}

fn left_in(m: &Vec<(String, Node)>) -> (left: Vec<String>)
    ensures
        texts(left@) == keys_left(entry_views(m@), m@.len() as int),
{
    let mut left: Vec<String> = Vec::new();
    assert(texts(left@) =~= Seq::empty());
    for i in 0..m.len()
        invariant
            texts(left@) == keys_left(entry_views(m@), i as int),
    {
        proof {
            lemma_entry_views(m@);
            assert(entry_views(m@)[i as int] == (m@[i as int].0@, node_view(m@[i as int].1)));
        }
        if !m[i].1.value.is_null() {
            let ghost had = left@;
            left.push(m[i].0.clone());
            assert(texts(left@) =~= texts(had).push(m@[i as int].0@));
        }
    }
    left
}

fn collapse(n: &mut Node, hosts: Node)
    ensures
        final(n)@ == collapsed(old(n)@, hosts@),
{
    let mut hosts = hosts;
    let ghost h = hosts@;
    n.flow = hosts.flow;
    n.before.append(&mut hosts.before);
    assert(texts(n.before@) =~= texts(old(n).before@) + h.before);
    let mut mine: Option<String> = None;
    std::mem::swap(&mut mine, &mut n.comment);
    n.comment = match (mine, hosts.comment) {
        (Some(a), Some(b)) => {
            let mut s = a;
            s.append(" ");
            s.append(&b);
            Some(s)
        },
        (Some(a), None) => Some(a),
        (None, b) => b,
    };
    n.value = hosts.value;
}

/// Remove a setting of an alias's own; whether nothing is left of the alias, or
/// `None` if it has no such setting.
fn unset_own(n: &mut Node, key: &str) -> (r: Option<bool>)
    ensures
        match r {
            None => own_unset(old(n)@, key@) is None && final(n)@ == old(n)@,
            Some(emptied) => own_unset(old(n)@, key@) == Some((final(n)@, emptied)),
        },
{
    if !is_alias_form(n) {
        return None;
    }
    let mut hosts: Option<Node> = None;
    match &mut n.value {
        Value::Mapping(m) => {
            let k = match position(m, key) {
                None => {
                    return None;
                },
                Some(k) => k,
            };
            remove_entry(m, k);
            let left = left_in(m);
            let ghost keys = texts(left@);
            proof {
                lemma_entry_views(m@);
                assert(keys.len() == left@.len());
            }
            if left.len() == 0 {
                return Some(true);
            }
            assert(keys[0] == left@[0]@);
            if left.len() == 1 && same(&left[0], "hosts") {
                assert(keys =~= seq!["hosts"@]);
                if let Some(i) = position(m, "hosts") {
                    proof {
                        assert(entry_views(m@)[i as int] == (
                            m@[i as int].0@,
                            node_view(m@[i as int].1),
                        ));
                    }
                    let (_, list) = m.remove(i);
                    hosts = Some(list);
                }
            } else if left.len() == 1 {
                assert(seq!["hosts"@][0] == "hosts"@);
                assert(keys != seq!["hosts"@]);
            }
        },
        _ => {},
    }
    if let Some(list) = hosts {
        collapse(n, list);
    }
    Some(false)
}

// ---- the edits -------------------------------------------------------------

/// What is said of an added host.
pub open spec fn added_said(
    host: Seq<char>,
    user: Option<Seq<char>>,
    alias: Seq<char>,
    key: Option<Seq<char>>,
    n: nat,
) -> Seq<char> {
    added_text(
        match user {
            Some(u) => u + "@"@ + host,
            None => host,
        },
        alias,
        if n == 1 {
            "its only host"@
        } else {
            "host "@ + dec(n)
        },
        match key {
            Some(k) => ", with identity_file "@ + k,
            None => Seq::empty(),
        },
    )
}

/// The root's mapping with the aliases ready for one more: `aliases` is added
/// empty if it is missing, and is no longer written on one line.
pub open spec fn ready(m: Seq<(Seq<char>, NodeView)>) -> (Seq<(Seq<char>, NodeView)>, int) {
    let (m1, hi) = with_key(m, "aliases"@);
    let hosts = NodeView {
        value: if m1[hi].1.value is Null {
            ValueView::Mapping(Seq::empty())
        } else {
            m1[hi].1.value
        },
        flow: false,
        ..m1[hi].1
    };
    (with_node(m1, hi, hosts), hi)
}

/// The root's mapping with an alias in it, `aliases` and the alias added empty where
/// they are missing: the mapping, where `aliases` is in it, the aliases, and where
/// the alias is in them. `Err` is the mapping where `aliases` holds no aliases.
pub open spec fn with_alias(m: Seq<(Seq<char>, NodeView)>, alias: Seq<char>) -> Result<
    (Seq<(Seq<char>, NodeView)>, int, Seq<(Seq<char>, NodeView)>, int),
    Seq<(Seq<char>, NodeView)>,
> {
    let (m1, hi) = ready(m);
    match m1[hi].1.value {
        ValueView::Mapping(am) => {
            let (am1, ai) = with_key(am, alias);
            Ok((m1, hi, am1, ai))
        },
        _ => Err(m1),
    }
}

/// The root's mapping with the aliases at `hi` replaced.
pub open spec fn with_aliases(
    m: Seq<(Seq<char>, NodeView)>,
    hi: int,
    am: Seq<(Seq<char>, NodeView)>,
) -> Seq<(Seq<char>, NodeView)> {
    with_node(m, hi, mapped(m[hi].1, am))
}

/// The root's mapping with the aliases at `hi` replaced, or without `aliases` if
/// none is left.
pub open spec fn with_aliases_left(
    m: Seq<(Seq<char>, NodeView)>,
    hi: int,
    am: Seq<(Seq<char>, NodeView)>,
) -> Seq<(Seq<char>, NodeView)> {
    let m1 = with_aliases(m, hi, am);
    if am.len() == 0 {
        without(m1, hi)
    } else {
        m1
    }
}

/// Where an alias is: where `aliases` is in the root's mapping, and where the alias
/// is in them.
pub open spec fn alias_at(m: Seq<(Seq<char>, NodeView)>, alias: Seq<char>) -> Option<(int, int)> {
    match find_key(m, "aliases"@) {
        None => None,
        Some(hi) => match m[hi].1.value {
            ValueView::Mapping(am) => match find_key(am, alias) {
                None => None,
                Some(ai) => Some((hi, ai)),
            },
            _ => None,
        },
    }
}

/// `set`, on the root's mapping.
pub open spec fn after_set(m: Seq<(Seq<char>, NodeView)>, key: Seq<char>, new: NodeView) -> (
    Seq<(Seq<char>, NodeView)>,
    Result<Seq<char>, Seq<char>>,
) {
    (set_in(m, key, new), Ok(set_to_text(key, value_shown(new))))
}

/// `unset`, on the root's mapping.
pub open spec fn after_unset(m: Seq<(Seq<char>, NodeView)>, key: Seq<char>) -> (
    Seq<(Seq<char>, NodeView)>,
    Result<Seq<char>, Seq<char>>,
) {
    match find_key(m, key) {
        None => (m, Err(not_set_text(key))),
        Some(i) => (without(m, i), Ok(removed_key_text(key))),
    }
}

/// `host add`, on the root's mapping.
pub open spec fn after_host_add(
    m: Seq<(Seq<char>, NodeView)>,
    alias: Seq<char>,
    host: Seq<char>,
    user: Option<Seq<char>>,
    key: Option<Seq<char>>,
    entry: NodeView,
) -> (Seq<(Seq<char>, NodeView)>, Result<Seq<char>, Seq<char>>) {
    match with_alias(m, alias) {
        Err(m1) => (m1, Err(NO_ALIASES@)),
        Ok((m1, hi, am, ai)) => {
            let (n, r) = host_added(am[ai].1, alias, host, entry);
            (
                with_aliases(m1, hi, with_node(am, ai, n)),
                match r {
                    Ok(count) => Ok(added_said(host, user, alias, key, count)),
                    Err(e) => Err(e),
                },
            )
        },
    }
}

/// `host set`, on the root's mapping.
pub open spec fn after_host_set(
    m: Seq<(Seq<char>, NodeView)>,
    alias: Seq<char>,
    key: Seq<char>,
    new: NodeView,
) -> (Seq<(Seq<char>, NodeView)>, Result<Seq<char>, Seq<char>>) {
    match with_alias(m, alias) {
        Err(m1) => (m1, Err(NO_ALIASES@)),
        Ok((m1, hi, am, ai)) => (
            with_aliases(m1, hi, with_node(am, ai, own_set(am[ai].1, key, new))),
            Ok(set_of_text(key, alias, value_shown(new))),
        ),
    }
}

/// `host unset`, on the root's mapping.
pub open spec fn after_host_unset(
    m: Seq<(Seq<char>, NodeView)>,
    alias: Seq<char>,
    key: Seq<char>,
) -> (Seq<(Seq<char>, NodeView)>, Result<Seq<char>, Seq<char>>) {
    match alias_at(m, alias) {
        None => (m, Err(not_set_of_text(key, alias))),
        Some((hi, ai)) => {
            let am = map_of(m[hi].1);
            match own_unset(am[ai].1, key) {
                None => (m, Err(not_set_of_text(key, alias))),
                Some((n, true)) => (
                    with_aliases_left(m, hi, without(with_node(am, ai, n), ai)),
                    Ok(removed_with_alias_text(key, alias)),
                ),
                Some((n, false)) => (
                    with_aliases(m, hi, with_node(am, ai, n)),
                    Ok(removed_of_text(key, alias)),
                ),
            }
        },
    }
}

/// `host remove`, on the root's mapping.
pub open spec fn after_host_remove(
    m: Seq<(Seq<char>, NodeView)>,
    alias: Seq<char>,
    host: Option<Seq<char>>,
) -> (Seq<(Seq<char>, NodeView)>, Result<Seq<char>, Seq<char>>) {
    match alias_at(m, alias) {
        None => (m, Err(no_alias_text(alias))),
        Some((hi, ai)) => {
            let am = map_of(m[hi].1);
            match host {
                None => (
                    with_aliases_left(m, hi, without(am, ai)),
                    Ok(removed_alias_text(alias)),
                ),
                Some(h) => {
                    let (n, count, empty) = host_removed(am[ai].1, h);
                    let am1 = with_node(am, ai, n);
                    if count == 0 {
                        (with_aliases(m, hi, am1), Err(no_host_of_text(h, alias)))
                    } else if empty {
                        (
                            with_aliases_left(m, hi, without(am1, ai)),
                            Ok(removed_last_text(h, alias)),
                        )
                    } else {
                        (with_aliases_left(m, hi, am1), Ok(removed_host_text(h, alias)))
                    }
                },
            }
        },
    }
}

/// An edit of the root's mapping, in the document.
pub open spec fn in_root(
    d: DocView,
    e: (Seq<(Seq<char>, NodeView)>, Result<Seq<char>, Seq<char>>),
) -> (DocView, Result<Seq<char>, Seq<char>>) {
    (with_map(d, e.0), e.1)
}

/// What the root's mapping becomes under an edit whose arguments are sound.
pub open spec fn map_edited(
    m: Seq<(Seq<char>, NodeView)>,
    cmd: CmdView,
    new: NodeView,
) -> (Seq<(Seq<char>, NodeView)>, Result<Seq<char>, Seq<char>>) {
    match cmd {
        CmdView::SetTo(key, _) => after_set(m, key, new),
        CmdView::Unset(key) => after_unset(m, key),
        CmdView::HostAdd { alias, host, user, identity_file, .. } => after_host_add(
            m,
            alias,
            host,
            user,
            identity_file,
            new,
        ),
        CmdView::HostSet { alias, key, .. } => after_host_set(m, alias, key, new),
        CmdView::HostUnset { alias, key } => after_host_unset(m, alias, key),
        CmdView::HostRemove { alias, host } => after_host_remove(m, alias, host),
        _ => (m, Err(Seq::empty())),
    }
}

/// The node that an edit puts in, or what is wrong with its arguments.
pub open spec fn new_node(cmd: CmdView) -> Result<NodeView, Seq<char>> {
    match cmd {
        CmdView::SetTo(key, value) => if !is_setting(key) {
            Err(unknown_key_text(key))
        } else {
            typed_as(key, value)
        },
        CmdView::Unset(key) => if !is_setting(key) {
            Err(unknown_key_text(key))
        } else {
            Ok(bare(ValueView::Null))
        },
        CmdView::HostAdd { alias, host, user, check, identity_file, prefer, persist } => if !good_alias(
            alias,
        ) {
            Err(bad_alias_text(alias))
        } else {
            Ok(
                bare(
                    ValueView::Mapping(
                        entry_fields(
                            host,
                            user,
                            identity_file,
                            check,
                            prefer,
                            if persist {
                                Some(true)
                            } else {
                                None
                            },
                        ),
                    ),
                ),
            )
        },
        CmdView::HostSet { alias, key, value } => if !good_alias(alias) {
            Err(bad_alias_text(alias))
        } else {
            typed_as(key, value)
        },
        _ => Ok(bare(ValueView::Null)),
    }
}

/// A document after an edit, and what was done or why it was not.
pub open spec fn edited(d: DocView, cmd: CmdView) -> (DocView, Result<Seq<char>, Seq<char>>) {
    match new_node(cmd) {
        Err(e) => (d, Err(e)),
        Ok(new) => {
            let d1 = rooted(d);
            match d1.root.value {
                ValueView::Mapping(m) => in_root(d1, map_edited(m, cmd, new)),
                _ => (d1, Err(NO_SETTINGS@)),
            }
        },
    }
}

fn unset(map: &mut Vec<(String, Node)>, key: &str) -> (r: Result<String, String>)
    ensures
        (entry_views(final(map)@), res_text(r)) == after_unset(entry_views(old(map)@), key@),
{
    match position(map, key) {
        None => Err(not_set(key)),
        Some(i) => {
            remove_entry(map, i);
            Ok(removed_key(key))
        },
    }
}

/// The `aliases` of the root's mapping, created if missing.
fn ensure_aliases(map: &mut Vec<(String, Node)>) -> (hi: usize)
    ensures
        (entry_views(final(map)@), hi as int) == ready(entry_views(old(map)@)),
        hi < final(map)@.len(),
{
    let hi = ensure_key(map, "aliases");
    let ghost had = map@;
    proof {
        lemma_entry_views(had);
        assert(entry_views(had)[hi as int] == (had[hi as int].0@, node_view(had[hi as int].1)));
    }
    if map[hi].1.value.is_null() {
        map[hi].1.value = Value::Mapping(Vec::new());
        assert(entry_views(Seq::<(String, Node)>::empty()) =~= Seq::empty());
    }
    map[hi].1.flow = false;
    proof {
        lemma_entry_update(had, map@, hi as int);
    }
    hi
}

fn host_add(
    map: &mut Vec<(String, Node)>,
    alias: &str,
    host: &str,
    user: &Option<String>,
    identity_file: &Option<String>,
    entry: Node,
) -> (r: Result<String, String>)
    ensures
        (entry_views(final(map)@), res_text(r)) == after_host_add(
            entry_views(old(map)@),
            alias@,
            host@,
            opt_text(*user),
            opt_text(*identity_file),
            entry@,
        ),
{
    let hi = ensure_aliases(map);
    let ghost had = map@;
    proof {
        lemma_entry_views(had);
        assert(entry_views(had)[hi as int] == (had[hi as int].0@, node_view(had[hi as int].1)));
    }
    match &mut map[hi].1.value {
        Value::Mapping(am) => {
            let ai = ensure_key(am, alias);
            let ghost had_am = am@;
            proof {
                lemma_entry_views(had_am);
                assert(entry_views(had_am)[ai as int] == (
                    had_am[ai as int].0@,
                    node_view(had_am[ai as int].1),
                ));
            }
            let r = add_host(&mut am[ai].1, alias, host, entry);
            proof {
                lemma_entry_update(had_am, am@, ai as int);
            }
            let said = match r {
                Ok(n) => Ok(say_added(host, user, alias, identity_file, n)),
                Err(e) => Err(e),
            };
            proof {
                lemma_entry_update(had, map@, hi as int);
            }
            said
        },
        _ => {
            assert(map@ =~= had);
            Err(NO_ALIASES.to_owned())
        },
    }
}

fn say_added(
    host: &str,
    user: &Option<String>,
    alias: &str,
    key: &Option<String>,
    n: usize,
) -> (s: String)
    ensures
        s@ == added_said(host@, opt_text(*user), alias@, opt_text(*key), n as nat),
{
    let dest = match user {
        Some(u) => {
            let mut s = u.clone();
            s.append("@");
            s.append(host);
            s
        },
        None => host.to_owned(),
    };
    let place = if n == 1 {
        "its only host".to_owned()
    } else {
        let mut s = "host ".to_owned();
        s.append(&decimal(n as u64));
        s
    };
    let with = match key {
        Some(k) => {
            let mut s = ", with identity_file ".to_owned();
            s.append(k);
            s
        },
        None => String::new(),
    };
    added(&dest, alias, &place, &with)
}

fn host_set(map: &mut Vec<(String, Node)>, alias: &str, key: &str, new: Node) -> (r: Result<
    String,
    String,
>)
    ensures
        (entry_views(final(map)@), res_text(r)) == after_host_set(
            entry_views(old(map)@),
            alias@,
            key@,
            new@,
        ),
{
    let shown = value_text(&new);
    let hi = ensure_aliases(map);
    let ghost had = map@;
    proof {
        lemma_entry_views(had);
        assert(entry_views(had)[hi as int] == (had[hi as int].0@, node_view(had[hi as int].1)));
    }
    match &mut map[hi].1.value {
        Value::Mapping(am) => {
            let ai = ensure_key(am, alias);
            let ghost had_am = am@;
            proof {
                lemma_entry_views(had_am);
                assert(entry_views(had_am)[ai as int] == (
                    had_am[ai as int].0@,
                    node_view(had_am[ai as int].1),
                ));
            }
            set_own(&mut am[ai].1, key, new);
            proof {
                lemma_entry_update(had_am, am@, ai as int);
                lemma_entry_update(had, map@, hi as int);
            }
            Ok(set_of(key, alias, &shown))
        },
        _ => {
            assert(map@ =~= had);
            Err(NO_ALIASES.to_owned())
        },
    }
}

/// Where an alias is.
fn find_alias(map: &Vec<(String, Node)>, alias: &str) -> (r: Option<(usize, usize)>)
    ensures
        match r {
            None => alias_at(entry_views(map@), alias@) is None,
            Some((hi, ai)) => {
                &&& alias_at(entry_views(map@), alias@) == Some((hi as int, ai as int))
                &&& hi < map@.len()
                &&& map@[hi as int].1.value is Mapping
                &&& ai < map@[hi as int].1.value->Mapping_0@.len()
            },
        },
{
    match position(map, "aliases") {
        None => None,
        Some(hi) => {
            proof {
                lemma_entry_views(map@);
                assert(entry_views(map@)[hi as int] == (
                    map@[hi as int].0@,
                    node_view(map@[hi as int].1),
                ));
            }
            match &map[hi].1.value {
                Value::Mapping(am) => match position(am, alias) {
                    None => None,
                    Some(ai) => Some((hi, ai)),
                },
                _ => None,
            }
        },
    }
}

fn host_unset(map: &mut Vec<(String, Node)>, alias: &str, key: &str) -> (r: Result<String, String>)
    ensures
        (entry_views(final(map)@), res_text(r)) == after_host_unset(
            entry_views(old(map)@),
            alias@,
            key@,
        ),
{
    let (hi, ai) = match find_alias(map, alias) {
        None => {
            return Err(not_set_of(key, alias));
        },
        Some(at) => at,
    };
    let ghost had = map@;
    let mut gone = false;
    let mut none_left = false;
    proof {
        lemma_entry_views(had);
        assert(entry_views(had)[hi as int] == (had[hi as int].0@, node_view(had[hi as int].1)));
    }
    match &mut map[hi].1.value {
        Value::Mapping(am) => {
            let ghost had_am = am@;
            proof {
                lemma_entry_views(had_am);
                assert(entry_views(had_am)[ai as int] == (
                    had_am[ai as int].0@,
                    node_view(had_am[ai as int].1),
                ));
            }
            match unset_own(&mut am[ai].1, key) {
                None => {
                    proof {
                        lemma_entry_update(had_am, am@, ai as int);
                        assert(entry_views(am@) =~= entry_views(had_am));
                    }
                    proof {
                        lemma_entry_update(had, map@, hi as int);
                        assert(entry_views(map@) =~= entry_views(had));
                    }
                    return Err(not_set_of(key, alias));
                },
                Some(emptied) => {
                    gone = emptied;
                    proof {
                        lemma_entry_update(had_am, am@, ai as int);
                    }
                },
            }
            if gone {
                remove_entry(am, ai);
                none_left = am.len() == 0;
            }
            proof {
                lemma_entry_views(am@);
            }
        },
        _ => {},
    }
    proof {
        lemma_entry_update(had, map@, hi as int);
    }
    if gone {
        if none_left {
            remove_entry(map, hi);
        }
        Ok(removed_with_alias(key, alias))
    } else {
        Ok(removed_of(key, alias))
    }
}

fn host_remove(map: &mut Vec<(String, Node)>, alias: &str, host: &Option<String>) -> (r: Result<
    String,
    String,
>)
    ensures
        (entry_views(final(map)@), res_text(r)) == after_host_remove(
            entry_views(old(map)@),
            alias@,
            opt_text(*host),
        ),
{
    let (hi, ai) = match find_alias(map, alias) {
        None => {
            return Err(no_alias(alias));
        },
        Some(at) => at,
    };
    let ghost had = map@;
    let mut none_left = false;
    let mut msg = String::new();
    proof {
        lemma_entry_views(had);
        assert(entry_views(had)[hi as int] == (had[hi as int].0@, node_view(had[hi as int].1)));
    }
    match &mut map[hi].1.value {
        Value::Mapping(am) => {
            let ghost had_am = am@;
            proof {
                lemma_entry_views(had_am);
                assert(entry_views(had_am)[ai as int] == (
                    had_am[ai as int].0@,
                    node_view(had_am[ai as int].1),
                ));
            }
            match host {
                None => {
                    remove_entry(am, ai);
                    msg = removed_alias(alias);
                },
                Some(h) => {
                    let (count, empty) = remove_host(&mut am[ai].1, h);
                    proof {
                        lemma_entry_update(had_am, am@, ai as int);
                    }
                    if count == 0 {
                        proof {
                            lemma_entry_update(had, map@, hi as int);
                        }
                        return Err(no_host_of(h, alias));
                    }
                    if empty {
                        remove_entry(am, ai);
                        msg = removed_last(h, alias);
                    } else {
                        msg = removed_host(h, alias);
                    }
                },
            }
            none_left = am.len() == 0;
            proof {
                lemma_entry_views(am@);
            }
        },
        _ => {},
    }
    proof {
        lemma_entry_update(had, map@, hi as int);
    }
    if none_left {
        remove_entry(map, hi);
    }
    Ok(msg)
}

/// The node that an edit puts in, its arguments checked.
fn node_for(cmd: &Cmd) -> (r: Result<Node, String>)
    ensures
        match r {
            Ok(n) => new_node(cmd@) == Ok::<NodeView, Seq<char>>(n@),
            Err(e) => new_node(cmd@) == Err::<NodeView, Seq<char>>(e@),
        },
{
    match cmd {
        Cmd::SetTo(key, value) => {
            if !super::setting(key) {
                return Err(unknown_key(key));
            }
            typed(key, value)
        },
        Cmd::Unset(key) => {
            if !super::setting(key) {
                return Err(unknown_key(key));
            }
            Ok(Node::new(Value::Null))
        },
        Cmd::HostAdd { alias, host, user, check, identity_file, prefer, persist } => {
            validate_alias(alias)?;
            let persists = if *persist {
                Some(true)
            } else {
                None
            };
            Ok(
                Node::new(
                    Value::Mapping(
                        entry_map(host, user, identity_file, *check, *prefer, persists),
                    ),
                ),
            )
        },
        Cmd::HostSet { alias, key, value } => {
            validate_alias(alias)?;
            typed(key, value)
        },
        _ => Ok(Node::new(Value::Null)),
    }
}

/// Apply an edit to `doc`; returns what was done. Where it cannot be done, the
/// document holds what was already prepared for it, and is not to be saved.
pub fn edit(doc: &mut Document, cmd: &Cmd) -> (r: Result<String, String>)
    requires
        super::is_edit(cmd@),
    ensures
        (final(doc)@, res_text(r)) == edited(old(doc)@, cmd@),
{
    let new = node_for(cmd)?;
    root(doc);
    let ghost d = doc@;
    match &mut doc.root.value {
        Value::Mapping(m) => match cmd {
            Cmd::SetTo(key, _) => {
                let shown = value_text(&new);
                set_entry(m, key, new);
                Ok(set_to(key, &shown))
            },
            Cmd::Unset(key) => unset(m, key),
            Cmd::HostAdd { alias, host, user, identity_file, .. } => host_add(
                m,
                alias,
                host,
                user,
                identity_file,
                new,
            ),
            Cmd::HostSet { alias, key, .. } => host_set(m, alias, key, new),
            Cmd::HostUnset { alias, key } => host_unset(m, alias, key),
            Cmd::HostRemove { alias, host } => host_remove(m, alias, host),
            _ => Err(String::new()),
        },
        _ => Err(NO_SETTINGS.to_owned()),
    }
}

} // verus!
