//! One file's values: settings, host entries, and an alias's parts.

use crate::config::duration::{duration_in, parse_duration};
use crate::config::{
    opt_said, opt_said_text, HostEntry, HostView, Origin, OriginView, Said, Setting, HOST_KEYS,
};
use crate::netmatch::{net_of, LocalNet};
use crate::safe::{is_control, is_control_char};
use crate::text::{
    chars_of, dec, decimal, is_white, lower_char, same, split, split_at_char, string_of, to_lower_char, trim_chars, trimmed, views, white,
};
use crate::yaml::{
    entry_views, kind_of, lemma_entry_views, lemma_node_views, node_view, node_views, opt_text,
    Node, NodeView, Style, Value, ValueView,
};
use vstd::prelude::*;

verus! {

/// `s` with its ASCII letters in lower case.
pub open spec fn lowered(s: Seq<char>) -> Seq<char> {
    s.map_values(|c: char| lower_char(c))
}

fn lower(s: &str) -> (r: String)
    ensures
        r@ == lowered(s@),
{
    let v = chars_of(s);
    let mut r = String::new();
    assert(r@ =~= lowered(s@.take(0)));
    for i in 0..v.len()
        invariant
            v@ == s@,
            r@ == lowered(s@.take(i as int)),
    {
        r.push(to_lower_char(v[i]));
        assert(r@ =~= lowered(s@.take(i + 1)));
    }
    assert(s@.take(s@.len() as int) =~= s@);
    r
}

/// What text says in any case: true, false, or neither.
pub open spec fn truth(s: Seq<char>) -> Option<bool> {
    if lowered(s) == "true"@ {
        Some(true)
    } else if lowered(s) == "false"@ {
        Some(false)
    } else {
        None
    }
}

/// Whether text says true or false, in any case.
pub fn read_truth(s: &str) -> (r: Option<bool>)
    ensures
        r == truth(s@),
{
    let l = lower(s);
    if same(&l, "true") {
        Some(true)
    } else if same(&l, "false") {
        Some(false)
    } else {
        None
    }
}

pub open spec fn not_truth_text(text: Seq<char>) -> Seq<char> {
    "expected true or false, found '"@ + text + "'"@
}

fn not_truth(text: &str) -> (s: String)
    ensures
        s@ == not_truth_text(text@),
{
    let mut s = "expected true or false, found '".to_owned();
    s.append(text);
    s.append("'");
    s
}

pub open spec fn not_truth_string_text(text: Seq<char>) -> Seq<char> {
    "expected true or false, found the string \""@ + text + "\""@
}

fn not_truth_string(text: &str) -> (s: String)
    ensures
        s@ == not_truth_string_text(text@),
{
    let mut s = "expected true or false, found the string \"".to_owned();
    s.append(text);
    s.append("\"");
    s
}

pub open spec fn not_truth_kind_text(kind: Seq<char>) -> Seq<char> {
    "expected true or false, found "@ + kind
}

fn not_truth_kind(kind: &str) -> (s: String)
    ensures
        s@ == not_truth_kind_text(kind@),
{
    let mut s = "expected true or false, found ".to_owned();
    s.append(kind);
    s
}

/// `true` or `false` (any case), written plainly.
pub open spec fn bool_in(v: ValueView) -> Result<bool, Seq<char>> {
    match v {
        ValueView::Scalar { text, style } => if style is Plain {
            match truth(text) {
                Some(b) => Ok(b),
                None => Err(not_truth_text(text)),
            }
        } else {
            Err(not_truth_string_text(text))
        },
        _ => Err(not_truth_kind_text(kind_of(v))),
    }
}

/// A result as its view.
pub open spec fn res<T>(r: Result<T, String>) -> Result<T, Seq<char>> {
    match r {
        Ok(v) => Ok(v),
        Err(e) => Err(e@),
    }
}

pub open spec fn res_text(r: Result<String, String>) -> Result<Seq<char>, Seq<char>> {
    match r {
        Ok(v) => Ok(v@),
        Err(e) => Err(e@),
    }
}

/// `true` or `false` (any case).
pub fn bool_value(n: &Node) -> (r: Result<bool, String>)
    ensures
        res(r) == bool_in(n@.value),
{
    match &n.value {
        Value::Scalar(s) => {
            if s.style == Style::Plain {
                match read_truth(&s.text) {
                    Some(b) => Ok(b),
                    None => Err(not_truth(&s.text)),
                }
            } else {
                Err(not_truth_string(&s.text))
            }
        },
        other => Err(not_truth_kind(other.kind())),
    }
}

pub open spec fn not_duration_kind_text(kind: Seq<char>) -> Seq<char> {
    "expected a duration such as 500ms or 2s, found "@ + kind
}

fn not_duration_kind(kind: &str) -> (s: String)
    ensures
        s@ == not_duration_kind_text(kind@),
{
    let mut s = "expected a duration such as 500ms or 2s, found ".to_owned();
    s.append(kind);
    s
}

/// A duration setting's value.
pub open spec fn duration_value_in(key: Seq<char>, v: ValueView) -> Result<u64, Seq<char>> {
    match v {
        ValueView::Scalar { text, .. } => duration_in(key, text),
        _ => Err(not_duration_kind_text(kind_of(v))),
    }
}

/// A duration setting's node: see [`parse_duration`].
pub fn duration_value(key: &str, n: &Node) -> (r: Result<u64, String>)
    ensures
        res(r) == duration_value_in(key@, n@.value),
{
    match &n.value {
        Value::Scalar(s) => parse_duration(key, &s.text),
        other => Err(not_duration_kind(other.kind())),
    }
}

pub open spec fn not_network_kind_text(kind: Seq<char>) -> Seq<char> {
    "expected a network such as 172.16.0.0/16, found "@ + kind
}

fn not_network_kind(kind: &str) -> (s: String)
    ensures
        s@ == not_network_kind_text(kind@),
{
    let mut s = "expected a network such as 172.16.0.0/16, found ".to_owned();
    s.append(kind);
    s
}

pub open spec fn not_networks_kind_text(kind: Seq<char>) -> Seq<char> {
    "expected a list of networks such as [172.16.0.0/16, fd00::/48], found "@ + kind
}

fn not_networks_kind(kind: &str) -> (s: String)
    ensures
        s@ == not_networks_kind_text(kind@),
{
    let mut s = "expected a list of networks such as [172.16.0.0/16, fd00::/48], found ".to_owned();
    s.append(kind);
    s
}

/// One network of a list.
pub open spec fn network_in(v: ValueView) -> Result<LocalNet, Seq<char>> {
    match v {
        ValueView::Scalar { text, .. } => net_of(text),
        _ => Err(not_network_kind_text(kind_of(v))),
    }
}

/// The networks of a list, or what is wrong with the first that is none.
pub open spec fn networks_in_list(items: Seq<NodeView>) -> Result<Seq<LocalNet>, Seq<char>>
    decreases items.len(),
{
    if items.len() == 0 {
        Ok(Seq::empty())
    } else {
        match networks_in_list(items.drop_last()) {
            Err(e) => Err(e),
            Ok(v) => match network_in(items.last().value) {
                Err(e) => Err(e),
                Ok(n) => Ok(v.push(n)),
            },
        }
    }
}

/// The networks between commas; what is empty is none.
pub open spec fn networks_in_parts(parts: Seq<Seq<char>>) -> Result<Seq<LocalNet>, Seq<char>>
    decreases parts.len(),
{
    if parts.len() == 0 {
        Ok(Seq::empty())
    } else {
        match networks_in_parts(parts.drop_last()) {
            Err(e) => Err(e),
            Ok(v) => {
                let t = trimmed(parts.last());
                if t.len() == 0 {
                    Ok(v)
                } else {
                    match net_of(t) {
                        Err(e) => Err(e),
                        Ok(n) => Ok(v.push(n)),
                    }
                }
            },
        }
    }
}

/// The networks that text writes, between commas.
pub open spec fn networks_in_text(s: Seq<char>) -> Result<Seq<LocalNet>, Seq<char>> {
    networks_in_parts(split(s, ','))
}

/// A host entry's `local_networks`: a list of networks, or one value holding them
/// separated by commas.
pub open spec fn networks_in(v: ValueView) -> Result<Seq<LocalNet>, Seq<char>> {
    match v {
        ValueView::List(items) => networks_in_list(items),
        ValueView::Scalar { text, .. } => networks_in_text(text),
        _ => Err(not_networks_kind_text(kind_of(v))),
    }
}

pub open spec fn res_nets(r: Result<Vec<LocalNet>, String>) -> Result<Seq<LocalNet>, Seq<char>> {
    match r {
        Ok(v) => Ok(v@),
        Err(e) => Err(e@),
    }
}

proof fn lemma_parts_err(parts: Seq<Seq<char>>, k: int)
    requires
        0 <= k <= parts.len(),
        networks_in_parts(parts.take(k)) is Err,
    ensures
        networks_in_parts(parts) == networks_in_parts(parts.take(k)),
    decreases parts.len() - k,
{
    if k < parts.len() {
        assert(parts.take(k + 1).drop_last() =~= parts.take(k));
        lemma_parts_err(parts, k + 1);
    } else {
        assert(parts.take(k) =~= parts);
    }
}

proof fn lemma_list_err(items: Seq<NodeView>, k: int)
    requires
        0 <= k <= items.len(),
        networks_in_list(items.take(k)) is Err,
    ensures
        networks_in_list(items) == networks_in_list(items.take(k)),
    decreases items.len() - k,
{
    if k < items.len() {
        assert(items.take(k + 1).drop_last() =~= items.take(k));
        lemma_list_err(items, k + 1);
    } else {
        assert(items.take(k) =~= items);
    }
}

/// Networks separated by commas, each with what blanks stand around it; no network at
/// all is an empty list.
pub fn parse_networks(text: &str) -> (r: Result<Vec<LocalNet>, String>)
    ensures
        res_nets(r) == networks_in_text(text@),
{
    let parts = split_at_char(&chars_of(text), ',');
    let ghost all = split(text@, ',');
    let mut v: Vec<LocalNet> = Vec::new();
    let mut i: usize = 0;
    assert(v@ =~= Seq::empty());
    while i < parts.len()
        invariant
            i <= parts.len(),
            all == split(text@, ','),
            views(parts@) == all,
            networks_in_parts(all.take(i as int)) == Ok::<Seq<LocalNet>, Seq<char>>(v@),
        decreases parts.len() - i,
    {
        assert(all[i as int] == parts@[i as int]@);
        assert(all.take(i + 1).drop_last() =~= all.take(i as int));
        let t = trim_chars(&parts[i]);
        if t.len() > 0 {
            let s = string_of(&t);
            match LocalNet::parse(&s) {
                Ok(n) => {
                    v.push(n);
                },
                Err(e) => {
                    proof {
                        lemma_parts_err(all, i + 1);
                    }
                    return Err(e);
                },
            }
        }
        i = i + 1;
    }
    assert(all.take(all.len() as int) =~= all);
    Ok(v)
}

fn network_list(items: &Vec<Node>) -> (r: Result<Vec<LocalNet>, String>)
    ensures
        res_nets(r) == networks_in_list(node_views(items@)),
{
    let ghost all = node_views(items@);
    let mut v: Vec<LocalNet> = Vec::new();
    let mut i: usize = 0;
    assert(v@ =~= Seq::empty());
    proof {
        lemma_node_views(items@);
    }
    while i < items.len()
        invariant
            i <= items.len(),
            all == node_views(items@),
            networks_in_list(all.take(i as int)) == Ok::<Seq<LocalNet>, Seq<char>>(v@),
        decreases items.len() - i,
    {
        proof {
            lemma_node_views(items@);
            assert(node_views(items@)[i as int] == node_view(items@[i as int]));
            assert(all.take(i + 1).drop_last() =~= all.take(i as int));
            assert(all.take(i + 1).last() == all[i as int]);
        }
        let one = match &items[i].value {
            Value::Scalar(s) => LocalNet::parse(&s.text),
            other => Err(not_network_kind(other.kind())),
        };
        match one {
            Ok(n) => {
                v.push(n);
            },
            Err(e) => {
                proof {
                    lemma_list_err(all, i + 1);
                }
                return Err(e);
            },
        }
        i = i + 1;
    }
    proof {
        lemma_node_views(items@);
        assert(all.take(all.len() as int) =~= all);
    }
    Ok(v)
}

/// A host entry's `local_networks`.
pub fn networks_value(n: &Node) -> (r: Result<Vec<LocalNet>, String>)
    ensures
        res_nets(r) == networks_in(n@.value),
{
    match &n.value {
        Value::List(items) => network_list(items),
        Value::Scalar(s) => parse_networks(&s.text),
        other => Err(not_networks_kind(other.kind())),
    }
}

pub open spec fn not_name_kind_text(kind: Seq<char>) -> Seq<char> {
    "expected a name, found "@ + kind
}

fn not_name_kind(kind: &str) -> (s: String)
    ensures
        s@ == not_name_kind_text(kind@),
{
    let mut s = "expected a name, found ".to_owned();
    s.append(kind);
    s
}

/// A name.
pub open spec fn name_in(v: ValueView) -> Result<Seq<char>, Seq<char>> {
    match v {
        ValueView::Scalar { text, .. } => if text.len() > 0 {
            Ok(text)
        } else {
            Err("expected a name, found an empty string"@)
        },
        _ => Err(not_name_kind_text(kind_of(v))),
    }
}

fn string_value(n: &Node) -> (r: Result<String, String>)
    ensures
        res_text(r) == name_in(n@.value),
{
    match &n.value {
        Value::Scalar(s) => {
            if s.text.as_str().is_empty() {
                Err("expected a name, found an empty string".to_owned())
            } else {
                Ok(s.text.clone())
            }
        },
        other => Err(not_name_kind(other.kind())),
    }
}

pub open spec fn not_path_kind_text(kind: Seq<char>) -> Seq<char> {
    "expected a file path, found "@ + kind
}

fn not_path_kind(kind: &str) -> (s: String)
    ensures
        s@ == not_path_kind_text(kind@),
{
    let mut s = "expected a file path, found ".to_owned();
    s.append(kind);
    s
}

/// No control character stands in `s`.
pub open spec fn steady(s: Seq<char>) -> bool {
    forall|i: int| 0 <= i < s.len() ==> !is_control(#[trigger] s[i])
}

fn is_steady(s: &str) -> (r: bool)
    ensures
        r == steady(s@),
{
    let v = chars_of(s);
    let mut i: usize = 0;
    while i < v.len()
        invariant
            i <= v.len(),
            v@ == s@,
            forall|k: int| 0 <= k < i ==> !is_control(#[trigger] s@[k]),
        decreases v.len() - i,
    {
        if is_control_char(v[i]) {
            assert(is_control(s@[i as int]));
            return false;
        }
        i = i + 1;
    }
    true
}

/// Where the value of a node stands.
pub open spec fn at(file: Seq<char>, n: NodeView) -> OriginView {
    OriginView { file, line: n.line }
}

pub fn origin_at(file: &str, n: &Node) -> (o: Origin)
    ensures
        o@ == at(file@, n@),
{
    Origin { file: file.to_owned(), line: n.line }
}

/// An `identity_file` value: a path, kept as written (`~` is expanded where it is
/// used); nothing for an empty value.
pub open spec fn identity_in(file: Seq<char>, n: NodeView) -> Result<
    Option<Said<Seq<char>>>,
    Seq<char>,
> {
    match n.value {
        ValueView::Null => Ok(None),
        ValueView::Scalar { text, .. } => if text.len() > 0 && steady(text) {
            Ok(Some(Said { value: text, origin: Some(at(file, n)) }))
        } else {
            Err("expected a file path, found an empty string"@)
        },
        _ => Err(not_path_kind_text(kind_of(n.value))),
    }
}

pub open spec fn res_identity(r: Result<Option<Setting<String>>, String>) -> Result<
    Option<Said<Seq<char>>>,
    Seq<char>,
> {
    match r {
        Ok(v) => Ok(opt_said_text(v)),
        Err(e) => Err(e@),
    }
}

pub fn identity_file(n: &Node, file: &str) -> (r: Result<Option<Setting<String>>, String>)
    ensures
        res_identity(r) == identity_in(file@, n@),
{
    match &n.value {
        Value::Null => Ok(None),
        Value::Scalar(s) => {
            if !s.text.as_str().is_empty() && is_steady(&s.text) {
                Ok(Some(Setting { value: s.text.clone(), origin: Some(origin_at(file, n)) }))
            } else {
                Err("expected a file path, found an empty string".to_owned())
            }
        },
        other => Err(not_path_kind(other.kind())),
    }
}

// ---- host entries ----------------------------------------------------------

/// A host name: no `@` and no spaces, and no leading `-`.
pub open spec fn good_host(s: Seq<char>) -> bool {
    (s.len() == 0 || s[0] != '-') && good_user(s)
}

/// A login name: no `@` and no spaces.
pub open spec fn good_user(s: Seq<char>) -> bool {
    forall|i: int| 0 <= i < s.len() ==> (#[trigger] s[i]) != '@' && !is_white(s[i])
}

fn is_good_user(s: &str) -> (r: bool)
    ensures
        r == good_user(s@),
{
    let v = chars_of(s);
    let mut i: usize = 0;
    while i < v.len()
        invariant
            i <= v.len(),
            v@ == s@,
            forall|k: int| 0 <= k < i ==> (#[trigger] s@[k]) != '@' && !is_white(s@[k]),
        decreases v.len() - i,
    {
        if v[i] == '@' || white(v[i]) {
            assert(s@[i as int] == v@[i as int]);
            return false;
        }
        i = i + 1;
    }
    true
}

fn is_good_host(s: &str) -> (r: bool)
    ensures
        r == good_host(s@),
{
    let v = chars_of(s);
    if v.len() > 0 && v[0] == '-' {
        return false;
    }
    is_good_user(s)
}

pub open spec fn bad_host_text(h: Seq<char>) -> Seq<char> {
    "host: bad host name '"@ + h + "' (put a login name in 'user')"@
}

fn bad_host(h: &str) -> (s: String)
    ensures
        s@ == bad_host_text(h@),
{
    let mut s = "host: bad host name '".to_owned();
    s.append(h);
    s.append("' (put a login name in 'user')");
    s
}

pub open spec fn bad_user_text(u: Seq<char>) -> Seq<char> {
    "user: bad login name '"@ + u + "'"@
}

fn bad_user(u: &str) -> (s: String)
    ensures
        s@ == bad_user_text(u@),
{
    let mut s = "user: bad login name '".to_owned();
    s.append(u);
    s.append("'");
    s
}

pub open spec fn unknown_key_text(key: Seq<char>) -> Seq<char> {
    "unknown key '"@ + key + "' in a host entry (known: "@ + HOST_KEYS@ + ")"@
}

fn unknown_key(key: &str) -> (s: String)
    ensures
        s@ == unknown_key_text(key@),
{
    let mut s = "unknown key '".to_owned();
    s.append(key);
    s.append("' in a host entry (known: ");
    s.append(HOST_KEYS);
    s.append(")");
    s
}

/// An error about a field, with its line.
pub open spec fn field_text(key: Seq<char>, line: nat, e: Seq<char>) -> Seq<char> {
    key + ": "@ + e + " (line "@ + dec(line) + ")"@
}

fn field(key: &str, line: usize, e: &str) -> (s: String)
    ensures
        s@ == field_text(key@, line as nat, e@),
{
    let mut s = key.to_owned();
    s.append(": ");
    s.append(e);
    s.append(" (line ");
    s.append(&decimal(line as u64));
    s.append(")");
    s
}

pub open spec fn not_entry_text(kind: Seq<char>) -> Seq<char> {
    "expected a host entry ('host: name', optional 'user', 'reachability_check' and 'identity_file'), found "@ + kind
}

fn not_entry(kind: &str) -> (s: String)
    ensures
        s@ == not_entry_text(kind@),
{
    let mut s = "expected a host entry ('host: name', optional 'user', 'reachability_check' and 'identity_file'), found ".to_owned();
    s.append(kind);
    s
}

/// A host entry as far as it has been read.
#[verifier::ext_equal]
pub struct DraftView {
    pub host: Option<Seq<char>>,
    pub user: Option<Seq<char>>,
    pub check: bool,
    pub prefer: bool,
    pub identity: Option<Said<Seq<char>>>,
    pub persist: Option<Said<bool>>,
    pub networks: Seq<LocalNet>,
}

/// A host entry that says nothing yet.
pub open spec fn blank() -> DraftView {
    DraftView {
        host: None,
        user: None,
        check: true,
        prefer: false,
        identity: None,
        persist: None,
        networks: Seq::empty(),
    }
}

/// One field of a host entry read.
#[verifier::opaque]
pub open spec fn with_field(d: DraftView, file: Seq<char>, key: Seq<char>, n: NodeView) -> Result<
    DraftView,
    Seq<char>,
> {
    if key == "host"@ {
        match name_in(n.value) {
            Err(e) => Err(field_text(key, n.line, e)),
            Ok(h) => if good_host(h) {
                Ok(DraftView { host: Some(h), ..d })
            } else {
                Err(bad_host_text(h))
            },
        }
    } else if key == "identity_file"@ {
        match identity_in(file, n) {
            Err(e) => Err(field_text(key, n.line, e)),
            Ok(i) => Ok(DraftView { identity: i, ..d }),
        }
    } else if key == "user"@ || key == "reachability_check"@ || key == "prefer"@ || key == "persist"@
        || key == "local_networks"@ {
        if n.value is Null {
            Ok(d)
        } else {
            with_value(d, file, key, n)
        }
    } else {
        Err(unknown_key_text(key))
    }
}

/// One field of a host entry that has a value read.
#[verifier::opaque]
pub open spec fn with_value(d: DraftView, file: Seq<char>, key: Seq<char>, n: NodeView) -> Result<
    DraftView,
    Seq<char>,
> {
    if key == "user"@ {
        match name_in(n.value) {
            Err(e) => Err(field_text(key, n.line, e)),
            Ok(u) => if good_user(u) {
                Ok(DraftView { user: Some(u), ..d })
            } else {
                Err(bad_user_text(u))
            },
        }
    } else if key == "local_networks"@ {
        match networks_in(n.value) {
            Err(e) => Err(field_text(key, n.line, e)),
            Ok(v) => Ok(DraftView { networks: v, ..d }),
        }
    } else {
        match bool_in(n.value) {
            Err(e) => Err(field_text(key, n.line, e)),
            Ok(b) => Ok(
                if key == "reachability_check"@ {
                    DraftView { check: b, ..d }
                } else if key == "prefer"@ {
                    DraftView { prefer: b, ..d }
                } else {
                    DraftView { persist: Some(Said { value: b, origin: Some(at(file, n)) }), ..d }
                },
            ),
        }
    }
}

/// The fields of a host entry read, in order.
pub open spec fn with_fields(file: Seq<char>, m: Seq<(Seq<char>, NodeView)>) -> Result<
    DraftView,
    Seq<char>,
>
    decreases m.len(),
{
    if m.len() == 0 {
        Ok(blank())
    } else {
        match with_fields(file, m.drop_last()) {
            Err(e) => Err(e),
            Ok(d) => with_field(d, file, m.last().0, m.last().1),
        }
    }
}

/// A host entry.
pub open spec fn entry_in(file: Seq<char>, n: NodeView) -> Result<HostView, Seq<char>> {
    match n.value {
        ValueView::Mapping(m) => match with_fields(file, m) {
            Err(e) => Err(e),
            Ok(d) => match d.host {
                None => Err("a host entry needs 'host: <name>'"@),
                Some(host) => Ok(
                    HostView {
                        host,
                        user: d.user,
                        reachability_check: d.check,
                        prefer: d.prefer,
                        identity_file: d.identity,
                        persist: d.persist,
                        local_networks: d.networks,
                        origin: at(file, n),
                    },
                ),
            },
        },
        _ => Err(not_entry_text(kind_of(n.value))),
    }
}

struct Draft {
    host: Option<String>,
    user: Option<String>,
    check: bool,
    prefer: bool,
    identity: Option<Setting<String>>,
    persist: Option<Setting<bool>>,
    networks: Vec<LocalNet>,
}

impl View for Draft {
    type V = DraftView;

    closed spec fn view(&self) -> DraftView {
        DraftView {
            host: opt_text(self.host),
            user: opt_text(self.user),
            check: self.check,
            prefer: self.prefer,
            identity: opt_said_text(self.identity),
            persist: opt_said(self.persist),
            networks: self.networks@,
        }
    }
}

impl Draft {
    fn value(&mut self, file: &str, k: &str, v: &Node) -> (r: Result<(), String>)
        ensures
            match r {
                Ok(_) => with_value(old(self)@, file@, k@, v@) == Ok::<DraftView, Seq<char>>(
                    final(self)@,
                ),
                Err(e) => with_value(old(self)@, file@, k@, v@) == Err::<DraftView, Seq<char>>(e@),
            },
    {
        reveal(with_value);
        if same(k, "user") {
            match string_value(v) {
                Err(e) => Err(field(k, v.line, &e)),
                Ok(u) => {
                    if !is_good_user(&u) {
                        return Err(bad_user(&u));
                    }
                    self.user = Some(u);
                    Ok(())
                },
            }
        } else if same(k, "local_networks") {
            match networks_value(v) {
                Err(e) => Err(field(k, v.line, &e)),
                Ok(n) => {
                    self.networks = n;
                    Ok(())
                },
            }
        } else {
            match bool_value(v) {
                Err(e) => Err(field(k, v.line, &e)),
                Ok(b) => {
                    if same(k, "reachability_check") {
                        self.check = b;
                    } else if same(k, "prefer") {
                        self.prefer = b;
                    } else {
                        self.persist = Some(Setting { value: b, origin: Some(origin_at(file, v)) });
                    }
                    Ok(())
                },
            }
        }
    }

    fn field(&mut self, file: &str, k: &str, v: &Node) -> (r: Result<(), String>)
        ensures
            match r {
                Ok(_) => with_field(old(self)@, file@, k@, v@) == Ok::<DraftView, Seq<char>>(
                    final(self)@,
                ),
                Err(e) => with_field(old(self)@, file@, k@, v@) == Err::<DraftView, Seq<char>>(e@),
            },
    {
        reveal(with_field);
        if same(k, "host") {
            match string_value(v) {
                Err(e) => Err(field(k, v.line, &e)),
                Ok(h) => {
                    if !is_good_host(&h) {
                        return Err(bad_host(&h));
                    }
                    self.host = Some(h);
                    Ok(())
                },
            }
        } else if same(k, "identity_file") {
            match identity_file(v, file) {
                Err(e) => Err(field(k, v.line, &e)),
                Ok(i) => {
                    self.identity = i;
                    Ok(())
                },
            }
        } else if same(k, "user") || same(k, "reachability_check") || same(k, "prefer") || same(
            k,
            "persist",
        ) || same(k, "local_networks") {
            if v.value.is_null() {
                Ok(())
            } else {
                self.value(file, k, v)
            }
        } else {
            Err(unknown_key(k))
        }
    }
}

proof fn lemma_fields_err(file: Seq<char>, m: Seq<(Seq<char>, NodeView)>, k: int)
    requires
        0 <= k <= m.len(),
        with_fields(file, m.take(k)) is Err,
    ensures
        with_fields(file, m) == with_fields(file, m.take(k)),
    decreases m.len() - k,
{
    if k < m.len() {
        assert(m.take(k + 1).drop_last() =~= m.take(k));
        lemma_fields_err(file, m, k + 1);
    } else {
        assert(m.take(k) =~= m);
    }
}

pub open spec fn res_host(r: Result<HostEntry, String>) -> Result<HostView, Seq<char>> {
    match r {
        Ok(h) => Ok(h@),
        Err(e) => Err(e@),
    }
}

/// A host entry.
pub fn host_entry(item: &Node, file: &str) -> (r: Result<HostEntry, String>)
    ensures
        res_host(r) == entry_in(file@, item@),
{
    let fields = match &item.value {
        Value::Mapping(m) => m,
        other => return Err(not_entry(other.kind())),
    };
    let ghost all = entry_views(fields@);
    proof {
        lemma_entry_views(fields@);
    }
    let mut d = Draft {
        host: None,
        user: None,
        check: true,
        prefer: false,
        identity: None,
        persist: None,
        networks: Vec::new(),
    };
    assert(d@ =~= blank());
    let mut i: usize = 0;
    while i < fields.len()
        invariant
            i <= fields.len(),
            all == entry_views(fields@),
            all.len() == fields@.len(),
            item@.value == ValueView::Mapping(all),
            with_fields(file@, all.take(i as int)) == Ok::<DraftView, Seq<char>>(d@),
        decreases fields.len() - i,
    {
        proof {
            lemma_entry_views(fields@);
            assert(entry_views(fields@)[i as int] == (
                fields@[i as int].0@,
                node_view(fields@[i as int].1),
            ));
            assert(all.take(i + 1).drop_last() =~= all.take(i as int));
            assert(all.take(i + 1).last() == all[i as int]);
        }
        match d.field(file, &fields[i].0, &fields[i].1) {
            Ok(_) => {},
            Err(e) => {
                proof {
                    lemma_fields_err(file@, all, i + 1);
                }
                return Err(e);
            },
        }
        i = i + 1;
    }
    assert(all.take(all.len() as int) =~= all);
    match d.host {
        None => Err("a host entry needs 'host: <name>'".to_owned()),
        Some(host) => Ok(
            HostEntry {
                host,
                user: d.user,
                reachability_check: d.check,
                prefer: d.prefer,
                identity_file: d.identity,
                persist: d.persist,
                local_networks: d.networks,
                origin: origin_at(file, item),
            },
        ),
    }
}

} // verus!
