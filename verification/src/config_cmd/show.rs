//! What `acs config` shows.

use super::edit::{entry_fields, entry_map, is_form, map_of, push_field};
use super::{Cmd, CmdView};
use crate::alias::{rank_of, ranked};
use crate::config::duration::{format_timeout, written};
use crate::config::{
    bool_of, duration_of, host_views, opt_origin, opt_said, opt_said_text, Alias, AliasView, Config,
    ConfigView, HostEntry, HostView, Origin, OriginView, Said, Setting,
};
use crate::list::{grid, newlines, paragraph, table_lines, table_of};
use crate::netmatch::{cidr, LocalNet};
use crate::path::{parts, rest_under, same_path, strip};
use crate::session::given_view;
use crate::text::{chars_of, dec, decimal, same, string_of, texts};
use crate::yaml::{
    bare, bool_node, entry_views, find_key, lemma_entry_views, lemma_node_views, node_view,
    node_views, position, text_node, DocView, Document, Node, NodeView, Value, ValueView,
};
use vstd::prelude::*;

verus! {

pub open spec fn head_line_text(path: Seq<char>, state: Seq<char>) -> Seq<char> {
    "#   "@ + path + state
}

fn head_line(path: &str, state: &str) -> (s: String)
    ensures
        s@ == head_line_text(path@, state@),
{
    let mut s = "#   ".to_owned();
    s.append(path);
    s.append(state);
    s
}

pub open spec fn from_line_text(path: Seq<char>, line: Seq<char>) -> Seq<char> {
    "# "@ + path + ":"@ + line
}

fn from_line(path: &str, line: &str) -> (s: String)
    ensures
        s@ == from_line_text(path@, line@),
{
    let mut s = "# ".to_owned();
    s.append(path);
    s.append(":");
    s.append(line);
    s
}

pub open spec fn path_line_text(global: Seq<char>, global_state: Seq<char>, local: Seq<char>, local_state: Seq<char>) -> Seq<char> {
    "global: "@ + global + global_state + "\nlocal:  "@ + local + local_state + "\n"@
}

fn path_line(global: &str, global_state: &str, local: &str, local_state: &str) -> (s: String)
    ensures
        s@ == path_line_text(global@, global_state@, local@, local_state@),
{
    let mut s = "global: ".to_owned();
    s.append(global);
    s.append(global_state);
    s.append("\nlocal:  ");
    s.append(local);
    s.append(local_state);
    s.append("\n");
    s
}

pub open spec fn set_in_file_text(path: Seq<char>, line: Seq<char>, flag: Seq<char>) -> Seq<char> {
    "it is set in "@ + path + ":"@ + line + " (use "@ + flag + ")"@
}

fn set_in_file(path: &str, line: &str, flag: &str) -> (s: String)
    ensures
        s@ == set_in_file_text(path@, line@, flag@),
{
    let mut s = "it is set in ".to_owned();
    s.append(path);
    s.append(":");
    s.append(line);
    s.append(" (use ");
    s.append(flag);
    s.append(")");
    s
}

// ---- paths -----------------------------------------------------------------

/// A path with the home directory shown as `~`.
pub open spec fn pretty_path(p: Seq<char>, home: Option<Seq<char>>) -> Seq<char> {
    match home {
        Some(h) if h.len() > 0 => match rest_under(p, h) {
            Some(rest) => "~/"@ + rest,
            None => p,
        },
        _ => p,
    }
}

/// A path with the home directory shown as `~`.
pub fn pretty(p: &str, home: Option<&str>) -> (s: String)
    ensures
        s@ == pretty_path(p@, given_view(home)),
{
    if let Some(h) = home {
        let dir = chars_of(h);
        if dir.len() > 0 {
            if let Some(rest) = strip(&chars_of(p), &dir) {
                let mut s = "~/".to_owned();
                s.append(&string_of(&rest));
                return s;
            }
        }
    }
    p.to_owned()
}

/// What is said behind a path that leads nowhere.
pub open spec fn found_state(found: bool) -> Seq<char> {
    if found {
        Seq::empty()
    } else {
        " (not found)"@
    }
}

fn state(found: bool) -> (s: &'static str)
    ensures
        s@ == found_state(found),
{
    proof {
        reveal_strlit("");
        assert(""@ =~= Seq::empty());
    }
    if found {
        ""
    } else {
        " (not found)"
    }
}

/// The files that are read, and whether each is there.
pub fn paths(
    global: &str,
    local: &str,
    global_found: bool,
    local_found: bool,
    home: Option<&str>,
) -> (s: String)
    ensures
        s@ == path_line_text(
            global@,
            found_state(global_found),
            pretty_path(local@, given_view(home)),
            found_state(local_found),
        ),
{
    path_line(global, state(global_found), &pretty(local, home), state(local_found))
}

/// Where a value is from, as a comment.
pub open spec fn from_comment(origin: Option<OriginView>, home: Option<Seq<char>>) -> Seq<char> {
    match origin {
        Some(o) => from_line_text(pretty_path(o.file, home), dec(o.line)),
        None => "# default"@,
    }
}

fn from(origin: &Option<Origin>, home: Option<&str>) -> (s: String)
    ensures
        s@ == from_comment(opt_origin(*origin), given_view(home)),
{
    match origin {
        Some(o) => from_line(&pretty(&o.file, home), &decimal(o.line as u64)),
        None => "# default".to_owned(),
    }
}

// ---- show ------------------------------------------------------------------

/// A node with a comment behind it.
pub open spec fn noted(n: NodeView, comment: Seq<char>) -> NodeView {
    NodeView { comment: Some(comment), ..n }
}

fn note(n: Node, comment: String) -> (r: Node)
    ensures
        r@ == noted(n@, comment@),
{
    let mut n = n;
    n.comment = Some(comment);
    n
}

/// A top-level setting's value, and where it is from. A file gives networks to a host
/// entry only, so that the list of those for every host is the default, an empty one.
pub open spec fn scalar_of(c: ConfigView, key: Seq<char>) -> Option<(NodeView, Option<OriginView>)> {
    match bool_of(c, key) {
        Some(s) => Some((bool_node(s.value), s.origin)),
        None => match duration_of(c, key) {
            Some(s) => Some((text_node(written(s.value)), s.origin)),
            None => if key == "local_networks"@ {
                Some((networks_node(Seq::empty()), None))
            } else {
                None
            },
        },
    }
}

/// A top-level setting's value with where it is from behind it.
pub open spec fn shown_setting(c: ConfigView, key: Seq<char>, home: Option<Seq<char>>) -> (
    Seq<char>,
    NodeView,
) {
    let (n, origin) = scalar_of(c, key)->0;
    (key, noted(n, from_comment(origin, home)))
}

/// The top-level settings, each with where it is from.
pub open spec fn shown_settings(c: ConfigView, home: Option<Seq<char>>) -> Seq<
    (Seq<char>, NodeView),
> {
    seq![
        shown_setting(c, "install_on_remote"@, home),
        shown_setting(c, "update_check"@, home),
        shown_setting(c, "command_bell"@, home),
        shown_setting(c, "redraw_on_reconnect"@, home),
        shown_setting(c, "reachability_timeout"@, home),
        shown_setting(c, "persist"@, home),
        shown_setting(c, "reachability_interval"@, home),
        shown_setting(c, "prefer_local_network"@, home),
    ]
}

/// A value with where it is from behind it, if it is set.
pub open spec fn own_bool(key: Seq<char>, s: Option<Said<bool>>, home: Option<Seq<char>>) -> Seq<
    (Seq<char>, NodeView),
> {
    match s {
        Some(s) => seq![(key, noted(bool_node(s.value), from_comment(s.origin, home)))],
        None => Seq::empty(),
    }
}

pub open spec fn own_duration(key: Seq<char>, s: Option<Said<u64>>, home: Option<Seq<char>>) -> Seq<
    (Seq<char>, NodeView),
> {
    match s {
        Some(s) => seq![(key, noted(text_node(written(s.value)), from_comment(s.origin, home)))],
        None => Seq::empty(),
    }
}

pub open spec fn own_text(key: Seq<char>, s: Option<Said<Seq<char>>>, home: Option<Seq<char>>) -> Seq<
    (Seq<char>, NodeView),
> {
    match s {
        Some(s) => seq![(key, noted(text_node(s.value), from_comment(s.origin, home)))],
        None => Seq::empty(),
    }
}

/// The settings an alias has of its own.
pub open spec fn shown_own(a: AliasView, home: Option<Seq<char>>) -> Seq<(Seq<char>, NodeView)> {
    own_text("identity_file"@, a.identity_file, home) + own_bool(
        "redraw_on_reconnect"@,
        a.redraw_on_reconnect,
        home,
    ) + own_duration("reachability_timeout"@, a.reachability_timeout, home) + own_duration(
        "reachability_interval"@,
        a.reachability_interval,
        home,
    ) + own_bool("persist"@, a.persist, home) + own_bool(
        "prefer_local_network"@,
        a.prefer_local_network,
        home,
    )
}

/// Networks as a list on one line.
pub open spec fn networks_node(nets: Seq<LocalNet>) -> NodeView {
    NodeView {
        flow: true,
        ..bare(ValueView::List(nets.map_values(|n: LocalNet| text_node(cidr(n)))))
    }
}

pub(crate) fn networks_list(nets: &Vec<LocalNet>) -> (n: Node)
    ensures
        n@ == networks_node(nets@),
{
    let mut items: Vec<Node> = Vec::new();
    for i in 0..nets.len()
        invariant
            items@.len() == i,
            forall|j: int| 0 <= j < i ==> (#[trigger] items@[j])@ == text_node(cidr(nets@[j])),
    {
        items.push(Node::string(&nets[i].text()));
    }
    proof {
        lemma_node_views(items@);
        assert(node_views(items@) =~= nets@.map_values(|n: LocalNet| text_node(cidr(n))));
    }
    let mut n = Node::new(Value::List(items));
    n.flow = true;
    n
}

/// One host entry: `host`, then what is not the default.
pub open spec fn entry_shown(e: HostView) -> Seq<(Seq<char>, NodeView)> {
    entry_fields(
        e.host,
        e.user,
        match e.identity_file {
            Some(k) => Some(k.value),
            None => None,
        },
        e.reachability_check,
        e.prefer,
        match e.persist {
            Some(p) => Some(p.value),
            None => None,
        },
    ) + (if e.local_networks.len() > 0 {
        seq![("local_networks"@, networks_node(e.local_networks))]
    } else {
        Seq::empty()
    })
}

/// One host entry, with where it is from behind its `host`.
pub open spec fn shown_entry(e: HostView, home: Option<Seq<char>>) -> NodeView {
    let m = entry_shown(e);
    bare(
        ValueView::Mapping(
            m.update(0, (m[0].0, noted(m[0].1, from_comment(Some(e.origin), home)))),
        ),
    )
}

pub open spec fn shown_entries(v: Seq<HostView>, home: Option<Seq<char>>) -> Seq<NodeView> {
    v.map_values(|e: HostView| shown_entry(e, home))
}

/// An alias: its list of hosts, or a mapping where it has a setting of its own.
pub open spec fn shown_alias(a: AliasView, home: Option<Seq<char>>) -> NodeView {
    let list = bare(ValueView::List(shown_entries(a.entries, home)));
    let own = shown_own(a, home);
    if own.len() == 0 {
        list
    } else {
        bare(ValueView::Mapping(own.push(("hosts"@, list))))
    }
}

pub open spec fn shown_aliases(v: Seq<AliasView>, home: Option<Seq<char>>) -> Seq<
    (Seq<char>, NodeView),
> {
    v.map_values(|a: AliasView| (a.name, shown_alias(a, home)))
}

/// One of the files is this one.
pub open spec fn listed_in(files: Seq<Seq<char>>, file: Seq<char>) -> bool {
    exists|i: int| 0 <= i < files.len() && parts(#[trigger] files[i]) == parts(file)
}

/// The lines above everything: which files there are.
pub open spec fn head_lines(
    c: ConfigView,
    global: Seq<char>,
    local: Seq<char>,
    home: Option<Seq<char>>,
) -> Seq<Seq<char>> {
    seq![
        "# acs configuration, merged from:"@,
        head_line_text(pretty_path(global, home), found_state(listed_in(c.files, global))),
        head_line_text(pretty_path(local, home), found_state(listed_in(c.files, local))),
    ]
}

/// The merged configuration, each value commented with its origin.
pub open spec fn shown(
    c: ConfigView,
    global: Seq<char>,
    local: Seq<char>,
    home: Option<Seq<char>>,
) -> DocView {
    let aliases = if c.hosts.len() == 0 {
        NodeView { flow: true, ..noted(bare(ValueView::Mapping(Seq::empty())), "# none"@) }
    } else {
        bare(ValueView::Mapping(shown_aliases(c.hosts, home)))
    };
    DocView {
        root: NodeView {
            before: head_lines(c, global, local, home),
            ..bare(ValueView::Mapping(shown_settings(c, home).push(("aliases"@, aliases))))
        },
        tail: Seq::empty(),
    }
}

/// A top-level setting's value, and where it is from.
pub fn scalar(c: &Config, key: &str) -> (r: Option<(Node, Option<Origin>)>)
    ensures
        match r {
            None => scalar_of(c@, key@) is None,
            Some(s) => scalar_of(c@, key@) == Some((s.0@, opt_origin(s.1))),
        },
{
    if let Some(s) = c.bool_setting(key) {
        return Some((Node::bool(s.value), copy_origin(&s.origin)));
    }
    match c.duration_setting(key) {
        Some(s) => Some((Node::string(&format_timeout(s.value)), copy_origin(&s.origin))),
        None => {
            if same(key, "local_networks") {
                let none: Vec<LocalNet> = Vec::new();
                assert(none@ =~= Seq::empty());
                Some((networks_list(&none), None))
            } else {
                None
            }
        },
    }
}

fn copy_origin(o: &Option<Origin>) -> (r: Option<Origin>)
    ensures
        opt_origin(r) == opt_origin(*o),
{
    match o {
        Some(o) => Some(o.copy()),
        None => None,
    }
}

fn push_setting(m: &mut Vec<(String, Node)>, c: &Config, key: &str, home: Option<&str>)
    requires
        scalar_of(c@, key@) is Some,
    ensures
        entry_views(final(m)@) == entry_views(old(m)@).push(
            shown_setting(c@, key@, given_view(home)),
        ),
{
    if let Some((n, origin)) = scalar(c, key) {
        push_field(m, key, note(n, from(&origin, home)));
    }
}

fn settings_map(c: &Config, home: Option<&str>) -> (m: Vec<(String, Node)>)
    ensures
        entry_views(m@) == shown_settings(c@, given_view(home)),
{
    let mut m: Vec<(String, Node)> = Vec::new();
    assert(entry_views(m@) =~= Seq::empty());
    push_setting(&mut m, c, "install_on_remote", home);
    push_setting(&mut m, c, "update_check", home);
    push_setting(&mut m, c, "command_bell", home);
    push_setting(&mut m, c, "redraw_on_reconnect", home);
    push_setting(&mut m, c, "reachability_timeout", home);
    push_setting(&mut m, c, "persist", home);
    push_setting(&mut m, c, "reachability_interval", home);
    push_setting(&mut m, c, "prefer_local_network", home);
    assert(entry_views(m@) =~= shown_settings(c@, given_view(home)));
    m
}

fn push_bool(m: &mut Vec<(String, Node)>, key: &str, s: &Option<Setting<bool>>, home: Option<&str>)
    ensures
        entry_views(final(m)@) == entry_views(old(m)@) + own_bool(
            key@,
            opt_said(*s),
            given_view(home),
        ),
{
    if let Some(s) = s {
        push_field(m, key, note(Node::bool(s.value), from(&s.origin, home)));
    }
    assert(entry_views(m@) =~= entry_views(old(m)@) + own_bool(
        key@,
        opt_said(*s),
        given_view(home),
    ));
}

fn push_duration(
    m: &mut Vec<(String, Node)>,
    key: &str,
    s: &Option<Setting<u64>>,
    home: Option<&str>,
)
    ensures
        entry_views(final(m)@) == entry_views(old(m)@) + own_duration(
            key@,
            opt_said(*s),
            given_view(home),
        ),
{
    if let Some(s) = s {
        push_field(
            m,
            key,
            note(Node::string(&format_timeout(s.value)), from(&s.origin, home)),
        );
    }
    assert(entry_views(m@) =~= entry_views(old(m)@) + own_duration(
        key@,
        opt_said(*s),
        given_view(home),
    ));
}

fn own_map(a: &Alias, home: Option<&str>) -> (m: Vec<(String, Node)>)
    ensures
        entry_views(m@) == shown_own(a@, given_view(home)),
{
    let mut m: Vec<(String, Node)> = Vec::new();
    assert(entry_views(m@) =~= Seq::empty());
    if let Some(k) = &a.identity_file {
        push_field(
            &mut m,
            "identity_file",
            note(Node::string(&k.value), from(&k.origin, home)),
        );
    }
    assert(entry_views(m@) =~= own_text(
        "identity_file"@,
        opt_said_text(a.identity_file),
        given_view(home),
    ));
    push_bool(&mut m, "redraw_on_reconnect", &a.redraw_on_reconnect, home);
    push_duration(&mut m, "reachability_timeout", &a.reachability_timeout, home);
    push_duration(&mut m, "reachability_interval", &a.reachability_interval, home);
    push_bool(&mut m, "persist", &a.persist, home);
    push_bool(&mut m, "prefer_local_network", &a.prefer_local_network, home);
    m
}

/// The fields of a host entry.
fn shown_map(e: &HostEntry) -> (m: Vec<(String, Node)>)
    ensures
        entry_views(m@) == entry_shown(e@),
{
    let key = match &e.identity_file {
        Some(k) => Some(k.value.clone()),
        None => None,
    };
    let persist = match &e.persist {
        Some(p) => Some(p.value),
        None => None,
    };
    let mut m = entry_map(&e.host, &e.user, &key, e.reachability_check, e.prefer, persist);
    let ghost fields = entry_views(m@);
    if e.local_networks.len() > 0 {
        push_field(&mut m, "local_networks", networks_list(&e.local_networks));
        assert(entry_views(m@) =~= fields + seq![
            ("local_networks"@, networks_node(e@.local_networks)),
        ]);
    } else {
        assert(entry_views(m@) =~= fields + Seq::empty());
    }
    m
}

/// A comment behind the first field.
fn note_first(m: &mut Vec<(String, Node)>, text: String)
    requires
        old(m)@.len() > 0,
    ensures
        entry_views(final(m)@) == entry_views(old(m)@).update(
            0,
            (
                entry_views(old(m)@)[0].0,
                noted(entry_views(old(m)@)[0].1, text@),
            ),
        ),
{
    let ghost had = m@;
    proof {
        lemma_entry_views(had);
        assert(entry_views(had)[0] == (had[0].0@, node_view(had[0].1)));
    }
    m[0].1.comment = Some(text);
    proof {
        lemma_entry_views(m@);
        let v = entry_views(had);
        assert(entry_views(m@) =~= v.update(0, (v[0].0, noted(v[0].1, text@))));
    }
}

fn entry_node(e: &HostEntry, home: Option<&str>) -> (n: Node)
    ensures
        n@ == shown_entry(e@, given_view(home)),
{
    let mut m = shown_map(e);
    proof {
        lemma_entry_views(m@);
        assert(entry_shown(e@).len() > 0);
    }
    let origin = Some(e.origin.copy());
    note_first(&mut m, from(&origin, home));
    Node::new(Value::Mapping(m))
}

fn alias_shown(a: &Alias, home: Option<&str>) -> (n: Node)
    ensures
        n@ == shown_alias(a@, given_view(home)),
{
    let mut items: Vec<Node> = Vec::new();
    for i in 0..a.entries.len()
        invariant
            items@.len() == i,
            forall|j: int|
                0 <= j < i ==> (#[trigger] items@[j])@ == shown_entry(
                    a.entries@[j]@,
                    given_view(home),
                ),
    {
        items.push(entry_node(&a.entries[i], home));
    }
    proof {
        lemma_node_views(items@);
        assert(node_views(items@) =~= shown_entries(a@.entries, given_view(home)));
    }
    let list = Node::new(Value::List(items));
    let mut own = own_map(a, home);
    proof {
        lemma_entry_views(own@);
    }
    if own.len() == 0 {
        list
    } else {
        push_field(&mut own, "hosts", list);
        Node::new(Value::Mapping(own))
    }
}

fn was_read(c: &Config, file: &str) -> (r: bool)
    ensures
        r == listed_in(c@.files, file@),
{
    let mut i: usize = 0;
    while i < c.files.len()
        invariant
            i <= c.files.len(),
            forall|j: int| 0 <= j < i ==> parts(#[trigger] c@.files[j]) != parts(file@),
        decreases c.files.len() - i,
    {
        assert(c@.files[i as int] == c.files@[i as int]@);
        if same_path(&c.files[i], file) {
            return true;
        }
        i = i + 1;
    }
    false
}

/// The merged configuration as a document, each value commented with its origin.
pub fn show(c: &Config, global: &str, local: &str, home: Option<&str>) -> (d: Document)
    ensures
        d@ == shown(c@, global@, local@, given_view(home)),
{
    let mut m = settings_map(c, home);
    let mut aliases: Vec<(String, Node)> = Vec::new();
    for i in 0..c.hosts.len()
        invariant
            aliases@.len() == i,
            forall|j: int|
                0 <= j < i ==> (#[trigger] aliases@[j]).0@ == c.hosts@[j]@.name
                    && aliases@[j].1@ == shown_alias(c.hosts@[j]@, given_view(home)),
    {
        aliases.push((c.hosts[i].name.clone(), alias_shown(&c.hosts[i], home)));
    }
    proof {
        lemma_entry_views(aliases@);
        assert(entry_views(aliases@) =~= shown_aliases(c@.hosts, given_view(home)));
    }
    let node = if aliases.len() == 0 {
        let none: Vec<(String, Node)> = Vec::new();
        assert(entry_views(none@) =~= Seq::empty());
        let mut n = note(Node::new(Value::Mapping(none)), "# none".to_owned());
        n.flow = true;
        n
    } else {
        Node::new(Value::Mapping(aliases))
    };
    push_field(&mut m, "aliases", node);
    let mut head: Vec<String> = Vec::new();
    head.push("# acs configuration, merged from:".to_owned());
    head.push(head_line(&pretty(global, home), state(was_read(c, global))));
    head.push(head_line(&pretty(local, home), state(was_read(c, local))));
    assert(texts(head@) =~= head_lines(c@, global@, local@, given_view(home)));
    let mut root = Node::new(Value::Mapping(m));
    root.before = head;
    let d = Document { root, tail: Vec::new() };
    assert(d@.tail =~= Seq::empty());
    d
}

// ---- host list -------------------------------------------------------------

pub open spec fn hosts_head() -> Seq<Seq<char>> {
    seq!["ALIAS"@, "HOST"@, "USER"@, "CHECK"@, "IDENTITY"@, "FROM"@]
}

/// An entry's row: its own key, or the alias's.
pub open spec fn host_row(a: AliasView, e: HostView, home: Option<Seq<char>>) -> Seq<Seq<char>> {
    let check = if e.reachability_check {
        "ping"@
    } else {
        "none"@
    };
    seq![
        a.name,
        e.host,
        match e.user {
            Some(u) => u,
            None => "-"@,
        },
        if e.prefer {
            check + " prefer"@
        } else {
            check
        },
        match e.identity_file {
            Some(k) => k.value,
            None => match a.identity_file {
                Some(k) => k.value,
                None => "-"@,
            },
        },
        pretty_path(e.origin.file, home) + ":"@ + dec(e.origin.line),
    ]
}

/// An alias's rows, in the order its hosts are tried.
pub open spec fn alias_rows(a: AliasView, home: Option<Seq<char>>) -> Seq<Seq<Seq<char>>> {
    Seq::new(
        a.entries.len(),
        |k: int| host_row(a, a.entries[rank_of(a.entries, Seq::empty())[k]], home),
    )
}

/// The rows of the first `n` aliases.
pub open spec fn rows_below(v: Seq<AliasView>, n: int, home: Option<Seq<char>>) -> Seq<
    Seq<Seq<char>>,
>
    decreases n,
{
    if n <= 0 {
        Seq::empty()
    } else {
        rows_below(v, n - 1, home) + alias_rows(v[n - 1], home)
    }
}

/// Every alias and its hosts.
pub open spec fn hosts_listed(c: ConfigView, home: Option<Seq<char>>) -> Seq<char> {
    if c.hosts.len() == 0 {
        "no host aliases (add one with: acs config host add <alias> <host>)\n"@
    } else {
        paragraph(table_of(hosts_head(), rows_below(c.hosts, c.hosts.len() as int, home)))
    }
}

fn row(a: &Alias, e: &HostEntry, home: Option<&str>) -> (r: Vec<String>)
    ensures
        texts(r@) == host_row(a@, e@, given_view(home)),
        r@.len() == 6,
{
    let mut r: Vec<String> = Vec::new();
    r.push(a.name.clone());
    r.push(e.host.clone());
    r.push(
        match &e.user {
            Some(u) => u.clone(),
            None => "-".to_owned(),
        },
    );
    let mut check = if e.reachability_check {
        "ping".to_owned()
    } else {
        "none".to_owned()
    };
    if e.prefer {
        check.append(" prefer");
    }
    r.push(check);
    r.push(
        match &e.identity_file {
            Some(k) => k.value.clone(),
            None => match &a.identity_file {
                Some(k) => k.value.clone(),
                None => "-".to_owned(),
            },
        },
    );
    let mut from = pretty(&e.origin.file, home);
    from.append(":");
    from.append(&decimal(e.origin.line as u64));
    r.push(from);
    assert(texts(r@) =~= host_row(a@, e@, given_view(home)));
    r
}

fn push_rows(rows: &mut Vec<Vec<String>>, a: &Alias, home: Option<&str>)
    requires
        forall|i: int| 0 <= i < old(rows)@.len() ==> #[trigger] old(rows)@[i]@.len() == 6,
    ensures
        grid(final(rows)@) == grid(old(rows)@) + alias_rows(a@, given_view(home)),
        forall|i: int| 0 <= i < final(rows)@.len() ==> #[trigger] final(rows)@[i]@.len() == 6,
{
    let entries = ranked(&a.entries);
    let ghost before = rows@;
    let ghost all = alias_rows(a@, given_view(home));
    for k in 0..entries.len()
        invariant
            before == old(rows)@,
            all == alias_rows(a@, given_view(home)),
            entries@.len() == a.entries@.len(),
            forall|j: int|
                0 <= j < entries@.len() ==> (#[trigger] entries@[j])@ == host_views(
                    a.entries@,
                )[rank_of(host_views(a.entries@), Seq::empty())[j]],
            rows@.len() == before.len() + k,
            forall|i: int| 0 <= i < rows@.len() ==> #[trigger] rows@[i]@.len() == 6,
            forall|i: int| 0 <= i < before.len() ==> #[trigger] rows@[i] == before[i],
            forall|i: int|
                before.len() <= i < rows@.len() ==> texts((#[trigger] rows@[i])@) == all[i
                    - before.len()],
    {
        assert(entries@[k as int]@ == a@.entries[rank_of(a@.entries, Seq::empty())[k as int]]);
        rows.push(row(a, entries[k], home));
    }
    assert(grid(rows@) =~= grid(before) + all);
}

/// Every alias and its hosts, in the order they are tried, each with the ssh key it
/// is reached with (its own, or the alias's).
pub fn host_list(c: &Config, home: Option<&str>) -> (s: String)
    ensures
        s@ == hosts_listed(c@, given_view(home)),
{
    if c.hosts.len() == 0 {
        return "no host aliases (add one with: acs config host add <alias> <host>)\n".to_owned();
    }
    let mut head: Vec<String> = Vec::new();
    head.push("ALIAS".to_owned());
    head.push("HOST".to_owned());
    head.push("USER".to_owned());
    head.push("CHECK".to_owned());
    head.push("IDENTITY".to_owned());
    head.push("FROM".to_owned());
    assert(texts(head@) =~= hosts_head());
    let mut rows: Vec<Vec<String>> = Vec::new();
    assert(grid(rows@) =~= Seq::empty());
    for i in 0..c.hosts.len()
        invariant
            forall|j: int| 0 <= j < rows@.len() ==> #[trigger] rows@[j]@.len() == 6,
            grid(rows@) == rows_below(c@.hosts, i as int, given_view(home)),
    {
        assert(c@.hosts[i as int] == c.hosts@[i as int]@);
        push_rows(&mut rows, &c.hosts[i], home);
    }
    newlines(table_lines(&head, &rows))
}

// ---- where a thing is set --------------------------------------------------

/// The alias called `name` in a file.
pub open spec fn alias_in(root: NodeView, name: Seq<char>) -> Option<NodeView> {
    match find_key(map_of(root), "aliases"@) {
        None => None,
        Some(hi) => {
            let am = map_of(map_of(root)[hi].1);
            match find_key(am, name) {
                None => None,
                Some(ai) => Some(am[ai].1),
            }
        },
    }
}

/// What an edit speaks of, in a file.
pub open spec fn meant_in(root: NodeView, cmd: CmdView) -> Option<NodeView> {
    match cmd {
        CmdView::Unset(key) => match find_key(map_of(root), key) {
            Some(i) => Some(map_of(root)[i].1),
            None => None,
        },
        CmdView::HostRemove { alias, .. } => alias_in(root, alias),
        CmdView::HostUnset { alias, key } => match alias_in(root, alias) {
            Some(n) if is_form(n) => match find_key(map_of(n), key) {
                Some(i) => Some(map_of(n)[i].1),
                None => None,
            },
            _ => None,
        },
        _ => None,
    }
}

/// Where an edit's key or alias is defined in the other file.
pub open spec fn hinted(
    root: NodeView,
    cmd: CmdView,
    path: Seq<char>,
    global: bool,
    home: Option<Seq<char>>,
) -> Option<Seq<char>> {
    match meant_in(root, cmd) {
        None => None,
        Some(n) => Some(
            set_in_file_text(
                pretty_path(path, home),
                dec(n.line),
                if global {
                    "--global"@
                } else {
                    "no --global"@
                },
            ),
        ),
    }
}

fn entry_called<'a>(n: &'a Node, key: &str) -> (r: Option<&'a Node>)
    ensures
        match r {
            None => find_key(map_of(n@), key@) is None,
            Some(e) => find_key(map_of(n@), key@) is Some && e@ == map_of(n@)[find_key(
                map_of(n@),
                key@,
            )->0].1,
        },
{
    match &n.value {
        Value::Mapping(m) => match position(m, key) {
            None => None,
            Some(i) => {
                proof {
                    lemma_entry_views(m@);
                    assert(entry_views(m@)[i as int] == (m@[i as int].0@, node_view(m@[i as int].1)));
                }
                Some(&m[i].1)
            },
        },
        _ => None,
    }
}

fn alias_called<'a>(root: &'a Node, name: &str) -> (r: Option<&'a Node>)
    ensures
        match r {
            None => alias_in(root@, name@) is None,
            Some(n) => alias_in(root@, name@) == Some(n@),
        },
{
    match entry_called(root, "aliases") {
        None => None,
        Some(aliases) => entry_called(aliases, name),
    }
}

/// Where `cmd`'s key or alias is defined in the other file, as a hint for an edit
/// that found nothing to change in its own. `global` says whether the other file is
/// the global one.
pub fn defined_in(root: &Node, cmd: &Cmd, path: &str, global: bool, home: Option<&str>) -> (r: Option<
    String,
>)
    ensures
        match r {
            None => hinted(root@, cmd@, path@, global, given_view(home)) is None,
            Some(s) => hinted(root@, cmd@, path@, global, given_view(home)) == Some(s@),
        },
{
    let node = match cmd {
        Cmd::Unset(key) => entry_called(root, key),
        Cmd::HostRemove { alias, .. } => alias_called(root, alias),
        Cmd::HostUnset { alias, key } => match alias_called(root, alias) {
            None => None,
            Some(n) => {
                if super::edit::is_alias_form(n) {
                    entry_called(n, key)
                } else {
                    None
                }
            },
        },
        _ => None,
    };
    match node {
        None => None,
        Some(n) => Some(
            set_in_file(
                &pretty(path, home),
                &decimal(n.line as u64),
                if global {
                    "--global"
                } else {
                    "no --global"
                },
            ),
        ),
    }
}

} // verus!
