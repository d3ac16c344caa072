//! The tree of a YAML document: what the configuration reads and edits.

use crate::text::{same, texts};
use vstd::prelude::*;

verus! {

/// How a scalar is written.
#[derive(Debug, Clone, Copy, PartialEq, Eq, Structural)]
pub enum Style {
    Plain,
    Quoted,
}

/// A single value.
#[derive(Debug, Clone, PartialEq, Eq)]
pub struct Scalar {
    pub text: String,
    pub style: Style,
}

/// What a node holds.
#[derive(Debug, PartialEq, Eq)]
pub enum Value {
    Null,
    Scalar(Scalar),
    List(Vec<Node>),
    Mapping(Vec<(String, Node)>),
}

/// A value where it stands: its line, the comment lines above it, the comment
/// behind it, and whether it is written on one line.
#[derive(Debug, PartialEq, Eq)]
pub struct Node {
    pub value: Value,
    pub line: usize,
    pub before: Vec<String>,
    pub comment: Option<String>,
    pub flow: bool,
}

/// A file: its root, and the comment lines behind everything.
#[derive(Debug, PartialEq, Eq)]
pub struct Document {
    pub root: Node,
    pub tail: Vec<String>,
}

pub enum ValueView {
    Null,
    Scalar { text: Seq<char>, style: Style },
    List(Seq<NodeView>),
    Mapping(Seq<(Seq<char>, NodeView)>),
}

#[verifier::ext_equal]
pub struct NodeView {
    pub value: ValueView,
    pub line: nat,
    pub before: Seq<Seq<char>>,
    pub comment: Option<Seq<char>>,
    pub flow: bool,
}

#[verifier::ext_equal]
pub struct DocView {
    pub root: NodeView,
    pub tail: Seq<Seq<char>>,
}

/// The characters of text that may not be there.
pub open spec fn opt_text(s: Option<String>) -> Option<Seq<char>> {
    match s {
        None => None,
        Some(t) => Some(t@),
    }
}

pub open spec fn value_view(v: Value) -> ValueView
    decreases v,
{
    match v {
        Value::Null => ValueView::Null,
        Value::Scalar(s) => ValueView::Scalar { text: s.text@, style: s.style },
        Value::List(items) => ValueView::List(node_views(items@)),
        Value::Mapping(m) => ValueView::Mapping(entry_views(m@)),
    }
}

pub open spec fn node_view(n: Node) -> NodeView
    decreases n,
{
    NodeView {
        value: value_view(n.value),
        line: n.line as nat,
        before: texts(n.before@),
        comment: opt_text(n.comment),
        flow: n.flow,
    }
}

pub open spec fn node_views(v: Seq<Node>) -> Seq<NodeView>
    decreases v,
{
    if v.len() == 0 {
        Seq::empty()
    } else {
        node_views(v.drop_last()).push(node_view(v.last()))
    }
}

pub open spec fn entry_views(v: Seq<(String, Node)>) -> Seq<(Seq<char>, NodeView)>
    decreases v,
{
    if v.len() == 0 {
        Seq::empty()
    } else {
        entry_views(v.drop_last()).push((v.last().0@, node_view(v.last().1)))
    }
}

impl View for Value {
    type V = ValueView;

    open spec fn view(&self) -> ValueView {
        value_view(*self)
    }
}

impl View for Node {
    type V = NodeView;

    open spec fn view(&self) -> NodeView {
        node_view(*self)
    }
}

impl View for Document {
    type V = DocView;

    open spec fn view(&self) -> DocView {
        DocView { root: self.root@, tail: texts(self.tail@) }
    }
}

/// The view of a list has the views of its nodes.
pub broadcast proof fn lemma_node_views(v: Seq<Node>)
    ensures
        (#[trigger] node_views(v)).len() == v.len(),
        forall|i: int| 0 <= i < v.len() ==> (#[trigger] node_views(v)[i]) == node_view(v[i]),
    decreases v.len(),
{
    if v.len() > 0 {
        lemma_node_views(v.drop_last());
    }
}

/// The view of a mapping has the views of its entries.
pub broadcast proof fn lemma_entry_views(v: Seq<(String, Node)>)
    ensures
        (#[trigger] entry_views(v)).len() == v.len(),
        forall|i: int|
            0 <= i < v.len() ==> (#[trigger] entry_views(v)[i]) == (v[i].0@, node_view(v[i].1)),
    decreases v.len(),
{
    if v.len() > 0 {
        lemma_entry_views(v.drop_last());
    }
}

/// What a value is called in a message.
pub open spec fn kind_of(v: ValueView) -> Seq<char> {
    match v {
        ValueView::Null => "nothing"@,
        ValueView::Scalar { .. } => "a single value"@,
        ValueView::List(_) => "a list"@,
        ValueView::Mapping(_) => "a mapping"@,
    }
}

/// A value by itself, with no comments.
pub open spec fn bare(value: ValueView) -> NodeView {
    NodeView { value, line: 0, before: Seq::empty(), comment: None, flow: false }
}

/// Text that a plain scalar would not be read as.
pub open spec fn needs_quotes(s: Seq<char>) -> bool {
    s.len() == 0 || s == "true"@ || s == "false"@ || s == "null"@ || s == "~"@
}

pub open spec fn text_node(s: Seq<char>) -> NodeView {
    bare(
        ValueView::Scalar {
            text: s,
            style: if needs_quotes(s) {
                Style::Quoted
            } else {
                Style::Plain
            },
        },
    )
}

pub open spec fn bool_text(b: bool) -> Seq<char> {
    if b {
        "true"@
    } else {
        "false"@
    }
}

pub open spec fn bool_node(b: bool) -> NodeView {
    bare(ValueView::Scalar { text: bool_text(b), style: Style::Plain })
}

impl Value {
    /// What the value is called in a message.
    pub fn kind(&self) -> (s: &'static str)
        ensures
            s@ == kind_of(self@),
    {
        match self {
            Value::Null => "nothing",
            Value::Scalar(_) => "a single value",
            Value::List(_) => "a list",
            Value::Mapping(_) => "a mapping",
        }
    }

    pub fn is_null(&self) -> (r: bool)
        ensures
            r == (self@ is Null),
    {
        match self {
            Value::Null => true,
            _ => false,
        }
    }
}

impl Node {
    /// A value by itself.
    pub fn new(value: Value) -> (n: Node)
        ensures
            n@ == bare(value@),
    {
        let n = Node { value, line: 0, before: Vec::new(), comment: None, flow: false };
        assert(n@.before =~= Seq::empty());
        n
    }

    /// Text.
    pub fn string(text: &str) -> (n: Node)
        ensures
            n@ == text_node(text@),
    {
        let style = if text.is_empty() || same(text, "true") || same(text, "false") || same(
            text,
            "null",
        ) || same(text, "~") {
            Style::Quoted
        } else {
            Style::Plain
        };
        Node::new(Value::Scalar(Scalar { text: text.to_owned(), style }))
    }

    /// True or false.
    pub fn bool(b: bool) -> (n: Node)
        ensures
            n@ == bool_node(b),
    {
        let text = if b {
            "true".to_owned()
        } else {
            "false".to_owned()
        };
        Node::new(Value::Scalar(Scalar { text, style: Style::Plain }))
    }
}

/// The first entry called `key`, at or behind `from`.
pub open spec fn find_from(m: Seq<(Seq<char>, NodeView)>, key: Seq<char>, from: int) -> Option<int>
    decreases m.len() - from,
{
    if from < 0 || from >= m.len() {
        None
    } else if m[from].0 == key {
        Some(from)
    } else {
        find_from(m, key, from + 1)
    }
}

/// The first entry called `key`.
pub open spec fn find_key(m: Seq<(Seq<char>, NodeView)>, key: Seq<char>) -> Option<int> {
    find_from(m, key, 0)
}

/// Where the entry called `key` is.
pub fn position(m: &Vec<(String, Node)>, key: &str) -> (r: Option<usize>)
    ensures
        match r {
            None => find_key(entry_views(m@), key@) is None,
            Some(i) => find_key(entry_views(m@), key@) == Some(i as int) && i < m@.len(),
        },
{
    broadcast use lemma_entry_views;

    let ghost all = entry_views(m@);
    assert(all.len() == m@.len());
    let mut i: usize = 0;
    while i < m.len()
        invariant
            i <= m.len(),
            all == entry_views(m@),
            all.len() == m@.len(),
            find_key(all, key@) == find_from(all, key@, i as int),
        decreases m.len() - i,
    {
        proof {
            lemma_entry_views(m@);
            assert(entry_views(m@)[i as int] == (m@[i as int].0@, node_view(m@[i as int].1)));
        }
        if same(&m[i].0, key) {
            return Some(i);
        }
        i = i + 1;
    }
    None
}

} // verus!
