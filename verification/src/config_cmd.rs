//! `acs config …`: read and edit the configuration files from the command line.
//!
//! Edits go through the YAML tree, so a file keeps its comments and the order of
//! everything the edit did not touch; the result is parsed and validated again
//! before it replaces the file.

pub mod edit;
pub mod laws;
pub mod readback;
pub mod run;
pub mod show;

use self::show::{networks_list, networks_node};
use crate::config::duration::{duration_in, format_timeout, parse_duration, written};
use crate::config::entry::{networks_in_text, parse_networks, read_truth, truth};
use crate::config::{alias_bool_key, bool_key, duration_key, is_alias_bool_key, is_bool_key, is_duration_key};
use crate::text::{chars_of, join, joined_by, same, string_of, sub_vec, texts};
use crate::yaml::{bool_node, lemma_node_views, node_views, opt_text, text_node, Node, NodeView, Value, ValueView};
use vstd::prelude::*;

verus! {

pub const USAGE: &'static str = "\
usage: acs config show                 the merged configuration and where each value is from
       acs config get <key>            one setting's value
       acs config set <key> <value>    change a setting
       acs config unset <key>          remove a setting from the file
       acs config host list            every alias and its hosts
       acs config host add <alias> <host> [--user <login>] [--identity-file <key>]
                           [--no-reachability-check] [--prefer] [--persist]
                                       add a host to an alias (after its other hosts)
       acs config host remove <alias> [<host>]
                                       remove one host, or the whole alias
       acs config host set <alias> <setting> <value>
                                       one of the alias's own settings
       acs config host unset <alias> <setting>
                                       remove one of the alias's settings from the file
       acs config path                 the files acs reads

  --global  edit /etc/acs/config.yaml instead of ~/.config/acs/config.yaml

settings: install_on_remote, update_check, command_bell, redraw_on_reconnect,
          persist (true|false: keep waiting for a lost host; default false),
          reachability_timeout (how long an alias's hosts have to answer a ping:
          500ms, 0.5s, 2s; default 500ms),
          reachability_interval (how often a lost host is pinged; default 5s),
          prefer_local_network (true|false: try an alias's hosts on a network
          this machine is on first; default false),
          local_networks (networks counted as local on top of this machine's
          own, separated by commas: 172.16.0.0/16, fd00::/48; default none)
alias settings: identity_file <key> (the ssh key of its hosts that name none),
                redraw_on_reconnect, persist, prefer_local_network
                (true|false, over the global setting),
                reachability_timeout, reachability_interval, local_networks
                (over the global setting)
precedence of the ssh key: -i, then the host's identity_file, then the alias's";

/// Settings that `get`, `set` and `unset` know: every top-level key but `aliases`, and
/// `local_networks`.
pub open spec fn is_setting(k: Seq<char>) -> bool {
    is_bool_key(k) || is_duration_key(k) || k == "local_networks"@
}

fn setting(k: &str) -> (r: bool)
    ensures
        r == is_setting(k@),
{
    bool_key(k) || duration_key(k) || same(k, "local_networks")
}

/// Settings of an alias that `host set` and `host unset` know: every key of the
/// alias's mapping but its `hosts`, and `local_networks`.
pub open spec fn is_alias_setting(k: Seq<char>) -> bool {
    k == "identity_file"@ || is_alias_bool_key(k) || is_duration_key(k) || k == "local_networks"@
}

fn alias_setting(k: &str) -> (r: bool)
    ensures
        r == is_alias_setting(k@),
{
    same(k, "identity_file") || alias_bool_key(k) || duration_key(k) || same(k, "local_networks")
}

/// The keys of a host entry.
pub open spec fn is_host_key(k: Seq<char>) -> bool {
    k == "host"@ || k == "user"@ || k == "reachability_check"@ || k == "identity_file"@ || k
        == "persist"@ || k == "prefer"@ || k == "local_networks"@
}

fn host_key(k: &str) -> (r: bool)
    ensures
        r == is_host_key(k@),
{
    same(k, "host") || same(k, "user") || same(k, "reachability_check") || same(k, "identity_file")
        || same(k, "persist") || same(k, "prefer") || same(k, "local_networks")
}

pub open spec fn not_bool_text(key: Seq<char>, value: Seq<char>) -> Seq<char> {
    key + " is true or false, not '"@ + value + "'"@
}

fn not_bool(key: &str, value: &str) -> (s: String)
    ensures
        s@ == not_bool_text(key@, value@),
{
    let mut s = key.to_owned();
    s.append(" is true or false, not '");
    s.append(value);
    s.append("'");
    s
}

pub open spec fn keyed_text(key: Seq<char>, e: Seq<char>) -> Seq<char> {
    key + ": "@ + e
}

fn keyed(key: &str, e: &str) -> (s: String)
    ensures
        s@ == keyed_text(key@, e@),
{
    let mut s = key.to_owned();
    s.append(": ");
    s.append(e);
    s
}

pub open spec fn unknown_option_text(option: Seq<char>) -> Seq<char> {
    "unknown option "@ + option + " (see acs config --help)"@
}

fn unknown_option(option: &str) -> (s: String)
    ensures
        s@ == unknown_option_text(option@),
{
    let mut s = "unknown option ".to_owned();
    s.append(option);
    s.append(" (see acs config --help)");
    s
}

pub open spec fn unknown_alias_setting_text(key: Seq<char>) -> Seq<char> {
    "unknown alias setting '"@ + key + "' (settings: identity_file, redraw_on_reconnect, reachability_timeout, persist, reachability_interval, prefer_local_network, local_networks)"@
}

fn unknown_alias_setting(key: &str) -> (s: String)
    ensures
        s@ == unknown_alias_setting_text(key@),
{
    let mut s = "unknown alias setting '".to_owned();
    s.append(key);
    s.append("' (settings: identity_file, redraw_on_reconnect, reachability_timeout, persist, reachability_interval, prefer_local_network, local_networks)");
    s
}

pub open spec fn bad_arguments_text(words: Seq<char>) -> Seq<char> {
    "bad arguments: acs config "@ + words + " (see acs config --help)"@
}

fn bad_arguments(words: &str) -> (s: String)
    ensures
        s@ == bad_arguments_text(words@),
{
    let mut s = "bad arguments: acs config ".to_owned();
    s.append(words);
    s.append(" (see acs config --help)");
    s
}

pub open spec fn unknown_setting_text(key: Seq<char>, hint: Seq<char>) -> Seq<char> {
    "unknown setting '"@ + key + "' (settings: install_on_remote, update_check, command_bell, redraw_on_reconnect, reachability_timeout, persist, reachability_interval, prefer_local_network, local_networks)"@ + hint
}

fn unknown_setting(key: &str, hint: &str) -> (s: String)
    ensures
        s@ == unknown_setting_text(key@, hint@),
{
    let mut s = "unknown setting '".to_owned();
    s.append(key);
    s.append("' (settings: install_on_remote, update_check, command_bell, redraw_on_reconnect, reachability_timeout, persist, reachability_interval, prefer_local_network, local_networks)");
    s.append(hint);
    s
}

// ---- the values ------------------------------------------------------------

/// `value` as the node for setting `key`, global or an alias's.
pub open spec fn typed_as(key: Seq<char>, value: Seq<char>) -> Result<NodeView, Seq<char>> {
    if is_bool_key(key) || is_alias_bool_key(key) {
        match truth(value) {
            Some(b) => Ok(bool_node(b)),
            None => Err(not_bool_text(key, value)),
        }
    } else if is_duration_key(key) {
        match duration_in(key, value) {
            Ok(ms) => Ok(text_node(written(ms))),
            Err(e) => Err(keyed_text(key, e)),
        }
    } else if key == "local_networks"@ {
        match networks_in_text(value) {
            Ok(nets) => Ok(networks_node(nets)),
            Err(e) => Err(keyed_text(key, e)),
        }
    } else {
        Ok(text_node(value))
    }
}

fn parse_bool(key: &str, value: &str) -> (r: Result<bool, String>)
    ensures
        match r {
            Ok(b) => truth(value@) == Some(b),
            Err(e) => truth(value@) is None && e@ == not_bool_text(key@, value@),
        },
{
    match read_truth(value) {
        Some(b) => Ok(b),
        None => Err(not_bool(key, value)),
    }
}

/// `value` as the node for setting `key`, global or an alias's, checked against its
/// type.
pub fn typed(key: &str, value: &str) -> (r: Result<Node, String>)
    ensures
        match r {
            Ok(n) => typed_as(key@, value@) == Ok::<NodeView, Seq<char>>(n@),
            Err(e) => typed_as(key@, value@) == Err::<NodeView, Seq<char>>(e@),
        },
{
    if bool_key(key) || alias_bool_key(key) {
        Ok(Node::bool(parse_bool(key, value)?))
    } else if duration_key(key) {
        match parse_duration(key, value) {
            Ok(ms) => Ok(Node::string(&format_timeout(ms))),
            Err(e) => Err(keyed(key, &e)),
        }
    } else if same(key, "local_networks") {
        match parse_networks(value) {
            Ok(nets) => Ok(networks_list(&nets)),
            Err(e) => Err(keyed(key, &e)),
        }
    } else {
        Ok(Node::string(value))
    }
}

/// The text of a scalar; nothing for anything else.
pub open spec fn scalar_text(n: NodeView) -> Seq<char> {
    match n.value {
        ValueView::Scalar { text, .. } => text,
        _ => Seq::empty(),
    }
}

/// A setting's value on one line: a scalar as written, the items of a list separated
/// by commas.
pub open spec fn value_shown(n: NodeView) -> Seq<char> {
    match n.value {
        ValueView::List(items) => joined_by(items.map_values(|i: NodeView| scalar_text(i)), ", "@),
        _ => scalar_text(n),
    }
}

fn text(n: &Node) -> (s: String)
    ensures
        s@ == scalar_text(n@),
{
    match &n.value {
        Value::Scalar(s) => s.text.clone(),
        _ => String::new(),
    }
}

/// A setting's value on one line, as `get` prints it and `set` reports it.
pub fn value_text(n: &Node) -> (s: String)
    ensures
        s@ == value_shown(n@),
{
    match &n.value {
        Value::List(items) => {
            let mut v: Vec<String> = Vec::new();
            for i in 0..items.len()
                invariant
                    v@.len() == i,
                    forall|j: int| 0 <= j < i ==> (#[trigger] v@[j])@ == scalar_text(items@[j]@),
            {
                v.push(text(&items[i]));
            }
            proof {
                lemma_node_views(items@);
                assert(texts(v@) =~= node_views(items@).map_values(|i: NodeView| scalar_text(i)));
            }
            join(&v, ", ")
        },
        _ => text(n),
    }
}

/// A text starts with another.
pub open spec fn starts(s: Seq<char>, start: Seq<char>) -> bool {
    s.len() >= start.len() && s.take(start.len() as int) == start
}

/// What follows `start` in `s`, if `s` starts with it.
fn after(s: &str, start: &str) -> (r: Option<String>)
    ensures
        match r {
            Some(rest) => starts(s@, start@) && rest@ == s@.skip(start@.len() as int),
            None => !starts(s@, start@),
        },
{
    let (v, p) = (chars_of(s), chars_of(start));
    if v.len() < p.len() {
        return None;
    }
    let n: usize = p.len();
    let head = sub_vec(&v, 0, n);
    assert(head@ =~= s@.take(n as int));
    if !crate::text::same_chars(&head, &p) {
        return None;
    }
    let rest = sub_vec(&v, n, v.len());
    assert(rest@ =~= s@.skip(n as int));
    Some(string_of(&rest))
}

/// What is said of a setting that there is not.
pub open spec fn unknown_key_text(k: Seq<char>) -> Seq<char> {
    unknown_setting_text(
        k,
        if is_host_key(k) || starts(k, "aliases."@) {
            " (hosts are edited with acs config host add|remove|set|unset)"@
        } else {
            Seq::empty()
        },
    )
}

fn unknown_key(k: &str) -> (s: String)
    ensures
        s@ == unknown_key_text(k@),
{
    let hint = if host_key(k) || after(k, "aliases.").is_some() {
        " (hosts are edited with acs config host add|remove|set|unset)"
    } else {
        ""
    };
    proof {
        reveal_strlit("");
        assert(""@ =~= Seq::empty());
    }
    unknown_setting(k, hint)
}

// ---- the command -----------------------------------------------------------

/// What to do, parsed from the arguments after `config`.
#[derive(Debug, Clone, PartialEq, Eq)]
pub enum Cmd {
    Show,
    Path,
    Get(String),
    SetTo(String, String),
    Unset(String),
    HostList,
    HostAdd {
        alias: String,
        host: String,
        user: Option<String>,
        check: bool,
        identity_file: Option<String>,
        prefer: bool,
        persist: bool,
    },
    HostRemove {
        alias: String,
        host: Option<String>,
    },
    HostSet {
        alias: String,
        key: String,
        value: String,
    },
    HostUnset {
        alias: String,
        key: String,
    },
    Help,
}

#[verifier::ext_equal]
pub enum CmdView {
    Show,
    Path,
    Get(Seq<char>),
    SetTo(Seq<char>, Seq<char>),
    Unset(Seq<char>),
    HostList,
    HostAdd {
        alias: Seq<char>,
        host: Seq<char>,
        user: Option<Seq<char>>,
        check: bool,
        identity_file: Option<Seq<char>>,
        prefer: bool,
        persist: bool,
    },
    HostRemove { alias: Seq<char>, host: Option<Seq<char>> },
    HostSet { alias: Seq<char>, key: Seq<char>, value: Seq<char> },
    HostUnset { alias: Seq<char>, key: Seq<char> },
    Help,
}

impl View for Cmd {
    type V = CmdView;

    open spec fn view(&self) -> CmdView {
        match *self {
            Cmd::Show => CmdView::Show,
            Cmd::Path => CmdView::Path,
            Cmd::Get(k) => CmdView::Get(k@),
            Cmd::SetTo(k, v) => CmdView::SetTo(k@, v@),
            Cmd::Unset(k) => CmdView::Unset(k@),
            Cmd::HostList => CmdView::HostList,
            Cmd::HostAdd { alias, host, user, check, identity_file, prefer, persist } => CmdView::HostAdd {
                alias: alias@,
                host: host@,
                user: opt_text(user),
                check,
                identity_file: opt_text(identity_file),
                prefer,
                persist,
            },
            Cmd::HostRemove { alias, host } => CmdView::HostRemove {
                alias: alias@,
                host: opt_text(host),
            },
            Cmd::HostSet { alias, key, value } => CmdView::HostSet {
                alias: alias@,
                key: key@,
                value: value@,
            },
            Cmd::HostUnset { alias, key } => CmdView::HostUnset { alias: alias@, key: key@ },
            Cmd::Help => CmdView::Help,
        }
    }
}

/// A command that edits a file.
pub open spec fn is_edit(c: CmdView) -> bool {
    c is SetTo || c is Unset || c is HostAdd || c is HostRemove || c is HostSet || c is HostUnset
}

/// The arguments, with the options taken out.
#[derive(Debug)]
struct Words {
    global: bool,
    user: Option<String>,
    check: Option<bool>,
    identity: Option<String>,
    persist: bool,
    prefer: bool,
    words: Vec<String>,
}

/// The arguments, with the options taken out.
#[verifier::ext_equal]
pub struct WordsView {
    pub global: bool,
    pub user: Option<Seq<char>>,
    pub check: Option<bool>,
    pub identity: Option<Seq<char>>,
    pub persist: bool,
    pub prefer: bool,
    pub words: Seq<Seq<char>>,
}

impl View for Words {
    type V = WordsView;

    closed spec fn view(&self) -> WordsView {
        WordsView {
            global: self.global,
            user: opt_text(self.user),
            check: self.check,
            identity: opt_text(self.identity),
            persist: self.persist,
            prefer: self.prefer,
            words: texts(self.words@),
        }
    }
}

pub open spec fn no_words() -> WordsView {
    WordsView {
        global: false,
        user: None,
        check: None,
        identity: None,
        persist: false,
        prefer: false,
        words: Seq::empty(),
    }
}

/// What the arguments come to.
#[verifier::ext_equal]
pub enum Gathered {
    Words(WordsView),
    Help(bool),
    Wrong(Seq<char>),
}

/// One argument that stands by itself.
pub open spec fn word_taken(a: Seq<char>, w: WordsView) -> Result<WordsView, Seq<char>> {
    if a == "--global"@ {
        Ok(WordsView { global: true, ..w })
    } else if a == "--no-reachability-check"@ {
        Ok(WordsView { check: Some(false), ..w })
    } else if a == "--reachability-check"@ {
        Ok(WordsView { check: Some(true), ..w })
    } else if a == "--persist"@ {
        Ok(WordsView { persist: true, ..w })
    } else if a == "--prefer"@ {
        Ok(WordsView { prefer: true, ..w })
    } else if starts(a, "--user="@) {
        Ok(WordsView { user: Some(a.skip("--user="@.len() as int)), ..w })
    } else if starts(a, "--identity-file="@) {
        Ok(WordsView { identity: Some(a.skip("--identity-file="@.len() as int)), ..w })
    } else if a.len() > 1 && a[0] == '-' {
        Err(unknown_option_text(a))
    } else {
        Ok(WordsView { words: w.words.push(a), ..w })
    }
}

/// The arguments, with the options taken out.
pub open spec fn gathered(args: Seq<Seq<char>>, w: WordsView) -> Gathered
    decreases args.len(),
{
    if args.len() == 0 {
        Gathered::Words(w)
    } else {
        let a = args[0];
        if a == "--user"@ {
            if args.len() < 2 {
                Gathered::Wrong("--user needs a login name"@)
            } else {
                gathered(args.skip(2), WordsView { user: Some(args[1]), ..w })
            }
        } else if a == "--identity-file"@ {
            if args.len() < 2 {
                Gathered::Wrong("--identity-file needs a key file"@)
            } else {
                gathered(args.skip(2), WordsView { identity: Some(args[1]), ..w })
            }
        } else if a == "-h"@ || a == "--help"@ {
            Gathered::Help(w.global)
        } else {
            match word_taken(a, w) {
                Ok(w1) => gathered(args.skip(1), w1),
                Err(e) => Gathered::Wrong(e),
            }
        }
    }
}

/// The command that the words name.
pub open spec fn commanded(g: WordsView) -> Option<CmdView> {
    let w = g.words;
    if w.len() == 1 && w[0] == "show"@ {
        Some(CmdView::Show)
    } else if w.len() == 1 && w[0] == "path"@ {
        Some(CmdView::Path)
    } else if w.len() == 1 && w[0] == "help"@ {
        Some(CmdView::Help)
    } else if w.len() == 2 && w[0] == "get"@ {
        Some(CmdView::Get(w[1]))
    } else if w.len() == 3 && w[0] == "set"@ {
        Some(CmdView::SetTo(w[1], w[2]))
    } else if w.len() == 2 && w[0] == "unset"@ {
        Some(CmdView::Unset(w[1]))
    } else if w.len() >= 2 && w[0] == "host"@ {
        host_commanded(g)
    } else {
        None
    }
}

/// The command that the words after `host` name.
pub open spec fn host_commanded(g: WordsView) -> Option<CmdView> {
    let w = g.words;
    if w.len() == 2 && (w[1] == "list"@ || w[1] == "ls"@) {
        Some(CmdView::HostList)
    } else if w.len() == 4 && w[1] == "add"@ {
        Some(
            CmdView::HostAdd {
                alias: w[2],
                host: w[3],
                user: g.user,
                check: match g.check {
                    Some(c) => c,
                    None => true,
                },
                identity_file: g.identity,
                prefer: g.prefer,
                persist: g.persist,
            },
        )
    } else if w.len() == 3 && (w[1] == "remove"@ || w[1] == "rm"@) {
        Some(CmdView::HostRemove { alias: w[2], host: None })
    } else if w.len() == 4 && (w[1] == "remove"@ || w[1] == "rm"@) {
        Some(CmdView::HostRemove { alias: w[2], host: Some(w[3]) })
    } else if w.len() == 5 && w[1] == "set"@ && w[4].len() > 0 {
        Some(CmdView::HostSet { alias: w[2], key: w[3], value: w[4] })
    } else if w.len() == 4 && w[1] == "unset"@ {
        Some(CmdView::HostUnset { alias: w[2], key: w[3] })
    } else {
        None
    }
}

/// An option that only `host add` takes was given.
pub open spec fn has_host_options(g: WordsView) -> bool {
    g.user is Some || g.check is Some || g.identity is Some || g.persist || g.prefer
}

/// The command, once the words are judged together.
pub open spec fn understood(g: WordsView) -> Result<(CmdView, bool), Seq<char>> {
    let w = g.words;
    if g.identity == Some(Seq::<char>::empty()) {
        Err("--identity-file needs a key file"@)
    } else if w.len() >= 4 && w[0] == "host"@ && (w[1] == "set"@ || w[1] == "unset"@)
        && !is_alias_setting(w[3]) {
        Err(unknown_alias_setting_text(w[3]))
    } else {
        match commanded(g) {
            None => if w.len() == 0 {
                Err("acs config needs a command (see acs config --help)"@)
            } else {
                Err(bad_arguments_text(joined_by(w, " "@)))
            },
            Some(c) => if has_host_options(g) && !(c is HostAdd) {
                Err(
                    "--user, --identity-file and --[no-]reachability-check go with acs config host add"@,
                )
            } else {
                Ok((c, g.global))
            },
        }
    }
}

/// What the arguments after `config` ask for, and whether of the global file.
pub open spec fn asked(args: Seq<Seq<char>>) -> Result<(CmdView, bool), Seq<char>> {
    match gathered(args, no_words()) {
        Gathered::Words(g) => understood(g),
        Gathered::Help(global) => Ok((CmdView::Help, global)),
        Gathered::Wrong(e) => Err(e),
    }
}

impl Words {
    fn take(&mut self, a: &str) -> (r: Result<(), String>)
        ensures
            match r {
                Ok(_) => word_taken(a@, old(self)@) == Ok::<WordsView, Seq<char>>(final(self)@),
                Err(e) => word_taken(a@, old(self)@) == Err::<WordsView, Seq<char>>(e@),
            },
    {
        if same(a, "--global") {
            self.global = true;
        } else if same(a, "--no-reachability-check") {
            self.check = Some(false);
        } else if same(a, "--reachability-check") {
            self.check = Some(true);
        } else if same(a, "--persist") {
            self.persist = true;
        } else if same(a, "--prefer") {
            self.prefer = true;
        } else if let Some(user) = after(a, "--user=") {
            self.user = Some(user);
        } else if let Some(key) = after(a, "--identity-file=") {
            self.identity = Some(key);
        } else {
            let v = chars_of(a);
            if v.len() > 1 && v[0] == '-' {
                return Err(unknown_option(a));
            }
            let ghost had = self.words@;
            self.words.push(a.to_owned());
            assert(texts(self.words@) =~= texts(had).push(a@));
        }
        Ok(())
    }

    fn command(&self) -> (r: Option<Cmd>)
        ensures
            match r {
                None => commanded(self@) is None,
                Some(c) => commanded(self@) == Some(c@),
            },
    {
        let w = &self.words;
        let n: usize = w.len();
        let ghost v = self@.words;
        proof {
            assert(v.len() == n);
            assert(forall|i: int| 0 <= i < n ==> #[trigger] v[i] == w@[i]@);
        }
        if n == 1 && same(&w[0], "show") {
            Some(Cmd::Show)
        } else if n == 1 && same(&w[0], "path") {
            Some(Cmd::Path)
        } else if n == 1 && same(&w[0], "help") {
            Some(Cmd::Help)
        } else if n == 2 && same(&w[0], "get") {
            Some(Cmd::Get(w[1].clone()))
        } else if n == 3 && same(&w[0], "set") {
            Some(Cmd::SetTo(w[1].clone(), w[2].clone()))
        } else if n == 2 && same(&w[0], "unset") {
            Some(Cmd::Unset(w[1].clone()))
        } else if n >= 2 && same(&w[0], "host") {
            self.host_command()
        } else {
            None
        }
    }

    fn host_command(&self) -> (r: Option<Cmd>)
        requires
            self@.words.len() >= 2,
        ensures
            match r {
                None => host_commanded(self@) is None,
                Some(c) => host_commanded(self@) == Some(c@),
            },
    {
        let w = &self.words;
        let n: usize = w.len();
        let ghost v = self@.words;
        proof {
            assert(v.len() == n);
            assert(forall|i: int| 0 <= i < n ==> #[trigger] v[i] == w@[i]@);
        }
        if n == 2 && (same(&w[1], "list") || same(&w[1], "ls")) {
            Some(Cmd::HostList)
        } else if n == 4 && same(&w[1], "add") {
            Some(
                Cmd::HostAdd {
                    alias: w[2].clone(),
                    host: w[3].clone(),
                    user: match &self.user {
                        Some(u) => Some(u.clone()),
                        None => None,
                    },
                    check: match self.check {
                        Some(c) => c,
                        None => true,
                    },
                    identity_file: match &self.identity {
                        Some(k) => Some(k.clone()),
                        None => None,
                    },
                    prefer: self.prefer,
                    persist: self.persist,
                },
            )
        } else if n == 3 && (same(&w[1], "remove") || same(&w[1], "rm")) {
            Some(Cmd::HostRemove { alias: w[2].clone(), host: None })
        } else if n == 4 && (same(&w[1], "remove") || same(&w[1], "rm")) {
            Some(Cmd::HostRemove { alias: w[2].clone(), host: Some(w[3].clone()) })
        } else if n == 5 && same(&w[1], "set") && !w[4].as_str().is_empty() {
            Some(Cmd::HostSet { alias: w[2].clone(), key: w[3].clone(), value: w[4].clone() })
        } else if n == 4 && same(&w[1], "unset") {
            Some(Cmd::HostUnset { alias: w[2].clone(), key: w[3].clone() })
        } else {
            None
        }
    }

    fn understand(&self) -> (r: Result<(Cmd, bool), String>)
        ensures
            match r {
                Ok(c) => understood(self@) == Ok::<(CmdView, bool), Seq<char>>((c.0@, c.1)),
                Err(e) => understood(self@) == Err::<(CmdView, bool), Seq<char>>(e@),
            },
    {
        let w = &self.words;
        let n: usize = w.len();
        proof {
            let v = self@.words;
            assert(v.len() == n);
            assert(forall|i: int| 0 <= i < n ==> #[trigger] v[i] == w@[i]@);
        }
        if let Some(key) = &self.identity {
            if key.as_str().is_empty() {
                assert(key@ =~= Seq::empty());
                return Err("--identity-file needs a key file".to_owned());
            }
        }
        if n >= 4 && same(&w[0], "host") && (same(&w[1], "set") || same(&w[1], "unset"))
            && !alias_setting(&w[3]) {
            return Err(unknown_alias_setting(&w[3]));
        }
        match self.command() {
            None => if n == 0 {
                Err("acs config needs a command (see acs config --help)".to_owned())
            } else {
                Err(bad_arguments(&join(w, " ")))
            },
            Some(c) => {
                let added = match &c {
                    Cmd::HostAdd { .. } => true,
                    _ => false,
                };
                if !added && (self.user.is_some() || self.check.is_some() || self.identity.is_some()
                    || self.persist || self.prefer) {
                    Err(
                        "--user, --identity-file and --[no-]reachability-check go with acs config host add".to_owned(),
                    )
                } else {
                    Ok((c, self.global))
                }
            },
        }
    }
}

/// Parse `acs config` arguments; the `bool` is `--global`.
pub fn parse(args: &[String]) -> (r: Result<(Cmd, bool), String>)
    ensures
        match r {
            Ok(c) => asked(texts(args@)) == Ok::<(CmdView, bool), Seq<char>>((c.0@, c.1)),
            Err(e) => asked(texts(args@)) == Err::<(CmdView, bool), Seq<char>>(e@),
        },
{
    let ghost all = texts(args@);
    let mut w = Words {
        global: false,
        user: None,
        check: None,
        identity: None,
        persist: false,
        prefer: false,
        words: Vec::new(),
    };
    assert(w@ =~= no_words());
    assert(all.skip(0) =~= all);
    let n: usize = args.len();
    let mut i: usize = 0;
    while i < n
        invariant
            i <= n,
            n == args@.len(),
            all == texts(args@),
            gathered(all.skip(i as int), w@) == gathered(all, no_words()),
        decreases n - i,
    {
        let a = &args[i];
        proof {
            let here = all.skip(i as int);
            assert(here[0] == a@);
            assert(here.skip(1) =~= all.skip(i + 1));
            if i + 1 < n {
                assert(here[1] == args@[i + 1]@);
                assert(here.skip(2) =~= all.skip(i + 2));
            }
        }
        if same(a, "--user") {
            if n - i < 2 {
                return Err("--user needs a login name".to_owned());
            }
            w.user = Some(args[i + 1].clone());
            i = i + 2;
        } else if same(a, "--identity-file") {
            if n - i < 2 {
                return Err("--identity-file needs a key file".to_owned());
            }
            w.identity = Some(args[i + 1].clone());
            i = i + 2;
        } else if same(a, "-h") || same(a, "--help") {
            return Ok((Cmd::Help, w.global));
        } else {
            w.take(a)?;
            i = i + 1;
        }
    }
    w.understand()
}

} // verus!
