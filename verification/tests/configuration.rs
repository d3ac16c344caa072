//! The configuration: reading it, editing it with `acs config`, and the aliases in it.

use std::cell::RefCell;

use acs::alias::{
    caller_side, locate, pick, ping6_args, ping_args, ping_said, pings, rank, ranked, resolve, split_user, Local,
    Pick, Pinged,
};
use acs::cli::{parse as parse_args, ClientArgs, Parsed};
use acs::client::connect::{persist, reachability_interval};
use acs::config::apply::Source;
use acs::config::duration::{format_timeout, parse_duration, parse_timeout};
use acs::config::{
    expand_home, global_path, local_path, Config, HostEntry, Setting, ALIAS_KEYS, HOST_KEYS, KEYS,
};
use acs::config_cmd::edit::edit;
use acs::config_cmd::show::{host_list, scalar, show};
use acs::config_cmd::{parse as parse_cmd, typed, value_text, Cmd};
use acs::netmatch::ip::Ip;
use acs::netmatch::LocalNet;
use acs::yaml::{Document, Node, Scalar, Style, Value};

// ---- YAML ------------------------------------------------------------------

/// One line of a file: its number, its indentation, and what stands on it.
struct Line {
    number: usize,
    indent: usize,
    text: String,
    comment: Option<String>,
    before: Vec<String>,
}

/// Where the comment behind a value starts.
fn comment_at(s: &str) -> Option<usize> {
    let mut quote = None;
    let mut last = ' ';
    for (i, c) in s.char_indices() {
        match quote {
            Some(q) => {
                if c == q {
                    quote = None;
                }
            }
            None => {
                if c == '"' || c == '\'' {
                    quote = Some(c);
                } else if c == '#' && last == ' ' {
                    return Some(i);
                }
            }
        }
        last = c;
    }
    None
}

fn lines_of(src: &str) -> (Vec<Line>, Vec<String>) {
    let mut lines = Vec::new();
    let mut before: Vec<String> = Vec::new();
    for (n, raw) in src.lines().enumerate() {
        let trimmed = raw.trim();
        if trimmed.is_empty() || trimmed.starts_with('#') {
            before.push(trimmed.to_string());
            continue;
        }
        let indent = raw.len() - raw.trim_start().len();
        let (text, comment) = match comment_at(trimmed) {
            Some(i) => (trimmed[..i].trim_end().to_string(), Some(trimmed[i..].to_string())),
            None => (trimmed.to_string(), None),
        };
        lines.push(Line {
            number: n + 1,
            indent,
            text,
            comment,
            before: std::mem::take(&mut before),
        });
    }
    (lines, before)
}

fn plain(text: &str) -> Value {
    if text.is_empty() || text == "~" || text == "null" {
        return Value::Null;
    }
    let style = match text.chars().next() {
        Some('"') | Some('\'') => Style::Quoted,
        _ => Style::Plain,
    };
    let text = match style {
        Style::Quoted => text[1..text.len() - 1].to_string(),
        Style::Plain => text.to_string(),
    };
    Value::Scalar(Scalar { text, style })
}

fn node(value: Value, line: usize, flow: bool) -> Node {
    Node {
        value,
        line,
        before: Vec::new(),
        comment: None,
        flow,
    }
}

/// A value written on one line.
struct Flow<'a> {
    rest: &'a str,
    line: usize,
}

impl Flow<'_> {
    fn skip(&mut self) {
        self.rest = self.rest.trim_start();
    }

    fn value(&mut self) -> Node {
        self.skip();
        if let Some(rest) = self.rest.strip_prefix('[') {
            self.rest = rest;
            let mut items = Vec::new();
            loop {
                self.skip();
                if let Some(rest) = self.rest.strip_prefix(']') {
                    self.rest = rest;
                    return node(Value::List(items), self.line, true);
                }
                items.push(self.value());
                self.skip();
                self.rest = self.rest.strip_prefix(',').unwrap_or(self.rest);
            }
        }
        if let Some(rest) = self.rest.strip_prefix('{') {
            self.rest = rest;
            let mut entries = Vec::new();
            loop {
                self.skip();
                if let Some(rest) = self.rest.strip_prefix('}') {
                    self.rest = rest;
                    return node(Value::Mapping(entries), self.line, true);
                }
                let (key, rest) = self.rest.split_once(':').unwrap();
                self.rest = rest;
                let value = self.value();
                entries.push((key.trim().to_string(), value));
                self.skip();
                self.rest = self.rest.strip_prefix(',').unwrap_or(self.rest);
            }
        }
        let end = match self.rest.chars().next() {
            Some(q @ ('"' | '\'')) => self.rest[1..].find(q).unwrap() + 2,
            _ => self.rest.find([',', ']', '}']).unwrap_or(self.rest.len()),
        };
        let (text, rest) = self.rest.split_at(end);
        self.rest = rest;
        node(plain(text.trim()), self.line, false)
    }
}

fn inline(text: &str, line: usize) -> Node {
    if text.starts_with('[') || text.starts_with('{') {
        return Flow { rest: text, line }.value();
    }
    node(plain(text), line, false)
}

/// A key and what stands behind it on its line.
fn key_of(text: &str) -> Option<(String, String)> {
    if let Some(key) = text.strip_suffix(':') {
        return Some((key.to_string(), String::new()));
    }
    let (key, rest) = text.split_once(": ")?;
    Some((key.to_string(), rest.trim().to_string()))
}

fn is_item(text: &str) -> bool {
    text == "-" || text.starts_with("- ")
}

/// The block at `at`, whose lines stand at `indent`.
fn block(lines: &mut Vec<Line>, at: &mut usize, indent: usize) -> Result<Value, String> {
    if is_item(&lines[*at].text) {
        let mut items = Vec::new();
        while *at < lines.len() && lines[*at].indent == indent && is_item(&lines[*at].text) {
            let number = lines[*at].number;
            let before = std::mem::take(&mut lines[*at].before);
            let rest = lines[*at].text[1..].trim_start().to_string();
            let mut item = if !rest.starts_with('{') && key_of(&rest).is_some() {
                // The item's mapping starts on its line.
                lines[*at].indent = indent + 2;
                lines[*at].text = rest;
                let value = block(lines, at, indent + 2)?;
                node(value, number, false)
            } else {
                let mut n = inline(&rest, number);
                n.comment = lines[*at].comment.take();
                *at += 1;
                n
            };
            item.before = before;
            items.push(item);
        }
        return Ok(Value::List(items));
    }
    let mut entries = Vec::new();
    while *at < lines.len() && lines[*at].indent == indent && !is_item(&lines[*at].text) {
        let number = lines[*at].number;
        let before = std::mem::take(&mut lines[*at].before);
        let comment = lines[*at].comment.take();
        let (key, rest) =
            key_of(&lines[*at].text).ok_or(format!("{number}: expected 'key: value'"))?;
        *at += 1;
        let mut n = if rest.is_empty() {
            let nested = *at < lines.len()
                && (lines[*at].indent > indent
                    || (lines[*at].indent == indent && is_item(&lines[*at].text)));
            if nested {
                let deeper = lines[*at].indent;
                node(block(lines, at, deeper)?, number, false)
            } else {
                node(Value::Null, number, false)
            }
        } else {
            inline(&rest, number)
        };
        if *at < lines.len() && lines[*at].indent > indent {
            return Err(format!("{}: unexpected indentation", lines[*at].number));
        }
        n.before = before;
        n.comment = comment;
        entries.push((key, n));
    }
    Ok(Value::Mapping(entries))
}

fn read_yaml(src: &str) -> Result<Document, String> {
    let (mut lines, tail) = lines_of(src);
    if lines.is_empty() {
        return Ok(Document {
            root: node(Value::Null, 1, false),
            tail,
        });
    }
    let (number, indent) = (lines[0].number, lines[0].indent);
    let mut at = 0;
    let value = block(&mut lines, &mut at, indent)?;
    if at < lines.len() {
        return Err(format!("{}: unexpected indentation", lines[at].number));
    }
    Ok(Document {
        root: node(value, number, false),
        tail,
    })
}

fn written(n: &Node) -> String {
    match &n.value {
        Value::Null => String::new(),
        Value::Scalar(s) => match s.style {
            Style::Plain => s.text.clone(),
            Style::Quoted => format!("\"{}\"", s.text),
        },
        Value::List(items) => {
            let items: Vec<String> = items.iter().map(written).collect();
            format!("[{}]", items.join(", "))
        }
        Value::Mapping(entries) => {
            let entries: Vec<String> =
                entries.iter().map(|(k, n)| format!("{k}: {}", written(n))).collect();
            format!("{{{}}}", entries.join(", "))
        }
    }
}

fn put_lines(out: &mut String, lines: &[String], pad: &str) {
    for l in lines {
        match l.is_empty() {
            true => out.push('\n'),
            false => out.push_str(&format!("{pad}{l}\n")),
        }
    }
}

fn behind(n: &Node) -> String {
    n.comment.as_ref().map_or(String::new(), |c| format!(" {c}"))
}

fn put_value(out: &mut String, n: &Node, indent: usize) {
    match &n.value {
        Value::List(items) if !n.flow && !items.is_empty() => {
            out.push_str(&format!("{}\n", behind(n)));
            for item in items {
                put_item(out, item, indent + 2);
            }
        }
        Value::Mapping(entries) if !n.flow && !entries.is_empty() => {
            out.push_str(&format!("{}\n", behind(n)));
            for (k, e) in entries {
                put_entry(out, k, e, indent + 2, true);
            }
        }
        Value::Null => out.push_str(&format!("{}\n", behind(n))),
        _ => out.push_str(&format!(" {}{}\n", written(n), behind(n))),
    }
}

fn put_entry(out: &mut String, key: &str, n: &Node, indent: usize, pad: bool) {
    let space = " ".repeat(indent);
    if pad {
        put_lines(out, &n.before, &space);
        out.push_str(&space);
    }
    out.push_str(&format!("{key}:"));
    put_value(out, n, indent);
}

fn put_item(out: &mut String, n: &Node, indent: usize) {
    let space = " ".repeat(indent);
    put_lines(out, &n.before, &space);
    out.push_str(&format!("{space}- "));
    match &n.value {
        Value::Mapping(entries) if !n.flow => {
            for (i, (k, e)) in entries.iter().enumerate() {
                put_entry(out, k, e, indent + 2, i > 0);
            }
        }
        _ => out.push_str(&format!("{}{}\n", written(n), behind(n))),
    }
}

fn write_yaml(doc: &Document) -> String {
    let mut out = String::new();
    put_lines(&mut out, &doc.root.before, "");
    if let Value::Mapping(entries) = &doc.root.value {
        for (k, n) in entries {
            put_entry(&mut out, k, n, 0, true);
        }
    }
    put_lines(&mut out, &doc.tail, "");
    out
}

// ---- reading it ------------------------------------------------------------

/// A file and what is in it.
fn source(file: &str, text: &str) -> Result<Source, String> {
    let doc = read_yaml(text).map_err(|e| format!("{file}:{e}"))?;
    Ok(Source {
        file: file.to_string(),
        doc: Some(doc),
    })
}

fn load(global: &str, local: &str) -> Result<Config, String> {
    Config::load_files(&[source("/x/global.yaml", global)?, source("/x/local.yaml", local)?])
}

fn hosts(c: &Config, alias: &str) -> Vec<String> {
    c.alias(alias)
        .unwrap()
        .entries
        .iter()
        .map(|e| format!("{}/{}", e.destination(), e.reachability_check))
        .collect()
}

#[test]
fn defaults_without_files() {
    let none = Source {
        file: "none.yaml".to_string(),
        doc: None,
    };
    let c = Config::load_files(&[none]).unwrap();
    assert!(c.install_on_remote.value);
    assert_eq!(c.install_on_remote.origin, None);
    assert!(c.command_bell.value);
    assert!(c.hosts.is_empty());
    assert!(c.files.is_empty());
    assert_eq!(c, Config::default());
}

#[test]
fn local_scalars_override_global_ones() {
    let c = load("install_on_remote: false\n", "install_on_remote: true\n").unwrap();
    assert!(c.install_on_remote.value);
    let o = c.install_on_remote.origin.unwrap();
    assert!(o.file.ends_with("local.yaml") && o.line == 1, "{o:?}");

    let c = load("install_on_remote: false\n", "# nothing here\n").unwrap();
    assert!(!c.install_on_remote.value);
    assert!(c
        .install_on_remote
        .origin
        .unwrap()
        .file
        .ends_with("global.yaml"));

    // An empty value sets nothing.
    let c = load("install_on_remote: false\n", "install_on_remote:\n").unwrap();
    assert!(!c.install_on_remote.value);
}

#[test]
fn host_maps_merge_and_lists_concatenate() {
    let g = "aliases:\n  devbox:\n    - host: devbox.lan\n  nas:\n    - host: nas.lan\n      reachability_check: false\n";
    let l = "aliases:\n  devbox:\n    - host: devbox.example.com\n      user: me\n  pi:\n    host: pi.lan\n";
    let c = load(g, l).unwrap();
    assert_eq!(
        hosts(&c, "devbox"),
        ["devbox.lan/true", "me@devbox.example.com/true"]
    );
    assert_eq!(hosts(&c, "nas"), ["nas.lan/false"]);
    // A single entry needs no list.
    assert_eq!(hosts(&c, "pi"), ["pi.lan/true"]);
    let order: Vec<&str> = c.hosts.iter().map(|a| a.name.as_str()).collect();
    assert_eq!(order, ["devbox", "nas", "pi"]);
    let second = &c.alias("devbox").unwrap().entries[1];
    assert!(second.origin.file.ends_with("local.yaml"));
    assert_eq!(second.origin.line, 3);
}

#[test]
fn errors_name_the_file_and_line() {
    let cases: &[(&str, &str)] = &[
        (
            "install_on_remote: maybe\n",
            ":1: install_on_remote: expected true or false",
        ),
        (
            "install_on_remote: \"true\"\n",
            ":1: install_on_remote: expected true or false, found the string",
        ),
        (
            "x: 1\n",
            ":1: unknown setting 'x' (known: install_on_remote, update_check, command_bell, redraw_on_reconnect, reachability_timeout, persist, reachability_interval, prefer_local_network, aliases)",
        ),
        ("aliases: [a]\n", ":1: aliases: expected a mapping"),
        // A bad network on a host entry, and the setting's
        // old homes -- global and per alias -- which it no longer has.
        (
            "aliases:\n  d:\n    - host: a\n      local_networks: [172.16.0.0]\n",
            ":3: aliases.d: local_networks: expected a network such as 172.16.0.0/16 or fd00::/48, found '172.16.0.0' (line 4)",
        ),
        (
            "aliases:\n  d:\n    - host: a\n      local_networks: [0.0.0.0/0]\n",
            ":3: aliases.d: local_networks: '0.0.0.0/0': a /0 network is every address (line 4)",
        ),
        (
            "aliases:\n  d:\n    - host: a\n      local_networks: [172.16.0.0/16, fd00::/200]\n",
            ":3: aliases.d: local_networks: 'fd00::/200': /200 is too long for an IPv6 network (at most /128) (line 4)",
        ),
        (
            "aliases:\n  d:\n    - host: a\n      local_networks: {a: b}\n",
            ":3: aliases.d: local_networks: expected a list of networks such as [172.16.0.0/16, fd00::/48], found a mapping (line 4)",
        ),
        (
            "local_networks: [172.16.0.0/16]\n",
            ":1: unknown setting 'local_networks'",
        ),
        (
            "aliases:\n  d:\n    local_networks: [172.16.0.0/16]\n    hosts: [a]\n",
            ":3: aliases.d: unknown key 'local_networks'",
        ),
        // The old name of the key says what it is now.
        (
            "command_bell: false\nhosts:\n  d:\n    - host: a\n",
            ":2: 'hosts' is now 'aliases': rename the key",
        ),
        (
            "aliases:\n  d: foo\n",
            ":2: aliases.d: expected a list of hosts",
        ),
        (
            "aliases:\n  d:\n    - user: me\n",
            ":3: aliases.d: a host entry needs 'host: <name>'",
        ),
        (
            "aliases:\n  d:\n    - host: a\n      port: 22\n",
            ":3: aliases.d: unknown key 'port'",
        ),
        (
            "aliases:\n  d:\n    - host: me@a\n",
            ":3: aliases.d: host: bad host name",
        ),
        (
            "aliases:\n  d:\n    - host: a\n      reachability_check: 1\n",
            "reachability_check: expected true or false, found '1' (line 4)",
        ),
        ("aliases:\n  d: []\n", ":2: aliases.d: no hosts listed"),
        (
            "aliases:\n  a@b:\n    - host: x\n",
            ":2: bad alias name 'a@b'",
        ),
        ("- 1\n", ":1: expected settings as 'key: value' lines"),
        ("a: 1\n  b: 2\n", ":2: unexpected indentation"),
    ];
    for (src, want) in cases {
        let e = load("", src).unwrap_err();
        assert!(e.contains("local.yaml") && e.contains(want), "{src:?}: {e}");
    }
}

fn identity(s: &Option<Setting<String>>) -> Option<String> {
    s.as_ref().map(|s| {
        let o = s.origin.as_ref().unwrap();
        let f = o.file.rsplit('/').next().unwrap();
        format!("{}@{f}:{}", s.value, o.line)
    })
}

#[test]
fn identity_files_at_the_alias_and_the_entry() {
    let l = "\
aliases:
  devbox:
    identity_file: ~/.ssh/id_devbox
    hosts:
      - host: devbox.lan
        identity_file: ~/.ssh/id_lan
      - host: devbox.example.com
  nas: {identity_file: /keys/nas, hosts: [{host: nas.lan}]}
  pi:
    host: pi.lan
    identity_file: ~/.ssh/id_pi
";
    let c = load("", l).unwrap();
    let d = c.alias("devbox").unwrap();
    assert_eq!(
        identity(&d.identity_file).as_deref(),
        Some("~/.ssh/id_devbox@local.yaml:3")
    );
    assert_eq!(
        identity(&d.entries[0].identity_file).as_deref(),
        Some("~/.ssh/id_lan@local.yaml:6")
    );
    assert_eq!(d.entries[1].identity_file, None);
    assert_eq!(hosts(&c, "devbox").len(), 2);
    let nas = c.alias("nas").unwrap();
    assert_eq!(nas.identity_file.as_ref().unwrap().value, "/keys/nas");
    assert_eq!(hosts(&c, "nas"), ["nas.lan/true"]);
    // One entry without a list keeps its own key: it is not the alias's.
    let pi = c.alias("pi").unwrap();
    assert_eq!(pi.identity_file, None);
    assert_eq!(
        pi.entries[0].identity_file.as_ref().unwrap().value,
        "~/.ssh/id_pi"
    );
}

#[test]
fn the_local_alias_identity_replaces_the_global_one() {
    let g = "aliases:\n  devbox:\n    identity_file: /etc/key\n    hosts:\n      - host: devbox.lan\n";
    // A file may set only the alias's key, over another file's hosts.
    let l = "aliases:\n  devbox:\n    identity_file: ~/.ssh/mine\n";
    let c = load(g, l).unwrap();
    let d = c.alias("devbox").unwrap();
    assert_eq!(
        identity(&d.identity_file).as_deref(),
        Some("~/.ssh/mine@local.yaml:3")
    );
    assert_eq!(hosts(&c, "devbox"), ["devbox.lan/true"]);
    assert!(d.origin.file.ends_with("global.yaml"));

    // An empty value sets nothing; a list adds hosts and keeps the key.
    let c = load(g, "aliases:\n  devbox:\n    identity_file:\n").unwrap();
    assert_eq!(
        identity(&c.alias("devbox").unwrap().identity_file).as_deref(),
        Some("/etc/key@global.yaml:3")
    );
    let c = load(g, "aliases:\n  devbox:\n    - host: devbox.example.com\n").unwrap();
    assert_eq!(
        c.alias("devbox")
            .unwrap()
            .identity_file
            .as_ref()
            .unwrap()
            .value,
        "/etc/key"
    );
    assert_eq!(hosts(&c, "devbox").len(), 2);
}

#[test]
fn an_alias_needs_a_host_in_some_file() {
    let e = load("", "aliases:\n  devbox:\n    identity_file: ~/.ssh/k\n").unwrap_err();
    assert!(
        e.contains("local.yaml:2: aliases.devbox: no hosts listed"),
        "{e}"
    );
    let e = load(
        "",
        "aliases:\n  devbox:\n    identity_file: k\n    hosts: []\n",
    )
    .unwrap_err();
    assert!(
        e.contains("local.yaml:4: aliases.devbox: no hosts listed"),
        "{e}"
    );
}

#[test]
fn identity_file_errors_name_the_file_and_line() {
    let cases: &[(&str, &str)] = &[
        (
            "aliases:\n  d:\n    identity_file: [a, b]\n    hosts:\n      - host: a\n",
            ":3: aliases.d: identity_file: expected a file path, found a list",
        ),
        (
            "aliases:\n  d:\n    identity_file: \"\"\n",
            ":3: aliases.d: identity_file: expected a file path, found an empty string",
        ),
        (
            "aliases:\n  d:\n    user: me\n",
            ":3: aliases.d: unknown key 'user' (an alias takes identity_file, redraw_on_reconnect, reachability_timeout, persist, reachability_interval, prefer_local_network, hosts; a single host entry needs 'host: <name>')",
        ),
        (
            "aliases:\n  d:\n    - host: a\n      identity_file: {k: v}\n",
            ":3: aliases.d: identity_file: expected a file path, found a mapping (line 4)",
        ),
        (
            "aliases:\n  d:\n    hosts: x\n",
            ":3: aliases.d: expected a list of hosts",
        ),
    ];
    for (src, want) in cases {
        let e = load("", src).unwrap_err();
        assert!(e.contains("local.yaml") && e.contains(want), "{src:?}: {e}");
    }
}

#[test]
fn redraw_on_reconnect_the_alias_over_the_global_over_the_default() {
    let at = |s: &Setting<bool>| {
        let line = s.origin.as_ref().map_or(0, |o| o.line);
        format!("{}@{line}", s.value)
    };
    // Nothing set: on.
    let c = load("", "aliases:\n  d:\n    - host: a\n").unwrap();
    assert_eq!(at(c.redraw_on_reconnect_for(Some("d"))), "true@0");
    assert_eq!(at(c.redraw_on_reconnect_for(None)), "true@0");

    let g = "redraw_on_reconnect: false\naliases:\n  d:\n    - host: a\n  e:\n    - host: b\n";
    let l = "aliases:\n  d:\n    redraw_on_reconnect: true\n";
    let c = load(g, l).unwrap();
    // The alias's own setting wins, as `user@<alias>` too; an alias
    // without one, a plain host and an unknown name take the global one.
    assert_eq!(at(c.redraw_on_reconnect_for(Some("d"))), "true@3");
    assert_eq!(at(c.redraw_on_reconnect_for(Some("me@d"))), "true@3");
    assert_eq!(at(c.redraw_on_reconnect_for(Some("e"))), "false@1");
    assert_eq!(at(c.redraw_on_reconnect_for(None)), "false@1");
    assert_eq!(at(c.redraw_on_reconnect_for(Some("other"))), "false@1");
    let d = c.alias("d").unwrap();
    assert!(d
        .redraw_on_reconnect
        .as_ref()
        .unwrap()
        .origin
        .as_ref()
        .unwrap()
        .file
        .ends_with("local.yaml"));
    assert_eq!(hosts(&c, "d"), ["a/true"]);

    // The local file's alias setting replaces the global file's; an
    // empty value sets nothing.
    let g = "aliases:\n  d:\n    redraw_on_reconnect: false\n    hosts: [{host: a}]\n";
    let c = load(g, "aliases:\n  d:\n    redraw_on_reconnect: true\n").unwrap();
    assert_eq!(at(c.redraw_on_reconnect_for(Some("d"))), "true@3");
    let c = load(g, "aliases:\n  d:\n    redraw_on_reconnect:\n").unwrap();
    assert_eq!(at(c.redraw_on_reconnect_for(Some("d"))), "false@3");

    let e = load(
        "",
        "aliases:\n  d:\n    redraw_on_reconnect: 0\n    hosts: [{host: a}]\n",
    )
    .unwrap_err();
    assert!(
        e.contains(
            "local.yaml:3: aliases.d: redraw_on_reconnect: expected true or false, found '0'"
        ),
        "{e}"
    );
    let e = load("", "redraw_on_reconnect: yes\n").unwrap_err();
    assert!(
        e.contains(":1: redraw_on_reconnect: expected true or false"),
        "{e}"
    );
}

#[test]
fn home_is_expanded_like_the_shell_would() {
    let home = "/home/me";
    assert_eq!(expand_home("~/.ssh/id", Some(home)), format!("{home}/.ssh/id"));
    assert_eq!(expand_home("~", Some(home)), home);
    for p in ["~bob/.ssh/id", "/abs/~/x", "rel/key", "~x"] {
        assert_eq!(expand_home(p, Some(home)), p);
    }
    assert_eq!(expand_home("~/.ssh/id", None), "~/.ssh/id");
}

#[test]
fn persist_at_every_level_and_reachability_interval() {
    let c = load("", "aliases:\n  a: [{host: a1}]\n").unwrap();
    assert!(!c.persist.value);
    assert_eq!(c.reachability_interval.value, 5000);
    let c = load(
        "persist: true\nreachability_interval: 10s\n",
        "aliases:\n  a:\n    persist: false\n    reachability_interval: 1s\n    hosts:\n      - host: a1\n        persist: true\n      - host: a2\n",
    )
    .unwrap();
    let a = c.alias("a").unwrap();
    assert!(c.persist_for(Some(a), Some(&a.entries[0])).value);
    assert!(!c.persist_for(Some(a), Some(&a.entries[1])).value);
    assert!(!c.persist_for(Some(a), None).value);
    assert!(c.persist_for(None, None).value);
    assert_eq!(
        c.persist_for(Some(a), Some(&a.entries[0]))
            .origin
            .as_ref()
            .unwrap()
            .line,
        7
    );
    assert_eq!(
        c.reachability_interval_for(Some(a)).value,
        1000
    );
    assert_eq!(
        c.reachability_interval_for(None).value,
        10000
    );
    for (text, why) in [
        (
            "reachability_interval: 50ms\n",
            "'50ms' is too short: at least 100ms",
        ),
        ("reachability_interval: 2h\n", "expected a duration"),
        (
            "reachability_interval: 3601\n",
            "'3601' is too long: at most 3600s",
        ),
        ("persist: yes\n", "persist: expected true or false"),
        (
            "aliases:\n  d:\n    - host: a\n      persist: 1\n",
            "persist: expected true or false, found '1' (line 4)",
        ),
    ] {
        let e = load("", text).unwrap_err();
        assert!(e.contains(why), "{text:?}: {e}");
    }
    assert_eq!(
        parse_duration("reachability_interval", "0.1"),
        Ok(100)
    );
}

#[test]
fn reachability_timeout_globally_and_per_alias() {
    let c = load("", "aliases:\n  a: [{host: a1}]\n").unwrap();
    assert_eq!(c.reachability_timeout.value, 500);
    assert_eq!(c.reachability_timeout.origin, None);
    let c = load(
        "reachability_timeout: 2s\naliases:\n  a:\n    reachability_timeout: 250ms\n    hosts: [{host: a1}]\n  b: [{host: b1}]\n",
        "reachability_timeout: 1.5\n",
    )
    .unwrap();
    // The local file's global value replaces the global file's; an
    // alias's own wins over both.
    assert_eq!(c.reachability_timeout.value, 1500);
    assert_eq!(c.reachability_timeout.origin.as_ref().unwrap().line, 1);
    let a = c.reachability_timeout_for(c.alias("a").unwrap());
    assert_eq!(a.value, 250);
    assert_eq!(a.origin.as_ref().unwrap().line, 4);
    let b = c.reachability_timeout_for(c.alias("b").unwrap());
    assert_eq!(b.value, 1500);
    // Set on an alias whose hosts are in the other file.
    let c = load(
        "aliases:\n  a: [{host: a1}]\n",
        "aliases:\n  a:\n    reachability_timeout: 3s\n",
    )
    .unwrap();
    let a = c.alias("a").unwrap();
    assert_eq!(c.reachability_timeout_for(a).value, 3000);
    assert_eq!(a.entries.len(), 1);
}

#[test]
fn durations_are_read_and_written() {
    for (text, ms) in [
        ("500ms", 500),
        ("0.5s", 500),
        ("0.5", 500),
        ("2s", 2000),
        ("2", 2000),
        ("1ms", 1),
        ("1.25 s", 1250),
        (" 60s ", 60_000),
        ("60000ms", 60_000),
    ] {
        assert_eq!(parse_timeout(text), Ok(ms), "{text}");
    }
    for (text, why) in [
        ("", "expected a duration"),
        ("ms", "expected a duration"),
        ("s", "expected a duration"),
        (".", "expected a duration"),
        ("-1s", "expected a duration"),
        ("1e3ms", "expected a duration"),
        ("1.2.3", "expected a duration"),
        ("inf", "expected a duration"),
        ("5m", "expected a duration"),
        ("0", "too short"),
        ("0.0001s", "too short"),
        ("61s", "too long: at most 60s"),
        ("99999999999999999999999", "too long"),
    ] {
        let e = parse_timeout(text).unwrap_err();
        assert!(e.contains(why), "{text}: {e}");
    }
    assert_eq!(format_timeout(500), "500ms");
    assert_eq!(format_timeout(1500), "1500ms");
    assert_eq!(format_timeout(2000), "2s");
}

#[test]
fn a_bad_reachability_timeout_names_the_file_and_line() {
    for (local, want) in [
        (
            "reachability_timeout: soon\n",
            ":1: reachability_timeout: expected a duration such as 500ms or 2s, found 'soon'",
        ),
        (
            "reachability_timeout: [1s]\n",
            ":1: reachability_timeout: expected a duration such as 500ms or 2s, found a list",
        ),
        (
            "aliases:\n  d:\n    reachability_timeout: 0ms\n    hosts: [{host: a}]\n",
            ":3: aliases.d: reachability_timeout: '0ms' is too short: at least 1ms",
        ),
    ] {
        let e = load("", local).unwrap_err();
        assert!(e.ends_with(want), "{local:?}: {e}");
    }
}

/// `local_networks` on a host entry, in every form it is
/// written -- including a single network with no list around it.
#[test]
fn local_networks_read_as_a_list_on_a_host_entry() {
    let net = |s: &str| LocalNet::parse(s).unwrap();
    let nets = |c: &Config, a: &str| c.alias(a).unwrap().entries[0].local_networks.clone();
    // A block sequence, a flow one, and one value with commas all read
    // the same.
    for text in [
        "aliases:\n  d:\n    - host: a\n      local_networks:\n        - 172.16.0.0/16\n        - fd00::/48\n",
        "aliases:\n  d:\n    - host: a\n      local_networks: [172.16.0.0/16, fd00::/48]\n",
        "aliases:\n  d:\n    - host: a\n      local_networks: 172.16.0.0/16, fd00::/48\n",
    ] {
        let c = load("", text).unwrap();
        assert_eq!(
            nets(&c, "d"),
            [net("172.16.0.0/16"), net("fd00::/48")],
            "{text:?}"
        );
    }
    // One network needs no list around it: a plain scalar is split on
    // commas, and a lone network has none. IPv6 bare is the case worth
    // pinning -- the address is mostly colons, which YAML gives no
    // meaning unless one is followed by a space.
    for (value, want) in [
        ("172.16.0.0/16", "172.16.0.0/16"),
        ("\"172.16.0.0/16\"", "172.16.0.0/16"),
        ("[172.16.0.0/16]", "172.16.0.0/16"),
        ("fd00::/48", "fd00::/48"),
        ("'fd00::/48'", "fd00::/48"),
        // The address need not be the network's own: the prefix decides.
        ("172.16.8.2/16", "172.16.0.0/16"),
    ] {
        let text = format!("aliases:\n  d:\n    - host: a\n      local_networks: {value}\n");
        let c = load("", &text).unwrap();
        // By the network, not by the address it was written with.
        let got: Vec<String> = nets(&c, "d").iter().map(|n| n.text()).collect();
        assert_eq!(got, [want], "{value:?}");
        assert!(nets(&c, "d")[0].contains(net(want).addr), "{value:?}");
    }
    // Each entry has its own; an empty value, and an empty list, set
    // none, as any setting's does.
    let c = load(
        "",
        "aliases:\n  d:\n    - host: a\n      local_networks: [172.16.0.0/16]\n    \
             - host: b\n      local_networks:\n    - host: c\n      local_networks: []\n    \
             - host: e\n",
    )
    .unwrap();
    let of = |i: usize| c.alias("d").unwrap().entries[i].local_networks.clone();
    assert_eq!(of(0), [net("172.16.0.0/16")]);
    for i in 1..4 {
        assert!(of(i).is_empty(), "entry {i}");
    }
    // The setting has no global or per-alias form any more:
    // it names one entry, so it lives on that entry.
    assert!(!KEYS.contains("local_networks"));
    assert!(!ALIAS_KEYS.contains("local_networks"));
    assert!(HOST_KEYS.contains("local_networks"));
}

#[test]
fn a_bad_global_file_is_an_error_too() {
    let e = load("install_on_remote: nope\n", "").unwrap_err();
    assert!(e.contains("global.yaml:1:"), "{e}");
}

#[test]
fn paths_follow_xdg() {
    let p = local_path(Some("/xdg"), Some("/home/me"));
    assert!(p.ends_with("acs/config.yaml"), "{p}");
    assert_eq!(p, "/xdg/acs/config.yaml");
    assert!(global_path(None).ends_with("config.yaml"));
    assert_eq!(global_path(None), "/etc/acs/config.yaml");
    assert_eq!(global_path(Some("/g.yaml")), "/g.yaml");
    // Unset, empty or relative: below the home directory.
    for xdg in [None, Some(""), Some("rel")] {
        assert_eq!(local_path(xdg, Some("/home/me")), "/home/me/.config/acs/config.yaml");
    }
}

// ---- editing it ------------------------------------------------------------

fn args(s: &str) -> Vec<String> {
    s.split_whitespace().map(String::from).collect()
}

/// The text of a scalar.
fn text(n: &Node) -> &str {
    match &n.value {
        Value::Scalar(s) => &s.text,
        _ => "",
    }
}

fn cmd(s: &str) -> Cmd {
    parse_cmd(&args(s)).unwrap().0
}

fn apply(src: &str, c: &str) -> Result<String, String> {
    let mut doc = read_yaml(src).unwrap();
    edit(&mut doc, &cmd(c))?;
    Ok(write_yaml(&doc))
}

/// Regression collapsing an alias back to a plain list of
/// hosts kept the value but dropped the `hosts:` line's comments.
#[test]
fn unsetting_the_last_setting_keeps_the_hosts_comments() {
    let src = "\
aliases:
  d: # dev
    identity_file: k
    # the hosts of d
    hosts: # the list
      - host: a # at home
";
    assert_eq!(
        apply(src, "host unset d identity_file").unwrap(),
        "\
aliases:
  # the hosts of d
  d: # dev # the list
    - host: a # at home
"
    );
    // With no comment on the alias, the hosts' comment becomes its own.
    let src = "aliases:\n  d:\n    identity_file: k\n    hosts: # the list\n      - host: a\n";
    assert_eq!(
        apply(src, "host unset d identity_file").unwrap(),
        "aliases:\n  d: # the list\n    - host: a\n"
    );
}

#[test]
fn parses_every_subcommand() {
    assert_eq!(cmd("show"), Cmd::Show);
    assert_eq!(cmd("path"), Cmd::Path);
    assert_eq!(
        cmd("get install_on_remote"),
        Cmd::Get("install_on_remote".into())
    );
    assert_eq!(
        cmd("set install_on_remote false"),
        Cmd::SetTo("install_on_remote".into(), "false".into())
    );
    assert_eq!(cmd("unset x"), Cmd::Unset("x".into()));
    assert_eq!(cmd("host list"), Cmd::HostList);
    assert_eq!(
        cmd("host add devbox devbox.lan --user me --no-reachability-check"),
        Cmd::HostAdd {
            alias: "devbox".into(),
            host: "devbox.lan".into(),
            user: Some("me".into()),
            check: false,
            identity_file: None,
            prefer: false,
            persist: false
        }
    );
    assert_eq!(
        cmd("host add devbox devbox.lan --reachability-check --user=me --identity-file=~/k"),
        Cmd::HostAdd {
            alias: "devbox".into(),
            host: "devbox.lan".into(),
            user: Some("me".into()),
            check: true,
            identity_file: Some("~/k".into()),
            prefer: false,
            persist: false
        }
    );
    assert_eq!(
        cmd("host add devbox devbox.lan --identity-file /keys/k --persist"),
        Cmd::HostAdd {
            alias: "devbox".into(),
            host: "devbox.lan".into(),
            user: None,
            check: true,
            identity_file: Some("/keys/k".into()),
            prefer: false,
            persist: true
        }
    );
    assert_eq!(
        cmd("host set devbox identity_file ~/.ssh/id_devbox"),
        Cmd::HostSet {
            alias: "devbox".into(),
            key: "identity_file".into(),
            value: "~/.ssh/id_devbox".into()
        }
    );
    assert_eq!(
        cmd("host unset devbox identity_file"),
        Cmd::HostUnset {
            alias: "devbox".into(),
            key: "identity_file".into()
        }
    );
    assert_eq!(
        cmd("host rm devbox"),
        Cmd::HostRemove {
            alias: "devbox".into(),
            host: None
        }
    );
    assert_eq!(
        parse_cmd(&args("--global host list")).unwrap(),
        (Cmd::HostList, true)
    );
    assert_eq!(cmd("--help"), Cmd::Help);
}

#[test]
fn bad_arguments_are_explained() {
    for (a, want) in [
        ("", "needs a command"),
        ("frobnicate", "bad arguments"),
        ("get", "bad arguments"),
        ("set install_on_remote", "bad arguments"),
        ("show --user me", "go with acs config host add"),
        ("host add a", "bad arguments"),
        ("show --bogus", "unknown option --bogus"),
        ("host add a b --user", "--user needs"),
        ("host add a b --identity-file", "--identity-file needs"),
        ("host add a b --identity-file=", "--identity-file needs"),
        (
            "host remove a --identity-file k",
            "go with acs config host add",
        ),
        ("host set a port 22", "unknown alias setting 'port'"),
        ("host unset a user", "unknown alias setting 'user'"),
        ("host set a identity_file", "bad arguments"),
    ] {
        let e = parse_cmd(&args(a)).unwrap_err();
        assert!(e.contains(want), "{a}: {e}");
    }
}

#[test]
fn set_replaces_in_place_and_keeps_comments() {
    let src = "# mine\ninstall_on_remote: true # was on\naliases:\n  a:\n    - host: x\n";
    assert_eq!(
        apply(src, "set install_on_remote false").unwrap(),
        "# mine\ninstall_on_remote: false # was on\naliases:\n  a:\n    - host: x\n"
    );
    // A new setting goes at the end.
    assert_eq!(
        apply("# empty\n", "set install_on_remote FALSE").unwrap(),
        "# empty\ninstall_on_remote: false\n"
    );
    let e = apply("", "set install_on_remote maybe").unwrap_err();
    assert!(e.contains("true or false, not 'maybe'"), "{e}");
    let e = apply("", "set port 22").unwrap_err();
    assert!(e.contains("unknown setting 'port'"), "{e}");
    let e = apply("", "set host x").unwrap_err();
    assert!(e.contains("acs config host add"), "{e}");
}

#[test]
fn unset_removes_and_leaves_the_comments_above_for_what_follows() {
    let src = "install_on_remote: false\n# the hosts\naliases:\n  a:\n    - host: x\n";
    let out = apply(src, "unset install_on_remote").unwrap();
    assert_eq!(out, "# the hosts\naliases:\n  a:\n    - host: x\n");
    let e = apply(&out, "unset install_on_remote").unwrap_err();
    assert!(e.contains("not set in this file"), "{e}");
}

#[test]
fn host_add_creates_appends_and_refuses_duplicates() {
    let out = apply("install_on_remote: true\n", "host add devbox devbox.lan").unwrap();
    assert_eq!(
        out,
        "install_on_remote: true\naliases:\n  devbox:\n    - host: devbox.lan\n"
    );
    let out = apply(
        &out,
        "host add devbox devbox.example.com --user me --no-reachability-check",
    )
    .unwrap();
    assert_eq!(
        out,
        "install_on_remote: true\naliases:\n  devbox:\n    - host: devbox.lan\n    - host: devbox.example.com\n      user: me\n      reachability_check: false\n"
    );
    let e = apply(&out, "host add devbox devbox.lan").unwrap_err();
    assert!(e.contains("already a host of devbox"), "{e}");
    let e = apply("", "host add a@b x").unwrap_err();
    assert!(e.contains("bad alias name"), "{e}");
}

#[test]
fn host_add_turns_a_single_entry_into_a_list() {
    let out = apply(
        "aliases:\n  nas: {host: nas.lan}\n",
        "host add nas nas.example.com",
    )
    .unwrap();
    assert_eq!(
        out,
        "aliases:\n  nas:\n    - {host: nas.lan}\n    - host: nas.example.com\n"
    );
}

#[test]
fn host_remove_one_host_or_the_alias() {
    let src = "aliases:\n  d:\n    - host: a\n    - host: b\n  e:\n    - host: c\n";
    assert_eq!(
        apply(src, "host remove d a").unwrap(),
        "aliases:\n  d:\n    - host: b\n  e:\n    - host: c\n"
    );
    assert_eq!(
        apply(src, "host remove d").unwrap(),
        "aliases:\n  e:\n    - host: c\n"
    );
    // The last host takes the alias with it, and the last alias `aliases`.
    assert_eq!(
        apply("aliases:\n  e:\n    - host: c\n", "host remove e c").unwrap(),
        ""
    );
    let e = apply(src, "host remove d zz").unwrap_err();
    assert!(e.contains("zz is not a host of d"), "{e}");
    let e = apply(src, "host remove nope").unwrap_err();
    assert!(e.contains("no alias 'nope'"), "{e}");
}

#[test]
fn host_add_with_a_key() {
    assert_eq!(
        apply("", "host add d a --user me --identity-file ~/.ssh/id_a").unwrap(),
        "aliases:\n  d:\n    - host: a\n      user: me\n      identity_file: ~/.ssh/id_a\n"
    );
    let mut doc = read_yaml("").unwrap();
    let msg = edit(&mut doc, &cmd("host add d a --identity-file /k")).unwrap();
    assert_eq!(msg, "added a to d as its only host, with identity_file /k");
}

#[test]
fn host_set_moves_the_hosts_under_the_alias_and_unset_moves_them_back() {
    let src = "aliases:\n  # the dev box\n  d: # mine\n    - host: a\n    - host: b\n";
    let set = apply(src, "host set d identity_file ~/.ssh/id_d").unwrap();
    assert_eq!(
        set,
        "aliases:\n  # the dev box\n  d: # mine\n    identity_file: ~/.ssh/id_d\n    hosts:\n      - host: a\n      - host: b\n"
    );
    // Set again: replaced in place.
    assert_eq!(
        apply(&set, "host set d identity_file /k").unwrap(),
        set.replace("~/.ssh/id_d", "/k")
    );
    // Adding and removing hosts works on the alias's `hosts`.
    let added = apply(&set, "host add d c").unwrap();
    assert!(
        added.ends_with("      - host: b\n      - host: c\n"),
        "{added}"
    );
    assert_eq!(
        apply(&set, "host remove d a").unwrap(),
        "aliases:\n  # the dev box\n  d: # mine\n    identity_file: ~/.ssh/id_d\n    hosts:\n      - host: b\n"
    );
    // The last host takes the alias, key and all.
    assert_eq!(
        apply(&apply(&set, "host remove d a").unwrap(), "host remove d b").unwrap(),
        ""
    );
    assert_eq!(apply(&set, "host unset d identity_file").unwrap(), src);
    let e = apply(src, "host unset d identity_file").unwrap_err();
    assert!(
        e.contains("identity_file of d is not set in this file"),
        "{e}"
    );
}

#[test]
fn host_set_takes_every_alias_setting_with_its_type() {
    assert_eq!(
        cmd("host set d redraw_on_reconnect false"),
        Cmd::HostSet {
            alias: "d".into(),
            key: "redraw_on_reconnect".into(),
            value: "false".into()
        }
    );
    let src = "aliases:\n  d:\n    - host: a\n";
    let set = apply(src, "host set d redraw_on_reconnect FALSE").unwrap();
    assert_eq!(
        set,
        "aliases:\n  d:\n    redraw_on_reconnect: false\n    hosts:\n      - host: a\n"
    );
    let e = apply(src, "host set d redraw_on_reconnect off").unwrap_err();
    assert!(
        e.contains("redraw_on_reconnect is true or false, not 'off'"),
        "{e}"
    );
    // Beside the key; unsetting one keeps the other and the mapping.
    let both = apply(&set, "host set d identity_file /k").unwrap();
    assert_eq!(
        both,
        "aliases:\n  d:\n    identity_file: /k\n    redraw_on_reconnect: false\n    hosts:\n      - host: a\n"
    );
    assert_eq!(
        apply(&both, "host unset d redraw_on_reconnect").unwrap(),
        "aliases:\n  d:\n    identity_file: /k\n    hosts:\n      - host: a\n"
    );
    // The last setting gone, the alias is its list of hosts again.
    assert_eq!(
        apply(&set, "host unset d redraw_on_reconnect").unwrap(),
        src
    );
    let e = parse_cmd(&args("host set d command_bell false")).unwrap_err();
    assert!(
        e.contains("unknown alias setting 'command_bell' (settings: identity_file, redraw_on_reconnect, reachability_timeout, persist, reachability_interval, prefer_local_network, local_networks)"),
        "{e}"
    );
}

#[test]
fn host_set_on_one_entry_or_an_alias_of_the_other_file() {
    // One entry without a list becomes the alias's first host.
    assert_eq!(
        apply(
            "aliases:\n  nas: {host: nas.lan}\n",
            "host set nas identity_file k"
        )
        .unwrap(),
        "aliases:\n  nas:\n    identity_file: k\n    hosts:\n      - {host: nas.lan}\n"
    );
    // An alias whose hosts are in the other file: the key alone.
    let only = apply("update_check: false\n", "host set d identity_file k").unwrap();
    assert_eq!(
        only,
        "update_check: false\naliases:\n  d:\n    identity_file: k\n"
    );
    let doc = read_yaml(&only).unwrap();
    Config::default().apply("x", &doc.root).unwrap();
    // Unsetting it takes the alias, and an empty `aliases`, too.
    let mut doc = read_yaml(&only).unwrap();
    let msg = edit(&mut doc, &cmd("host unset d identity_file")).unwrap();
    assert_eq!(write_yaml(&doc), "update_check: false\n");
    assert!(msg.contains("which has no hosts in this file"), "{msg}");
    // Adding a host to it gives it `hosts`.
    assert_eq!(
        apply(&only, "host add d a").unwrap(),
        "update_check: false\naliases:\n  d:\n    identity_file: k\n    hosts:\n      - host: a\n"
    );
}

#[test]
fn host_list_is_a_table_in_trial_order() {
    let f = "/x/c.yaml";
    let text =
        "aliases:\n  devbox:\n    - host: devbox.lan\n    - host: devbox.example.com\n      user: me\n      reachability_check: false\n  lab:\n    identity_file: /k/lab\n    hosts:\n      - host: lab1\n        identity_file: /k/lab1\n      - host: lab2\n";
    let c = Config::load_files(&[source(f, text).unwrap()]).unwrap();
    let out = host_list(&c, None);
    let lines: Vec<&str> = out.lines().collect();
    assert_eq!(
        lines[0],
        "ALIAS   HOST                USER  CHECK  IDENTITY  FROM"
    );
    assert!(
        lines[1].starts_with("devbox  devbox.lan          -     ping   -         "),
        "{out}"
    );
    assert!(lines[1].ends_with("c.yaml:3"), "{out}");
    assert!(
        lines[2].starts_with("devbox  devbox.example.com  me    none   -         "),
        "{out}"
    );
    // Each host's key: its own, or the alias's.
    assert!(
        lines[3].starts_with("lab     lab1                -     ping   /k/lab1   "),
        "{out}"
    );
    assert!(
        lines[4].starts_with("lab     lab2                -     ping   /k/lab    "),
        "{out}"
    );
    assert_eq!(
        host_list(&Config::default(), None),
        "no host aliases (add one with: acs config host add <alias> <host>)\n"
    );
}

#[test]
fn show_comments_every_value_with_its_origin() {
    let g = "/x/g.yaml";
    let l = "/x/l.yaml";
    let c = Config::load_files(&[
        Source {
            file: g.to_string(),
            doc: None,
        },
        source(l, "aliases:\n  d:\n    - host: a\n      user: me\n").unwrap(),
    ])
    .unwrap();
    let out = write_yaml(&show(&c, g, l, None));
    assert!(out.contains("g.yaml (not found)\n"), "{out}");
    assert!(out.contains("install_on_remote: true # default\n"), "{out}");
    assert!(
        out.contains(&format!(
            "    - host: a # {}:3\n      user: me\n",
            l
        )),
        "{out}"
    );
    // What show prints is itself a valid configuration.
    let doc = read_yaml(&out).unwrap();
    Config::default().apply("x", &doc.root).unwrap();
}

#[test]
fn show_writes_an_alias_with_a_key_as_a_mapping() {
    let g = "/x/g.yaml";
    let l = "/x/l.yaml";
    let global = "aliases:\n  d:\n    identity_file: /etc/k\n    hosts:\n      - host: a\n        identity_file: ~/.ssh/a\n";
    let local = "aliases:\n  d:\n    identity_file: ~/.ssh/d\n";
    let c =
        Config::load_files(&[source(g, global).unwrap(), source(l, local).unwrap()]).unwrap();
    let out = write_yaml(&show(&c, g, l, None));
    assert!(
        out.contains(&format!(
            "  d:\n    identity_file: ~/.ssh/d # {}:3\n    hosts:\n      - host: a # {}:5\n        identity_file: ~/.ssh/a\n",
            l,
            g
        )),
        "{out}"
    );
    let doc = read_yaml(&out).unwrap();
    let mut again = Config::default();
    again.apply("x", &doc.root).unwrap();
    assert_eq!(
        again.hosts[0].identity_file.as_ref().unwrap().value,
        "~/.ssh/d"
    );
}

#[test]
fn show_has_redraw_on_reconnect_globally_and_per_alias() {
    let g = "/x/g.yaml";
    let l = "/x/l.yaml";
    let global = "redraw_on_reconnect: false\n";
    let local = "aliases:\n  d:\n    redraw_on_reconnect: true\n    hosts:\n      - host: a\n  e:\n    - host: b\n";
    let c =
        Config::load_files(&[source(g, global).unwrap(), source(l, local).unwrap()]).unwrap();
    let out = write_yaml(&show(&c, g, l, None));
    assert!(
        out.contains(&format!("redraw_on_reconnect: false # {}:1\n", g)),
        "{out}"
    );
    assert!(
        out.contains(&format!(
            "  d:\n    redraw_on_reconnect: true # {}:3\n    hosts:\n      - host: a # {}:5\n  e:\n    - host: b # {}:7\n",
            l,
            l,
            l
        )),
        "{out}"
    );
    let doc = read_yaml(&out).unwrap();
    let mut again = Config::default();
    again.apply("x", &doc.root).unwrap();
    assert!(
        again
            .alias("d")
            .unwrap()
            .redraw_on_reconnect
            .as_ref()
            .unwrap()
            .value
    );
    assert!(!again.redraw_on_reconnect.value);
}

#[test]
fn reachability_timeout_is_set_checked_and_written_one_way() {
    assert_eq!(
        apply("", "set reachability_timeout 0.25").unwrap(),
        "reachability_timeout: 250ms\n"
    );
    assert_eq!(
        apply(
            "reachability_timeout: 250ms # quick\n",
            "set reachability_timeout 2000ms"
        )
        .unwrap(),
        "reachability_timeout: 2s # quick\n"
    );
    let e = apply("", "set reachability_timeout soon").unwrap_err();
    assert_eq!(
        e,
        "reachability_timeout: expected a duration such as 500ms or 2s, found 'soon'"
    );
    let e = apply("", "set reachability_timeout 2m").unwrap_err();
    assert!(e.contains("expected a duration"), "{e}");
    assert_eq!(
        apply(
            "reachability_timeout: 1s\ncommand_bell: false\n",
            "unset reachability_timeout"
        )
        .unwrap(),
        "command_bell: false\n"
    );
    let mut doc = read_yaml("").unwrap();
    assert_eq!(
        edit(&mut doc, &cmd("set reachability_timeout 1.5s")).unwrap(),
        "set reachability_timeout to 1500ms"
    );
    let e = apply("", "set nope 1").unwrap_err();
    assert!(
        e.contains("(settings: install_on_remote, update_check, command_bell, redraw_on_reconnect, reachability_timeout, persist, reachability_interval, prefer_local_network, local_networks)"),
        "{e}"
    );
}

/// Persist and reachability_interval, globally, per alias and
/// (persist) per host entry, typed.
#[test]
fn persist_and_reachability_interval_are_set_checked_and_shown() {
    assert_eq!(apply("", "set persist TRUE").unwrap(), "persist: true\n");
    assert_eq!(
        apply("", "set reachability_interval 0.5").unwrap(),
        "reachability_interval: 500ms\n"
    );
    let e = apply("", "set reachability_interval 10ms").unwrap_err();
    assert!(e.contains("at least 100ms"), "{e}");
    let src = "aliases:\n  d:\n    - host: a\n";
    let set = apply(src, "host set d persist true").unwrap();
    let set = apply(&set, "host set d reachability_interval 30s").unwrap();
    assert_eq!(
        set,
        "aliases:\n  d:\n    reachability_interval: 30s\n    persist: true\n    hosts:\n      - host: a\n"
    );
    assert_eq!(
        apply(src, "host add d b --persist").unwrap(),
        "aliases:\n  d:\n    - host: a\n    - host: b\n      persist: true\n"
    );
    // Shown with the rest, and read back the same.
    let f = "/x/l.yaml";
    let c = Config::load_files(&[source(f, &set).unwrap()]).unwrap();
    let out = write_yaml(&show(&c, "/x/none.yaml", f, None));
    assert!(out.contains("persist: false # default\n"), "{out}");
    assert!(
        out.contains("reachability_interval: 5s # default\n"),
        "{out}"
    );
    assert!(out.contains("    persist: true # "), "{out}");
    assert!(out.contains("    reachability_interval: 30s # "), "{out}");
    let (n, _) = scalar(&c, "reachability_interval").unwrap();
    assert_eq!(text(&n), "5s");
}

/// `prefer` on a host entry: added with --prefer, read back,
/// validated, and `host list` shows the hosts in the order they are
/// tried, preferred first.
#[test]
fn prefer_is_added_validated_and_listed_in_trial_order() {
    let src = "aliases:\n  d:\n    - host: a\n";
    let added = apply(src, "host add d b --prefer").unwrap();
    assert_eq!(
        added,
        "aliases:\n  d:\n    - host: a\n    - host: b\n      prefer: true\n"
    );
    let f = "/x/l.yaml";
    let c = Config::load_files(&[source(f, &added).unwrap()]).unwrap();
    let entries = &c.alias("d").unwrap().entries;
    assert_eq!((entries[0].prefer, entries[1].prefer), (false, true));
    let lines: Vec<String> = host_list(&c, None).lines().map(String::from).collect();
    assert!(
        lines[1].starts_with("d      b     -     ping prefer"),
        "{lines:?}"
    );
    assert!(
        lines[2].starts_with("d      a     -     ping "),
        "{lines:?}"
    );
    let bad = source(f, "aliases:\n  d:\n    - host: a\n      prefer: yes\n").unwrap();
    let e = Config::load_files(&[bad]).unwrap_err();
    assert!(
        e.contains("prefer: expected true or false, found 'yes' (line 4)"),
        "{e}"
    );
}

/// Prefer_local_network, global and per alias, typed and shown.
#[test]
fn prefer_local_network_is_global_and_per_alias() {
    assert_eq!(
        apply("", "set prefer_local_network true").unwrap(),
        "prefer_local_network: true\n"
    );
    let e = apply("", "set prefer_local_network maybe").unwrap_err();
    assert!(e.contains("true or false"), "{e}");
    let set = apply(
        "aliases:\n  d:\n    - host: a\n",
        "host set d prefer_local_network true",
    )
    .unwrap();
    assert_eq!(
        set,
        "aliases:\n  d:\n    prefer_local_network: true\n    hosts:\n      - host: a\n"
    );
    let f = "/x/l.yaml";
    let text = format!("prefer_local_network: false\n{set}");
    let c = Config::load_files(&[source(f, &text).unwrap()]).unwrap();
    let d = c.alias("d").unwrap();
    assert!(c.prefer_local_network_for(d).value);
    assert!(!c.prefer_local_network.value);
    let out = write_yaml(&show(&c, "/x/none.yaml", f, None));
    assert!(out.contains("prefer_local_network: false # "), "{out}");
    assert!(out.contains("    prefer_local_network: true # "), "{out}");
}

#[test]
fn host_set_reachability_timeout_on_an_alias() {
    let src = "aliases:\n  d:\n    - host: a\n";
    let set = apply(src, "host set d reachability_timeout 100ms").unwrap();
    assert_eq!(
        set,
        "aliases:\n  d:\n    reachability_timeout: 100ms\n    hosts:\n      - host: a\n"
    );
    let e = apply(src, "host set d reachability_timeout 0").unwrap_err();
    assert!(e.contains("reachability_timeout: '0' is too short"), "{e}");
    assert_eq!(
        apply(&set, "host unset d reachability_timeout").unwrap(),
        src
    );
}

#[test]
fn show_and_get_have_reachability_timeout() {
    let g = "/x/g.yaml";
    let l = "/x/l.yaml";
    let global = "";
    let local = "aliases:\n  d:\n    reachability_timeout: 1.5\n    hosts:\n      - host: a\n";
    let c =
        Config::load_files(&[source(g, global).unwrap(), source(l, local).unwrap()]).unwrap();
    let out = write_yaml(&show(&c, g, l, None));
    assert!(
        out.contains("reachability_timeout: 500ms # default\n"),
        "{out}"
    );
    assert!(
        out.contains(&format!(
            "  d:\n    reachability_timeout: 1500ms # {}:3\n    hosts:\n",
            l
        )),
        "{out}"
    );
    let doc = read_yaml(&out).unwrap();
    let mut again = Config::default();
    again.apply("x", &doc.root).unwrap();
    assert_eq!(
        again
            .alias("d")
            .unwrap()
            .reachability_timeout
            .as_ref()
            .unwrap()
            .value,
        1500
    );
    let (n, origin) = scalar(&c, "reachability_timeout").unwrap();
    assert_eq!((text(&n), origin), ("500ms", None));
}

// ---- aliases ---------------------------------------------------------------

/// A configuration of one file.
fn config(yaml: &str) -> Config {
    Config::load_files(&[source("/x/c.yaml", yaml).unwrap()]).unwrap()
}

const TWO: &str = "\
aliases:
  devbox:
    - host: devbox.lan
    - host: devbox.example.com
      user: me
  lab:
    - host: lab1
    - host: lab2
      reachability_check: false
    - host: lab3
";

/// Fake pings: each host answers (`true`) or not after its delay in milliseconds,
/// and every host asked about is recorded with the deadline it was given.
struct Fake {
    hosts: Vec<(String, u64, bool)>,
    asked: RefCell<Vec<(String, u64)>>,
}

impl Fake {
    fn new(hosts: &[(&str, u64, bool)]) -> Fake {
        Fake {
            hosts: hosts
                .iter()
                .map(|&(h, ms, up)| (h.to_string(), ms, up))
                .collect(),
            asked: RefCell::new(Vec::new()),
        }
    }

    fn up(up: &[&str]) -> Fake {
        Fake::new(&up.iter().map(|&h| (h, 0, true)).collect::<Vec<_>>())
    }

    /// What `host` has said by `now`, and when it says it.
    fn answer(&self, host: &str) -> (u64, bool) {
        match self.hosts.iter().find(|(name, ..)| name == host) {
            Some(&(_, ms, up)) => (ms, up),
            None => (0, false),
        }
    }

    /// Every host asked about, sorted.
    fn pinged(&self) -> Vec<String> {
        let mut v: Vec<String> = self.asked.borrow().iter().map(|a| a.0.clone()).collect();
        v.sort();
        v
    }
}

/// This machine's networks, and what names resolve to, after a while.
struct Network {
    local: Vec<LocalNet>,
    names: Vec<(String, Ip)>,
    delay_ms: u64,
}

/// No local network and no resolver: what the aliases without `prefer_local_network`
/// never ask for.
fn no_network() -> Network {
    Network {
        local: Vec::new(),
        names: Vec::new(),
        delay_ms: 0,
    }
}

/// The entry `name` goes to, by a clock that stands still but for the waiting, and
/// what that clock says in the end.
fn choice(
    name: &str,
    c: &Config,
    fake: &Fake,
    network: &dyn Fn() -> Network,
    log: &mut Vec<String>,
) -> (Result<Option<HostEntry>, String>, u64) {
    let Some(s) = resolve(name, c) else {
        return (Ok(None), 0);
    };
    log.extend(s.login.clone());
    let network = if s.networks { network() } else { no_network() };
    let by_host = s.by_host && !network.local.is_empty();
    let mut on_net = caller_side(&s.entries, &network.local);
    for i in pings(&s.entries, &on_net, by_host) {
        fake.asked
            .borrow_mut()
            .push((s.entries[i].host.clone(), s.timeout));
    }
    let mut now = 0;
    if by_host {
        now = network.delay_ms.min(s.timeout);
        for i in 0..s.entries.len() {
            let of = |n: &&(String, Ip)| n.0 == s.entries[i].host;
            let addrs: Vec<Ip> = network.names.iter().filter(of).map(|n| n.1).collect();
            if network.delay_ms < s.timeout {
                locate(&mut on_net, i, &network.local, &addrs);
            }
        }
    }
    loop {
        let answers: Vec<Option<bool>> = s
            .entries
            .iter()
            .map(|e| match fake.answer(&e.host) {
                (ms, up) if ms <= now && ms < s.timeout => Some(up),
                _ if now >= s.timeout => Some(false),
                _ => None,
            })
            .collect();
        match pick(name, &s.entries, &on_net, s.timeout, &answers) {
            Pick::Wait(i) => {
                assert!(answers[i].is_none(), "{name} waits for an answer it has");
                now = fake.answer(&s.entries[i].host).0.min(s.timeout);
            }
            Pick::Use(e, lines) => {
                log.extend(lines);
                return (Ok(Some(e)), now);
            }
            Pick::Nobody(e, lines) => {
                log.extend(lines);
                return (Err(e), now);
            }
        }
    }
}

/// Resolve with `up` as the hosts that answer; returns the chosen
/// destination, the hosts pinged (sorted), and the log.
fn run(name: &str, up: &[&str]) -> (Result<Option<String>, String>, Vec<String>, Vec<String>) {
    let c = config(TWO);
    let fake = Fake::up(up);
    let mut log = Vec::new();
    let (r, _) = choice(name, &c, &fake, &no_network, &mut log);
    (r.map(|e| e.map(|e| e.destination())), fake.pinged(), log)
}

/// Resolve `name` in `yaml` against `fake`; returns the chosen
/// destination, the log, and how long it took.
fn timed(yaml: &str, name: &str, fake: &Fake) -> (Result<String, String>, Vec<String>, u64) {
    let c = config(yaml);
    let mut log = Vec::new();
    let (r, took) = choice(name, &c, fake, &no_network, &mut log);
    (r.map(|e| e.unwrap().destination()), log, took)
}

const ABC: &str = "\
aliases:
  abc:
    - host: a
    - host: b
    - host: c
";

#[test]
fn a_name_that_is_not_an_alias_is_left_alone() {
    for name in ["other", "me@other", "@devbox", "devbox@"] {
        let (r, pinged, log) = run(name, &[]);
        assert_eq!(r, Ok(None), "{name}");
        assert!(pinged.is_empty(), "{name}");
        assert!(log.is_empty(), "{name}");
    }
}

#[test]
fn a_login_name_is_split_at_the_last_at() {
    let split = |name: &str| {
        let (user, host) = split_user(name);
        format!("{user:?} {host}")
    };
    assert_eq!(split("devbox"), "None devbox");
    assert_eq!(split("me@devbox"), "Some(\"me\") devbox");
    assert_eq!(split("me@corp@devbox"), "Some(\"me@corp\") devbox");
    assert_eq!(split("@devbox"), "None @devbox");
}

#[test]
fn user_at_alias_logs_in_as_that_user_on_the_first_host() {
    let (r, pinged, log) = run("you@devbox", &["devbox.lan"]);
    assert_eq!(r, Ok(Some("you@devbox.lan".into())));
    assert_eq!(pinged, ["devbox.example.com", "devbox.lan"]);
    assert_eq!(
        log,
        [
            "you@devbox: logging in as you, from the command line",
            "you@devbox: devbox.lan answers ping, using you@devbox.lan",
            "you@devbox: devbox.example.com not tried: devbox.lan was chosen first",
        ]
    );
}

#[test]
fn user_at_alias_replaces_the_fallback_hosts_own_user() {
    let (r, pinged, _) = run("you@devbox", &["devbox.example.com"]);
    assert_eq!(r, Ok(Some("you@devbox.example.com".into())));
    assert_eq!(pinged, ["devbox.example.com", "devbox.lan"]);
    let (r, _, _) = run("you@lab", &[]);
    assert_eq!(r, Ok(Some("you@lab2".into())));
    let (r, _, _) = run("you@devbox", &[]);
    assert_eq!(
        r,
        Err(
            "no host for 'you@devbox' is reachable (tried devbox.lan, devbox.example.com)"
                .into()
        )
    );
}

#[test]
fn the_first_host_that_answers_is_used() {
    let (r, pinged, log) = run("devbox", &["devbox.lan", "devbox.example.com"]);
    assert_eq!(r, Ok(Some("devbox.lan".into())));
    // Both were pinged, at once; the configured order decides.
    assert_eq!(pinged, ["devbox.example.com", "devbox.lan"]);
    assert_eq!(
        log,
        [
            "devbox: devbox.lan answers ping, using devbox.lan",
            "devbox: devbox.example.com not tried: devbox.lan was chosen first",
        ]
    );
}

#[test]
fn falls_back_to_the_next_host_with_its_user() {
    let (r, pinged, log) = run("devbox", &["devbox.example.com"]);
    assert_eq!(r, Ok(Some("me@devbox.example.com".into())));
    assert_eq!(pinged, ["devbox.example.com", "devbox.lan"]);
    assert_eq!(
        log[0],
        "devbox: devbox.lan does not answer ping within 500ms"
    );
    assert!(log[1].ends_with("using me@devbox.example.com"), "{log:?}");
}

#[test]
fn an_unchecked_host_is_taken_without_a_ping() {
    let (r, pinged, log) = run("lab", &[]);
    assert_eq!(r, Ok(Some("lab2".into())));
    assert_eq!(pinged, ["lab1"]);
    assert!(
        log[1].starts_with("lab: using lab2 (reachability_check is off, "),
        "{log:?}"
    );
}

#[test]
fn an_entry_without_a_key_takes_the_aliass() {
    let c = config(
        "\
aliases:
  devbox:
    identity_file: ~/.ssh/id_alias
    hosts:
      - host: devbox.lan
        identity_file: ~/.ssh/id_lan
      - host: devbox.example.com
  plain:
    - host: plain.lan
",
    );
    let key = |name: &str, up: &[&str]| {
        choice(name, &c, &Fake::up(up), &no_network, &mut Vec::new())
            .0
            .unwrap()
            .unwrap()
            .identity_file
            .map(|s| format!("{}:{}", s.value, s.origin.unwrap().line))
    };
    // The entry's own key beats the alias's; the fallback has none and
    // takes the alias's, whoever logs in.
    assert_eq!(
        key("devbox", &["devbox.lan"]).as_deref(),
        Some("~/.ssh/id_lan:6")
    );
    assert_eq!(
        key("devbox", &["devbox.example.com"]).as_deref(),
        Some("~/.ssh/id_alias:3")
    );
    assert_eq!(
        key("you@devbox", &["devbox.example.com"]).as_deref(),
        Some("~/.ssh/id_alias:3")
    );
    assert_eq!(key("plain", &["plain.lan"]), None);
}

#[test]
fn none_reachable_names_every_host_tried() {
    let (r, pinged, _) = run("devbox", &[]);
    assert_eq!(
        r,
        Err("no host for 'devbox' is reachable (tried devbox.lan, devbox.example.com)".into())
    );
    assert_eq!(pinged.len(), 2);
}

#[test]
fn a_later_host_answering_first_does_not_beat_an_earlier_one_in_time() {
    // b answers at once, a after 150ms: a is first in the list and
    // answers within the deadline, so a it is.
    let fake = Fake::new(&[("a", 150, true), ("b", 0, true), ("c", 0, true)]);
    let (r, log, took) = timed(ABC, "abc", &fake);
    assert_eq!(r, Ok("a".into()));
    assert_eq!(
        log,
        [
            "abc: a answers ping, using a",
            "abc: b not tried: a was chosen first",
            "abc: c not tried: a was chosen first",
        ]
    );
    assert!(took >= 150, "{took:?}");
    // And b, answering, is taken over a c that answered first.
    let fake = Fake::new(&[("a", 0, false), ("b", 150, true), ("c", 0, true)]);
    let (r, log, _) = timed(ABC, "abc", &fake);
    assert_eq!(r, Ok("b".into()));
    assert_eq!(
        log,
        [
            "abc: a does not answer ping within 500ms",
            "abc: b answers ping, using b",
            "abc: c not tried: b was chosen first",
        ]
    );
}

#[test]
fn the_hosts_are_pinged_at_once() {
    // One after another, three 300ms pings take 900ms.
    let fake = Fake::new(&[("a", 300, false), ("b", 300, false), ("c", 300, true)]);
    let (r, _, took) = timed(&format!("reachability_timeout: 2s\n{ABC}"), "abc", &fake);
    assert_eq!(r, Ok("c".into()));
    assert!(took < 700, "{took:?}");
    assert_eq!(fake.pinged(), ["a", "b", "c"]);
}

#[test]
fn an_answer_after_the_deadline_counts_as_none() {
    let yaml = format!("reachability_timeout: 100ms\n{ABC}");
    let fake = Fake::new(&[("a", 2000, true), ("b", 0, true)]);
    let (r, log, took) = timed(&yaml, "abc", &fake);
    assert_eq!(r, Ok("b".into()));
    assert_eq!(log[0], "abc: a does not answer ping within 100ms");
    assert!(took < 1000, "{took:?}");
    // Nothing answering in time takes one deadline, not one per host.
    let fake = Fake::new(&[("a", 2000, true), ("b", 2000, true), ("c", 2000, true)]);
    let (r, _, took) = timed(&yaml, "abc", &fake);
    assert_eq!(
        r,
        Err("no host for 'abc' is reachable (tried a, b, c)".into())
    );
    assert!(took < 1000, "{took:?}");
}

/// Hosts `a`, `b`, `c` with `prefer: true` on the ones named.
fn preferring(preferred: &[&str], unchecked: &[&str]) -> String {
    let mut yaml = String::from("aliases:\n  abc:\n");
    for h in ["a", "b", "c"] {
        yaml.push_str(&format!("    - host: {h}\n"));
        if preferred.contains(&h) {
            yaml.push_str("      prefer: true\n");
        }
        if unchecked.contains(&h) {
            yaml.push_str("      reachability_check: false\n");
        }
    }
    yaml
}

#[test]
fn a_preferred_host_beats_an_earlier_one_that_answered_first() {
    // a answers at once, c (preferred) after 150ms: c it is.
    let fake = Fake::new(&[("a", 0, true), ("b", 0, true), ("c", 150, true)]);
    let (r, log, _) = timed(&preferring(&["c"], &[]), "abc", &fake);
    assert_eq!(r, Ok("c".into()));
    assert_eq!(
        log,
        [
            "abc: c answers ping, using c (preferred)",
            "abc: a not tried: c was chosen first",
            "abc: b not tried: c was chosen first",
        ]
    );
    // A preferred host that does not answer: the configured order.
    let fake = Fake::new(&[("a", 0, false), ("b", 0, true), ("c", 0, false)]);
    let (r, log, _) = timed(&preferring(&["c"], &[]), "abc", &fake);
    assert_eq!(r, Ok("b".into()));
    assert_eq!(
        log,
        [
            "abc: c does not answer ping within 500ms",
            "abc: a does not answer ping within 500ms",
            "abc: b answers ping, using b",
        ]
    );
    // The rank is walked to its end: nothing is left after b.
    // None answering: every host named, the preferred first.
    let fake = Fake::new(&[]);
    let (r, _, _) = timed(&preferring(&["b"], &[]), "abc", &fake);
    assert_eq!(
        r,
        Err("no host for 'abc' is reachable (tried b, a, c)".into())
    );
}

#[test]
fn several_preferred_hosts_go_by_order_and_an_unchecked_one_wins_outright() {
    // b and c preferred and both answering: b, the first of them.
    let fake = Fake::new(&[("a", 0, true), ("b", 100, true), ("c", 0, true)]);
    let (r, _, _) = timed(&preferring(&["b", "c"], &[]), "abc", &fake);
    assert_eq!(r, Ok("b".into()));
    // b down: c, still ahead of a.
    let fake = Fake::new(&[("a", 0, true), ("b", 0, false), ("c", 0, true)]);
    let (r, _, _) = timed(&preferring(&["b", "c"], &[]), "abc", &fake);
    assert_eq!(r, Ok("c".into()));
    // A preferred host that is never pinged is used at once: nothing is
    // pinged at all.
    let fake = Fake::new(&[("a", 0, true)]);
    let (r, log, _) = timed(&preferring(&["c"], &["c"]), "abc", &fake);
    assert_eq!(r, Ok("c".into()));
    assert!(
        log[0].starts_with("abc: using c (reachability_check is off, preferred, "),
        "{log:?}"
    );
    assert!(fake.pinged().is_empty(), "{:?}", fake.pinged());
    // Ranked: preferred first, each group in configured order.
    let c = config(&preferring(&["b", "c"], &[]));
    let ranked: Vec<&str> = ranked(&c.alias("abc").unwrap().entries)
        .iter()
        .map(|e| e.host.as_str())
        .collect();
    assert_eq!(ranked, ["b", "c", "a"]);
}

// ---- every entry accounts for itself -------------------------

#[test]
fn the_entries_ranked_after_the_chosen_one_say_who_beat_them() {
    let yaml = "\
aliases:
  devbox:
    - host: devbox.lan
    - host: devbox.vpn
    - host: devbox.example.com
";
    let fake = Fake::up(&["devbox.vpn", "devbox.example.com"]);
    let (r, log, _) = timed(yaml, "devbox", &fake);
    assert_eq!(r, Ok("devbox.vpn".into()));
    assert_eq!(
        log,
        [
            "devbox: devbox.lan does not answer ping within 500ms",
            "devbox: devbox.vpn answers ping, using devbox.vpn",
            "devbox: devbox.example.com not tried: devbox.vpn was chosen first",
        ]
    );
}

#[test]
fn an_entry_behind_an_unchecked_one_says_it_was_never_in_the_running() {
    // a answers, so b (unchecked) was merely beaten to it -- but c
    // could not have been chosen however the pings had gone.
    let yaml = preferring(&[], &["b"]);
    let (r, log, _) = timed(&yaml, "abc", &Fake::up(&["a", "c"]));
    assert_eq!(r, Ok("a".into()));
    assert_eq!(
        log,
        [
            "abc: a answers ping, using a",
            "abc: b not tried: a was chosen first",
            "abc: c not tried: it is listed after b, whose reachability_check is off",
        ]
    );
    // a down: b is taken unpinged, and c was beaten by it.
    let (r, log, _) = timed(&yaml, "abc", &Fake::up(&["c"]));
    assert_eq!(r, Ok("b".into()));
    assert_eq!(log[0], "abc: a does not answer ping within 500ms");
    assert!(
        log[1].starts_with("abc: using b (reachability_check is off, "),
        "{log:?}"
    );
    assert_eq!(log[2], "abc: c not tried: b was chosen first");
    assert_eq!(log.len(), 3, "{log:?}");
}

#[test]
fn nothing_answering_tries_every_entry_and_adds_no_line() {
    // Each entry is reached, so each
    // already says why, and the error names them all.
    let (r, log, _) = timed(ABC, "abc", &Fake::new(&[]));
    assert_eq!(
        r,
        Err("no host for 'abc' is reachable (tried a, b, c)".into())
    );
    assert_eq!(
        log,
        [
            "abc: a does not answer ping within 500ms",
            "abc: b does not answer ping within 500ms",
            "abc: c does not answer ping within 500ms",
        ]
    );
}

// ---- prefer_local_network, host-side -------------------------

/// devbox.example.com first, devbox.lan second, as a home alias lists
/// them; `extra` goes into the alias's settings.
fn home(extra: &str) -> String {
    format!(
        "aliases:\n  devbox:\n{extra}    hosts:\n      - host: devbox.example.com\n      - host: devbox.lan\n"
    )
}

/// This machine on `local` (`addr/prefix`), and a resolver answering
/// `names` after `delay_ms`.
fn on(local: &[&str], names: &[(&str, &str)], delay_ms: u64) -> Network {
    let local = local
        .iter()
        .map(|s| {
            let (a, p) = s.split_once('/').unwrap();
            LocalNet::new(Ip::parse(a).unwrap(), p.parse().unwrap())
        })
        .collect();
    let names = names
        .iter()
        .map(|(n, a)| (n.to_string(), Ip::parse(a).unwrap()))
        .collect();
    Network {
        local,
        names,
        delay_ms,
    }
}

/// Resolve `devbox` in `yaml` with every host answering as `fake` says
/// and `network` as this machine's; the destination and the log.
fn located(yaml: &str, fake: &Fake, network: Network) -> (Result<String, String>, Vec<String>) {
    let (r, log, _) = located_by(yaml, fake, network);
    (r, log)
}

/// The same, and how long it took.
fn located_by(
    yaml: &str,
    fake: &Fake,
    network: Network,
) -> (Result<String, String>, Vec<String>, u64) {
    let c = config(yaml);
    let mut log = Vec::new();
    let network = RefCell::new(Some(network));
    let (r, took) = choice(
        "devbox",
        &c,
        fake,
        &|| network.borrow_mut().take().expect("asked twice"),
        &mut log,
    );
    (r.map(|e| e.unwrap().destination()), log, took)
}

const HOME_NAMES: &[(&str, &str)] = &[
    ("devbox.lan", "192.168.1.20"),
    ("devbox.lan", "fd00:1::20"),
    ("devbox.example.com", "203.0.113.9"),
];

#[test]
fn a_host_on_a_local_network_goes_first_in_either_family() {
    let yaml = home("    prefer_local_network: true\n");
    let both = || Fake::up(&["devbox.example.com", "devbox.lan"]);
    // IPv4: at home on 192.168.1.0/24, devbox.lan (listed second) it is.
    let (r, log) = located(&yaml, &both(), on(&["192.168.1.5/24"], HOME_NAMES, 0));
    assert_eq!(r, Ok("devbox.lan".into()));
    assert_eq!(
        log,
        [
            "devbox: devbox.lan is on the local network 192.168.1.0/24",
            "devbox: devbox.lan answers ping, using devbox.lan (on 192.168.1.0/24)",
            "devbox: devbox.example.com not tried: devbox.lan was chosen first",
        ]
    );
    // IPv6 alone matches too.
    let (r, log) = located(&yaml, &both(), on(&["fd00:1::5/64"], HOME_NAMES, 0));
    assert_eq!(r, Ok("devbox.lan".into()));
    assert!(log[1].ends_with("(on fd00:1::/64)"), "{log:?}");
    // Elsewhere, on no network of theirs: the configured order.
    let (r, _) = located(&yaml, &both(), on(&["10.0.0.5/24"], HOME_NAMES, 0));
    assert_eq!(r, Ok("devbox.example.com".into()));
}

#[test]
fn a_local_host_must_still_answer_and_beats_a_preferred_one() {
    let yaml = home("    prefer_local_network: true\n");
    // On the network but not answering: the next in rank.
    let fake = Fake::up(&["devbox.example.com"]);
    let (r, log) = located(&yaml, &fake, on(&["192.168.1.5/24"], HOME_NAMES, 0));
    assert_eq!(r, Ok("devbox.example.com".into()));
    assert_eq!(
        log[1],
        "devbox: devbox.lan does not answer ping within 500ms"
    );
    // prefer: true on the other host: the local network still wins.
    let yaml = "aliases:\n  devbox:\n    prefer_local_network: true\n    hosts:\n      - host: devbox.example.com\n        prefer: true\n      - host: devbox.lan\n";
    let fake = Fake::up(&["devbox.example.com", "devbox.lan"]);
    let (r, _) = located(yaml, &fake, on(&["192.168.1.5/24"], HOME_NAMES, 0));
    assert_eq!(r, Ok("devbox.lan".into()));
}

#[test]
fn without_the_setting_or_with_a_slow_resolver_the_order_decides() {
    let fake = Fake::up(&["devbox.example.com", "devbox.lan"]);
    // Off: the network is never asked for (it would panic).
    let c = config(&home(""));
    let (r, _) = choice(
        "devbox",
        &c,
        &fake,
        &|| panic!("the network was asked for"),
        &mut Vec::new(),
    );
    assert_eq!(r.unwrap().unwrap().destination(), "devbox.example.com");
    // On, but the names resolve only after the 100ms deadline: no match,
    // and the choice still takes one deadline, not more.
    let yaml = home("    prefer_local_network: true\n    reachability_timeout: 100ms\n");
    let (r, _, took) = located_by(&yaml, &fake, on(&["192.168.1.5/24"], HOME_NAMES, 1000));
    assert_eq!(r, Ok("devbox.example.com".into()));
    assert!(took < 800, "{took:?}");
}

// ---- local_networks, caller-side -----------------------------

/// The target at 172.16.8.2, this machine on
/// 172.16.1.65 -- the same site, a different /24 -- and an IPv6 pair
/// beside it, likewise a /64 apart.
const SITE_NAMES: &[(&str, &str)] = &[
    ("devbox.lan", "172.16.8.2"),
    ("devbox.lan", "2001:db8:1:8::2"),
    ("devbox.example.com", "203.0.113.9"),
];

/// This machine at the site, on its own /24 and /64.
fn at_site() -> Network {
    on(&["172.16.1.65/24", "2001:db8:1:1::65/64"], SITE_NAMES, 0)
}

fn both_up() -> Fake {
    Fake::up(&["devbox.example.com", "devbox.lan"])
}

/// devbox.example.com first, then devbox.lan carrying `nets` as its
/// own `local_networks`.
fn lan_on(nets: &str) -> String {
    format!(
        "aliases:\n  devbox:\n    hosts:\n      - host: devbox.example.com\n      \
             - host: devbox.lan\n        local_networks: {nets}\n"
    )
}

#[test]
fn an_entry_is_local_when_this_machine_is_on_one_of_its_networks() {
    // The interfaces' own prefixes are too narrow to reach the target,
    // and nothing else says the site is local: configured order.
    let (r, log) = located(&lan_on("[10.0.0.0/8]"), &both_up(), at_site());
    assert_eq!(r, Ok("devbox.example.com".into()));
    assert!(
        !log.iter().any(|l| l.contains("this machine is on")),
        "{log:?}"
    );
    // This machine at 172.16.1.65 is inside the entry's /16, so the
    // entry is the local one although it is listed second.
    let (r, log) = located(&lan_on("[172.16.0.0/16]"), &both_up(), at_site());
    assert_eq!(r, Ok("devbox.lan".into()));
    assert_eq!(
        log,
        [
            "devbox: this machine is on 172.16.0.0/16, so devbox.lan is local",
            "devbox: devbox.lan answers ping, using devbox.lan (this machine is on 172.16.0.0/16)",
            "devbox: devbox.example.com not tried: devbox.lan was chosen first",
        ]
    );
    // IPv6 the same way, matched against this machine's 2001:db8:1:1::65.
    let (r, log) = located(&lan_on("[2001:db8:1::/48]"), &both_up(), at_site());
    assert_eq!(r, Ok("devbox.lan".into()));
    assert_eq!(
        log[0],
        "devbox: this machine is on 2001:db8:1::/48, so devbox.lan is local"
    );
    // The first of the entry's own networks this machine is on is the
    // one named.
    let (r, log) = located(
        &lan_on("[10.0.0.0/8, 172.16.0.0/16, 2001:db8:1::/48]"),
        &both_up(),
        at_site(),
    );
    assert_eq!(r, Ok("devbox.lan".into()));
    assert_eq!(
        log[0],
        "devbox: this machine is on 172.16.0.0/16, so devbox.lan is local"
    );
}

/// The address tested is the **caller's**, not the host's: here the host is inside
/// the configured network and the caller is not, so it is not ranked first.
#[test]
fn a_host_inside_the_network_is_not_local_when_the_caller_is_elsewhere() {
    let yaml = lan_on("[172.16.0.0/16]");
    // devbox.lan resolves to 172.16.8.2, inside the entry's /16. From a coffee shop
    // on 10.0.0.0/8 it must not rank first.
    let (r, log) = located(&yaml, &both_up(), on(&["10.0.0.5/8"], SITE_NAMES, 0));
    assert_eq!(r, Ok("devbox.example.com".into()));
    assert!(!log.iter().any(|l| l.contains("local")), "{log:?}");
    // Nor when the machine has no usable network at all.
    let (r, log) = located(&yaml, &both_up(), on(&[], SITE_NAMES, 0));
    assert_eq!(r, Ok("devbox.example.com".into()));
    assert!(!log.iter().any(|l| l.contains("local")), "{log:?}");
    // Back at the site, the same configuration ranks it first.
    let (r, _) = located(&yaml, &both_up(), at_site());
    assert_eq!(r, Ok("devbox.lan".into()));
}

#[test]
fn a_caller_side_match_needs_no_resolver_and_no_prefer_local_network() {
    // No `prefer_local_network`, and a resolver that would hang past
    // the deadline: the caller-side rank is known without it, so the
    // choice is immediate and right.
    let yaml = lan_on("[172.16.0.0/16]");
    let (r, _, took) = located_by(
        &yaml,
        &both_up(),
        on(&["172.16.1.65/24"], SITE_NAMES, 10_000),
    );
    assert_eq!(r, Ok("devbox.lan".into()));
    assert!(took < 400, "{took:?}");
    // With no entry carrying the setting and `prefer_local_network`
    // off, the network is never asked for at all.
    let c = config(&home(""));
    let (r, _) = choice(
        "devbox",
        &c,
        &both_up(),
        &|| panic!("the network was asked for"),
        &mut Vec::new(),
    );
    assert_eq!(r.unwrap().unwrap().destination(), "devbox.example.com");
}

#[test]
fn a_local_entry_must_still_answer_and_beats_a_preferred_one() {
    // Local but not answering: the next in rank.
    let fake = Fake::up(&["devbox.example.com"]);
    let (r, log) = located(&lan_on("[172.16.0.0/16]"), &fake, at_site());
    assert_eq!(r, Ok("devbox.example.com".into()));
    assert_eq!(
        log[1],
        "devbox: devbox.lan does not answer ping within 500ms"
    );
    // prefer: true on the other host: the local entry still wins.
    let yaml = "aliases:\n  devbox:\n    hosts:\n      - host: devbox.example.com\n        \
                    prefer: true\n      - host: devbox.lan\n        \
                    local_networks: [172.16.0.0/16]\n";
    let (r, _) = located(yaml, &both_up(), at_site());
    assert_eq!(r, Ok("devbox.lan".into()));
}

#[test]
fn the_two_directions_sit_side_by_side_and_the_host_side_is_named_first() {
    // devbox.lan is local to the caller by its own setting;
    // devbox.example.com is on one of this machine's interfaces'
    // networks. Both are local, so configured order decides between
    // them -- and each is named the way it matched.
    let yaml = "aliases:\n  devbox:\n    prefer_local_network: true\n    hosts:\n      \
                    - host: devbox.example.com\n      - host: devbox.lan\n        \
                    local_networks: [172.16.0.0/16]\n";
    let names = &[
        ("devbox.lan", "172.16.8.2"),
        ("devbox.example.com", "192.168.1.9"),
    ];
    let (r, log) = located(
        yaml,
        &both_up(),
        on(&["192.168.1.5/24", "172.16.1.65/24"], names, 0),
    );
    assert_eq!(r, Ok("devbox.example.com".into()));
    assert_eq!(
        log[..2],
        [
            "devbox: devbox.example.com is on the local network 192.168.1.0/24",
            "devbox: this machine is on 172.16.0.0/16, so devbox.lan is local",
        ]
    );
    // Where one entry matches both ways, the host's own network is the
    // statement named: devbox.lan resolves onto this machine's /24 and
    // its own setting also holds.
    let yaml = "aliases:\n  devbox:\n    prefer_local_network: true\n    hosts:\n      \
                    - host: devbox.example.com\n      - host: devbox.lan\n        \
                    local_networks: [192.168.0.0/16]\n";
    let (r, log) = located(yaml, &both_up(), on(&["192.168.1.5/24"], HOME_NAMES, 0));
    assert_eq!(r, Ok("devbox.lan".into()));
    assert_eq!(
        log[0],
        "devbox: devbox.lan is on the local network 192.168.1.0/24"
    );
}

#[test]
fn the_rank_is_local_network_then_prefer_then_order() {
    let c = config(
        "aliases:\n  x:\n    - host: a\n    - host: b\n      prefer: true\n    - host: c\n    - host: d\n",
    );
    let entries = &c.alias("x").unwrap().entries;
    let n = LocalNet::new(Ip::parse("192.168.1.5").unwrap(), 24);
    let (host, caller) = (Some(Local::Host(n)), Some(Local::Caller(n)));
    assert_eq!(rank(entries, &[]), [1, 0, 2, 3]);
    assert_eq!(rank(entries, &[None, None, None, host]), [3, 1, 0, 2]);
    assert_eq!(rank(entries, &[None, host, host, None]), [1, 2, 0, 3]);
    // Either direction makes an entry local, and the two rank alike:
    // among the local ones, configured order decides.
    assert_eq!(rank(entries, &[None, None, None, caller]), [3, 1, 0, 2]);
    assert_eq!(rank(entries, &[caller, None, host, None]), [0, 2, 1, 3]);
}

#[test]
fn the_aliass_own_deadline_is_the_one_used() {
    let yaml = "\
reachability_timeout: 2s
aliases:
  quick:
    reachability_timeout: 250ms
    hosts: [{host: a}]
  plain: [{host: b}]
";
    let fake = Fake::up(&["a", "b"]);
    assert_eq!(timed(yaml, "quick", &fake).0, Ok("a".into()));
    assert_eq!(timed(yaml, "plain", &fake).0, Ok("b".into()));
    let asked = fake.asked.borrow().clone();
    assert_eq!(
        asked,
        [
            ("a".to_string(), 250),
            ("b".to_string(), 2000)
        ]
    );
}

#[test]
fn ping_is_one_packet_with_a_backstop_past_the_deadline() {
    for (flag, macos) in [("-t", true), ("-W", false)] {
        for (ms, secs) in [(1500, 3), (2500, 4), (4000, 6)] {
            assert_eq!(
                ping_args("h.lan", ms, macos).join(" "),
                format!("-c 1 {flag} {secs} -- h.lan")
            );
        }
    }
    assert_eq!(ping6_args("fe80::1").join(" "), "-c 1 -- fe80::1");
    assert_eq!(ping_said(Some(0)), Pinged::Up);
    assert_eq!(ping_said(Some(1)), Pinged::Down);
    assert_eq!(ping_said(None), Pinged::Down);
    // A macOS ping that cannot resolve the host may be looking at an IPv6 one.
    assert_eq!(ping_said(Some(68)), Pinged::AskV6);
}

/// `persist` is the entry in use's, else the alias's, else the
/// global setting; `--persist` beats them all. (ACS_PERSIST is
/// `env_switch`, above: the process environment is not set here, since
/// tests run in parallel.)
#[test]
fn persist_follows_entry_alias_global_and_the_flag_wins() {
    let text = "\
persist: true
reachability_interval: 7s
aliases:
  off:
    persist: false
    reachability_interval: 300ms
    hosts:
      - host: a
        persist: true
      - host: b
  plain: [{host: c}]
";
    let args = |dest: &str, flag: bool, entry: Option<usize>| {
        let mut a = match parse_args(vec![dest.to_string()], None).unwrap() {
            Parsed::Run(a) => *a,
            other => panic!("{other:?}"),
        };
        a.config = config(text);
        a.persist = flag;
        a.entry = entry;
        a
    };
    let keeps = |a: &ClientArgs| persist(a, None);
    // The entry in use, then the alias, then the global setting.
    assert!(keeps(&args("off", false, Some(0))));
    assert!(!keeps(&args("off", false, Some(1))));
    assert!(!keeps(&args("off", false, None)));
    assert!(keeps(&args("plain", false, Some(0))));
    assert!(keeps(&args("elsewhere", false, None)));
    // The flag over everything.
    assert!(keeps(&args("off", true, Some(1))));
    // The interval: the alias's, else the global one.
    assert_eq!(
        reachability_interval(&args("off", false, None)),
        300
    );
    assert_eq!(
        reachability_interval(&args("me@plain", false, None)),
        7000
    );
}

#[test]
fn what_is_shown_is_read_as_the_same_configuration() {
    let g = "/x/g.yaml";
    let l = "/x/l.yaml";
    let global = "update_check: false\nreachability_timeout: 750ms\naliases:\n  d:\n    persist: true\n    hosts:\n      - host: a\n        user: me\n        prefer: true\n        local_networks: [192.168.1.7/24, fd00::1:2/48]\n";
    let local = "aliases:\n  d:\n    - host: b\n      reachability_check: false\n  e:\n    - host: c\n      local_networks: 10.1.2.3/20, ::ffff:1.2.3.4/112\n";
    let c =
        Config::load_files(&[source(g, global).unwrap(), source(l, local).unwrap()]).unwrap();
    let out = write_yaml(&show(&c, g, l, None));
    assert!(
        out.contains("        prefer: true\n        local_networks: [192.168.1.0/24, fd00::/48]\n"),
        "{out}"
    );
    assert!(out.contains("      local_networks: [10.1.0.0/20, "), "{out}");
    let again = Config::load_files(&[source("/x/shown.yaml", &out).unwrap()]).unwrap();
    assert_eq!(again.update_check.value, c.update_check.value);
    assert_eq!(again.reachability_timeout.value, 750);
    assert_eq!(again.hosts.len(), c.hosts.len());
    for (x, y) in again.hosts.iter().zip(&c.hosts) {
        assert_eq!(x.name, y.name);
        assert_eq!(x.persist.as_ref().map(|p| p.value), y.persist.as_ref().map(|p| p.value));
        assert_eq!(x.entries.len(), y.entries.len());
        for (p, q) in x.entries.iter().zip(&y.entries) {
            assert_eq!((&p.host, &p.user), (&q.host, &q.user));
            assert_eq!(p.reachability_check, q.reachability_check);
            assert_eq!(p.prefer, q.prefer);
            let nets = |e: &HostEntry| -> Vec<String> {
                e.local_networks.iter().map(|n| n.text()).collect()
            };
            assert_eq!(nets(p), nets(q));
        }
    }
}

#[test]
fn unsetting_an_aliass_only_setting_undoes_setting_it() {
    let src = "aliases:\n  d:\n    - host: a\n    - host: b\n";
    for (key, value) in [
        ("identity_file", "~/.ssh/d"),
        ("persist", "true"),
        ("redraw_on_reconnect", "false"),
        ("reachability_timeout", "2s"),
    ] {
        let set = apply(src, &format!("host set d {key} {value}")).unwrap();
        assert_ne!(set, src, "{key}");
        assert_eq!(apply(&set, &format!("host unset d {key}")).unwrap(), src, "{key}");
    }
}

/// The milliseconds of a number, as a double has them.
fn in_double(number: &str, scale: f64) -> u64 {
    (number.parse::<f64>().unwrap() * scale).round() as u64
}

#[test]
fn a_number_is_rounded_at_double_precision() {
    let read = |text: &str| parse_duration("reachability_interval", text);
    // Half a millisecond, of which the double is a little less, or exactly that.
    for (text, ms) in [
        ("0.5005s", 500),
        ("0.5015", 501),
        ("1.0005s", 1001),
        ("0.1125s", 113),
        ("0.1005s", 101),
        ("100.5ms", 101),
        ("100.49999999999999ms", 100),
        ("100.499999999999999ms", 101),
        ("100.4999999999999999999999999ms", 101),
        (".5s", 500),
        ("7.s", 7000),
        ("3600.0004999s", 3_600_000),
    ] {
        assert_eq!(read(text), Ok(ms), "{text}");
    }
    assert!(read("3600.0005s").unwrap_err().contains("too long"));
    let tiny = format!("0.{}1s", "0".repeat(400));
    assert!(read(&tiny).unwrap_err().contains("too short"));
    let huge = format!("{}s", "9".repeat(400));
    assert!(read(&huge).unwrap_err().contains("too long"));
    let mut n: u64 = 88_172_645_463_325_252;
    for _ in 0..4000 {
        n ^= n << 13;
        n ^= n >> 7;
        n ^= n << 17;
        let behind = (n >> 32) % 100_000_000;
        let cut = 1 + (n % 8) as usize;
        let figures = &format!("{behind:08}")[..cut];
        let s = format!("{}.{figures}5", 1 + n % 3599);
        assert_eq!(read(&format!("{s}s")), Ok(in_double(&s, 1000.0)), "{s}");
        let m = format!("{}.{figures}5", 100 + n % 3_599_000);
        assert_eq!(read(&format!("{m}ms")), Ok(in_double(&m, 1.0)), "{m}");
    }
    for k in 0..3000 {
        let s = format!("{}.{:04}", k / 10, 5 + 10 * (k * 7 % 1000));
        if in_double(&s, 1000.0) >= 100 {
            assert_eq!(read(&s), Ok(in_double(&s, 1000.0)), "{s}");
        }
    }
}

#[test]
fn local_networks_is_set_shown_and_read_back_as_a_list() {
    assert_eq!(
        apply("", "set local_networks 172.16.0.0/16,fd00::/48").unwrap(),
        "local_networks: [172.16.0.0/16, fd00::/48]\n"
    );
    // Quoted, with a space after the comma, reads the same.
    assert_eq!(
        typed("local_networks", "172.16.0.0/16, fd00::/48").unwrap(),
        typed("local_networks", "172.16.0.0/16,fd00::/48").unwrap()
    );
    // Written masked, whatever address of the network was given.
    assert_eq!(
        apply("", "set local_networks 172.16.8.2/16").unwrap(),
        "local_networks: [172.16.0.0/16]\n"
    );
    // A bad network is refused before anything is written.
    let e = apply("", "set local_networks 172.16.0.0").unwrap_err();
    assert!(e.contains("local_networks: expected a network"), "{e}");
    let e = apply("", "set local_networks 10.0.0.0/8,::/0").unwrap_err();
    assert!(e.contains("a /0 network is every address"), "{e}");
    // Setting it again replaces the list; unset takes it away.
    let set = apply(
        "local_networks: [10.0.0.0/8]\n",
        "set local_networks fd00::/48",
    )
    .unwrap();
    assert_eq!(set, "local_networks: [fd00::/48]\n");
    assert_eq!(apply(&set, "unset local_networks").unwrap(), "");
    // On an alias, beside its prefer_local_network.
    let src = "aliases:\n  d:\n    - host: a\n";
    let on_alias = apply(src, "host set d local_networks 172.16.0.0/16").unwrap();
    assert_eq!(
        on_alias,
        "aliases:\n  d:\n    local_networks: [172.16.0.0/16]\n    hosts:\n      - host: a\n"
    );
    assert_eq!(
        apply(&on_alias, "host unset d local_networks").unwrap(),
        src
    );
    // Said, and printed, as set takes it.
    let n = typed("local_networks", "10.0.0.0/8").unwrap();
    assert_eq!(value_text(&n), "10.0.0.0/8");
    let n = typed("local_networks", "172.16.8.2/16,fd00::/48").unwrap();
    assert_eq!(value_text(&n), "172.16.0.0/16, fd00::/48");
    let mut doc = read_yaml("").unwrap();
    assert_eq!(
        edit(&mut doc, &cmd("set local_networks 172.16.0.0/16,fd00::/48")).unwrap(),
        "set local_networks to 172.16.0.0/16, fd00::/48"
    );
    // A file gives networks to a host entry only.
    let e = load("", "local_networks: [10.0.0.0/8]\n").unwrap_err();
    assert!(e.contains("unknown setting 'local_networks'"), "{e}");
    let e = load("", &on_alias).unwrap_err();
    assert!(e.contains("unknown key 'local_networks'"), "{e}");
    // Nothing set: an empty list, from the default.
    let none = Config::default();
    let (n, origin) = scalar(&none, "local_networks").unwrap();
    assert_eq!((value_text(&n).as_str(), origin), ("", None));
}
