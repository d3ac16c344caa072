//! What the client decides before a link is up: its settings, where an alias points
//! it, how it dials, and what it greets the host with.

pub mod laws;

use super::code;
use super::notes::{noted, TermView, Terminal};
use super::serve::{LinkEnd, Outcome};
use super::state::{State, StateView};
use crate::alias::{split_user, user_split};
use crate::cli::{named_host, ArgsView, ClientArgs, Target, TargetView};
use crate::config::duration::{format_timeout, written};
use crate::config::{
    alias_of, destination_of, expand_home, home_expanded, host_views, opt_alias, opt_host, or_else,
    persist_of, place, redraw_of, said, Alias, AliasView, Config, HostEntry, HostView,
};
use crate::install::{not_installing, not_installing_said};
use crate::keys;
use crate::proto::{Hello, HelloView, Marker, MarkerView, Mode, Resume, WinSize, PROTO_VERSION};
use crate::proxy::{WhatView, asked, mode_arg, mode_spelt, mode_word, no_flags};
use crate::safe::{display_max, displayed};
use crate::session::{given_view, valid_name};
use crate::ssh::{names_key, Call, Transport, TransportView};
use crate::text::{chars_of, dec, decimal, parse_uint, parsed_max, same, string_of, texts, trim_chars, trimmed};
use crate::yaml::opt_text;
use vstd::prelude::*;
use vstd::utf8::encode_utf8;

verus! {

pub open spec fn ending_master_text(dest: Seq<char>) -> Seq<char> {
    "ending the shared ssh master the lost link ran on ("@ + dest + ")"@
}

fn ending_master(dest: &str) -> (s: String)
    ensures
        s@ == ending_master_text(dest@),
{
    let mut s = "ending the shared ssh master the lost link ran on (".to_owned();
    s.append(dest);
    s.append(")");
    s
}

pub open spec fn keeping_master_text(dest: Seq<char>) -> Seq<char> {
    "keeping the shared ssh master ("@ + dest + "): the channel ended, not the connection"@
}

fn keeping_master(dest: &str) -> (s: String)
    ensures
        s@ == keeping_master_text(dest@),
{
    let mut s = "keeping the shared ssh master (".to_owned();
    s.append(dest);
    s.append("): the channel ended, not the connection");
    s
}

pub open spec fn other_protocol_text(theirs: Seq<char>, ours: Seq<char>) -> Seq<char> {
    "remote acs speaks protocol "@ + theirs + ", this client "@ + ours
}

fn other_protocol(theirs: &str, ours: &str) -> (s: String)
    ensures
        s@ == other_protocol_text(theirs@, ours@),
{
    let mut s = "remote acs speaks protocol ".to_owned();
    s.append(theirs);
    s.append(", this client ");
    s.append(ours);
    s
}

pub open spec fn key_replaced_text(name: Seq<char>, key: Seq<char>, at: Seq<char>) -> Seq<char> {
    name + ": the key given on the command line replaces identity_file "@ + key + " ("@ + at + ")"@
}

fn key_replaced(name: &str, key: &str, at: &str) -> (s: String)
    ensures
        s@ == key_replaced_text(name@, key@, at@),
{
    let mut s = name.to_owned();
    s.append(": the key given on the command line replaces identity_file ");
    s.append(key);
    s.append(" (");
    s.append(at);
    s.append(")");
    s
}

pub open spec fn key_used_text(name: Seq<char>, key: Seq<char>, at: Seq<char>) -> Seq<char> {
    name + ": identity_file "@ + key + " ("@ + at + ")"@
}

fn key_used(name: &str, key: &str, at: &str) -> (s: String)
    ensures
        s@ == key_used_text(name@, key@, at@),
{
    let mut s = name.to_owned();
    s.append(": identity_file ");
    s.append(key);
    s.append(" (");
    s.append(at);
    s.append(")");
    s
}

pub open spec fn waiting_note_text(host: Seq<char>, every: Seq<char>) -> Seq<char> {
    "waiting for "@ + host + " to answer a ping, every "@ + every + " (Ctrl-C gives up)"@
}

fn waiting_note(host: &str, every: &str) -> (s: String)
    ensures
        s@ == waiting_note_text(host@, every@),
{
    let mut s = "waiting for ".to_owned();
    s.append(host);
    s.append(" to answer a ping, every ");
    s.append(every);
    s.append(" (Ctrl-C gives up)");
    s
}

pub open spec fn master_silent_text(dest: Seq<char>, secs: Seq<char>) -> Seq<char> {
    "the shared ssh master for "@ + dest + " did not answer within "@ + secs + " s — dialing its own connection"@
}

fn master_silent(dest: &str, secs: &str) -> (s: String)
    ensures
        s@ == master_silent_text(dest@, secs@),
{
    let mut s = "the shared ssh master for ".to_owned();
    s.append(dest);
    s.append(" did not answer within ");
    s.append(secs);
    s.append(" s — dialing its own connection");
    s
}

pub open spec fn no_answer_from_text(dest: Seq<char>, secs: Seq<char>) -> Seq<char> {
    "no answer from "@ + dest + " within "@ + secs + " s"@
}

/// What is said of a host that prints no marker in time.
pub fn no_answer_from(dest: &str, secs: &str) -> (s: String)
    ensures
        s@ == no_answer_from_text(dest@, secs@),
{
    let mut s = "no answer from ".to_owned();
    s.append(dest);
    s.append(" within ");
    s.append(secs);
    s.append(" s");
    s
}

// ---- settings --------------------------------------------------------------

/// An `ACS_*` switch over the configuration: `0` is off, anything else non-empty on.
pub open spec fn switched(env: Option<Seq<char>>, config: bool) -> bool {
    match env {
        Some(v) if v.len() > 0 => v != "0"@,
        _ => config,
    }
}

/// An `ACS_*` switch over the configuration: `0` is off, anything else non-empty on.
pub fn env_switch(env: Option<&str>, config: bool) -> (r: bool)
    ensures
        r == switched(given_view(env), config),
{
    if let Some(v) = env {
        if !v.is_empty() {
            return !same(v, "0");
        }
    }
    config
}

/// The alias that the arguments go through, resolved or not yet.
pub open spec fn alias_meant(a: ArgsView) -> Option<AliasView> {
    alias_of(a.config, user_split(named_host(a)).1)
}

/// The alias `args` go through, resolved or not yet: `[user@]<alias>` as given.
pub fn args_alias(args: &ClientArgs) -> (r: Option<&Alias>)
    ensures
        opt_alias(r) == alias_meant(args@),
{
    let (_, alias) = split_user(args.host_name());
    args.config.alias(&alias)
}

/// The entry in use, if one was chosen.
pub open spec fn entry_meant(a: ArgsView) -> Option<HostView> {
    match (alias_meant(a), a.entry) {
        (Some(alias), Some(i)) if i < alias.entries.len() => Some(alias.entries[i as int]),
        _ => None,
    }
}

/// A lost host is waited for.
pub open spec fn persists(a: ArgsView, env: Option<Seq<char>>) -> bool {
    a.persist || switched(env, persist_of(a.config, alias_meant(a), entry_meant(a)).value)
}

/// Whether a lost host is waited for: `--persist`, then `ACS_PERSIST` (`env`), then
/// the setting of the alias's entry in use, the alias's, the global one.
pub fn persist(args: &ClientArgs, env: Option<&str>) -> (r: bool)
    ensures
        r == persists(args@, given_view(env)),
{
    if args.persist {
        return true;
    }
    let alias = args_alias(args);
    let entry = match (alias, args.entry) {
        (Some(a), Some(i)) => if i < a.entries.len() {
            assert(a@.entries[i as int] == a.entries@[i as int]@);
            Some(&a.entries[i])
        } else {
            None
        },
        _ => None,
    };
    assert(opt_host(entry) == entry_meant(args@));
    env_switch(env, args.config.persist_for(alias, entry).value)
}

/// How often a lost host is pinged, in milliseconds.
pub open spec fn interval_of(a: ArgsView) -> u64 {
    match alias_meant(a) {
        Some(alias) => or_else(alias.reachability_interval, a.config.reachability_interval).value,
        None => a.config.reachability_interval.value,
    }
}

/// How often a lost host is pinged while it is waited for, in milliseconds: the
/// alias's `reachability_interval`, else the global one.
pub fn reachability_interval(args: &ClientArgs) -> (ms: u64)
    ensures
        ms == interval_of(args@),
{
    args.config.reachability_interval_for(args_alias(args)).value
}

/// What is said when a host is waited for.
pub fn waiting(args: &ClientArgs) -> (s: String)
    ensures
        s@ == waiting_note_text(named_host(args@), written(interval_of(args@))),
{
    waiting_note(args.host_name(), &format_timeout(reachability_interval(args)))
}

/// Whether arming command mode rings the bell; `env` is `ACS_COMMAND_BELL`.
pub fn command_bell(config: &Config, env: Option<&str>) -> (r: bool)
    ensures
        r == switched(given_view(env), config@.command_bell.value),
{
    env_switch(env, config.command_bell.value)
}

/// Whether a reconnect sends Ctrl-L: `ACS_REDRAW_ON_RECONNECT` (`env`), then the
/// alias's `redraw_on_reconnect`, then the global one.
pub fn redraw_on_reconnect(args: &ClientArgs, env: Option<&str>) -> (r: bool)
    ensures
        r == switched(given_view(env), redraw_of(args@.config, args@.alias).value),
{
    let alias = match &args.alias {
        Some(a) => Some(a.as_str()),
        None => None,
    };
    assert(given_view(alias) == args@.alias);
    env_switch(env, args.config.redraw_on_reconnect_for(alias).value)
}

/// A number from the environment as it stands, or its default.
pub open spec fn number_in(env: Option<Seq<char>>, default: u64) -> u64 {
    match env {
        Some(v) => match parsed_max(v, u64::MAX as nat) {
            Some(n) => n as u64,
            None => default,
        },
        None => default,
    }
}

fn number(env: Option<&str>, default: u64) -> (n: u64)
    ensures
        n == number_in(given_view(env), default),
{
    match env {
        Some(v) => match parse_uint(&chars_of(v), u64::MAX) {
            Some(n) => n,
            None => default,
        },
        None => default,
    }
}

/// The command key and its window. `key` is `ACS_ESCAPE_KEY`; `window` is
/// `ACS_ESCAPE_TIMEOUT_MS`, the one window setting: it sets the gap allowed between
/// the two presses, and the window to choose the command key is read off it too.
pub fn escape_config(key: Option<&str>, window: Option<&str>) -> (c: keys::Config)
    ensures
        c.byte == match given_view(key) {
            Some(k) => match keys::Config::key_named(encode_utf8(k)) {
                Some(b) => b,
                None => 0x1d,
            },
            None => 0x1d,
        },
        c.window_ms == number_in(given_view(window), 400),
{
    let mut c = keys::Config::default();
    if let Some(k) = key {
        if let Some(b) = keys::Config::parse_key(k) {
            c.byte = b;
        }
    }
    c.window_ms = number(window, c.window_ms);
    c
}

/// How long a connection may take to answer, in milliseconds: to print its marker,
/// and then to welcome us. A first connection may wait on a password or a key touch,
/// so it gets longer than a redial, which must return to the backoff wait if the host
/// accepted the connection and then went quiet. `ACS_DIAL_TIMEOUT_MS` (`env`) sets
/// both.
pub fn answer_timeout(redial: bool, env: Option<&str>) -> (ms: u64)
    ensures
        ms == number_in(
            given_view(env),
            if redial {
                30_000
            } else {
                120_000
            },
        ),
{
    number(
        env,
        if redial {
            30_000
        } else {
            120_000
        },
    )
}

/// How the client names itself.
pub open spec fn identified(env: Option<Seq<char>>, user: Option<Seq<char>>, host: Seq<char>) -> Seq<
    char,
> {
    let given = match env {
        Some(s) => displayed(trimmed(s), 128),
        None => Seq::empty(),
    };
    if given.len() > 0 {
        given
    } else {
        displayed(
            (match user {
                Some(u) => u,
                None => "user"@,
            }) + "@"@ + host,
            128,
        )
    }
}

/// Who we are, for the master's takeover decisions: `ACS_IDENTITY` (`env`), else
/// `user@host`. Bounded and control-free before it leaves: this ends up in another
/// person's terminal.
pub fn identity(env: Option<&str>, user: Option<&str>, host: &str) -> (s: String)
    ensures
        s@ == identified(given_view(env), given_view(user), host@),
{
    if let Some(v) = env {
        let s = display_max(&string_of(&trim_chars(&chars_of(v))), 128);
        if !s.as_str().is_empty() {
            return s;
        }
    }
    let mut s = match user {
        Some(u) => u.to_owned(),
        None => "user".to_owned(),
    };
    s.append("@");
    s.append(host);
    display_max(&s, 128)
}

// ---- where an alias points -------------------------------------------------

/// The first entry from `from` on with this origin and host.
pub open spec fn entry_from(entries: Seq<HostView>, e: HostView, from: int) -> Option<int>
    decreases entries.len() - from,
{
    if from >= entries.len() {
        None
    } else if entries[from].origin == e.origin && entries[from].host == e.host {
        Some(from)
    } else {
        entry_from(entries, e, from + 1)
    }
}

fn find_entry(entries: &[HostEntry], e: &HostEntry) -> (r: Option<usize>)
    ensures
        match r {
            None => entry_from(host_views(entries@), e@, 0) is None,
            Some(i) => entry_from(host_views(entries@), e@, 0) == Some(i as int),
        },
{
    let mut i: usize = 0;
    while i < entries.len()
        invariant
            i <= entries.len(),
            entry_from(host_views(entries@), e@, 0) == entry_from(
                host_views(entries@),
                e@,
                i as int,
            ),
        decreases entries.len() - i,
    {
        assert(host_views(entries@)[i as int] == entries@[i as int]@);
        if same(&entries[i].origin.file, &e.origin.file) && entries[i].origin.line == e.origin.line
            && same(&entries[i].host, &e.host) {
            return Some(i);
        }
        i = i + 1;
    }
    None
}

/// The arguments once `e` is the entry in use for `name`.
pub open spec fn pointed(a: ArgsView, name: Seq<char>, e: HostView, home: Option<Seq<char>>) -> ArgsView {
    let a1 = ArgsView { alias: Some(name), ..a };
    ArgsView {
        entry: match alias_meant(a1) {
            Some(alias) => match entry_from(alias.entries, e, 0) {
                Some(i) => Some(i as usize),
                None => None,
            },
            None => None,
        },
        transport: TransportView {
            destination: destination_of(e),
            identity_file: match e.identity_file {
                Some(k) => Some(home_expanded(k.value, home)),
                None => None,
            },
            ..a.transport
        },
        ..a1
    }
}

/// What is said of the key in use.
pub open spec fn key_said(a: ArgsView, name: Seq<char>, e: HostView) -> Option<Seq<char>> {
    match e.identity_file {
        Some(k) if a.verbose > 0 => {
            let at = match k.origin {
                Some(o) => place(o),
                None => Seq::empty(),
            };
            if names_key(a.transport.user_opts) {
                Some(key_replaced_text(name, k.value, at))
            } else {
                Some(key_used_text(name, k.value, at))
            }
        },
        _ => None,
    }
}

/// Point `args` at the entry chosen for the alias `name`, with that entry's key; with
/// `-v`, returns what to say of the key. `name` is kept as given, so a redial
/// resolves it the same way.
pub fn resolve_alias(args: &mut ClientArgs, name: &str, e: &HostEntry, home: Option<&str>) -> (said: Option<
    String,
>)
    ensures
        final(args)@ == pointed(old(args)@, name@, e@, given_view(home)),
        opt_text(said) == key_said(old(args)@, name@, e@),
{
    args.alias = Some(name.to_owned());
    let entry = match args_alias(args) {
        Some(a) => find_entry(&a.entries, e),
        None => None,
    };
    args.entry = entry;
    args.transport.destination = e.destination();
    args.transport.identity_file = match &e.identity_file {
        Some(k) => Some(expand_home(&k.value, home)),
        None => None,
    };
    match &e.identity_file {
        Some(k) => {
            if args.verbose == 0 {
                return None;
            }
            let at = match &k.origin {
                Some(o) => o.text(),
                None => String::new(),
            };
            if args.transport.user_identity() {
                Some(key_replaced(name, &k.value, &at))
            } else {
                Some(key_used(name, &k.value, &at))
            }
        },
        None => None,
    }
}

/// How a host is asked whether it is back.
#[derive(Debug, Clone, PartialEq, Eq)]
pub enum Asking {
    /// It cannot be pinged: an alias whose hosts are all unchecked.
    Never,
    /// The alias is resolved again, pinging its hosts.
    Resolve,
    /// The host is pinged, with this deadline in milliseconds.
    Ping(String, u64),
}

#[verifier::ext_equal]
pub enum AskingView {
    Never,
    Resolve,
    Ping(Seq<char>, u64),
}

impl View for Asking {
    type V = AskingView;

    open spec fn view(&self) -> AskingView {
        match *self {
            Asking::Never => AskingView::Never,
            Asking::Resolve => AskingView::Resolve,
            Asking::Ping(host, ms) => AskingView::Ping(host@, ms),
        }
    }
}

/// How a host is asked whether it answers.
pub open spec fn asked_how(a: ArgsView, name: Seq<char>) -> AskingView {
    match alias_of(a.config, user_split(name).1) {
        Some(alias) => if all_unchecked(alias.entries) {
            AskingView::Never
        } else {
            AskingView::Resolve
        },
        None => AskingView::Ping(
            user_split(a.transport.destination).1,
            a.config.reachability_timeout.value,
        ),
    }
}

/// Every entry is unchecked.
pub open spec fn all_unchecked(entries: Seq<HostView>) -> bool {
    forall|i: int| 0 <= i < entries.len() ==> !(#[trigger] entries[i]).reachability_check
}

fn none_checked(entries: &[HostEntry]) -> (r: bool)
    ensures
        r == all_unchecked(host_views(entries@)),
{
    let mut i: usize = 0;
    while i < entries.len()
        invariant
            i <= entries.len(),
            forall|j: int|
                0 <= j < i ==> !(#[trigger] host_views(entries@)[j]).reachability_check,
        decreases entries.len() - i,
    {
        assert(host_views(entries@)[i as int] == entries@[i as int]@);
        if entries[i].reachability_check {
            return false;
        }
        i = i + 1;
    }
    true
}

/// How the host `name` stands for is asked whether it answers now.
pub fn host_answers(args: &ClientArgs, name: &str) -> (r: Asking)
    ensures
        r@ == asked_how(args@, name@),
{
    let (_, alias) = split_user(name);
    match args.config.alias(&alias) {
        Some(a) => if none_checked(&a.entries) {
            Asking::Never
        } else {
            Asking::Resolve
        },
        None => {
            let (_, host) = split_user(&args.transport.destination);
            Asking::Ping(host, args.config.reachability_timeout.value)
        },
    }
}

// ---- the greeting ----------------------------------------------------------

/// The session that is asked for by name, if any.
pub open spec fn target_name(t: TargetView) -> Option<Seq<char>> {
    match t {
        TargetView::Named(n) => Some(n),
        TargetView::Pick(n) => Some(n),
        TargetView::New => None,
    }
}

/// The session that is asked for by name, if any.
pub fn session_asked(target: &Target) -> (r: Option<String>)
    ensures
        opt_text(r) == target_name(target@),
{
    match target {
        Target::Named(n) => Some(n.clone()),
        Target::Pick(n) => Some(n.clone()),
        Target::New => None,
    }
}

/// The arguments of the proxy that reaches the session.
pub open spec fn proxy_line(a: ArgsView, s: StateView, resuming: bool) -> Seq<Seq<char>> {
    match (s.session, target_name(a.target)) {
        (Some(name), _) => seq![
            "_proxy"@,
            "--session"@,
            name,
            "--mode"@,
            mode_word(
                if resuming {
                    Mode::Attach
                } else {
                    Mode::AttachOrCreate
                },
            ),
        ],
        (None, None) => seq!["_proxy"@, "--new"@],
        (None, Some(name)) => seq![
            "_proxy"@,
            "--session"@,
            name,
            "--mode"@,
            mode_word(Mode::AttachOrCreate),
        ],
    }
}

fn session_line(name: &str, mode: Mode) -> (r: Vec<String>)
    ensures
        texts(r@) == seq!["_proxy"@, "--session"@, name@, "--mode"@, mode_word(mode)],
{
    let mut r: Vec<String> = Vec::new();
    r.push("_proxy".to_owned());
    r.push("--session".to_owned());
    r.push(name.to_owned());
    r.push("--mode".to_owned());
    r.push(mode_arg(mode).to_owned());
    assert(texts(r@) =~= seq!["_proxy"@, "--session"@, name@, "--mode"@, mode_word(mode)]);
    r
}

/// The arguments of the proxy that reaches the session.
pub fn proxy_args(args: &ClientArgs, state: &State, resuming: bool) -> (r: Vec<String>)
    ensures
        texts(r@) == proxy_line(args@, state@, resuming),
{
    if let Some(name) = &state.session {
        return session_line(
            name,
            if resuming {
                Mode::Attach
            } else {
                Mode::AttachOrCreate
            },
        );
    }
    match &args.target {
        Target::New => {
            let mut r: Vec<String> = Vec::new();
            r.push("_proxy".to_owned());
            r.push("--new".to_owned());
            assert(texts(r@) =~= seq!["_proxy"@, "--new"@]);
            r
        },
        Target::Named(name) => session_line(name, Mode::AttachOrCreate),
        Target::Pick(name) => session_line(name, Mode::AttachOrCreate),
    }
}

/// What the host is greeted with.
pub open spec fn greeting(
    a: ArgsView,
    s: StateView,
    force: bool,
    term: Seq<char>,
    colorterm: Seq<char>,
    size: WinSize,
) -> HelloView {
    HelloView {
        proto: PROTO_VERSION,
        session: match s.session {
            Some(n) => n,
            None => match target_name(a.target) {
                Some(n) => n,
                None => Seq::empty(),
            },
        },
        mode: if s.session is Some && s.instance is Some {
            Mode::Attach
        } else if s.session is None && a.target is New {
            Mode::Create
        } else {
            Mode::AttachOrCreate
        },
        identity: s.identity,
        force,
        term,
        colorterm,
        size,
        resume: match s.instance {
            Some(instance) => Some(Resume { instance, offset: s.offset }),
            None => None,
        },
        command: a.command,
    }
}

/// What the host is greeted with: the session, who asks for it and from where it
/// goes on.
pub fn hello(
    args: &ClientArgs,
    state: &State,
    force: bool,
    term: &str,
    colorterm: &str,
    size: WinSize,
) -> (h: Hello)
    ensures
        h@ == greeting(args@, state@, force, term@, colorterm@, size),
{
    let mut command: Vec<String> = Vec::new();
    assert(texts(command@) =~= args@.command.take(0));
    for i in 0..args.command.len()
        invariant
            texts(command@) == args@.command.take(i as int),
    {
        let ghost had = command@;
        command.push(args.command[i].clone());
        assert(texts(command@) =~= texts(had).push(args.command@[i as int]@));
        assert(args@.command.take(i + 1) =~= args@.command.take(i as int).push(
            args@.command[i as int],
        ));
    }
    assert(args@.command.take(args@.command.len() as int) =~= args@.command);
    let session = match &state.session {
        Some(n) => n.clone(),
        None => match session_asked(&args.target) {
            Some(n) => n,
            None => String::new(),
        },
    };
    let created = match &args.target {
        Target::New => true,
        _ => false,
    };
    let mode = if state.session.is_some() && state.instance.is_some() {
        Mode::Attach
    } else if state.session.is_none() && created {
        Mode::Create
    } else {
        Mode::AttachOrCreate
    };
    Hello {
        proto: PROTO_VERSION,
        session,
        mode,
        identity: state.identity.clone(),
        force,
        term: term.to_owned(),
        colorterm: colorterm.to_owned(),
        size,
        resume: match state.instance {
            Some(instance) => Some(Resume { instance, offset: state.offset }),
            None => None,
        },
        command,
    }
}

// ---- dialing ---------------------------------------------------------------

/// One attempt at a connection, and how long it may take, in milliseconds.
#[derive(Debug, Clone, Copy, PartialEq, Eq, Structural)]
pub enum Attempt {
    /// A channel on the shared master.
    Joining(u64),
    /// A connection of its own.
    Alone(u64),
}

/// How an attempt failed.
#[derive(Debug, Clone, Copy, PartialEq, Eq, Structural)]
pub enum DialEnd {
    /// No marker came in time.
    TimedOut,
    /// The connection closed before the marker.
    Closed,
    /// Anything else.
    Other,
}

/// The first attempt, and how long it may take.
pub open spec fn first_attempt(joins: bool, timeout: u64, fallback: u64) -> Attempt {
    if joins {
        Attempt::Joining(
            if fallback < timeout {
                fallback
            } else {
                timeout
            },
        )
    } else {
        Attempt::Alone(timeout)
    }
}

/// The attempt that follows one that failed, if any does.
pub open spec fn next_attempt(at: Attempt, end: DialEnd, timeout: u64) -> Option<Attempt> {
    match (at, end) {
        (Attempt::Joining(_), DialEnd::Other) => None,
        (Attempt::Joining(_), _) => Some(Attempt::Alone(timeout)),
        _ => None,
    }
}

/// The first attempt: where the dial would join a master that is up, the master must
/// answer fast or not at all. Joining costs one round trip, so anything slower is a
/// master whose connection has died without noticing.
pub fn dial(joins: bool, timeout: u64, fallback: u64) -> (a: Attempt)
    ensures
        a == first_attempt(joins, timeout, fallback),
{
    if joins {
        Attempt::Joining(
            if fallback < timeout {
                fallback
            } else {
                timeout
            },
        )
    } else {
        Attempt::Alone(timeout)
    }
}

/// What follows an attempt that failed: a master that is up but cannot carry a
/// channel is worse than none. It is taken down, this is said, and the dial is made
/// again on a connection of its own, with the whole timeout. `within` is the window
/// that the master had, in seconds.
pub fn dial_again(at: Attempt, end: DialEnd, timeout: u64, dest: &str, within: &str) -> (r: Option<
    (Attempt, String),
>)
    ensures
        match next_attempt(at, end, timeout) {
            Some(next) => r matches Some((a, said)) && a == next && said@ == master_silent_text(
                dest@,
                within@,
            ),
            None => r is None,
        },
{
    match at {
        Attempt::Joining(_) => match end {
            DialEnd::Other => None,
            _ => Some((Attempt::Alone(timeout), master_silent(dest, within))),
        },
        Attempt::Alone(_) => None,
    }
}

// ---- connecting ------------------------------------------------------------

/// What happens while a connection is made.
#[derive(Debug)]
pub enum Event {
    /// It is to be made; a connection that the session menu opened is used instead of
    /// dialing (whether it is a channel on the shared master, and what came behind
    /// its last frame).
    Start(Option<(bool, Vec<u8>)>),
    /// The dial came up: its marker, and whether it is a channel on the shared master.
    Dialed(Marker, bool),
    /// The dial did not come up.
    DialFailed(String),
    /// The install that was asked for is done.
    Installed,
    /// The install that was asked for failed.
    InstallFailed(String),
}

#[verifier::ext_equal]
pub enum EventView {
    Start(Option<(bool, Seq<u8>)>),
    Dialed(MarkerView, bool),
    DialFailed(Seq<char>),
    Installed,
    InstallFailed(Seq<char>),
}

impl View for Event {
    type V = EventView;

    open spec fn view(&self) -> EventView {
        match *self {
            Event::Start(None) => EventView::Start(None),
            Event::Start(Some((muxed, rest))) => EventView::Start(Some((muxed, rest@))),
            Event::Dialed(m, muxed) => EventView::Dialed(m@, muxed),
            Event::DialFailed(e) => EventView::DialFailed(e@),
            Event::Installed => EventView::Installed,
            Event::InstallFailed(e) => EventView::InstallFailed(e@),
        }
    }
}

/// What is to be done next.
#[derive(Debug)]
pub enum Action {
    /// Serve the session; these bytes came already.
    Serve(Vec<u8>),
    /// End the master of the transport given, if any, then dial, running the proxy
    /// with these arguments.
    Dial { stop: Option<Transport>, call: Call, proxy: Vec<String> },
    /// Install acs on the host.
    Install { os: String, arch: String },
    /// It is over.
    Over(Outcome),
}

#[verifier::ext_equal]
pub enum ActionView {
    Serve(Seq<u8>),
    Dial { stop: Option<TransportView>, call: Call, proxy: Seq<Seq<char>> },
    Install { os: Seq<char>, arch: Seq<char> },
    Over(Outcome),
}

pub open spec fn opt_transport(t: Option<Transport>) -> Option<TransportView> {
    match t {
        None => None,
        Some(t) => Some(t@),
    }
}

impl View for Action {
    type V = ActionView;

    open spec fn view(&self) -> ActionView {
        match *self {
            Action::Serve(b) => ActionView::Serve(b@),
            Action::Dial { stop, call, proxy } => ActionView::Dial {
                stop: opt_transport(stop),
                call,
                proxy: texts(proxy@),
            },
            Action::Install { os, arch } => ActionView::Install { os: os@, arch: arch@ },
            Action::Over(o) => ActionView::Over(o),
        }
    }
}

/// The connection itself failed, as far as the ending of the last link says. No
/// reason means no evidence, and this is the direction to be wrong in.
pub open spec fn connection_failed(ended: Option<LinkEnd>) -> bool {
    match ended {
        None => true,
        Some(LinkEnd::Channel) => false,
        Some(_) => true,
    }
}

/// What becomes of the master that the lost link was a channel on: it is ended with
/// the connection, and kept where only the channel ended.
pub open spec fn master_ended(
    a: ArgsView,
    master: Option<TransportView>,
    t: TermView,
    resuming: bool,
    ended: Option<LinkEnd>,
    now: u64,
) -> (TermView, Option<TransportView>) {
    match master {
        Some(old) if resuming => {
            let stopped = connection_failed(ended);
            let said = if stopped {
                ending_master_text(old.destination)
            } else {
                keeping_master_text(old.destination)
            };
            (
                if a.verbose > 0 {
                    noted(t, said, now)
                } else {
                    t
                },
                if stopped {
                    Some(old)
                } else {
                    None
                },
            )
        },
        _ => (t, None),
    }
}

/// The next step of a connection: the master of the link in hand, the terminal, and
/// what is to be done.
pub open spec fn connected(
    a: ArgsView,
    s: StateView,
    master: Option<TransportView>,
    t: TermView,
    resuming: bool,
    ended: Option<LinkEnd>,
    event: EventView,
    persist_env: Option<Seq<char>>,
    now: u64,
) -> (Option<TransportView>, TermView, ActionView) {
    match event {
        EventView::Start(Some((muxed, rest))) => (
            if muxed {
                Some(a.transport)
            } else {
                None
            },
            t,
            ActionView::Serve(rest),
        ),
        EventView::DialFailed(e) => if resuming {
            (master, t, ActionView::Over(Outcome::LinkLost(LinkEnd::Transport)))
        } else {
            (
                master,
                noted(t, e, now),
                ActionView::Over(
                    if persists(a, persist_env) {
                        Outcome::LinkLost(LinkEnd::Transport)
                    } else {
                        Outcome::Exit(code::UNREACHABLE)
                    },
                ),
            )
        },
        EventView::Dialed(MarkerView::Ready { proto, rest }, muxed) => if proto != PROTO_VERSION {
            (
                master,
                noted(t, other_protocol_text(dec(proto as nat), dec(PROTO_VERSION as nat)), now),
                ActionView::Over(Outcome::Exit(code::ERROR)),
            )
        } else {
            (
                if muxed {
                    Some(a.transport)
                } else {
                    None
                },
                t,
                ActionView::Serve(rest),
            )
        },
        EventView::Dialed(MarkerView::Need { os, arch }, _) => if a.config.install_on_remote.value {
            (master, t, ActionView::Install { os, arch })
        } else {
            (
                master,
                noted(t, not_installing_said(a, os, arch), now),
                ActionView::Over(Outcome::Exit(code::INSTALL_FAILED)),
            )
        },
        EventView::InstallFailed(e) => (
            master,
            noted(t, e, now),
            ActionView::Over(Outcome::Exit(code::INSTALL_FAILED)),
        ),
        _ => {
            let (t1, stop) = master_ended(a, master, t, resuming, ended, now);
            (
                None,
                t1,
                ActionView::Dial {
                    stop,
                    call: if resuming {
                        Call::Redial
                    } else {
                        Call::Session
                    },
                    proxy: proxy_line(a, s, resuming),
                },
            )
        },
    }
}

fn end_master(
    args: &ClientArgs,
    master: &mut Option<Transport>,
    term: &mut Terminal,
    resuming: bool,
    ended: Option<LinkEnd>,
    now: u64,
) -> (stop: Option<Transport>)
    ensures
        *final(master) is None,
        (final(term)@, opt_transport(stop)) == master_ended(
            args@,
            opt_transport(*old(master)),
            old(term)@,
            resuming,
            ended,
            now,
        ),
{
    let mut taken: Option<Transport> = None;
    std::mem::swap(&mut taken, master);
    match taken {
        Some(old) => {
            if !resuming {
                return None;
            }
            let failed = match ended {
                None => true,
                Some(end) => end.failed_the_connection(),
            };
            if args.verbose > 0 {
                let said = if failed {
                    ending_master(&old.destination)
                } else {
                    keeping_master(&old.destination)
                };
                term.note(&said, now);
            }
            if failed {
                Some(old)
            } else {
                None
            }
        },
        None => None,
    }
}

/// Make one connection, step by step: dial, install where acs is missing, and serve.
/// `resuming` is true for a redial after a lost link, and `ended` is how the link
/// before this one ended (`None` before there was one). `master` is the transport of
/// the link in hand where that link is a channel on the shared master: the transport
/// and not a flag, because an alias is resolved again before every redial, and by
/// then the destination may be another host, whose master is somebody else's live
/// connection. `persist_env` is `ACS_PERSIST`.
pub fn connect_and_serve(
    args: &ClientArgs,
    state: &State,
    master: &mut Option<Transport>,
    term: &mut Terminal,
    resuming: bool,
    ended: Option<LinkEnd>,
    event: Event,
    persist_env: Option<&str>,
    now: u64,
) -> (action: Action)
    ensures
        (opt_transport(*final(master)), final(term)@, action@) == connected(
            args@,
            state@,
            opt_transport(*old(master)),
            old(term)@,
            resuming,
            ended,
            event@,
            given_view(persist_env),
            now,
        ),
{
    match event {
        Event::Start(Some((muxed, rest))) => {
            *master = if muxed {
                Some(args.transport.copy())
            } else {
                None
            };
            Action::Serve(rest)
        },
        Event::DialFailed(e) => {
            if resuming {
                return Action::Over(Outcome::LinkLost(LinkEnd::Transport));
            }
            term.note(&e, now);
            if persist(args, persist_env) {
                Action::Over(Outcome::LinkLost(LinkEnd::Transport))
            } else {
                Action::Over(Outcome::Exit(code::UNREACHABLE))
            }
        },
        Event::Dialed(Marker::Ready { proto, rest }, muxed) => {
            if proto != PROTO_VERSION {
                term.note(
                    &other_protocol(&decimal(proto as u64), &decimal(PROTO_VERSION as u64)),
                    now,
                );
                return Action::Over(Outcome::Exit(code::ERROR));
            }
            *master = if muxed {
                Some(args.transport.copy())
            } else {
                None
            };
            Action::Serve(rest)
        },
        Event::Dialed(Marker::Need { os, arch }, _) => {
            if args.config.install_on_remote.value {
                Action::Install { os, arch }
            } else {
                term.note(&not_installing(args, &os, &arch), now);
                Action::Over(Outcome::Exit(code::INSTALL_FAILED))
            }
        },
        Event::InstallFailed(e) => {
            term.note(&e, now);
            Action::Over(Outcome::Exit(code::INSTALL_FAILED))
        },
        _ => {
            let stop = end_master(args, master, term, resuming, ended, now);
            Action::Dial {
                stop,
                call: if resuming {
                    Call::Redial
                } else {
                    Call::Session
                },
                proxy: proxy_args(args, state, resuming),
            }
        },
    }
}

// ---- laws ------------------------------------------------------------------

/// A redial is always a connection of its own: it never goes over the shared master.
pub proof fn law_a_redial_gets_its_own_connection(
    a: ArgsView,
    s: StateView,
    master: Option<TransportView>,
    t: TermView,
    ended: Option<LinkEnd>,
    event: EventView,
    persist_env: Option<Seq<char>>,
    now: u64,
)
    ensures
        connected(a, s, master, t, true, ended, event, persist_env, now).2 matches ActionView::Dial {
            call,
            ..
        } ==> call is Redial && !crate::ssh::shares(a.transport, call),
{
}

/// A dial ends a master only after a link on that very master was lost with its
/// connection: never on a first connection, never where only the channel ended, and
/// never the master of another transport.
pub proof fn law_only_the_master_of_a_failed_connection_is_ended(
    a: ArgsView,
    s: StateView,
    master: Option<TransportView>,
    t: TermView,
    resuming: bool,
    ended: Option<LinkEnd>,
    event: EventView,
    persist_env: Option<Seq<char>>,
    now: u64,
)
    ensures
        connected(a, s, master, t, resuming, ended, event, persist_env, now).2 matches ActionView::Dial {
            stop,
            ..
        } ==> stop == (if resuming && connection_failed(ended) {
            master
        } else {
            None
        }),
{
}

/// While a connection is being made again nothing but the user or the host's own
/// answer ends the client: a dial that fails is a lost link.
pub proof fn law_a_failed_redial_is_a_lost_link(
    a: ArgsView,
    s: StateView,
    master: Option<TransportView>,
    t: TermView,
    ended: Option<LinkEnd>,
    e: Seq<char>,
    persist_env: Option<Seq<char>>,
    now: u64,
)
    ensures
        connected(a, s, master, t, true, ended, EventView::DialFailed(e), persist_env, now).2
            == ActionView::Over(Outcome::LinkLost(LinkEnd::Transport)),
{
}

/// The proxy understands what the client starts it with: the session that the client
/// is at or asks for, attached only where it is lost and to be found again, and a new
/// one where none is named.
pub proof fn law_the_proxy_understands_the_client(a: ArgsView, s: StateView, resuming: bool)
    requires
        s.session matches Some(n) ==> valid_name(n),
        s.session is None ==> (target_name(a.target) matches Some(n) ==> valid_name(n)),
    ensures
        proxy_line(a, s, resuming)[0] == "_proxy"@,
        asked(proxy_line(a, s, resuming).skip(1), no_flags()) == Ok::<WhatView, Seq<char>>(
            match (s.session, target_name(a.target)) {
                (Some(name), _) => WhatView::Session {
                    name: Some(name),
                    mode: if resuming {
                        Mode::Attach
                    } else {
                        Mode::AttachOrCreate
                    },
                },
                (None, None) => WhatView::Session { name: None, mode: Mode::Create },
                (None, Some(name)) => WhatView::Session {
                    name: Some(name),
                    mode: Mode::AttachOrCreate,
                },
            },
        ),
{
    reveal_strlit("--kill");
    reveal_strlit("--session");
    reveal_strlit("--mode");
    reveal_strlit("--new");
    reveal_strlit("attach");
    reveal_strlit("create");
    reveal_strlit("attach-or-create");
    assert("--kill"@.len() == 6 && "--session"@.len() == 9 && "--mode"@.len() == 6 && "--new"@.len() == 5);
    assert("--kill"@[2] != "--mode"@[2]);
    assert("attach"@.len() == 6 && "create"@.len() == 6 && "attach-or-create"@.len() == 16);
    let line = proxy_line(a, s, resuming).skip(1);
    reveal_with_fuel(asked, 3);
    if s.session is None && target_name(a.target) is None {
        assert(line =~= seq!["--new"@]);
        assert(line.skip(1) =~= Seq::empty());
    } else {
        let name = match s.session {
            Some(n) => n,
            None => target_name(a.target)->0,
        };
        let mode = if s.session is Some && resuming {
            Mode::Attach
        } else {
            Mode::AttachOrCreate
        };
        assert(mode_spelt(mode_word(mode)) == Some(mode));
        assert(line =~= seq!["--session"@, name, "--mode"@, mode_word(mode)]);
        assert(line.skip(2) =~= seq!["--mode"@, mode_word(mode)]);
        assert(line.skip(2).skip(2) =~= Seq::empty());
    }
}

} // verus!
