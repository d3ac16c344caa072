//! The client's command line:
//!
//! ```text
//! acs [ssh options] [user@]<host> [session] [--new]
//!     [--no-reconnect | --persist] [--force] [-v] [-- command...]
//! acs list [ssh options] [-v] [[user@]<host>]
//! ```
//!
//! `list` is a reserved first argument, as `config` and `upgrade` are: a host
//! called `list` is reached as `user@list` or with an option before it. Listing is
//! a command, not an option: `-l`/`--list` are refused with a pointer to
//! `acs list`.

pub mod laws;
pub mod lex;

use crate::config::{defaults, Config, ConfigView};
use crate::session::{default_name, default_name_from, given_view, valid_name, validate_name, bad_name_text};
use crate::ssh::{check_local_forward, forward_fault, plain_transport, Transport, TransportView};
use crate::text::{same, texts};
use crate::yaml::opt_text;
use lex::{
    at_end, held, lex_next, lex_peek, lex_rest, lex_start, lex_value, lexed, next_token, next_value, to_equals,
    Token, TokenView,
};
use vstd::prelude::*;

verus! {

pub const USAGE: &'static str = "\
usage: acs [ssh options] [user@]<host>             pick a detached session from a menu, or create one
       acs [ssh options] [user@]<host> <session>   attach, or create
       acs [ssh options] [user@]<host> --new       create a new numbered session
       acs list [ssh options] [[user@]<host>]      list sessions on <host>, or on every host alias
       acs config ...                            read and edit the configuration (acs config --help)
       acs upgrade [--version X.Y.Z] [--check]   replace this acs with the latest release

options:
      --new           create a session named with the lowest free number
      --no-reconnect  exit when the connection drops instead of redialling
      --persist       never give up on a lost host: ping it every reachability_interval
                      (default 5s) and dial as soon as it answers, from the first connect on
      --force         take over a session attached by someone else
  -v                  verbose: show ssh commands, remote login noise, connect timings
                      and what each network change the kernel reports was worth
      --ssh <path>    ssh program to run (also ACS_SSH)
  -h, --help          this help
  -V, --version       print the version
  -- <command...>     run <command> instead of the login shell (new sessions)

ssh options:
  -i <identity_file>  -p <port>  -J <jump>  -F <config>  -o <option=value>
                      passed to every ssh call acs makes
  -L [bind:]port:host:hostport
                      forward a local port, as ssh -L does; repeatable,
                      and on the session's own connection alone

in a session: Ctrl-] Ctrl-] then  d  detach (session keeps running)
                                  x  exit (ends the session)
              a bell says it waits for the key (off: command_bell: false)

environment: ACS_DEFAULT_SESSION ACS_IDENTITY ACS_ESCAPE_KEY ACS_ESCAPE_TIMEOUT_MS
             ACS_COMMAND_BELL ACS_PERSIST ACS_SSH ACS_SOCKET_DIR

configuration: /etc/acs/config.yaml, then ~/.config/acs/config.yaml;
               the <host> of [user@]<host> may be an alias defined there (aliases:)";

/// What is said of `-l` and `--list`.
pub const NO_LIST: &'static str = "no option --list: list sessions with acs list [<host>] (and for a login name, use user@host or -o User=<login>)";

/// Which session the user asked for.
#[derive(Debug, Clone, PartialEq, Eq)]
pub enum Target {
    /// Attach to, or create, this session.
    Named(String),
    /// Create a new session with the lowest free number.
    New,
    /// No session named: pick a detached one from a menu, or create one. The name
    /// is `$ACS_DEFAULT_SESSION` or `main`, which a new session gets if it is free,
    /// and which is attached or created without a terminal for the menu.
    Pick(String),
}

#[verifier::ext_equal]
pub enum TargetView {
    Named(Seq<char>),
    New,
    Pick(Seq<char>),
}

impl View for Target {
    type V = TargetView;

    open spec fn view(&self) -> TargetView {
        match *self {
            Target::Named(s) => TargetView::Named(s@),
            Target::New => TargetView::New,
            Target::Pick(s) => TargetView::Pick(s@),
        }
    }
}

#[derive(Debug, Clone, PartialEq, Eq)]
pub struct ClientArgs {
    pub transport: Transport,
    pub target: Target,
    pub list: bool,
    pub reconnect: bool,
    /// `--persist`: keep waiting for a lost host, whatever the configuration says.
    pub persist: bool,
    pub force: bool,
    pub verbose: u8,
    pub command: Vec<String>,
    /// The configuration file's settings; defaults until the client loads them.
    pub config: Config,
    /// The alias the destination was resolved from, as given (`[user@]<alias>`), if
    /// any.
    pub alias: Option<String>,
    /// The index of the alias's entry in use, once one was chosen.
    pub entry: Option<usize>,
}

#[verifier::ext_equal]
pub struct ArgsView {
    pub transport: TransportView,
    pub target: TargetView,
    pub list: bool,
    pub reconnect: bool,
    pub persist: bool,
    pub force: bool,
    pub verbose: u8,
    pub command: Seq<Seq<char>>,
    pub config: ConfigView,
    pub alias: Option<Seq<char>>,
    pub entry: Option<usize>,
}

impl View for ClientArgs {
    type V = ArgsView;

    open spec fn view(&self) -> ArgsView {
        ArgsView {
            transport: self.transport@,
            target: self.target@,
            list: self.list,
            reconnect: self.reconnect,
            persist: self.persist,
            force: self.force,
            verbose: self.verbose,
            command: texts(self.command@),
            config: self.config@,
            alias: opt_text(self.alias),
            entry: self.entry,
        }
    }
}

/// The host as the user named it: the alias, or the destination.
pub open spec fn named_host(a: ArgsView) -> Seq<char> {
    match a.alias {
        Some(alias) => alias,
        None => a.transport.destination,
    }
}

impl ClientArgs {
    /// The host as the user named it: the alias, or the destination.
    pub fn host_name(&self) -> (s: &str)
        ensures
            s@ == named_host(self@),
    {
        match &self.alias {
            Some(alias) => alias.as_str(),
            None => self.transport.destination.as_str(),
        }
    }
}

#[derive(Debug, Clone, PartialEq, Eq)]
pub enum Parsed {
    Run(Box<ClientArgs>),
    /// `acs list` without a host: every alias in the configuration. The transport
    /// has no destination; each alias supplies one.
    ListAll(Box<ClientArgs>),
    Help,
    Version,
}

#[verifier::ext_equal]
pub enum ParsedView {
    Run(ArgsView),
    ListAll(ArgsView),
    Help,
    Version,
}

impl View for Parsed {
    type V = ParsedView;

    open spec fn view(&self) -> ParsedView {
        match *self {
            Parsed::Run(a) => ParsedView::Run(a@),
            Parsed::ListAll(a) => ParsedView::ListAll(a@),
            Parsed::Help => ParsedView::Help,
            Parsed::Version => ParsedView::Version,
        }
    }
}

// ---- the options -----------------------------------------------------------

/// What the options and arguments said, before it is judged as a whole.
#[derive(Debug)]
struct Opts {
    user_opts: Vec<String>,
    local_forwards: Vec<String>,
    positionals: Vec<String>,
    new: bool,
    reconnect: bool,
    persist: bool,
    force: bool,
    verbose: u8,
    command: Vec<String>,
    ssh: Option<String>,
    transport_cmd: Option<String>,
}

/// What the options and arguments said, before it is judged as a whole.
#[verifier::ext_equal]
pub struct OptsView {
    pub user_opts: Seq<Seq<char>>,
    pub local_forwards: Seq<Seq<char>>,
    pub positionals: Seq<Seq<char>>,
    pub new: bool,
    pub reconnect: bool,
    pub persist: bool,
    pub force: bool,
    pub verbose: u8,
    pub command: Seq<Seq<char>>,
    pub ssh: Option<Seq<char>>,
    pub transport_cmd: Option<Seq<char>>,
}

impl View for Opts {
    type V = OptsView;

    closed spec fn view(&self) -> OptsView {
        OptsView {
            user_opts: texts(self.user_opts@),
            local_forwards: texts(self.local_forwards@),
            positionals: texts(self.positionals@),
            new: self.new,
            reconnect: self.reconnect,
            persist: self.persist,
            force: self.force,
            verbose: self.verbose,
            command: texts(self.command@),
            ssh: opt_text(self.ssh),
            transport_cmd: opt_text(self.transport_cmd),
        }
    }
}

/// Nothing was said yet.
pub open spec fn no_opts() -> OptsView {
    OptsView {
        user_opts: Seq::empty(),
        local_forwards: Seq::empty(),
        positionals: Seq::empty(),
        new: false,
        reconnect: true,
        persist: false,
        force: false,
        verbose: 0,
        command: Seq::empty(),
        ssh: None,
        transport_cmd: None,
    }
}

impl Opts {
    fn new() -> (o: Opts)
        ensures
            o@ == no_opts(),
    {
        let o = Opts {
            user_opts: Vec::new(),
            local_forwards: Vec::new(),
            positionals: Vec::new(),
            new: false,
            reconnect: true,
            persist: false,
            force: false,
            verbose: 0,
            command: Vec::new(),
            ssh: None,
            transport_cmd: None,
        };
        assert(o@ =~= no_opts());
        o
    }
}

pub open spec fn unknown_long_text(name: Seq<char>) -> Seq<char> {
    "unknown option --"@ + name
}

fn unknown_long(name: &str) -> (s: String)
    ensures
        s@ == unknown_long_text(name@),
{
    let mut s = "unknown option --".to_owned();
    s.append(name);
    s
}

pub open spec fn bad_host_text(host: Seq<char>) -> Seq<char> {
    "bad host '"@ + host + "'"@
}

fn bad_host(host: &str) -> (s: String)
    ensures
        s@ == bad_host_text(host@),
{
    let mut s = "bad host '".to_owned();
    s.append(host);
    s.append("'");
    s
}

pub open spec fn too_many_text(extra: Seq<char>) -> Seq<char> {
    "too many arguments: "@ + extra
}

fn too_many(extra: &str) -> (s: String)
    ensures
        s@ == too_many_text(extra@),
{
    let mut s = "too many arguments: ".to_owned();
    s.append(extra);
    s
}

pub open spec fn unknown_short_text(c: char) -> Seq<char> {
    "unknown option -"@ + seq![c]
}

fn unknown_short(c: char) -> (s: String)
    ensures
        s@ == unknown_short_text(c),
{
    let mut s = "unknown option -".to_owned();
    s.push(c);
    assert(s@ =~= unknown_short_text(c));
    s
}

/// What comes of one token, or of the whole command line so far.
#[verifier::ext_equal]
pub enum Said {
    /// The parser holds this, the options say that, and the next token follows.
    On(Seq<Seq<char>>, OptsView),
    /// Every token was taken.
    All(OptsView),
    Help,
    Version,
    Wrong(Seq<char>),
}

/// The options that are handed to every ssh call, with their value.
pub open spec fn is_ssh_option(c: char) -> bool {
    c == 'i' || c == 'p' || c == 'J' || c == 'F' || c == 'o'
}

/// One more `-v`.
pub open spec fn louder(verbose: u8) -> u8 {
    if verbose == 255 {
        255
    } else {
        (verbose + 1) as u8
    }
}

/// A short option, with the parser behind it.
pub open spec fn short_said(c: char, h: Seq<Seq<char>>, o: OptsView) -> Said {
    if is_ssh_option(c) {
        match next_value(h) {
            (Ok(v), h2) => Said::On(
                h2,
                OptsView { user_opts: o.user_opts + seq![seq!['-', c], v], ..o },
            ),
            (Err(e), _) => Said::Wrong(e),
        }
    } else if c == 'L' {
        match next_value(h) {
            (Ok(v), h2) => match forward_fault(v) {
                None => Said::On(
                    h2,
                    OptsView { local_forwards: o.local_forwards.push(v), ..o },
                ),
                Some(e) => Said::Wrong(e),
            },
            (Err(e), _) => Said::Wrong(e),
        }
    } else if c == 'l' {
        Said::Wrong(NO_LIST@)
    } else if c == 'r' {
        Said::On(h, o)
    } else if c == 'v' {
        Said::On(h, OptsView { verbose: louder(o.verbose), ..o })
    } else if c == 'h' {
        Said::Help
    } else if c == 'V' {
        Said::Version
    } else {
        Said::Wrong(unknown_short_text(c))
    }
}

/// A long option, with the parser behind it.
pub open spec fn long_said(name: Seq<char>, h: Seq<Seq<char>>, o: OptsView) -> Said {
    if name == "list"@ {
        Said::Wrong(NO_LIST@)
    } else if name == "new"@ {
        Said::On(h, OptsView { new: true, ..o })
    } else if name == "no-reconnect"@ {
        Said::On(h, OptsView { reconnect: false, ..o })
    } else if name == "persist"@ {
        Said::On(h, OptsView { persist: true, ..o })
    } else if name == "reconnect"@ {
        Said::On(h, o)
    } else if name == "force"@ {
        Said::On(h, OptsView { force: true, ..o })
    } else if name == "verbose"@ {
        Said::On(h, OptsView { verbose: louder(o.verbose), ..o })
    } else if name == "ssh"@ {
        match next_value(h) {
            (Ok(v), h2) => Said::On(h2, OptsView { ssh: Some(v), ..o }),
            (Err(e), _) => Said::Wrong(e),
        }
    } else if name == "transport-cmd"@ {
        match next_value(h) {
            (Ok(v), h2) => Said::On(h2, OptsView { transport_cmd: Some(v), ..o }),
            (Err(e), _) => Said::Wrong(e),
        }
    } else if name == "help"@ {
        Said::Help
    } else if name == "version"@ {
        Said::Version
    } else {
        Said::Wrong(unknown_long_text(name))
    }
}

/// A token, with the parser behind it.
pub open spec fn token_said(t: TokenView, h: Seq<Seq<char>>, o: OptsView) -> Said {
    match t {
        TokenView::Short(c) => short_said(c, h, o),
        TokenView::Long(name) => long_said(name, h, o),
        TokenView::Value(v) => Said::On(h, OptsView { positionals: o.positionals.push(v), ..o }),
    }
}

/// The next step through the command line: a `--` ends the options, and what
/// follows it is the command.
pub open spec fn next_said(h: Seq<Seq<char>>, o: OptsView) -> Said {
    if at_end(h) {
        Said::All(OptsView { command: o.command + h.skip(3), ..o })
    } else {
        match next_token(h) {
            (Ok(Some(t)), h2) => token_said(t, h2, o),
            (Ok(None), _) => Said::All(o),
            (Err(e), _) => Said::Wrong(e),
        }
    }
}

/// How much a parser still holds.
pub open spec fn weight(rest: Seq<Seq<char>>) -> nat
    decreases rest.len(),
{
    if rest.len() == 0 {
        0
    } else {
        rest[0].len() + 1 + weight(rest.skip(1))
    }
}

/// How much a parser still holds.
pub open spec fn remaining(h: Seq<Seq<char>>) -> nat {
    h[1].len() + weight(h.skip(2))
}

/// The whole command line: what it says, or what ends the reading of it.
pub open spec fn all_said(h: Seq<Seq<char>>, o: OptsView) -> Said
    recommends
        h.len() >= 2,
    decreases remaining(h),
{
    match next_said(h, o) {
        Said::On(h2, o2) => {
            if h.len() >= 2 {
                proof {
                    lemma_said_shrinks(h, o);
                }
                all_said(h2, o2)
            } else {
                Said::All(o2)
            }
        },
        end => end,
    }
}

pub proof fn lemma_to_equals(s: Seq<char>)
    ensures
        to_equals(s) <= s.len(),
        s.len() >= 2 && s[0] != '=' && s[1] != '=' ==> to_equals(s) >= 2,
    decreases s.len(),
{
    if s.len() > 0 && s[0] != '=' {
        lemma_to_equals(s.skip(1));
        if s.len() >= 2 && s[1] != '=' {
            assert(s.skip(1)[0] == s[1]);
            assert(to_equals(s.skip(1)) == 1 + to_equals(s.skip(1).skip(1)));
        }
    }
}

proof fn lemma_value_shrinks(h: Seq<Seq<char>>)
    requires
        h.len() >= 2,
    ensures
        next_value(h).1.len() >= 2,
        remaining(next_value(h).1) <= remaining(h),
{
    let h2 = next_value(h).1;
    let rest = h.skip(2);
    assert(h2.skip(2) =~= rest || h2.skip(2) =~= rest.skip(1));
}

proof fn lemma_token_shrinks(h: Seq<Seq<char>>)
    requires
        h.len() >= 2,
        next_token(h).0 matches Ok(Some(_)),
    ensures
        next_token(h).1.len() >= 2,
        remaining(next_token(h).1) < remaining(h),
{
    let h2 = next_token(h).1;
    let rest = h.skip(2);
    if h[1].len() > 0 {
        assert(h2.skip(2) =~= rest);
    } else {
        assert(h2.skip(2) =~= rest.skip(1));
        let a = rest[0];
        if a.len() >= 2 && a[0] == '-' && a[1] == '-' {
            lemma_to_equals(a);
        }
    }
}

/// Every step takes something from the parser.
pub proof fn lemma_said_shrinks(h: Seq<Seq<char>>, o: OptsView)
    requires
        h.len() >= 2,
    ensures
        next_said(h, o) matches Said::On(h2, _) ==> h2.len() >= 2 && remaining(h2) < remaining(h),
{
    if !at_end(h) {
        if let (Ok(Some(t)), h2) = next_token(h) {
            lemma_token_shrinks(h);
            lemma_value_shrinks(h2);
        }
    }
}

/// What comes of one token.
#[derive(Debug)]
enum Step {
    On,
    All,
    Help,
    Version,
    Wrong(String),
}

/// A step was taken as `said` says.
spec fn step_is(r: Step, said: Said, p: lexopt::Parser, o: OptsView) -> bool {
    match (r, said) {
        (Step::On, Said::On(h2, o2)) => lexed(p) == h2 && o == o2,
        (Step::All, Said::All(o2)) => o == o2,
        (Step::Help, Said::Help) => true,
        (Step::Version, Said::Version) => true,
        (Step::Wrong(e), Said::Wrong(text)) => e@ == text,
        _ => false,
    }
}

impl Opts {
    fn pass(&mut self, c: char, v: String)
        ensures
            final(self)@ == (OptsView {
                user_opts: old(self)@.user_opts + seq![seq!['-', c], v@],
                ..old(self)@
            }),
    {
        let mut flag = "-".to_owned();
        flag.push(c);
        proof {
            reveal_strlit("-");
            assert(flag@ =~= seq!['-', c]);
        }
        self.user_opts.push(flag);
        self.user_opts.push(v);
        assert(texts(self.user_opts@) =~= texts(old(self).user_opts@) + seq![seq!['-', c], v@]);
    }

    fn forward(&mut self, v: String)
        ensures
            final(self)@ == (OptsView {
                local_forwards: old(self)@.local_forwards.push(v@),
                ..old(self)@
            }),
    {
        self.local_forwards.push(v);
        assert(texts(self.local_forwards@) =~= texts(old(self).local_forwards@).push(v@));
    }

    fn positional(&mut self, v: String)
        ensures
            final(self)@ == (OptsView { positionals: old(self)@.positionals.push(v@), ..old(self)@ }),
    {
        self.positionals.push(v);
        assert(texts(self.positionals@) =~= texts(old(self).positionals@).push(v@));
    }

    fn run(&mut self, command: Vec<String>)
        ensures
            final(self)@ == (OptsView {
                command: old(self)@.command + texts(command@),
                ..old(self)@
            }),
    {
        let mut command = command;
        let ghost given = texts(command@);
        self.command.append(&mut command);
        assert(texts(self.command@) =~= texts(old(self).command@) + given);
    }

    fn short(&mut self, c: char, p: &mut lexopt::Parser) -> (r: Step)
        ensures
            step_is(r, short_said(c, lexed(*old(p)), old(self)@), *final(p), final(self)@),
    {
        if c == 'i' || c == 'p' || c == 'J' || c == 'F' || c == 'o' {
            match lex_value(p) {
                Ok(v) => {
                    self.pass(c, v);
                    Step::On
                },
                Err(e) => Step::Wrong(e),
            }
        } else if c == 'L' {
            match lex_value(p) {
                Ok(v) => match check_local_forward(&v) {
                    Ok(_) => {
                        self.forward(v);
                        Step::On
                    },
                    Err(e) => Step::Wrong(e),
                },
                Err(e) => Step::Wrong(e),
            }
        } else if c == 'l' {
            Step::Wrong(NO_LIST.to_owned())
        } else if c == 'r' {
            Step::On
        } else if c == 'v' {
            self.verbose = self.verbose.saturating_add(1);
            Step::On
        } else if c == 'h' {
            Step::Help
        } else if c == 'V' {
            Step::Version
        } else {
            Step::Wrong(unknown_short(c))
        }
    }

    fn long(&mut self, name: &str, p: &mut lexopt::Parser) -> (r: Step)
        ensures
            step_is(r, long_said(name@, lexed(*old(p)), old(self)@), *final(p), final(self)@),
    {
        if same(name, "list") {
            return Step::Wrong(NO_LIST.to_owned());
        }
        if same(name, "new") {
            self.new = true;
        } else if same(name, "no-reconnect") {
            self.reconnect = false;
        } else if same(name, "persist") {
            self.persist = true;
        } else if same(name, "reconnect") {
        } else if same(name, "force") {
            self.force = true;
        } else if same(name, "verbose") {
            self.verbose = self.verbose.saturating_add(1);
        } else if same(name, "ssh") {
            match lex_value(p) {
                Ok(v) => {
                    self.ssh = Some(v);
                },
                Err(e) => {
                    return Step::Wrong(e);
                },
            }
        } else if same(name, "transport-cmd") {
            match lex_value(p) {
                Ok(v) => {
                    self.transport_cmd = Some(v);
                },
                Err(e) => {
                    return Step::Wrong(e);
                },
            }
        } else if same(name, "help") {
            return Step::Help;
        } else if same(name, "version") {
            return Step::Version;
        } else {
            return Step::Wrong(unknown_long(name));
        }
        Step::On
    }

    /// Take the next token.
    fn take(&mut self, p: &mut lexopt::Parser) -> (r: Step)
        requires
            lexed(*old(p)).len() >= 2,
        ensures
            step_is(r, next_said(lexed(*old(p)), old(self)@), *final(p), final(self)@),
    {
        let ghost h = lexed(*p);
        let ended = match lex_peek(p) {
            Some(a) => same(&a, "--"),
            None => false,
        };
        assert(ended == at_end(h));
        if ended {
            return match lex_rest(p) {
                Ok(rest) => {
                    let mut rest = rest;
                    let ghost all = rest@;
                    assert(texts(all).len() == all.len());
                    rest.remove(0);
                    proof {
                        assert forall|i: int| 0 <= i < rest@.len() implies #[trigger] texts(rest@)[i]
                            == h.skip(3)[i] by {
                            assert(texts(all)[i + 1] == h.skip(2)[i + 1]);
                        }
                        assert(texts(rest@) =~= h.skip(3));
                    }
                    self.run(rest);
                    Step::All
                },
                Err(e) => Step::Wrong(e),
            };
        }
        match lex_next(p) {
            Ok(Some(Token::Short(c))) => self.short(c, p),
            Ok(Some(Token::Long(name))) => self.long(&name, p),
            Ok(Some(Token::Value(v))) => {
                self.positional(v);
                Step::On
            },
            Ok(None) => Step::All,
            Err(e) => Step::Wrong(e),
        }
    }
}

// ---- the arguments as a whole ----------------------------------------------

/// The session that is meant.
pub open spec fn target_of(o: OptsView, default: Option<Seq<char>>) -> Result<TargetView, Seq<char>> {
    if o.new {
        Ok(TargetView::New)
    } else if o.positionals.len() > 1 {
        if valid_name(o.positionals[1]) {
            Ok(TargetView::Named(o.positionals[1]))
        } else {
            Err(bad_name_text(o.positionals[1]))
        }
    } else {
        match default_name(default) {
            Ok(name) => Ok(TargetView::Pick(name)),
            Err(e) => Err(e),
        }
    }
}

/// What is wrong with the arguments taken together, if anything.
pub open spec fn misused(o: OptsView, list: bool) -> Option<Seq<char>> {
    let pos = o.positionals;
    if pos.len() == 0 && !list {
        Some("need a host (see acs --help)"@)
    } else if pos.len() > 0 && pos[0].len() > 0 && pos[0][0] == '-' {
        Some(bad_host_text(pos[0]))
    } else if pos.len() > 2 {
        Some(too_many_text(pos[2]))
    } else if list && (pos.len() > 1 || o.new) {
        Some("acs list takes at most a host: no session name and no --new"@)
    } else if list && o.command.len() > 0 {
        Some("acs list takes no command"@)
    } else if o.persist && !o.reconnect {
        Some("--persist keeps reconnecting and --no-reconnect never does: give one"@)
    } else if o.new && pos.len() > 1 {
        Some("--new picks the session name itself; give either --new or a name"@)
    } else {
        None
    }
}

/// The arguments that the options come to.
pub open spec fn args_of(o: OptsView, target: TargetView, list: bool) -> ArgsView {
    ArgsView {
        transport: TransportView {
            ssh: match o.ssh {
                Some(s) => s,
                None => "ssh"@,
            },
            user_opts: o.user_opts,
            local_forwards: o.local_forwards,
            transport_cmd: o.transport_cmd,
            ..plain_transport(
                if o.positionals.len() > 0 {
                    o.positionals[0]
                } else {
                    Seq::empty()
                },
            )
        },
        target,
        list,
        reconnect: o.reconnect,
        persist: o.persist,
        force: o.force,
        verbose: o.verbose,
        command: o.command,
        config: defaults(),
        alias: None,
        entry: None,
    }
}

/// The options judged as a whole.
pub open spec fn judged(o: OptsView, default: Option<Seq<char>>, list: bool) -> Result<
    ParsedView,
    Seq<char>,
> {
    match misused(o, list) {
        Some(e) => Err(e),
        None => match target_of(o, default) {
            Err(e) => Err(e),
            Ok(target) => if o.positionals.len() > 0 {
                Ok(ParsedView::Run(args_of(o, target, list)))
            } else {
                Ok(ParsedView::ListAll(args_of(o, target, list)))
            },
        },
    }
}

/// What a command line means.
pub open spec fn meant(
    args: Seq<Seq<char>>,
    default: Option<Seq<char>>,
    list: bool,
) -> Result<ParsedView, Seq<char>> {
    match all_said(held(Seq::empty(), Seq::empty(), args), no_opts()) {
        Said::All(o) => judged(o, default, list),
        Said::Help => Ok(ParsedView::Help),
        Said::Version => Ok(ParsedView::Version),
        Said::Wrong(e) => Err(e),
        Said::On(..) => arbitrary(),
    }
}

/// A result is the one that is meant.
pub open spec fn parsed_is(r: Result<Parsed, String>, m: Result<ParsedView, Seq<char>>) -> bool {
    match (r, m) {
        (Ok(a), Ok(v)) => a@ == v,
        (Err(e), Err(text)) => e@ == text,
        _ => false,
    }
}

impl Opts {
    fn misuse(&self, list: bool) -> (r: Option<String>)
        ensures
            match r {
                None => misused(self@, list) is None,
                Some(e) => misused(self@, list) == Some(e@),
            },
    {
        let pos = &self.positionals;
        assert(texts(pos@).len() == pos@.len());
        if pos.len() == 0 && !list {
            return Some("need a host (see acs --help)".to_owned());
        }
        if pos.len() > 0 {
            assert(self@.positionals[0] == pos@[0]@);
            if !pos[0].as_str().is_empty() && pos[0].as_str().get_char(0) == '-' {
                return Some(bad_host(&pos[0]));
            }
        }
        if pos.len() > 2 {
            assert(self@.positionals[2] == pos@[2]@);
            return Some(too_many(&pos[2]));
        }
        if list && (pos.len() > 1 || self.new) {
            return Some("acs list takes at most a host: no session name and no --new".to_owned());
        }
        if list && self.command.len() > 0 {
            return Some("acs list takes no command".to_owned());
        }
        if self.persist && !self.reconnect {
            return Some(
                "--persist keeps reconnecting and --no-reconnect never does: give one".to_owned(),
            );
        }
        if self.new && pos.len() > 1 {
            return Some(
                "--new picks the session name itself; give either --new or a name".to_owned(),
            );
        }
        None
    }

    fn target(&self, default_session: Option<&str>) -> (r: Result<Target, String>)
        ensures
            match (r, target_of(self@, given_view(default_session))) {
                (Ok(t), Ok(v)) => t@ == v,
                (Err(e), Err(text)) => e@ == text,
                _ => false,
            },
    {
        if self.new {
            Ok(Target::New)
        } else if self.positionals.len() > 1 {
            assert(self@.positionals[1] == self.positionals@[1]@);
            validate_name(&self.positionals[1])?;
            Ok(Target::Named(self.positionals[1].clone()))
        } else {
            Ok(Target::Pick(default_name_from(default_session)?))
        }
    }

    fn judge(self, default_session: Option<&str>, list: bool) -> (r: Result<Parsed, String>)
        ensures
            parsed_is(r, judged(self@, given_view(default_session), list)),
    {
        if let Some(e) = self.misuse(list) {
            return Err(e);
        }
        let target = self.target(default_session)?;
        let hosted = self.positionals.len() > 0;
        let mut transport = Transport::new(
            if hosted {
                self.positionals[0].clone()
            } else {
                "".to_owned()
            },
        );
        proof {
            reveal_strlit("");
            assert(""@ =~= Seq::empty());
        }
        if let Some(s) = self.ssh {
            transport.ssh = s;
        }
        transport.user_opts = self.user_opts;
        transport.local_forwards = self.local_forwards;
        transport.transport_cmd = self.transport_cmd;
        let args = Box::new(
            ClientArgs {
                transport,
                target,
                list,
                reconnect: self.reconnect,
                persist: self.persist,
                force: self.force,
                verbose: self.verbose,
                command: self.command,
                config: Config::default(),
                alias: None,
                entry: None,
            },
        );
        Ok(
            if hosted {
                Parsed::Run(args)
            } else {
                Parsed::ListAll(args)
            },
        )
    }
}

/// Parse the client's arguments (without the program name). `default_session` is
/// `$ACS_DEFAULT_SESSION`.
pub fn parse(args: Vec<String>, default_session: Option<&str>) -> (r: Result<Parsed, String>)
    ensures
        parsed_is(r, meant(texts(args@), given_view(default_session), false)),
{
    parse_as(args, default_session, false)
}

/// Parse `acs list`'s arguments (after `list`): the ssh options, `-v`, and at most
/// a host; `list` is set.
pub fn parse_list(args: Vec<String>) -> (r: Result<Parsed, String>)
    ensures
        parsed_is(r, meant(texts(args@), None, true)),
{
    parse_as(args, None, true)
}

fn parse_as(args: Vec<String>, default_session: Option<&str>, list: bool) -> (r: Result<
    Parsed,
    String,
>)
    ensures
        parsed_is(r, meant(texts(args@), given_view(default_session), list)),
{
    let ghost start = held(Seq::empty(), Seq::empty(), texts(args@));
    let mut p = lex_start(args);
    let mut opts = Opts::new();
    loop
        invariant_except_break
            lexed(p).len() >= 2,
            all_said(lexed(p), opts@) == all_said(start, no_opts()),
            meant(texts(args@), given_view(default_session), list) == match all_said(start, no_opts()) {
                Said::All(o) => judged(o, given_view(default_session), list),
                Said::Help => Ok(ParsedView::Help),
                Said::Version => Ok(ParsedView::Version),
                Said::Wrong(e) => Err(e),
                Said::On(..) => arbitrary(),
            },
        ensures
            all_said(start, no_opts()) == Said::All(opts@),
        decreases remaining(lexed(p)),
    {
        proof {
            lemma_said_shrinks(lexed(p), opts@);
        }
        match opts.take(&mut p) {
            Step::On => {},
            Step::All => {
                break;
            },
            Step::Help => {
                return Ok(Parsed::Help);
            },
            Step::Version => {
                return Ok(Parsed::Version);
            },
            Step::Wrong(e) => {
                return Err(e);
            },
        }
    }
    opts.judge(default_session, list)
}

} // verus!
