//! The client's configuration file: YAML at `/etc/acs/config.yaml` (global),
//! then `$XDG_CONFIG_HOME/acs/config.yaml` (local, default
//! `~/.config/acs/config.yaml`). Either may be missing.
//!
//! Merging: a setting in the local file replaces the global one (an alias's own
//! settings too); mappings (`aliases`) merge key by key; lists (an alias's
//! hosts) concatenate, global entries first. An empty value (`key:`) sets
//! nothing.
//!
//! Only the local client reads it; the remote roles never do.

pub mod apply;
pub mod double;
pub mod duration;
pub mod entry;
pub mod laws;

use crate::netmatch::LocalNet;
use crate::path::{join, joined};
use crate::safe::{is_control, is_control_char};
use crate::text::{chars_of, dec, decimal, is_white, same, sub_vec, white};
use crate::yaml::opt_text;
use vstd::prelude::*;

verus! {

/// Where a value came from: a file and line, for `acs config show` and error
/// messages.
#[derive(Debug, Clone, PartialEq, Eq)]
pub struct Origin {
    pub file: String,
    pub line: usize,
}

#[verifier::ext_equal]
pub struct OriginView {
    pub file: Seq<char>,
    pub line: nat,
}

impl View for Origin {
    type V = OriginView;

    open spec fn view(&self) -> OriginView {
        OriginView { file: self.file@, line: self.line as nat }
    }
}

/// `file:line`.
pub open spec fn place(o: OriginView) -> Seq<char> {
    o.file + ":"@ + dec(o.line)
}

impl Origin {
    /// `file:line`.
    pub fn text(&self) -> (s: String)
        ensures
            s@ == place(self@),
    {
        let mut s = self.file.clone();
        s.append(":");
        s.append(&decimal(self.line as u64));
        s
    }

    pub fn copy(&self) -> (o: Origin)
        ensures
            o@ == self@,
    {
        Origin { file: self.file.clone(), line: self.line }
    }
}

/// A setting and where it was set; `origin` is `None` for the default.
#[derive(Debug, Clone, PartialEq, Eq)]
pub struct Setting<T> {
    pub value: T,
    pub origin: Option<Origin>,
}

/// A setting's value and where it was set.
#[verifier::ext_equal]
pub struct Said<T> {
    pub value: T,
    pub origin: Option<OriginView>,
}

pub open spec fn opt_origin(o: Option<Origin>) -> Option<OriginView> {
    match o {
        None => None,
        Some(o) => Some(o@),
    }
}

pub open spec fn said<T>(s: Setting<T>) -> Said<T> {
    Said { value: s.value, origin: opt_origin(s.origin) }
}

pub open spec fn said_text(s: Setting<String>) -> Said<Seq<char>> {
    Said { value: s.value@, origin: opt_origin(s.origin) }
}

pub open spec fn opt_said<T>(s: Option<Setting<T>>) -> Option<Said<T>> {
    match s {
        None => None,
        Some(s) => Some(said(s)),
    }
}

pub open spec fn opt_said_text(s: Option<Setting<String>>) -> Option<Said<Seq<char>>> {
    match s {
        None => None,
        Some(s) => Some(said_text(s)),
    }
}

/// A value nothing has set.
pub open spec fn default_of<T>(value: T) -> Said<T> {
    Said { value, origin: None }
}

impl<T> Setting<T> {
    pub fn default(value: T) -> (s: Setting<T>)
        ensures
            said(s) == default_of(value),
    {
        Setting { value, origin: None }
    }
}

impl Setting<String> {
    pub fn copy_text(&self) -> (s: Setting<String>)
        ensures
            said_text(s) == said_text(*self),
    {
        Setting {
            value: self.value.clone(),
            origin: match &self.origin {
                Some(o) => Some(o.copy()),
                None => None,
            },
        }
    }
}

impl Setting<bool> {
    pub fn copy(&self) -> (s: Setting<bool>)
        ensures
            said(s) == said(*self),
    {
        Setting {
            value: self.value,
            origin: match &self.origin {
                Some(o) => Some(o.copy()),
                None => None,
            },
        }
    }
}

/// One way to reach an alias.
#[derive(Debug, Clone, PartialEq, Eq)]
pub struct HostEntry {
    pub host: String,
    /// Login name; `None` lets `~/.ssh/config` decide.
    pub user: Option<String>,
    /// Ping the host once before using it (default true).
    pub reachability_check: bool,
    /// Chosen over the alias's other hosts when several answer.
    pub prefer: bool,
    /// The ssh key for this host (`-i`); `None` leaves it to the alias.
    pub identity_file: Option<Setting<String>>,
    /// Keep waiting for the host when it is lost; `None` leaves it to the alias.
    pub persist: Option<Setting<bool>>,
    /// Networks that make this entry the local one: it is ranked first when one
    /// of this machine's own addresses is on one of them. Empty for none.
    pub local_networks: Vec<LocalNet>,
    pub origin: Origin,
}

#[verifier::ext_equal]
pub struct HostView {
    pub host: Seq<char>,
    pub user: Option<Seq<char>>,
    pub reachability_check: bool,
    pub prefer: bool,
    pub identity_file: Option<Said<Seq<char>>>,
    pub persist: Option<Said<bool>>,
    pub local_networks: Seq<LocalNet>,
    pub origin: OriginView,
}

impl View for HostEntry {
    type V = HostView;

    open spec fn view(&self) -> HostView {
        HostView {
            host: self.host@,
            user: opt_text(self.user),
            reachability_check: self.reachability_check,
            prefer: self.prefer,
            identity_file: opt_said_text(self.identity_file),
            persist: opt_said(self.persist),
            local_networks: self.local_networks@,
            origin: self.origin@,
        }
    }
}

pub open spec fn host_views(v: Seq<HostEntry>) -> Seq<HostView> {
    v.map_values(|e: HostEntry| e@)
}

/// The ssh destination: `user@host`, or `host`.
pub open spec fn destination_of(e: HostView) -> Seq<char> {
    match e.user {
        Some(u) => u + "@"@ + e.host,
        None => e.host,
    }
}

impl HostEntry {
    /// The ssh destination: `user@host`, or `host`.
    pub fn destination(&self) -> (s: String)
        ensures
            s@ == destination_of(self@),
    {
        match &self.user {
            Some(u) => {
                let mut s = u.clone();
                s.append("@");
                s.append(&self.host);
                s
            },
            None => self.host.clone(),
        }
    }

    pub fn copy(&self) -> (e: HostEntry)
        ensures
            e@ == self@,
    {
        let nets = sub_vec(&self.local_networks, 0, self.local_networks.len());
        assert(nets@ =~= self.local_networks@);
        HostEntry {
            host: self.host.clone(),
            user: match &self.user {
                Some(u) => Some(u.clone()),
                None => None,
            },
            reachability_check: self.reachability_check,
            prefer: self.prefer,
            identity_file: match &self.identity_file {
                Some(k) => Some(k.copy_text()),
                None => None,
            },
            persist: match &self.persist {
                Some(k) => Some(k.copy()),
                None => None,
            },
            local_networks: nets,
            origin: self.origin.copy(),
        }
    }
}

/// An alias: its entries in the order they are tried, and what they share.
#[derive(Debug, Clone, PartialEq, Eq)]
pub struct Alias {
    pub name: String,
    pub entries: Vec<HostEntry>,
    /// The ssh key of every entry that names none itself.
    pub identity_file: Option<Setting<String>>,
    /// Send Ctrl-L after reconnecting; `None` leaves it to the global setting.
    pub redraw_on_reconnect: Option<Setting<bool>>,
    /// How long to wait for the hosts' pings, in milliseconds.
    pub reachability_timeout: Option<Setting<u64>>,
    /// Keep waiting for a lost host.
    pub persist: Option<Setting<bool>>,
    /// Try first the hosts on a network this machine is on.
    pub prefer_local_network: Option<Setting<bool>>,
    /// How often to ping a lost host while waiting, in milliseconds.
    pub reachability_interval: Option<Setting<u64>>,
    /// Where the alias is first defined.
    pub origin: Origin,
}

#[verifier::ext_equal]
pub struct AliasView {
    pub name: Seq<char>,
    pub entries: Seq<HostView>,
    pub identity_file: Option<Said<Seq<char>>>,
    pub redraw_on_reconnect: Option<Said<bool>>,
    pub reachability_timeout: Option<Said<u64>>,
    pub persist: Option<Said<bool>>,
    pub prefer_local_network: Option<Said<bool>>,
    pub reachability_interval: Option<Said<u64>>,
    pub origin: OriginView,
}

impl View for Alias {
    type V = AliasView;

    open spec fn view(&self) -> AliasView {
        AliasView {
            name: self.name@,
            entries: host_views(self.entries@),
            identity_file: opt_said_text(self.identity_file),
            redraw_on_reconnect: opt_said(self.redraw_on_reconnect),
            reachability_timeout: opt_said(self.reachability_timeout),
            persist: opt_said(self.persist),
            prefer_local_network: opt_said(self.prefer_local_network),
            reachability_interval: opt_said(self.reachability_interval),
            origin: self.origin@,
        }
    }
}

pub open spec fn alias_views(v: Seq<Alias>) -> Seq<AliasView> {
    v.map_values(|a: Alias| a@)
}

/// The merged settings.
#[derive(Debug, Clone, PartialEq, Eq)]
pub struct Config {
    /// Install acs on a remote that lacks it (default true).
    pub install_on_remote: Setting<bool>,
    /// Check GitHub once a week for a newer release (default true).
    pub update_check: Setting<bool>,
    /// Ring the terminal bell when command mode arms (default true).
    pub command_bell: Setting<bool>,
    /// Send Ctrl-L to the program after reconnecting to a session that was
    /// already there (default true).
    pub redraw_on_reconnect: Setting<bool>,
    /// How long an alias's hosts have to answer a ping, in milliseconds (default
    /// 500).
    pub reachability_timeout: Setting<u64>,
    /// Keep waiting for a lost host, dialling once it answers a ping (default
    /// false).
    pub persist: Setting<bool>,
    /// Try an alias's hosts on a network this machine is on first (default
    /// false).
    pub prefer_local_network: Setting<bool>,
    /// How often a lost host is pinged while waiting, in milliseconds (default
    /// 5000).
    pub reachability_interval: Setting<u64>,
    /// Aliases in the order first defined, each with its hosts in order.
    pub hosts: Vec<Alias>,
    /// The files that were read, global first.
    pub files: Vec<String>,
}

#[verifier::ext_equal]
pub struct ConfigView {
    pub install_on_remote: Said<bool>,
    pub update_check: Said<bool>,
    pub command_bell: Said<bool>,
    pub redraw_on_reconnect: Said<bool>,
    pub reachability_timeout: Said<u64>,
    pub persist: Said<bool>,
    pub prefer_local_network: Said<bool>,
    pub reachability_interval: Said<u64>,
    pub hosts: Seq<AliasView>,
    pub files: Seq<Seq<char>>,
}

impl View for Config {
    type V = ConfigView;

    open spec fn view(&self) -> ConfigView {
        ConfigView {
            install_on_remote: said(self.install_on_remote),
            update_check: said(self.update_check),
            command_bell: said(self.command_bell),
            redraw_on_reconnect: said(self.redraw_on_reconnect),
            reachability_timeout: said(self.reachability_timeout),
            persist: said(self.persist),
            prefer_local_network: said(self.prefer_local_network),
            reachability_interval: said(self.reachability_interval),
            hosts: alias_views(self.hosts@),
            files: crate::text::texts(self.files@),
        }
    }
}

/// `reachability_timeout` when nothing sets it, in milliseconds.
pub const DEFAULT_REACHABILITY_TIMEOUT: u64 = 500;

/// The longest `reachability_timeout`: a minute is already far past any ping
/// worth waiting for.
pub const MAX_REACHABILITY_TIMEOUT: u64 = 60_000;

/// `reachability_interval` when nothing sets it, in milliseconds.
pub const DEFAULT_REACHABILITY_INTERVAL: u64 = 5_000;

/// The bounds of `reachability_interval`: often enough to notice a host within
/// the hour, not so often that the pings flood it.
pub const MIN_REACHABILITY_INTERVAL: u64 = 100;

pub const MAX_REACHABILITY_INTERVAL: u64 = 3_600_000;

/// The settings that nothing has set.
pub open spec fn defaults() -> ConfigView {
    ConfigView {
        install_on_remote: default_of(true),
        update_check: default_of(true),
        command_bell: default_of(true),
        redraw_on_reconnect: default_of(true),
        reachability_timeout: default_of(DEFAULT_REACHABILITY_TIMEOUT),
        persist: default_of(false),
        prefer_local_network: default_of(false),
        reachability_interval: default_of(DEFAULT_REACHABILITY_INTERVAL),
        hosts: Seq::empty(),
        files: Seq::empty(),
    }
}

impl Default for Config {
    fn default() -> (c: Config)
        ensures
            c@ == defaults(),
    {
        let c = Config {
            install_on_remote: Setting::default(true),
            update_check: Setting::default(true),
            command_bell: Setting::default(true),
            redraw_on_reconnect: Setting::default(true),
            reachability_timeout: Setting::default(DEFAULT_REACHABILITY_TIMEOUT),
            persist: Setting::default(false),
            prefer_local_network: Setting::default(false),
            reachability_interval: Setting::default(DEFAULT_REACHABILITY_INTERVAL),
            hosts: Vec::new(),
            files: Vec::new(),
        };
        assert(c@.hosts =~= Seq::empty());
        assert(c@.files =~= Seq::empty());
        c
    }
}

// ---- the keys --------------------------------------------------------------

/// The settings that are true or false.
pub open spec fn is_bool_key(k: Seq<char>) -> bool {
    k == "install_on_remote"@ || k == "update_check"@ || k == "command_bell"@ || k
        == "redraw_on_reconnect"@ || k == "persist"@ || k == "prefer_local_network"@
}

/// The settings, global or an alias's, that are a duration.
pub open spec fn is_duration_key(k: Seq<char>) -> bool {
    k == "reachability_timeout"@ || k == "reachability_interval"@
}

/// The alias settings that are true or false.
pub open spec fn is_alias_bool_key(k: Seq<char>) -> bool {
    k == "redraw_on_reconnect"@ || k == "persist"@ || k == "prefer_local_network"@
}

/// Every top-level setting, for error messages and `acs config`.
pub const KEYS: &'static str = "install_on_remote, update_check, command_bell, redraw_on_reconnect, reachability_timeout, persist, reachability_interval, prefer_local_network, aliases";

/// Every key of a host entry.
pub const HOST_KEYS: &'static str = "host, user, reachability_check, identity_file, persist, prefer, local_networks";

/// Every key of an alias written as a mapping (`devbox: {identity_file: …, hosts:
/// […]}`) rather than as its list of hosts.
pub const ALIAS_KEYS: &'static str = "identity_file, redraw_on_reconnect, reachability_timeout, persist, reachability_interval, prefer_local_network, hosts";

pub fn bool_key(k: &str) -> (r: bool)
    ensures
        r == is_bool_key(k@),
{
    same(k, "install_on_remote") || same(k, "update_check") || same(k, "command_bell") || same(
        k,
        "redraw_on_reconnect",
    ) || same(k, "persist") || same(k, "prefer_local_network")
}

pub fn duration_key(k: &str) -> (r: bool)
    ensures
        r == is_duration_key(k@),
{
    same(k, "reachability_timeout") || same(k, "reachability_interval")
}

pub fn alias_bool_key(k: &str) -> (r: bool)
    ensures
        r == is_alias_bool_key(k@),
{
    same(k, "redraw_on_reconnect") || same(k, "persist") || same(k, "prefer_local_network")
}

// ---- looking things up -----------------------------------------------------

/// A true-or-false setting by name.
pub open spec fn bool_of(c: ConfigView, key: Seq<char>) -> Option<Said<bool>> {
    if key == "install_on_remote"@ {
        Some(c.install_on_remote)
    } else if key == "update_check"@ {
        Some(c.update_check)
    } else if key == "command_bell"@ {
        Some(c.command_bell)
    } else if key == "redraw_on_reconnect"@ {
        Some(c.redraw_on_reconnect)
    } else if key == "persist"@ {
        Some(c.persist)
    } else if key == "prefer_local_network"@ {
        Some(c.prefer_local_network)
    } else {
        None
    }
}

/// A duration setting by name.
pub open spec fn duration_of(c: ConfigView, key: Seq<char>) -> Option<Said<u64>> {
    if key == "reachability_timeout"@ {
        Some(c.reachability_timeout)
    } else if key == "reachability_interval"@ {
        Some(c.reachability_interval)
    } else {
        None
    }
}

/// The first alias called `name`, at or behind `from`.
pub open spec fn alias_from(hosts: Seq<AliasView>, name: Seq<char>, from: int) -> Option<int>
    decreases hosts.len() - from,
{
    if from < 0 || from >= hosts.len() {
        None
    } else if hosts[from].name == name {
        Some(from)
    } else {
        alias_from(hosts, name, from + 1)
    }
}

/// The alias called `name`.
pub open spec fn alias_of(c: ConfigView, name: Seq<char>) -> Option<AliasView> {
    match alias_from(c.hosts, name, 0) {
        None => None,
        Some(i) => Some(c.hosts[i]),
    }
}

/// A setting of one's own, else the one given.
pub open spec fn or_else<T>(own: Option<Said<T>>, other: Said<T>) -> Said<T> {
    match own {
        Some(s) => s,
        None => other,
    }
}

/// An alias that may not be there.
pub open spec fn opt_alias(a: Option<&Alias>) -> Option<AliasView> {
    match a {
        None => None,
        Some(a) => Some(a@),
    }
}

/// An entry that may not be there.
pub open spec fn opt_host(e: Option<&HostEntry>) -> Option<HostView> {
    match e {
        None => None,
        Some(e) => Some(e@),
    }
}

/// Whether a lost host is waited for: the entry's own setting, else the alias's,
/// else the global one.
pub open spec fn persist_of(c: ConfigView, alias: Option<AliasView>, entry: Option<HostView>) -> Said<
    bool,
> {
    match entry {
        Some(e) if e.persist is Some => e.persist->0,
        _ => match alias {
            Some(a) => or_else(a.persist, c.persist),
            None => c.persist,
        },
    }
}

/// Whether a reconnect redraws the session reached as `name`.
pub open spec fn redraw_of(c: ConfigView, name: Option<Seq<char>>) -> Said<bool> {
    match name {
        None => c.redraw_on_reconnect,
        Some(n) => match alias_of(c, crate::alias::user_split(n).1) {
            Some(a) => or_else(a.redraw_on_reconnect, c.redraw_on_reconnect),
            None => c.redraw_on_reconnect,
        },
    }
}

impl Config {
    /// A true-or-false setting by name.
    pub fn bool_setting(&self, key: &str) -> (r: Option<&Setting<bool>>)
        ensures
            match r {
                None => bool_of(self@, key@) is None,
                Some(s) => bool_of(self@, key@) == Some(said(*s)),
            },
    {
        if same(key, "install_on_remote") {
            Some(&self.install_on_remote)
        } else if same(key, "update_check") {
            Some(&self.update_check)
        } else if same(key, "command_bell") {
            Some(&self.command_bell)
        } else if same(key, "redraw_on_reconnect") {
            Some(&self.redraw_on_reconnect)
        } else if same(key, "persist") {
            Some(&self.persist)
        } else if same(key, "prefer_local_network") {
            Some(&self.prefer_local_network)
        } else {
            None
        }
    }

    /// A duration setting by name.
    pub fn duration_setting(&self, key: &str) -> (r: Option<&Setting<u64>>)
        ensures
            match r {
                None => duration_of(self@, key@) is None,
                Some(s) => duration_of(self@, key@) == Some(said(*s)),
            },
    {
        if same(key, "reachability_timeout") {
            Some(&self.reachability_timeout)
        } else if same(key, "reachability_interval") {
            Some(&self.reachability_interval)
        } else {
            None
        }
    }

    /// Where the alias called `name` is.
    pub fn alias_index(&self, name: &str) -> (r: Option<usize>)
        ensures
            match r {
                None => alias_from(self@.hosts, name@, 0) is None,
                Some(i) => alias_from(self@.hosts, name@, 0) == Some(i as int) && i
                    < self@.hosts.len(),
            },
    {
        let mut i: usize = 0;
        while i < self.hosts.len()
            invariant
                i <= self.hosts.len(),
                alias_from(self@.hosts, name@, 0) == alias_from(self@.hosts, name@, i as int),
            decreases self.hosts.len() - i,
        {
            assert(self@.hosts[i as int] == self.hosts@[i as int]@);
            if same(&self.hosts[i].name, name) {
                return Some(i);
            }
            i = i + 1;
        }
        None
    }

    /// The alias called `name`, if there is one.
    pub fn alias(&self, name: &str) -> (r: Option<&Alias>)
        ensures
            opt_alias(r) == alias_of(self@, name@),
    {
        match self.alias_index(name) {
            None => None,
            Some(i) => {
                assert(self@.hosts[i as int] == self.hosts@[i as int]@);
                Some(&self.hosts[i])
            },
        }
    }

    /// `redraw_on_reconnect` for a session reached as `name` (`[user@]<alias>`,
    /// or `None` for a plain host): the alias's own setting, else the global one.
    pub fn redraw_on_reconnect_for(&self, name: Option<&str>) -> (r: &Setting<bool>)
        ensures
            said(*r) == redraw_of(self@, crate::session::given_view(name)),
    {
        if let Some(n) = name {
            let (_, alias) = crate::alias::split_user(n);
            if let Some(a) = self.alias(&alias) {
                if let Some(s) = &a.redraw_on_reconnect {
                    return s;
                }
            }
        }
        &self.redraw_on_reconnect
    }

    /// `reachability_timeout` for `alias`: its own setting, else the global one.
    pub fn reachability_timeout_for<'a>(&'a self, alias: &'a Alias) -> (r: &'a Setting<u64>)
        ensures
            said(*r) == or_else(alias@.reachability_timeout, self@.reachability_timeout),
    {
        match &alias.reachability_timeout {
            Some(s) => s,
            None => &self.reachability_timeout,
        }
    }

    /// `reachability_interval` for a host reached through `alias` (or none): the
    /// alias's own setting, else the global one.
    pub fn reachability_interval_for<'a>(&'a self, alias: Option<&'a Alias>) -> (r: &'a Setting<u64>)
        ensures
            said(*r) == match opt_alias(alias) {
                Some(a) => or_else(a.reachability_interval, self@.reachability_interval),
                None => self@.reachability_interval,
            },
    {
        if let Some(a) = alias {
            if let Some(s) = &a.reachability_interval {
                return s;
            }
        }
        &self.reachability_interval
    }

    /// `persist` for a host reached through `alias` as its `entry`: the entry's
    /// own setting, else the alias's, else the global one. Without an entry in
    /// use the alias decides.
    pub fn persist_for<'a>(
        &'a self,
        alias: Option<&'a Alias>,
        entry: Option<&'a HostEntry>,
    ) -> (r: &'a Setting<bool>)
        ensures
            said(*r) == persist_of(self@, opt_alias(alias), opt_host(entry)),
    {
        if let Some(e) = entry {
            if let Some(s) = &e.persist {
                return s;
            }
        }
        if let Some(a) = alias {
            if let Some(s) = &a.persist {
                return s;
            }
        }
        &self.persist
    }

    /// `prefer_local_network` for `alias`: its own setting, else the global one.
    pub fn prefer_local_network_for<'a>(&'a self, alias: &'a Alias) -> (r: &'a Setting<bool>)
        ensures
            said(*r) == or_else(alias@.prefer_local_network, self@.prefer_local_network),
    {
        match &alias.prefer_local_network {
            Some(s) => s,
            None => &self.prefer_local_network,
        }
    }
}

// ---- checks ----------------------------------------------------------------

/// An alias is used where a host name goes: no `@`, spaces or leading `-`.
pub open spec fn good_alias(s: Seq<char>) -> bool {
    &&& s.len() > 0
    &&& s[0] != '-'
    &&& forall|i: int|
        0 <= i < s.len() ==> (#[trigger] s[i]) != '@' && !is_white(s[i]) && !is_control(s[i])
}

pub open spec fn bad_alias_text(alias: Seq<char>) -> Seq<char> {
    "bad alias name '"@ + alias + "' (no '@', spaces or leading '-')"@
}

fn bad_alias(alias: &str) -> (s: String)
    ensures
        s@ == bad_alias_text(alias@),
{
    let mut s = "bad alias name '".to_owned();
    s.append(alias);
    s.append("' (no '@', spaces or leading '-')");
    s
}

/// Whether `alias` can name an alias.
pub fn validate_alias(alias: &str) -> (r: Result<(), String>)
    ensures
        match r {
            Ok(_) => good_alias(alias@),
            Err(e) => !good_alias(alias@) && e@ == bad_alias_text(alias@),
        },
{
    let v = chars_of(alias);
    if v.len() == 0 || v[0] == '-' {
        return Err(bad_alias(alias));
    }
    let mut i: usize = 0;
    while i < v.len()
        invariant
            i <= v.len(),
            v@ == alias@,
            forall|k: int|
                0 <= k < i ==> (#[trigger] alias@[k]) != '@' && !is_white(alias@[k]) && !is_control(
                    alias@[k],
                ),
        decreases v.len() - i,
    {
        if v[i] == '@' || white(v[i]) || is_control_char(v[i]) {
            assert(alias@[i as int] == v@[i as int]);
            return Err(bad_alias(alias));
        }
        i = i + 1;
    }
    Ok(())
}

pub open spec fn no_hosts_text(origin: Seq<char>, name: Seq<char>) -> Seq<char> {
    origin + ": aliases."@ + name + ": no hosts listed"@
}

fn no_hosts(origin: &str, name: &str) -> (s: String)
    ensures
        s@ == no_hosts_text(origin@, name@),
{
    let mut s = origin.to_owned();
    s.append(": aliases.");
    s.append(name);
    s.append(": no hosts listed");
    s
}

/// The first alias without a host, at or behind `from`.
pub open spec fn hostless(hosts: Seq<AliasView>, from: int) -> Option<int>
    decreases hosts.len() - from,
{
    if from < 0 || from >= hosts.len() {
        None
    } else if hosts[from].entries.len() == 0 {
        Some(from)
    } else {
        hostless(hosts, from + 1)
    }
}

/// What is wrong with the merged files, if anything.
pub open spec fn fault(c: ConfigView) -> Option<Seq<char>> {
    match hostless(c.hosts, 0) {
        None => None,
        Some(i) => Some(no_hosts_text(place(c.hosts[i].origin), c.hosts[i].name)),
    }
}

impl Config {
    /// What only the merged files can get wrong: one file may set an alias's
    /// identity_file over another's hosts, but together they must name a host.
    pub fn check(&self) -> (r: Result<(), String>)
        ensures
            match r {
                Ok(_) => fault(self@) is None,
                Err(e) => fault(self@) == Some(e@),
            },
    {
        let mut i: usize = 0;
        while i < self.hosts.len()
            invariant
                i <= self.hosts.len(),
                hostless(self@.hosts, 0) == hostless(self@.hosts, i as int),
            decreases self.hosts.len() - i,
        {
            assert(self@.hosts[i as int] == self.hosts@[i as int]@);
            if self.hosts[i].entries.len() == 0 {
                return Err(no_hosts(&self.hosts[i].origin.text(), &self.hosts[i].name));
            }
            i = i + 1;
        }
        Ok(())
    }
}

/// The path with `~` or a leading `~/` replaced by the home directory, where
/// there is one.
pub open spec fn home_expanded(path: Seq<char>, home: Option<Seq<char>>) -> Seq<char> {
    match home {
        Some(h) if h.len() > 0 && path.len() > 0 && path[0] == '~' && (path.len() == 1 || path[1]
            == '/') => h + path.skip(1),
        _ => path,
    }
}

/// `~` or `~/…` with `$HOME`, as the shell expands a `-i` typed on the command
/// line; anything else (`~user/…` too) as is, for ssh to expand.
pub fn expand_home(path: &str, home: Option<&str>) -> (s: String)
    ensures
        s@ == home_expanded(path@, crate::session::given_view(home)),
{
    let v = chars_of(path);
    if let Some(h) = home {
        if !h.is_empty() && v.len() > 0 && v[0] == '~' && (v.len() == 1 || v[1] == '/') {
            let rest = crate::text::sub_vec(&v, 1, v.len());
            assert(rest@ =~= path@.skip(1));
            let mut s = h.to_owned();
            s.append(&crate::text::string_of(&rest));
            return s;
        }
    }
    path.to_owned()
}

/// The global file.
pub open spec fn global_file(over: Option<Seq<char>>) -> Seq<char> {
    match over {
        Some(p) if p.len() > 0 => p,
        _ => "/etc/acs/config.yaml"@,
    }
}

/// The user's own file.
pub open spec fn local_file(xdg: Option<Seq<char>>, home: Option<Seq<char>>) -> Seq<char> {
    match xdg {
        Some(x) if x.len() > 0 && x[0] == '/' => joined(x, "acs/config.yaml"@),
        _ => joined(
            joined(
                match home {
                    Some(h) => h,
                    None => Seq::empty(),
                },
                ".config"@,
            ),
            "acs/config.yaml"@,
        ),
    }
}

/// The global file: `/etc/acs/config.yaml`, unless `over` (`ACS_GLOBAL_CONFIG`)
/// names another.
pub fn global_path(over: Option<&str>) -> (s: String)
    ensures
        s@ == global_file(crate::session::given_view(over)),
{
    if let Some(p) = over {
        if !p.is_empty() {
            return p.to_owned();
        }
    }
    "/etc/acs/config.yaml".to_owned()
}

/// The local file: `$XDG_CONFIG_HOME/acs/config.yaml`, or
/// `~/.config/acs/config.yaml` when that is unset or relative (as the XDG Base
/// Directory rules say).
pub fn local_path(xdg: Option<&str>, home: Option<&str>) -> (s: String)
    ensures
        s@ == local_file(crate::session::given_view(xdg), crate::session::given_view(home)),
{
    if let Some(x) = xdg {
        let v = chars_of(x);
        if v.len() > 0 && v[0] == '/' {
            return join(x, "acs/config.yaml");
        }
    }
    let base = match home {
        Some(h) => join(h, ".config"),
        None => {
            assert(""@ =~= Seq::<char>::empty()) by {
                reveal_strlit("");
            }
            join("", ".config")
        },
    };
    join(&base, "acs/config.yaml")
}

/// The user's own file stands under an absolute `$XDG_CONFIG_HOME`, whatever the home is;
/// one that is unset, empty or relative changes nothing.
pub proof fn law_where_the_files_are(
    xdg: Option<Seq<char>>,
    home: Option<Seq<char>>,
    other: Option<Seq<char>>,
)
    ensures
        xdg is None || xdg->0.len() == 0 || xdg->0[0] != '/' ==> local_file(xdg, home)
            == local_file(None, home),
        xdg is Some && xdg->0.len() > 0 && xdg->0[0] == '/' ==> local_file(xdg, home) == local_file(
            xdg,
            other,
        ) && local_file(xdg, home) == joined(xdg->0, "acs/config.yaml"@),
        home is Some ==> local_file(None, home) == joined(
            joined(home->0, ".config"@),
            "acs/config.yaml"@,
        ),
        global_file(None) == "/etc/acs/config.yaml"@,
        global_file(Some(Seq::empty())) == global_file(None),
        xdg is Some && xdg->0.len() > 0 ==> global_file(xdg) == xdg->0,
{
}

} // verus!
