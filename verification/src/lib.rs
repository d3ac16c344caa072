//! The library behind `acs`: persistent, reconnecting remote shells over ssh with an
//! unfiltered terminal stream. One binary plays every role.

use proto::PROTO_VERSION;
use session::given_view;
use text::{dec, decimal, join, joined_by, same, texts};
use vstd::prelude::*;

pub mod alias;
pub mod cli;
pub mod client;
pub mod config;
pub mod config_cmd;
pub mod install;
pub mod keys;
pub mod list;
pub mod master;
pub mod menu;
pub mod modes;
pub mod mux;
pub mod netmatch;
pub mod netwatch;
pub mod path;
pub mod payload;
pub mod pick;
pub mod proto;
pub mod proxy;
pub mod prune;
pub mod reconnect;
pub mod release;
pub mod resume;
pub mod safe;
pub mod session;
pub mod sha256;
pub mod ssh;
pub mod text;
pub mod wire;
pub mod yaml;

verus! {

/// The version of this crate, baked into the remote prelude so a client always runs
/// its own version on the remote.
pub const VERSION: &'static str = "0.1.0";

/// Which part of acs this process is.
#[derive(Debug, Clone, Copy, PartialEq, Eq, Structural)]
pub enum Role {
    /// The local, user-facing client: `acs <host> [session]`.
    Client,
    /// Per-connection relay spawned by sshd on the remote.
    Proxy,
    /// Per-session daemon owning the pty on the remote.
    Master,
    /// Second step of a remote self-install.
    Install,
    /// Print the version and protocol version.
    Version,
    /// `acs config …`: read and edit the configuration files.
    Config,
    /// `acs upgrade`: replace this binary with a newer release.
    Upgrade,
    /// `acs list [host]`: the client, listing sessions.
    List,
    /// Background check for a newer release, started by the client.
    UpdateCheck,
}

/// The role that a first argument selects.
pub open spec fn role_of(arg: Option<Seq<char>>) -> Role {
    match arg {
        None => Role::Client,
        Some(a) => if a == "_proxy"@ {
            Role::Proxy
        } else if a == "_master"@ {
            Role::Master
        } else if a == "_install"@ {
            Role::Install
        } else if a == "_update-check"@ {
            Role::UpdateCheck
        } else if a == "_version"@ || a == "--version"@ || a == "-V"@ {
            Role::Version
        } else if a == "config"@ {
            Role::Config
        } else if a == "upgrade"@ {
            Role::Upgrade
        } else if a == "list"@ {
            Role::List
        } else {
            Role::Client
        },
    }
}

impl Role {
    /// Hidden roles are selected by an underscore-prefixed first argument, so they can
    /// never collide with a host name. `config`, `upgrade` and `list` are reserved
    /// words, only as the very first argument: a host of that name is still reachable
    /// as `user@config`, or with any option before it.
    pub fn from_first_arg(arg: Option<&str>) -> (r: Role)
        ensures
            r == role_of(given_view(arg)),
    {
        match arg {
            None => Role::Client,
            Some(a) => if same(a, "_proxy") {
                Role::Proxy
            } else if same(a, "_master") {
                Role::Master
            } else if same(a, "_install") {
                Role::Install
            } else if same(a, "_update-check") {
                Role::UpdateCheck
            } else if same(a, "_version") || same(a, "--version") || same(a, "-V") {
                Role::Version
            } else if same(a, "config") {
                Role::Config
            } else if same(a, "upgrade") {
                Role::Upgrade
            } else if same(a, "list") {
                Role::List
            } else {
                Role::Client
            },
        }
    }
}

pub open spec fn version_line_text(protocol: Seq<char>, target: Seq<char>) -> Seq<char> {
    "acs "@ + VERSION@ + " (protocol "@ + protocol + ", "@ + target + ")\n"@
}

fn version_line(protocol: &str, target: &str) -> (s: String)
    ensures
        s@ == version_line_text(protocol@, target@),
{
    let mut s = "acs ".to_owned();
    s.append(VERSION);
    s.append(" (protocol ");
    s.append(protocol);
    s.append(", ");
    s.append(target);
    s.append(")\n");
    s
}

pub open spec fn installs_line_text(targets: Seq<char>, slim: Seq<char>) -> Seq<char> {
    "installs remotes: "@ + targets + slim + "\n"@
}

fn installs_line(targets: &str, slim: &str) -> (s: String)
    ensures
        s@ == installs_line_text(targets@, slim@),
{
    let mut s = "installs remotes: ".to_owned();
    s.append(targets);
    s.append(slim);
    s.append("\n");
    s
}

/// The remote targets a binary can install: its own, and what it carries besides.
pub open spec fn installable(own: Seq<char>, carried: Seq<Seq<char>>, n: int) -> Seq<Seq<char>>
    decreases n,
{
    if n <= 0 {
        seq![own]
    } else {
        let less = installable(own, carried, n - 1);
        if less.contains(carried[n - 1]) {
            less
        } else {
            less.push(carried[n - 1])
        }
    }
}

fn holds_text(v: &Vec<String>, s: &str) -> (r: bool)
    ensures
        r == texts(v@).contains(s@),
{
    let mut i: usize = 0;
    while i < v.len()
        invariant
            i <= v.len(),
            forall|j: int| 0 <= j < i ==> #[trigger] texts(v@)[j] != s@,
        decreases v.len() - i,
    {
        assert(texts(v@)[i as int] == v@[i as int]@);
        if same(&v[i], s) {
            return true;
        }
        i = i + 1;
    }
    false
}

/// What `acs --version` prints: version, protocol, build target, and the remote
/// targets this binary can install. `carried` are the targets of the builds it
/// carries, `None` in a slim build.
pub fn version_text(own: &str, carried: Option<&[String]>) -> (s: String)
    ensures
        s@ == version_line_text(dec(PROTO_VERSION as nat), own@) + (match carried {
            Some(c) => installs_line_text(
                joined_by(installable(own@, texts(c@), c@.len() as int), ", "@),
                Seq::empty(),
            ),
            None => installs_line_text(joined_by(seq![own@], ", "@), " (slim build)"@),
        }),
{
    let mut targets: Vec<String> = Vec::new();
    targets.push(own.to_owned());
    assert(texts(targets@) =~= seq![own@]);
    let mut slim = " (slim build)";
    if let Some(c) = carried {
        proof {
            reveal_strlit("");
            assert(""@ =~= Seq::empty());
        }
        slim = "";
        for i in 0..c.len()
            invariant
                texts(targets@) == installable(own@, texts(c@), i as int),
        {
            assert(texts(c@)[i as int] == c@[i as int]@);
            if !holds_text(&targets, &c[i]) {
                let ghost had = targets@;
                targets.push(c[i].clone());
                assert(texts(targets@) =~= texts(had).push(c@[i as int]@));
            }
        }
    }
    let mut s = version_line(&decimal(PROTO_VERSION as u64), own);
    s.append(&installs_line(&join(&targets, ", "), slim));
    s
}

/// A name that starts with neither an underscore nor a dash, and is none of the three
/// reserved words, is a host for the client.
pub proof fn law_a_host_name_is_the_clients(name: Seq<char>)
    requires
        name.len() > 0,
        name[0] != '_',
        name[0] != '-',
        name != "config"@,
        name != "upgrade"@,
        name != "list"@,
    ensures
        role_of(Some(name)) == Role::Client,
{
    reveal_strlit("_proxy");
    reveal_strlit("_master");
    reveal_strlit("_install");
    reveal_strlit("_update-check");
    reveal_strlit("_version");
    reveal_strlit("--version");
    reveal_strlit("-V");
}

/// What a build can install: its own target first, then everything it carries, each once.
pub proof fn law_every_target_is_listed_once(own: Seq<char>, carried: Seq<Seq<char>>, n: int)
    requires
        0 <= n <= carried.len(),
    ensures
        ({
            let v = installable(own, carried, n);
            &&& v.len() > 0 && v[0] == own
            &&& v.no_duplicates()
            &&& forall|i: int| 0 <= i < n ==> v.contains(#[trigger] carried[i])
            &&& forall|k: int|
                0 < k < v.len() ==> exists|i: int| 0 <= i < n && carried[i] == #[trigger] v[k]
        }),
    decreases n,
{
    if n > 0 {
        law_every_target_is_listed_once(own, carried, n - 1);
        let less = installable(own, carried, n - 1);
        let v = installable(own, carried, n);
        assert forall|i: int| 0 <= i < n implies v.contains(#[trigger] carried[i]) by {
            if i < n - 1 {
                assert(less.contains(carried[i]));
                let k = choose|k: int| 0 <= k < less.len() && less[k] == carried[i];
                assert(v[k] == carried[i]);
            } else if !less.contains(carried[i]) {
                assert(v.last() == carried[i]);
                assert(v[v.len() - 1] == carried[i]);
            }
        }
        assert forall|k: int| 0 < k < v.len() implies exists|i: int|
            0 <= i < n && carried[i] == #[trigger] v[k] by {
            if k < less.len() {
                assert(v[k] == less[k]);
                let i = choose|i: int| 0 <= i < n - 1 && carried[i] == less[k];
                assert(carried[i] == v[k]);
            } else {
                assert(carried[n - 1] == v[k]);
            }
        }
        assert forall|x: int, y: int| 0 <= x < v.len() && 0 <= y < v.len() && x != y implies v[x]
            != v[y] by {
            if x < less.len() && y < less.len() {
                assert(v[x] == less[x] && v[y] == less[y]);
            } else if x < less.len() {
                assert(less.contains(less[x]));
            } else {
                assert(less.contains(less[y]));
            }
        }
    }
}

} // verus!
