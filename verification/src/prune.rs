//! Housekeeping of installed remote versions: each proxy marks its own version
//! directory as used; version directories untouched for 30 days, with no live session
//! still running them, are removed, at most once a day, at a proxy start.

use crate::path::{file_name, file_name_of, join, joined, parent, parent_of, parts, same_path};
use crate::session::given_view;
use crate::text::{
    chars_of, dec, law_a_number_reads_back, parse_uint, parsed_max, same, same_chars, string_of,
    texts,
};
use vstd::prelude::*;

verus! {

/// How long an unused version is kept, in seconds.
pub const KEPT_SECS: u64 = 2_592_000;

/// The least time between two rounds, in seconds.
pub const EVERY_SECS: u64 = 86_400;

/// A number of seconds from the environment, or its default.
pub open spec fn secs_in(env: Option<Seq<char>>, default: u64) -> u64 {
    match env {
        Some(v) => match parsed_max(v, u64::MAX as nat) {
            Some(n) => n as u64,
            None => default,
        },
        None => default,
    }
}

fn secs(env: Option<&str>, default: u64) -> (n: u64)
    ensures
        n == secs_in(given_view(env), default),
{
    match env {
        Some(v) => match parse_uint(&chars_of(v), u64::MAX) {
            Some(n) => n,
            None => default,
        },
        None => default,
    }
}

/// How long an unused version is kept, in seconds; `env` is `ACS_PRUNE_AFTER_SECS`.
pub fn max_age(env: Option<&str>) -> (n: u64)
    ensures
        n == secs_in(given_view(env), KEPT_SECS),
{
    secs(env, KEPT_SECS)
}

/// The least time between two rounds, in seconds; `env` is `ACS_PRUNE_EVERY_SECS`.
pub fn every(env: Option<&str>) -> (n: u64)
    ensures
        n == secs_in(given_view(env), EVERY_SECS),
{
    secs(env, EVERY_SECS)
}

// ---- whose directory it is -------------------------------------------------

/// The versions directory that `exe` runs from as this version, if it runs from one.
pub open spec fn versions_dir(exe: Seq<char>, version: Seq<char>) -> Option<Seq<char>> {
    match parent_of(exe) {
        None => None,
        Some(dir) => if file_name_of(dir) == Some(version) {
            parent_of(dir)
        } else {
            None
        },
    }
}

/// The versions directory that the program at `exe` runs from as `version`, if it runs
/// from one.
pub fn versions_root(exe: &str, version: &str) -> (r: Option<String>)
    ensures
        match r {
            None => versions_dir(exe@, version@) is None,
            Some(root) => versions_dir(exe@, version@) == Some(root@),
        },
{
    match parent(&chars_of(exe)) {
        None => None,
        Some(dir) => match file_name(&dir) {
            None => None,
            Some(name) => if same_chars(&name, &chars_of(version)) {
                match parent(&dir) {
                    None => None,
                    Some(root) => Some(string_of(&root)),
                }
            } else {
                None
            },
        },
    }
}

/// The user's own versions directory.
pub open spec fn own_dir(home: Seq<char>) -> Seq<char> {
    joined(home, ".local/share/acs"@)
}

/// The user's own versions directory.
pub fn own_root(home: &str) -> (s: String)
    ensures
        s@ == own_dir(home@),
{
    join(home, ".local/share/acs")
}

/// A directory of the versions is the user's own: written alike, or the same place once
/// the links in both are followed, where both can be.
pub open spec fn is_own(
    root: Seq<char>,
    home: Seq<char>,
    followed: Option<Seq<char>>,
    own_followed: Option<Seq<char>>,
) -> bool {
    parts(root) == parts(own_dir(home)) || match (followed, own_followed) {
        (Some(a), Some(b)) => parts(a) == parts(b),
        _ => false,
    }
}

/// The versions directory `exe` runs from, only if it is the user's own
/// `home/.local/share/acs`: a system-wide install (`/usr/local/lib/acs`) holds other
/// users' versions and is never touched. `followed` is where [`versions_root`] leads
/// and `own_followed` where [`own_root`] does, each as far as it can be followed.
pub fn root_for(
    exe: &str,
    version: &str,
    home: &str,
    followed: Option<&str>,
    own_followed: Option<&str>,
) -> (r: Option<String>)
    ensures
        match (r, versions_dir(exe@, version@)) {
            (Some(root), Some(dir)) => root@ == dir && is_own(
                dir,
                home@,
                given_view(followed),
                given_view(own_followed),
            ),
            (None, Some(dir)) => !is_own(
                dir,
                home@,
                given_view(followed),
                given_view(own_followed),
            ),
            (None, None) => true,
            _ => false,
        },
{
    match versions_root(exe, version) {
        None => None,
        Some(root) => {
            let linked = match (followed, own_followed) {
                (Some(a), Some(b)) => same_path(a, b),
                _ => false,
            };
            if same_path(&root, &own_root(home)) || linked {
                Some(root)
            } else {
                None
            }
        },
    }
}

// ---- what goes -------------------------------------------------------------

/// Something in the versions directory: its name, whether it is a directory, and how
/// long it has been untouched, in nanoseconds, where that can be told.
#[derive(Debug, Clone, PartialEq, Eq)]
pub struct Version {
    pub name: String,
    pub is_dir: bool,
    pub age: Option<u128>,
}

/// Nanoseconds in a second.
pub const NANOS: u128 = 1_000_000_000;

/// A version directory that nobody uses any more.
pub open spec fn is_stale(v: Version, keep: Seq<char>, live: Seq<Seq<char>>, max_age: u64) -> bool {
    &&& v.name@ != keep
    &&& !(v.name@.len() > 0 && v.name@[0] == '.')
    &&& !live.contains(v.name@)
    &&& v.is_dir
    &&& v.age matches Some(a) && a > max_age * NANOS
}

fn is_live(name: &str, live: &[String]) -> (r: bool)
    ensures
        r == texts(live@).contains(name@),
{
    let mut i: usize = 0;
    while i < live.len()
        invariant
            i <= live.len(),
            forall|j: int| 0 <= j < i ==> #[trigger] texts(live@)[j] != name@,
        decreases live.len() - i,
    {
        assert(texts(live@)[i as int] == live@[i as int]@);
        if same(&live[i], name) {
            return true;
        }
        i = i + 1;
    }
    false
}

/// Whether a version directory is to go: it is not the one to keep, no live session
/// runs it, and it has been untouched for longer than `max_age` seconds.
pub fn stale(v: &Version, keep: &str, live: &[String], max_age: u64) -> (r: bool)
    ensures
        r == is_stale(*v, keep@, texts(live@), max_age),
{
    let hidden = !v.name.as_str().is_empty() && v.name.as_str().get_char(0) == '.';
    let old = match v.age {
        Some(a) => a > max_age as u128 * NANOS,
        None => false,
    };
    !same(&v.name, keep) && !hidden && !is_live(&v.name, live) && v.is_dir && old
}

/// The version directories below `n` that are to go.
pub open spec fn stale_below(
    found: Seq<Version>,
    keep: Seq<char>,
    live: Seq<Seq<char>>,
    max_age: u64,
    n: int,
) -> Seq<Seq<char>>
    decreases n,
{
    if n <= 0 {
        Seq::empty()
    } else {
        let less = stale_below(found, keep, live, max_age, n - 1);
        if is_stale(found[n - 1], keep, live, max_age) {
            less.push(found[n - 1].name@)
        } else {
            less
        }
    }
}

/// The version directories, other than `keep`, that are older than `max_age` seconds
/// and that no live session runs.
pub fn prune(found: &[Version], keep: &str, live: &[String], max_age: u64) -> (r: Vec<String>)
    ensures
        texts(r@) == stale_below(found@, keep@, texts(live@), max_age, found@.len() as int),
{
    let mut r: Vec<String> = Vec::new();
    assert(texts(r@) =~= Seq::empty());
    for i in 0..found.len()
        invariant
            texts(r@) == stale_below(found@, keep@, texts(live@), max_age, i as int),
    {
        if stale(&found[i], keep, live, max_age) {
            let ghost had = r@;
            r.push(found[i].name.clone());
            assert(texts(r@) =~= texts(had).push(found@[i as int].name@));
        }
    }
    r
}

/// A round is due.
pub open spec fn is_due(age: Option<u128>, every: u64) -> bool {
    match age {
        Some(a) => a >= every * NANOS,
        None => true,
    }
}

/// Whether a round is due: the last one is `age` nanoseconds ago, where there was one,
/// and `every` seconds are to be between two.
pub fn on_proxy_start(age: Option<u128>, every: u64) -> (due: bool)
    ensures
        due == is_due(age, every),
{
    match age {
        Some(a) => a >= every as u128 * NANOS,
        None => true,
    }
}

/// What is kept: the running version, whatever a live session runs, and everything
/// that was used lately is never among what goes.
pub proof fn law_what_is_used_stays(
    found: Seq<Version>,
    keep: Seq<char>,
    live: Seq<Seq<char>>,
    max_age: u64,
    n: int,
    name: Seq<char>,
)
    requires
        0 <= n <= found.len(),
        stale_below(found, keep, live, max_age, n).contains(name),
    ensures
        name != keep,
        !live.contains(name),
        exists|i: int|
            0 <= i < n && (#[trigger] found[i]).name@ == name && found[i].age is Some
                && found[i].age->0 > max_age * NANOS,
    decreases n,
{
    if n > 0 {
        let all = stale_below(found, keep, live, max_age, n);
        let less = stale_below(found, keep, live, max_age, n - 1);
        let k = choose|k: int| 0 <= k < all.len() && all[k] == name;
        if k < less.len() {
            assert(less[k] == name);
            law_what_is_used_stays(found, keep, live, max_age, n - 1, name);
        } else {
            assert(found[n - 1].name@ == name);
        }
    }
}

/// What goes: every version directory that is not this one, not hidden, run by no live
/// session, and unused for longer than the age allowed.
pub proof fn law_what_is_left_behind_goes(
    found: Seq<Version>,
    keep: Seq<char>,
    live: Seq<Seq<char>>,
    max_age: u64,
    n: int,
    i: int,
)
    requires
        0 <= i < n <= found.len(),
        found[i].is_dir,
        found[i].name@ != keep,
        found[i].name@.len() > 0,
        found[i].name@[0] != '.',
        !live.contains(found[i].name@),
        found[i].age is Some,
        found[i].age->0 > max_age * NANOS,
    ensures
        stale_below(found, keep, live, max_age, n).contains(found[i].name@),
    decreases n,
{
    let all = stale_below(found, keep, live, max_age, n);
    if i == n - 1 {
        assert(all.last() == found[i].name@);
        assert(all.contains(all.last()));
    } else {
        law_what_is_left_behind_goes(found, keep, live, max_age, n - 1, i);
        let less = stale_below(found, keep, live, max_age, n - 1);
        let k = choose|k: int| 0 <= k < less.len() && less[k] == found[i].name@;
        assert(all[k] == found[i].name@);
    }
}

/// A time that the environment gives is the one in use; without one, or with something
/// that is no number, the default is.
pub proof fn law_a_time_is_read(n: u64, default: u64)
    ensures
        secs_in(Some(dec(n as nat)), default) == n,
        secs_in(None, default) == default,
        secs_in(Some(Seq::empty()), default) == default,
{
    law_a_number_reads_back(n as nat, u64::MAX as nat);
}

/// Rounds are at least the time between two apart, and the first is due at once.
pub proof fn law_rounds_are_apart(secs: u64, every: u64)
    ensures
        is_due(None, every),
        is_due(Some((secs * 1_000_000_000) as u128), every) <==> secs >= every,
{
}

/// Only the user's own versions are ever looked through: where nothing can be followed, the
/// directory has to be the one below the user's home; where both can, the two have to lead
/// to one place.
pub proof fn law_only_our_own_versions_are_pruned(
    root: Seq<char>,
    home: Seq<char>,
    a: Seq<char>,
    b: Seq<char>,
)
    ensures
        is_own(root, home, None, None) <==> parts(root) == parts(joined(home, ".local/share/acs"@)),
        is_own(root, home, Some(a), None) == is_own(root, home, None, None),
        is_own(root, home, None, Some(b)) == is_own(root, home, None, None),
        parts(root) != parts(joined(home, ".local/share/acs"@)) ==> (is_own(
            root,
            home,
            Some(a),
            Some(b),
        ) <==> parts(a) == parts(b)),
        is_own(joined(home, ".local/share/acs"@), home, Some(a), Some(b)),
{
}

} // verus!
