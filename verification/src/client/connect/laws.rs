//! What holds of every connection that is made.

use crate::alias::{last_at, user_split};
use crate::cli::ArgsView;
use crate::client::connect::{
    alias_meant, asked_how, connected, connection_failed, entry_from, entry_meant, first_attempt, greeting, identified,
    interval_of, next_attempt, number_in, persists, pointed, switched, ActionView, AskingView,
    Attempt, DialEnd, EventView,
};
use crate::client::notes::TermView;
use crate::client::serve::{LinkEnd, Outcome};
use crate::client::state::StateView;
use crate::config::{alias_of, destination_of, redraw_of, HostView};
use crate::proto::{MarkerView, WinSize, PROTO_VERSION};
use crate::safe::{is_control, shown_char};
use crate::ssh::TransportView;
use crate::text::{dec, law_a_number_reads_back};
use vstd::prelude::*;

verus! {

/// A host that is ready is served from the byte behind its marker on, and the connection
/// is remembered as a channel on a master exactly where it is one; a host that speaks
/// another protocol is not served, the user is told, and the client ends with 1.
pub proof fn law_a_ready_host_is_served(
    a: ArgsView,
    s: StateView,
    master: Option<TransportView>,
    t: TermView,
    resuming: bool,
    ended: Option<LinkEnd>,
    proto: u16,
    rest: Seq<u8>,
    muxed: bool,
    env: Option<Seq<char>>,
    now: u64,
)
    ensures
        ({
            let event = EventView::Dialed(MarkerView::Ready { proto, rest }, muxed);
            let (m2, t2, todo) = connected(a, s, master, t, resuming, ended, event, env, now);
            let ours = EventView::Start(Some((muxed, rest)));
            &&& todo is Serve <==> proto == PROTO_VERSION
            &&& todo is Serve ==> todo->Serve_0 == rest && t2 == t && m2 == if muxed {
                Some(a.transport)
            } else {
                None
            }
            &&& todo is Serve ==> connected(a, s, master, t, resuming, ended, ours, env, now) == (
                m2,
                t2,
                todo,
            )
            &&& !(todo is Serve) ==> todo == ActionView::Over(Outcome::Exit(1)) && t2 != t
        }),
{
    if proto != PROTO_VERSION {
        let event = EventView::Dialed(MarkerView::Ready { proto, rest }, muxed);
        let t2 = connected(a, s, master, t, resuming, ended, event, env, now).1;
        if t.gate is Some && t.gate->0.mid_sequence {
            assert(t2.gate->0.held.len() == t.gate->0.held.len() + 1);
        } else {
            assert(t2.acts.len() == t.acts.len() + 1);
        }
    }
}

/// A host without acs has the build for its own system and machine installed, and then is
/// dialed again; where installing is switched off, or fails, the client ends with 254.
pub proof fn law_a_bare_host_is_installed(
    a: ArgsView,
    s: StateView,
    master: Option<TransportView>,
    t: TermView,
    resuming: bool,
    ended: Option<LinkEnd>,
    os: Seq<char>,
    arch: Seq<char>,
    muxed: bool,
    e: Seq<char>,
    env: Option<Seq<char>>,
    now: u64,
)
    ensures
        ({
            let need = EventView::Dialed(MarkerView::Need { os, arch }, muxed);
            let todo = connected(a, s, master, t, resuming, ended, need, env, now).2;
            let done = connected(a, s, master, t, resuming, ended, EventView::Installed, env, now).2;
            let failed = EventView::InstallFailed(e);
            &&& todo == if a.config.install_on_remote.value {
                ActionView::Install { os, arch }
            } else {
                ActionView::Over(Outcome::Exit(254))
            }
            &&& done is Dial
            &&& done == connected(
                a,
                s,
                master,
                t,
                resuming,
                ended,
                EventView::Start(None),
                env,
                now,
            ).2
            &&& connected(a, s, master, t, resuming, ended, failed, env, now).2
                == ActionView::Over(Outcome::Exit(254))
        }),
{
}

/// A host that cannot be reached at first is waited for where the user said so, and ends
/// the client with 255 where not.
pub proof fn law_a_first_dial_that_fails(
    a: ArgsView,
    s: StateView,
    master: Option<TransportView>,
    t: TermView,
    ended: Option<LinkEnd>,
    e: Seq<char>,
    env: Option<Seq<char>>,
    now: u64,
)
    ensures
        connected(a, s, master, t, false, ended, EventView::DialFailed(e), env, now).2
            == ActionView::Over(
            if persists(a, env) {
                Outcome::LinkLost(LinkEnd::Transport)
            } else {
                Outcome::Exit(255)
            },
        ),
{
}

/// Who decides whether a lost host is waited for: the command line, then the
/// environment, then the entry in use, then its alias, then the configuration as a
/// whole; the first that says anything is the one.
pub proof fn law_who_says_to_persist(a: ArgsView, env: Option<Seq<char>>)
    ensures
        a.persist ==> persists(a, env),
        !a.persist && env == Some("0"@) ==> !persists(a, env),
        !a.persist && env is Some && env->0.len() > 0 && env->0 != "0"@ ==> persists(a, env),
        !a.persist && (env is None || env->0.len() == 0) ==> {
            let alias = alias_meant(a);
            let entry = entry_meant(a);
            &&& entry is Some && entry->0.persist is Some ==> persists(a, env)
                == entry->0.persist->0.value
            &&& (entry is None || entry->0.persist is None) && alias is Some
                && alias->0.persist is Some ==> persists(a, env) == alias->0.persist->0.value
            &&& (entry is None || entry->0.persist is None) && (alias is None
                || alias->0.persist is None) ==> persists(a, env) == a.config.persist.value
        },
{
    reveal_strlit("0");
}

/// A switch of the environment is off for `0`, on for anything else, and says nothing
/// where it is unset or empty.
pub proof fn law_a_switch_overrides(env: Option<Seq<char>>, a: bool, b: bool)
    ensures
        env is None || env->0.len() == 0 ==> switched(env, a) == a,
        env is Some && env->0.len() > 0 ==> switched(env, a) == switched(env, b),
        switched(Some("0"@), a) == false,
        switched(Some("1"@), a) == true,
{
    reveal_strlit("0");
    reveal_strlit("1");
    assert("1"@[0] != "0"@[0]);
}

/// An alias's own settings come before those of the configuration as a whole, and those
/// of another alias do not matter.
pub proof fn law_an_alias_has_its_own_settings(a: ArgsView)
    ensures
        alias_meant(a) is None ==> interval_of(a) == a.config.reachability_interval.value,
        alias_meant(a) is Some && alias_meant(a)->0.reachability_interval is Some ==> interval_of(a)
            == alias_meant(a)->0.reachability_interval->0.value,
        alias_meant(a) is Some && alias_meant(a)->0.reachability_interval is None ==> interval_of(a)
            == a.config.reachability_interval.value,
        a.alias is Some ==> {
            let alias = alias_of(a.config, user_split(a.alias->0).1);
            redraw_of(a.config, a.alias).value == if alias is Some
                && alias->0.redraw_on_reconnect is Some {
                alias->0.redraw_on_reconnect->0.value
            } else {
                a.config.redraw_on_reconnect.value
            }
        },
{
}

// ---- where an alias points -------------------------------------------------

proof fn lemma_last_at(s: Seq<char>, i: int, end: int)
    requires
        0 <= i < end <= s.len(),
        s[i] == '@',
        forall|k: int| i < k < end ==> s[k] != '@',
    ensures
        last_at(s, end) == Some(i),
    decreases end - i,
{
    if end - 1 > i {
        lemma_last_at(s, i, end - 1);
    }
}

proof fn lemma_no_at(s: Seq<char>, end: int)
    requires
        0 <= end <= s.len(),
        forall|k: int| 0 <= k < end ==> s[k] != '@',
    ensures
        last_at(s, end) is None,
    decreases end,
{
    if end > 0 {
        lemma_no_at(s, end - 1);
    }
}

/// Where an entry points reads back as its login name and its host.
pub proof fn law_a_destination_reads_back(e: HostView)
    requires
        !e.host.contains('@'),
        e.user matches Some(u) ==> u.len() > 0,
    ensures
        user_split(destination_of(e)) == (e.user, e.host),
{
    reveal_strlit("@");
    let d = destination_of(e);
    match e.user {
        Some(u) => {
            assert forall|k: int| u.len() < k < d.len() implies d[k] != '@' by {
                assert(d[k] == e.host[k - u.len() - 1]);
                assert(e.host.contains(e.host[k - u.len() - 1]));
            }
            lemma_last_at(d, u.len() as int, d.len() as int);
            assert(d.take(u.len() as int) =~= u);
            assert(d.skip(u.len() as int + 1) =~= e.host);
        },
        None => {
            assert forall|k: int| 0 <= k < d.len() implies d[k] != '@' by {
                assert(e.host.contains(e.host[k]));
            }
            lemma_no_at(d, d.len() as int);
        },
    }
}

proof fn lemma_entry_from(entries: Seq<HostView>, e: HostView, from: int, i: int)
    requires
        0 <= from <= i < entries.len(),
        entries[i].origin == e.origin,
        entries[i].host == e.host,
    ensures
        entry_from(entries, e, from) matches Some(j) && from <= j <= i && entries[j].origin
            == e.origin && entries[j].host == e.host,
    decreases i - from,
{
    if !(entries[from].origin == e.origin && entries[from].host == e.host) {
        lemma_entry_from(entries, e, from + 1, i);
    }
}

/// Pointing the arguments at an entry of an alias: that entry's host is dialed, as that
/// entry's user and with that entry's key, its settings are the ones in use, and
/// everything else the user gave stays as it was.
pub proof fn law_an_alias_points_at_its_entry(
    a: ArgsView,
    name: Seq<char>,
    e: HostView,
    home: Option<Seq<char>>,
    i: int,
)
    requires
        alias_of(a.config, user_split(name).1) matches Some(alias) && 0 <= i < alias.entries.len()
            && alias.entries[i] == e && alias.entries.len() <= usize::MAX,
        !e.host.contains('@'),
        e.user matches Some(u) ==> u.len() > 0,
    ensures
        ({
            let p = pointed(a, name, e, home);
            &&& user_split(p.transport.destination) == (e.user, e.host)
            &&& p.transport.identity_file is Some <==> e.identity_file is Some
            &&& entry_meant(p) matches Some(x) && x.origin == e.origin && x.host == e.host
            &&& p == (ArgsView {
                alias: Some(name),
                entry: p.entry,
                transport: TransportView {
                    destination: p.transport.destination,
                    identity_file: p.transport.identity_file,
                    ..a.transport
                },
                ..a
            })
        }),
{
    law_a_destination_reads_back(e);
    let alias = alias_of(a.config, user_split(name).1)->0;
    lemma_entry_from(alias.entries, e, 0, i);
}

// ---- who greets ------------------------------------------------------------

/// How a client names itself is at most 128 characters that cannot steer a terminal, and
/// where the environment does not say, it is the user at this machine.
pub proof fn law_a_name_is_fit_to_show(
    env: Option<Seq<char>>,
    user: Option<Seq<char>>,
    host: Seq<char>,
)
    ensures
        identified(env, user, host).len() <= 128,
        forall|k: int|
            0 <= k < identified(env, user, host).len() ==> !is_control(
                #[trigger] identified(env, user, host)[k],
            ),
        env is None && user is Some && user->0.len() + host.len() < 128 ==> identified(
            env,
            user,
            host,
        ) == (user->0 + seq!['@'] + host).map_values(|c: char| shown_char(c)),
{
    reveal_strlit("@");
    let r = identified(env, user, host);
    if env is None && user is Some && user->0.len() + host.len() < 128 {
        assert(r =~= (user->0 + seq!['@'] + host).map_values(|c: char| shown_char(c)));
    }
}

/// A greeting says who greets, from what terminal and of what size, whether to take the
/// session over, and what to run.
pub proof fn law_a_greeting_says_who_and_what(
    a: ArgsView,
    s: StateView,
    force: bool,
    term: Seq<char>,
    colorterm: Seq<char>,
    size: WinSize,
)
    ensures
        ({
            let h = greeting(a, s, force, term, colorterm, size);
            &&& h.proto == PROTO_VERSION
            &&& h.identity == s.identity
            &&& h.force == force
            &&& h.term == term && h.colorterm == colorterm
            &&& h.size == size
            &&& h.command == a.command
            &&& s.session matches Some(n) ==> h.session == n
            &&& h.mode is Create <==> s.session is None && a.target is New
            &&& h.mode is Attach <==> s.session is Some && s.instance is Some
            &&& h.resume is Some <==> s.instance is Some
        }),
{
}

// ---- dialing ---------------------------------------------------------------

/// A dial never waits longer than its timeout, is made again at most once, and then on a
/// connection of its own with the whole timeout; one that had its own is not repeated.
pub proof fn law_a_dial_is_repeated_once(
    joins: bool,
    timeout: u64,
    fallback: u64,
    end: DialEnd,
    again: DialEnd,
)
    ensures
        ({
            let first = first_attempt(joins, timeout, fallback);
            let next = next_attempt(first, end, timeout);
            &&& first matches Attempt::Joining(ms) ==> ms <= timeout && ms <= fallback
            &&& first matches Attempt::Alone(ms) ==> ms == timeout
            &&& first is Joining <==> joins
            &&& next is Some <==> joins && !(end is Other)
            &&& next matches Some(a) ==> a == Attempt::Alone(timeout) && next_attempt(
                a,
                again,
                timeout,
            ) is None
        }),
{
}

/// A host that is waited for is asked the way it can answer: one that no alias stands for is
/// pinged, by its name without the login; an alias is resolved again, unless none of its
/// hosts may be pinged.
pub proof fn law_a_host_is_asked_the_way_it_answers(a: ArgsView, name: Seq<char>, i: int)
    ensures
        alias_of(a.config, user_split(name).1) is None ==> asked_how(a, name) == AskingView::Ping(
            user_split(a.transport.destination).1,
            a.config.reachability_timeout.value,
        ),
        alias_of(a.config, user_split(name).1) matches Some(alias) ==> (0 <= i < alias.entries.len()
            && alias.entries[i].reachability_check ==> asked_how(a, name) is Resolve),
        alias_of(a.config, user_split(name).1) matches Some(alias) ==> ((forall|k: int|
            0 <= k < alias.entries.len() ==> !(#[trigger] alias.entries[k]).reachability_check)
            ==> asked_how(a, name) is Never),
{
}

/// A number that the environment gives is the one in use; without one, or with something
/// that is no number, the default is.
pub proof fn law_a_number_is_read(n: u64, default: u64)
    ensures
        number_in(Some(dec(n as nat)), default) == n,
        number_in(None, default) == default,
        number_in(Some(Seq::empty()), default) == default,
{
    law_a_number_reads_back(n as nat, u64::MAX as nat);
}

/// A master is given up with its connection: only where a frame that could not be read ended
/// the link is the connection known to be up, and its master kept.
pub proof fn law_only_a_bad_frame_spares_the_master(ended: Option<LinkEnd>)
    ensures
        !connection_failed(ended) <==> ended == Some(LinkEnd::Channel),
{
}

} // verus!
