//! What a plain `acs [user@]<host>` attaches to: the host's sessions are listed first;
//! with none detached a session is created, otherwise the user picks one from the
//! menu, ends some, or leaves. All of it happens on the session's own connection,
//! which the attach then goes on over. `acs list <host>` in a terminal shows the same
//! menu whatever is detached.
//!
//! `acs list` in a terminal shows the menu over every host alias at once: each host
//! asked in parallel, its rows in as it answers, and the one picked attached as
//! `acs <alias> <session>` would.

pub mod laws;

use crate::cli::{Target, TargetView};
use crate::list::{infos, not_installed, not_installed_text, Failure};
use crate::menu::{with_answer, Answer, AnswerView, Choice, ChoiceView, Menu};
use crate::proto::{
    next_frame, Decoder, Marker, MarkerView, Msg, MsgView, Next, ProtoError,
    StatusInfo, StatusView, PROTO_VERSION,
};
use crate::text::{dec, decimal, same};
use crate::yaml::opt_text;
use vstd::prelude::*;

verus! {

pub open spec fn host_line_text(name: Seq<char>, e: Seq<char>) -> Seq<char> {
    name + ": "@ + e
}

fn host_line(name: &str, e: &str) -> (s: String)
    ensures
        s@ == host_line_text(name@, e@),
{
    let mut s = name.to_owned();
    s.append(": ");
    s.append(e);
    s
}

pub open spec fn session_ended_text(name: Seq<char>) -> Seq<char> {
    "session '"@ + name + "' ended"@
}

fn session_ended(name: &str) -> (s: String)
    ensures
        s@ == session_ended_text(name@),
{
    let mut s = "session '".to_owned();
    s.append(name);
    s.append("' ended");
    s
}

pub open spec fn session_still_there_text(name: Seq<char>) -> Seq<char> {
    "session '"@ + name + "' is still there"@
}

fn session_still_there(name: &str) -> (s: String)
    ensures
        s@ == session_still_there_text(name@),
{
    let mut s = "session '".to_owned();
    s.append(name);
    s.append("' is still there");
    s
}

pub open spec fn ending_session_text(name: Seq<char>) -> Seq<char> {
    "ending session '"@ + name + "'…"@
}

/// What is said while a session is being ended.
pub fn ending_session(name: &str) -> (s: String)
    ensures
        s@ == ending_session_text(name@),
{
    let mut s = "ending session '".to_owned();
    s.append(name);
    s.append("'…");
    s
}

pub open spec fn ending_session_on_text(name: Seq<char>, alias: Seq<char>) -> Seq<char> {
    "ending session '"@ + name + "' on "@ + alias + "…"@
}

/// What is said while a session on one of several hosts is being ended.
pub fn ending_session_on(name: &str, alias: &str) -> (s: String)
    ensures
        s@ == ending_session_on_text(name@, alias@),
{
    let mut s = "ending session '".to_owned();
    s.append(name);
    s.append("' on ");
    s.append(alias);
    s.append("…");
    s
}

pub open spec fn connection_lost_text(host: Seq<char>) -> Seq<char> {
    "the connection to "@ + host + " was lost"@
}

/// What is said of a host that can no longer be asked.
pub fn connection_lost(host: &str) -> (s: String)
    ensures
        s@ == connection_lost_text(host@),
{
    let mut s = "the connection to ".to_owned();
    s.append(host);
    s.append(" was lost");
    s
}

pub open spec fn no_answer_within_text(secs: Seq<char>) -> Seq<char> {
    "no answer within "@ + secs + " s"@
}

/// What is said of a host that does not list its sessions in time.
pub fn no_answer_within(secs: &str) -> (s: String)
    ensures
        s@ == no_answer_within_text(secs@),
{
    let mut s = "no answer within ".to_owned();
    s.append(secs);
    s.append(" s");
    s
}

/// A session has this name.
pub open spec fn has_name(sessions: Seq<StatusView>, name: Seq<char>) -> bool {
    exists|i: int| 0 <= i < sessions.len() && (#[trigger] sessions[i]).name == name
}

fn is_named(sessions: &[StatusInfo], name: &str) -> (r: bool)
    ensures
        r == has_name(infos(sessions@), name@),
{
    let mut i: usize = 0;
    while i < sessions.len()
        invariant
            i <= sessions.len(),
            forall|j: int| 0 <= j < i ==> (#[trigger] infos(sessions@)[j]).name != name@,
        decreases sessions.len() - i,
    {
        assert(infos(sessions@)[i as int] == sessions@[i as int]@);
        if same(&sessions[i].name, name) {
            return true;
        }
        i = i + 1;
    }
    false
}

/// A new session: named `default` if no session has that name, otherwise the lowest
/// free number.
pub open spec fn new_target(sessions: Seq<StatusView>, default: Seq<char>) -> TargetView {
    if has_name(sessions, default) {
        TargetView::New
    } else {
        TargetView::Named(default)
    }
}

/// A new session: named `default` if no session has that name, otherwise the lowest
/// free number (as `--new`).
pub fn new_session(sessions: &[StatusInfo], default: &str) -> (t: Target)
    ensures
        t@ == new_target(infos(sessions@), default@),
{
    if is_named(sessions, default) {
        Target::New
    } else {
        Target::Named(default.to_owned())
    }
}

/// A session is attached to by nobody.
pub open spec fn any_detached(sessions: Seq<StatusView>) -> bool {
    exists|i: int| 0 <= i < sessions.len() && !(#[trigger] sessions[i]).attached
}

fn has_detached(sessions: &[StatusInfo]) -> (r: bool)
    ensures
        r == any_detached(infos(sessions@)),
{
    let mut i: usize = 0;
    while i < sessions.len()
        invariant
            i <= sessions.len(),
            forall|j: int| 0 <= j < i ==> (#[trigger] infos(sessions@)[j]).attached,
        decreases sessions.len() - i,
    {
        assert(infos(sessions@)[i as int] == sessions@[i as int]@);
        if !sessions[i].attached {
            return true;
        }
        i = i + 1;
    }
    false
}

/// How a session that was not named is settled.
#[derive(Debug)]
pub enum Settled {
    /// To this one, without asking.
    Use(Target),
    /// The user picks.
    Menu,
}

/// Settle without a terminal for a menu: the default session, as ever.
pub fn without_menu(default: &str) -> (t: Target)
    ensures
        t@ == TargetView::Named(default@),
{
    Target::Named(default.to_owned())
}

/// The session that is used without asking, if the user is not to pick.
pub open spec fn settled_on(
    listed: Option<Seq<StatusView>>,
    default: Seq<char>,
    always: bool,
) -> Option<TargetView> {
    match listed {
        None => Some(new_target(Seq::empty(), default)),
        Some(s) => if !always && !any_detached(s) {
            Some(new_target(s, default))
        } else {
            None
        },
    }
}

/// Settle with what the host answered: `None` where acs is not installed there yet
/// (the attach installs it, and there is nothing to pick), else its sessions. With
/// none detached a session is created, unless `always` shows the menu anyway
/// (`acs list <host>`).
pub fn settle(listed: Option<&[StatusInfo]>, default: &str, always: bool) -> (r: Settled)
    ensures
        match settled_on(
            match listed {
                None => None,
                Some(s) => Some(infos(s@)),
            },
            default@,
            always,
        ) {
            Some(v) => r matches Settled::Use(t) && t@ == v,
            None => r is Menu,
        },
{
    match listed {
        None => {
            let none: &[StatusInfo] = &[];
            assert(infos(none@) =~= Seq::empty());
            Settled::Use(new_session(none, default))
        },
        Some(s) => if !always && !has_detached(s) {
            Settled::Use(new_session(s, default))
        } else {
            Settled::Menu
        },
    }
}

/// What the user's choice in the menu of one host comes to: the session, and whether
/// it is taken over; or the exit status.
pub open spec fn choice_settled(
    c: ChoiceView,
    sessions: Seq<StatusView>,
    default: Seq<char>,
    force: bool,
) -> Result<(TargetView, bool), u8> {
    match c {
        ChoiceView::Attach { name, force: f, .. } => Ok((TargetView::Named(name), force || f)),
        ChoiceView::New { .. } => Ok((new_target(sessions, default), force)),
        ChoiceView::Leave(code) => Err(code),
        // Ended in the menu, which goes on.
        ChoiceView::Kill { .. } => arbitrary(),
    }
}

/// What the user's choice in the menu of one host comes to. Ending a session goes on
/// in the menu, and is no way out of it.
pub fn picked(choice: Choice, sessions: &[StatusInfo], default: &str, force: bool) -> (r: Result<
    (Target, bool),
    u8,
>)
    requires
        !(choice@ is Kill),
    ensures
        match (r, choice_settled(choice@, infos(sessions@), default@, force)) {
            (Ok(t), Ok(v)) => t.0@ == v.0 && t.1 == v.1,
            (Err(c), Err(d)) => c == d,
            _ => false,
        },
{
    match choice {
        Choice::Attach { name, force: f, .. } => Ok((Target::Named(name), force || f)),
        Choice::New { .. } => Ok((new_session(sessions, default), force)),
        Choice::Leave(c) => Err(c),
        Choice::Kill { .. } => Err(0),
    }
}

/// What the user's choice in the menu of every host comes to: the host, the session,
/// and whether it is taken over; or the exit status.
pub open spec fn host_settled(c: ChoiceView, force: bool) -> Result<(usize, TargetView, bool), u8> {
    match c {
        ChoiceView::Attach { host, name, force: f } => Ok(
            (host, TargetView::Named(name), force || f),
        ),
        ChoiceView::New { host } => Ok((host, TargetView::New, force)),
        ChoiceView::Leave(code) => Err(code),
        // Ended in the menu, which goes on.
        ChoiceView::Kill { .. } => arbitrary(),
    }
}

/// What the user's choice in the menu of every host comes to: the host, the session,
/// and whether it is taken over; or the exit status.
pub fn every_host(choice: Choice, force: bool) -> (r: Result<(usize, Target, bool), u8>)
    requires
        !(choice@ is Kill),
    ensures
        match (r, host_settled(choice@, force)) {
            (Ok(t), Ok(v)) => t.0 == v.0 && t.1@ == v.1 && t.2 == v.2,
            (Err(c), Err(d)) => c == d,
            _ => false,
        },
{
    match choice {
        Choice::Attach { host, name, force: f } => Ok((host, Target::Named(name), force || f)),
        Choice::New { host } => Ok((host, Target::New, force)),
        Choice::Leave(c) => Err(c),
        Choice::Kill { .. } => Err(0),
    }
}

/// A host's listing as the menu shows it: `None` where acs is not installed there.
pub fn to_answer(name: &str, listed: Result<Option<Vec<StatusInfo>>, Failure>) -> (a: Answer)
    ensures
        a@ == match listed {
            Ok(Some(s)) => AnswerView::Sessions(infos(s@)),
            Ok(None) => AnswerView::Line(not_installed_text(name@)),
            Err(Failure::Unreachable(e)) => AnswerView::Line(host_line_text(name@, e@)),
            Err(f) => AnswerView::Line(f.words(name@)),
        },
{
    match listed {
        Ok(Some(s)) => Answer::Sessions(s),
        Ok(None) => Answer::Line(not_installed(name)),
        Err(Failure::Unreachable(e)) => Answer::Line(host_line(name, &e)),
        Err(f) => Answer::Line(f.message(name)),
    }
}

/// One list from the proxy: every session's STATUS, and the message of an ERROR sent
/// along (a session that would not end).
#[derive(Debug)]
pub struct Listing {
    pub sessions: Vec<StatusInfo>,
    pub error: Option<String>,
}

/// Why a listing stops where it does.
pub enum Stop {
    /// Nothing whole has arrived behind it.
    More,
    /// Bytes that are no frame.
    Bad(ProtoError),
    /// A message that belongs in no listing.
    Stray(MsgView),
}

/// What a listing holds once everything in `s` that belongs to it is taken: the STATUS
/// replies in their order and the message of the last ERROR. What is left unread, and
/// why it stops there.
pub open spec fn listing_taken(
    s: Seq<u8>,
    sessions: Seq<StatusView>,
    error: Option<Seq<char>>,
) -> (Seq<u8>, Seq<StatusView>, Option<Seq<char>>, Stop)
    decreases s.len(),
{
    match next_frame(s) {
        Next::More => (s, sessions, error, Stop::More),
        Next::Bad(e) => (s, sessions, error, Stop::Bad(e)),
        Next::Got(m, n) => if 0 < n <= s.len() {
            match m {
                MsgView::StatusReply(i) => listing_taken(s.skip(n), sessions.push(i), error),
                MsgView::Error { message, .. } => listing_taken(s.skip(n), sessions, Some(message)),
                _ => (s.skip(n), sessions, error, Stop::Stray(m)),
            }
        } else {
            (s, sessions, error, Stop::More)
        },
    }
}

/// Takes what has arrived of a listing off `dec` into `l`. A message that belongs in no
/// listing is given back: the listing is over, see [`unexpected`]. So it is with bytes
/// that are no frame.
pub fn take_listing(dec: &mut Decoder, l: &mut Listing) -> (r: Result<Option<Msg>, Failure>)
    requires
        old(dec).wf(),
    ensures
        final(dec).wf(),
        ({
            let (rest, sessions, error, stop) = listing_taken(
                old(dec)@,
                infos(old(l).sessions@),
                opt_text(old(l).error),
            );
            &&& final(dec)@ == rest
            &&& infos(final(l).sessions@) == sessions
            &&& opt_text(final(l).error) == error
            &&& match stop {
                Stop::More => r matches Ok(None),
                Stop::Bad(e) => r matches Err(Failure::BadReply(t)) && t@ == e.words(),
                Stop::Stray(m) => r matches Ok(Some(x)) && x@ == m,
            }
        }),
{
    let ghost all = listing_taken(dec@, infos(l.sessions@), opt_text(l.error));
    loop
        invariant
            dec.wf(),
            listing_taken(dec@, infos(l.sessions@), opt_text(l.error)) == all,
            all == listing_taken(old(dec)@, infos(old(l).sessions@), opt_text(old(l).error)),
        decreases dec@.len(),
    {
        let ghost had = infos(l.sessions@);
        match dec.next_msg() {
            Err(e) => return Err(Failure::BadReply(e.text())),
            Ok(None) => return Ok(None),
            Ok(Some(m)) => match m {
                Msg::StatusReply(i) => {
                    l.sessions.push(i);
                    assert(infos(l.sessions@) =~= had.push(i@));
                },
                Msg::Error { message, .. } => {
                    l.error = Some(message);
                },
                other => return Ok(Some(other)),
            },
        }
    }
}

pub open spec fn unexpected_text(shown: Seq<char>) -> Seq<char> {
    "unexpected "@ + shown
}

/// The failure of a listing that a stray message ended; `shown` is that message.
pub fn unexpected(shown: &str) -> (f: Failure)
    ensures
        f matches Failure::BadReply(t) && t@ == unexpected_text(shown@),
{
    let mut s = "unexpected ".to_owned();
    s.append(shown);
    Failure::BadReply(s)
}

/// What is said after a session was ended.
pub open spec fn ended_said(
    name: Seq<char>,
    left: Seq<StatusView>,
    error: Option<Seq<char>>,
) -> Seq<char> {
    match error {
        Some(e) => e,
        None => if has_name(left, name) {
            session_still_there_text(name)
        } else {
            session_ended_text(name)
        },
    }
}

/// Show host `h`'s sessions left after ending `name`; what to say about it.
pub fn ended(menu: &mut Menu, h: usize, name: &str, a: Listing) -> (s: String)
    requires
        old(menu).wf(),
        h < old(menu).hosts.len(),
    ensures
        final(menu).wf(),
        final(menu)@ == with_answer(
            old(menu)@,
            h as int,
            AnswerView::Sessions(infos(a.sessions@)),
        ),
        s@ == ended_said(name@, infos(a.sessions@), opt_text(a.error)),
{
    let there = is_named(&a.sessions, name);
    menu.set_sessions(h, a.sessions);
    match a.error {
        Some(e) => e,
        None => if there {
            session_still_there(name)
        } else {
            session_ended(name)
        },
    }
}

// ---- the connection --------------------------------------------------------

pub open spec fn protocols_text(theirs: Seq<char>, ours: Seq<char>) -> Seq<char> {
    "remote acs speaks protocol "@ + theirs + ", this client "@ + ours
}

fn protocols(theirs: &str, ours: &str) -> (s: String)
    ensures
        s@ == protocols_text(theirs@, ours@),
{
    let mut s = "remote acs speaks protocol ".to_owned();
    s.append(theirs);
    s.append(", this client ");
    s.append(ours);
    s
}

/// What the picking connection starts from: the bytes behind the marker, nothing
/// where acs is not installed there yet, or that the two do not understand each
/// other.
pub fn opened(marker: Marker) -> (r: Result<Option<Vec<u8>>, Failure>)
    ensures
        match marker@ {
            MarkerView::Ready { proto, rest } => if proto == PROTO_VERSION {
                r matches Ok(Some(b)) && b@ == rest
            } else {
                r matches Err(Failure::BadReply(e)) && e@ == protocols_text(
                    dec(proto as nat),
                    dec(PROTO_VERSION as nat),
                )
            },
            MarkerView::Need { .. } => r matches Ok(None),
        },
{
    match marker {
        Marker::Ready { proto, rest } => if proto == PROTO_VERSION {
            Ok(Some(rest))
        } else {
            Err(
                Failure::BadReply(
                    protocols(&decimal(proto as u64), &decimal(PROTO_VERSION as u64)),
                ),
            )
        },
        Marker::Need { .. } => Ok(None),
    }
}

} // verus!
