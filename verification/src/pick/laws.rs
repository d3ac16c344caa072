//! What holds of every session that is picked.

use crate::cli::TargetView;
use crate::menu::ChoiceView;
use crate::pick::{
    choice_settled, ended_said, has_name, host_settled, listing_taken, new_target, settled_on, Stop,
};
use crate::proto::laws::{frames, law_frame_reads_back, sendable};
use crate::proto::{frame, MsgView, StatusView};
use vstd::prelude::*;

verus! {

/// A new session never takes the name of one that is there: it has the default name while
/// that is free, and otherwise a number that the host picks.
pub proof fn law_a_new_session_is_new(sessions: Seq<StatusView>, default: Seq<char>)
    ensures
        new_target(sessions, default) matches TargetView::Named(n) ==> n == default && forall|
            i: int,
        |
            0 <= i < sessions.len() ==> (#[trigger] sessions[i]).name != n,
        new_target(sessions, default) is New <==> exists|i: int|
            0 <= i < sessions.len() && (#[trigger] sessions[i]).name == default,
        new_target(Seq::empty(), default) == TargetView::Named(default),
{
}

/// The user is asked exactly where there is something to pick: a session that nobody is
/// attached to, or any answer at all where the menu was asked for. Otherwise a new session
/// is made, and no session that somebody is attached to is ever taken without asking.
pub proof fn law_the_user_is_asked(
    listed: Option<Seq<StatusView>>,
    default: Seq<char>,
    always: bool,
    i: int,
)
    ensures
        settled_on(listed, default, always) is None <==> listed is Some && (always || exists|k: int|
            0 <= k < listed->0.len() && !(#[trigger] listed->0[k]).attached),
        settled_on(listed, default, always) is Some && listed is Some && 0 <= i < listed->0.len()
            ==> settled_on(listed, default, always) != Some(TargetView::Named(listed->0[i].name)),
        listed is None ==> settled_on(listed, default, always) == Some(TargetView::Named(default)),
{
    if settled_on(listed, default, always) is Some && listed is Some && 0 <= i < listed->0.len() {
        law_a_new_session_is_new(listed->0, default);
    }
}

/// What is picked is what is attached to: the session of that name, taken over where the
/// menu or the command line says so; a new one under a name that is free; or nothing.
pub proof fn law_the_choice_is_followed(
    c: ChoiceView,
    sessions: Seq<StatusView>,
    default: Seq<char>,
    force: bool,
)
    requires
        !(c is Kill),
    ensures
        ({
            let r = choice_settled(c, sessions, default, force);
            &&& r is Err <==> c is Leave
            &&& c matches ChoiceView::Leave(code) ==> r == Err::<(TargetView, bool), u8>(code)
            &&& c matches ChoiceView::Attach { name, force: f, .. } ==> r == Ok::<
                (TargetView, bool),
                u8,
            >((TargetView::Named(name), force || f))
            &&& c is New ==> r->Ok_0.1 == force && (r->Ok_0.0 matches TargetView::Named(n)
                ==> !has_name(sessions, n))
        }),
{
}

/// Messages of a listing: the sessions in it.
pub open spec fn told_of(v: Seq<StatusView>) -> Seq<MsgView> {
    Seq::new(v.len(), |i: int| MsgView::StatusReply(v[i]))
}

/// A host's listing is read whole: every session it tells of, in its order, behind those
/// that were read before; and nothing is left over.
pub proof fn law_a_listing_is_read_whole(
    v: Seq<StatusView>,
    had: Seq<StatusView>,
    error: Option<Seq<char>>,
)
    requires
        forall|i: int| 0 <= i < v.len() ==> sendable(MsgView::StatusReply(#[trigger] v[i])),
    ensures
        listing_taken(frames(told_of(v)), had, error) == (
            Seq::<u8>::empty(),
            had + v,
            error,
            Stop::More,
        ),
    decreases v.len(),
{
    let msgs = told_of(v);
    if v.len() == 0 {
        assert(msgs =~= Seq::empty());
        assert(had + v =~= had);
        lemma_nothing_taken(had, error);
    } else {
        let w = v.skip(1);
        assert forall|i: int| 0 <= i < w.len() implies sendable(
            MsgView::StatusReply(#[trigger] w[i]),
        ) by {
            assert(w[i] == v[i + 1]);
        }
        assert(msgs.skip(1) =~= told_of(w));
        lemma_one_taken(MsgView::StatusReply(v[0]), frames(told_of(w)), had, error);
        law_a_listing_is_read_whole(w, had.push(v[0]), error);
        assert(had.push(v[0]) + w =~= had + v);
    }
}

proof fn lemma_nothing_taken(had: Seq<StatusView>, error: Option<Seq<char>>)
    ensures
        listing_taken(Seq::empty(), had, error) == (Seq::<u8>::empty(), had, error, Stop::More),
{
}

proof fn lemma_one_taken(
    m: MsgView,
    rest: Seq<u8>,
    had: Seq<StatusView>,
    error: Option<Seq<char>>,
)
    requires
        sendable(m),
        m is StatusReply || m is Error,
    ensures
        listing_taken(frame(m) + rest, had, error) == match m {
            MsgView::StatusReply(s) => listing_taken(rest, had.push(s), error),
            _ => listing_taken(rest, had, Some(m->message)),
        },
{
    let s = frame(m) + rest;
    let n = frame(m).len() as int;
    law_frame_reads_back(m, rest);
    assert(s.skip(n) =~= rest);
    assert(0 < n <= s.len());
}

/// A refusal that comes with a listing is kept, and the sessions behind it are read.
pub proof fn law_a_refusal_is_kept(
    code: u16,
    message: Seq<char>,
    v: Seq<StatusView>,
    had: Seq<StatusView>,
    error: Option<Seq<char>>,
)
    requires
        sendable(MsgView::Error { code, message }),
        forall|i: int| 0 <= i < v.len() ==> sendable(MsgView::StatusReply(#[trigger] v[i])),
    ensures
        listing_taken(frame(MsgView::Error { code, message }) + frames(told_of(v)), had, error) == (
            Seq::<u8>::empty(),
            had + v,
            Some(message),
            Stop::More,
        ),
{
    lemma_one_taken(MsgView::Error { code, message }, frames(told_of(v)), had, error);
    law_a_listing_is_read_whole(v, had, Some(message));
}

/// After a session was told to end, the user hears the host's own reason where it gave
/// one, and otherwise whether the session is still listed.
pub proof fn law_what_is_said_of_an_ending(
    name: Seq<char>,
    left: Seq<StatusView>,
    e: Seq<char>,
    i: int,
)
    ensures
        ended_said(name, left, Some(e)) == e,
        0 <= i < left.len() && left[i].name == name ==> ended_said(name, left, None)
            == "session '"@ + name + "' is still there"@,
        (forall|k: int| 0 <= k < left.len() ==> (#[trigger] left[k]).name != name) ==> ended_said(
            name,
            left,
            None,
        ) == "session '"@ + name + "' ended"@,
{
}

/// Picked from the menu of every host, a session is attached to on the host it was listed
/// for, as it would be from the menu of that host alone.
pub proof fn law_the_host_picked_is_used(
    c: ChoiceView,
    sessions: Seq<StatusView>,
    default: Seq<char>,
    force: bool,
)
    requires
        !(c is Kill),
    ensures
        ({
            let r = host_settled(c, force);
            let one = choice_settled(c, sessions, default, force);
            &&& r is Err <==> c is Leave
            &&& r is Err ==> one is Err && one->Err_0 == r->Err_0
            &&& c matches ChoiceView::Attach { host, .. } ==> r->Ok_0.0 == host && one
                == Ok::<(TargetView, bool), u8>((r->Ok_0.1, r->Ok_0.2))
            &&& c matches ChoiceView::New { host } ==> r->Ok_0.0 == host && r->Ok_0.1 is New
                && r->Ok_0.2 == force
        }),
{
}

} // verus!
