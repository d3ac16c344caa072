//! What holds of every proxy.

use crate::proto::laws::{
    frames, law_frame_reads_back, law_part_of_a_frame_is_waited_for, law_stream_reads_back,
    messages, sendable,
};
use crate::proto::{err, frame, HelloView, Mode, MsgView, StatusView, PROTO_VERSION};
use crate::proxy::{
    ending_known, greeted, heard_client, mode_spelt, mode_word, status_known, to_start, turned_to,
    EndingView, GreetedView, SpliceView, StartView,
};
use vstd::prelude::*;

verus! {

/// A greeting reaches the session's master as the client sent it, but for the session's
/// name, which is the one the proxy found; what the client sent behind it follows, whole
/// and in order.
pub proof fn law_a_greeting_is_handed_on(
    h: HelloView,
    shown: Seq<char>,
    behind: Seq<MsgView>,
    name: Seq<char>,
)
    requires
        h.proto == PROTO_VERSION,
        sendable(MsgView::Hello(HelloView { session: name, ..h })),
        forall|i: int| 0 <= i < behind.len() ==> sendable(#[trigger] behind[i]),
    ensures
        greeted(MsgView::Hello(h), shown, frames(behind), true, name) matches GreetedView::Relay(b)
            && messages(b) == seq![MsgView::Hello(HelloView { session: name, ..h })] + behind,
{
    let first = MsgView::Hello(HelloView { session: name, ..h });
    law_stream_reads_back(behind);
    let all = seq![first] + behind;
    assert forall|i: int| 0 <= i < all.len() implies sendable(#[trigger] all[i]) by {
        if i > 0 {
            assert(all[i] == behind[i - 1]);
        }
    }
    law_stream_reads_back(all);
    assert(all.skip(1) =~= behind);
}

/// A client is refused exactly where it does not greet, where it speaks another protocol,
/// and where its session is not there; each for its own reason.
pub proof fn law_who_is_refused(
    first: MsgView,
    shown: Seq<char>,
    behind: Seq<u8>,
    found: bool,
    name: Seq<char>,
)
    ensures
        ({
            let g = greeted(first, shown, behind, found, name);
            &&& g is Relay <==> first is Hello && first->Hello_0.proto == PROTO_VERSION && found
            &&& !(first is Hello) ==> g is Refused && g->Refused_0 == err::BAD_REQUEST
            &&& first is Hello && first->Hello_0.proto != PROTO_VERSION ==> g is Refused
                && g->Refused_0 == err::PROTO_MISMATCH
            &&& first is Hello && first->Hello_0.proto == PROTO_VERSION && !found ==> g is Refused
                && g->Refused_0 == err::NO_SESSION
        }),
{
}

/// What a master tells of its session is read back, once it is whole, and nothing behind
/// it is touched.
pub proof fn law_a_status_is_read_back(s: StatusView, rest: Seq<u8>, k: int)
    requires
        sendable(MsgView::StatusReply(s)),
        0 <= k < frame(MsgView::StatusReply(s)).len(),
    ensures
        status_known(frame(MsgView::StatusReply(s)) + rest) == (
            Ok::<Option<StatusView>, Seq<char>>(Some(s)),
            rest,
        ),
        status_known(frame(MsgView::StatusReply(s)).take(k)) == (
            Ok::<Option<StatusView>, Seq<char>>(None),
            frame(MsgView::StatusReply(s)).take(k),
        ),
{
    let f = frame(MsgView::StatusReply(s));
    law_frame_reads_back(MsgView::StatusReply(s), rest);
    law_part_of_a_frame_is_waited_for(MsgView::StatusReply(s), k);
    assert((f + rest).skip(f.len() as int) =~= rest);
}

/// A session that was told to end is known to have ended when it closes; one that refuses
/// is reported with its own reason, however its words arrive; and nothing is concluded
/// from part of a message.
pub proof fn law_an_ending_is_known(
    name: Seq<char>,
    code: u16,
    message: Seq<char>,
    k: int,
    rest: Seq<u8>,
)
    requires
        sendable(MsgView::Error { code, message }),
        0 <= k < frame(MsgView::Error { code, message }).len(),
    ensures
        ({
            let f = frame(MsgView::Error { code, message });
            let part = ending_known(Seq::empty(), name, EndingView::Bytes(f.take(k)));
            let whole = ending_known(part.1, name, EndingView::Bytes(f.skip(k) + rest));
            &&& part.0 is None
            &&& whole.0 == Some(Err::<(), (u16, Seq<char>)>((code, message)))
            &&& whole.1 == rest
            &&& ending_known(rest, name, EndingView::Closed).0 == Some(
                Ok::<(), (u16, Seq<char>)>(()),
            )
            &&& ending_known(rest, name, EndingView::TimedOut).0 matches Some(Err(_))
        }),
{
    let m = MsgView::Error { code, message };
    let f = frame(m);
    law_part_of_a_frame_is_waited_for(m, k);
    law_frame_reads_back(m, rest);
    assert(Seq::<u8>::empty() + f.take(k) =~= f.take(k));
    assert(f.take(k) + (f.skip(k) + rest) =~= f + rest);
    assert((f + rest).skip(f.len() as int) =~= rest);
}

/// Every mode is spelt so that it is read back, and no word spells two.
pub proof fn law_a_mode_is_read_back(m: Mode)
    ensures
        mode_spelt(mode_word(m)) == Some(m),
{
    reveal_strlit("attach");
    reveal_strlit("create");
    reveal_strlit("attach-or-create");
    assert("attach"@[0] != "create"@[0]);
    assert("attach-or-create"@.len() != "attach"@.len());
    assert("attach-or-create"@.len() != "create"@.len());
}

/// A session is started only where it may be, and no longer than there is time for it; a
/// second start waits first.
pub proof fn law_when_a_session_is_started(name: Seq<char>, create: bool, late: bool, tried: bool)
    ensures
        to_start(name, create, late, tried) is Spawn <==> create && !late,
        to_start(name, create, late, tried) is Missing <==> !create,
        to_start(name, true, false, tried) == (StartView::Spawn { pause: tried }),
{
}

/// A relay goes on while the client is there or something of its words is still owed to the
/// master; what the client said last is delivered before the end.
pub proof fn law_a_relay_ends_when_all_is_said(s: SpliceView, last: Seq<u8>)
    requires
        s.input_open,
    ensures
        turned_to(s, false, false) is On,
        last.len() > 0 ==> turned_to(heard_client(s, last), false, false) is On,
        ({
            let closed = heard_client(s, Seq::empty());
            &&& closed.to_master == s.to_master
            &&& turned_to(closed, false, false) is Over <==> s.to_master.len() == 0
        }),
        turned_to(s, true, false) is Drain && turned_to(s, true, true) is Drain,
        turned_to(s, false, true) is Over,
{
    assert(s.to_master + Seq::<u8>::empty() =~= s.to_master);
}

} // verus!
