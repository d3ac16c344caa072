//! What holds of every command line that is accepted.

use super::lex::{held, next_token, next_value};
use super::{
    all_said, args_of, is_ssh_option, judged, lemma_said_shrinks, long_said, meant, next_said, no_opts,
    remaining, short_said, ArgsView, OptsView, ParsedView, Said, TargetView,
};
use crate::session::valid_name;
use crate::ssh::{forward_fault, TransportView};
use vstd::prelude::*;

verus! {

/// Flags and values in turn, each flag one that ssh is given.
pub open spec fn in_pairs(opts: Seq<Seq<char>>) -> bool {
    &&& opts.len() % 2 == 0
    &&& forall|k: int|
        0 <= k && 2 * k < opts.len() ==> (#[trigger] opts[2 * k]).len() == 2 && opts[2 * k][0] == '-'
            && is_ssh_option(opts[2 * k][1])
}

/// Forwards that ssh can open.
pub open spec fn all_open(forwards: Seq<Seq<char>>) -> bool {
    forall|i: int| 0 <= i < forwards.len() ==> forward_fault(#[trigger] forwards[i]) is None
}

proof fn lemma_options_stay_sound(h: Seq<Seq<char>>, o: OptsView)
    requires
        h.len() >= 2,
        in_pairs(o.user_opts),
        all_open(o.local_forwards),
    ensures
        !(all_said(h, o) is On),
        all_said(h, o) matches Said::All(end) ==> in_pairs(end.user_opts) && all_open(
            end.local_forwards,
        ),
    decreases remaining(h),
{
    lemma_said_shrinks(h, o);
    match next_said(h, o) {
        Said::On(h2, o2) => {
            if o2.user_opts != o.user_opts {
                let flag = o2.user_opts[o.user_opts.len() as int];
                assert forall|k: int| 0 <= k && 2 * k < o2.user_opts.len() implies (
                #[trigger] o2.user_opts[2 * k]).len() == 2 && o2.user_opts[2 * k][0] == '-'
                    && is_ssh_option(o2.user_opts[2 * k][1]) by {
                    if 2 * k < o.user_opts.len() {
                        assert(o2.user_opts[2 * k] == o.user_opts[2 * k]);
                    } else {
                        assert(2 * k == o.user_opts.len());
                    }
                }
            }
            if o2.local_forwards != o.local_forwards {
                assert forall|i: int| 0 <= i < o2.local_forwards.len() implies forward_fault(
                    #[trigger] o2.local_forwards[i],
                ) is None by {
                    if i < o.local_forwards.len() {
                        assert(o2.local_forwards[i] == o.local_forwards[i]);
                    }
                }
            }
            lemma_options_stay_sound(h2, o2);
        },
        _ => {},
    }
}

/// The arguments of an accepted command line, if it runs something.
pub open spec fn accepted(args: Seq<Seq<char>>, default: Option<Seq<char>>, list: bool) -> Option<
    ArgsView,
> {
    match meant(args, default, list) {
        Ok(ParsedView::Run(a)) => Some(a),
        Ok(ParsedView::ListAll(a)) => Some(a),
        _ => None,
    }
}

/// Whatever the command line, ssh is given only the options it is meant to get,
/// each with its value, and only forwards that it can open.
pub proof fn law_ssh_gets_whole_options(
    args: Seq<Seq<char>>,
    default: Option<Seq<char>>,
    list: bool,
)
    ensures
        accepted(args, default, list) matches Some(a) ==> in_pairs(a.transport.user_opts) && all_open(
            a.transport.local_forwards,
        ),
{
    lemma_options_stay_sound(held(Seq::empty(), Seq::empty(), args), no_opts());
}

/// The arguments of an accepted command line agree with each other: nothing both
/// persists and never reconnects, a listing names no session and runs no command,
/// a session's name is a valid one, and a host is no option.
pub proof fn law_accepted_arguments_agree(
    args: Seq<Seq<char>>,
    default: Option<Seq<char>>,
    list: bool,
)
    ensures
        accepted(args, default, list) matches Some(a) ==> {
            &&& a.list == list
            &&& !(a.persist && !a.reconnect)
            &&& list ==> a.command.len() == 0 && a.target is Pick
            &&& match a.target {
                TargetView::Named(name) => valid_name(name),
                TargetView::Pick(name) => valid_name(name),
                TargetView::New => true,
            }
            &&& !(a.transport.destination.len() > 0 && a.transport.destination[0] == '-')
            &&& a.transport.mux is None
        },
{
    reveal_strlit("main");
    lemma_options_stay_sound(held(Seq::empty(), Seq::empty(), args), no_opts());
}

/// Everything behind a `--` is the command, as it stands: the options before it
/// are read as if the command line ended there.
pub proof fn law_the_command_is_not_read(h: Seq<Seq<char>>, o: OptsView, command: Seq<Seq<char>>)
    requires
        h.len() == 2,
        h[1].len() == 0,
    ensures
        all_said(h + seq!["--"@] + command, o) == Said::All(
            OptsView { command: o.command + command, ..o },
        ),
{
    let all = h + seq!["--"@] + command;
    assert(all[1] == h[1] && all[2] == "--"@);
    assert(all.skip(3) =~= command);
}

/// No argument left is a `--`.
pub open spec fn endless(h: Seq<Seq<char>>) -> bool {
    forall|i: int| 2 <= i < h.len() ==> #[trigger] h[i] != "--"@
}

proof fn lemma_value_with_more(h: Seq<Seq<char>>, tail: Seq<Seq<char>>)
    requires
        h.len() >= 2,
        endless(h),
        next_value(h).0 is Ok,
    ensures
        next_value(h + tail) == (next_value(h).0, next_value(h).1 + tail),
        endless(next_value(h).1),
        next_value(h).1.len() >= 2,
{
    let rest = h.skip(2);
    let all = h + tail;
    assert(all[0] == h[0] && all[1] == h[1]);
    assert(all.skip(2) =~= rest + tail);
    let h2 = next_value(h).1;
    assert(next_value(all).1 =~= h2 + tail);
    assert forall|i: int| 2 <= i < h2.len() implies #[trigger] h2[i] != "--"@ by {
        if h[1].len() > 0 {
            assert(h2[i] == h[i]);
        } else {
            assert(h2[i] == h[i + 1]);
        }
    }
}

proof fn lemma_token_with_more(h: Seq<Seq<char>>, tail: Seq<Seq<char>>)
    requires
        h.len() >= 2,
        endless(h),
        next_token(h).0 matches Ok(Some(_)),
    ensures
        next_token(h + tail) == (next_token(h).0, next_token(h).1 + tail),
        endless(next_token(h).1),
        next_token(h).1.len() >= 2,
{
    let rest = h.skip(2);
    let all = h + tail;
    assert(all[0] == h[0] && all[1] == h[1]);
    assert(all.skip(2) =~= rest + tail);
    let h2 = next_token(h).1;
    assert(next_token(all).1 =~= h2 + tail);
    assert forall|i: int| 2 <= i < h2.len() implies #[trigger] h2[i] != "--"@ by {
        if h[1].len() > 0 {
            assert(h2[i] == h[i]);
        } else {
            assert(h2[i] == h[i + 1]);
        }
    }
}

proof fn lemma_all_with_more(h: Seq<Seq<char>>, o: OptsView, command: Seq<Seq<char>>)
    requires
        h.len() >= 2,
        endless(h),
        all_said(h, o) is All,
    ensures
        all_said(h, o)->All_0.command == o.command,
        all_said(h + (seq!["--"@] + command), o) == Said::All(
            OptsView { command: o.command + command, ..all_said(h, o)->All_0 },
        ),
    decreases remaining(h),
{
    let tail = seq!["--"@] + command;
    let all = h + tail;
    lemma_said_shrinks(h, o);
    lemma_said_shrinks(all, o);
    assert(all[1] == h[1]);
    if h.len() > 2 {
        assert(all[2] == h[2]);
        assert(h[2] != "--"@);
    }
    match next_token(h) {
        (Ok(Some(t)), h2) => {
            lemma_token_with_more(h, tail);
            if next_value(h2).0 is Ok {
                lemma_value_with_more(h2, tail);
            }
            if let Said::On(h3, o3) = next_said(h, o) {
                assert(next_said(all, o) == Said::On(h3 + tail, o3));
                assert(o3.command == o.command);
                lemma_all_with_more(h3, o3, command);
            }
        },
        (Ok(None), _) => {
            assert(h.len() == 2);
            assert(all[2] == "--"@);
            assert(all.skip(3) =~= command);
        },
        _ => {},
    }
}

/// The words behind a `--` are the command, in their order and as they stand, whatever
/// they look like; everything before it means what it means without them. A command line
/// without a `--` has no command.
pub proof fn law_the_words_behind_are_the_command(
    before: Seq<Seq<char>>,
    command: Seq<Seq<char>>,
    default: Option<Seq<char>>,
    a: ArgsView,
)
    requires
        forall|i: int| 0 <= i < before.len() ==> #[trigger] before[i] != "--"@,
        meant(before, default, false) == Ok::<ParsedView, Seq<char>>(ParsedView::Run(a)),
    ensures
        a.command.len() == 0,
        meant(before + seq!["--"@] + command, default, false) == Ok::<ParsedView, Seq<char>>(
            ParsedView::Run(ArgsView { command, ..a }),
        ),
{
    let none = Seq::<char>::empty();
    let h = held(none, none, before);
    let tail = seq!["--"@] + command;
    assert forall|i: int| 2 <= i < h.len() implies #[trigger] h[i] != "--"@ by {
        assert(h[i] == before[i - 2]);
    }
    assert(held(none, none, before + seq!["--"@] + command) =~= h + tail);
    lemma_options_stay_sound(h, no_opts());
    lemma_all_with_more(h, no_opts(), command);
    assert(Seq::<Seq<char>>::empty() + command =~= command);
}

/// A word that is no option is one of the host and the session.
proof fn lemma_word(h: Seq<Seq<char>>, o: OptsView)
    requires
        h.len() > 2,
        h[1].len() == 0,
        h[2].len() > 0,
        h[2][0] != '-',
        all_said(held(h[0], Seq::empty(), h.skip(3)), OptsView {
            positionals: o.positionals.push(h[2]),
            ..o
        }) is All,
    ensures
        all_said(h, o) == all_said(
            held(h[0], Seq::empty(), h.skip(3)),
            OptsView { positionals: o.positionals.push(h[2]), ..o },
        ),
{
    reveal_strlit("--");
    assert("--"@[0] == '-');
    assert(h[2] != "--"@);
    let rest = h.skip(2);
    assert(rest.skip(1) =~= h.skip(3));
    lemma_said_shrinks(h, o);
}

proof fn lemma_nothing_left(h: Seq<Seq<char>>, o: OptsView)
    requires
        h.len() == 2,
        h[1].len() == 0,
    ensures
        all_said(h, o) == Said::All(o),
{
    assert(h.skip(2) =~= Seq::empty());
}

/// The first word that is no option is the host, the second the session. Alone, a host
/// is asked for the session that is picked there.
pub proof fn law_a_host_and_a_session_are_named(host: Seq<char>, session: Seq<char>)
    requires
        host.len() > 0,
        host[0] != '-',
        valid_name(session),
        session.len() > 0,
        session[0] != '-',
    ensures
        meant(seq![host, session], None, false) matches Ok(ParsedView::Run(a))
            && a.transport.destination == host && a.target == TargetView::Named(session)
            && a.reconnect && !a.force && !a.persist && a.command.len() == 0,
        meant(seq![host], None, false) matches Ok(ParsedView::Run(a)) && a.transport.destination
            == host && a.target is Pick && a.reconnect && !a.force && !a.persist
            && a.command.len() == 0,
{
    let none = Seq::<char>::empty();
    let o0 = no_opts();
    let o1 = OptsView { positionals: o0.positionals.push(host), ..o0 };
    let o2 = OptsView { positionals: o1.positionals.push(session), ..o1 };
    let end = held(none, none, Seq::empty());
    lemma_nothing_left(end, o1);
    lemma_nothing_left(end, o2);
    let h3 = held(none, none, seq![host]);
    assert(held(none, none, h3.skip(3)) =~= end);
    lemma_word(h3, o0);
    let h2 = held(none, none, seq![session]);
    assert(held(none, none, h2.skip(3)) =~= end);
    lemma_word(h2, o1);
    let h1 = held(none, none, seq![host, session]);
    assert(held(none, none, h1.skip(3)) =~= h2);
    lemma_word(h1, o0);
    reveal_strlit("main");
}

// ---- what an option means --------------------------------------------------

proof fn lemma_long_apart()
    ensures
        "new"@ != "list"@,
        "no-reconnect"@ != "list"@,
        "no-reconnect"@ != "new"@,
        "persist"@ != "list"@,
        "persist"@ != "new"@,
        "persist"@ != "no-reconnect"@,
        "force"@ != "list"@,
        "force"@ != "new"@,
        "force"@ != "no-reconnect"@,
        "force"@ != "persist"@,
        "force"@ != "reconnect"@,
        "ssh"@ != "list"@,
        "ssh"@ != "new"@,
        "ssh"@ != "no-reconnect"@,
        "ssh"@ != "persist"@,
        "ssh"@ != "reconnect"@,
        "ssh"@ != "force"@,
        "ssh"@ != "verbose"@,
        "verbose"@ != "list"@,
        "verbose"@ != "new"@,
        "verbose"@ != "no-reconnect"@,
        "verbose"@ != "persist"@,
        "verbose"@ != "reconnect"@,
        "verbose"@ != "force"@,
{
    reveal_strlit("new");
    reveal_strlit("list");
    reveal_strlit("no-reconnect");
    reveal_strlit("persist");
    reveal_strlit("force");
    reveal_strlit("reconnect");
    reveal_strlit("ssh");
    reveal_strlit("verbose");
    assert("force"@.len() != "reconnect"@.len());
    assert("ssh"@[0] != "new"@[0]);
    assert("verbose"@[0] != "persist"@[0]);
    assert("new"@.len() != "list"@.len());
    assert("no-reconnect"@.len() != "persist"@.len());
}

/// A long option changes what it is named for, and nothing else that was asked for: a new
/// session, no reconnect, waiting for the host, a takeover, another ssh, more to be said.
pub proof fn law_a_long_option_means_what_it_says(
    h: Seq<Seq<char>>,
    o: OptsView,
    target: TargetView,
    list: bool,
)
    ensures
        ({
            let a = args_of(o, target, list);
            let said = |name: Seq<char>| args_of(long_said(name, h, o)->On_1, target, list);
            &&& long_said("new"@, h, o) == Said::On(h, OptsView { new: true, ..o })
            &&& said("no-reconnect"@) == (ArgsView { reconnect: false, ..a })
            &&& said("persist"@) == (ArgsView { persist: true, ..a })
            &&& said("force"@) == (ArgsView { force: true, ..a })
            &&& said("verbose"@).verbose >= a.verbose
            &&& o.verbose < 255 ==> said("verbose"@) == (ArgsView {
                verbose: (a.verbose + 1) as u8,
                ..a
            })
            &&& long_said("no-reconnect"@, h, o)->On_0 == h
            &&& next_value(h).0 is Ok ==> said("ssh"@) == (ArgsView {
                transport: TransportView { ssh: next_value(h).0->Ok_0, ..a.transport },
                ..a
            }) && long_said("ssh"@, h, o)->On_0 == next_value(h).1
        }),
{
    lemma_long_apart();
}

/// An option that is ssh's goes to ssh, with its value, behind those before it; a forward is
/// kept apart from them; nothing else that was asked for changes.
pub proof fn law_ssh_options_are_handed_on(
    c: char,
    h: Seq<Seq<char>>,
    o: OptsView,
    target: TargetView,
    list: bool,
)
    requires
        next_value(h).0 is Ok,
    ensures
        ({
            let a = args_of(o, target, list);
            let v = next_value(h).0->Ok_0;
            let said = short_said(c, h, o);
            &&& c == 'i' || c == 'p' || c == 'J' || c == 'F' || c == 'o' ==> said is On && said->On_0
                == next_value(h).1 && args_of(said->On_1, target, list) == (ArgsView {
                transport: TransportView {
                    user_opts: a.transport.user_opts + seq![seq!['-', c], v],
                    ..a.transport
                },
                ..a
            })
            &&& c == 'L' && forward_fault(v) is None ==> said is On && said->On_0 == next_value(h).1
                && args_of(said->On_1, target, list) == (ArgsView {
                transport: TransportView {
                    local_forwards: a.transport.local_forwards.push(v),
                    ..a.transport
                },
                ..a
            })
            &&& c == 'L' && forward_fault(v) is Some ==> said == Said::Wrong(forward_fault(v)->0)
        }),
{
}

/// Arguments that agree with each other are accepted, and come to what was asked for: a
/// host, and with it one session by name, a new one, or the one that is picked.
pub proof fn law_agreeing_arguments_are_accepted(o: OptsView, default: Option<Seq<char>>)
    requires
        1 <= o.positionals.len() <= 2,
        !(o.positionals[0].len() > 0 && o.positionals[0][0] == '-'),
        !(o.persist && !o.reconnect),
        o.positionals.len() == 2 ==> !o.new && valid_name(o.positionals[1]),
        default matches Some(n) ==> n.len() == 0 || valid_name(n),
    ensures
        judged(o, default, false) matches Ok(ParsedView::Run(a)) && a.transport.destination
            == o.positionals[0] && a.command == o.command && a.persist == o.persist && a.reconnect
            == o.reconnect && a.force == o.force && !a.list && match a.target {
            TargetView::New => o.new,
            TargetView::Named(n) => o.positionals.len() == 2 && n == o.positionals[1],
            TargetView::Pick(n) => o.positionals.len() == 1 && !o.new,
        },
{
}

} // verus!
