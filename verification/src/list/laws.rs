//! What holds of every listing.

use crate::list::{
    cells_of, code_of, col_width, col_widths, failed_lines, head, infos, lines_of,
    not_installed_text, padded, quiet_lines, replies, rows_of, span_text, table_of, unread,
    with_sessions, Failure, Listed,
};
use crate::pick::laws::told_of;
use crate::proto::laws::{frames, law_frame_reads_back, law_stream_reads_back, messages, sendable};
use crate::proto::{frame, MsgView, StatusView};
use crate::text::{dec, holds, stands_at, trim_right};
use vstd::prelude::*;

verus! {

// ---- the table -------------------------------------------------------------

/// Where column `c` begins.
pub open spec fn column(widths: Seq<nat>, c: nat) -> nat
    decreases c,
{
    if c == 0 {
        0
    } else {
        column(widths, (c - 1) as nat) + widths[c - 1] + 2
    }
}

proof fn lemma_padded(cells: Seq<Seq<char>>, widths: Seq<nat>, n: nat)
    requires
        n <= cells.len(),
        widths.len() == cells.len(),
        forall|c: int| 0 <= c < cells.len() ==> (#[trigger] cells[c]).len() <= widths[c],
    ensures
        n < cells.len() ==> padded(cells, widths, n).len() == column(widths, n),
        forall|c: int|
            0 <= c < n ==> stands_at(
                padded(cells, widths, n),
                #[trigger] cells[c],
                column(widths, c as nat) as int,
            ),
    decreases n,
{
    if n > 0 {
        let k = (n - 1) as nat;
        lemma_padded(cells, widths, k);
        reveal_strlit("  ");
        let before = padded(cells, widths, k);
        let all = padded(cells, widths, n);
        assert(all.take(before.len() as int) =~= before);
        assert forall|c: int| 0 <= c < n implies stands_at(
            all,
            #[trigger] cells[c],
            column(widths, c as nat) as int,
        ) by {
            let at = column(widths, c as nat) as int;
            if c < k {
                assert(stands_at(before, cells[c], at));
                assert(all.subrange(at, at + cells[c].len()) =~= before.subrange(
                    at,
                    at + cells[c].len(),
                ));
            } else {
                assert(all.subrange(at, at + cells[c].len()) =~= cells[c]);
            }
        }
    }
}

proof fn lemma_widest(head: Seq<Seq<char>>, rows: Seq<Seq<Seq<char>>>, c: int)
    ensures
        head[c].len() <= col_width(head, rows, c),
        forall|r: int|
            0 <= r < rows.len() ==> (#[trigger] rows[r])[c].len() <= col_width(head, rows, c),
    decreases rows.len(),
{
    if rows.len() > 0 {
        lemma_widest(head, rows.drop_last(), c);
        assert forall|r: int| 0 <= r < rows.len() implies (#[trigger] rows[r])[c].len()
            <= col_width(head, rows, c) by {
            if r < rows.len() - 1 {
                assert(rows.drop_last()[r] == rows[r]);
            }
        }
    }
}

/// A line of the table: its cells, each from the place of its column on, up to the white
/// space that ends it.
pub open spec fn laid_out(line: Seq<char>, cells: Seq<Seq<char>>, widths: Seq<nat>) -> bool {
    exists|full: Seq<char>|
        {
            &&& line == #[trigger] trim_right(full)
            &&& forall|c: int|
                0 <= c < cells.len() ==> stands_at(
                    full,
                    #[trigger] cells[c],
                    column(widths, c as nat) as int,
                )
        }
}

/// A table has its heading and one line for each row, in order; every cell stands in its
/// own column, and no cell reaches the next column.
pub proof fn law_columns_line_up(head: Seq<Seq<char>>, rows: Seq<Seq<Seq<char>>>)
    requires
        forall|r: int| 0 <= r < rows.len() ==> (#[trigger] rows[r]).len() == head.len(),
    ensures
        ({
            let widths = col_widths(head, rows);
            let lines = table_of(head, rows);
            &&& lines.len() == rows.len() + 1
            &&& laid_out(lines[0], head, widths)
            &&& forall|r: int|
                0 <= r < rows.len() ==> laid_out(lines[r + 1], #[trigger] rows[r], widths)
            &&& forall|r: int, c: int|
                0 <= r < rows.len() && 0 <= c < head.len() ==> column(widths, c as nat)
                    + (#[trigger] rows[r][c]).len() + 2 <= column(widths, (c + 1) as nat)
        }),
{
    let widths = col_widths(head, rows);
    let lines = table_of(head, rows);
    assert forall|c: int| 0 <= c < head.len() implies (#[trigger] head[c]).len() <= widths[c] by {
        lemma_widest(head, rows, c);
    }
    lemma_padded(head, widths, head.len());
    assert(lines[0] == trim_right(padded(head, widths, head.len())));
    assert forall|r: int| 0 <= r < rows.len() implies laid_out(
        lines[r + 1],
        #[trigger] rows[r],
        widths,
    ) by {
        assert forall|c: int| 0 <= c < rows[r].len() implies (#[trigger] rows[r][c]).len()
            <= widths[c] by {
            lemma_widest(head, rows, c);
        }
        lemma_padded(rows[r], widths, rows[r].len());
        assert(lines[r + 1] == trim_right(padded(rows[r], widths, rows[r].len())));
    }
    assert forall|r: int, c: int| 0 <= r < rows.len() && 0 <= c < head.len() implies column(
        widths,
        c as nat,
    ) + (#[trigger] rows[r][c]).len() + 2 <= column(widths, (c + 1) as nat) by {
        lemma_widest(head, rows, c);
    }
}

/// The line tells of this session: its name, whether it is attached, by whom, how long it
/// has been idle and there, and what it runs, each in its column.
pub open spec fn tells_of(line: Seq<char>, s: StatusView, now: u64, widths: Seq<nat>) -> bool {
    exists|cells: Seq<Seq<char>>|
        {
            &&& #[trigger] laid_out(line, cells, widths)
            &&& cells.len() == 6
            &&& cells[0] == s.name
            &&& cells[1] == if s.attached {
                "attached"@
            } else {
                "detached"@
            }
            &&& holds(cells[2], s.identity)
            &&& s.attached && s.identity.len() > 0 ==> cells[2] == s.identity
            &&& cells[3] == span_text(s.idle_secs as nat)
            &&& now >= s.created_at ==> cells[4] == span_text((now - s.created_at) as nat)
            &&& cells[5] == s.command
        }
}

/// The listing of a host has its heading and then one line for each session, in order.
pub proof fn law_every_session_has_its_line(sessions: Seq<StatusView>, now: u64)
    ensures
        ({
            let lines = lines_of(sessions, now);
            let widths = col_widths(head(), rows_of(sessions, now));
            &&& lines.len() == sessions.len() + 1
            &&& forall|i: int|
                0 <= i < sessions.len() ==> tells_of(
                    lines[i + 1],
                    #[trigger] sessions[i],
                    now,
                    widths,
                )
        }),
{
    let rows = rows_of(sessions, now);
    assert forall|r: int| 0 <= r < rows.len() implies (#[trigger] rows[r]).len()
        == head().len() by {}
    law_columns_line_up(head(), rows);
    let lines = lines_of(sessions, now);
    let widths = col_widths(head(), rows);
    assert forall|i: int| 0 <= i < sessions.len() implies tells_of(
        lines[i + 1],
        #[trigger] sessions[i],
        now,
        widths,
    ) by {
        let s = sessions[i];
        let cells = cells_of(s, now);
        assert(rows[i] == cells);
        assert(laid_out(lines[i + 1], cells, widths));
        reveal_strlit("(");
        let k: int = if s.attached || s.identity.len() == 0 {
            0
        } else {
            1
        };
        assert(cells[2].subrange(k, k + s.identity.len()) =~= s.identity);
        assert(stands_at(cells[2], s.identity, k));
    }
}

/// A duration is told in one unit, rounded down: the largest unit of which there is one
/// whole, or seconds.
pub proof fn law_a_span_is_rounded_down(secs: nat)
    ensures
        ({
            let unit: nat = if secs < 60 {
                1
            } else if secs < 3600 {
                60
            } else if secs < 86_400 {
                3600
            } else {
                86_400
            };
            let n = secs / unit;
            &&& n * unit <= secs < (n + 1) * unit
            &&& span_text(secs).drop_last() == dec(n)
            &&& span_text(secs).last() == if unit == 1 {
                's'
            } else if unit == 60 {
                'm'
            } else if unit == 3600 {
                'h'
            } else {
                'd'
            }
        }),
{
    reveal_strlit("s");
    reveal_strlit("m");
    reveal_strlit("h");
    reveal_strlit("d");
    let t = span_text(secs);
    if secs < 60 {
        assert(secs / 1 == secs);
        assert(t.drop_last() =~= dec(secs));
    } else if secs < 3600 {
        assert(t.drop_last() =~= dec(secs / 60));
    } else if secs < 86_400 {
        assert(t.drop_last() =~= dec(secs / 3600));
    } else {
        assert(t.drop_last() =~= dec(secs / 86_400));
    }
}

// ---- every host ------------------------------------------------------------

/// Every host is accounted for: one with sessions is in the table with all of them, one
/// without has a line that names it, and one that failed has a line that names it and
/// says why.
pub proof fn law_every_host_is_accounted_for(
    aliases: Seq<String>,
    answers: Seq<Listed>,
    i: int,
)
    requires
        0 <= i < answers.len() <= aliases.len(),
    ensures
        match answers[i] {
            Ok(Some(s)) => if s@.len() > 0 {
                with_sessions(aliases, answers).contains((aliases[i]@, infos(s@)))
            } else {
                holds(quiet_lines(aliases, answers), "no sessions on "@ + aliases[i]@ + "\n"@)
            },
            Ok(None) => holds(
                quiet_lines(aliases, answers),
                not_installed_text(aliases[i]@) + "\n"@,
            ),
            Err(Failure::Unreachable(e)) => failed_lines(aliases, answers).contains(
                "acs: "@ + aliases[i]@ + ": "@ + e@,
            ),
            Err(Failure::BadReply(e)) => failed_lines(aliases, answers).contains(
                "acs: bad reply from "@ + aliases[i]@ + ": "@ + e@,
            ),
        },
    decreases answers.len(),
{
    let n = answers.len() - 1;
    let before = answers.drop_last();
    if i < n {
        law_every_host_is_accounted_for(aliases, before, i);
        lemma_more_accounted_for(aliases, answers);
    } else {
        let w = with_sessions(aliases, answers);
        let q = quiet_lines(aliases, answers);
        let f = failed_lines(aliases, answers);
        match answers[i] {
            Ok(Some(s)) => if s@.len() > 0 {
                assert(w.last() == (aliases[i]@, infos(s@)));
                assert(w.contains(w.last()));
            } else {
                let part = "no sessions on "@ + aliases[i]@ + "\n"@;
                let k = q.len() - part.len();
                assert(q.subrange(k, k + part.len()) =~= part);
                assert(stands_at(q, part, k));
            },
            Ok(None) => {
                let part = not_installed_text(aliases[i]@) + "\n"@;
                let k = q.len() - part.len();
                assert(q.subrange(k, k + part.len()) =~= part);
                assert(stands_at(q, part, k));
            },
            Err(_) => {
                assert(f.contains(f.last()));
            },
        }
    }
}

proof fn lemma_more_accounted_for(aliases: Seq<String>, answers: Seq<Listed>)
    requires
        answers.len() > 0,
    ensures
        forall|x: (Seq<char>, Seq<StatusView>)|
            with_sessions(aliases, answers.drop_last()).contains(x) ==> #[trigger] with_sessions(
                aliases,
                answers,
            ).contains(x),
        forall|x: Seq<char>|
            failed_lines(aliases, answers.drop_last()).contains(x) ==> #[trigger] failed_lines(
                aliases,
                answers,
            ).contains(x),
        forall|x: Seq<char>|
            holds(quiet_lines(aliases, answers.drop_last()), x) ==> #[trigger] holds(
                quiet_lines(aliases, answers),
                x,
            ),
{
    let w1 = with_sessions(aliases, answers.drop_last());
    let w2 = with_sessions(aliases, answers);
    assert(w2.take(w1.len() as int) =~= w1);
    assert forall|x: (Seq<char>, Seq<StatusView>)| w1.contains(x) implies #[trigger] w2.contains(
        x,
    ) by {
        let k = choose|k: int| 0 <= k < w1.len() && w1[k] == x;
        assert(w2[k] == x);
    }
    let f1 = failed_lines(aliases, answers.drop_last());
    let f2 = failed_lines(aliases, answers);
    assert(f2.take(f1.len() as int) =~= f1);
    assert forall|x: Seq<char>| f1.contains(x) implies #[trigger] f2.contains(x) by {
        let k = choose|k: int| 0 <= k < f1.len() && f1[k] == x;
        assert(f2[k] == x);
    }
    let q1 = quiet_lines(aliases, answers.drop_last());
    let q2 = quiet_lines(aliases, answers);
    assert(q2.take(q1.len() as int) =~= q1);
    assert forall|x: Seq<char>| holds(q1, x) implies #[trigger] holds(q2, x) by {
        let k = choose|k: int| stands_at(q1, x, k);
        assert(q2.subrange(k, k + x.len()) =~= q1.subrange(k, k + x.len()));
        assert(stands_at(q2, x, k));
    }
}

/// There are as many failures told as hosts that failed, and as many hosts in the table as
/// answered with sessions: no host is told of twice.
pub proof fn law_no_host_is_told_twice(aliases: Seq<String>, answers: Seq<Listed>)
    ensures
        failed_lines(aliases, answers).len() == answers.filter(|a: Listed| a is Err).len(),
        with_sessions(aliases, answers).len() == answers.filter(
            |a: Listed| a matches Ok(Some(s)) && s@.len() > 0,
        ).len(),
    decreases answers.len(),
{
    reveal(Seq::filter);
    if answers.len() > 0 {
        law_no_host_is_told_twice(aliases, answers.drop_last());
    }
}

// ---- reading a listing -----------------------------------------------------

/// A host's listing is read whole: every session it tells of, in its order, and nothing is
/// left over.
pub proof fn law_every_reply_is_read(v: Seq<StatusView>)
    requires
        forall|i: int| 0 <= i < v.len() ==> sendable(MsgView::StatusReply(#[trigger] v[i])),
    ensures
        replies(messages(frames(told_of(v)))) == v,
        unread(frames(told_of(v))) == Seq::<u8>::empty(),
{
    let msgs = told_of(v);
    assert forall|i: int| 0 <= i < msgs.len() implies sendable(#[trigger] msgs[i]) by {
        assert(sendable(MsgView::StatusReply(v[i])));
    }
    law_stream_reads_back(msgs);
    lemma_replies(v);
    lemma_nothing_unread(msgs);
}

proof fn lemma_replies(v: Seq<StatusView>)
    ensures
        replies(told_of(v)) == v,
    decreases v.len(),
{
    if v.len() > 0 {
        lemma_replies(v.skip(1));
        assert(told_of(v).skip(1) =~= told_of(v.skip(1)));
        assert(seq![v[0]] + v.skip(1) =~= v);
    }
}

proof fn lemma_nothing_unread(msgs: Seq<MsgView>)
    requires
        forall|i: int| 0 <= i < msgs.len() ==> sendable(#[trigger] msgs[i]),
    ensures
        unread(frames(msgs)) == Seq::<u8>::empty(),
    decreases msgs.len(),
{
    if msgs.len() > 0 {
        let w = msgs.skip(1);
        assert forall|i: int| 0 <= i < w.len() implies sendable(#[trigger] w[i]) by {
            assert(w[i] == msgs[i + 1]);
        }
        lemma_nothing_unread(w);
        lemma_one_read(msgs[0], frames(w));
    }
}

proof fn lemma_one_read(m: MsgView, rest: Seq<u8>)
    requires
        sendable(m),
    ensures
        unread(frame(m) + rest) == unread(rest),
{
    law_frame_reads_back(m, rest);
    assert((frame(m) + rest).skip(frame(m).len() as int) =~= rest);
}

/// `acs list` exits 0 exactly where every host answered, and with 255 otherwise.
pub proof fn law_every_host_has_to_answer(aliases: Seq<String>, answers: Seq<Listed>)
    ensures
        (forall|i: int| 0 <= i < answers.len() ==> (#[trigger] answers[i]) is Ok) <==> code_of(
            failed_lines(aliases, answers),
        ) == 0,
        code_of(failed_lines(aliases, answers)) == 0 || code_of(failed_lines(aliases, answers))
            == 255,
    decreases answers.len(),
{
    if answers.len() > 0 {
        let before = answers.drop_last();
        law_every_host_has_to_answer(aliases, before);
        assert(forall|i: int| 0 <= i < before.len() ==> #[trigger] before[i] == answers[i]);
        if forall|i: int| 0 <= i < answers.len() ==> (#[trigger] answers[i]) is Ok {
            assert forall|i: int| 0 <= i < before.len() implies (#[trigger] before[i]) is Ok by {
                assert(answers[i] is Ok);
            }
            assert(answers[answers.len() - 1] is Ok);
        }
        if code_of(failed_lines(aliases, answers)) == 0 {
            assert forall|i: int| 0 <= i < answers.len() implies (#[trigger] answers[i])
                is Ok by {
                if i < before.len() {
                    assert(before[i] is Ok);
                }
            }
        }
    }
}

} // verus!
