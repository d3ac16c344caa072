//! What the menu promises: nothing is taken or ended without a yes, and the
//! screen never wraps, scrolls the cursor out of view or changes the width of
//! its bar.

use super::screen::{
    bar_width, clipped, columns, drawn_text, end_row, first_row, label, lemma_width_cat, row_key,
    row_line, widest, width_of,
};
use super::{
    find_row, host_rows, keep_cursor, lemma_host_rows, pressed, row_ok, rows_of, same_row,
    session_at, session_rows, sessions_of, typed, typed_all, with_answer, AnswerView, AskView,
    ChoiceView, HostView, Key, MenuView, Row,
};
use crate::list::laws::{law_every_session_has_its_line, tells_of};
use crate::list::{col_widths, head, rows_of as cells_of_all};
use crate::proto::StatusView;
use crate::safe::{displayed, shown_char, MAX_FIELD};
use vstd::prelude::*;

verus! {

/// A session that someone is attached to is taken over only after a yes, or
/// in a menu that was told to (`--force`).
pub proof fn law_take_over_takes_a_yes(m: MenuView, k: Key)
    requires
        pressed(m, k).1 matches Some(ChoiceView::Attach { force: true, .. }),
    ensures
        m.force || (m.ask matches Some(AskView::Takeover(..)) && (k == Key::Byte(0x79) || k
            == Key::Byte(0x59))),
{
}

/// A session is ended only after a yes (or a second `x`) to the question.
pub proof fn law_ending_takes_a_yes(m: MenuView, k: Key)
    requires
        pressed(m, k).1 matches Some(ChoiceView::Kill { .. }),
    ensures
        m.ask matches Some(AskView::Kill(..)) && (k == Key::Byte(0x79) || k == Key::Byte(0x59) || k
            == Key::Byte(0x78)),
{
}

/// Esc and Ctrl-C leave at any point, a question pending or not.
pub proof fn law_esc_and_ctrl_c_leave(m: MenuView)
    ensures
        pressed(m, Key::Esc).1 == Some(ChoiceView::Leave(0)),
        pressed(m, Key::Byte(3)).1 == Some(ChoiceView::Leave(130)),
{
}

/// The number of a row with a detached session attaches that session.
pub proof fn law_number_attaches(m: MenuView, n: int, h: usize, i: usize)
    requires
        m.ask is None,
        0 <= n < 9,
        n < rows_of(m).len(),
        rows_of(m)[n] == Row::Session(h, i),
        !session_at(m, h, i).attached,
    ensures
        pressed(m, Key::Byte((0x31 + n) as u8)).1 == Some(
            ChoiceView::Attach { host: h, name: session_at(m, h, i).name, force: false },
        ),
{
    let c = super::noted(m, Seq::empty());
    assert(rows_of(c) =~= rows_of(m));
}

proof fn lemma_clipped_fits(s: Seq<char>, cols: nat)
    ensures
        width_of(clipped(s, cols)) <= cols,
        width_of(clipped(s, cols)) <= width_of(s),
    decreases s.len(),
{
    if width_of(s) > cols && s.len() > 0 {
        lemma_clipped_fits(s.drop_last(), cols);
    }
}

/// No line is wider than the terminal, so nothing wraps.
pub proof fn law_no_line_wraps(text: Seq<char>, cols: nat)
    ensures
        width_of(drawn_text(text, cols)) <= cols,
{
    lemma_clipped_fits(
        displayed(
            text,
            if cols > MAX_FIELD {
                cols
            } else {
                MAX_FIELD as nat
            },
        ),
        cols,
    );
}

proof fn lemma_shown_width(c: char)
    ensures
        columns(shown_char(c)) == columns(c),
{
}

proof fn lemma_displayed_width(s: Seq<char>, max: nat)
    ensures
        width_of(displayed(s, max)) <= width_of(s),
    decreases s.len(),
{
    if s.len() == 0 {
        assert(displayed(s, max) =~= s);
    } else {
        let t = s.drop_last();
        lemma_displayed_width(t, max);
        if s.len() <= max {
            assert(displayed(s, max).drop_last() =~= displayed(t, max));
            assert(displayed(s, max).last() == shown_char(s.last()));
            lemma_shown_width(s.last());
            assert(width_of(displayed(s, max)) == width_of(displayed(t, max)) + columns(s.last()));
        } else {
            assert(displayed(s, max) =~= displayed(t, max));
        }
    }
}

proof fn lemma_five(a: char, b: char, c: char, d: char, e: char)
    requires
        columns(a) == 1,
        columns(b) == 1,
        columns(c) == 1,
        columns(d) == 1,
        columns(e) == 1,
    ensures
        width_of(seq![a, b, c, d, e]) == 5,
{
    let s = seq![a, b, c, d, e];
    assert(s.drop_last() =~= seq![a, b, c, d]);
    assert(seq![a, b, c, d].drop_last() =~= seq![a, b, c]);
    assert(seq![a, b, c].drop_last() =~= seq![a, b]);
    assert(seq![a, b].drop_last() =~= seq![a]);
    assert(seq![a].drop_last() =~= Seq::empty());
    reveal_with_fuel(width_of, 6);
}

proof fn lemma_widest(m: MenuView, now: u64, n: nat, k: int)
    requires
        0 <= k < n,
    ensures
        5 + width_of(label(m, now, rows_of(m)[k])) <= widest(m, now, n),
    decreases n,
{
    if k < n - 1 {
        lemma_widest(m, now, (n - 1) as nat, k);
    }
}

/// Where the cursor is makes no difference to the width of the bar.
pub proof fn law_bar_width_does_not_follow_the_cursor(m: MenuView, c: usize, now: u64, cols: nat)
    ensures
        bar_width(MenuView { cursor: c, ..m }, now, cols) == bar_width(m, now, cols),
{
    let w = MenuView { cursor: c, ..m };
    assert(rows_of(w) =~= rows_of(m));
    lemma_same_widest(m, c, now, rows_of(m).len());
}

proof fn lemma_same_widest(m: MenuView, c: usize, now: u64, n: nat)
    ensures
        widest(MenuView { cursor: c, ..m }, now, n) == widest(m, now, n),
    decreases n,
{
    let w = MenuView { cursor: c, ..m };
    assert(rows_of(w) =~= rows_of(m));
    assert(super::screen::listed(w) =~= super::screen::listed(m));
    if n > 0 {
        lemma_same_widest(m, c, now, (n - 1) as nat);
    }
}

/// The cursor's row never sticks out of the bar: with its padding it is
/// exactly as wide as the bar.
pub proof fn law_bar_holds_its_row(m: MenuView, now: u64, cols: nat)
    requires
        m.cursor < rows_of(m).len(),
    ensures
        width_of(drawn_text(row_line(m, now, m.cursor as int).0, cols)) <= bar_width(m, now, cols),
{
    let n = m.cursor as int;
    let row = rows_of(m)[n];
    let text = row_line(m, now, n).0;
    let max = if cols > MAX_FIELD {
        cols
    } else {
        MAX_FIELD as nat
    };
    let mark = seq!['>', ' ', row_key(row, n), ' ', ' '];
    lemma_five('>', ' ', row_key(row, n), ' ', ' ');
    lemma_width_cat(mark, label(m, now, row));
    assert(text =~= mark + label(m, now, row));
    lemma_widest(m, now, rows_of(m).len(), n);
    lemma_displayed_width(text, max);
    lemma_clipped_fits(displayed(text, max), cols);
}

/// The cursor's row is among the rows shown.
pub proof fn law_cursor_is_in_view(m: MenuView, height: nat)
    requires
        m.cursor < rows_of(m).len(),
    ensures
        first_row(m, height) <= m.cursor < end_row(m, height),
{
}

proof fn lemma_row_found(
    before: MenuView,
    at: Row,
    after: MenuView,
    rows: Seq<Row>,
    k: int,
    or: usize,
)
    requires
        0 <= k,
        rows.len() <= usize::MAX,
    ensures
        ({
            let n = find_row(before, at, after, rows, k, or);
            if exists|j: int| k <= j < rows.len() && same_row(before, at, after, #[trigger] rows[j]) {
                n < rows.len() && same_row(before, at, after, rows[n as int])
            } else {
                n == or
            }
        }),
    decreases rows.len() - k,
{
    if k < rows.len() && !same_row(before, at, after, rows[k]) {
        lemma_row_found(before, at, after, rows, k + 1, or);
    }
}

/// When what is shown changes, the cursor stays on its row: on the same session by
/// name, or the same other row, wherever that is now. Where the row is gone the cursor
/// keeps its place, or is on the last row.
pub proof fn law_the_cursor_stays_on_its_row(before: MenuView, after: MenuView)
    requires
        rows_of(after).len() <= usize::MAX,
    ensures
        ({
            let at = rows_of(before)[before.cursor as int];
            let rows = rows_of(after);
            let cursor = keep_cursor(before, after).cursor;
            &&& cursor < rows.len()
            &&& if exists|j: int| 0 <= j < rows.len() && same_row(before, at, after, #[trigger] rows[j]) {
                same_row(before, at, after, rows[cursor as int])
            } else {
                cursor == if before.cursor < rows.len() {
                    before.cursor as int
                } else {
                    rows.len() - 1
                }
            }
        }),
{
    let rows = rows_of(after);
    assert(rows[rows.len() - 1] == Row::Exit);
    let or = if before.cursor < rows.len() {
        before.cursor
    } else {
        (rows.len() - 1) as usize
    };
    lemma_row_found(before, rows_of(before)[before.cursor as int], after, rows, 0, or);
}

// ---- whole inputs ----------------------------------------------------------

/// A menu that can be held: its hosts, their sessions and its rows can be counted.
pub open spec fn fits(m: MenuView) -> bool {
    &&& m.hosts.len() <= usize::MAX
    &&& forall|i: int| 0 <= i < m.hosts.len() ==> sessions_of(#[trigger] m.hosts[i]).len() <= usize::MAX
    &&& rows_of(MenuView { all: true, ..m }).len() <= usize::MAX
    &&& rows_of(MenuView { all: false, ..m }).len() <= usize::MAX
}

/// The menu after the first `k` bytes of what is typed.
pub open spec fn after(m: MenuView, input: Seq<u8>, k: int, now: u64) -> MenuView
    decreases k,
{
    if k <= 0 {
        m
    } else {
        typed(after(m, input, k - 1, now), input[k - 1], now).0
    }
}

/// Host `h` has a session of this name that nobody is attached to.
pub open spec fn has_detached(m: MenuView, h: usize, name: Seq<char>) -> bool {
    h < m.hosts.len() && exists|i: int|
        0 <= i < sessions_of(m.hosts[h as int]).len() && (#[trigger] sessions_of(
            m.hosts[h as int],
        )[i]).name == name && !sessions_of(m.hosts[h as int])[i].attached
}

/// A yes to the question whether to end a session, or a second `x`.
pub open spec fn ends(b: u8) -> bool {
    b == 0x79 || b == 0x59 || b == 0x78
}

proof fn lemma_same_rows(m: MenuView, w: MenuView)
    requires
        m.hosts == w.hosts,
        m.all == w.all,
        m.every == w.every,
    ensures
        rows_of(m) == rows_of(w),
{
}

proof fn lemma_row_is_there(m: MenuView, k: int)
    requires
        fits(m),
        0 <= k < rows_of(m).len(),
    ensures
        row_ok(m, rows_of(m)[k]),
{
    lemma_host_rows(m.hosts, m.all, m.hosts.len());
}

/// What one byte does: the sessions stay, an attach without force is of a detached
/// session, ending answers a question, a question is asked by an `x`, and leaving is
/// with one of two codes.
proof fn lemma_byte(m: MenuView, b: u8, now: u64)
    requires
        fits(m),
        m.cursor < rows_of(m).len(),
    ensures
        ({
            let (n, c) = typed(m, b, now);
            &&& n.hosts == m.hosts
            &&& n.every == m.every
            &&& fits(n)
            &&& n.cursor < rows_of(n).len()
            &&& c matches Some(ChoiceView::Attach { host, name, force: false }) ==> has_detached(
                m,
                host,
                name,
            )
            &&& c matches Some(ChoiceView::Kill { host, name }) ==> m.ask == Some(
                AskView::Kill(host, name),
            ) && ends(b)
            &&& c matches Some(ChoiceView::Leave(code)) ==> code == 0 || code == 130 && b == 3
            &&& n.ask matches Some(AskView::Kill(h, name)) ==> n.ask == m.ask || m.ask is None && b
                == 0x78
        }),
{
    let (n, c) = typed(m, b, now);
    let p = super::noted(m, Seq::empty());
    lemma_same_rows(m, p);
    lemma_row_is_there(m, m.cursor as int);
    if 0x31 <= b <= 0x39 && b - 0x31 < rows_of(m).len() {
        lemma_row_is_there(m, b - 0x31);
    }
    if n.all == m.all {
        lemma_same_rows(m, n);
    } else {
        let w = MenuView { all: !p.all, ..p };
        lemma_same_rows(w, MenuView { all: w.all, ..m });
        law_the_cursor_stays_on_its_row(p, w);
        lemma_same_rows(n, w);
    }
    lemma_same_rows(MenuView { all: true, ..m }, MenuView { all: true, ..n });
    lemma_same_rows(MenuView { all: false, ..m }, MenuView { all: false, ..n });
    if let Some(ChoiceView::Attach { host, name, force: false }) = c {
        let k = if 0x31 <= b <= 0x39 {
            b - 0x31
        } else {
            m.cursor as int
        };
        if let Row::Session(h, i) = rows_of(m)[k] {
            assert(sessions_of(m.hosts[h as int])[i as int].name == name);
        }
    }
}

proof fn lemma_after_one(m: MenuView, input: Seq<u8>, k: int, now: u64)
    requires
        input.len() > 0,
        0 <= k < input.len(),
    ensures
        after(typed(m, input[0], now).0, input.skip(1), k, now) == after(m, input, k + 1, now),
    decreases k,
{
    if k > 0 {
        lemma_after_one(m, input, k - 1, now);
        assert(input.skip(1)[k - 1] == input[k]);
    } else {
        assert(after(m, input, 0, now) == m);
    }
}

/// A session is ended by one byte of what is typed: the answer to a question that was
/// open before, or that an `x` among what was typed asked.
pub open spec fn ended_by(
    m: MenuView,
    input: Seq<u8>,
    now: u64,
    h: usize,
    name: Seq<char>,
    k: int,
) -> bool {
    let ask = Some(AskView::Kill(h, name));
    &&& 0 <= k < input.len()
    &&& ends(input[k])
    &&& after(m, input, k, now).ask == ask
    &&& m.ask == ask || exists|j: int|
        0 <= j < k && #[trigger] input[j] == 0x78 && after(m, input, j, now).ask is None && after(
            m,
            input,
            j + 1,
            now,
        ).ask == ask
}

/// Whatever is typed, and in whatever state: the sessions stay as they are. An attach
/// without force is of a session that nobody is attached to. A session is ended only by
/// a yes, or a second `x`, to a question that an `x` asked. Leaving is with 0, or with
/// 130 for a Ctrl-C.
pub proof fn law_what_is_typed_chooses(m: MenuView, input: Seq<u8>, now: u64)
    requires
        fits(m),
        m.cursor < rows_of(m).len(),
    ensures
        ({
            let (n, c) = typed_all(m, input, now);
            &&& n.hosts == m.hosts
            &&& c matches Some(ChoiceView::Attach { host, name, force: false }) ==> has_detached(
                m,
                host,
                name,
            )
            &&& c matches Some(ChoiceView::Kill { host, name }) ==> exists|k: int| #[trigger]
                ended_by(m, input, now, host, name, k)
            &&& c matches Some(ChoiceView::Leave(code)) ==> code == 0 || code == 130
                && input.contains(3)
        }),
    decreases input.len(),
{
    if input.len() > 0 {
        let (n, c) = typed(m, input[0], now);
        lemma_byte(m, input[0], now);
        let rest = input.skip(1);
        match c {
            Some(ChoiceView::Kill { host, name }) => {
                assert(after(m, input, 0, now) == m);
                assert(ended_by(m, input, now, host, name, 0));
            },
            Some(_) => {
                assert(input[0] == 3 ==> input.contains(3));
            },
            None => {
                law_what_is_typed_chooses(n, rest, now);
                match typed_all(n, rest, now).1 {
                    Some(ChoiceView::Kill { host, name }) => {
                        let ask = Some(AskView::Kill(host, name));
                        let k = choose|k: int| #[trigger] ended_by(n, rest, now, host, name, k);
                        lemma_after_one(m, input, k, now);
                        assert(rest[k] == input[k + 1]);
                        if m.ask != ask {
                            if n.ask == ask {
                                assert(after(m, input, 0, now) == m);
                                assert(after(m, input, 1, now) == n);
                                assert(input[0] == 0x78);
                            } else {
                                let j = choose|j: int|
                                    0 <= j < k && #[trigger] rest[j] == 0x78 && after(
                                        n,
                                        rest,
                                        j,
                                        now,
                                    ).ask is None && after(n, rest, j + 1, now).ask == ask;
                                lemma_after_one(m, input, j, now);
                                lemma_after_one(m, input, j + 1, now);
                                assert(input[j + 1] == 0x78);
                            }
                        }
                        assert(ended_by(m, input, now, host, name, k + 1));
                    },
                    Some(ChoiceView::Leave(code)) => {
                        if code == 130 {
                            let k = choose|k: int| 0 <= k < rest.len() && rest[k] == 3;
                            assert(input[k + 1] == 3);
                        }
                    },
                    _ => {},
                }
            },
        }
    }
}

// ---- what is offered -------------------------------------------------------

proof fn lemma_session_offered(h: int, s: Seq<StatusView>, all: bool, n: nat, i: int)
    requires
        0 <= h <= usize::MAX,
        n <= s.len() <= usize::MAX,
        0 <= i < n,
        all || !s[i].attached,
    ensures
        session_rows(h, s, all, n).contains(Row::Session(h as usize, i as usize)),
    decreases n,
{
    let rows = session_rows(h, s, all, n);
    if i == n - 1 {
        assert(rows.last() == Row::Session(h as usize, i as usize));
        assert(rows.contains(rows.last()));
    } else {
        lemma_session_offered(h, s, all, (n - 1) as nat, i);
        let less = session_rows(h, s, all, (n - 1) as nat);
        let k = choose|k: int| 0 <= k < less.len() && less[k] == Row::Session(h as usize, i as usize);
        assert(rows[k] == less[k]);
    }
}

proof fn lemma_offered(hosts: Seq<HostView>, all: bool, n: nat, h: int, i: int)
    requires
        n <= hosts.len() <= usize::MAX,
        0 <= h < n,
        0 <= i < sessions_of(hosts[h]).len() <= usize::MAX,
        all || !sessions_of(hosts[h])[i].attached,
    ensures
        host_rows(hosts, all, n).contains(Row::Session(h as usize, i as usize)),
    decreases n,
{
    let s = sessions_of(hosts[n - 1]);
    let before = host_rows(hosts, all, (n - 1) as nat);
    let more = session_rows(n - 1, s, all, s.len());
    let row = Row::Session(h as usize, i as usize);
    if h == n - 1 {
        lemma_session_offered(h, s, all, s.len(), i);
        let k = choose|k: int| 0 <= k < more.len() && more[k] == row;
        assert(host_rows(hosts, all, n)[before.len() + k] == row);
    } else {
        lemma_offered(hosts, all, (n - 1) as nat, h, i);
        let k = choose|k: int| 0 <= k < before.len() && before[k] == row;
        assert(host_rows(hosts, all, n)[k] == row);
    }
}

proof fn lemma_session_shown(h: int, s: Seq<StatusView>, all: bool, n: nat)
    requires
        n <= s.len() <= usize::MAX,
    ensures
        forall|k: int|
            0 <= k < session_rows(h, s, all, n).len() ==> (#[trigger] session_rows(h, s, all, n)[k])
                is Session && (all || !s[session_rows(h, s, all, n)[k]->1 as int].attached)
                && session_rows(h, s, all, n)[k]->0 == h as usize,
    decreases n,
{
    if n > 0 {
        lemma_session_shown(h, s, all, (n - 1) as nat);
    }
}

proof fn lemma_shown(hosts: Seq<HostView>, all: bool, n: nat)
    requires
        n <= hosts.len() <= usize::MAX,
        forall|i: int|
            0 <= i < hosts.len() ==> sessions_of(#[trigger] hosts[i]).len() <= usize::MAX,
    ensures
        forall|k: int|
            0 <= k < host_rows(hosts, all, n).len() ==> (#[trigger] host_rows(hosts, all, n)[k])
                is Session && (all || !sessions_of(
                hosts[host_rows(hosts, all, n)[k]->0 as int],
            )[host_rows(hosts, all, n)[k]->1 as int].attached),
    decreases n,
{
    if n > 0 {
        lemma_shown(hosts, all, (n - 1) as nat);
        let s = sessions_of(hosts[n - 1]);
        lemma_session_shown(n - 1, s, all, s.len());
        let before = host_rows(hosts, all, (n - 1) as nat);
        let more = session_rows(n - 1, s, all, s.len());
        assert forall|k: int| 0 <= k < host_rows(hosts, all, n).len() implies (
        #[trigger] host_rows(hosts, all, n)[k]) is Session && (all || !sessions_of(
            hosts[host_rows(hosts, all, n)[k]->0 as int],
        )[host_rows(hosts, all, n)[k]->1 as int].attached) by {
            if k < before.len() {
                assert(host_rows(hosts, all, n)[k] == before[k]);
            } else {
                assert(host_rows(hosts, all, n)[k] == more[k - before.len()]);
            }
        }
    }
}

/// Every session that nobody is attached to is offered, on whichever host it is; one that
/// somebody is attached to exactly where all are asked for. The last row leaves, and a new
/// session can be made from the menu of one host.
pub proof fn law_every_free_session_is_offered(m: MenuView, h: int, i: int)
    requires
        m.hosts.len() <= usize::MAX,
        forall|k: int|
            0 <= k < m.hosts.len() ==> sessions_of(#[trigger] m.hosts[k]).len() <= usize::MAX,
        0 <= h < m.hosts.len(),
        0 <= i < sessions_of(m.hosts[h]).len(),
    ensures
        rows_of(m).contains(Row::Session(h as usize, i as usize)) <==> m.all || !sessions_of(
            m.hosts[h],
        )[i].attached,
        rows_of(m).last() == Row::Exit,
        rows_of(m).contains(Row::New) <==> !m.every,
{
    let rows = host_rows(m.hosts, m.all, m.hosts.len());
    let all = rows_of(m);
    let row = Row::Session(h as usize, i as usize);
    lemma_shown(m.hosts, m.all, m.hosts.len());
    if m.all || !sessions_of(m.hosts[h])[i].attached {
        lemma_offered(m.hosts, m.all, m.hosts.len(), h, i);
        let k = choose|k: int| 0 <= k < rows.len() && rows[k] == row;
        assert(all[k] == row);
    }
    if all.contains(row) {
        let k = choose|k: int| 0 <= k < all.len() && all[k] == row;
        assert(k < rows.len());
        assert(rows[k] == row);
    }
    if !m.every {
        assert(all[rows.len() as int] == Row::New);
    }
    if all.contains(Row::New) && m.every {
        let k = choose|k: int| 0 <= k < all.len() && all[k] == Row::New;
        assert(k < rows.len() ==> rows[k] is Session);
    }
}

/// In the menu of one host, the row of a session tells of that session.
pub proof fn law_a_row_tells_of_its_session(m: MenuView, now: u64, i: usize)
    requires
        !m.every,
        m.hosts.len() > 0,
        i < sessions_of(m.hosts[0]).len(),
    ensures
        tells_of(
            label(m, now, Row::Session(0, i)),
            session_at(m, 0, i),
            now,
            col_widths(head(), cells_of_all(sessions_of(m.hosts[0]), now)),
        ),
{
    law_every_session_has_its_line(sessions_of(m.hosts[0]), now);
    assert(tells_of(
        crate::list::lines_of(sessions_of(m.hosts[0]), now)[i as int + 1],
        sessions_of(m.hosts[0])[i as int],
        now,
        col_widths(head(), cells_of_all(sessions_of(m.hosts[0]), now)),
    ));
}

/// A host's answer is that host's: its sessions are replaced, every other host's stay, and
/// so does what the user has asked for.
pub proof fn law_an_answer_is_its_host_s(m: MenuView, h: int, a: AnswerView, k: int)
    requires
        0 <= h < m.hosts.len(),
        0 <= k < m.hosts.len(),
    ensures
        ({
            let n = with_answer(m, h, a);
            &&& n.hosts.len() == m.hosts.len()
            &&& n.hosts[h].answer == a
            &&& n.hosts[k].name == m.hosts[k].name
            &&& k != h ==> n.hosts[k] == m.hosts[k]
            &&& n.all == m.all && n.every == m.every && n.ask == m.ask && n.force == m.force
        }),
{
}

/// Enter takes the row the cursor is on: a session that nobody is attached to is attached
/// to, by its name and on its host; one that somebody is attached to is asked about first,
/// unless a takeover was asked for before the menu.
pub proof fn law_enter_takes_the_row(m: MenuView, h: usize, i: usize)
    requires
        m.ask is None,
        m.cursor < rows_of(m).len(),
        rows_of(m)[m.cursor as int] == Row::Session(h, i),
    ensures
        ({
            let s = session_at(m, h, i);
            let (n, choice) = pressed(m, Key::Byte(0x0d));
            &&& !s.attached ==> choice == Some(
                ChoiceView::Attach { host: h, name: s.name, force: false },
            )
            &&& s.attached && m.force ==> choice == Some(
                ChoiceView::Attach { host: h, name: s.name, force: true },
            )
            &&& s.attached && !m.force ==> choice is None && n.ask == Some(
                AskView::Takeover(h, s.name),
            ) && pressed(n, Key::Byte(0x79)).1 == Some(
                ChoiceView::Attach { host: h, name: s.name, force: true },
            )
        }),
{
    let quiet = super::noted(m, Seq::empty());
    assert(rows_of(quiet) == rows_of(m));
}

} // verus!
