//! The session menu.

use acs::list;
use acs::menu::screen::{clip, width};
use acs::menu::{Answer, Choice, Menu, ESC_WAIT_MS};
use acs::proto::StatusInfo;

fn info(name: &str, attached: bool) -> StatusInfo {
    StatusInfo {
        name: name.into(),
        attached,
        identity: "alice@laptop".into(),
        command: "sh".into(),
        ..Default::default()
    }
}

/// `main` and `work` detached, `busy` attached.
fn menu() -> Menu {
    Menu::new(
        vec![info("main", false), info("busy", true), info("work", false)],
        false,
    )
}

fn attach(name: &str) -> Option<Choice> {
    Some(Choice::Attach {
        host: 0,
        name: name.into(),
        force: false,
    })
}

#[test]
fn a_number_attaches_its_session() {
    assert_eq!(menu().feed(b"1", 0), attach("main"));
    // Attached sessions are hidden, so work is the second.
    assert_eq!(menu().feed(b"2", 0), attach("work"));
    // No third session: nothing happens.
    let mut m = menu();
    assert_eq!(m.feed(b"3", 0), None);
    assert_eq!(m.cursor, 0);
}

#[test]
fn the_cursor_moves_with_arrows_and_vim_keys_and_enter_chooses() {
    for down in [&b"j"[..], b"\x1b[B", b"\x1bOB"] {
        let mut m = menu();
        assert_eq!(m.feed(down, 0), None, "{down:?}");
        assert_eq!(m.feed(b"\r", 0), attach("work"), "{down:?}");
    }
    let mut m = menu();
    m.feed(b"jjk", 0);
    assert_eq!(m.feed(b"\x1b[A\r", 0), attach("main"));
    // The cursor stops at the ends: exit is the last row.
    let mut m = menu();
    m.feed(b"kkk", 0);
    assert_eq!(m.cursor, 0);
    m.feed(b"jjjjjjj", 0);
    assert_eq!(m.feed(b"\r", 0), Some(Choice::Leave(0)));
}

#[test]
fn the_new_session_row_and_n_create_one() {
    let mut m = menu();
    m.feed(b"jj", 0);
    assert_eq!(m.feed(b"\r", 0), Some(Choice::New { host: 0 }));
    assert_eq!(menu().feed(b"n", 0), Some(Choice::New { host: 0 }));
    // n on the new-session row makes one too: it is that row's key.
    let mut m = menu();
    m.feed(b"jj", 0);
    assert_eq!(m.feed(b"n", 0), Some(Choice::New { host: 0 }));
}

/// The key bar the menu draws at the foot: the line before the note.
fn key_bar(m: &Menu) -> String {
    let screen = m.render("devbox", 0, 200, 30);
    let lines: Vec<String> = screen
        .split("\r\n")
        .map(|l| {
            let l = l.replace("\x1b[H", "").replace("\x1b[7m", "");
            l.split('\x1b').next().unwrap().to_string()
        })
        .collect();
    lines[lines.len() - 2].clone()
}

/// The bar names only the keys that act on the row under the
/// cursor — no x or n on the new-session and exit rows, and Enter named
/// for what it does there.
#[test]
fn the_key_bar_offers_only_the_keys_for_the_row_under_the_cursor() {
    // A session row: every key acts, and the bar reads as it always has.
    assert_eq!(
        key_bar(&menu()),
        "1-9, or ↑↓ jk and Enter: attach   .: all   x: end   n: new   Esc: leave"
    );
    // The new-session row: no x, and Enter is the row's own action.
    let mut m = menu();
    m.feed(b"jj", 0);
    assert_eq!(
        key_bar(&m),
        "1-9: attach   ↑↓ jk: move   Enter or n: new session   .: all   Esc: leave"
    );
    // The exit row: neither x nor n.
    let mut m = menu();
    m.feed(b"jjj", 0);
    assert_eq!(
        key_bar(&m),
        "1-9: attach   ↑↓ jk: move   .: all   Enter or Esc: leave"
    );
    // The menu of every host before any host answers is the exit row
    // alone: nothing to attach and nowhere to move either.
    assert_eq!(key_bar(&every()), ".: all   Enter or Esc: leave");
}

/// On the exit row n does not make a session and x does not
/// ask; each only says what it would act on, and nothing else changes.
#[test]
fn n_and_x_do_nothing_on_the_exit_row() {
    /// The screen down to the blank line under the rows.
    fn rows(m: &Menu) -> Vec<String> {
        let screen = m.render("devbox", 0, 200, 30);
        screen.split("\r\n").take(8).map(String::from).collect()
    }
    let mut m = menu();
    m.feed(b"jjj", 0);
    let before = rows(&m);
    assert_eq!(m.feed(b"n", 0), None);
    assert_eq!(m.cursor, 3);
    assert_eq!(m.note, "the 'new session' row above makes a new session");
    assert_eq!(m.feed(b"x", 0), None);
    assert!(m.ask.is_none());
    assert_eq!(m.note, "x ends the session under the cursor");
    assert_eq!(rows(&m), before);
    // Enter on the row still leaves.
    assert_eq!(m.feed(b"\r", 0), Some(Choice::Leave(0)));
}

#[test]
fn esc_leaves_once_nothing_follows_it() {
    let mut m = menu();
    assert_eq!(m.feed(b"\x1b", 1000), None);
    assert_eq!(m.deadline(), Some(1000 + ESC_WAIT_MS));
    assert_eq!(m.tick(1050), None);
    assert_eq!(m.tick(1000 + ESC_WAIT_MS), Some(Choice::Leave(0)));
    // Esc leaves during a question too.
    let mut m = menu();
    m.feed(b"x", 0);
    m.feed(b"\x1b", 0);
    assert_eq!(m.tick(ESC_WAIT_MS), Some(Choice::Leave(0)));
    // ESC then another key at once is Esc as well (Alt+key).
    assert_eq!(menu().feed(b"\x1bj", 0), Some(Choice::Leave(0)));
}

#[test]
fn an_arrow_split_across_reads_is_not_esc() {
    let mut m = menu();
    assert_eq!(m.feed(b"\x1b", 0), None);
    assert_eq!(m.feed(b"[", 40), None);
    assert_eq!(m.feed(b"B", 60), None);
    assert_eq!(m.deadline(), None);
    assert_eq!(m.tick(1000), None);
    assert_eq!(m.cursor, 1);
    // An incomplete sequence the clock runs out on is dropped, not Esc.
    let mut m = menu();
    m.feed(b"\x1b[1;", 0);
    assert_eq!(m.tick(ESC_WAIT_MS), None);
    assert_eq!(m.feed(b"1", 200), attach("main"));
    // Other keys' sequences do nothing.
    let mut m = menu();
    assert_eq!(m.feed(b"\x1b[C\x1b[15~\x1bOP", 0), None);
    assert_eq!(m.cursor, 0);
}

#[test]
fn ctrl_c_leaves_with_130() {
    assert_eq!(menu().feed(b"\x03", 0), Some(Choice::Leave(130)));
}

#[test]
fn dot_shows_attached_sessions_and_taking_one_over_asks_first() {
    let mut m = menu();
    m.feed(b"j", 0); // on work
    m.feed(b".", 0);
    // Still on work, now the third row.
    assert_eq!(m.cursor, 2);
    assert_eq!(m.feed(b"2", 0), None);
    assert!(
        m.note.contains("'busy' is attached from alice@laptop"),
        "{}",
        m.note
    );
    assert_eq!(
        m.feed(b"y", 0),
        Some(Choice::Attach {
            host: 0,
            name: "busy".into(),
            force: true
        })
    );
    // Any other key is a no.
    let mut m = menu();
    m.feed(b".2", 0);
    assert_eq!(m.feed(b"n", 0), None);
    assert!(m.note.is_empty());
    // `.` again hides them.
    m.feed(b".", 0);
    assert_eq!(m.feed(b"2", 0), attach("work"));
}

#[test]
fn force_takes_over_without_asking() {
    let mut m = Menu::new(vec![info("busy", true)], true);
    assert_eq!(
        m.feed(b".1", 0),
        Some(Choice::Attach {
            host: 0,
            name: "busy".into(),
            force: true
        })
    );
}

#[test]
fn x_asks_before_ending_a_session() {
    let mut m = menu();
    m.feed(b"jx", 0);
    assert!(m.note.contains("end session 'work'?"), "{}", m.note);
    assert_eq!(
        m.feed(b"y", 0),
        Some(Choice::Kill {
            host: 0,
            name: "work".into()
        })
    );
    // x twice is a yes too.
    assert_eq!(
        menu().feed(b"xx", 0),
        Some(Choice::Kill {
            host: 0,
            name: "main".into()
        })
    );
    // Anything else keeps it.
    let mut m = menu();
    assert_eq!(m.feed(b"xk", 0), None);
    assert!(m.note.is_empty());
    // Not on the new-session or exit rows.
    let mut m = menu();
    m.feed(b"jjx", 0);
    assert_eq!(m.feed(b"y", 0), None);
}

#[test]
fn the_menu_follows_an_ended_session() {
    let mut m = menu();
    m.feed(b"j", 0); // on work
    m.set_sessions(0, vec![info("busy", true), info("work", false)]);
    assert_eq!(m.cursor, 0, "still on work");
    m.set_sessions(0, vec![info("busy", true)]);
    // work went: the cursor is on what took its row, the new-session one.
    assert_eq!(m.feed(b"\r", 0), Some(Choice::New { host: 0 }));
}

#[test]
fn more_than_nine_sessions_number_the_first_nine() {
    let names: Vec<String> = (1..=12).map(|n| format!("s{n}")).collect();
    let mut m = Menu::new(names.iter().map(|n| info(n, false)).collect(), false);
    assert_eq!(m.feed(b"9", 0), attach("s9"));
    let mut m = Menu::new(names.iter().map(|n| info(n, false)).collect(), false);
    m.feed(&[b'j'; 11], 0);
    assert_eq!(m.feed(b"\r", 0), attach("s12"));
    let screen = m.render("devbox", 0, 80, 40);
    assert!(screen.contains("  9  s9 "), "{screen:?}");
    assert!(screen.contains("     s10 "), "{screen:?}");
}

#[test]
fn the_screen_shows_the_list_the_cursor_and_the_note() {
    let mut m = menu();
    m.feed(b"jx", 0);
    let screen = m.render("devbox", 0, 80, 24);
    let lines: Vec<&str> = screen.split("\r\n").collect();
    assert!(lines[0].starts_with("\x1b[Hacs: detached sessions on devbox"));
    assert!(lines[2].starts_with("     NAME  STATE"), "{lines:?}");
    assert!(
        lines[3].starts_with("  1  main  detached  (alice@laptop)"),
        "{lines:?}"
    );
    assert!(
        lines[4].starts_with("\x1b[7m> 2  work  detached"),
        "{lines:?}"
    );
    assert!(lines[5].starts_with("  n  new session"), "{lines:?}");
    assert!(lines[6].starts_with("     exit"), "{lines:?}");
    assert!(lines[9].starts_with("end session 'work'?"), "{lines:?}");
    assert!(screen.ends_with("\x1b[K\x1b[J"));
    // Nothing longer than the terminal is wide.
    let narrow = m.render("devbox", 0, 12, 24);
    for l in narrow.split("\r\n") {
        let text = l.replace("\x1b[H", "").replace("\x1b[7m", "");
        let text = text.split('\x1b').next().unwrap();
        assert!(text.chars().count() <= 12, "{l:?}");
    }
}

/// The reversed bar on a screen: the cursor's row, padding included.
fn bar(screen: &str) -> &str {
    let start = screen.find("\x1b[7m").expect("no bar") + 4;
    let len = screen[start..].find("\x1b[0m").expect("an open bar");
    &screen[start..start + len]
}

/// The bar keeps one width as the cursor moves — the widest
/// row's, or the terminal's if that is narrower.
#[test]
fn the_bar_is_as_wide_as_the_widest_row_on_every_row() {
    let mut long = info("work", false);
    long.command = "htop --delay 10 --sort-key PERCENT_CPU".into();
    let mut m = Menu::new(vec![info("main", false), long], false);
    // main, work, new session, exit.
    let mut bars = Vec::new();
    let mut narrow = Vec::new();
    for _ in 0..4 {
        bars.push(bar(&m.render("devbox", 0, 120, 24)).to_string());
        narrow.push(bar(&m.render("devbox", 0, 30, 24)).to_string());
        m.feed(b"j", 0);
    }
    let widest = width(&bars[1]);
    assert!(bars[1].ends_with("PERCENT_CPU"), "{:?}", bars[1]);
    assert!(bars[1].starts_with("> 2  work"), "{:?}", bars[1]);
    for b in &bars {
        assert_eq!(width(b), widest, "{bars:?}");
    }
    // The short rows are padded with spaces to it.
    assert!(bars[3].starts_with(">    exit   "), "{:?}", bars[3]);
    assert_eq!(bars[3].trim_end(), ">    exit");
    assert!(bars[0].starts_with("> 1  main"), "{:?}", bars[0]);
    // Narrower than the widest row: the terminal's width, and no wrap.
    for b in &narrow {
        assert_eq!(width(b), 30, "{narrow:?}");
    }
}

#[test]
fn widths_count_terminal_columns() {
    assert_eq!(width("exit"), 4);
    assert_eq!(width("日本"), 4);
    assert_eq!(width("e\u{301}"), 1);
    assert_eq!(width("🦀x"), 3);
    assert_eq!(clip("日本語", 5), "日本");
    assert_eq!(clip("日本語", 6), "日本語");
    assert_eq!(clip("abc", 5), "abc");
    assert_eq!(clip("abc", 0), "");
    // A wide command is clipped and padded in columns, not characters.
    let mut wide = info("jp", false);
    wide.command = "vim 日本語.txt".into();
    let m = Menu::new(vec![wide, info("main", false)], false);
    let b = m.render("devbox", 0, 80, 24);
    let widest = 5 + width(list::lines(m.sessions(0), 0)[1].as_str());
    assert_eq!(width(bar(&b)), widest, "{:?}", bar(&b));
    let clipped = m.render("devbox", 0, 20, 24);
    assert!(width(bar(&clipped)) <= 20, "{:?}", bar(&clipped));
}

/// Devbox, nas, pi and old, as `acs list` asks them.
fn every() -> Menu {
    Menu::every_host(
        ["devbox", "nas", "pi", "old"].map(String::from).to_vec(),
        false,
    )
}

/// The screen's lines after the heading, without the escapes.
fn shown(m: &Menu) -> Vec<String> {
    let screen = m.render("", 0, 100, 30);
    screen
        .split("\r\n")
        .map(|l| {
            let l = l.replace("\x1b[H", "").replace("\x1b[7m", "");
            l.split('\x1b').next().unwrap().to_string()
        })
        .collect()
}

#[test]
fn every_host_rows_arrive_as_hosts_answer_in_configuration_order() {
    let mut m = every();
    let lines = shown(&m);
    assert_eq!(lines[0], "acs: detached sessions on every host");
    assert!(lines[2].starts_with("     HOST  NAME  STATE"), "{lines:?}");
    // Nothing yet but the exit row and a line per host being asked.
    assert!(lines[3].starts_with(">    exit"), "{lines:?}");
    assert_eq!(lines[5], "     asking devbox…");
    assert_eq!(lines[8], "     asking old…");
    // nas answers first; its session is the first row.
    m.set_answer(1, Answer::Sessions(vec![info("work", false)]));
    assert!(shown(&m)[3].starts_with("> 1  nas   work  detached"));
    // devbox answers: its rows come first, in configuration order, and
    // the cursor stays on nas's work.
    m.set_answer(
        0,
        Answer::Sessions(vec![info("main", false), info("busy", true)]),
    );
    m.set_answer(2, Answer::Line("no sessions on pi (not installed)".into()));
    m.set_answer(
        3,
        Answer::Line("old: no host for 'old' is reachable".into()),
    );
    let lines = shown(&m);
    assert!(
        lines[3].starts_with("  1  devbox  main  detached"),
        "{lines:?}"
    );
    assert!(
        lines[4].starts_with("> 2  nas     work  detached"),
        "{lines:?}"
    );
    assert!(lines[5].starts_with("     exit"), "{lines:?}");
    assert!(
        !lines.iter().any(|l| l.contains("new session")),
        "{lines:?}"
    );
    assert_eq!(
        lines[7..9],
        [
            "     no sessions on pi (not installed)",
            "     old: no host for 'old' is reachable",
        ]
    );
    assert!(lines[10].contains("n: new there"), "{lines:?}");
    // A host with only attached sessions says so until `.` shows them.
    let mut m = every();
    m.set_answer(0, Answer::Sessions(vec![info("busy", true)]));
    m.set_answer(1, Answer::Sessions(vec![]));
    let lines = shown(&m);
    assert!(lines.contains(
        &"     no detached sessions on devbox (1 attached: . shows them)".to_string()
    ));
    assert!(lines.contains(&"     no sessions on nas".to_string()));
    m.feed(b".", 0);
    let lines = shown(&m);
    assert_eq!(lines[0], "acs: all sessions on every host");
    // Shown now; the cursor keeps its row (exit), as `.` always does.
    assert!(
        lines[3].starts_with("  1  devbox  busy  attached"),
        "{lines:?}"
    );
}

#[test]
fn every_host_choices_name_their_host() {
    let mut m = every();
    m.set_answer(0, Answer::Sessions(vec![info("main", false)]));
    m.set_answer(
        1,
        Answer::Sessions(vec![info("main", false), info("busy", true)]),
    );
    // The same name on two hosts: the number picks the row's host.
    assert_eq!(
        m.feed(b"2", 0),
        Some(Choice::Attach {
            host: 1,
            name: "main".into(),
            force: false
        })
    );
    // n makes a new session on the cursor's host; on exit it explains.
    let mut m = every();
    m.set_answer(1, Answer::Sessions(vec![info("work", false)]));
    assert_eq!(m.feed(b"n", 0), Some(Choice::New { host: 1 }));
    m.feed(b"j", 0);
    assert_eq!(m.feed(b"n", 0), None);
    assert!(shown(&m)
        .iter()
        .any(|l| l.starts_with("n makes a new session")));
    // x asks with the host named and ends that host's session.
    m.feed(b"k", 0);
    assert_eq!(m.feed(b"x", 0), None);
    assert!(
        shown(&m)
            .iter()
            .any(|l| l.starts_with("end session 'work' on nas?")),
        "{:?}",
        shown(&m)
    );
    assert_eq!(
        m.feed(b"y", 0),
        Some(Choice::Kill {
            host: 1,
            name: "work".into()
        })
    );
    // Its answer comes back for that host only; the others keep theirs.
    m.set_sessions(1, vec![]);
    assert_eq!(m.sessions(1), &[]);
    assert_eq!(m.host_name(1), "nas");
    // Taking over asks with the host named.
    let mut m = every();
    m.set_answer(2, Answer::Sessions(vec![info("busy", true)]));
    m.feed(b".1", 0);
    assert!(shown(&m)
        .iter()
        .any(|l| l.starts_with("session 'busy' on pi is attached from alice@laptop")));
    assert_eq!(
        m.feed(b"y", 0),
        Some(Choice::Attach {
            host: 2,
            name: "busy".into(),
            force: true
        })
    );
}

#[test]
fn a_short_screen_scrolls_to_the_cursor() {
    let names: Vec<String> = (1..=20).map(|n| format!("s{n}")).collect();
    let mut m = Menu::new(names.iter().map(|n| info(n, false)).collect(), false);
    m.feed(&[b'j'; 15], 0);
    let screen = m.render("devbox", 0, 80, 10);
    assert_eq!(screen.split("\r\n").count(), 10, "{screen:?}");
    assert!(screen.contains("\x1b[7m>    s16 "), "{screen:?}");
    assert!(!screen.contains("s1 "), "{screen:?}");
}

#[test]
fn what_is_typed_at_once_chooses_as_it_does_key_by_key() {
    // Behind a choice nothing is read.
    assert_eq!(menu().feed(b"1xx", 0), attach("main"));
    // Of two keys one asks and one answers; another answer ends nothing.
    assert_eq!(
        menu().feed(b"jxyj", 0),
        Some(Choice::Kill { host: 0, name: "work".into() })
    );
    assert_eq!(menu().feed(b"yyxny", 0), None);
    assert_eq!(menu().feed(b"x\x1b[By", 0), None);
    // Only a Ctrl-C leaves with 130.
    assert_eq!(menu().feed(b"jj\x03", 0), Some(Choice::Leave(130)));
    assert_eq!(menu().feed(b"jjj\r", 0), Some(Choice::Leave(0)));
    // An attached session is attached to with force only.
    for keys in [&b".1"[..], b".2", b".3", b".\r", b".j\r", b".jj\r", b".2y", b".j\ry"] {
        if let Some(Choice::Attach { name, force, .. }) = menu().feed(keys, 0) {
            assert_eq!(force, name == "busy", "{keys:?}");
        }
    }
}
