//! The command key.

use acs::keys::{Action, Config, Detector, PasteTracker, MAX_STR, PENDING_MS};

#[test]
fn the_paste_tracker_follows_markers_split_anywhere() {
    let input: &[u8] = b"ls\x1b[200~pasted\x1b[201~\x1b[200~more";
    let open_after = |sent: &[u8]| {
        let mut p = PasteTracker::default();
        p.feed(sent);
        p.open()
    };
    assert!(!open_after(b"ls\x0c\x1b[A"));
    assert!(open_after(input));
    assert!(!open_after(&input[..input.len() - 10]), "closed again");
    assert!(!open_after(b"\x1b[200"), "half a marker opens nothing");
    for split in 0..=input.len() {
        let mut p = PasteTracker::default();
        p.feed(&input[..split]);
        p.feed(&input[split..]);
        assert!(p.open(), "split at {split}");
    }
    // One byte at a time, and the end marker after it.
    let mut p = PasteTracker::default();
    for b in input.iter().chain(b"\x1b[201~") {
        p.feed(std::slice::from_ref(b));
    }
    assert!(!p.open());
}

const CB: u8 = 0x1d;

/// Feed a script of (time, bytes) steps, ticking before each; returns all
/// forwarded bytes and the first action.
fn run(steps: &[(u64, &[u8])], end: u64) -> (Vec<u8>, Option<Action>) {
    let mut d = Detector::new(Config::default());
    let mut fwd = Vec::new();
    for (t, bytes) in steps {
        let o = d.feed(bytes, *t);
        fwd.extend(o.forward);
        if o.action.is_some() {
            return (fwd, o.action);
        }
    }
    let o = d.tick(end);
    fwd.extend(o.forward);
    (fwd, o.action)
}

#[test]
fn plain_input_passes_straight_through() {
    let mut d = Detector::new(Config::default());
    let o = d.feed(b"ls -l\r", 0);
    assert_eq!(o.forward, b"ls -l\r");
    assert_eq!(d.deadline(), None);
}

#[test]
fn lone_escape_key_is_held_then_forwarded_after_the_window() {
    let mut d = Detector::new(Config::default());
    assert!(d.feed(&[CB], 0).forward.is_empty());
    assert_eq!(d.deadline(), Some(400));
    assert!(d.tick(399).forward.is_empty());
    assert_eq!(d.tick(400).forward, vec![CB]);
    assert_eq!(d.deadline(), None);
}

#[test]
fn escape_then_other_key_sends_both_immediately() {
    assert_eq!(run(&[(0, &[CB]), (100, b"a")], 100), (vec![CB, b'a'], None));
    assert_eq!(run(&[(0, &[CB, b'q'])], 0), (vec![CB, b'q'], None));
}

#[test]
fn double_tap_then_d_detaches_and_x_exits() {
    assert_eq!(
        run(&[(0, &[CB]), (200, &[CB]), (900, b"d")], 900),
        (vec![], Some(Action::Detach))
    );
    assert_eq!(
        run(&[(0, &[CB, CB, b'x'])], 0),
        (vec![], Some(Action::Exit))
    );
    assert_eq!(
        run(&[(0, &[CB, CB, b'D'])], 0),
        (vec![], Some(Action::Detach))
    );
}

#[test]
fn armed_from_the_double_tap_until_the_key_or_the_timeout() {
    let mut d = Detector::new(Config::default());
    d.feed(&[CB], 0);
    assert!(!d.armed(), "one press is not command mode");
    d.feed(&[CB], 100);
    assert!(d.armed());
    d.tick(2100);
    assert!(!d.armed(), "timed out");

    let mut d = Detector::new(Config::default());
    d.feed(&[CB, CB], 0);
    assert!(d.armed());
    d.feed(b"q", 10);
    assert!(!d.armed(), "an unknown key ends it");

    // Never inside a paste.
    let mut d = Detector::new(Config::default());
    d.feed(b"\x1b[200~\x1d\x1d", 0);
    assert!(!d.armed());
}

#[test]
fn slow_double_tap_is_two_literal_presses() {
    let (fwd, act) = run(&[(0, &[CB]), (401, &[CB]), (500, b"d")], 1000);
    assert_eq!(act, None);
    assert_eq!(fwd, vec![CB, CB, b'd']);
}

#[test]
fn unknown_command_key_forwards_everything_as_typed() {
    assert_eq!(run(&[(0, &[CB, CB, b'q'])], 0), (vec![CB, CB, b'q'], None));
    // A third escape press is "any other key".
    assert_eq!(run(&[(0, &[CB, CB, CB])], 0), (vec![CB, CB, CB], None));
}

#[test]
fn command_mode_times_out_after_two_seconds() {
    let mut d = Detector::new(Config::default());
    d.feed(&[CB, CB], 0);
    assert_eq!(d.deadline(), Some(2000));
    assert!(d.tick(1999).forward.is_empty());
    assert_eq!(d.tick(2000).forward, vec![CB, CB]);
}

/// Regression the configured escape window is the window to
/// choose the command key too, not only the gap between the two
/// presses. It used to be a bare 2 s constant, so widening the setting
/// because 400 ms was too quick relaxed one half of the gesture and
/// left the other exactly as it was.
#[test]
fn the_escape_window_is_also_the_window_to_choose_the_command_key() {
    let cfg = Config {
        window_ms: 30_000,
        ..Config::default()
    };
    let mut d = Detector::new(cfg);
    d.feed(&[CB], 0);
    d.feed(&[CB], 20_000);
    assert!(d.armed());
    assert_eq!(d.deadline(), Some(50_000));
    // Long past the old 2 s, well inside the configured window.
    assert!(d.tick(49_999).forward.is_empty());
    assert_eq!(d.feed(b"d", 49_999).action, Some(Action::Detach));

    // And it still ends: the configured window, not forever.
    let mut d = Detector::new(cfg);
    d.feed(&[CB, CB], 0);
    assert_eq!(d.tick(30_000).forward, vec![CB, CB]);
    assert!(!d.armed());
}

/// The other direction of the same: a *tighter* escape window says the
/// user wants the double tap crisp, not that they pick a command key in
/// under 400 ms — so 2 s is a floor, and the default is untouched.
#[test]
fn a_tighter_escape_window_keeps_the_two_seconds_to_choose() {
    let mut d = Detector::new(Config {
        window_ms: 100,
        ..Config::default()
    });
    d.feed(&[CB, CB], 0);
    assert_eq!(d.deadline(), Some(2000));
    assert_eq!(d.feed(b"d", 1999).action, Some(Action::Detach));

    // Unset, both windows are what they always were.
    let cfg = Config::default();
    assert_eq!(cfg.window_ms, 400);
    assert_eq!(cfg.command_window_ms(), 2000);
}

#[test]
fn kitty_encoding_press_and_release() {
    let press = b"\x1b[93;5u";
    let (fwd, act) = run(&[(0, press), (100, press), (150, b"d")], 150);
    assert_eq!((fwd, act), (vec![], Some(Action::Detach)));

    // With event types: press, release, press, release, then `x` press.
    let seq: &[u8] = b"\x1b[93;5:1u\x1b[93;5:3u\x1b[93;5:1u\x1b[93;5:3u\x1b[120;1:1u";
    assert_eq!(run(&[(0, seq)], 0), (vec![], Some(Action::Exit)));

    // Lock modifiers (caps lock = 64) do not hide the key.
    assert_eq!(
        run(&[(0, b"\x1b[93;69u\x1b[93;69ud")], 0),
        (vec![], Some(Action::Detach))
    );
}

#[test]
fn kitty_release_follows_its_press_when_forwarded() {
    let seq: &[u8] = b"\x1b[93;5:1u\x1b[93;5:3u";
    let (fwd, act) = run(&[(0, seq), (10, b"a")], 10);
    assert_eq!(act, None);
    assert_eq!(fwd, [seq, b"a"].concat());
    // Timeout forwards press and release together.
    assert_eq!(run(&[(0, seq)], 1000), (seq.to_vec(), None));
}

#[test]
fn modify_other_keys_encoding() {
    let p: &[u8] = b"\x1b[27;5;93~";
    assert_eq!(
        run(&[(0, p), (50, p), (60, b"d")], 60),
        (vec![], Some(Action::Detach))
    );
}

#[test]
fn other_ctrl_modified_keys_are_not_the_escape() {
    // Ctrl+Shift+] and Alt+] in kitty are different keys.
    let seq: &[u8] = b"\x1b[93;6u\x1b[93;6u";
    assert_eq!(run(&[(0, seq)], 0), (seq.to_vec(), None));
    let seq: &[u8] = b"\x1b[27;3;93~\x1b[27;3;93~d";
    assert_eq!(run(&[(0, seq)], 0), (seq.to_vec(), None));
}

#[test]
fn escape_byte_inside_a_sequence_never_matches() {
    // An OSC reply carrying 0x1d, a DCS reply, then a real keypress.
    let seq: &[u8] = b"\x1b]11;rgb:\x1d\x1d\x07\x1bP>|kitty\x1d\x1b\\a";
    assert_eq!(run(&[(0, seq)], 0), (seq.to_vec(), None));
}

/// Regression Alt+_ (readline's yank-last-arg) sends `ESC _`,
/// which is also how an APC reply starts. It must not leave the escape
/// key unheard until a BEL comes.
#[test]
fn a_meta_key_that_looks_like_a_string_start_does_not_eat_the_escape() {
    for meta in [b"\x1b_", b"\x1b]", b"\x1bP", b"\x1b^", b"\x1bX"] {
        let (fwd, action) = run(
            &[(0, meta), (5000, &[CB]), (5050, &[CB]), (5100, b"d")],
            5100,
        );
        assert_eq!(action, Some(Action::Detach), "after {meta:?}");
        assert_eq!(fwd, meta.to_vec(), "after {meta:?}");
    }
    // A key right after it, then the command a normal while later.
    let (_, action) = run(
        &[
            (0, b"\x1b_"),
            (40, b"x"),
            (1000, &[CB]),
            (1050, &[CB]),
            (1100, b"d"),
        ],
        1100,
    );
    assert_eq!(action, Some(Action::Detach));
}

/// The idle timeout frees a Meta key that was taken for a
/// string, but only once the bytes stop. A remote that keeps them
/// coming — a huge clipboard set with OSC 52 and read back in a loop —
/// would otherwise hold the detector inside the string for as long as
/// it liked, so Ctrl-] Ctrl-] d went to it instead of detaching, and
/// the session could not be left without killing the terminal.
#[test]
fn an_unending_string_cannot_swallow_the_command_key() {
    let mut d = Detector::new(Config::default());
    // An OSC that never terminates, arriving without a pause.
    let mut t = 0;
    d.feed(b"\x1b]52;c;", t);
    for _ in 0..(MAX_STR / 1024 + 2) {
        t += 1;
        d.feed(&vec![b'A'; 1024], t);
    }
    // The command key is heard again, with no gap in the stream.
    t += 1;
    let o = d.feed(&[CB], t);
    assert!(o.forward.is_empty(), "the escape was forwarded: {o:?}");
    t += 1;
    d.feed(&[CB], t);
    t += 1;
    let o = d.feed(b"d", t);
    assert_eq!(o.action, Some(Action::Detach));
}

/// A reply of an ordinary size is still read as one, so the
/// cap does not break what the string state is for.
#[test]
fn an_ordinary_reply_is_still_taken_as_a_string() {
    let mut d = Detector::new(Config::default());
    let reply = b"\x1b]11;rgb:1e1e/1e1e/1e1e\x07";
    let o = d.feed(reply, 0);
    assert_eq!(o.forward, reply.to_vec());
    assert_eq!(o.action, None);
    // And the command key works right after it, with no pause.
    d.feed(&[CB], 1);
    d.feed(&[CB], 2);
    assert_eq!(d.feed(b"d", 3).action, Some(Action::Detach));
}

/// PM and SOS are not strings terminals reply with: `ESC ^` / `ESC X`
/// are keys, so a command right after them works.
#[test]
fn pm_and_sos_introducers_are_keys() {
    for meta in [b"\x1b^", b"\x1bX"] {
        let mut input = meta.to_vec();
        input.extend_from_slice(&[CB, CB, b'd']);
        assert_eq!(
            run(&[(0, &input)], 0),
            (meta.to_vec(), Some(Action::Detach))
        );
    }
}

/// A reply split across reads a little apart is still one string: the
/// escape byte inside it is not a key press.
#[test]
fn a_reply_split_across_reads_stays_a_string() {
    let (fwd, action) = run(
        &[
            (0, b"\x1b]52;c;"),
            (30, &[CB, CB]),
            (60, b"d\x07"),
            (70, b"z"),
        ],
        70,
    );
    assert_eq!(action, None);
    assert_eq!(fwd, b"\x1b]52;c;\x1d\x1dd\x07z");
}

#[test]
fn sequences_split_across_reads_are_reassembled() {
    let whole: &[u8] = b"\x1b[93;5u\x1b[93;5ud";
    for split in 1..whole.len() {
        // A read ending in a lone ESC is the Esc key by design (never
        // delayed), so a split right after an ESC is not reassembled.
        if whole[split - 1] == 0x1b {
            continue;
        }
        let (fwd, act) = run(&[(0, &whole[..split]), (1, &whole[split..])], 1);
        assert_eq!(
            (fwd, act),
            (vec![], Some(Action::Detach)),
            "split at {split}"
        );
    }
}

#[test]
fn incomplete_sequence_is_released_after_a_short_wait() {
    let mut d = Detector::new(Config::default());
    assert!(d.feed(b"\x1b[1;5", 0).forward.is_empty());
    assert_eq!(d.deadline(), Some(PENDING_MS));
    assert_eq!(d.tick(PENDING_MS).forward, b"\x1b[1;5");
}

#[test]
fn lone_esc_at_end_of_read_is_not_delayed() {
    let mut d = Detector::new(Config::default());
    assert_eq!(d.feed(b"\x1b", 0).forward, b"\x1b");
    assert_eq!(d.deadline(), None);
    assert_eq!(d.feed(b"\x1b\x1b", 0).forward, b"\x1b\x1b");
}

#[test]
fn bracketed_paste_is_never_a_command() {
    let paste: &[u8] = b"\x1b[200~\x1d\x1dd\x1b[93;5u\x1b[201~";
    assert_eq!(run(&[(0, paste)], 0), (paste.to_vec(), None));
    // Split inside the paste and inside both markers. (Split 1 leaves a
    // lone ESC at the end of a read, which is the Esc key by design;
    // terminals write a paste's start marker in one write.)
    for split in 2..paste.len() {
        let (fwd, act) = run(&[(0, &paste[..split]), (1, &paste[split..])], 1);
        assert_eq!((fwd, act), (paste.to_vec(), None), "split at {split}");
    }
    // After the paste ends, detection works again.
    let (fwd, act) = run(&[(0, paste), (1, &[CB, CB, b'd'])], 1);
    assert_eq!((fwd, act), (paste.to_vec(), Some(Action::Detach)));
}

#[test]
fn paste_releases_a_held_escape_first() {
    let paste: &[u8] = b"\x1b[200~hi\x1b[201~";
    assert_eq!(
        run(&[(0, &[CB]), (10, paste)], 10),
        ([&[CB][..], paste].concat(), None)
    );
}

#[test]
fn replies_and_mouse_do_not_break_a_double_tap_and_are_not_delayed() {
    let mut d = Detector::new(Config::default());
    assert!(d.feed(&[CB], 0).forward.is_empty());
    // A DA reply, an SGR mouse move, a legacy mouse report and a focus event.
    let passive: &[u8] = b"\x1b[?62;22c\x1b[<35;10;5M\x1b[M !!\x1b[I";
    assert_eq!(d.feed(passive, 50).forward, passive);
    let o = d.feed(&[CB, b'd'], 100);
    assert_eq!(o.action, Some(Action::Detach));
}

#[test]
fn detach_ignores_the_rest_of_the_read() {
    let mut d = Detector::new(Config::default());
    let o = d.feed(b"ab\x1d\x1ddrm -rf", 0);
    assert_eq!(o.forward, b"ab");
    assert_eq!(o.action, Some(Action::Detach));
}

#[test]
fn configurable_key_and_window() {
    let cfg = Config {
        byte: Config::parse_key("^A").unwrap(),
        window_ms: 100,
    };
    assert_eq!(cfg.byte, 0x01);
    let mut d = Detector::new(cfg);
    assert_eq!(d.feed(&[1, 1, b'd'], 0).action, Some(Action::Detach));
    // Kitty form of Ctrl+A is key 97.
    let mut d = Detector::new(cfg);
    assert_eq!(
        d.feed(b"\x1b[97;5u\x1b[97;5ux", 0).action,
        Some(Action::Exit)
    );
    // Ctrl-] is now an ordinary key.
    let mut d = Detector::new(cfg);
    assert_eq!(d.feed(&[CB, CB, b'd'], 0).forward, vec![CB, CB, b'd']);
    assert_eq!(Config::parse_key("^]"), Some(0x1d));
    assert_eq!(Config::parse_key("^\\"), Some(0x1c));
    assert_eq!(Config::parse_key("x"), None);
    assert_eq!(Config::parse_key("^["), None);
}
