//! Observing the terminal modes a program turns on.

use acs::modes::ModeObserver;

fn observe_split(stream: &[u8]) -> Vec<Vec<u8>> {
    let mut resets = Vec::new();
    for split in 0..=stream.len() {
        let mut o = ModeObserver::new();
        o.observe(&stream[..split]);
        o.observe(&stream[split..]);
        resets.push(o.reset_sequence());
    }
    resets
}

#[test]
fn clean_stream_needs_no_reset() {
    let mut o = ModeObserver::new();
    o.observe(b"hello \x1b[1;31mred\x1b[0m \x1b]0;title\x07 \x1b[?1049h\x1b[?1049l");
    assert!(o.is_clean());
    assert!(o.reset_sequence().is_empty());
}

#[test]
fn full_screen_tui_is_reset_in_order() {
    // What a vim/htop-like program turns on.
    let stream: &[u8] =
        b"\x1b[?1049h\x1b[?1h\x1b=\x1b[?25l\x1b[?1000;1002;1006h\x1b[?2004h\x1b[>1u\x1b[>4;2m\x1b[?1004h\x1b[5;20r";
    for (split, reset) in observe_split(stream).into_iter().enumerate() {
        assert_eq!(
            reset,
            b"\x1b[<1u\x1b[>4;0m\x1b>\x1b[r\x1b[?1l\x1b[?1000l\x1b[?1002l\x1b[?1004l\x1b[?1006l\x1b[?2004l\x1b[?1049l\x1b[?25h\x1b[0m",
            "split at {split}"
        );
    }
}

#[test]
fn modes_turned_off_again_are_forgotten() {
    let mut o = ModeObserver::new();
    o.observe(b"\x1b[?1000h\x1b[?25l\x1b[>1u\x1b[>1u\x1b[<u\x1b[?25h\x1b[?1000l");
    assert_eq!(o.reset_sequence(), b"\x1b[<1u\x1b[0m");
    o.observe(b"\x1b[<5u");
    assert!(o.is_clean());
}

#[test]
fn sequences_inside_strings_are_ignored() {
    let mut o = ModeObserver::new();
    o.observe(b"\x1b]2;\x1b[?1000h\x07\x1bP\x1b[?2004h\x1b\\");
    // The OSC ends at BEL; the DCS body swallows its sequence until ST.
    assert!(
        o.is_clean(),
        "{:?}",
        String::from_utf8_lossy(&o.reset_sequence())
    );
}

#[test]
fn boundaries_are_outside_sequences_strings_and_characters() {
    let at = |bytes: &[u8]| {
        let mut o = ModeObserver::new();
        o.observe(bytes);
        o.at_boundary()
    };
    assert!(at(b""));
    assert!(at(
        b"text \x1b[1m\x1b]0;t\x07\x1bP1$r\x1b\\\x1b=caf\xc3\xa9"
    ));
    for inside in [
        &b"\x1b"[..],
        b"\x1b[1;3",
        b"\x1b]0;title",
        b"\x1b]0;title\x1b",
        b"\x1bPq#0",
        b"\x1b_Gf=100",
        b"caf\xc3",
        b"\xe2\x82",
        b"\xf0\x9f\x98",
    ] {
        assert!(!at(inside), "{inside:?}");
    }
    // An ESC inside a UTF-8 character ends it.
    assert!(at(b"\xe2\x1b[m"));
}

#[test]
fn observe_to_boundary_stops_where_the_string_ends() {
    let mut o = ModeObserver::new();
    o.observe(b"\x1b]2;ti");
    // The rest of the title, its ST, then more output and another OSC.
    let rest: &[u8] = b"tle\x1b\\after\x1b]2;next";
    assert_eq!(o.observe_to_boundary(rest), Some(5));
    assert!(o.at_boundary());
    o.observe(&rest[5..]);
    assert!(!o.at_boundary());
    // Already at one: nothing to observe.
    let mut o = ModeObserver::new();
    assert_eq!(o.observe_to_boundary(b"abc"), Some(0));
    // None comes: everything was observed.
    let mut o = ModeObserver::new();
    o.observe(b"\x1b]0;");
    assert_eq!(o.observe_to_boundary(b"a"), None);
    assert_eq!(o.observe_to_boundary(b"b\x07"), Some(2));
    // A BEL ends an OSC as ST does.
    let mut o = ModeObserver::new();
    o.observe(b"\x1b]0;x");
    assert_eq!(o.observe_to_boundary(b"\x07z"), Some(1));
}

/// Regression after a gap the modes stay, for leave() to
/// reset, but a sequence cut off by the gap is forgotten.
#[test]
fn resync_keeps_modes_and_drops_a_half_seen_sequence() {
    let mut o = ModeObserver::new();
    o.observe(b"\x1b[?1049h\x1b[?1000h\x1b]0;half a tit");
    assert!(!o.at_boundary());
    o.resync();
    assert!(o.at_boundary());
    assert_eq!(o.reset_sequence(), b"\x1b[?1000l\x1b[?1049l\x1b[0m");
    // What follows is read from the ground, not as the old title.
    o.observe(b"\x1b[?2004h");
    assert!(o.reset_sequence().starts_with(b"\x1b[?1000l\x1b[?2004l"));
}

/// What acs writes around a write of its own that cannot wait
/// for a boundary. At a boundary there is nothing to write; inside a
/// sequence, an ST ends it, and it is re-opened byte for byte where the
/// terminal cannot have acted on it yet.
#[test]
fn a_sequence_is_ended_and_given_back() {
    let around = |bytes: &[u8]| {
        let mut o = ModeObserver::new();
        o.observe(bytes);
        (o.interrupt_sequence().to_vec(), o.reopen_sequence())
    };
    let ended = |give_back: &[u8]| (b"\x1b\\".to_vec(), Some(give_back.to_vec()));
    let open = (Vec::new(), Some(Vec::new()));
    // Nothing open: nothing written, either side.
    assert_eq!(around(b"plain \x1b[1;31m text"), open);
    // A CSI: its parameters and intermediates, in order, with the C0
    // controls the terminal has already executed left out.
    assert_eq!(around(b"\x1b[1;31"), ended(b"\x1b[1;31"));
    assert_eq!(around(b"\x1b[?1049"), ended(b"\x1b[?1049"));
    assert_eq!(around(b"\x1b[1;\r31"), ended(b"\x1b[1;31"));
    // A lone ESC, and an ESC that ended a CSI of its own.
    assert_eq!(around(b"\x1b"), ended(b"\x1b"));
    assert_eq!(around(b"\x1b[1;2\x1b"), ended(b"\x1b"));
    // A character half read: the bytes of it that came.
    assert_eq!(around("caf\u{e9}".as_bytes()), open);
    assert_eq!(around(b"caf\xc3"), ended(b"\xc3"));
    assert_eq!(around(b"\xf0\x9f\x98"), ended(b"\xf0\x9f\x98"));
    // A string: ended, never given back — the terminal may already
    // have acted on its body.
    for string in [
        &b"\x1b]2;half a tit"[..],
        b"\x1bPq#0;2;0;0;0",
        b"\x1b_Gf=100,a=T;AAAA",
        b"\x1b]2;title\x1b",
    ] {
        let (interrupt, reopen) = around(string);
        assert_eq!(interrupt, b"\x1b\\", "{string:?}");
        assert_eq!(reopen, None, "{string:?}");
    }
    // A CSI longer than the parameters kept here is no longer all
    // known, so it is not written again either.
    let long = format!("\x1b[{}", "1;".repeat(40));
    assert_eq!(around(long.as_bytes()), (b"\x1b\\".to_vec(), None));
    // And the sequence that fills it is forgotten when it ends.
    let mut o = ModeObserver::new();
    o.observe(long.as_bytes());
    o.observe(b"m\x1b[1;2");
    assert_eq!(o.reopen_sequence().unwrap(), b"\x1b[1;2");
}

/// The bytes of a half-read character are forgotten with the rest of
/// the stream's place in it.
#[test]
fn resync_forgets_a_half_read_character() {
    let mut o = ModeObserver::new();
    o.observe(b"caf\xc3");
    o.resync();
    assert!(o.at_boundary());
    assert_eq!(o.interrupt_sequence(), b"");
    assert_eq!(o.reopen_sequence().unwrap(), b"");
}

#[test]
fn full_reset_clears_state() {
    let mut o = ModeObserver::new();
    o.observe(b"\x1b[?1049h\x1b[?1000h\x1bc");
    assert!(o.is_clean());
}

#[test]
fn kitty_set_in_place_and_modify_other_keys_off() {
    let mut o = ModeObserver::new();
    o.observe(b"\x1b[=5;1u\x1b[>4;1m");
    assert_eq!(o.reset_sequence(), b"\x1b[=0;1u\x1b[>4;0m\x1b[0m");
    o.observe(b"\x1b[=0;1u\x1b[>4m");
    assert!(o.is_clean());
}

#[test]
fn untracked_modes_are_ignored() {
    let mut o = ModeObserver::new();
    o.observe(b"\x1b[?7l\x1b[?12h\x1b[4h\x1b[?99999h");
    assert!(o.is_clean());
}
