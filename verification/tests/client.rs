//! The client: its notes, and what ends a link.

use acs::client::connect::env_switch;
use acs::client::notes::Terminal;
use acs::client::serve::LinkEnd;

/// Which endings take the shared ssh master down with them.
/// A channel that broke while the connection was demonstrably carrying
/// bytes does not — ending the master there drops every other acs
/// session on it for nothing. Everything else does, including silence:
/// a wedged master and a wedged network are the same evidence from
/// here, and a stranded user is worse than a dropped sibling.
#[test]
fn only_an_ending_that_blames_the_connection_ends_the_master() {
    assert!(LinkEnd::Transport.failed_the_connection());
    assert!(LinkEnd::Silent.failed_the_connection());
    assert!(!LinkEnd::Channel.failed_the_connection());
    // No reason at all is the blunt side too: `connect_and_serve` ends
    // the master when it is given `None`.
    let unknown: Option<LinkEnd> = None;
    assert!(unknown.map_or(true, |e| e.failed_the_connection()));
}

/// A note goes where the bell goes — at a boundary of the
/// program's stream — and only while a frame loop is relaying one.
///
/// The delay is the whole risk of this: a note about a dial that is
/// still hanging is worth nothing once the dial has finished. So the
/// terminal holds a note in exactly one case, and this says which.
#[test]
fn a_note_waits_for_a_boundary_only_while_a_frame_loop_is_relaying() {
    let now = 1_000;
    let mut t = Terminal::capture();
    // Outside the frame loop — the dial, the offline wait, alias
    // resolution — there is no frame in flight and nothing waits.
    t.note("dialling", now);
    assert_eq!(t.written(), ["acs: dialling\r\n"]);

    t.relay();
    // Inside it, but between frames (and before the first one), the
    // stream is at a boundary: still nothing waits.
    t.note("between frames", now);
    assert_eq!(t.written(), ["acs: between frames\r\n"]);

    // A frame that ended halfway through an escape sequence.
    t.at_boundary(false);
    t.note("first", now);
    t.note("second", now);
    assert!(t.written().is_empty(), "written into the sequence");
    // The frame that finishes it releases both, oldest first.
    t.at_boundary(true);
    assert_eq!(t.written(), ["acs: first\r\n", "acs: second\r\n"]);

    // And nothing is held behind them afterwards.
    t.note("after", now);
    assert_eq!(t.written(), ["acs: after\r\n"]);
    t.close();
    t.note("outside again", now);
    assert_eq!(t.written(), ["acs: outside again\r\n"]);
}

/// What is held is delayed, never dropped. A program that
/// stops mid-sequence, or a link that dies there, must not swallow a
/// note — which is what makes the wait bounded rather than open-ended.
#[test]
fn a_held_note_survives_a_program_that_stops_mid_sequence() {
    let now = 1_000;
    let mut t = Terminal::capture();
    t.relay();
    t.at_boundary(false);
    t.note("held", now);
    // Nothing is due while the bytes that would finish the sequence
    // may still be on their way.
    let raised = now;
    t.flush_due(raised);
    assert!(t.written().is_empty());
    assert!(t.deadline().is_some_and(|d| d > raised));
    // The sequence never finishes: `ACS_NOTE_HOLD_MS` later the note
    // is written where it stands rather than lost.
    t.flush_due(raised + 60_000);
    assert_eq!(t.written(), ["acs: held\r\n"]);
    assert_eq!(t.deadline(), None);

    // The way out of the frame loop writes what is still held, so the
    // notes that end a link — a protocol error, an ERROR frame, the
    // takeover — arrive even when the last frame left a sequence open.
    t.at_boundary(false);
    t.note("on the way out", now);
    assert!(t.written().is_empty());
    t.close();
    assert_eq!(t.written(), ["acs: on the way out\r\n"]);
}

#[test]
fn the_environment_decides_a_switch_over_the_configuration() {
    assert!(env_switch(None, true));
    assert!(!env_switch(None, false));
    assert!(env_switch(Some(""), true), "empty is unset");
    assert!(!env_switch(Some("0"), true));
    assert!(env_switch(Some("1"), false));
}
