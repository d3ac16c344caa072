//! How long is waited before a host is dialed again.

use acs::reconnect::{Backoff, Pause, MAX_BACKOFF_MS, MIN_BACKOFF_MS};

#[test]
fn dials_wait_twice_as_long_each_time_up_to_the_bound() {
    let mut b = Backoff::new();
    let mut waits = Vec::new();
    for _ in 0..9 {
        match b.lost(false, None) {
            Pause::Dial(ms) => waits.push(ms),
            Pause::Look(_) => panic!("nobody is waited for"),
        }
    }
    assert_eq!(waits, [0, 500, 1000, 2000, 4000, 8000, 10_000, 10_000, 10_000]);
    assert_eq!((waits[1], waits[8]), (MIN_BACKOFF_MS, MAX_BACKOFF_MS));
    // What got through starts them over.
    assert!(matches!(b.lost(true, None), Pause::Dial(0)));
    assert!(matches!(b.lost(false, None), Pause::Dial(500)));
}

#[test]
fn a_host_that_is_waited_for_is_looked_at_until_it_answers() {
    let mut b = Backoff::new();
    assert!(matches!(b.lost(true, Some(5000)), Pause::Look(5000)));
    assert!(matches!(b.looked(false, Some(5000)), Pause::Look(5000)));
    assert!(matches!(b.looked(true, Some(5000)), Pause::Dial(0)));
    assert!(matches!(b.lost(false, Some(5000)), Pause::Look(5000)));
    assert!(matches!(b.looked(true, Some(5000)), Pause::Dial(500)));
    // Nobody waits for it any more: it is dialed though it does not answer.
    assert!(matches!(b.lost(false, Some(5000)), Pause::Look(5000)));
    assert!(matches!(b.looked(false, None), Pause::Dial(1000)));
}
