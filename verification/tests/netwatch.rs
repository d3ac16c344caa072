//! Noticing that the network changed.

use acs::netwatch::{matters, route_messages_matter, sorted, NetWatch};

fn msg(kind: u8, len: u16) -> Vec<u8> {
    let mut m = len.to_ne_bytes().to_vec();
    m.push(5);
    m.push(kind);
    m.resize(len as usize, 0);
    m
}

#[test]
fn route_churn_is_not_a_change() {
    // RTM_ADD (1), RTM_DELETE (2), RTM_RESOLVE (0xb): ARP and friends.
    let churn = [msg(1, 92), msg(2, 92), msg(0xb, 92)].concat();
    assert!(!route_messages_matter(&churn));
    let mut with_addr = churn.clone();
    with_addr.extend(msg(0xc, 20));
    assert!(route_messages_matter(&with_addr));
    assert!(route_messages_matter(&msg(0xe, 112)));
    assert!(!route_messages_matter(&[1, 2]));
}

/// A hint is a reason to look at the network, not a network change. Only the networks
/// this machine could dial from say that, so the kernel may be as chatty as it likes for
/// nothing.
#[test]
fn a_hint_is_a_change_only_when_the_networks_are_not_the_same() {
    let nets = |text: &str| text.split_whitespace().map(String::from).collect::<Vec<_>>();
    let home = "192.168.1.5/24\nfd00::5/64\n";
    let mut w = NetWatch::new(nets(home));
    // Nothing has been said at all.
    assert!(!w.changed(false, nets(home)));
    // The kernel speaks up while the machine is on the same networks. Twice, to say
    // that it is not merely the second one that is quiet.
    assert!(!w.changed(true, nets(home)), "a hint that changed nothing");
    assert!(!w.changed(true, nets(home)), "and the next one");
    // Order is not identity.
    assert!(
        !w.changed(true, nets("fd00::5/64\n192.168.1.5/24\n")),
        "the same networks in another order"
    );
    // Wi-Fi switched: a new address, and the same prefix on a new lease is a change too.
    let away = "10.0.0.5/24\nfd00::5/64\n";
    assert!(!w.changed(false, nets(away)), "nobody said a word");
    assert!(w.changed(true, nets(away)));
    // Reported once: the kernel has more to say about the same change.
    assert!(!w.changed(true, nets(away)));
    // An interface went away.
    assert!(w.changed(true, nets("fd00::5/64\n")));
    // Sorted: the order interfaces come in is not it.
    assert_eq!(
        sorted(nets("b a c a")),
        ["a".to_string(), "b".to_string(), "c".to_string()]
    );
}

#[test]
fn a_length_is_read_in_either_byte_order() {
    // A message of 256 bytes, the high byte of its length first, then one that matters.
    let mut big = vec![1, 0, 5, 1];
    big.resize(256, 0);
    big.extend_from_slice(&[0, 4, 5, 0xd]);
    assert!(matters(&big, true));
    // Read the other way the length is one, which leads nowhere.
    assert!(!matters(&big, false));
}
