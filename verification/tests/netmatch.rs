//! Which network an address is on.

use acs::netmatch::ip::{show_ip, Ip};
use acs::netmatch::{matching, LocalNet};

fn net(s: &str) -> LocalNet {
    let (a, p) = s.split_once('/').unwrap();
    LocalNet::new(ip(a), p.parse().unwrap())
}

fn ip(s: &str) -> Ip {
    Ip::parse(s).unwrap()
}

#[test]
fn an_address_is_on_a_network_by_its_prefix_in_either_family() {
    let home = net("192.168.1.5/24");
    assert!(home.contains(ip("192.168.1.20")));
    assert!(!home.contains(ip("192.168.2.20")));
    assert!(!home.contains(ip("fd00::20")), "another family");
    let odd = net("10.1.2.3/20");
    assert!(odd.contains(ip("10.1.15.255")));
    assert!(!odd.contains(ip("10.1.16.0")));
    let ula = net("fd12:3456:789a:1::5/64");
    assert!(ula.contains(ip("fd12:3456:789a:1::abcd")));
    assert!(!ula.contains(ip("fd12:3456:789a:2::abcd")));
    assert!(!ula.contains(ip("192.168.1.20")));
    assert!(net("2001:db8::1/128").contains(ip("2001:db8::1")));
    assert!(!net("2001:db8::1/128").contains(ip("2001:db8::2")));
    assert_eq!(home.text(), "192.168.1.0/24");
    assert_eq!(ula.text(), "fd12:3456:789a:1::/64");
}

#[test]
fn loopback_link_local_and_a_zero_prefix_are_not_matched_on() {
    for s in [
        "127.0.0.1/8",
        "169.254.3.4/16",
        "::1/128",
        "fe80::1/64",
        "0.0.0.0/8",
        "10.0.0.1/0",
    ] {
        assert!(!net(s).usable(), "{s}");
    }
    for s in [
        "192.168.1.5/24",
        "10.8.0.2/32",
        "fd00::5/64",
        "2001:db8::5/64",
    ] {
        assert!(net(s).usable(), "{s}");
    }
}

#[test]
fn the_first_network_an_address_is_on_is_the_match() {
    let nets = [net("192.168.1.5/24"), net("fd00::5/64")];
    assert_eq!(
        matching(&nets, &[ip("203.0.113.9"), ip("fd00::20")]),
        Some(nets[1])
    );
    assert_eq!(matching(&nets, &[ip("203.0.113.9")]), None);
    assert_eq!(matching(&nets, &[]), None);
}

#[test]
fn an_address_is_read_as_it_is_written() {
    for (s, written) in [
        ("0.0.0.0", "0.0.0.0"),
        ("255.1.20.3", "255.1.20.3"),
        ("::", "::"),
        ("::1", "::1"),
        ("1::", "1::"),
        ("FD00:0:0:1::ABCD", "fd00:0:0:1::abcd"),
        ("1:0:0:2:0:0:0:3", "1:0:0:2::3"),
        ("1:2:3:4:5:6:7:8", "1:2:3:4:5:6:7:8"),
        ("1:0:3:4:5:6:7:8", "1:0:3:4:5:6:7:8"),
        ("::ffff:1.2.3.4", "::ffff:1.2.3.4"),
        ("::ffff:102:304", "::ffff:1.2.3.4"),
    ] {
        assert_eq!(show_ip(ip(s)), written);
        assert_eq!(ip(written), ip(s));
    }
}

#[test]
fn a_network_is_read_as_it_is_written() {
    for (s, written) in [
        ("10.1.2.3/20", "10.1.0.0/20"),
        ("10.1.2.3/32", "10.1.2.3/32"),
        ("192.168.1.0/1", "128.0.0.0/1"),
        ("fd12:3456:789a:1::5/64", "fd12:3456:789a:1::/64"),
        ("::ffff:1.2.3.4/112", "::ffff:1.2.0.0/112"),
    ] {
        let n = LocalNet::parse(s).unwrap();
        assert_eq!(n.text(), written);
        assert_eq!(LocalNet::parse(written).unwrap().text(), written);
    }
}
