//! Installing acs on a remote.

use acs::install::{parse_finish, plan, should_link, Bin, Plan};
use acs::payload::{build, Input, Payloads};
use acs::sha256;

fn blob_for(target: &str, raw: &[u8]) -> Payloads {
    Payloads::parse(&build(&[Input {
        target,
        raw,
        gz: b"GZ",
    }]))
    .unwrap()
}

#[test]
fn same_target_is_a_self_copy() {
    let p = plan("aarch64-apple-darwin", "aarch64-apple-darwin", b"me", None).unwrap();
    assert_eq!(
        p,
        Plan::SelfCopy {
            data: b"me".to_vec()
        }
    );
}

#[test]
fn other_linux_target_uses_the_payload() {
    let carried = blob_for("aarch64-unknown-linux-musl", b"slim-arm");
    match plan(
        "aarch64-unknown-linux-musl",
        "x86_64-unknown-linux-musl",
        b"me",
        Some(&carried),
    )
    .unwrap()
    {
        Plan::Payload { gz, blob, digest } => {
            assert_eq!(gz, b"GZ");
            assert_eq!(blob, carried.blob());
            assert_eq!(digest, sha256::digest(b"slim-arm"));
        }
        other => panic!("{other:?}"),
    }
}

#[test]
fn missing_payload_explains_how_to_get_one() {
    let e = plan(
        "x86_64-unknown-linux-musl",
        "aarch64-apple-darwin",
        b"me",
        None,
    )
    .unwrap_err();
    assert!(e.contains("cargo xtask dist"), "{e}");
    let e = plan("x86_64-apple-darwin", "aarch64-apple-darwin", b"me", None).unwrap_err();
    assert!(e.contains("by hand"), "{e}");
}

/// `~/.local/bin/acs` is only ever pointed at a newer version of ours, never over the
/// user's own file or link.
#[test]
fn the_bin_link_is_only_moved_forward() {
    let share = "/home/me/.local/share/acs";
    let at = |v: &str| format!("{share}/{v}/acs");
    let new = at("0.2.0");
    let should = |bin: Bin| should_link(&bin, &new, share, share);
    let set = |to: &str, alive: bool| Bin::Link {
        to: to.to_string(),
        followed: to.to_string(),
        alive,
    };

    assert!(should(Bin::Missing), "missing");
    assert!(should(set(&at("0.1.9"), true)), "older");
    assert!(should(set(&new, true)), "same");
    assert!(!should(set(&at("0.10.0"), true)), "newer stays");
    assert!(should(set(&at("0.0.1"), false)), "dangling, pruned");
    assert!(!should(set("/bin/sh", true)), "someone else's link");
    assert!(!should(Bin::NotALink), "a regular file");
}

#[test]
fn finish_arguments() {
    let a = |v: &[&str]| parse_finish(&v.iter().map(|s| s.to_string()).collect::<Vec<_>>());
    assert!(a(&["--finish", "--token", "abc123", "--sha256", "00"]).is_ok());
    assert!(a(&["--finish", "--token", "../x"]).is_err());
    assert!(a(&["--token", "ab"]).is_err());
}

/// A link is ours by where it leads once the links on the way are followed, and a
/// directory whose name only begins like ours is not ours.
#[test]
fn a_link_is_judged_by_the_directory_it_leads_to() {
    let (share, real) = ("/home/me/.local/share/acs", "/data/acs");
    let new = "/home/me/.local/share/acs/0.2.0/acs";
    let link = |to: &str, followed: &str| Bin::Link {
        to: to.to_string(),
        followed: followed.to_string(),
        alive: true,
    };
    let should = |bin: Bin| should_link(&bin, new, share, real);
    assert!(should(link("/mnt/acs/0.1.0/acs", "/data/acs/0.1.0/acs")));
    assert!(!should(link("/mnt/acs/0.3.0/acs", "/data/acs/0.3.0/acs")));
    assert!(!should(link("/data/acs2/0.1.0/acs", "/data/acs2/0.1.0/acs")));
    // A version that is none is no reason to stay.
    assert!(should(link("/data/acs/next/acs", "/data/acs/next/acs")));
}
