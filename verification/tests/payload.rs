//! The builds that a binary carries.

use acs::payload::{build, is_elf_target, target_for_uname, Input, Payloads};

fn sample() -> Vec<u8> {
    build(&[
        Input {
            target: "x86_64-unknown-linux-musl",
            raw: b"slim-x86",
            gz: b"GZ-X86-BYTES",
        },
        Input {
            target: "aarch64-unknown-linux-musl",
            raw: b"slim-arm-longer",
            gz: b"GZ-ARM",
        },
    ])
}

#[test]
fn build_and_parse_round_trip() {
    let p = Payloads::parse(&sample()).unwrap();
    assert_eq!(
        p.targets(),
        ["x86_64-unknown-linux-musl", "aarch64-unknown-linux-musl"]
    );
    let (e, gz) = p.get("aarch64-unknown-linux-musl").unwrap();
    assert_eq!(gz, b"GZ-ARM");
    assert_eq!(e.raw_len, 15);
    assert_eq!(e.sha256, acs::sha256::digest(b"slim-arm-longer"));
    assert!(p.get("riscv64").is_none());
    assert_eq!(p.blob(), &sample()[..]);
}

#[test]
fn appended_trailer_is_found_behind_a_binary() {
    let mut data = b"\x7fELF...pretend executable...".to_vec();
    let slim_len = data.len() as u64;
    data.extend_from_slice(&sample());
    let (len, p) = Payloads::from_file(&data).unwrap();
    assert_eq!(len, slim_len);
    assert_eq!(p.entries.len(), 2);
}

#[test]
fn corrupt_or_missing_trailer_means_slim() {
    assert!(Payloads::from_file(b"just a binary").is_none());

    let mut bad = sample();
    let n = bad.len();
    bad[n - 1] ^= 0xff; // magic
    assert!(Payloads::parse(&bad).is_none());

    let mut bad = sample();
    let n = bad.len();
    bad[n - 9] = 0xff; // total length
    assert!(Payloads::parse(&bad).is_none());

    // Truncated anywhere: never a panic.
    let s = sample();
    for cut in 0..s.len() {
        let _ = Payloads::parse(&s[cut..]);
        let _ = Payloads::parse(&s[..cut]);
    }
    let mut huge = sample();
    let n = huge.len();
    huge[n - 24..n - 16].copy_from_slice(&u64::MAX.to_be_bytes());
    assert!(Payloads::parse(&huge).is_none());
}

#[test]
fn uname_mapping() {
    assert_eq!(
        target_for_uname("Linux", "x86_64"),
        Some("x86_64-unknown-linux-musl")
    );
    assert_eq!(
        target_for_uname("Linux", "aarch64"),
        Some("aarch64-unknown-linux-musl")
    );
    assert_eq!(
        target_for_uname("Darwin", "arm64"),
        Some("aarch64-apple-darwin")
    );
    assert_eq!(target_for_uname("SunOS", "i86pc"), None);
    assert!(is_elf_target("aarch64-unknown-linux-musl"));
    assert!(!is_elf_target("aarch64-apple-darwin"));
}

#[test]
fn a_target_that_is_there_twice_gives_its_first_build() {
    let twice = build(&[
        Input { target: "t", raw: b"one", gz: b"first" },
        Input { target: "u", raw: b"two", gz: b"second" },
        Input { target: "t", raw: b"three", gz: b"third" },
    ]);
    let p = Payloads::parse(&twice).unwrap();
    assert_eq!(p.targets(), ["t", "u", "t"]);
    let (e, gz) = p.get("t").unwrap();
    assert_eq!((e.raw_len, gz), (3, &b"first"[..]));
    assert_eq!(p.get("u").unwrap().1, b"second");
    assert!(p.get("v").is_none());
}
