//! The shared ssh connection.

use acs::mux::{
    configure_at, control_path, dir_path, fallback_window, joinable, persist_from, socket_name, stop, veto,
    DEFAULT_FALLBACK_MS, DEFAULT_PERSIST_SECS, HINT,
};
use acs::ssh::{Call, Transport};

/// The longest path of a socket.
const MAX: u64 = 104;

fn tr() -> Transport {
    let mut t = Transport::new("me@box".to_string());
    t.user_opts = ["-p", "2222"].iter().map(|s| s.to_string()).collect();
    t
}

/// The name must change with anything that decides how the connection
/// authenticates, or two acs calls that named different keys would
/// share one authenticated connection.
#[test]
fn the_socket_name_follows_everything_that_picks_the_connection() {
    let base = socket_name(&tr());
    assert_eq!(base.len(), 32);
    assert!(base.chars().all(|c| c.is_ascii_hexdigit()), "{base}");
    assert_eq!(socket_name(&tr()), base, "the same transport, twice");

    let mut t = tr();
    t.destination = "me@other".into();
    assert_ne!(socket_name(&t), base, "destination");

    let mut t = tr();
    t.ssh = "/opt/ssh".into();
    assert_ne!(socket_name(&t), base, "ssh binary");

    let mut t = tr();
    t.user_opts = ["-p", "2223"].iter().map(|s| s.to_string()).collect();
    assert_ne!(socket_name(&t), base, "port");

    let mut t = tr();
    t.identity_file = Some("/keys/a".into());
    let with_key = socket_name(&t);
    assert_ne!(with_key, base, "a configured key");
    t.identity_file = Some("/keys/b".into());
    assert_ne!(socket_name(&t), with_key, "another key");

    // A key the command line names replaces the configured one, so the
    // socket is the one that key would have opened either way.
    let mut cmdline = tr();
    cmdline.user_opts = ["-p", "2222", "-i", "/keys/a"]
        .iter()
        .map(|s| s.to_string())
        .collect();
    cmdline.identity_file = Some("/keys/b".into());
    let mut plain = cmdline.copy();
    plain.identity_file = None;
    assert_eq!(socket_name(&cmdline), socket_name(&plain));
}

/// Length-prefixing: `-o A B` must not hash like `-o AB`.
#[test]
fn option_boundaries_are_part_of_the_name() {
    let mut a = tr();
    a.user_opts = ["-o", "A", "B"].iter().map(|s| s.to_string()).collect();
    let mut b = tr();
    b.user_opts = ["-o", "AB"].iter().map(|s| s.to_string()).collect();
    assert_ne!(socket_name(&a), socket_name(&b));
}

/// A forward belongs to the session's own ssh: a master
/// would open it and keep it bound after acs exits.
#[test]
fn a_forward_refuses_the_master() {
    let mut t = tr();
    t.local_forwards = vec!["8080:localhost:80".into()];
    assert!(veto(&t).is_some_and(|w| w.contains("-L")));

    for o in [
        "LocalForward=8080 localhost:80",
        "remoteforward 9090 localhost:90",
        " DynamicForward=1080",
    ] {
        let mut t = tr();
        t.user_opts = vec!["-o".into(), o.into()];
        assert!(veto(&t).is_some(), "{o}");
    }
    // Something that only looks like one is not one.
    let mut t = tr();
    t.user_opts = vec!["-o".into(), "LocalForwardish=1".into()];
    assert!(veto(&t).is_none());
    let mut t = tr();
    t.user_opts = vec!["-J".into(), "LocalForward=1".into()];
    assert!(veto(&t).is_none());
}

/// The test hook is not ssh and has no control socket to speak of.
#[test]
fn the_transport_hook_never_multiplexes() {
    let mut t = tr();
    t.transport_cmd = Some("sh -c".into());
    let msg = configure_at(&mut t, "/nonexistent".to_string(), 300, Ok(()), MAX);
    assert!(t.mux.is_none(), "{msg}");
    assert!(msg.contains("--transport-cmd"), "{msg}");
}

#[test]
fn a_directory_of_our_own_gets_the_master() {
    let mut t = tr();
    let msg = configure_at(&mut t, "/d/mux".to_string(), 300, Ok(()), MAX);
    assert!(t.mux.is_some(), "{msg}");
    assert!(msg.contains("ControlPersist 300s"), "{msg}");
    let path = control_path(&t, MAX).unwrap();
    assert_eq!(path, format!("/d/mux/{}", socket_name(&t)));
}

/// A directory acs cannot vouch for costs the speed-up, never the
/// connection: the transport simply keeps a dial of its own.
#[test]
fn a_directory_that_is_not_ours_costs_only_the_master() {
    let mut t = tr();
    let opened = Err(format!("/d/notadir is not a directory; {HINT}"));
    let msg = configure_at(&mut t, "/d/notadir".to_string(), 300, opened, MAX);
    assert!(t.mux.is_none(), "{msg}");
    assert!(msg.contains("ACS_CONTROL_DIR"), "{msg}");
    assert!(control_path(&t, MAX).is_none());
    assert!(!t.multiplexes(Call::Session));
}

/// A socket longer than `sun_path` would be truncated by ssh into
/// somebody else's name; acs would rather not multiplex.
#[test]
fn a_path_too_long_for_a_unix_socket_is_refused() {
    let deep = format!("/d/{}", "x".repeat(MAX as usize));
    let mut t = tr();
    let msg = configure_at(&mut t, deep, 300, Ok(()), MAX);
    assert!(t.mux.is_none(), "{msg}");
    assert!(msg.contains("platform limit"), "{msg}");
}

#[test]
fn persist_zero_turns_it_off() {
    let mut t = tr();
    let msg = configure_at(&mut t, "/d".to_string(), 0, Ok(()), MAX);
    assert!(t.mux.is_none(), "{msg}");
    assert!(msg.contains("ACS_CONTROL_PERSIST"), "{msg}");
    assert_eq!(persist_from(Some("0")), 0);
    assert_eq!(persist_from(Some(" 90 ")), 90);
    assert_eq!(persist_from(None), DEFAULT_PERSIST_SECS);
    assert_eq!(persist_from(Some("")), DEFAULT_PERSIST_SECS);
    assert_eq!(persist_from(Some("soon")), DEFAULT_PERSIST_SECS);
}

#[test]
fn the_default_directory_is_keyed_by_the_numeric_uid() {
    assert_eq!(dir_path(None, 501), "/tmp/acs-mux-501");
    assert_eq!(dir_path(Some("/mine"), 501), "/mine");
}

/// A redial never goes through the shared connection, nor does anything where there
/// is none; a socket that is there must also answer.
#[test]
fn who_joins_the_shared_connection() {
    let mut t = tr();
    assert!(!joinable(&t, Call::Session, MAX, true, true));
    configure_at(&mut t, "/d".to_string(), 300, Ok(()), MAX);
    assert!(joinable(&t, Call::Session, MAX, true, true));
    assert!(!joinable(&t, Call::Session, MAX, true, false));
    assert!(!joinable(&t, Call::Session, MAX, false, true));
    assert!(!joinable(&t, Call::Redial, MAX, true, true));
    assert!(stop(&t, MAX, true));
    assert!(!stop(&t, MAX, false));
    assert_eq!(fallback_window(None), DEFAULT_FALLBACK_MS);
    assert_eq!(fallback_window(Some("250")), 250);
}
