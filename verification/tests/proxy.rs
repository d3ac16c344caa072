//! The per-connection proxy.

use acs::proto::err;
use acs::proto::{Decoder, Hello, Mode, Msg, WinSize, PROTO_VERSION};
use acs::proxy::{connect_or_start, greet, mode_arg, parse_args, Greeted, Relayed, Splice, Start, What};

fn p(args: &[&str]) -> Result<What, String> {
    parse_args(&args.iter().map(|a| a.to_string()).collect::<Vec<_>>())
}

#[test]
fn arguments() {
    assert_eq!(
        p(&["--session", "main", "--mode", "attach"]),
        Ok(What::Session {
            name: Some("main".into()),
            mode: Mode::Attach
        })
    );
    assert_eq!(
        p(&["--new"]),
        Ok(What::Session {
            name: None,
            mode: Mode::Create
        })
    );
    assert_eq!(p(&["--list"]), Ok(What::List));
    assert_eq!(p(&["--kill", "work"]), Ok(What::Kill("work".into())));
    assert!(p(&["--kill"]).is_err());
    assert!(p(&["--kill", "../x"]).is_err());
    assert!(p(&["--session", "../x"]).is_err());
    assert!(p(&[]).is_err());
    assert!(p(&["--mode", "sideways", "--session", "a"]).is_err());
}

/// When the master says its last words (EXIT) and closes before our next write to it,
/// the write fails, and what it said must still reach the client.
#[test]
fn last_words_reach_the_client_when_writing_to_the_master_fails() {
    let exit = Msg::Exit { status: 0 }.to_bytes();
    // Queued input for the master makes the relay write to it.
    let mut s = Splice::new(Msg::Ping(7).to_bytes());
    assert!(s.wants().to_master && s.wants().master && !s.wants().output);
    assert_eq!(s.master(&exit), Relayed::On);
    assert_eq!(s.turned(true, false), Relayed::Drain);
    assert_eq!(s.to_client, exit);
}

#[test]
fn a_bad_mode_is_shown_as_it_was_given() {
    assert_eq!(
        p(&["--mode", "side\"ways", "--session", "a"]),
        Err("bad --mode Some(\"side\\\"ways\")".to_string())
    );
    assert_eq!(p(&["--mode"]), Err("bad --mode None".to_string()));
    assert_eq!(p(&["--session"]), Err("--session needs a value".to_string()));
    assert_eq!(p(&["-x"]), Err("unexpected argument -x".to_string()));
    assert_eq!(mode_arg(Mode::Attach), "attach");
    assert_eq!(mode_arg(Mode::Create), "create");
    assert_eq!(mode_arg(Mode::AttachOrCreate), "attach-or-create");
}

#[test]
fn the_relay_ends_with_the_client_once_the_master_has_everything() {
    let mut s = Splice::new(vec![1, 2, 3]);
    s.input(&[4]);
    s.input(&[]);
    assert!(!s.wants().input);
    assert_eq!(s.turned(false, false), Relayed::On);
    s.master_took(3);
    assert_eq!(s.to_master, [4]);
    s.master_took(1);
    assert_eq!(s.turned(false, false), Relayed::Over);
    assert_eq!(s.master(&[]), Relayed::Drain);
    assert_eq!(Splice::new(vec![]).turned(false, true), Relayed::Over);
}

fn hello(proto: u16) -> Hello {
    Hello {
        proto,
        session: "theirs".into(),
        mode: Mode::Attach,
        identity: "a@b".into(),
        force: false,
        term: String::new(),
        colorterm: String::new(),
        size: WinSize::default(),
        resume: None,
        command: vec![],
    }
}

#[test]
fn a_greeting_is_checked_and_goes_on_under_our_name() {
    let mut rest = Decoder::new();
    rest.push(&Msg::Ping(1).to_bytes());
    match greet(Msg::Hello(hello(PROTO_VERSION)), "", &mut rest, true, "ours") {
        Greeted::Relay(bytes) => {
            let mut want = Msg::Hello(Hello {
                session: "ours".into(),
                ..hello(PROTO_VERSION)
            })
            .to_bytes();
            want.extend(Msg::Ping(1).to_bytes());
            assert_eq!(bytes, want);
        }
        other => panic!("{other:?}"),
    }
    match greet(Msg::Hello(hello(9)), "", &mut Decoder::new(), true, "ours") {
        Greeted::Refused(code, message) => {
            assert_eq!(code, err::PROTO_MISMATCH);
            assert_eq!(message, "remote acs speaks protocol 1 but the client speaks 9");
        }
        other => panic!("{other:?}"),
    }
    match greet(Msg::Hello(hello(1)), "", &mut Decoder::new(), false, "ours") {
        Greeted::Refused(code, message) => {
            assert_eq!(code, err::NO_SESSION);
            assert_eq!(message, "no session 'ours'");
        }
        other => panic!("{other:?}"),
    }
    match greet(Msg::Detach, "Detach", &mut Decoder::new(), true, "ours") {
        Greeted::Refused(code, message) => {
            assert_eq!(code, err::BAD_REQUEST);
            assert_eq!(message, "expected HELLO, got Detach");
        }
        other => panic!("{other:?}"),
    }
}

#[test]
fn a_master_is_started_until_it_comes_up() {
    assert_eq!(connect_or_start("w", false, false, false), Start::Missing);
    assert_eq!(connect_or_start("w", true, false, false), Start::Spawn { pause: false });
    assert_eq!(connect_or_start("w", true, false, true), Start::Spawn { pause: true });
    assert_eq!(
        connect_or_start("w", true, true, true),
        Start::Failed("session 'w' did not come up".to_string())
    );
}
