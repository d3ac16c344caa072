//! The smaller parts: each formula, and each error, on values written out.

use acs::client::connect::{answer_timeout, dial, dial_again, identity, Attempt, DialEnd};
use acs::client::notes::Terminal;
use acs::config::apply::Source;
use acs::config::Config;
use acs::config_cmd::run::{check_saved, load, run, Done, Error, File};
use acs::config_cmd::Cmd;
use acs::install::{
    check_binary, check_payloads, parse_finish, said_ok, side_call, target_on, uploads, Plan,
};
use acs::list::{host_lines, report, take_replies, Failure};
use acs::master::args::{parse_args, program, ready_said, spawn_args, MIN_RING};
use acs::master::{rebind_every, REBIND_MS};
use acs::menu::Choice;
use acs::netmatch::ip::Ip;
use acs::netmatch::{local_networks, Interface};
use acs::netwatch::{net_text, sorted, NetWatch};
use acs::pick::{every_host, opened, picked, settle, Settled};
use acs::proto::{err, Decoder, Hello, Marker, Mode, Msg, StatusInfo, WinSize, PROTO_VERSION};
use acs::proxy::{
    connect_or_start, end_session, greet, not_connected, status_of, Ending, Greeted, Relayed, Splice, Start, LIMIT,
};
use acs::reconnect::{Health, Liveness};
use acs::release::not_older;
use acs::resume::{InputDedupe, OutputRing, Read, Unacked};
use acs::safe::display_max;
use acs::session::{default_name_from, validate_name};
use acs::sha256::{digest, hex};
use acs::mux::Mux;
use acs::ssh::{check_local_forward, remote_acs, sh_quote, Call, Transport};
use acs::yaml::{Document, Node, Value};
use acs::{cli::Target, version_text};

fn owned(args: &[&str]) -> Vec<String> {
    args.iter().map(|a| a.to_string()).collect()
}

fn info(name: &str, attached: bool) -> StatusInfo {
    StatusInfo {
        name: name.to_string(),
        attached,
        ..StatusInfo::default()
    }
}

// ---- digests ---------------------------------------------------------------

#[test]
fn digests_of_known_messages() {
    let of = |m: &[u8]| hex(&digest(m));
    assert_eq!(
        of(b""),
        "e3b0c44298fc1c149afbf4c8996fb92427ae41e4649b934ca495991b7852b855"
    );
    assert_eq!(
        of(b"abc"),
        "ba7816bf8f01cfea414140de5dae2223b00361a396177a9cb410ff61f20015ad"
    );
    assert_eq!(
        of(b"abcdbcdecdefdefgefghfghighijhijkijkljklmklmnlmnomnopnopq"),
        "248d6a61d20638b8e5c026930c3e6039a33ce45964ff2167f6ecedd419db06c1"
    );
    assert_eq!(hex(&[0, 0x0f, 0xff]), "000fff");
}

// ---- names and texts -------------------------------------------------------

#[test]
fn what_is_displayed_holds_no_control_characters() {
    assert_eq!(display_max("a\x1b[31mb\u{9b}é", 256), "a?[31mb?é");
    assert_eq!(display_max("abcdef", 3), "abc");
}

#[test]
fn session_names() {
    for good in ["main", "1", "a.b_c-d", &"x".repeat(64)] {
        assert!(validate_name(good).is_ok(), "{good}");
    }
    for bad in ["", ".hidden", "-x", "a b", "a/b", "é", &"x".repeat(65)] {
        assert!(validate_name(bad).is_err(), "{bad}");
    }
    assert_eq!(default_name_from(None).unwrap(), "main");
    assert_eq!(default_name_from(Some("")).unwrap(), "main");
    assert_eq!(default_name_from(Some("work")).unwrap(), "work");
    assert!(default_name_from(Some("no good"))
        .unwrap_err()
        .contains("bad session name 'no good'"));
}

#[test]
fn words_of_a_shell_command() {
    assert_eq!(sh_quote("plain"), "'plain'");
    assert_eq!(sh_quote("it's"), "'it'\\''s'");
    assert_eq!(sh_quote(""), "''");
}

#[test]
fn forwards() {
    for good in [
        "8080:localhost:80",
        "127.0.0.1:8080:localhost:80",
        "[::1]:8080:[::1]:80",
    ] {
        assert!(check_local_forward(good).is_ok(), "{good}");
    }
    for bad in ["8080", "8080:localhost", "x:localhost:80", "8080:localhost:x"] {
        assert!(check_local_forward(bad).is_err(), "{bad}");
    }
}

#[test]
fn a_key_on_the_command_line_is_the_key() {
    let mut t = Transport::new("box".to_string());
    t.identity_file = Some("/keys/a".to_string());
    assert_eq!(t.effective_identity().map(|s| s.as_str()), Some("/keys/a"));
    t.user_opts = owned(&["-i", "/keys/b"]);
    assert!(t.user_identity());
    assert!(t.effective_identity().is_none());
}

#[test]
fn releases() {
    assert!(not_older("0.2.0", "0.1.9"));
    assert!(not_older("0.2.0", "0.2.0"));
    assert!(!not_older("0.2.0", "0.10.0"));
    assert!(not_older("mine", "0.10.0"));
}

#[test]
fn versions() {
    let carried = owned(&["aarch64-unknown-linux-musl", "x86_64-unknown-linux-musl"]);
    let text = version_text("x86_64-unknown-linux-musl", Some(&carried));
    assert_eq!(
        text,
        format!(
            "acs {} (protocol {PROTO_VERSION}, x86_64-unknown-linux-musl)\n\
             installs remotes: x86_64-unknown-linux-musl, aarch64-unknown-linux-musl\n",
            acs::VERSION
        )
    );
    assert!(version_text("x", None).ends_with("installs remotes: x (slim build)\n"));
}

#[test]
fn who_is_at_the_keyboard() {
    assert_eq!(identity(Some("given"), Some("me"), "mbp"), "given");
    assert_eq!(identity(None, Some("me"), "mbp"), "me@mbp");
    assert_eq!(identity(Some(""), Some("me"), "mbp"), "me@mbp");
}

// ---- what is kept for a lost link ------------------------------------------

#[test]
fn the_ring_keeps_the_newest() {
    let mut r = OutputRing::new(4);
    r.push(b"ab");
    assert_eq!(r.room_before_overwrite(0), 2);
    r.push(b"cdef");
    assert_eq!(r.end(), 6);
    assert!(matches!(r.read_from(0, 10), Read::Gap(2)));
    assert!(matches!(r.read_from(7, 10), Read::Future));
    match r.read_from(3, 2) {
        Read::Data(d) => assert_eq!(d, b"de"),
        _ => panic!("not there"),
    }
    assert_eq!(r.room_before_overwrite(2), 0);
    assert_eq!(r.room_before_overwrite(6), 4);
}

#[test]
fn resent_input_is_taken_once() {
    let mut d = InputDedupe::default();
    assert_eq!(d.accept(0, b"abc").unwrap(), b"abc");
    assert_eq!(d.accept(0, b"abc").unwrap(), b"");
    assert_eq!(d.accept(1, b"bcde").unwrap(), b"de");
    assert_eq!(d.written(), 5);
    assert!(d.accept(u64::MAX, b"x").is_none());
    d.rewind(2);
    assert_eq!(d.accept(3, b"de").unwrap(), b"de");
}

#[test]
fn what_is_not_acknowledged_is_owed() {
    let mut u = Unacked::new(0);
    assert_eq!(u.push(b"abc"), 0);
    assert_eq!(u.push(b"de"), 3);
    u.ack(2);
    assert_eq!((u.seq, u.bytes.as_slice()), (2, &b"cde"[..]));
    u.ack(1);
    assert_eq!(u.seq, 2);
    u.rebase(4, true);
    assert_eq!((u.seq, u.bytes.as_slice()), (4, &b"e"[..]));
    u.rebase(0, false);
    assert!(u.is_empty());
    assert_eq!(u.seq, 0);
}

#[test]
fn a_ping_after_silence_and_an_end_after_more_of_it() {
    let mut l = Liveness::new(0, 10, 30, 5);
    let mut out = Vec::new();
    assert_eq!(l.next_deadline_ms(), 10);
    assert_eq!(l.tick(&mut out, 9), Health::Alive);
    assert!(out.is_empty());
    assert_eq!(l.tick(&mut out, 10), Health::Alive);
    assert_eq!(out, Msg::Ping(0).to_bytes());
    l.heard(12);
    assert_eq!(l.next_deadline_ms(), 22);
    // The question of a network change has its own, shorter, patience.
    out.clear();
    l.netcheck(&mut out, 15);
    assert_eq!(out, Msg::Ping(1).to_bytes());
    assert_eq!(l.next_deadline_ms(), 20);
    l.pong(1);
    assert_eq!(l.tick(&mut out, 20), Health::Alive);
    l.netcheck(&mut out, 21);
    assert_eq!(l.tick(&mut out, 26), Health::Dead);
}

// ---- networks --------------------------------------------------------------

#[test]
fn the_networks_of_the_interfaces_that_are_up() {
    let at = |up: bool, addr: &str, mask: Option<&[u8]>| Interface {
        up,
        addr: Ip::parse(addr),
        mask: mask.map(|m| m.to_vec()),
    };
    let found = [
        at(true, "127.0.0.1", Some(&[255])),
        at(true, "192.168.1.5", Some(&[255, 255, 255])),
        at(false, "10.0.0.5", Some(&[255])),
        at(true, "10.0.0.5", None),
        at(true, "", Some(&[255])),
        at(true, "fd00::5", Some(&[255; 8])),
    ];
    let nets: Vec<String> = local_networks(&found).iter().map(|n| n.text()).collect();
    assert_eq!(nets, ["192.168.1.0/24", "fd00::/64"]);
}

#[test]
fn a_change_is_a_change_of_networks() {
    let net = |s: &str| net_text(&acs::netmatch::LocalNet::parse(s).unwrap());
    let (a, b) = (net("10.0.0.5/8"), net("192.168.1.5/24"));
    assert_ne!(a, b);
    let mut w = NetWatch::new(vec![a.clone(), b.clone()]);
    assert!(!w.changed(false, Vec::new()), "nothing hints at it");
    assert!(!w.changed(true, vec![b.clone(), a.clone()]), "another order");
    assert!(w.changed(true, vec![b.clone()]));
    assert!(!w.changed(true, vec![b.clone()]));
    assert_eq!(sorted(vec![b.clone(), a.clone()]), sorted(vec![a, b]));
}

// ---- the proxy -------------------------------------------------------------

#[test]
fn a_session_told_to_end() {
    let mut d = Decoder::new();
    let said = |d: &mut Decoder, e: Ending| end_session(d, "work", e);
    assert!(said(&mut d, Ending::Interrupted).is_none());
    assert!(said(&mut d, Ending::Bytes(Msg::Ping(1).to_bytes())).is_none());
    assert_eq!(said(&mut d, Ending::Closed), Some(Ok(())));
    let error = Msg::Error {
        code: err::EXISTS,
        message: "no".to_string(),
    }
    .to_bytes();
    let (front, back) = error.split_at(3);
    assert!(said(&mut d, Ending::Bytes(front.to_vec())).is_none());
    assert_eq!(
        said(&mut d, Ending::Bytes(back.to_vec())),
        Some(Err((err::EXISTS, "no".to_string())))
    );
    assert_eq!(
        said(&mut d, Ending::TimedOut),
        Some(Err((
            err::INTERNAL,
            "session 'work' did not end within 10 s".to_string()
        )))
    );
    assert_eq!(
        said(&mut d, Ending::Failed("gone".to_string())),
        Some(Err((err::INTERNAL, "session 'work': gone".to_string())))
    );
    assert_eq!(
        not_connected("work", "/s/work", None),
        (err::NO_SESSION, "no session 'work'".to_string())
    );
    assert_eq!(
        not_connected("work", "/s/work", Some("denied")),
        (err::INTERNAL, "connect /s/work: denied".to_string())
    );
}

#[test]
fn a_masters_status() {
    let mut d = Decoder::new();
    assert_eq!(status_of(&mut d), Ok(None));
    d.push(&Msg::StatusReply(info("work", true)).to_bytes());
    assert_eq!(status_of(&mut d), Ok(Some(info("work", true))));
    d.push(&Msg::Detach.to_bytes());
    assert_eq!(status_of(&mut d), Err("unexpected reply".to_string()));
    d.push(&[0xee, 0, 0, 0, 0]);
    assert!(status_of(&mut d).is_err());
}

#[test]
fn the_proxy_greets() {
    let hello = |proto: u16| {
        Msg::Hello(Hello {
            proto,
            session: "asked".to_string(),
            mode: Mode::Attach,
            identity: String::new(),
            force: false,
            term: String::new(),
            colorterm: String::new(),
            size: WinSize::default(),
            resume: None,
            command: Vec::new(),
        })
    };
    let mut rest = Decoder::new();
    rest.push(&Msg::Ping(5).to_bytes());
    match greet(hello(PROTO_VERSION), "", &mut rest, true, "given") {
        Greeted::Relay(bytes) => {
            let mut d = Decoder::new();
            d.push(&bytes);
            match d.next_msg().unwrap() {
                Some(Msg::Hello(h)) => assert_eq!(h.session, "given"),
                other => panic!("{other:?}"),
            }
            assert_eq!(d.next_msg().unwrap(), Some(Msg::Ping(5)));
        }
        Greeted::Refused(..) => panic!("refused"),
    }
    let refused = |m: Msg, found: bool| match greet(m, "Detach", &mut Decoder::new(), found, "x") {
        Greeted::Refused(code, text) => (code, text),
        Greeted::Relay(_) => panic!("relayed"),
    };
    assert_eq!(
        refused(hello(9), true),
        (
            err::PROTO_MISMATCH,
            format!("remote acs speaks protocol {PROTO_VERSION} but the client speaks 9")
        )
    );
    assert_eq!(
        refused(hello(PROTO_VERSION), false),
        (err::NO_SESSION, "no session 'x'".to_string())
    );
    assert_eq!(
        refused(Msg::Detach, true),
        (err::BAD_REQUEST, "expected HELLO, got Detach".to_string())
    );
}

#[test]
fn a_relay_holds_no_more_than_its_share() {
    let mut s = Splice::new(b"hi".to_vec());
    assert!(s.wants().to_master && s.wants().input && !s.wants().output);
    s.master_took(2);
    assert!(!s.wants().to_master);
    s.input(&vec![0; LIMIT]);
    assert!(!s.wants().input, "full");
    assert!(matches!(s.master(b"out"), Relayed::On));
    assert!(s.wants().output);
    s.client_took(3);
    assert!(!s.wants().output);
    // The client closes its side; the master its own.
    s.input(b"");
    assert!(!s.input_open);
    assert!(!matches!(s.master(b""), Relayed::On));
}

#[test]
fn finding_or_starting_a_master() {
    assert!(matches!(
        connect_or_start("w", false, false, false),
        Start::Missing
    ));
    assert!(matches!(
        connect_or_start("w", true, false, false),
        Start::Spawn { .. }
    ));
    match connect_or_start("w", true, true, true) {
        Start::Failed(e) => assert_eq!(e, "session 'w' did not come up"),
        _ => panic!("goes on"),
    }
}

// ---- a master's arguments --------------------------------------------------

#[test]
fn a_master_is_started_and_says_when_it_is_ready() {
    let args = spawn_args("/tmp/acs-0", "work");
    let a = parse_args(&args, 0).unwrap();
    assert_eq!(a.dir.as_deref(), Some("/tmp/acs-0"));
    assert_eq!(a.session, "work");
    assert_eq!(a.ready_fd, Some(3));
    assert_eq!(a.ring, MIN_RING);
    for (args, want) in [
        (&["--dir"][..], "--dir needs a value"),
        (&["--session", "a", "--ready-fd", "x"], "bad --ready-fd"),
        (&["--session", "a", "--ring", "-1"], "bad --ring"),
        (&["--session", "a b"], "bad session name 'a b'"),
        (&["--bogus"], "unexpected argument --bogus"),
        (&[], "missing --session"),
    ] {
        let e = parse_args(&owned(args), 0).unwrap_err();
        assert!(e.contains(want), "{args:?}: {e}");
    }
    assert_eq!(ready_said("ok\n"), Ok(()));
    assert_eq!(
        ready_said(" \n"),
        Err("master exited before it was ready".to_string())
    );
    assert_eq!(ready_said("err: err: bind\n"), Err("bind".to_string()));
    assert_eq!(rebind_every(None), REBIND_MS);
    assert_eq!(rebind_every(Some("50")), 50);
    assert_eq!(rebind_every(Some("soon")), REBIND_MS);
}

#[test]
fn the_program_of_a_session() {
    let p = program(Some("/bin/zsh"), &Vec::new(), "", "");
    assert_eq!(p.argv, ["/bin/zsh", "-l"]);
    assert_eq!(p.description, "/bin/zsh -l");
    assert_eq!(p.term, "xterm-256color");
    assert!(p.colorterm.is_none());
    let p = program(None, &owned(&["htop", "-d", "10"]), "xterm", "truecolor");
    assert_eq!(p.argv, ["htop", "-d", "10"]);
    assert_eq!(p.description, "htop -d 10");
    assert_eq!(p.term, "xterm");
    assert_eq!(p.colorterm.as_deref(), Some("truecolor"));
    assert_eq!(program(Some(""), &Vec::new(), "", "").argv, ["/bin/sh", "-l"]);
}

// ---- listing and picking ---------------------------------------------------

#[test]
fn replies_are_taken_until_there_are_no_more() {
    let mut d = Decoder::new();
    d.push(&Msg::StatusReply(info("a", false)).to_bytes());
    d.push(&Msg::Ping(1).to_bytes());
    d.push(&Msg::StatusReply(info("b", true)).to_bytes());
    let mut sessions = Vec::new();
    assert!(take_replies(&mut d, &mut sessions).is_ok());
    let names: Vec<&str> = sessions.iter().map(|s| s.name.as_str()).collect();
    assert_eq!(names, ["a", "b"]);
    d.push(&[0xee, 0, 0, 0, 0]);
    match take_replies(&mut d, &mut sessions) {
        Err(f @ Failure::BadReply(_)) => {
            assert_eq!(f.code(), 1);
            assert!(f.message("devbox").contains("devbox"));
        }
        _ => panic!("taken"),
    }
}

#[test]
fn every_alias_is_reported() {
    let aliases = owned(&["a", "b", "c", "d"]);
    let answers = vec![
        Ok(Some(vec![info("main", false)])),
        Ok(Some(Vec::new())),
        Ok(None),
        Err(Failure::Unreachable("no route".to_string())),
    ];
    let r = report(&aliases, &answers, 0);
    assert!(r.out.contains("main"), "{}", r.out);
    assert!(r.out.contains("no sessions on b\n"), "{}", r.out);
    assert!(r.out.contains("is not installed there"), "{}", r.out);
    assert_eq!(r.failed, ["acs: d: no route"]);
    assert_eq!(r.code, 255);
    assert_eq!(report(&owned(&["b"]), &vec![Ok(Some(Vec::new()))], 0).code, 0);
    let sessions = [info("main", false)];
    let lines = host_lines(&owned(&["a"]), &[&sessions[..]], 0);
    assert!(lines[0].starts_with("HOST"), "{lines:?}");
}

#[test]
fn what_a_plain_host_attaches_to() {
    // Nothing there yet, or nothing to pick: the default session.
    assert!(matches!(
        settle(None, "main", false),
        Settled::Use(Target::Named(n)) if n == "main"
    ));
    let attached = [info("main", true)];
    assert!(matches!(
        settle(Some(&attached), "main", false),
        Settled::Use(Target::New)
    ));
    // Something detached, or the menu asked for.
    let detached = [info("old", false)];
    assert!(matches!(settle(Some(&detached), "main", false), Settled::Menu));
    assert!(matches!(settle(Some(&attached), "main", true), Settled::Menu));
    let attach = || Choice::Attach {
        host: 1,
        name: "old".to_string(),
        force: true,
    };
    assert_eq!(
        picked(attach(), &detached, "main", false),
        Ok((Target::Named("old".to_string()), true))
    );
    assert_eq!(
        picked(Choice::New { host: 0 }, &detached, "main", false),
        Ok((Target::Named("main".to_string()), false))
    );
    assert_eq!(picked(Choice::Leave(0), &detached, "main", false), Err(0));
    assert_eq!(
        every_host(attach(), false),
        Ok((1, Target::Named("old".to_string()), true))
    );
}

#[test]
fn the_picking_connection() {
    let ready = |proto: u16| Marker::Ready {
        proto,
        rest: b"rest".to_vec(),
    };
    assert!(matches!(opened(ready(PROTO_VERSION)), Ok(Some(b)) if b == b"rest"));
    match opened(ready(9)) {
        Err(Failure::BadReply(e)) => assert_eq!(
            e,
            format!("remote acs speaks protocol 9, this client {PROTO_VERSION}")
        ),
        _ => panic!("understood"),
    }
    let need = Marker::Need {
        os: "Linux".to_string(),
        arch: "x86_64".to_string(),
    };
    assert!(matches!(opened(need), Ok(None)));
}

// ---- dialing ---------------------------------------------------------------

#[test]
fn a_shared_connection_that_does_not_answer_is_left() {
    assert!(answer_timeout(true, None) < answer_timeout(false, None));
    assert!(matches!(dial(false, 10_000, 500), Attempt::Alone(10_000)));
    let joining = dial(true, 10_000, 500);
    assert!(matches!(joining, Attempt::Joining(500)));
    match dial_again(joining, DialEnd::TimedOut, 10_000, "box", "0.5") {
        Some((Attempt::Alone(ms), said)) => {
            assert_eq!(ms, 10_000);
            assert_eq!(
                said,
                "the shared ssh master for box did not answer within 0.5 s — dialing its own connection"
            );
        }
        _ => panic!("given up"),
    }
    assert!(dial_again(dial(false, 10_000, 500), DialEnd::TimedOut, 10_000, "box", "10").is_none());
}

#[test]
fn notes_are_made_safe() {
    let mut t = Terminal::capture();
    t.note("a\x1bb", 0);
    assert_eq!(t.written(), ["acs: a?b\r\n"]);
}

// ---- installing ------------------------------------------------------------

#[test]
fn what_is_uploaded() {
    let up = uploads(
        Plan::SelfCopy {
            data: b"abc".to_vec(),
        },
        "00ff",
    );
    assert_eq!(up.len(), 1);
    assert!(up[0].expect_ok);
    assert_eq!(up[0].input, b"abc");
    let sum = "ba7816bf8f01cfea414140de5dae2223b00361a396177a9cb410ff61f20015ad";
    let end = format!("_install --finish --token 00ff --sha256 {sum}");
    assert!(up[0].script.ends_with(&end), "{}", up[0].script);
    let f = parse_finish(&owned(&["--finish", "--token", "00ff", "--sha256", sum])).unwrap();
    assert_eq!(check_binary(&f.sha256, b"abc"), Ok(()));
    assert_eq!(
        check_binary(&f.sha256, b"abd"),
        Err("the uploaded binary is corrupt (checksum mismatch)".to_string())
    );
    assert!(check_payloads(&None, b"nothing").is_err());
    let up = uploads(
        Plan::Payload {
            gz: b"gz".to_vec(),
            blob: b"abc".to_vec(),
            digest: [0; 32],
        },
        "00ff",
    );
    assert_eq!(up.len(), 2);
    assert!(!up[0].expect_ok && up[1].expect_ok);
    assert!(up[1].script.contains(sum), "{}", up[1].script);
}

#[test]
fn what_comes_of_an_upload() {
    assert!(said_ok("banner\n ok \r\n"));
    assert!(!said_ok("okay\n"));
    assert_eq!(side_call(None, "noise\nok\n", true), Ok(()));
    assert_eq!(side_call(None, "", false), Ok(()));
    assert_eq!(
        side_call(Some("exit status: 4"), "ok\n", true),
        Err("installing acs failed (exit status: 4)".to_string())
    );
    assert_eq!(
        side_call(None, " a\"b\n", true),
        Err("unexpected reply while installing: \"a\\\"b\"".to_string())
    );
    assert!(target_on("box", "Linux", "x86_64", false).is_ok());
    assert!(target_on("box", "Plan9", "mips", false).is_err());
    assert!(target_on("box", "Linux", "x86_64", true)
        .unwrap_err()
        .contains("still cannot run it"));
}

// ---- acs config ------------------------------------------------------------

fn file(path: &str, doc: Option<Document>) -> File {
    File {
        path: path.to_string(),
        found: doc.is_some(),
        read: Ok(doc),
    }
}

fn setting(key: &str, value: bool) -> Document {
    Document {
        root: Node::new(Value::Mapping(vec![(key.to_string(), Node::bool(value))])),
        tail: Vec::new(),
    }
}

#[test]
fn a_command_reads_what_it_needs() {
    let global = || file("/g.yaml", Some(setting("persist", true)));
    let local = || file("/l.yaml", None);
    assert!(load(&global(), &local()).unwrap().persist.value);
    match run(&Cmd::Get("persist".to_string()), global(), local(), false, None) {
        Ok(Done::Print(s)) => assert!(s.starts_with("true"), "{s}"),
        _ => panic!("not printed"),
    }
    let set = Cmd::SetTo("persist".to_string(), "false".to_string());
    match run(&set, global(), local(), false, None) {
        Ok(Done::Save(doc, said)) => {
            assert!(said.contains("set persist to false"), "{said}");
            let c = Config::load_files(&[Source {
                file: "/l.yaml".to_string(),
                doc: Some(doc),
            }])
            .unwrap();
            assert!(!c.persist.value);
        }
        _ => panic!("not saved"),
    }
    let bad = Cmd::SetTo("persist".to_string(), "maybe".to_string());
    match run(&bad, global(), local(), false, None) {
        Err(e @ Error::Usage(_)) => {
            assert_eq!(e.code(), 2);
            assert!(e.text().contains("true or false"), "{}", e.text());
        }
        _ => panic!("accepted"),
    }
    assert!(check_saved("/l.yaml", &setting("persist", true)).is_ok());
    assert!(check_saved("/l.yaml", &setting("nope", true)).is_err());
}

#[test]
fn one_file_under_two_names_is_one_file() {
    let doc = || {
        let entry = Node::new(Value::Mapping(vec![("host".to_string(), Node::string("a"))]));
        let alias = Node::new(Value::Mapping(vec![
            ("identity_file".to_string(), Node::string("/k")),
            ("hosts".to_string(), Node::new(Value::List(vec![entry]))),
        ]));
        let aliases = Node::new(Value::Mapping(vec![("d".to_string(), alias)]));
        Document {
            root: Node::new(Value::Mapping(vec![("aliases".to_string(), aliases)])),
            tail: Vec::new(),
        }
    };
    let remove = Cmd::HostRemove { alias: "d".to_string(), host: Some("b".to_string()) };
    let there = |path: &str| file(path, Some(doc()));
    let said = |g: &str, l: &str, to_global: bool| {
        match run(&remove, there(g), there(l), to_global, None) {
            Err(e @ Error::Usage(_)) => e.text().to_string(),
            _ => panic!("removed"),
        }
    };
    for (g, l, to_global, hint) in [
        ("/x/g.yaml", "/x/l.yaml", false, "it is set in /x/g.yaml:0 (use --global)"),
        ("/x/g.yaml", "/x/l.yaml", true, "it is set in /x/l.yaml:0 (use no --global)"),
        ("/x//f.yaml", "/x/f.yaml", false, "it is set in /x/f.yaml:0 (use --global)"),
        ("/x//f.yaml", "/x/f.yaml", true, "it is set in /x/f.yaml:0 (use --global)"),
    ] {
        let e = said(g, l, to_global);
        assert!(e.ends_with(hint), "{e}");
    }
}

// ---- ssh -------------------------------------------------------------------

#[test]
fn the_command_line_of_a_call() {
    let mut t = Transport::new("me@box".to_string());
    t.user_opts = owned(&["-p", "2222"]);
    t.identity_file = Some("/keys/a".to_string());
    t.local_forwards = owned(&["8080:localhost:80"]);
    let own = "-o ServerAliveInterval=0 -o ControlMaster=no -o ControlPath=none -T me@box R";
    assert_eq!(
        t.argv(Call::Session, "R", None).join(" "),
        format!("ssh -p 2222 -i /keys/a -L 8080:localhost:80 {own}")
    );
    // A forward is for the session's own ssh alone.
    assert_eq!(
        t.argv(Call::Side, "R", None).join(" "),
        format!("ssh -p 2222 -i /keys/a {own}")
    );
    // Where nobody can answer, ssh does not ask.
    assert_eq!(
        t.argv(Call::Batch, "R", None).join(" "),
        format!("ssh -o BatchMode=yes -p 2222 -i /keys/a {own}")
    );
    t.mux = Some(Mux {
        dir: "/d".to_string(),
        persist: 300,
    });
    assert!(t.multiplexes(Call::Batch));
    let shared = t.argv(Call::Side, "R", Some("/d/s")).join(" ");
    assert!(
        shared.contains("-o ControlMaster=auto -o ControlPath=/d/s -o ControlPersist=300"),
        "{shared}"
    );
    // A redial never goes over it.
    let redial = t.argv(Call::Redial, "R", Some("/d/s"));
    assert!(redial.contains(&"ControlPath=none".to_string()), "{redial:?}");
    assert_eq!(
        t.control_argv("exit", "/d/s").join(" "),
        "ssh -o ControlPath=/d/s -O exit me@box"
    );
    t.transport_cmd = Some(" sh  -c ".to_string());
    assert_eq!(t.argv(Call::Session, "R", None), ["sh", "-c", "R"]);
}

#[test]
fn acs_is_run_on_the_host_or_asked_for() {
    let r = remote_acs("0.1.0", &owned(&["_proxy", "--list"]));
    assert!(r.starts_with("exec sh -c '"), "{r}");
    assert!(r.contains(".local/share/acs/'\\''0.1.0'\\''/acs"), "{r}");
    assert!(r.contains("'\\''_proxy'\\'' '\\''--list'\\''"), "{r}");
    assert!(r.contains("ACS-NEED"), "{r}");
}
