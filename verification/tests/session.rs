//! A session from both ends: the client's relay and the master, over a wire of bytes.

use acs::cli::{parse, ClientArgs, Parsed};
use acs::client::code::{TAKEN_OVER, UNREACHABLE};
use acs::client::connect::hello;
use acs::client::notes::{Act, Terminal};
use acs::client::serve::{exit_code, Decoded, LinkEnd, Outcome, Relay, Turn};
use acs::client::state::{take_keys, State};
use acs::keys;
use acs::master::{Master, Moment, Todo, REBIND_MS};
use acs::proto::{err, AttachKind, Decoder, Hello, Mode, Msg, Resume, WinSize, PROTO_VERSION};
use acs::reconnect::Liveness;

fn size() -> WinSize {
    WinSize {
        cols: 80,
        rows: 24,
        xpixel: 0,
        ypixel: 0,
    }
}

fn patience(now: u64) -> Liveness {
    Liveness::new(now, 15_000, 45_000, 3_000)
}

fn at(now: u64) -> Moment {
    Moment {
        now,
        unix: 1_700_000_000,
        pid: 42,
    }
}

fn master(ring: usize) -> Master {
    Master::bind(
        "main".to_string(),
        false,
        ring,
        7,
        REBIND_MS,
        patience(0),
        0,
        1_700_000_000,
    )
    .unwrap()
}

fn args() -> ClientArgs {
    match parse(vec!["devbox".to_string()], None).unwrap() {
        Parsed::Run(a) => *a,
        other => panic!("{other:?}"),
    }
}

fn state() -> State {
    State::new(
        "devbox".to_string(),
        Some("main".to_string()),
        "me@mbp".to_string(),
        true,
        true,
        keys::Detector::new(keys::Config::default()),
        false,
    )
}

/// One end of the client: its link, what it remembers, and its terminal.
struct Client {
    link: Relay,
    state: State,
    term: Terminal,
}

impl Client {
    fn dial(state: State, now: u64) -> Client {
        let greeting = hello(&args(), &state, state.force_next, "xterm", "", size());
        Client {
            link: Relay::start(
                &[],
                Msg::Hello(greeting).to_bytes(),
                5_000,
                size(),
                patience(now),
                now,
            ),
            state,
            term: Terminal::capture(),
        }
    }

    /// Take what the master sent; the last thing that came of it.
    fn take(&mut self, bytes: &[u8], now: u64) -> Option<Turn> {
        let mut last = None;
        // A read of nothing is the end of the link.
        if !bytes.is_empty() {
            assert!(self.link.bytes(bytes, now).is_none());
        }
        loop {
            match self.link.decode(&self.state, &mut self.term, now) {
                Decoded::Got(m) => {
                    let turn = self
                        .link
                        .message(&mut self.state, &mut self.term, m, now);
                    if let Turn::Raw(w) = &turn {
                        self.link
                            .welcomed(&mut self.state, &mut self.term, w, Some(size()));
                        self.term.relay();
                    }
                    last = Some(turn);
                }
                Decoded::More => return last,
                Decoded::Over(o) => panic!("{o:?}"),
            }
        }
    }

    /// What was put on the terminal, but the notes.
    fn printed(&mut self) -> Vec<u8> {
        self.term
            .take()
            .into_iter()
            .filter_map(|a| match a {
                Act::Out(b) => Some(b),
                Act::Note(_) => None,
            })
            .flatten()
            .collect()
    }

    fn typed(&mut self, keys: &[u8], now: u64) {
        let action = take_keys(
            &mut self.state,
            &mut self.term,
            &mut self.link.out,
            Some(keys),
            now,
        );
        assert!(action.is_none());
    }
}

/// Everything the client has to say goes to connection `i` of the master, which
/// starts its program where it is asked to.
fn say(m: &mut Master, i: usize, bytes: Vec<u8>, now: u64) -> Vec<Todo> {
    let mut asked = Vec::new();
    m.conn_bytes(i, &bytes, now);
    while let Some(todo) = m.conn_next(i, at(now)) {
        match todo {
            Todo::StartChild(h) => {
                asked.push(m.started(i, &h, "sh -l".to_string(), at(now)));
            }
            other => asked.push(other),
        }
    }
    asked
}

/// Everything the master has to say to connection `i`.
fn heard(m: &mut Master, i: usize) -> Vec<u8> {
    m.pump_output();
    let bytes = m.conns[i].out.clone();
    m.conn_wrote(i, bytes.len());
    bytes
}

fn messages(bytes: &[u8]) -> Vec<Msg> {
    let mut dec = Decoder::new();
    dec.push(bytes);
    let mut all = Vec::new();
    while let Some(m) = dec.next_msg().unwrap() {
        all.push(m);
    }
    assert_eq!(dec.pending(), 0);
    all
}

fn attach(m: &mut Master, mut c: Client, key: u64, now: u64) -> (Client, usize) {
    m.accept(key, now);
    let i = m.conns.len() - 1;
    let greeting = std::mem::take(&mut c.link.out);
    say(m, i, greeting, now);
    let reply = heard(m, i);
    c.take(&reply, now);
    assert!(c.link.welcomed);
    (c, i)
}

#[test]
fn output_and_input_go_through() {
    let mut m = master(1 << 20);
    let (mut c, i) = attach(&mut m, Client::dial(state(), 0), 1, 0);
    assert_eq!(c.state.instance, Some(7));
    assert_eq!(c.state.session.as_deref(), Some("main"));
    c.printed();

    m.pty_bytes(b"$ ", 10);
    let out = heard(&mut m, i);
    c.take(&out, 10);
    assert_eq!(c.printed(), b"$ ");
    assert_eq!(c.state.offset, 2);

    c.typed(b"ls\r", 20);
    assert_eq!(c.state.unacked.bytes, b"ls\r");
    let input = std::mem::take(&mut c.link.out);
    say(&mut m, i, input, 20);
    assert_eq!(m.pty_in, b"ls\r");
    assert_eq!(m.written_to_pty(), 0);
    // Acknowledged as it is written to the program, not before.
    m.pty_wrote(2);
    m.ack_written();
    let ack = heard(&mut m, i);
    c.take(&ack, 30);
    assert_eq!(c.state.unacked.bytes, b"\r");
    m.pty_wrote(1);
    m.ack_written();
    let ack = heard(&mut m, i);
    c.take(&ack, 30);
    assert!(c.state.unacked.is_empty());
}

#[test]
fn a_lost_link_goes_on_where_it_stopped() {
    let mut m = master(1 << 20);
    let (mut c, i) = attach(&mut m, Client::dial(state(), 0), 1, 0);
    c.printed();
    m.pty_bytes(b"one ", 10);
    let out = heard(&mut m, i);
    c.take(&out, 10);
    // Typed, but the link is lost before it gets there.
    c.typed(b"x", 20);
    assert_eq!(
        c.link.bytes(&[], 20),
        Some(Outcome::LinkLost(LinkEnd::Transport))
    );
    m.conn_end(i);
    m.settle();
    assert!(m.conns.is_empty());
    // The program goes on without anybody.
    m.pty_bytes(b"two ", 30);

    let again = Client::dial(c.state, 40);
    let (mut c, i) = attach(&mut m, again, 2, 40);
    let out = heard(&mut m, i);
    c.take(&out, 50);
    let printed = c.printed();
    assert!(printed.ends_with(b"two "), "{printed:?}");
    assert_eq!(c.state.offset, 8);
    // What was typed meanwhile is sent again, once.
    let resent = std::mem::take(&mut c.link.out);
    say(&mut m, i, resent.clone(), 60);
    assert!(m.pty_in.starts_with(b"x"), "{:?}", m.pty_in);
    let taken = m.pty_in.clone();
    say(&mut m, i, resent, 60);
    assert_eq!(m.pty_in, taken);
}

#[test]
fn output_that_is_gone_is_a_gap() {
    let mut m = master(4096);
    let (c, i) = attach(&mut m, Client::dial(state(), 0), 1, 0);
    m.conn_end(i);
    m.settle();
    m.pty_bytes(&vec![b'a'; 4096], 10);
    m.pty_bytes(&vec![b'b'; 4096], 20);
    m.accept(2, 30);
    let greeting = hello(&args(), &c.state, false, "xterm", "", size());
    assert_eq!(
        greeting.resume,
        Some(Resume {
            instance: 7,
            offset: 0
        })
    );
    say(&mut m, 0, Msg::Hello(greeting).to_bytes(), 30);
    match &messages(&heard(&mut m, 0))[0] {
        Msg::Welcome(w) => {
            assert_eq!(w.kind, AttachKind::Gap);
            assert_eq!(w.offset, 8192);
        }
        other => panic!("{other:?}"),
    }
}

fn greeting(session: &str, mode: Mode, identity: &str, force: bool) -> Vec<u8> {
    Msg::Hello(Hello {
        proto: PROTO_VERSION,
        session: session.to_string(),
        mode,
        identity: identity.to_string(),
        force,
        term: String::new(),
        colorterm: String::new(),
        size: size(),
        resume: None,
        command: Vec::new(),
    })
    .to_bytes()
}

#[test]
fn a_hello_that_does_not_fit_is_refused() {
    let error = |m: &mut Master, bytes: Vec<u8>| {
        m.accept(9, 0);
        let i = m.conns.len() - 1;
        say(m, i, bytes, 0);
        match &messages(&heard(m, i))[0] {
            Msg::Error { code, .. } => *code,
            other => panic!("{other:?}"),
        }
    };
    let mut m = master(4096);
    assert_eq!(
        error(&mut m, greeting("main", Mode::Attach, "me", false)),
        err::NO_SESSION
    );
    assert_eq!(
        error(&mut m, greeting("other", Mode::Create, "me", false)),
        err::BAD_REQUEST
    );
    let (_c, _) = attach(&mut m, Client::dial(state(), 0), 1, 0);
    assert_eq!(
        error(&mut m, greeting("main", Mode::Create, "me@mbp", false)),
        err::EXISTS
    );
}

#[test]
fn another_client_takes_force_to_take_over() {
    let mut m = master(4096);
    let (mut c, _) = attach(&mut m, Client::dial(state(), 0), 1, 0);
    m.accept(2, 10);
    let hello = greeting("main", Mode::AttachOrCreate, "you@desk", false);
    say(&mut m, 1, hello, 10);
    match &messages(&heard(&mut m, 1))[0] {
        Msg::Busy { identity, .. } => assert_eq!(identity, "me@mbp"),
        other => panic!("{other:?}"),
    }
    assert_eq!(m.active(), Some(0));
    let hello = greeting("main", Mode::AttachOrCreate, "you@desk", true);
    say(&mut m, 1, hello, 20);
    assert_eq!(m.active(), Some(1));
    let out = heard(&mut m, 0);
    match c.take(&out, 20) {
        Some(Turn::Over(Outcome::Exit(code))) => assert_eq!(code, TAKEN_OVER),
        _ => panic!("still attached"),
    }
}

#[test]
fn the_rest_and_the_status_come_last() {
    let mut m = master(4096);
    let (mut c, i) = attach(&mut m, Client::dial(state(), 0), 1, 0);
    c.printed();
    m.pty_bytes(b"bye\r\n", 10);
    m.child_exited(3 << 8);
    assert!(!m.is_finished());
    m.pty_end();
    assert!(m.is_finished());
    m.finish();
    let out = heard(&mut m, i);
    match c.take(&out, 20) {
        Some(Turn::Over(Outcome::Exit(code))) => assert_eq!(code, 3),
        _ => panic!("still attached"),
    }
    assert!(c.printed().starts_with(b"bye\r\n"));
}

#[test]
fn a_session_is_killed_by_its_own_or_by_force() {
    let mut m = master(4096);
    let (_c, _) = attach(&mut m, Client::dial(state(), 0), 1, 0);
    m.accept(2, 10);
    assert!(matches!(m.kill(1, "you@desk", false, 10), Todo::Nothing));
    assert!(m.kill_deadline.is_none());
    assert!(matches!(m.kill(1, "you@desk", true, 10), Todo::HangUp));
    assert!(m.kill_deadline.is_some());
    // The program has a while to go before it is killed.
    assert!(!m.hard_kill(1_000));
    assert!(m.hard_kill(10_000));
}

#[test]
fn a_master_without_a_session_gives_up() {
    let m = master(4096);
    assert!(!m.is_orphaned(30_000));
    assert!(m.is_orphaned(30_001));
    let taken = Master::bind("main".to_string(), true, 4096, 7, REBIND_MS, patience(0), 0, 0);
    assert_eq!(
        taken.err().as_deref(),
        Some("session 'main' already has a master")
    );
}

#[test]
fn silence_ends_a_link_and_a_pong_keeps_it() {
    let mut m = master(1 << 20);
    let (mut c, _) = attach(&mut m, Client::dial(state(), 0), 1, 0);
    c.link.out.clear();
    assert!(c.link.clock(&c.state, &mut c.term, "devbox", "30", 15_000).is_none());
    assert_eq!(messages(&c.link.out), [Msg::Ping(0)]);
    assert_eq!(
        c.link.clock(&c.state, &mut c.term, "devbox", "30", 45_000),
        Some(Outcome::LinkLost(LinkEnd::Silent))
    );
}

#[test]
fn an_exit_status_is_a_code() {
    assert_eq!(exit_code(0), 0);
    assert_eq!(exit_code(3 << 8), 3);
    // By a signal.
    assert_eq!(exit_code(9), 137);
}

#[test]
fn a_first_connection_that_is_not_answered_is_given_up() {
    let mut c = Client::dial(state(), 0);
    assert!(c.link.clock(&c.state, &mut c.term, "devbox", "5", 4_999).is_none());
    assert_eq!(
        c.link.clock(&c.state, &mut c.term, "devbox", "5", 5_000),
        Some(Outcome::Exit(UNREACHABLE))
    );
    let said = c.term.written().concat();
    assert!(said.contains("no answer from devbox within 5 s"), "{said}");
}
