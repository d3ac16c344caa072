//! The per-connection proxy, `acs _proxy`: spawned by sshd, it finds or starts the
//! session's master, announces `ACS-READY`, checks the client's HELLO, and then
//! relays bytes both ways until either side closes. With `--list` it reports every
//! session's STATUS instead; with `--kill <name>` it ends that session first (the
//! session menu).

pub mod laws;

use crate::proto::err;
use crate::proto::laws::{frames, messages};
use crate::proto::{
    frame, next_frame, Decoder, HelloView, Mode, Msg, MsgView, Next, StatusInfo, StatusView, PROTO_VERSION,
};
use crate::session::{bad_name_text, valid_name, validate_name};
use crate::text::{
    chars_of, contains_text, debug, debugged, dec, decimal, holds, same, texts,
};
use crate::wire::drop_front;
use crate::yaml::opt_text;
use vstd::prelude::*;

verus! {

pub open spec fn bad_mode_text(shown: Seq<char>) -> Seq<char> {
    "bad --mode "@ + shown
}

fn bad_mode(shown: &str) -> (s: String)
    ensures
        s@ == bad_mode_text(shown@),
{
    let mut s = "bad --mode ".to_owned();
    s.append(shown);
    s
}

pub open spec fn unexpected_text(arg: Seq<char>) -> Seq<char> {
    "unexpected argument "@ + arg
}

fn unexpected(arg: &str) -> (s: String)
    ensures
        s@ == unexpected_text(arg@),
{
    let mut s = "unexpected argument ".to_owned();
    s.append(arg);
    s
}

pub open spec fn no_hello_text(shown: Seq<char>) -> Seq<char> {
    "expected HELLO, got "@ + shown
}

fn no_hello(shown: &str) -> (s: String)
    ensures
        s@ == no_hello_text(shown@),
{
    let mut s = "expected HELLO, got ".to_owned();
    s.append(shown);
    s
}

pub open spec fn protocols_text(ours: Seq<char>, theirs: Seq<char>) -> Seq<char> {
    "remote acs speaks protocol "@ + ours + " but the client speaks "@ + theirs
}

fn protocols(ours: &str, theirs: &str) -> (s: String)
    ensures
        s@ == protocols_text(ours@, theirs@),
{
    let mut s = "remote acs speaks protocol ".to_owned();
    s.append(ours);
    s.append(" but the client speaks ");
    s.append(theirs);
    s
}

pub open spec fn no_session_text(name: Seq<char>) -> Seq<char> {
    "no session '"@ + name + "'"@
}

fn no_session(name: &str) -> (s: String)
    ensures
        s@ == no_session_text(name@),
{
    let mut s = "no session '".to_owned();
    s.append(name);
    s.append("'");
    s
}

pub open spec fn not_up_text(name: Seq<char>) -> Seq<char> {
    "session '"@ + name + "' did not come up"@
}

fn not_up(name: &str) -> (s: String)
    ensures
        s@ == not_up_text(name@),
{
    let mut s = "session '".to_owned();
    s.append(name);
    s.append("' did not come up");
    s
}

// ---- arguments -------------------------------------------------------------

/// What the proxy is asked for.
#[derive(Debug, Clone, PartialEq, Eq)]
pub enum What {
    Session {
        name: Option<String>,
        mode: Mode,
    },
    List,
    /// End this session, then list the rest.
    Kill(String),
}

#[verifier::ext_equal]
pub enum WhatView {
    Session { name: Option<Seq<char>>, mode: Mode },
    List,
    Kill(Seq<char>),
}

impl View for What {
    type V = WhatView;

    open spec fn view(&self) -> WhatView {
        match *self {
            What::Session { name, mode } => WhatView::Session { name: opt_text(name), mode },
            What::List => WhatView::List,
            What::Kill(name) => WhatView::Kill(name@),
        }
    }
}

/// The `--mode` spelling of a mode.
pub open spec fn mode_word(mode: Mode) -> Seq<char> {
    match mode {
        Mode::Attach => "attach"@,
        Mode::Create => "create"@,
        Mode::AttachOrCreate => "attach-or-create"@,
    }
}

/// The `--mode` spelling of a mode, for building proxy arguments.
pub fn mode_arg(mode: Mode) -> (s: &'static str)
    ensures
        s@ == mode_word(mode),
{
    match mode {
        Mode::Attach => "attach",
        Mode::Create => "create",
        Mode::AttachOrCreate => "attach-or-create",
    }
}

/// The mode that a word spells.
pub open spec fn mode_spelt(w: Seq<char>) -> Option<Mode> {
    if w == "attach"@ {
        Some(Mode::Attach)
    } else if w == "create"@ {
        Some(Mode::Create)
    } else if w == "attach-or-create"@ {
        Some(Mode::AttachOrCreate)
    } else {
        None
    }
}

fn read_mode(w: &str) -> (r: Option<Mode>)
    ensures
        r == mode_spelt(w@),
{
    if same(w, "attach") {
        Some(Mode::Attach)
    } else if same(w, "create") {
        Some(Mode::Create)
    } else if same(w, "attach-or-create") {
        Some(Mode::AttachOrCreate)
    } else {
        None
    }
}

/// What the arguments said so far.
#[verifier::ext_equal]
pub struct Flags {
    pub name: Option<Seq<char>>,
    pub mode: Mode,
    pub new: bool,
    pub list: bool,
}

pub open spec fn no_flags() -> Flags {
    Flags { name: None, mode: Mode::AttachOrCreate, new: false, list: false }
}

/// A session that is named is checked.
pub open spec fn checked(name: Seq<char>, what: WhatView) -> Result<WhatView, Seq<char>> {
    if valid_name(name) {
        Ok(what)
    } else {
        Err(bad_name_text(name))
    }
}

/// What the arguments ask for: `--kill` decides at once, then `--list`, then `--new`.
pub open spec fn asked(args: Seq<Seq<char>>, f: Flags) -> Result<WhatView, Seq<char>>
    decreases args.len(),
{
    if args.len() == 0 {
        if f.list {
            Ok(WhatView::List)
        } else if f.new {
            Ok(WhatView::Session { name: None, mode: Mode::Create })
        } else {
            match f.name {
                None => Err("missing --session"@),
                Some(n) => checked(n, WhatView::Session { name: Some(n), mode: f.mode }),
            }
        }
    } else if args[0] == "--kill"@ {
        if args.len() < 2 {
            Err("--kill needs a session"@)
        } else {
            checked(args[1], WhatView::Kill(args[1]))
        }
    } else if args[0] == "--session"@ {
        if args.len() < 2 {
            Err("--session needs a value"@)
        } else {
            asked(args.skip(2), Flags { name: Some(args[1]), ..f })
        }
    } else if args[0] == "--mode"@ {
        if args.len() < 2 {
            Err(bad_mode_text("None"@))
        } else {
            match mode_spelt(args[1]) {
                Some(mode) => asked(args.skip(2), Flags { mode, ..f }),
                None => Err(bad_mode_text("Some("@ + debugged(args[1]) + ")"@)),
            }
        }
    } else if args[0] == "--new"@ {
        asked(args.skip(1), Flags { new: true, ..f })
    } else if args[0] == "--list"@ {
        asked(args.skip(1), Flags { list: true, ..f })
    } else {
        Err(unexpected_text(args[0]))
    }
}

/// A result is the one that is owed.
pub open spec fn what_is(r: Result<What, String>, v: Result<WhatView, Seq<char>>) -> bool {
    match (r, v) {
        (Ok(w), Ok(x)) => w@ == x,
        (Err(e), Err(x)) => e@ == x,
        _ => false,
    }
}

/// What the arguments of `acs _proxy` ask for.
pub fn parse_args(args: &[String]) -> (r: Result<What, String>)
    ensures
        what_is(r, asked(texts(args@), no_flags())),
{
    let ghost all = texts(args@);
    let mut name: Option<String> = None;
    let mut mode = Mode::AttachOrCreate;
    let mut new = false;
    let mut list = false;
    let n: usize = args.len();
    let mut i: usize = 0;
    assert(all.skip(0) =~= all);
    while i < n
        invariant
            i <= n,
            n == args@.len(),
            all == texts(args@),
            asked(all.skip(i as int), Flags { name: opt_text(name), mode, new, list }) == asked(
                all,
                no_flags(),
            ),
        decreases n - i,
    {
        let a = &args[i];
        proof {
            let here = all.skip(i as int);
            assert(here[0] == a@);
            assert(here.skip(1) =~= all.skip(i + 1));
            if i + 1 < n {
                assert(here[1] == args@[i + 1]@);
                assert(here.skip(2) =~= all.skip(i + 2));
            }
        }
        if same(a, "--kill") {
            if n - i < 2 {
                return Err("--kill needs a session".to_owned());
            }
            validate_name(&args[i + 1])?;
            return Ok(What::Kill(args[i + 1].clone()));
        } else if same(a, "--session") {
            if n - i < 2 {
                return Err("--session needs a value".to_owned());
            }
            name = Some(args[i + 1].clone());
            i = i + 2;
        } else if same(a, "--mode") {
            if n - i < 2 {
                return Err(bad_mode("None"));
            }
            match read_mode(&args[i + 1]) {
                Some(m) => {
                    mode = m;
                },
                None => {
                    let mut shown = "Some(".to_owned();
                    shown.append(&debug(&args[i + 1]));
                    shown.append(")");
                    return Err(bad_mode(&shown));
                },
            }
            i = i + 2;
        } else if same(a, "--new") {
            new = true;
            i = i + 1;
        } else if same(a, "--list") {
            list = true;
            i = i + 1;
        } else {
            return Err(unexpected(a));
        }
    }
    assert(all.skip(n as int) =~= Seq::empty());
    if list {
        return Ok(What::List);
    }
    if new {
        return Ok(What::Session { name: None, mode: Mode::Create });
    }
    match name {
        None => Err("missing --session".to_owned()),
        Some(name) => {
            validate_name(&name)?;
            Ok(What::Session { name: Some(name), mode })
        },
    }
}

// ---- finding the master ----------------------------------------------------

/// What to do about a session's master.
#[derive(Debug, Clone, PartialEq, Eq)]
pub enum Start {
    /// There is no session, and none may be created.
    Missing,
    /// Start one, after a pause if one was started already, and connect again.
    Spawn {
        pause: bool,
    },
    /// It does not come up.
    Failed(String),
}

#[verifier::ext_equal]
pub enum StartView {
    Missing,
    Spawn { pause: bool },
    Failed(Seq<char>),
}

impl View for Start {
    type V = StartView;

    open spec fn view(&self) -> StartView {
        match *self {
            Start::Missing => StartView::Missing,
            Start::Spawn { pause } => StartView::Spawn { pause },
            Start::Failed(e) => StartView::Failed(e@),
        }
    }
}

/// What is done where nobody listens on the session's socket.
pub open spec fn to_start(name: Seq<char>, create: bool, late: bool, tried: bool) -> StartView {
    if !create {
        StartView::Missing
    } else if late {
        StartView::Failed(not_up_text(name))
    } else {
        StartView::Spawn { pause: tried }
    }
}

/// Nobody listens on the session's socket: `create` says whether a session may be
/// started, `late` whether the time for it is over, `tried` whether a master was
/// started already.
pub fn connect_or_start(name: &str, create: bool, late: bool, tried: bool) -> (r: Start)
    ensures
        r@ == to_start(name@, create, late, tried),
{
    if !create {
        Start::Missing
    } else if late {
        Start::Failed(not_up(name))
    } else {
        Start::Spawn { pause: tried }
    }
}

pub open spec fn not_started_text(name: Seq<char>, e: Seq<char>) -> Seq<char> {
    "cannot start session '"@ + name + "': "@ + e
}

fn not_started(name: &str, e: &str) -> (s: String)
    ensures
        s@ == not_started_text(name@, e@),
{
    let mut s = "cannot start session '".to_owned();
    s.append(name);
    s.append("': ");
    s.append(e);
    s
}

/// What comes of starting a master: `e` says why it did not start. That another
/// proxy's master won the race is no failure, it is then connected to.
pub fn started(name: &str, e: Option<&str>) -> (r: Result<(), String>)
    ensures
        match e {
            None => r is Ok,
            Some(e) => if holds(e@, "already has a master"@) {
                r is Ok
            } else {
                r matches Err(t) && t@ == not_started_text(name@, e@)
            },
        },
{
    match e {
        None => Ok(()),
        Some(e) => if contains_text(&chars_of(e), &chars_of("already has a master")) {
            Ok(())
        } else {
            Err(not_started(name, e))
        },
    }
}

// ---- the client's greeting -------------------------------------------------

/// What becomes of a client's first message.
#[derive(Debug)]
pub enum Greeted {
    /// It is refused with this error.
    Refused(u16, String),
    /// These bytes go to the master first, and then everything is relayed.
    Relay(Vec<u8>),
}

#[verifier::ext_equal]
pub enum GreetedView {
    Refused(u16, Seq<char>),
    Relay(Seq<u8>),
}

impl View for Greeted {
    type V = GreetedView;

    open spec fn view(&self) -> GreetedView {
        match *self {
            Greeted::Refused(code, message) => GreetedView::Refused(code, message@),
            Greeted::Relay(bytes) => GreetedView::Relay(bytes@),
        }
    }
}

/// What becomes of a client's first message; `behind` is what came after it, and
/// `shown` how the message is written in an error.
pub open spec fn greeted(
    first: MsgView,
    shown: Seq<char>,
    behind: Seq<u8>,
    found: bool,
    name: Seq<char>,
) -> GreetedView {
    match first {
        MsgView::Hello(h) => if h.proto != PROTO_VERSION {
            GreetedView::Refused(
                err::PROTO_MISMATCH,
                protocols_text(dec(PROTO_VERSION as nat), dec(h.proto as nat)),
            )
        } else if !found {
            GreetedView::Refused(err::NO_SESSION, no_session_text(name))
        } else {
            GreetedView::Relay(
                frame(MsgView::Hello(HelloView { session: name, ..h })) + frames(messages(behind)),
            )
        },
        _ => GreetedView::Refused(err::BAD_REQUEST, no_hello_text(shown)),
    }
}

/// Judge a client's first message. The client does not know the name of a `--new`
/// session; it may also be resuming under a name we resolved. Ours is authoritative.
/// The whole messages that arrived after the HELLO (early INPUT) follow it.
pub fn greet(first: Msg, shown: &str, rest: &mut Decoder, found: bool, name: &str) -> (r: Greeted)
    requires
        old(rest).wf(),
    ensures
        r@ == greeted(first@, shown@, old(rest)@, found, name@),
{
    let ghost v = first@;
    match first {
        Msg::Hello(h) => {
            if h.proto != PROTO_VERSION {
                return Greeted::Refused(
                    err::PROTO_MISMATCH,
                    protocols(&decimal(PROTO_VERSION as u64), &decimal(h.proto as u64)),
                );
            }
            if !found {
                return Greeted::Refused(err::NO_SESSION, no_session(name));
            }
            let mut h = h;
            h.session = name.to_owned();
            let mut out = Msg::Hello(h).to_bytes();
            let ghost head = out@;
            let ghost all = rest@;
            assert(head + Seq::<u8>::empty() =~= head);
            loop
                invariant
                    rest.wf(),
                    out@ + frames(messages(rest@)) == head + frames(messages(all)),
                ensures
                    messages(rest@).len() == 0,
                    out@ + frames(messages(rest@)) == head + frames(messages(all)),
                decreases rest@.len(),
            {
                let ghost before = rest@;
                let ghost sent = out@;
                match rest.next_msg() {
                    Ok(Some(m)) => {
                        m.encode(&mut out);
                        proof {
                            let ms = messages(before);
                            assert(ms == seq![m@] + messages(rest@));
                            assert(ms[0] == m@);
                            assert(ms.skip(1) =~= messages(rest@));
                            assert(sent + (frame(m@) + frames(messages(rest@))) =~= (sent + frame(m@))
                                + frames(messages(rest@)));
                        }
                    },
                    _ => {
                        break;
                    },
                }
            }
            proof {
                assert(frames(messages(rest@)) =~= Seq::empty());
                assert(out@ + frames(messages(rest@)) =~= out@);
            }
            Greeted::Relay(out)
        },
        _ => Greeted::Refused(err::BAD_REQUEST, no_hello(shown)),
    }
}

// ---- asking a master -------------------------------------------------------

/// How long a session has to end once it was told to, in seconds.
pub const KILL_WAIT_SECS: u64 = 10;

pub open spec fn connect_failed_text(path: Seq<char>, e: Seq<char>) -> Seq<char> {
    "connect "@ + path + ": "@ + e
}

fn connect_failed(path: &str, e: &str) -> (s: String)
    ensures
        s@ == connect_failed_text(path@, e@),
{
    let mut s = "connect ".to_owned();
    s.append(path);
    s.append(": ");
    s.append(e);
    s
}

pub open spec fn session_failed_text(name: Seq<char>, e: Seq<char>) -> Seq<char> {
    "session '"@ + name + "': "@ + e
}

fn session_failed(name: &str, e: &str) -> (s: String)
    ensures
        s@ == session_failed_text(name@, e@),
{
    let mut s = "session '".to_owned();
    s.append(name);
    s.append("': ");
    s.append(e);
    s
}

pub open spec fn not_ended_text(name: Seq<char>) -> Seq<char> {
    "session '"@ + name + "' did not end within "@ + dec(KILL_WAIT_SECS as nat) + " s"@
}

fn not_ended(name: &str) -> (s: String)
    ensures
        s@ == not_ended_text(name@),
{
    let mut s = "session '".to_owned();
    s.append(name);
    s.append("' did not end within ");
    s.append(&decimal(KILL_WAIT_SECS));
    s.append(" s");
    s
}

/// Why a session that is to be ended cannot be told so: its socket at `path` is
/// answered by nobody (`None`), or cannot be connected to.
pub fn not_connected(name: &str, path: &str, e: Option<&str>) -> (r: (u16, String))
    ensures
        (r.0, r.1@) == match e {
            None => (err::NO_SESSION, no_session_text(name@)),
            Some(e) => (err::INTERNAL, connect_failed_text(path@, e@)),
        },
{
    match e {
        None => (err::NO_SESSION, no_session(name)),
        Some(e) => (err::INTERNAL, connect_failed(path, e)),
    }
}

/// What comes of reading from a session that was told to end.
pub enum Ending {
    /// It said something.
    Bytes(Vec<u8>),
    /// It closed or dropped the connection.
    Closed,
    /// A signal cut the wait short.
    Interrupted,
    /// The time it had is over.
    TimedOut,
    /// The connection failed.
    Failed(String),
}

pub enum EndingView {
    Bytes(Seq<u8>),
    Closed,
    Interrupted,
    TimedOut,
    Failed(Seq<char>),
}

impl View for Ending {
    type V = EndingView;

    open spec fn view(&self) -> EndingView {
        match *self {
            Ending::Bytes(b) => EndingView::Bytes(b@),
            Ending::Closed => EndingView::Closed,
            Ending::Interrupted => EndingView::Interrupted,
            Ending::TimedOut => EndingView::TimedOut,
            Ending::Failed(e) => EndingView::Failed(e@),
        }
    }
}

/// What is known of a session that was told to end: `None` while nothing is, else
/// that it ended or why it did not; and the bytes that are still to be read. A
/// session ends by closing the connection; it refuses with an ERROR.
pub open spec fn ending_known(unread: Seq<u8>, name: Seq<char>, e: EndingView) -> (
    Option<Result<(), (u16, Seq<char>)>>,
    Seq<u8>,
) {
    match e {
        EndingView::Bytes(b) => match next_frame(unread + b) {
            Next::Got(MsgView::Error { code, message }, n) => (
                Some(Err((code, message))),
                (unread + b).skip(n),
            ),
            Next::Got(_, n) => (None, (unread + b).skip(n)),
            _ => (None, unread + b),
        },
        EndingView::Closed => (Some(Ok(())), unread),
        EndingView::Interrupted => (None, unread),
        EndingView::TimedOut => (Some(Err((err::INTERNAL, not_ended_text(name)))), unread),
        EndingView::Failed(e) => (Some(Err((err::INTERNAL, session_failed_text(name, e)))), unread),
    }
}

pub open spec fn ending_view(r: Option<Result<(), (u16, String)>>) -> Option<
    Result<(), (u16, Seq<char>)>,
> {
    match r {
        None => None,
        Some(Ok(())) => Some(Ok(())),
        Some(Err((code, message))) => Some(Err((code, message@))),
    }
}

/// Whether a session that was told to end (`acs _proxy --kill`) has ended, as far as
/// what was read of it tells; `None` asks to read on.
pub fn end_session(dec: &mut Decoder, name: &str, read: Ending) -> (r: Option<
    Result<(), (u16, String)>,
>)
    requires
        old(dec).wf(),
    ensures
        final(dec).wf(),
        (ending_view(r), final(dec)@) == ending_known(old(dec)@, name@, read@),
{
    match read {
        Ending::Bytes(b) => {
            dec.push(&b);
            match dec.next_msg() {
                Ok(Some(Msg::Error { code, message })) => Some(Err((code, message))),
                _ => None,
            }
        },
        Ending::Closed => Some(Ok(())),
        Ending::Interrupted => None,
        Ending::TimedOut => Some(Err((err::INTERNAL, not_ended(name)))),
        Ending::Failed(e) => Some(Err((err::INTERNAL, session_failed(name, &e)))),
    }
}

/// What a master says of its session: `None` asks to read on.
pub open spec fn status_known(unread: Seq<u8>) -> (Result<Option<StatusView>, Seq<char>>, Seq<u8>) {
    match next_frame(unread) {
        Next::More => (Ok(None), unread),
        Next::Bad(e) => (Err(e.words()), unread),
        Next::Got(MsgView::StatusReply(s), n) => (Ok(Some(s)), unread.skip(n)),
        Next::Got(_, n) => (Err("unexpected reply"@), unread.skip(n)),
    }
}

pub open spec fn status_view(r: Result<Option<StatusInfo>, String>) -> Result<
    Option<StatusView>,
    Seq<char>,
> {
    match r {
        Ok(None) => Ok(None),
        Ok(Some(s)) => Ok(Some(s@)),
        Err(e) => Err(e@),
    }
}

/// What a master that was asked for its STATUS says of its session, from what has
/// been read of it; `None` asks to read on.
pub fn status_of(dec: &mut Decoder) -> (r: Result<Option<StatusInfo>, String>)
    requires
        old(dec).wf(),
    ensures
        final(dec).wf(),
        (status_view(r), final(dec)@) == status_known(old(dec)@),
{
    match dec.next_msg() {
        Ok(Some(Msg::StatusReply(info))) => Ok(Some(info)),
        Ok(Some(_)) => Err("unexpected reply".to_owned()),
        Ok(None) => Ok(None),
        Err(e) => Err(e.text()),
    }
}

// ---- relaying --------------------------------------------------------------

/// How much is held for one side before no more is read from the other.
pub const LIMIT: usize = 0x10_0000;

/// The bytes on their way between the client and the master.
#[derive(Debug)]
pub struct Splice {
    pub to_master: Vec<u8>,
    pub to_client: Vec<u8>,
    pub input_open: bool,
}

#[verifier::ext_equal]
pub struct SpliceView {
    pub to_master: Seq<u8>,
    pub to_client: Seq<u8>,
    pub input_open: bool,
}

impl View for Splice {
    type V = SpliceView;

    open spec fn view(&self) -> SpliceView {
        SpliceView {
            to_master: self.to_master@,
            to_client: self.to_client@,
            input_open: self.input_open,
        }
    }
}

/// What to wait for: nothing is waited for on a side that nothing is wanted of, since
/// a closed pipe reports its end whatever is asked, which would spin the loop while
/// the other direction is stuck.
#[derive(Debug, Clone, Copy, PartialEq, Eq, Structural)]
pub struct Wanted {
    /// The client has something to say.
    pub input: bool,
    /// The master has something to say.
    pub master: bool,
    /// The master takes bytes.
    pub to_master: bool,
    /// The client takes bytes.
    pub output: bool,
}

/// Everything the master said still has to reach the client, and then the relay is
/// over; or it is over at once.
#[derive(Debug, Clone, Copy, PartialEq, Eq, Structural)]
pub enum Relayed {
    On,
    Drain,
    Over,
}

/// How a relay goes on after a turn.
pub open spec fn turned_to(s: SpliceView, master_failed: bool, client_failed: bool) -> Relayed {
    if master_failed {
        Relayed::Drain
    } else if client_failed || (!s.input_open && s.to_master.len() == 0) {
        Relayed::Over
    } else {
        Relayed::On
    }
}

/// The client said something; its end, if nothing.
pub open spec fn heard_client(s: SpliceView, bytes: Seq<u8>) -> SpliceView {
    SpliceView {
        to_master: s.to_master + bytes,
        input_open: s.input_open && bytes.len() > 0,
        ..s
    }
}

/// The master said something.
pub open spec fn heard_master(s: SpliceView, bytes: Seq<u8>) -> SpliceView {
    SpliceView { to_client: s.to_client + bytes, ..s }
}

/// The master took the first `n` bytes it is owed.
pub open spec fn gave_master(s: SpliceView, n: nat) -> SpliceView {
    SpliceView { to_master: s.to_master.skip(n as int), ..s }
}

/// The client took the first `n` bytes it is owed.
pub open spec fn gave_client(s: SpliceView, n: nat) -> SpliceView {
    SpliceView { to_client: s.to_client.skip(n as int), ..s }
}

impl Splice {
    /// A relay that owes the master these bytes.
    pub fn new(to_master: Vec<u8>) -> (s: Splice)
        ensures
            s@ == (SpliceView {
                to_master: to_master@,
                to_client: Seq::empty(),
                input_open: true,
            }),
    {
        let s = Splice { to_master, to_client: Vec::new(), input_open: true };
        assert(s@.to_client =~= Seq::empty());
        s
    }

    /// What to wait for.
    pub fn wants(&self) -> (w: Wanted)
        ensures
            w == (Wanted {
                input: self@.input_open && self@.to_master.len() < LIMIT,
                master: self@.to_client.len() < LIMIT,
                to_master: self@.to_master.len() > 0,
                output: self@.to_client.len() > 0,
            }),
    {
        Wanted {
            input: self.input_open && self.to_master.len() < LIMIT,
            master: self.to_client.len() < LIMIT,
            to_master: self.to_master.len() > 0,
            output: self.to_client.len() > 0,
        }
    }

    /// The client said something; its end, if nothing.
    pub fn input(&mut self, bytes: &[u8])
        ensures
            final(self)@ == heard_client(old(self)@, bytes@),
    {
        self.to_master.extend_from_slice(bytes);
        if bytes.len() == 0 {
            self.input_open = false;
        }
        assert(self@.to_master =~= old(self)@.to_master + bytes@);
    }

    /// The master said something; its end, if nothing: then what it said is delivered,
    /// and the relay is over.
    pub fn master(&mut self, bytes: &[u8]) -> (r: Relayed)
        ensures
            final(self)@ == heard_master(old(self)@, bytes@),
            r == if bytes@.len() == 0 {
                Relayed::Drain
            } else {
                Relayed::On
            },
    {
        self.to_client.extend_from_slice(bytes);
        assert(self@.to_client =~= old(self)@.to_client + bytes@);
        if bytes.len() == 0 {
            Relayed::Drain
        } else {
            Relayed::On
        }
    }

    /// The master took the first `n` bytes it is owed.
    pub fn master_took(&mut self, n: usize)
        requires
            n <= old(self)@.to_master.len(),
        ensures
            final(self)@ == gave_master(old(self)@, n as nat),
    {
        drop_front(&mut self.to_master, n);
    }

    /// The client took the first `n` bytes it is owed.
    pub fn client_took(&mut self, n: usize)
        requires
            n <= old(self)@.to_client.len(),
        ensures
            final(self)@ == gave_client(old(self)@, n as nat),
    {
        drop_front(&mut self.to_client, n);
    }

    /// After a turn: `master_failed` says that a write to the master failed,
    /// `client_failed` that one to the client did. A master that closed after its last
    /// words is still quoted to the client. Once the client's connection has ended and
    /// the master has everything, closing our end tells the master that the client is
    /// gone (detached, not killed).
    pub fn turned(&self, master_failed: bool, client_failed: bool) -> (r: Relayed)
        ensures
            r == turned_to(self@, master_failed, client_failed),
    {
        if master_failed {
            Relayed::Drain
        } else if client_failed || (!self.input_open && self.to_master.len() == 0) {
            Relayed::Over
        } else {
            Relayed::On
        }
    }
}

/// One thing that happens to a relay.
pub enum Passing {
    /// The client says something.
    FromClient(Seq<u8>),
    /// The master says something.
    FromMaster(Seq<u8>),
    /// The master takes this many of the bytes it is owed.
    MasterTook(nat),
    /// The client takes this many of the bytes it is owed.
    ClientTook(nat),
}

/// A relay after one thing, and what it handed to the master and to the client.
pub open spec fn passed(s: SpliceView, p: Passing) -> (SpliceView, Seq<u8>, Seq<u8>) {
    match p {
        Passing::FromClient(bytes) => (heard_client(s, bytes), Seq::empty(), Seq::empty()),
        Passing::FromMaster(bytes) => (heard_master(s, bytes), Seq::empty(), Seq::empty()),
        Passing::MasterTook(n) => (gave_master(s, n), s.to_master.take(n as int), Seq::empty()),
        Passing::ClientTook(n) => (gave_client(s, n), Seq::empty(), s.to_client.take(n as int)),
    }
}

/// A relay after many things, and all that it handed to the master and to the client.
pub open spec fn all_passed(s: SpliceView, v: Seq<Passing>) -> (SpliceView, Seq<u8>, Seq<u8>)
    decreases v.len(),
{
    if v.len() == 0 {
        (s, Seq::empty(), Seq::empty())
    } else {
        let (t, to_master, to_client) = all_passed(s, v.drop_last());
        let (u, m, c) = passed(t, v.last());
        (u, to_master + m, to_client + c)
    }
}

/// All that the client said.
pub open spec fn client_words(v: Seq<Passing>) -> Seq<u8>
    decreases v.len(),
{
    if v.len() == 0 {
        Seq::empty()
    } else {
        client_words(v.drop_last()) + match v.last() {
            Passing::FromClient(bytes) => bytes,
            _ => Seq::empty(),
        }
    }
}

/// All that the master said.
pub open spec fn master_words(v: Seq<Passing>) -> Seq<u8>
    decreases v.len(),
{
    if v.len() == 0 {
        Seq::empty()
    } else {
        master_words(v.drop_last()) + match v.last() {
            Passing::FromMaster(bytes) => bytes,
            _ => Seq::empty(),
        }
    }
}

/// Nobody takes more than they are owed.
pub open spec fn takes_fit(s: SpliceView, v: Seq<Passing>) -> bool
    decreases v.len(),
{
    v.len() == 0 || takes_fit(s, v.drop_last()) && match v.last() {
        Passing::MasterTook(n) => n <= all_passed(s, v.drop_last()).0.to_master.len(),
        Passing::ClientTook(n) => n <= all_passed(s, v.drop_last()).0.to_client.len(),
        _ => true,
    }
}

/// Nothing that passes is lost, repeated or reordered: whatever happens, what a side
/// was handed and what it is still owed is what it was owed at first and then all that
/// the other side said.
pub proof fn law_the_relay_keeps_everything(s: SpliceView, v: Seq<Passing>)
    requires
        takes_fit(s, v),
    ensures
        ({
            let (t, to_master, to_client) = all_passed(s, v);
            &&& to_master + t.to_master == s.to_master + client_words(v)
            &&& to_client + t.to_client == s.to_client + master_words(v)
        }),
    decreases v.len(),
{
    if v.len() == 0 {
        assert(Seq::<u8>::empty() + s.to_master =~= s.to_master + Seq::<u8>::empty());
        assert(Seq::<u8>::empty() + s.to_client =~= s.to_client + Seq::<u8>::empty());
    } else {
        let most = v.drop_last();
        law_the_relay_keeps_everything(s, most);
        let (t, to_master, to_client) = all_passed(s, most);
        let (u, m, c) = passed(t, v.last());
        match v.last() {
            Passing::FromClient(bytes) => {
                assert((to_master + m) + u.to_master =~= (to_master + t.to_master) + bytes);
                assert(s.to_master + client_words(v) =~= (s.to_master + client_words(most))
                    + bytes);
                assert((to_client + c) + u.to_client =~= to_client + t.to_client);
                assert(master_words(v) =~= master_words(most));
            },
            Passing::FromMaster(bytes) => {
                assert((to_client + c) + u.to_client =~= (to_client + t.to_client) + bytes);
                assert(s.to_client + master_words(v) =~= (s.to_client + master_words(most))
                    + bytes);
                assert((to_master + m) + u.to_master =~= to_master + t.to_master);
                assert(client_words(v) =~= client_words(most));
            },
            _ => {
                assert((to_master + m) + u.to_master =~= to_master + t.to_master);
                assert((to_client + c) + u.to_client =~= to_client + t.to_client);
                assert(client_words(v) =~= client_words(most));
                assert(master_words(v) =~= master_words(most));
            },
        }
    }
}

} // verus!
