//! The ssh master acs owns.
//!
//! A full ssh handshake is six to eight round trips plus, on a hardware key, a
//! touch, paid again on every `acs <host>` and on every `acs list <host>`. OpenSSH
//! can skip all of it by opening a second channel on a connection that is already
//! up, and acs keeps one of its own for the purpose: its own `ControlPath`, in its
//! own directory, with its own `ControlPersist`, never the user's.
//!
//! Three rules make that safe:
//!
//! - A redial never multiplexes. The hazard of a reconnect that waits on a dead
//!   multiplexer belongs to the redial, and the redial gets its own connection. A
//!   link that was multiplexed takes the master down with it, because the master's
//!   TCP is the one that just failed.
//! - A master must answer fast or not at all. Joining one is supposed to cost a
//!   round trip; if the marker does not arrive within `ACS_CONTROL_FALLBACK_MS` the
//!   master is killed and the dial is made again on a connection of its own.
//! - The socket is ours alone. A control socket is a filesystem object that grants a
//!   shell on the far end, so it lives in a `0700` directory keyed by our numeric
//!   uid.

pub mod laws;

use crate::session::given_view;
use crate::sha256::{digest, hex, hex_text, sha256};
use crate::ssh::{key_of, shares, Call, Transport, TransportView};
use crate::text::{
    chars_of, dec, decimal, is_white, lower_char, parse_uint, parsed_max, same, string_of, sub_vec, texts, to_lower_char, trim_chars, trim_left, trimmed, white,
};
use vstd::prelude::*;
use vstd::utf8::encode_utf8;

verus! {

/// The shape of what acs asks of its master. It goes into the socket's name, so a
/// master left by an acs that asked for something else is never joined: it is
/// simply a different socket, and the old one expires on its own `ControlPersist`.
/// Bump it whenever the options that the master is started with change.
pub const FORMAT: &'static str = "acs-mux-1";

/// How long a master outlives its last use, in seconds (`ACS_CONTROL_PERSIST`).
/// Bounded on purpose: nothing else reaps it, so this is what limits how long an
/// authenticated connection can sit idle after acs has gone.
pub const DEFAULT_PERSIST_SECS: u64 = 300;

/// How long a dial that joined an existing master may take to produce its marker
/// before acs gives up on the master, in milliseconds (`ACS_CONTROL_FALLBACK_MS`).
pub const DEFAULT_FALLBACK_MS: u64 = 2_000;

/// What to do about a directory that is not fit for the socket.
pub const HINT: &'static str = "set ACS_CONTROL_DIR to a private directory";

/// Where acs keeps its control sockets, and how long a master outlives its last
/// use, in seconds. A transport without one dials on a connection of its own.
#[derive(Debug, Clone, PartialEq, Eq)]
pub struct Mux {
    pub dir: String,
    pub persist: u64,
}

#[verifier::ext_equal]
pub struct MuxView {
    pub dir: Seq<char>,
    pub persist: u64,
}

impl View for Mux {
    type V = MuxView;

    open spec fn view(&self) -> MuxView {
        MuxView { dir: self.dir@, persist: self.persist }
    }
}

// ---- the environment -------------------------------------------------------

/// `$ACS_CONTROL_DIR`, else `/tmp/acs-mux-<uid>`.
pub open spec fn control_dir(given: Option<Seq<char>>, uid: u32) -> Seq<char> {
    match given {
        Some(p) if p.len() > 0 => p,
        _ => "/tmp/acs-mux-"@ + dec(uid as nat),
    }
}

/// `$ACS_CONTROL_DIR`, else `/tmp/acs-mux-<uid>`: keyed by the numeric uid, never
/// `$USER` or `$TMPDIR`. Separate from `/tmp/acs-<uid>`: that one holds session
/// sockets and is scanned as such.
pub fn dir_path(given: Option<&str>, uid: u32) -> (s: String)
    ensures
        s@ == control_dir(given_view(given), uid),
{
    if let Some(p) = given {
        if !p.is_empty() {
            return p.to_owned();
        }
    }
    let mut s = "/tmp/acs-mux-".to_owned();
    s.append(&decimal(uid as u64));
    s
}

/// A number from the environment, or its default.
pub open spec fn number_or(given: Option<Seq<char>>, default: u64) -> u64 {
    match given {
        Some(v) => match parsed_max(trimmed(v), u64::MAX as nat) {
            Some(n) => n as u64,
            None => default,
        },
        None => default,
    }
}

fn number(given: Option<&str>, default: u64) -> (n: u64)
    ensures
        n == number_or(given_view(given), default),
{
    match given {
        Some(v) => match parse_uint(&trim_chars(&chars_of(v)), u64::MAX) {
            Some(n) => n,
            None => default,
        },
        None => default,
    }
}

/// `ACS_CONTROL_PERSIST` in seconds; `0` turns multiplexing off entirely.
pub fn persist_secs(given: Option<&str>) -> (n: u64)
    ensures
        n == number_or(given_view(given), DEFAULT_PERSIST_SECS),
{
    persist_from(given)
}

/// The seconds that a setting of `ACS_CONTROL_PERSIST` gives.
pub fn persist_from(given: Option<&str>) -> (n: u64)
    ensures
        n == number_or(given_view(given), DEFAULT_PERSIST_SECS),
{
    number(given, DEFAULT_PERSIST_SECS)
}

/// How long a joined master has to produce a marker before acs stops believing in
/// it, in milliseconds (`ACS_CONTROL_FALLBACK_MS`).
pub fn fallback_window(given: Option<&str>) -> (n: u64)
    ensures
        n == number_or(given_view(given), DEFAULT_FALLBACK_MS),
{
    number(given, DEFAULT_FALLBACK_MS)
}

// ---- what objects ----------------------------------------------------------

/// Two texts that differ at most in the case of ASCII letters.
pub open spec fn same_word(a: Seq<char>, b: Seq<char>) -> bool {
    a.len() == b.len() && forall|i: int|
        0 <= i < a.len() ==> #[trigger] lower_char(a[i]) == lower_char(b[i])
}

fn is_word(a: &[char], word: &str) -> (r: bool)
    ensures
        r == same_word(a@, word@),
{
    let b = chars_of(word);
    if a.len() != b.len() {
        return false;
    }
    let mut i: usize = 0;
    while i < a.len()
        invariant
            i <= a.len(),
            a.len() == b.len(),
            b@ == word@,
            forall|j: int| 0 <= j < i ==> #[trigger] lower_char(a@[j]) == lower_char(b@[j]),
        decreases a.len() - i,
    {
        if to_lower_char(a[i]) != to_lower_char(b[i]) {
            assert(lower_char(a@[i as int]) != lower_char(b@[i as int]));
            return false;
        }
        i = i + 1;
    }
    true
}

/// What stands before the first `=` or white space.
pub open spec fn first_word(s: Seq<char>) -> Seq<char>
    decreases s.len(),
{
    if s.len() == 0 || s[0] == '=' || is_white(s[0]) {
        Seq::empty()
    } else {
        seq![s[0]] + first_word(s.skip(1))
    }
}

fn word_end(s: &[char], start: usize) -> (end: usize)
    requires
        start <= s.len(),
    ensures
        start <= end <= s.len(),
        s@.subrange(start as int, end as int) == first_word(s@.skip(start as int)),
{
    let mut i: usize = start;
    assert(s@.subrange(start as int, start as int) =~= Seq::empty());
    assert(Seq::<char>::empty() + first_word(s@.skip(start as int)) =~= first_word(
        s@.skip(start as int),
    ));
    while i < s.len() && s[i] != '=' && !white(s[i])
        invariant
            start <= i <= s.len(),
            s@.subrange(start as int, i as int) + first_word(s@.skip(i as int)) == first_word(
                s@.skip(start as int),
            ),
        decreases s.len() - i,
    {
        proof {
            let rest = s@.skip(i as int);
            assert(rest[0] == s@[i as int]);
            assert(rest.skip(1) =~= s@.skip(i + 1));
            assert(s@.subrange(start as int, i as int) + (seq![rest[0]] + first_word(rest.skip(1)))
                =~= s@.subrange(start as int, i + 1) + first_word(s@.skip(i + 1)));
        }
        i = i + 1;
    }
    proof {
        let rest = s@.skip(i as int);
        assert(i < s.len() ==> rest[0] == s@[i as int]);
        assert(first_word(rest) =~= Seq::empty());
        assert(s@.subrange(start as int, i as int) + Seq::<char>::empty() =~= s@.subrange(
            start as int,
            i as int,
        ));
    }
    i
}

/// An `-o` value that forwards a port.
pub open spec fn forwards(option: Seq<char>) -> bool {
    let key = first_word(trim_left(option));
    same_word(key, "LocalForward"@) || same_word(key, "RemoteForward"@) || same_word(
        key,
        "DynamicForward"@,
    )
}

fn is_forward(option: &str) -> (r: bool)
    ensures
        r == forwards(option@),
{
    let s = chars_of(option);
    let mut start: usize = 0;
    assert(s@.skip(0) =~= s@);
    while start < s.len() && white(s[start])
        invariant
            start <= s.len(),
            trim_left(s@.skip(start as int)) == trim_left(s@),
        decreases s.len() - start,
    {
        assert(s@.skip(start as int)[0] == s@[start as int]);
        assert(s@.skip(start as int).skip(1) =~= s@.skip(start + 1));
        start = start + 1;
    }
    assert(start < s.len() ==> s@.skip(start as int)[0] == s@[start as int]);
    let end = word_end(&s, start);
    let key = sub_vec(&s, start, end);
    is_word(&key, "LocalForward") || is_word(&key, "RemoteForward") || is_word(
        &key,
        "DynamicForward",
    )
}

/// The first `-o` that forwards a port, among flags and values in turn.
pub open spec fn forwarding(opts: Seq<Seq<char>>) -> Option<Seq<char>>
    decreases opts.len(),
{
    if opts.len() < 2 {
        None
    } else if opts[0] == "-o"@ && forwards(opts[1]) {
        Some(opts[1])
    } else {
        forwarding(opts.skip(2))
    }
}

pub open spec fn no_master_text(why: Seq<char>) -> Seq<char> {
    "no shared ssh master: "@ + why
}

fn no_master(why: &str) -> (s: String)
    ensures
        s@ == no_master_text(why@),
{
    let mut s = "no shared ssh master: ".to_owned();
    s.append(why);
    s
}

pub open spec fn forwards_a_port_text(option: Seq<char>) -> Seq<char> {
    "-o "@ + option + " forwards a port, which must die with it"@
}

fn forwards_a_port(option: &str) -> (s: String)
    ensures
        s@ == forwards_a_port_text(option@),
{
    let mut s = "-o ".to_owned();
    s.append(option);
    s.append(" forwards a port, which must die with it");
    s
}

pub open spec fn master_at_text(path: Seq<char>, persist: u64) -> Seq<char> {
    "shared ssh master at "@ + path + " (ControlPersist "@ + dec(persist as nat) + "s)"@
}

fn master_at(path: &str, persist: u64) -> (s: String)
    ensures
        s@ == master_at_text(path@, persist),
{
    let mut s = "shared ssh master at ".to_owned();
    s.append(path);
    s.append(" (ControlPersist ");
    s.append(&decimal(persist));
    s.append("s)");
    s
}

pub open spec fn too_long_text(dir: Seq<char>, max: u64) -> Seq<char> {
    "no shared ssh master: a control socket under "@ + dir + " would be longer than the platform limit of "@ + dec(max as nat) + " bytes (set ACS_CONTROL_DIR to a private directory)"@
}

fn too_long(dir: &str, max: u64) -> (s: String)
    ensures
        s@ == too_long_text(dir@, max),
{
    let mut s = "no shared ssh master: a control socket under ".to_owned();
    s.append(dir);
    s.append(" would be longer than the platform limit of ");
    s.append(&decimal(max));
    s.append(" bytes (set ACS_CONTROL_DIR to a private directory)");
    s
}

/// Why a transport gets no master, if anything objects.
pub open spec fn vetoed(t: TransportView) -> Option<Seq<char>> {
    if t.transport_cmd is Some {
        Some("the transport is --transport-cmd, not ssh"@)
    } else if t.local_forwards.len() > 0 {
        Some("-L is on this session, and a forward must die with it"@)
    } else {
        match forwarding(t.user_opts) {
            Some(o) => Some(forwards_a_port_text(o)),
            None => None,
        }
    }
}

fn find_forward(opts: &Vec<String>) -> (r: Option<usize>)
    ensures
        match r {
            Some(i) => i < opts.len() && forwarding(texts(opts@)) == Some(opts@[i as int]@),
            None => forwarding(texts(opts@)) is None,
        },
{
    let mut i: usize = 0;
    let n: usize = opts.len();
    assert(texts(opts@).skip(0) =~= texts(opts@));
    while i < n && 2 <= n - i
        invariant
            i <= n,
            n == opts.len(),
            forwarding(texts(opts@).skip(i as int)) == forwarding(texts(opts@)),
        decreases n - i,
    {
        proof {
            let here = texts(opts@).skip(i as int);
            assert(here[0] == opts@[i as int]@ && here[1] == opts@[i + 1]@);
            assert(here.skip(2) =~= texts(opts@).skip(i + 2));
        }
        if same(&opts[i], "-o") && is_forward(&opts[i + 1]) {
            return Some(i + 1);
        }
        i = i + 2;
    }
    None
}

/// Why this transport gets no master, or `None` if nothing objects.
///
/// A port forward is the interesting one: `-L` asked of a client of a master is
/// opened by the master, which outlives the session, while the listener is meant to
/// die with the ssh child. Rather than leave a port bound after acs has exited, a
/// session that forwards anything keeps its own connection.
pub fn veto(tr: &Transport) -> (r: Option<String>)
    ensures
        match r {
            Some(why) => vetoed(tr@) == Some(why@),
            None => vetoed(tr@) is None,
        },
{
    if tr.transport_cmd.is_some() {
        return Some("the transport is --transport-cmd, not ssh".to_owned());
    }
    assert(tr@.local_forwards.len() == tr.local_forwards@.len());
    if tr.local_forwards.len() > 0 {
        return Some("-L is on this session, and a forward must die with it".to_owned());
    }
    match find_forward(&tr.user_opts) {
        Some(i) => Some(forwards_a_port(&tr.user_opts[i])),
        None => None,
    }
}

// ---- the socket ------------------------------------------------------------

/// Eight bytes, the least first.
pub open spec fn le64(v: u64) -> Seq<u8> {
    seq![
        v as u8,
        (v >> 8) as u8,
        (v >> 16) as u8,
        (v >> 24) as u8,
        (v >> 32) as u8,
        (v >> 40) as u8,
        (v >> 48) as u8,
        (v >> 56) as u8,
    ]
}

/// A text as the name's hash is fed with it: its length in bytes, then its bytes.
pub open spec fn fed(s: Seq<char>) -> Seq<u8> {
    le64(encode_utf8(s).len() as u64) + encode_utf8(s)
}

/// Texts as the name's hash is fed with them.
pub open spec fn fed_all(v: Seq<Seq<char>>) -> Seq<u8>
    decreases v.len(),
{
    if v.len() == 0 {
        Seq::empty()
    } else {
        fed_all(v.drop_last()) + fed(v.last())
    }
}

/// Everything that decides which connection a transport makes: the ssh binary, the
/// user's options, the key in use and the destination.
pub open spec fn connection(t: TransportView) -> Seq<Seq<char>> {
    seq![FORMAT@, t.ssh] + t.user_opts + seq![
        match key_of(t) {
            Some(key) => key,
            None => Seq::empty(),
        },
        t.destination,
    ]
}

/// The socket's name: a hash of everything that decides which connection it is.
pub open spec fn socket_text(t: TransportView) -> Seq<char> {
    hex_text(sha256(fed_all(connection(t)))).take(32)
}

fn feed(out: &mut Vec<u8>, s: &str)
    ensures
        final(out)@ == old(out)@ + fed(s@),
{
    let b = s.as_bytes();
    let n = b.len() as u64;
    out.push(n as u8);
    out.push((n >> 8) as u8);
    out.push((n >> 16) as u8);
    out.push((n >> 24) as u8);
    out.push((n >> 32) as u8);
    out.push((n >> 40) as u8);
    out.push((n >> 48) as u8);
    out.push((n >> 56) as u8);
    out.extend_from_slice(b);
    assert(out@ =~= old(out)@ + fed(s@));
}

proof fn lemma_fed_push(v: Seq<Seq<char>>, s: Seq<char>)
    ensures
        fed_all(v.push(s)) == fed_all(v) + fed(s),
{
    assert(v.push(s).drop_last() =~= v);
}

fn fed_bytes(tr: &Transport) -> (out: Vec<u8>)
    ensures
        out@ == fed_all(connection(tr@)),
{
    let mut out: Vec<u8> = Vec::new();
    let ghost mut v: Seq<Seq<char>> = Seq::empty();
    feed(&mut out, FORMAT);
    feed(&mut out, &tr.ssh);
    proof {
        lemma_fed_push(v, FORMAT@);
        lemma_fed_push(v.push(FORMAT@), tr.ssh@);
        v = v.push(FORMAT@).push(tr.ssh@);
        assert(v =~= seq![FORMAT@, tr@.ssh] + tr@.user_opts.take(0));
    }
    for i in 0..tr.user_opts.len()
        invariant
            out@ == fed_all(v),
            v == seq![FORMAT@, tr@.ssh] + tr@.user_opts.take(i as int),
    {
        feed(&mut out, &tr.user_opts[i]);
        proof {
            lemma_fed_push(v, tr.user_opts@[i as int]@);
            v = v.push(tr.user_opts@[i as int]@);
            assert(v =~= seq![FORMAT@, tr@.ssh] + tr@.user_opts.take(i + 1));
        }
    }
    assert(tr@.user_opts.take(tr@.user_opts.len() as int) =~= tr@.user_opts);
    let key = match tr.effective_identity() {
        Some(key) => key.as_str(),
        None => "",
    };
    feed(&mut out, key);
    feed(&mut out, &tr.destination);
    proof {
        reveal_strlit("");
        assert(""@ =~= Seq::empty());
        lemma_fed_push(v, key@);
        lemma_fed_push(v.push(key@), tr.destination@);
        assert(v.push(key@).push(tr.destination@) =~= connection(tr@));
    }
    out
}

/// The socket's name: a hash of everything that decides which connection it is
/// (the ssh binary, the user's options, the key in use and the destination), so two
/// calls share a master only when they would have authenticated the same way.
///
/// ssh's own `%C` is not used: it hashes the host, port and remote user but not
/// `-i` or `-J`, so two calls that named different keys would share one
/// authenticated connection.
///
/// `-L` is not in it: side calls never carry a forward and a session that does
/// carries no master at all, so the same host keeps one socket rather than one per
/// forward.
pub fn socket_name(tr: &Transport) -> (s: String)
    ensures
        s@ == socket_text(tr@),
        s@.len() == 32,
{
    let d = digest(&fed_bytes(tr));
    let name = chars_of(&hex(&d));
    proof {
        lemma_hex_len(d@);
    }
    let s = string_of(&sub_vec(&name, 0, 32));
    assert(s@ =~= socket_text(tr@));
    s
}

proof fn lemma_hex_len(b: Seq<u8>)
    ensures
        hex_text(b).len() == 2 * b.len(),
    decreases b.len(),
{
    if b.len() > 0 {
        lemma_hex_len(b.drop_last());
    }
}

/// A name in a directory.
pub open spec fn in_dir(dir: Seq<char>, name: Seq<char>) -> Seq<char> {
    if dir.len() == 0 || dir.last() == '/' {
        dir + name
    } else {
        dir + "/"@ + name
    }
}

/// The control socket of a transport, unless its path is longer than `max` bytes.
pub open spec fn control_socket(t: TransportView, max: u64) -> Option<Seq<char>> {
    match t.mux {
        None => None,
        Some(m) => {
            let path = in_dir(m.dir, socket_text(t));
            if encode_utf8(path).len() <= max {
                Some(path)
            } else {
                None
            }
        },
    }
}

/// The control socket, where the transport has a master and the path is not longer
/// than the `max` bytes that the platform takes.
pub fn control_path(tr: &Transport, max: u64) -> (r: Option<String>)
    ensures
        match r {
            Some(p) => control_socket(tr@, max) == Some(p@),
            None => control_socket(tr@, max) is None,
        },
{
    match &tr.mux {
        None => None,
        Some(m) => {
            let mut path = m.dir.clone();
            let dir = chars_of(&m.dir);
            let n: usize = dir.len();
            if n > 0 && dir[n - 1] != '/' {
                path.append("/");
            }
            path.append(&socket_name(tr));
            if path.as_str().as_bytes().len() as u64 <= max {
                Some(path)
            } else {
                None
            }
        },
    }
}

// ---- the decision ----------------------------------------------------------

/// Why no directory is opened for a master, if it is not.
pub open spec fn refused(t: TransportView, persist: u64) -> Option<Seq<char>> {
    match vetoed(t) {
        Some(why) => Some(no_master_text(why)),
        None => if persist == 0 {
            Some("no shared ssh master: ACS_CONTROL_PERSIST is 0"@)
        } else {
            None
        },
    }
}

/// Why this transport gets no master before any directory is looked at.
pub fn refusal(tr: &Transport, persist: u64) -> (r: Option<String>)
    ensures
        match r {
            Some(why) => refused(tr@, persist) == Some(why@),
            None => refused(tr@, persist) is None,
        },
{
    if let Some(why) = veto(tr) {
        return Some(no_master(&why));
    }
    if persist == 0 {
        return Some("no shared ssh master: ACS_CONTROL_PERSIST is 0".to_owned());
    }
    None
}

/// The transport after the decision, and what is said of it. `opened` says why the
/// directory cannot be vouched for, if it cannot.
pub open spec fn configured(
    t: TransportView,
    dir: Seq<char>,
    persist: u64,
    opened: Option<Seq<char>>,
    max: u64,
) -> (TransportView, Seq<char>) {
    let without = TransportView { mux: None, ..t };
    let with = TransportView { mux: Some(MuxView { dir, persist }), ..t };
    match refused(t, persist) {
        Some(why) => (without, why),
        None => match opened {
            Some(e) => (without, no_master_text(e)),
            None => match control_socket(with, max) {
                Some(path) => (with, master_at_text(path, persist)),
                None => (without, too_long_text(dir, max)),
            },
        },
    }
}

/// Give `tr` an acs-owned master where that is safe, and say what was decided: the
/// caller shows it under `-v`. `opened` is what came of opening the directory, which
/// is asked for only where [`refusal`] objects to nothing; `max` is the longest path
/// that a socket can have.
///
/// Nothing here is fatal: every reason not to multiplex leaves `tr.mux` unset, and
/// the dial is then on a connection of its own.
pub fn configure_at(
    tr: &mut Transport,
    dir: String,
    persist: u64,
    opened: Result<(), String>,
    max: u64,
) -> (said: String)
    ensures
        (final(tr)@, said@) == configured(
            old(tr)@,
            dir@,
            persist,
            match opened {
                Ok(_) => None,
                Err(e) => Some(e@),
            },
            max,
        ),
{
    tr.mux = None;
    if let Some(why) = refusal(tr, persist) {
        return why;
    }
    if let Err(e) = opened {
        return no_master(&e);
    }
    tr.mux = Some(Mux { dir: dir.clone(), persist });
    match control_path(tr, max) {
        Some(path) => master_at(&path, persist),
        None => {
            tr.mux = None;
            too_long(&dir, max)
        },
    }
}

/// [`configure_at`], with the directory and the persist window as the environment
/// gives them.
pub fn configure(
    tr: &mut Transport,
    control_dir_env: Option<&str>,
    uid: u32,
    persist_env: Option<&str>,
    opened: Result<(), String>,
    max: u64,
) -> (said: String)
    ensures
        (final(tr)@, said@) == configured(
            old(tr)@,
            control_dir(given_view(control_dir_env), uid),
            number_or(given_view(persist_env), DEFAULT_PERSIST_SECS),
            match opened {
                Ok(_) => None,
                Err(e) => Some(e@),
            },
            max,
        ),
{
    configure_at(tr, dir_path(control_dir_env, uid), persist_secs(persist_env), opened, max)
}

/// Whether a dial of this kind would join a master that is up now: `there` says
/// whether the socket exists, `answers` whether a master answers on it. Only then is
/// the short fallback window right: a dial that has to make the connection may still
/// wait on a password or a key touch.
pub fn joinable(tr: &Transport, call: Call, max: u64, there: bool, answers: bool) -> (r: bool)
    ensures
        r == (shares(tr@, call) && control_socket(tr@, max) is Some && there && answers),
{
    tr.multiplexes(call) && control_path(tr, max).is_some() && there && answers
}

/// Whether there is a master to kill: `there` says whether the socket exists.
/// Killing is harmless when the socket is stale, which is why nothing here asks
/// whether a master answers.
pub fn stop(tr: &Transport, max: u64, there: bool) -> (r: bool)
    ensures
        r == (control_socket(tr@, max) is Some && there),
{
    control_path(tr, max).is_some() && there
}

} // verus!
