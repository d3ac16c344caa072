//! What goes onto an ssh command line.

pub mod laws;

use crate::mux::{Mux, MuxView};
use crate::text::{
    chars_of, dec, decimal, is_white, parse_uint, parsed_max, same, string_of, texts, views, white,
};
use crate::yaml::opt_text;
use vstd::prelude::*;

verus! {

/// The characters of `s` as they stand inside single quotes: a quote closes
/// them, stands escaped, and opens them again.
pub open spec fn quote_inner(s: Seq<char>) -> Seq<char>
    decreases s.len(),
{
    if s.len() == 0 {
        Seq::empty()
    } else if s.last() == '\'' {
        quote_inner(s.drop_last()) + "'\\''"@
    } else {
        quote_inner(s.drop_last()).push(s.last())
    }
}

/// `s` as one word of a shell command.
pub open spec fn quoted(s: Seq<char>) -> Seq<char> {
    "'"@ + quote_inner(s) + "'"@
}

/// `s` as one word of a shell command.
pub fn sh_quote(s: &str) -> (r: String)
    ensures
        r@ == quoted(s@),
{
    let v = chars_of(s);
    let mut inner = String::new();
    assert(inner@ =~= Seq::empty());
    for i in 0..v.len()
        invariant
            v@ == s@,
            inner@ == quote_inner(s@.take(i as int)),
    {
        assert(s@.take(i + 1).drop_last() =~= s@.take(i as int));
        if v[i] == '\'' {
            inner.append("'\\''");
        } else {
            inner.push(v[i]);
        }
    }
    assert(s@.take(s@.len() as int) =~= s@);
    let mut r = "'".to_owned();
    r.append(&inner);
    r.append("'");
    r
}

/// What a call to ssh is for.
#[derive(Debug, Clone, Copy, PartialEq, Eq, Structural)]
pub enum Call {
    /// The session's own connection.
    Session,
    /// A connection after one was lost: always one of its own.
    Redial,
    /// A listing or an install.
    Side,
    /// A side call that nobody can answer a prompt of: one of several at once, or one
    /// made while a menu holds the terminal. ssh fails where it would ask.
    Batch,
}

/// How a host is reached.
#[derive(Debug, Clone, PartialEq, Eq)]
pub struct Transport {
    pub destination: String,
    /// The ssh program.
    pub ssh: String,
    /// The user's ssh options, each flag followed by its value.
    pub user_opts: Vec<String>,
    /// `-L` forwards, for the session's ssh alone.
    pub local_forwards: Vec<String>,
    /// A command that is run in place of ssh.
    pub transport_cmd: Option<String>,
    /// The key that the configuration names.
    pub identity_file: Option<String>,
    /// The shared master, if the host may have one.
    pub mux: Option<Mux>,
}

#[verifier::ext_equal]
pub struct TransportView {
    pub destination: Seq<char>,
    pub ssh: Seq<char>,
    pub user_opts: Seq<Seq<char>>,
    pub local_forwards: Seq<Seq<char>>,
    pub transport_cmd: Option<Seq<char>>,
    pub identity_file: Option<Seq<char>>,
    pub mux: Option<MuxView>,
}

impl View for Transport {
    type V = TransportView;

    open spec fn view(&self) -> TransportView {
        TransportView {
            destination: self.destination@,
            ssh: self.ssh@,
            user_opts: texts(self.user_opts@),
            local_forwards: texts(self.local_forwards@),
            transport_cmd: opt_text(self.transport_cmd),
            identity_file: opt_text(self.identity_file),
            mux: match self.mux {
                None => None,
                Some(m) => Some(m@),
            },
        }
    }
}

/// A transport that nothing but the destination is known of.
pub open spec fn plain_transport(destination: Seq<char>) -> TransportView {
    TransportView {
        destination,
        ssh: "ssh"@,
        user_opts: Seq::empty(),
        local_forwards: Seq::empty(),
        transport_cmd: None,
        identity_file: None,
        mux: None,
    }
}

/// The user named a key on the command line.
pub open spec fn names_key(opts: Seq<Seq<char>>) -> bool {
    exists|k: int| 0 <= k && 2 * k < opts.len() && #[trigger] opts[2 * k] == "-i"@
}

/// The key that the configuration gives the connection: none where the user named
/// one.
pub open spec fn key_of(t: TransportView) -> Option<Seq<char>> {
    if names_key(t.user_opts) {
        None
    } else {
        t.identity_file
    }
}

/// Whether a call goes over the shared master: a redial never does.
pub open spec fn shares(t: TransportView, call: Call) -> bool {
    t.mux is Some && !(call is Redial)
}

fn copy_all(v: &Vec<String>) -> (r: Vec<String>)
    ensures
        texts(r@) == texts(v@),
{
    let mut r: Vec<String> = Vec::new();
    for i in 0..v.len()
        invariant
            r@.len() == i,
            forall|j: int| 0 <= j < i ==> (#[trigger] r@[j])@ == v@[j]@,
    {
        r.push(v[i].clone());
    }
    assert(texts(r@) =~= texts(v@));
    r
}

impl Transport {
    pub fn new(destination: String) -> (t: Transport)
        ensures
            t@ == plain_transport(destination@),
    {
        let t = Transport {
            destination,
            ssh: "ssh".to_owned(),
            user_opts: Vec::new(),
            local_forwards: Vec::new(),
            transport_cmd: None,
            identity_file: None,
            mux: None,
        };
        assert(t@.user_opts =~= Seq::empty());
        assert(t@.local_forwards =~= Seq::empty());
        t
    }

    pub fn copy(&self) -> (t: Transport)
        ensures
            t@ == self@,
    {
        Transport {
            destination: self.destination.clone(),
            ssh: self.ssh.clone(),
            user_opts: copy_all(&self.user_opts),
            local_forwards: copy_all(&self.local_forwards),
            transport_cmd: match &self.transport_cmd {
                Some(c) => Some(c.clone()),
                None => None,
            },
            identity_file: match &self.identity_file {
                Some(k) => Some(k.clone()),
                None => None,
            },
            mux: match &self.mux {
                Some(m) => Some(Mux { dir: m.dir.clone(), persist: m.persist }),
                None => None,
            },
        }
    }

    /// Whether the user named a key on the command line.
    pub fn user_identity(&self) -> (r: bool)
        ensures
            r == names_key(self@.user_opts),
    {
        let mut k: usize = 0;
        let n: usize = self.user_opts.len();
        while k < n && k < n - k
            invariant
                k <= n,
                n == self.user_opts@.len(),
                forall|j: int| 0 <= j < k ==> #[trigger] self@.user_opts[2 * j] != "-i"@,
            decreases n - k,
        {
            assert(self@.user_opts[2 * k as int] == self.user_opts@[2 * k as int]@);
            if same(&self.user_opts[2 * k], "-i") {
                return true;
            }
            k = k + 1;
        }
        false
    }

    /// The key that the configuration gives the connection.
    pub fn effective_identity(&self) -> (r: Option<&String>)
        ensures
            match r {
                None => key_of(self@) is None,
                Some(s) => key_of(self@) == Some(s@),
            },
    {
        if self.user_identity() {
            None
        } else {
            match &self.identity_file {
                Some(s) => Some(s),
                None => None,
            }
        }
    }

    /// Whether a call goes over the shared master.
    pub fn multiplexes(&self, call: Call) -> (r: bool)
        ensures
            r == shares(self@, call),
    {
        self.mux.is_some() && call != Call::Redial
    }
}

// ---- the command line ------------------------------------------------------

/// An option in the form `-o key=value`.
pub open spec fn option(key: Seq<char>, value: Seq<char>) -> Seq<Seq<char>> {
    seq!["-o"@, key + "="@ + value]
}

fn push_option(v: &mut Vec<String>, key: &str, value: &str)
    ensures
        texts(final(v)@) == texts(old(v)@) + option(key@, value@),
{
    v.push("-o".to_owned());
    let mut o = key.to_owned();
    o.append("=");
    o.append(value);
    v.push(o);
    assert(texts(v@) =~= texts(old(v)@) + option(key@, value@));
}

/// Each forward behind its `-L`.
pub open spec fn forward_words(forwards: Seq<Seq<char>>) -> Seq<Seq<char>>
    decreases forwards.len(),
{
    if forwards.len() == 0 {
        Seq::empty()
    } else {
        forward_words(forwards.drop_last()) + seq!["-L"@, forwards.last()]
    }
}

/// What is said of the shared master: to use it, at the socket `shared`, or to use
/// none, the user's own included.
pub open spec fn control_words(t: TransportView, shared: Option<Seq<char>>) -> Seq<Seq<char>> {
    match (shared, t.mux) {
        (Some(path), Some(m)) => option("ControlMaster"@, "auto"@) + option("ControlPath"@, path)
            + option("ControlPersist"@, dec(m.persist as nat)),
        _ => option("ControlMaster"@, "no"@) + option("ControlPath"@, "none"@),
    }
}

/// The command that reaches the host and runs `remote` on it; `socket` is the shared
/// master's, if there is one to share. ssh goes by the first value it is given, so
/// what the user sets does not bring a prompt back.
pub open spec fn command_line(
    t: TransportView,
    call: Call,
    remote: Seq<char>,
    socket: Option<Seq<char>>,
) -> Seq<Seq<char>> {
    match t.transport_cmd {
        Some(cmd) => words_of(cmd, Seq::empty()) + seq![remote],
        None => seq![t.ssh] + (if call is Batch {
            option("BatchMode"@, "yes"@)
        } else {
            Seq::empty()
        }) + t.user_opts + (match key_of(t) {
            Some(key) => seq!["-i"@, key],
            None => Seq::empty(),
        }) + (if call is Side || call is Batch {
            Seq::empty()
        } else {
            forward_words(t.local_forwards)
        }) + option("ServerAliveInterval"@, "0"@) + control_words(
            t,
            if shares(t, call) {
                socket
            } else {
                None
            },
        ) + seq!["-T"@, t.destination, remote],
    }
}

/// The words of `s`, between white space, where `word` is the start of the first.
pub open spec fn words_of(s: Seq<char>, word: Seq<char>) -> Seq<Seq<char>>
    decreases s.len(),
{
    let so_far = if word.len() > 0 {
        seq![word]
    } else {
        Seq::empty()
    };
    if s.len() == 0 {
        so_far
    } else if is_white(s[0]) {
        so_far + words_of(s.skip(1), Seq::empty())
    } else {
        words_of(s.skip(1), word.push(s[0]))
    }
}

fn push_word(v: &mut Vec<String>, word: &Vec<char>)
    ensures
        texts(final(v)@) == texts(old(v)@) + if word@.len() > 0 {
            seq![word@]
        } else {
            Seq::empty()
        },
{
    if word.len() > 0 {
        v.push(string_of(word));
        assert(texts(v@) =~= texts(old(v)@) + seq![word@]);
    } else {
        assert(texts(v@) =~= texts(old(v)@) + Seq::<Seq<char>>::empty());
    }
}

fn split_words(s: &str) -> (v: Vec<String>)
    ensures
        texts(v@) == words_of(s@, Seq::empty()),
{
    let all = chars_of(s);
    let mut v: Vec<String> = Vec::new();
    let mut word: Vec<char> = Vec::new();
    assert(all@.skip(0) =~= all@);
    assert(word@ =~= Seq::empty());
    assert(texts(v@) + words_of(all@, word@) =~= words_of(all@, word@));
    let mut i: usize = 0;
    while i < all.len()
        invariant
            i <= all.len(),
            all@ == s@,
            texts(v@) + words_of(all@.skip(i as int), word@) == words_of(s@, Seq::empty()),
        decreases all.len() - i,
    {
        let ghost rest = all@.skip(i as int);
        let ghost had = texts(v@);
        let ghost was = word@;
        assert(rest.skip(1) =~= all@.skip(i + 1));
        assert(rest[0] == all@[i as int]);
        if white(all[i]) {
            push_word(&mut v, &word);
            word = Vec::new();
            proof {
                assert(word@ =~= Seq::empty());
                let so_far = if was.len() > 0 {
                    seq![was]
                } else {
                    Seq::empty()
                };
                assert(had + (so_far + words_of(rest.skip(1), Seq::empty())) =~= (had + so_far)
                    + words_of(rest.skip(1), Seq::empty()));
            }
        } else {
            word.push(all[i]);
        }
        i = i + 1;
    }
    assert(all@.skip(i as int) =~= Seq::empty());
    push_word(&mut v, &word);
    v
}

fn push_all(v: &mut Vec<String>, more: &Vec<String>)
    ensures
        texts(final(v)@) == texts(old(v)@) + texts(more@),
{
    let ghost had = texts(v@);
    assert(texts(more@.take(0)) =~= Seq::empty());
    assert(had + texts(more@.take(0)) =~= had);
    for i in 0..more.len()
        invariant
            had == texts(old(v)@),
            texts(v@) == had + texts(more@.take(i as int)),
    {
        let ghost before = v@;
        v.push(more[i].clone());
        assert(texts(v@) =~= texts(before).push(more@[i as int]@));
        assert(texts(more@.take(i + 1)) =~= texts(more@.take(i as int)).push(more@[i as int]@));
        assert(texts(v@) =~= had + texts(more@.take(i + 1)));
    }
    assert(more@.take(more@.len() as int) =~= more@);
}

fn push_forwards(v: &mut Vec<String>, forwards: &Vec<String>)
    ensures
        texts(final(v)@) == texts(old(v)@) + forward_words(texts(forwards@)),
{
    let ghost had = texts(v@);
    let ghost all = texts(forwards@);
    assert(had + forward_words(all.take(0)) =~= had);
    for i in 0..forwards.len()
        invariant
            had == texts(old(v)@),
            all == texts(forwards@),
            texts(v@) == had + forward_words(all.take(i as int)),
    {
        let ghost before = texts(v@);
        v.push("-L".to_owned());
        v.push(forwards[i].clone());
        proof {
            let f = all[i as int];
            assert(texts(v@) =~= before + seq!["-L"@, f]);
            assert(all.take(i + 1).drop_last() =~= all.take(i as int));
            assert(all.take(i + 1).last() == f);
            assert(before + seq!["-L"@, f] =~= had + (forward_words(all.take(i as int)) + seq!["-L"@, f]));
        }
    }
    assert(all.take(all.len() as int) =~= all);
}

impl Transport {
    /// The command that reaches the host and runs `remote` on it; `socket` is the
    /// shared master's, if there is one to share.
    pub fn argv(&self, call: Call, remote: &str, socket: Option<&str>) -> (v: Vec<String>)
        ensures
            texts(v@) == command_line(
                self@,
                call,
                remote@,
                match socket {
                    Some(p) => Some(p@),
                    None => None,
                },
            ),
    {
        if let Some(cmd) = &self.transport_cmd {
            let mut v = split_words(cmd);
            let ghost had = texts(v@);
            v.push(remote.to_owned());
            assert(texts(v@) =~= had + seq![remote@]);
            return v;
        }
        let mut v: Vec<String> = Vec::new();
        v.push(self.ssh.clone());
        assert(texts(v@) =~= seq![self@.ssh]);
        if call == Call::Batch {
            push_option(&mut v, "BatchMode", "yes");
        } else {
            assert(texts(v@) =~= seq![self@.ssh] + Seq::<Seq<char>>::empty());
        }
        push_all(&mut v, &self.user_opts);
        let ghost a = texts(v@);
        if let Some(key) = self.effective_identity() {
            v.push("-i".to_owned());
            v.push(key.clone());
            assert(texts(v@) =~= a + seq!["-i"@, key@]);
        } else {
            assert(texts(v@) =~= a + Seq::<Seq<char>>::empty());
        }
        let ghost b = texts(v@);
        if call != Call::Side && call != Call::Batch {
            push_forwards(&mut v, &self.local_forwards);
        } else {
            assert(texts(v@) =~= b + Seq::<Seq<char>>::empty());
        }
        push_option(&mut v, "ServerAliveInterval", "0");
        let shared = if self.multiplexes(call) {
            socket
        } else {
            None
        };
        let ghost c = texts(v@);
        match (shared, &self.mux) {
            (Some(path), Some(m)) => {
                push_option(&mut v, "ControlMaster", "auto");
                push_option(&mut v, "ControlPath", path);
                push_option(&mut v, "ControlPersist", &decimal(m.persist));
                assert(texts(v@) =~= c + control_words(self@, Some(path@)));
            },
            _ => {
                push_option(&mut v, "ControlMaster", "no");
                push_option(&mut v, "ControlPath", "none");
                assert(texts(v@) =~= c + control_words(self@, None));
            },
        }
        let ghost d = texts(v@);
        v.push("-T".to_owned());
        v.push(self.destination.clone());
        v.push(remote.to_owned());
        assert(texts(v@) =~= d + seq!["-T"@, self@.destination, remote@]);
        v
    }

    /// The command that tells the shared master at `socket` something (`-O`).
    pub fn control_argv(&self, op: &str, socket: &str) -> (v: Vec<String>)
        ensures
            texts(v@) == seq![self@.ssh] + option("ControlPath"@, socket@) + seq![
                "-O"@,
                op@,
                self@.destination,
            ],
    {
        let mut v: Vec<String> = Vec::new();
        v.push(self.ssh.clone());
        assert(texts(v@) =~= seq![self@.ssh]);
        push_option(&mut v, "ControlPath", socket);
        let ghost a = texts(v@);
        v.push("-O".to_owned());
        v.push(op.to_owned());
        v.push(self.destination.clone());
        assert(texts(v@) =~= a + seq!["-O"@, op@, self@.destination]);
        v
    }
}

// ---- on the other end ------------------------------------------------------

/// A script as one command for a remote shell of any kind.
pub open spec fn run_by_sh(script: Seq<char>) -> Seq<char> {
    "exec sh -c "@ + quoted(script)
}

/// A script as one command for a remote shell of any kind.
pub fn remote_command(script: &str) -> (s: String)
    ensures
        s@ == run_by_sh(script@),
{
    let mut s = "exec sh -c ".to_owned();
    s.append(&sh_quote(script));
    s
}

/// The words of a command, each behind a space and quoted.
pub open spec fn quoted_words(args: Seq<Seq<char>>) -> Seq<char>
    decreases args.len(),
{
    if args.len() == 0 {
        Seq::empty()
    } else {
        quoted_words(args.drop_last()) + " "@ + quoted(args.last())
    }
}

/// The command that runs acs of `version` on the host, or says what is needed there.
pub open spec fn acs_there(version: Seq<char>, args: Seq<Seq<char>>) -> Seq<char> {
    run_by_sh(
        "a=\"$HOME\"/.local/share/acs/"@ + quoted(version) + "/acs; [ -x \"$a\" ] && exec \"$a\""@
            + quoted_words(args) + "; echo; echo \"ACS-NEED $(uname -s) $(uname -m)\""@,
    )
}

/// The command that runs acs of `version` on the host, or says what is needed there.
pub fn remote_acs(version: &str, args: &[String]) -> (s: String)
    ensures
        s@ == acs_there(version@, texts(args@)),
{
    let mut words = String::new();
    let ghost all = texts(args@);
    assert(words@ =~= quoted_words(all.take(0)));
    for i in 0..args.len()
        invariant
            all == texts(args@),
            words@ == quoted_words(all.take(i as int)),
    {
        proof {
            assert(all.take(i + 1).drop_last() =~= all.take(i as int));
            assert(all.take(i + 1).last() == args@[i as int]@);
        }
        words.append(" ");
        words.append(&sh_quote(&args[i]));
    }
    assert(all.take(all.len() as int) =~= all);
    let mut script = "a=\"$HOME\"/.local/share/acs/".to_owned();
    script.append(&sh_quote(version));
    script.append("/acs; [ -x \"$a\" ] && exec \"$a\"");
    script.append(&words);
    script.append("; echo; echo \"ACS-NEED $(uname -s) $(uname -m)\"");
    remote_command(&script)
}

// ---- -L --------------------------------------------------------------------

/// The fields of a forward, between the colons that stand outside brackets;
/// `inside` says whether `s` starts within them.
pub open spec fn fields(s: Seq<char>, inside: bool) -> Seq<Seq<char>>
    decreases s.len(),
{
    if s.len() == 0 {
        seq![Seq::empty()]
    } else {
        let rest = fields(
            s.skip(1),
            if s[0] == '[' {
                true
            } else if s[0] == ']' {
                false
            } else {
                inside
            },
        );
        if s[0] == ':' && !inside {
            seq![Seq::<char>::empty()] + rest
        } else {
            seq![seq![s[0]] + rest[0]] + rest.skip(1)
        }
    }
}

pub open spec fn bad_forward_text(spec: Seq<char>) -> Seq<char> {
    "bad -L '"@ + spec + "': expected [bind:]port:host:hostport"@
}

fn bad_forward(spec: &str) -> (s: String)
    ensures
        s@ == bad_forward_text(spec@),
{
    let mut s = "bad -L '".to_owned();
    s.append(spec);
    s.append("': expected [bind:]port:host:hostport");
    s
}

pub open spec fn bad_port_text(spec: Seq<char>, port: Seq<char>) -> Seq<char> {
    "bad -L '"@ + spec + "': port '"@ + port + "' is not a number"@
}

fn bad_port(spec: &str, port: &str) -> (s: String)
    ensures
        s@ == bad_port_text(spec@, port@),
{
    let mut s = "bad -L '".to_owned();
    s.append(spec);
    s.append("': port '");
    s.append(port);
    s.append("' is not a number");
    s
}

/// A port: a number that a port can have.
pub open spec fn is_port(s: Seq<char>) -> bool {
    parsed_max(s, 65_535) is Some
}

/// What is wrong with a forward, if anything.
pub open spec fn forward_fault(spec: Seq<char>) -> Option<Seq<char>> {
    let f = fields(spec, false);
    if (f.len() != 3 && f.len() != 4) || f[f.len() - 2].len() == 0 {
        Some(bad_forward_text(spec))
    } else if !is_port(f[f.len() - 3]) {
        Some(bad_port_text(spec, f[f.len() - 3]))
    } else if !is_port(f[f.len() - 1]) {
        Some(bad_port_text(spec, f[f.len() - 1]))
    } else {
        None
    }
}

proof fn lemma_fields_len(s: Seq<char>, inside: bool)
    ensures
        fields(s, inside).len() >= 1,
    decreases s.len(),
{
    if s.len() > 0 {
        let next = if s[0] == '[' {
            true
        } else if s[0] == ']' {
            false
        } else {
            inside
        };
        lemma_fields_len(s.skip(1), next);
    }
}

/// The fields gathered so far, the last of them still open, before the rest.
spec fn gathered(done: Seq<Seq<char>>, open: Seq<char>, rest: Seq<Seq<char>>) -> Seq<Seq<char>> {
    done + (seq![open + rest[0]] + rest.skip(1))
}

fn split_fields(s: &[char]) -> (r: Vec<Vec<char>>)
    ensures
        views(r@) == fields(s@, false),
{
    let mut done: Vec<Vec<char>> = Vec::new();
    let mut open: Vec<char> = Vec::new();
    let mut inside = false;
    let mut i: usize = 0;
    proof {
        lemma_fields_len(s@, false);
        assert(s@.skip(0) =~= s@);
        let f = fields(s@, false);
        assert(gathered(views(done@), open@, f) =~= f) by {
            assert(open@ + f[0] =~= f[0]);
        }
    }
    while i < s.len()
        invariant
            i <= s.len(),
            gathered(views(done@), open@, fields(s@.skip(i as int), inside)) == fields(s@, false),
        decreases s.len() - i,
    {
        let c = s[i];
        let ghost here = s@.skip(i as int);
        let ghost next = if c == '[' {
            true
        } else if c == ']' {
            false
        } else {
            inside
        };
        let ghost rest = fields(s@.skip(i + 1), next);
        let ghost done0 = views(done@);
        let ghost open0 = open@;
        proof {
            assert(here[0] == c);
            assert(here.skip(1) =~= s@.skip(i + 1));
            lemma_fields_len(s@.skip(i + 1), next);
        }
        if c == ':' && !inside {
            let mut field: Vec<char> = Vec::new();
            std::mem::swap(&mut field, &mut open);
            done.push(field);
            proof {
                assert(views(done@) =~= done0.push(open0));
                assert(open@ =~= Seq::empty());
                let f = seq![Seq::<char>::empty()] + rest;
                assert(f.skip(1) =~= rest);
                assert(open0 + f[0] =~= open0);
                assert(open@ + rest[0] =~= rest[0]);
                assert(seq![rest[0]] + rest.skip(1) =~= rest);
                assert(gathered(done0, open0, f) =~= gathered(views(done@), open@, rest));
            }
        } else {
            open.push(c);
            proof {
                let f = seq![seq![c] + rest[0]] + rest.skip(1);
                assert(f.skip(1) =~= rest.skip(1));
                assert(open0 + (seq![c] + rest[0]) =~= open@ + rest[0]);
                assert(gathered(done0, open0, f) =~= gathered(views(done@), open@, rest));
            }
        }
        if c == '[' {
            inside = true;
        } else if c == ']' {
            inside = false;
        }
        i = i + 1;
    }
    let ghost d0 = views(done@);
    let ghost o0 = open@;
    done.push(open);
    proof {
        assert(s@.skip(i as int) =~= Seq::empty());
        let f = fields(Seq::<char>::empty(), inside);
        assert(o0 + f[0] =~= o0);
        assert(f.skip(1) =~= Seq::empty());
        assert(views(done@) =~= gathered(d0, o0, f));
    }
    done
}

/// Whether a forward is one that ssh can open.
pub fn check_local_forward(spec: &str) -> (r: Result<(), String>)
    ensures
        match r {
            Ok(_) => forward_fault(spec@) is None,
            Err(e) => forward_fault(spec@) == Some(e@),
        },
{
    let f = split_fields(&chars_of(spec));
    let n: usize = f.len();
    let ghost all = fields(spec@, false);
    assert(all.len() == n);
    if n != 3 && n != 4 {
        return Err(bad_forward(spec));
    }
    assert(all[n - 1] == f@[n - 1]@ && all[n - 2] == f@[n - 2]@ && all[n - 3] == f@[n - 3]@);
    if f[n - 2].len() == 0 {
        return Err(bad_forward(spec));
    }
    if parse_uint(&f[n - 3], 65_535).is_none() {
        return Err(bad_port(spec, &string_of(&f[n - 3])));
    }
    if parse_uint(&f[n - 1], 65_535).is_none() {
        return Err(bad_port(spec, &string_of(&f[n - 1])));
    }
    Ok(())
}

} // verus!
