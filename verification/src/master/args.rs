//! The arguments of `acs _master`, and the program it starts.

use crate::session::{bad_name_text, valid_name, validate_name};
use crate::text::{
    chars_of, is_text, join, joined_by, parse_int, parse_uint, parsed_int, parsed_max, same, string_of, sub_vec, texts, trim_chars, trimmed,
};
use vstd::prelude::*;

verus! {

/// The smallest output ring.
pub const MIN_RING: usize = 4096;

/// What `acs _master` was asked to do.
#[derive(Debug)]
pub struct Args {
    /// Where the sockets are; `None` for the usual place.
    pub dir: Option<String>,
    pub session: String,
    pub ready_fd: Option<i32>,
    pub ring: usize,
}

#[verifier::ext_equal]
pub struct ArgsView {
    pub dir: Option<Seq<char>>,
    pub session: Option<Seq<char>>,
    pub ready_fd: Option<int>,
    pub ring: nat,
}

pub open spec fn needs_value_text(a: Seq<char>) -> Seq<char> {
    a + " needs a value"@
}

fn needs_value(a: &str) -> (s: String)
    ensures
        s@ == needs_value_text(a@),
{
    let mut s = a.to_owned();
    s.append(" needs a value");
    s
}

pub open spec fn unexpected_text(a: Seq<char>) -> Seq<char> {
    "unexpected argument "@ + a
}

fn unexpected(a: &str) -> (s: String)
    ensures
        s@ == unexpected_text(a@),
{
    let mut s = "unexpected argument ".to_owned();
    s.append(a);
    s
}

/// The arguments from here on, over what stood before them.
pub open spec fn parsed(args: Seq<Seq<char>>, so_far: ArgsView) -> Result<ArgsView, Seq<char>>
    decreases args.len(),
{
    if args.len() == 0 {
        match so_far.session {
            None => Err("missing --session"@),
            Some(s) => if valid_name(s) {
                Ok(
                    ArgsView {
                        ring: if so_far.ring < MIN_RING {
                            MIN_RING as nat
                        } else {
                            so_far.ring
                        },
                        ..so_far
                    },
                )
            } else {
                Err(bad_name_text(s))
            },
        }
    } else {
        let a = args[0];
        if a == "--dir"@ || a == "--session"@ || a == "--ready-fd"@ || a == "--ring"@ {
            if args.len() < 2 {
                Err(needs_value_text(a))
            } else {
                let v = args[1];
                let rest = args.skip(2);
                if a == "--dir"@ {
                    parsed(rest, ArgsView { dir: Some(v), ..so_far })
                } else if a == "--session"@ {
                    parsed(rest, ArgsView { session: Some(v), ..so_far })
                } else if a == "--ready-fd"@ {
                    match parsed_int(v, i32::MIN as int, i32::MAX as int) {
                        None => Err("bad --ready-fd"@),
                        Some(n) => parsed(rest, ArgsView { ready_fd: Some(n), ..so_far }),
                    }
                } else {
                    match parsed_max(v, usize::MAX as nat) {
                        None => Err("bad --ring"@),
                        Some(n) => parsed(rest, ArgsView { ring: n, ..so_far }),
                    }
                }
            }
        } else {
            Err(unexpected_text(a))
        }
    }
}

impl Args {
    pub open spec fn as_view(&self) -> ArgsView {
        ArgsView {
            dir: match self.dir {
                None => None,
                Some(d) => Some(d@),
            },
            session: Some(self.session@),
            ready_fd: match self.ready_fd {
                None => None,
                Some(n) => Some(n as int),
            },
            ring: self.ring as nat,
        }
    }
}

/// Nothing asked for yet; `ring` is what the environment asks for.
pub open spec fn nothing_yet(ring: nat) -> ArgsView {
    ArgsView { dir: None, session: None, ready_fd: None, ring }
}

/// The arguments of `acs _master`; `ring` is the ring's size when they name none.
pub fn parse_args(args: &[String], ring: usize) -> (r: Result<Args, String>)
    ensures
        match r {
            Ok(a) => parsed(texts(args@), nothing_yet(ring as nat)) == Ok::<ArgsView, Seq<char>>(
                a.as_view(),
            ),
            Err(e) => parsed(texts(args@), nothing_yet(ring as nat)) == Err::<ArgsView, Seq<char>>(
                e@,
            ),
        },
{
    let ghost all = texts(args@);
    let mut dir: Option<String> = None;
    let mut session: Option<String> = None;
    let mut ready_fd: Option<i32> = None;
    let mut size: usize = ring;
    let ghost start = nothing_yet(ring as nat);
    let mut i: usize = 0;
    assert(all.skip(0) =~= all);
    while i < args.len()
        invariant
            i <= args.len(),
            all == texts(args@),
            start == nothing_yet(ring as nat),
            parsed(all, start) == parsed(
                all.skip(i as int),
                so_far_view(dir, session, ready_fd, size),
            ),
        decreases args.len() - i,
    {
        let a = args[i].as_str();
        let ghost rest = all.skip(i as int);
        assert(rest[0] == a@);
        proof {
            reveal_strlit("--dir");
            reveal_strlit("--session");
            reveal_strlit("--ready-fd");
            reveal_strlit("--ring");
        }
        if same(a, "--dir") || same(a, "--session") || same(a, "--ready-fd") || same(a, "--ring") {
            if args.len() - i < 2 {
                return Err(needs_value(a));
            }
            let v = args[i + 1].clone();
            assert(rest[1] == v@);
            assert(rest.skip(2) =~= all.skip(i + 2));
            if same(a, "--dir") {
                dir = Some(v);
            } else if same(a, "--session") {
                session = Some(v);
            } else if same(a, "--ready-fd") {
                match parse_int(&chars_of(&v)) {
                    None => {
                        return Err("bad --ready-fd".to_owned());
                    },
                    Some(n) => {
                        ready_fd = Some(n);
                    },
                }
            } else {
                match parse_uint(&chars_of(&v), usize::MAX as u64) {
                    None => {
                        return Err("bad --ring".to_owned());
                    },
                    Some(n) => {
                        size = n as usize;
                    },
                }
            }
            i = i + 2;
        } else {
            return Err(unexpected(a));
        }
    }
    assert(all.skip(i as int) =~= Seq::empty());
    match session {
        None => Err("missing --session".to_owned()),
        Some(name) => match validate_name(&name) {
            Err(e) => Err(e),
            Ok(_) => Ok(
                Args {
                    dir,
                    session: name,
                    ready_fd,
                    ring: if size < MIN_RING {
                        MIN_RING
                    } else {
                        size
                    },
                },
            ),
        },
    }
}

pub open spec fn so_far_view(
    dir: Option<String>,
    session: Option<String>,
    ready_fd: Option<i32>,
    ring: usize,
) -> ArgsView {
    ArgsView {
        dir: match dir {
            None => None,
            Some(d) => Some(d@),
        },
        session: match session {
            None => None,
            Some(d) => Some(d@),
        },
        ready_fd: match ready_fd {
            None => None,
            Some(n) => Some(n as int),
        },
        ring: ring as nat,
    }
}

/// The program of a session: what is run, what it is called in a listing, and
/// what its environment says of the terminal.
#[derive(Debug)]
pub struct Program {
    pub argv: Vec<String>,
    pub description: String,
    pub term: String,
    /// `None` where the variable is not to be set.
    pub colorterm: Option<String>,
}

#[verifier::ext_equal]
pub struct ProgramView {
    pub argv: Seq<Seq<char>>,
    pub description: Seq<char>,
    pub term: Seq<char>,
    pub colorterm: Option<Seq<char>>,
}

impl View for Program {
    type V = ProgramView;

    open spec fn view(&self) -> ProgramView {
        ProgramView {
            argv: texts(self.argv@),
            description: self.description@,
            term: self.term@,
            colorterm: match self.colorterm {
                None => None,
                Some(c) => Some(c@),
            },
        }
    }
}

/// The program that a client's HELLO asks for: its command, or the login shell.
pub open spec fn program_for(
    shell: Option<Seq<char>>,
    command: Seq<Seq<char>>,
    term: Seq<char>,
    colorterm: Seq<char>,
) -> ProgramView {
    let sh = match shell {
        Some(s) if s.len() > 0 => s,
        _ => "/bin/sh"@,
    };
    ProgramView {
        argv: if command.len() == 0 {
            seq![sh, "-l"@]
        } else {
            command
        },
        description: if command.len() == 0 {
            sh + " -l"@
        } else {
            joined_by(command, " "@)
        },
        term: if term.len() == 0 {
            "xterm-256color"@
        } else {
            term
        },
        colorterm: if colorterm.len() == 0 {
            None
        } else {
            Some(colorterm)
        },
    }
}

fn copies(v: &Vec<String>) -> (r: Vec<String>)
    ensures
        texts(r@) == texts(v@),
{
    let mut r: Vec<String> = Vec::new();
    for i in 0..v.len()
        invariant
            r@.len() == i,
            forall|k: int| 0 <= k < i ==> (#[trigger] r@[k])@ == v@[k]@,
    {
        r.push(v[i].clone());
    }
    assert(texts(r@) =~= texts(v@));
    r
}

/// The program that a client's HELLO asks for; `shell` is `$SHELL`.
pub fn program(shell: Option<&str>, command: &Vec<String>, term: &str, colorterm: &str) -> (p: Program)
    ensures
        p@ == program_for(
            crate::session::given_view(shell),
            texts(command@),
            term@,
            colorterm@,
        ),
{
    let sh = match shell {
        Some(s) => if s.is_empty() {
            "/bin/sh".to_owned()
        } else {
            s.to_owned()
        },
        None => "/bin/sh".to_owned(),
    };
    let (argv, description) = if command.len() == 0 {
        let mut d = sh.clone();
        d.append(" -l");
        let v = vec![sh, "-l".to_owned()];
        (v, d)
    } else {
        (copies(command), join(command, " "))
    };
    let p = Program {
        argv,
        description,
        term: if term.is_empty() {
            "xterm-256color".to_owned()
        } else {
            term.to_owned()
        },
        colorterm: if colorterm.is_empty() {
            None
        } else {
            Some(colorterm.to_owned())
        },
    };
    assert(p@.argv =~= program_for(
        crate::session::given_view(shell),
        texts(command@),
        term@,
        colorterm@,
    ).argv);
    p
}

// ---- starting a master -----------------------------------------------------

/// The file descriptor on which a master says that it is ready.
pub const READY_FD: &'static str = "3";

/// The arguments that start the master of `session`.
pub open spec fn spawn_line(dir: Seq<char>, session: Seq<char>) -> Seq<Seq<char>> {
    seq!["--dir"@, dir, "--session"@, session, "--ready-fd"@, READY_FD@]
}

/// The arguments that start the master of `session`, behind `_master`.
pub fn spawn_args(dir: &str, session: &str) -> (r: Vec<String>)
    ensures
        texts(r@) == spawn_line(dir@, session@),
{
    let mut r: Vec<String> = Vec::new();
    r.push("--dir".to_owned());
    r.push(dir.to_owned());
    r.push("--session".to_owned());
    r.push(session.to_owned());
    r.push("--ready-fd".to_owned());
    r.push(READY_FD.to_owned());
    assert(texts(r@) =~= spawn_line(dir@, session@));
    r
}

/// A master understands the arguments that it is started with: it serves the session
/// it was started for, in the directory it was started for, and says when it is ready.
pub proof fn law_a_master_is_started_for_its_session(dir: Seq<char>, session: Seq<char>, ring: nat)
    requires
        valid_name(session),
    ensures
        parsed(spawn_line(dir, session), nothing_yet(ring)) == Ok::<ArgsView, Seq<char>>(
            ArgsView {
                dir: Some(dir),
                session: Some(session),
                ready_fd: Some(3),
                ring: if ring < MIN_RING {
                    MIN_RING as nat
                } else {
                    ring
                },
            },
        ),
{
    reveal_strlit("--dir");
    reveal_strlit("--session");
    reveal_strlit("--ready-fd");
    reveal_strlit("3");
    let all = spawn_line(dir, session);
    assert("--dir"@.len() != "--session"@.len() && "--dir"@.len() != "--ready-fd"@.len()
        && "--session"@.len() != "--ready-fd"@.len());
    assert(all.skip(2) =~= seq!["--session"@, session, "--ready-fd"@, READY_FD@]);
    assert(all.skip(2).skip(2) =~= seq!["--ready-fd"@, READY_FD@]);
    assert(all.skip(2).skip(2).skip(2) =~= Seq::empty());
    assert(parsed_int("3"@, i32::MIN as int, i32::MAX as int) == Some(3int)) by {
        let d = "3"@;
        assert(d.drop_last() =~= Seq::empty());
        reveal_with_fuel(crate::text::digits_value, 2);
        assert(crate::text::is_digit(d[0]));
    }
    reveal_with_fuel(parsed, 4);
}

/// What a master said that was to say when it is ready, without what leads it in.
pub open spec fn unled(s: Seq<char>) -> Seq<char>
    decreases s.len(),
{
    if s.len() >= 5 && s.take(5) == "err: "@ {
        unled(s.skip(5))
    } else {
        s
    }
}

/// Whether a master is ready, from all that it said on the descriptor for it.
pub open spec fn ready_known(msg: Seq<char>) -> Result<(), Seq<char>> {
    let m = trimmed(msg);
    if m == "ok"@ {
        Ok(())
    } else if m.len() == 0 {
        Err("master exited before it was ready"@)
    } else {
        Err(unled(m))
    }
}

/// Whether a master is ready, from all that it said on the descriptor for it.
pub fn ready_said(msg: &str) -> (r: Result<(), String>)
    ensures
        match r {
            Ok(_) => ready_known(msg@) == Ok::<(), Seq<char>>(()),
            Err(e) => ready_known(msg@) == Err::<(), Seq<char>>(e@),
        },
{
    let m = trim_chars(&chars_of(msg));
    if is_text(&m, "ok") {
        return Ok(());
    }
    if m.len() == 0 {
        return Err("master exited before it was ready".to_owned());
    }
    let mut i: usize = 0;
    assert(m@.skip(0) =~= m@);
    while m.len() - i >= 5 && is_text(&sub_vec(&m, i, i + 5), "err: ")
        invariant
            i <= m.len(),
            m@ == trimmed(msg@),
            unled(m@) == unled(m@.skip(i as int)),
        decreases m.len() - i,
    {
        assert(m@.skip(i as int).take(5) =~= m@.subrange(i as int, i + 5));
        assert(m@.skip(i as int).skip(5) =~= m@.skip(i + 5));
        i = i + 5;
    }
    let rest = sub_vec(&m, i, m.len());
    proof {
        assert(rest@ =~= m@.skip(i as int));
        if rest@.len() >= 5 {
            assert(rest@.take(5) =~= m@.subrange(i as int, i + 5));
        }
    }
    Err(string_of(&rest))
}

/// A session runs the command it was given, word for word, and without one the user's own
/// shell as a login shell; the program knows the client's terminal, or a usual one.
pub proof fn law_a_session_runs_what_was_asked(
    shell: Option<Seq<char>>,
    command: Seq<Seq<char>>,
    term: Seq<char>,
    colorterm: Seq<char>,
)
    ensures
        ({
            let p = program_for(shell, command, term, colorterm);
            &&& command.len() > 0 ==> p.argv == command && p.description == joined_by(
                command,
                " "@,
            )
            &&& command.len() == 0 ==> p.argv.len() == 2 && p.argv[1] == "-l"@ && p.description
                == p.argv[0] + " -l"@
            &&& command.len() == 0 && shell is Some && shell->0.len() > 0 ==> p.argv[0] == shell->0
            &&& command.len() == 0 && (shell is None || shell->0.len() == 0) ==> p.argv[0]
                == "/bin/sh"@
            &&& term.len() > 0 ==> p.term == term
            &&& term.len() == 0 ==> p.term == "xterm-256color"@
            &&& colorterm.len() > 0 ==> p.colorterm == Some(colorterm)
            &&& colorterm.len() == 0 ==> p.colorterm is None
        }),
{
}

} // verus!
