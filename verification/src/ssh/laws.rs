//! What a host's shell, and ssh, make of what they are given.

use super::{
    acs_there, command_line, control_words, forward_words, key_of, option, quote_inner, quoted,
    quoted_words, run_by_sh, shares, Call, TransportView,
};
use crate::text::{in_order, lemma_one_more};
use vstd::prelude::*;

verus! {

// ---- words -----------------------------------------------------------------

/// The words that a shell reads: between spaces, with what stands in single quotes, or
/// behind a backslash, as it is. `word` is the word so far, `inside` says that a quote
/// is open.
pub open spec fn words_read(s: Seq<char>, inside: bool, word: Option<Seq<char>>) -> Seq<Seq<char>>
    decreases s.len(),
{
    let w = match word {
        Some(w) => w,
        None => Seq::empty(),
    };
    if s.len() == 0 {
        match word {
            Some(w) => seq![w],
            None => Seq::empty(),
        }
    } else if inside {
        if s[0] == '\'' {
            words_read(s.skip(1), false, Some(w))
        } else {
            words_read(s.skip(1), true, Some(w.push(s[0])))
        }
    } else if s[0] == '\'' {
        words_read(s.skip(1), true, Some(w))
    } else if s[0] == '\\' && s.len() > 1 {
        words_read(s.skip(2), false, Some(w.push(s[1])))
    } else if s[0] == ' ' {
        (match word {
            Some(w) => seq![w],
            None => Seq::empty(),
        }) + words_read(s.skip(1), false, None)
    } else {
        words_read(s.skip(1), false, Some(w.push(s[0])))
    }
}

/// The words of a command, as a shell reads them.
pub open spec fn shell_words(s: Seq<char>) -> Seq<Seq<char>> {
    words_read(s, false, None)
}

proof fn lemma_inner(s: Seq<char>, t: Seq<char>, w: Seq<char>)
    ensures
        words_read(quote_inner(s) + t, true, Some(w)) == words_read(t, true, Some(w + s)),
    decreases s.len(),
{
    if s.len() == 0 {
        assert(quote_inner(s) + t =~= t);
        assert(w + s =~= w);
    } else {
        let most = s.drop_last();
        let c = s.last();
        if c == '\'' {
            reveal_strlit("'\\''");
            let rest = "'\\''"@ + t;
            assert(quote_inner(s) + t =~= quote_inner(most) + rest);
            lemma_inner(most, rest, w);
            let v = w + most;
            assert(rest.skip(1)[0] == '\\' && rest.skip(1)[1] == '\'');
            assert(rest.skip(1).skip(2)[0] == '\'');
            assert(rest.skip(1).skip(2).skip(1) =~= t);
            assert(words_read(rest, true, Some(v)) == words_read(rest.skip(1), false, Some(v)));
            assert(words_read(rest.skip(1), false, Some(v)) == words_read(
                rest.skip(1).skip(2),
                false,
                Some(v.push(c)),
            ));
            assert(v.push(c) =~= w + s);
        } else {
            let rest = seq![c] + t;
            assert(quote_inner(s) + t =~= quote_inner(most) + rest);
            lemma_inner(most, rest, w);
            assert(rest.skip(1) =~= t);
            assert((w + most).push(c) =~= w + s);
        }
    }
}

proof fn lemma_quoted(s: Seq<char>, t: Seq<char>)
    ensures
        words_read(quoted(s) + t, false, None) == words_read(t, false, Some(s)),
{
    reveal_strlit("'");
    let all = quoted(s) + t;
    let rest = "'"@ + t;
    assert(all[0] == '\'');
    assert(all.skip(1) =~= quote_inner(s) + rest);
    lemma_inner(s, rest, Seq::empty());
    assert(Seq::<char>::empty() + s =~= s);
    assert(rest.skip(1) =~= t);
}

proof fn lemma_words(args: Seq<Seq<char>>, t: Seq<char>)
    requires
        args.len() > 0,
    ensures
        words_read(quoted_words(args) + t, false, None) == args.drop_last() + words_read(
            t,
            false,
            Some(args.last()),
        ),
    decreases args.len(),
{
    let most = args.drop_last();
    let last = args.last();
    reveal_strlit(" ");
    let rest = " "@ + quoted(last) + t;
    assert(rest[0] == ' ');
    assert(rest.skip(1) =~= quoted(last) + t);
    lemma_quoted(last, t);
    if most.len() == 0 {
        assert(quoted_words(most) =~= Seq::empty());
        assert(quoted_words(args) =~= " "@ + quoted(last));
        assert(quoted_words(args) + t =~= rest);
        assert(most + words_read(t, false, Some(last)) =~= words_read(t, false, Some(last)));
        assert(Seq::<Seq<char>>::empty() + words_read(t, false, Some(last)) =~= words_read(
            t,
            false,
            Some(last),
        ));
    } else {
        assert(quoted_words(args) + t =~= quoted_words(most) + rest);
        lemma_words(most, rest);
        assert(most.drop_last() + (seq![most.last()] + words_read(t, false, Some(last))) =~= most
            + words_read(t, false, Some(last)));
    }
}

/// Whatever is quoted, a shell reads it as the one word it was.
pub proof fn law_a_quoted_word_is_one_word(s: Seq<char>)
    ensures
        shell_words(quoted(s)) == seq![s],
{
    lemma_quoted(s, Seq::empty());
    assert(quoted(s) + Seq::<char>::empty() =~= quoted(s));
}

/// The arguments of a remote command are read as the arguments they are, whatever
/// stands in them.
pub proof fn law_quoted_arguments_stay_apart(args: Seq<Seq<char>>)
    ensures
        shell_words(quoted_words(args)) == args,
{
    assert(quoted_words(args) + Seq::<char>::empty() =~= quoted_words(args));
    if args.len() > 0 {
        lemma_words(args, Seq::empty());
        assert(args.drop_last() + seq![args.last()] =~= args);
    } else {
        assert(args =~= Seq::empty());
    }
}

/// A script that runs this version with these arguments, or says what is needed.
pub open spec fn runs_version(script: Seq<char>, version: Seq<char>, args: Seq<Seq<char>>) -> bool {
    in_order(
        script,
        seq![
            "/.local/share/acs/"@ + quoted(version) + "/acs"@,
            "exec \"$a\""@ + quoted_words(args),
            "ACS-NEED $(uname -s) $(uname -m)"@,
        ],
    )
}

/// The command that starts acs on a host hands one script to a shell there. The script
/// runs the version that is asked for, with the arguments given, and where that is not
/// there says what the host is.
pub proof fn law_the_host_runs_the_version_asked_for(version: Seq<char>, args: Seq<Seq<char>>)
    ensures
        exists|script: Seq<char>| #[trigger]
            runs_version(script, version, args) && shell_words(acs_there(version, args)) == seq![
                "exec"@,
                "sh"@,
                "-c"@,
                script,
            ],
{
    let script = "a=\"$HOME\"/.local/share/acs/"@ + quoted(version)
        + "/acs; [ -x \"$a\" ] && exec \"$a\""@ + quoted_words(args)
        + "; echo; echo \"ACS-NEED $(uname -s) $(uname -m)\""@;
    reveal_strlit("a=\"$HOME\"/.local/share/acs/");
    reveal_strlit("/.local/share/acs/");
    reveal_strlit("/acs; [ -x \"$a\" ] && exec \"$a\"");
    reveal_strlit("/acs");
    reveal_strlit("; [ -x \"$a\" ] && ");
    reveal_strlit("exec \"$a\"");
    reveal_strlit("; echo; echo \"ACS-NEED $(uname -s) $(uname -m)\"");
    reveal_strlit("; echo; echo \"");
    reveal_strlit("\"");
    reveal_strlit("a=\"$HOME\"");
    reveal_strlit("ACS-NEED $(uname -s) $(uname -m)");
    assert("a=\"$HOME\"/.local/share/acs/"@ =~= "a=\"$HOME\""@ + "/.local/share/acs/"@);
    assert("/acs; [ -x \"$a\" ] && exec \"$a\""@ =~= "/acs"@ + "; [ -x \"$a\" ] && "@
        + "exec \"$a\""@);
    assert("; echo; echo \"ACS-NEED $(uname -s) $(uname -m)\""@ =~= "; echo; echo \""@
        + "ACS-NEED $(uname -s) $(uname -m)"@ + "\""@);
    let p0 = "/.local/share/acs/"@ + quoted(version) + "/acs"@;
    let p1 = "exec \"$a\""@ + quoted_words(args);
    let p2 = "ACS-NEED $(uname -s) $(uname -m)"@;
    let all = seq![p0, p1, p2];
    let r2 = "\""@;
    let r1 = "; echo; echo \""@ + p2 + r2;
    let r0 = "; [ -x \"$a\" ] && "@ + p1 + r1;
    assert(script =~= "a=\"$HOME\""@ + p0 + r0);
    assert(all.skip(1) =~= seq![p1, p2]);
    assert(all.skip(1).skip(1) =~= seq![p2]);
    lemma_one_more(r1, "; echo; echo \""@, p2, r2, seq![p2]);
    lemma_one_more(r0, "; [ -x \"$a\" ] && "@, p1, r1, seq![p1, p2]);
    lemma_one_more(script, "a=\"$HOME\""@, p0, r0, all);
    let line = acs_there(version, args);
    assert(line == run_by_sh(script));
    lemma_four_words(script);
    assert(runs_version(script, version, args));
}

proof fn lemma_plain(word: Seq<char>, t: Seq<char>, w: Seq<char>)
    requires
        forall|i: int|
            0 <= i < word.len() ==> #[trigger] word[i] != '\'' && word[i] != '\\' && word[i] != ' ',
    ensures
        words_read(word + t, false, Some(w)) == words_read(t, false, Some(w + word)),
    decreases word.len(),
{
    if word.len() == 0 {
        assert(word + t =~= t);
        assert(w + word =~= w);
    } else {
        let s = word + t;
        let more = word.skip(1);
        assert(s[0] == word[0]);
        assert(s.skip(1) =~= more + t);
        assert forall|i: int| 0 <= i < more.len() implies #[trigger] more[i] != '\'' && more[i]
            != '\\' && more[i] != ' ' by {
            assert(more[i] == word[i + 1]);
        }
        lemma_plain(more, t, w.push(word[0]));
        assert(w.push(word[0]) + more =~= w + word);
    }
}

/// A plain word, and a space behind it.
proof fn lemma_plain_word(word: Seq<char>, t: Seq<char>)
    requires
        word.len() > 0,
        forall|i: int|
            0 <= i < word.len() ==> #[trigger] word[i] != '\'' && word[i] != '\\' && word[i] != ' ',
    ensures
        words_read(word + seq![' '] + t, false, None) == seq![word] + words_read(t, false, None),
{
    let s = word + seq![' '] + t;
    let more = word.skip(1);
    let rest = seq![' '] + t;
    assert(s[0] == word[0]);
    assert(s.skip(1) =~= more + rest);
    assert forall|i: int| 0 <= i < more.len() implies #[trigger] more[i] != '\'' && more[i] != '\\'
        && more[i] != ' ' by {
        assert(more[i] == word[i + 1]);
    }
    lemma_plain(more, rest, seq![word[0]]);
    assert(Seq::<char>::empty().push(word[0]) =~= seq![word[0]]);
    assert(seq![word[0]] + more =~= word);
    assert(rest.skip(1) =~= t);
}

proof fn lemma_four_words(script: Seq<char>)
    ensures
        shell_words(run_by_sh(script)) == seq!["exec"@, "sh"@, "-c"@, script],
{
    reveal_strlit("exec sh -c ");
    reveal_strlit("exec");
    reveal_strlit("sh");
    reveal_strlit("-c");
    let end = quoted(script);
    let third = "-c"@ + seq![' '] + end;
    let second = "sh"@ + seq![' '] + third;
    assert(run_by_sh(script) =~= "exec"@ + seq![' '] + second);
    law_a_quoted_word_is_one_word(script);
    lemma_plain_word("-c"@, end);
    lemma_plain_word("sh"@, third);
    lemma_plain_word("exec"@, second);
    assert(seq!["exec"@] + (seq!["sh"@] + (seq!["-c"@] + seq![script])) =~= seq![
        "exec"@,
        "sh"@,
        "-c"@,
        script,
    ]);
}

// ---- ssh's own words -------------------------------------------------------

/// What ssh is run with: the options the user gave, as they were given; the key of the
/// host entry, unless the user named one; what is said of the shared connection; and at
/// the end the host, and the command for it. A forward goes with the session alone.
pub proof fn law_ssh_is_told_where_and_what(
    t: TransportView,
    call: Call,
    remote: Seq<char>,
    socket: Option<Seq<char>>,
)
    requires
        t.transport_cmd is None,
    ensures
        ({
            let w = command_line(t, call, remote, socket);
            let n = w.len() as int;
            let at: int = if call is Batch {
                3
            } else {
                1
            };
            let key: Seq<Seq<char>> = match t.identity_file {
                Some(k) if !super::names_key(t.user_opts) => seq!["-i"@, k],
                _ => Seq::empty(),
            };
            let forwards = if call is Session || call is Redial {
                t.local_forwards
            } else {
                Seq::empty()
            };
            let after = at + t.user_opts.len() + key.len();
            &&& w[0] == t.ssh
            &&& call is Batch ==> w[1] == "-o"@ && w[2] == "BatchMode"@ + "="@ + "yes"@
            &&& w.subrange(at, at + t.user_opts.len()) == t.user_opts
            &&& w.subrange(at + t.user_opts.len(), after) == key
            &&& forall|i: int|
                0 <= i < forwards.len() ==> #[trigger] forwarded(w, after, i, forwards[i])
            &&& w[after + 2 * forwards.len()] == "-o"@
            &&& w[n - 3] == "-T"@
            &&& w[n - 2] == t.destination
            &&& w[n - 1] == remote
            &&& match (socket, t.mux) {
                (Some(path), Some(m)) if !(call is Redial) => w.subrange(
                    after + 2 * forwards.len() + 2,
                    n - 3,
                ) == seq![
                    "-o"@,
                    "ControlMaster"@ + "="@ + "auto"@,
                    "-o"@,
                    "ControlPath"@ + "="@ + path,
                    "-o"@,
                    "ControlPersist"@ + "="@ + crate::text::dec(m.persist as nat),
                ],
                _ => w.subrange(after + 2 * forwards.len() + 2, n - 3) == seq![
                    "-o"@,
                    "ControlMaster"@ + "="@ + "no"@,
                    "-o"@,
                    "ControlPath"@ + "="@ + "none"@,
                ],
            }
        }),
{
    let w = command_line(t, call, remote, socket);
    let forwards = if call is Session || call is Redial {
        t.local_forwards
    } else {
        Seq::empty()
    };
    lemma_forwards(forwards);
    let f = forward_words(forwards);
    let batch = if call is Batch {
        option("BatchMode"@, "yes"@)
    } else {
        Seq::empty()
    };
    let key = match key_of(t) {
        Some(k) => seq!["-i"@, k],
        None => Seq::empty(),
    };
    let control = control_words(
        t,
        if shares(t, call) {
            socket
        } else {
            None
        },
    );
    let alive = option("ServerAliveInterval"@, "0"@);
    let end = seq!["-T"@, t.destination, remote];
    assert(w == seq![t.ssh] + batch + t.user_opts + key + f + alive + control + end);
    let at: int = if call is Batch {
        3
    } else {
        1
    };
    let n = w.len() as int;
    let after = at + t.user_opts.len() + key.len();
    assert(w.subrange(at, at + t.user_opts.len()) =~= t.user_opts);
    assert(w.subrange(at + t.user_opts.len(), after) =~= key);
    assert forall|i: int| 0 <= i < forwards.len() implies #[trigger] forwarded(
        w,
        after,
        i,
        forwards[i],
    ) by {
        assert(forwarded(f, 0, i, forwards[i]));
        assert(w[after + 2 * i] == f[2 * i] && w[after + 2 * i + 1] == f[2 * i + 1]);
    }
    assert(w.subrange(after + 2 * forwards.len() + 2, n - 3) =~= control);
}

/// The forward number `i` of those from `at` on is `x`.
pub open spec fn forwarded(w: Seq<Seq<char>>, at: int, i: int, x: Seq<char>) -> bool {
    w[at + 2 * i] == "-L"@ && w[at + 2 * i + 1] == x
}

proof fn lemma_forwards(forwards: Seq<Seq<char>>)
    ensures
        forward_words(forwards).len() == 2 * forwards.len(),
        forall|i: int|
            0 <= i < forwards.len() ==> #[trigger] forwarded(
                forward_words(forwards),
                0,
                i,
                forwards[i],
            ),
    decreases forwards.len(),
{
    if forwards.len() > 0 {
        let most = forwards.drop_last();
        lemma_forwards(most);
        let f = forward_words(forwards);
        let g = forward_words(most);
        assert forall|i: int| 0 <= i < forwards.len() implies #[trigger] forwarded(
            f,
            0,
            i,
            forwards[i],
        ) by {
            if i < most.len() {
                assert(forwarded(g, 0, i, most[i]));
                assert(f[2 * i] == g[2 * i]);
                assert(f[2 * i + 1] == g[2 * i + 1]);
            }
        }
    }
}

} // verus!
