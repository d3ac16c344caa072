//! The command line.

use acs::cli::{parse, parse_list, ClientArgs, Parsed, Target};

fn owned(args: &[&str]) -> Vec<String> {
    args.iter().map(|a| a.to_string()).collect()
}

fn run(args: &[&str]) -> Result<ClientArgs, String> {
    match parse(owned(args), None)? {
        Parsed::Run(a) => Ok(*a),
        other => panic!("{other:?}"),
    }
}

fn opts(a: &ClientArgs) -> Vec<String> {
    a.transport.user_opts.clone()
}

#[test]
fn dsh_forms() {
    let a = run(&["devbox"]).unwrap();
    assert_eq!(a.transport.destination, "devbox");
    assert_eq!(a.target, Target::Pick("main".into()));
    assert!(a.reconnect && !a.list);

    let a = run(&["devbox", "work"]).unwrap();
    assert_eq!(a.target, Target::Named("work".into()));

    // dsh's -r is accepted in any position and ignored.
    for args in [
        &["devbox", "work", "-r"][..],
        &["-r", "devbox", "work"],
        &["devbox", "--reconnect"],
    ] {
        assert!(run(args).unwrap().reconnect);
    }
    assert!(!run(&["devbox"]).unwrap().list);
}

fn list(args: &[&str]) -> Result<Parsed, String> {
    parse_list(owned(args))
}

/// `acs list` (the word itself is taken off by the role) lists every alias, `acs list <host>` one host.
#[test]
fn acs_list_lists_every_alias_or_one_host() {
    for args in [&[][..], &["-p", "2222", "-v"], &["-v", "-p2222"]] {
        match list(args).unwrap() {
            Parsed::ListAll(a) => {
                assert!(a.list);
                assert_eq!(a.transport.destination, "");
                if !args.is_empty() {
                    assert_eq!(opts(&a), ["-p", "2222"]);
                    assert_eq!(a.verbose, 1);
                }
            }
            other => panic!("{args:?}: {other:?}"),
        }
    }
    for args in [&["devbox"][..], &["-i", "k", "devbox", "-v"]] {
        match list(args).unwrap() {
            Parsed::Run(a) => {
                assert!(a.list);
                assert_eq!(a.transport.destination, "devbox");
            }
            other => panic!("{args:?}: {other:?}"),
        }
    }
    // A host called `list`, listed: `acs list list`, or `acs list me@list`.
    match list(&["list"]).unwrap() {
        Parsed::Run(a) => assert_eq!(a.transport.destination, "list"),
        other => panic!("{other:?}"),
    }
    // Reached as a session host, behind an option or as user@list.
    for args in [&["-v", "list"][..], &["me@list", "work"]] {
        let a = run(args).unwrap();
        assert!(!a.list);
        assert!(a.transport.destination.ends_with("list"), "{args:?}");
    }
}

#[test]
fn listing_is_a_command_not_an_option() {
    for args in [
        &["--list"][..],
        &["-l"],
        &["devbox", "--list"],
        &["-l", "devbox"],
        &["-p", "2222", "-v", "--list"],
    ] {
        let e = parse(owned(args), None).unwrap_err();
        assert!(e.contains("acs list [<host>]"), "{args:?}: {e}");
    }
    let e = list(&["-l", "bob", "devbox"]).unwrap_err();
    assert!(e.contains("user@host"), "{e}");
}

#[test]
fn ssh_options_pass_through_in_order() {
    let a = run(&[
        "-i",
        "~/.ssh/id_work",
        "-p2222",
        "-o",
        "IdentitiesOnly=yes",
        "-J",
        "jump",
        "-F",
        "cfg",
        "me@box",
    ])
    .unwrap();
    assert_eq!(
        opts(&a),
        [
            "-i",
            "~/.ssh/id_work",
            "-p",
            "2222",
            "-o",
            "IdentitiesOnly=yes",
            "-J",
            "jump",
            "-F",
            "cfg"
        ]
    );
    assert_eq!(a.transport.destination, "me@box");
}

/// `-L` is kept apart from the pass-through options, because
/// only the session's ssh gets it, and a bad spec is an acs error
/// before any ssh runs.
#[test]
fn local_forwards_are_repeatable_and_checked() {
    let a = run(&[
        "-L",
        "8080:localhost:80",
        "-p",
        "2222",
        "-L5432:db.internal:5432",
        "me@box",
    ])
    .unwrap();
    assert_eq!(
        a.transport.local_forwards,
        ["8080:localhost:80", "5432:db.internal:5432"]
    );
    // They are not ssh pass-through options.
    assert_eq!(opts(&a), ["-p", "2222"]);
    assert!(run(&["box"]).unwrap().transport.local_forwards.is_empty());

    // `acs list` may attach the session it picks from the menu,
    // so a forward is taken there too.
    match list(&["-L", "8080:localhost:80"]).unwrap() {
        Parsed::ListAll(a) => assert_eq!(a.transport.local_forwards, ["8080:localhost:80"]),
        other => panic!("{other:?}"),
    }

    let e = run(&["-L", "8080:localhost", "box"]).unwrap_err();
    assert!(e.contains("bad -L '8080:localhost'"), "{e}");
    let e = run(&["-L", "eighty:localhost:80", "box"]).unwrap_err();
    assert!(e.contains("is not a number"), "{e}");
    let e = list(&["-L", "8080:localhost", "box"]).unwrap_err();
    assert!(e.contains("bad -L"), "{e}");
    let e = run(&["-L", "box"]).unwrap_err();
    assert!(e.contains("bad -L 'box'"), "{e}");
}

#[test]
fn persist_and_its_contradiction() {
    let a = run(&["devbox", "--persist"]).unwrap();
    assert!(a.persist && a.reconnect);
    assert!(!run(&["devbox"]).unwrap().persist);
    let e = run(&["devbox", "--persist", "--no-reconnect"]).unwrap_err();
    assert!(e.contains("give one"), "{e}");
}

#[test]
fn new_force_verbose_no_reconnect() {
    let a = run(&["h", "--new", "--force", "-vv", "--no-reconnect"]).unwrap();
    assert_eq!(a.target, Target::New);
    assert!(a.force);
    assert_eq!(a.verbose, 2);
    assert!(!a.reconnect);
}

#[test]
fn command_after_double_dash() {
    let a = run(&["h", "top", "--", "htop", "-d", "10", "--list"]).unwrap();
    assert_eq!(a.target, Target::Named("top".into()));
    assert_eq!(a.command, ["htop", "-d", "10", "--list"]);
    assert!(!a.list);
}

#[test]
fn default_session_from_environment() {
    match parse(owned(&["h"]), Some("michel")).unwrap() {
        Parsed::Run(a) => assert_eq!(a.target, Target::Pick("michel".into())),
        other => panic!("{other:?}"),
    }
}

#[test]
fn errors() {
    let cases: &[(&[&str], &str)] = &[
        (&[], "need a host"),
        (&["--new"], "need a host"),
        (&["h", "a", "b"], "too many arguments"),
        (&["h", "bad name"], "bad session name"),
        (&["-l", "bob", "host"], "user@host"),
        (&["h", "x", "--new"], "--new picks"),
        (&["-q", "h"], "unknown option -q"),
        (&["--bogus", "h"], "unknown option --bogus"),
        (&["-i"], "missing argument"),
    ];
    for (args, want) in cases {
        let e = run(args).unwrap_err();
        assert!(e.contains(want), "{args:?}: {e}");
    }
    let list_cases: &[(&[&str], &str)] = &[
        (&["--new"], "acs list takes at most a host"),
        (&["h", "x"], "acs list takes at most a host"),
        (&["h", "--new"], "acs list takes at most a host"),
        (&["--", "ls"], "acs list takes no command"),
        (&["h", "--", "ls"], "acs list takes no command"),
        (&["h", "x", "y"], "too many arguments"),
    ];
    for (args, want) in list_cases {
        let e = list(args).unwrap_err();
        assert!(e.contains(want), "list {args:?}: {e}");
    }
}

#[test]
fn help_and_version() {
    assert_eq!(
        parse(owned(&["-h"]), None).unwrap(),
        Parsed::Help
    );
    assert_eq!(
        parse(owned(&["--version"]), None).unwrap(),
        Parsed::Version
    );
}

#[test]
fn ssh_program_and_transport_hook() {
    let a = run(&["--ssh", "/opt/ssh", "--transport-cmd", "sh -c", "h"]).unwrap();
    assert_eq!(a.transport.ssh, "/opt/ssh");
    assert_eq!(a.transport.transport_cmd.as_deref(), Some("sh -c"));
}

/// Options as they may be written: a value in the same word, behind `=`, or in the
/// next word; several letters in one word.
#[test]
fn an_options_value_stands_in_its_word_or_in_the_next() {
    for args in [
        &["-p", "2222", "h"][..],
        &["-p2222", "h"],
        &["-p=2222", "h"],
        &["-vp2222", "h"],
        &["h", "-p", "2222"],
    ] {
        assert_eq!(opts(&run(args).unwrap()), ["-p", "2222"], "{args:?}");
    }
    assert_eq!(run(&["--ssh=/x", "h"]).unwrap().transport.ssh, "/x");
    assert_eq!(run(&["--ssh=", "h"]).unwrap().transport.ssh, "");
    // A value that looks like an option is a value.
    assert_eq!(opts(&run(&["-o", "-x", "h"]).unwrap()), ["-o", "-x"]);
    // `-` alone is an argument, and no host.
    assert_eq!(run(&["-"]).unwrap_err(), "bad host '-'");
    // What lexopt says of a value nobody asked for, and of one that is missing.
    let e = run(&["--new=x", "h"]).unwrap_err();
    assert!(e.contains("unexpected argument for option '--new': \"x\""), "{e}");
    let e = run(&["--new=a\"b", "h"]).unwrap_err();
    assert!(e.contains("\"a\\\"b\""), "{e}");
    let e = run(&["h", "--ssh"]).unwrap_err();
    assert!(e.contains("missing argument for option '--ssh'"), "{e}");
}

/// ssh gets the options whole, in order, and nothing else: each letter with its value.
#[test]
fn an_options_value_is_never_an_option() {
    let a = run(&["-o", "A", "-i", "k", "-v", "-J", "j", "-F", "f", "-p", "1", "h"]).unwrap();
    assert_eq!(opts(&a), ["-o", "A", "-i", "k", "-J", "j", "-F", "f", "-p", "1"]);
}
