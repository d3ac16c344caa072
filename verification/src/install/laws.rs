//! What holds of every install: what a call is given is what its script checks, and
//! what the other end is told is what it then finds.

use super::{
    acs_dir, check_upload_text, finish_args, hex_char, links, make_dir_text, mismatch, no_finish,
    planned, upload_file, uploads_for, version_at, version_dir, Bin, FinishView, PlanView,
};
use crate::path::is_under;
use crate::payload::laws::{
    first_input, fits, law_a_target_gives_its_first_input, lemma_first_named,
};
use crate::payload::{blob_of, entry_views, parsed, InputView, Payloads};
use crate::release::at_least;
use crate::sha256::{hex_digit, hex_text, sha256};
use crate::text::{holds, in_order, joined_by, lemma_one_more};
use vstd::prelude::*;

verus! {

// ---- scripts ---------------------------------------------------------------

/// A text ends in another.
pub open spec fn ends_with(s: Seq<char>, end: Seq<char>) -> bool {
    s.len() >= end.len() && s.skip(s.len() - end.len()) == end
}

/// The script ends by running `file` with these words.
pub open spec fn runs_last(script: Seq<char>, file: Seq<char>, words: Seq<Seq<char>>) -> bool {
    ends_with(script, "exec "@ + file + " "@ + joined_by(words, " "@))
}

/// Before `file` may be run, its checksum must be `sum`.
pub open spec fn checked_first(script: Seq<char>, fill: Seq<char>, file: Seq<char>, sum: Seq<char>) -> bool {
    in_order(
        script,
        seq![
            "set -e; "@,
            fill + file + "; "@,
            "got=$({ sha256sum "@ + file,
            "[ \"$got\" = "@ + sum + " ] || "@,
            "exit 5"@,
            "chmod 755 "@ + file,
        ],
    )
}

/// What the remote is asked to finish with, by the last words of a script.
pub open spec fn finishes(script: Seq<char>, file: Seq<char>, f: FinishView) -> bool {
    exists|words: Seq<Seq<char>>| #[trigger]
        runs_last(script, file, words) && words.len() > 1 && words[0] == "_install"@ && finish_args(
            words.skip(1),
            no_finish(),
            false,
        ) == Ok::<FinishView, Seq<char>>(f)
}

proof fn lemma_hex_digits(b: Seq<u8>)
    ensures
        hex_text(b).len() == 2 * b.len(),
        forall|i: int| 0 <= i < hex_text(b).len() ==> hex_char(#[trigger] hex_text(b)[i]),
    decreases b.len(),
{
    if b.len() > 0 {
        lemma_hex_digits(b.drop_last());
        assert(hex_char(hex_digit(b.last() / 16)) && hex_char(hex_digit(b.last() % 16)));
    }
}

proof fn lemma_hex_apart(a: Seq<u8>, b: Seq<u8>)
    requires
        hex_text(a) == hex_text(b),
    ensures
        a == b,
    decreases a.len(),
{
    lemma_hex_digits(a);
    lemma_hex_digits(b);
    if a.len() > 0 {
        let (x, y) = (a.last(), b.last());
        let (s, t) = (hex_text(a.drop_last()), hex_text(b.drop_last()));
        let n = s.len() as int;
        assert(hex_text(a)[n] == hex_digit(x / 16) && hex_text(b)[n] == hex_digit(y / 16));
        assert(hex_text(a)[n + 1] == hex_digit(x % 16) && hex_text(b)[n + 1] == hex_digit(y % 16));
        assert(hex_text(a).take(n) =~= s);
        assert(hex_text(b).take(n) =~= t);
        assert(x / 16 == y / 16 && x % 16 == y % 16);
        lemma_hex_apart(a.drop_last(), b.drop_last());
        assert(a =~= a.drop_last().push(x));
        assert(b =~= b.drop_last().push(y));
    } else {
        assert(a =~= b);
    }
}

/// A check in two: up to the comparison with the checksum, and what follows it.
proof fn lemma_check_parts(file: Seq<char>, sum: Seq<char>) -> (r: (Seq<char>, Seq<char>))
    ensures
        check_upload_text(file, sum) == ("got=$({ sha256sum "@ + file) + r.0 + (
        "[ \"$got\" = "@ + sum + " ] || "@) + r.1 + "exit 5"@ + "; }; "@,
{
    let bad = "; echo 'acs: the uploaded acs does not match the checksum the client computed' >&2; exit 5; }; "@;
    let none = "; echo 'acs: the remote has no sha256sum, shasum or openssl to check the upload' >&2; exit 4; }; [ \"$got\" = "@;
    let cut = "; } 2>/dev/null | sed -n 's/.*\\([0-9a-f]\\{64\\}\\).*/\\1/p' | head -n 1) || true; [ -n \"$got\" ] || { rm -f "@;
    let same = "[ \"$got\" = "@;
    reveal_strlit("; echo 'acs: the uploaded acs does not match the checksum the client computed' >&2; exit 5; }; ");
    reveal_strlit("; echo 'acs: the remote has no sha256sum, shasum or openssl to check the upload' >&2; exit 4; }; [ \"$got\" = ");
    reveal_strlit("[ \"$got\" = ");
    reveal_strlit(" ] || { rm -f ");
    reveal_strlit(" ] || ");
    reveal_strlit("{ rm -f ");
    reveal_strlit("exit 5");
    reveal_strlit("; }; ");
    let n = (bad.len() - "exit 5"@.len() - "; }; "@.len()) as int;
    let k = (none.len() - same.len()) as int;
    assert(bad =~= bad.take(n) + "exit 5"@ + "; }; "@);
    assert(none =~= none.take(k) + same);
    assert(" ] || { rm -f "@ =~= " ] || "@ + "{ rm -f "@);
    let a = " || shasum -a 256 "@ + file + " || openssl dgst -sha256 "@ + file + cut + file
        + none.take(k);
    let b = "{ rm -f "@ + file + bad.take(n);
    assert(check_upload_text(file, sum) =~= ("got=$({ sha256sum "@ + file) + a + (same + sum
        + " ] || "@) + b + "exit 5"@ + "; }; "@);
    (a, b)
}

proof fn lemma_checked_first(
    script: Seq<char>,
    before: Seq<char>,
    fill: Seq<char>,
    file: Seq<char>,
    sum: Seq<char>,
    after: Seq<char>,
)
    requires
        script == "set -e; "@ + before + (fill + file + "; "@) + check_upload_text(file, sum)
            + " chmod 755 "@ + file + after,
    ensures
        checked_first(script, fill, file, sum),
{
    let (a, b) = lemma_check_parts(file, sum);
    let none = Seq::<char>::empty();
    let p0 = "set -e; "@;
    let p1 = fill + file + "; "@;
    let p2 = "got=$({ sha256sum "@ + file;
    let p3 = "[ \"$got\" = "@ + sum + " ] || "@;
    let p4 = "exit 5"@;
    let p5 = "chmod 755 "@ + file;
    reveal_strlit(" chmod 755 ");
    reveal_strlit("chmod 755 ");
    reveal_strlit(" ");
    assert(" chmod 755 "@ =~= " "@ + "chmod 755 "@);
    let r5 = "; }; "@ + " "@ + p5 + after;
    let r4 = b + p4 + r5;
    let r3 = a + p3 + r4;
    let r2 = none + p2 + r3;
    let r1 = before + p1 + r2;
    assert(script =~= none + p0 + r1);
    let all = seq![p0, p1, p2, p3, p4, p5];
    assert(all.skip(1) =~= seq![p1, p2, p3, p4, p5]);
    assert(all.skip(1).skip(1) =~= seq![p2, p3, p4, p5]);
    assert(all.skip(1).skip(1).skip(1) =~= seq![p3, p4, p5]);
    assert(all.skip(1).skip(1).skip(1).skip(1) =~= seq![p4, p5]);
    assert(all.skip(1).skip(1).skip(1).skip(1).skip(1) =~= seq![p5]);
    lemma_one_more(r5, "; }; "@ + " "@, p5, after, seq![p5]);
    lemma_one_more(r4, b, p4, r5, seq![p4, p5]);
    lemma_one_more(r3, a, p3, r4, seq![p3, p4, p5]);
    lemma_one_more(r2, none, p2, r3, seq![p2, p3, p4, p5]);
    lemma_one_more(r1, before, p1, r2, seq![p1, p2, p3, p4, p5]);
    lemma_one_more(script, none, p0, r1, all);
}

proof fn lemma_finish_words()
    ensures
        "--finish"@ != "--payloads"@,
        "--finish"@ != "--token"@,
        "--finish"@ != "--sha256"@,
        "--finish"@ != "--slim-sha256"@,
        "--finish"@ != "--blob-sha256"@,
        "--payloads"@ != "--token"@,
        "--payloads"@ != "--sha256"@,
        "--payloads"@ != "--slim-sha256"@,
        "--payloads"@ != "--blob-sha256"@,
        "--token"@ != "--sha256"@,
        "--token"@ != "--slim-sha256"@,
        "--token"@ != "--blob-sha256"@,
        "--sha256"@ != "--slim-sha256"@,
        "--sha256"@ != "--blob-sha256"@,
        "--slim-sha256"@ != "--blob-sha256"@,
{
    reveal_strlit("--finish");
    reveal_strlit("--payloads");
    reveal_strlit("--token");
    reveal_strlit("--sha256");
    reveal_strlit("--slim-sha256");
    reveal_strlit("--blob-sha256");
    assert("--finish"@[2] == 'f' && "--sha256"@[2] == 's');
    assert("--slim-sha256"@[2] == 's' && "--blob-sha256"@[2] == 'b');
    assert("--finish"@.len() == 8 && "--payloads"@.len() == 10 && "--token"@.len() == 7);
    assert("--sha256"@.len() == 8 && "--slim-sha256"@.len() == 13 && "--blob-sha256"@.len() == 13);
}

/// A token that an upload may have.
pub open spec fn good_token(token: Seq<char>) -> bool {
    token.len() > 0 && forall|i: int| 0 <= i < token.len() ==> hex_char(#[trigger] token[i])
}

proof fn lemma_self_words(token: Seq<char>, sum: Seq<char>) -> (words: Seq<Seq<char>>)
    requires
        good_token(token),
    ensures
        words.len() > 1,
        words[0] == "_install"@,
        joined_by(words, " "@) == "_install --finish --token "@ + token + " --sha256 "@ + sum,
        finish_args(words.skip(1), no_finish(), false) == Ok::<FinishView, Seq<char>>(
            FinishView { token, sha256: Some(sum), ..no_finish() },
        ),
{
    lemma_finish_words();
    let w = seq!["_install"@, "--finish"@, "--token"@, token, "--sha256"@, sum];
    let a = w.skip(1);
    assert(a =~= seq!["--finish"@, "--token"@, token, "--sha256"@, sum]);
    assert(a.skip(1) =~= seq!["--token"@, token, "--sha256"@, sum]);
    assert(a.skip(1).skip(1).skip(1) =~= seq!["--sha256"@, sum]);
    assert(a.skip(1).skip(1).skip(1).skip(1).skip(1) =~= Seq::empty());
    reveal_with_fuel(finish_args, 5);
    let f1 = FinishView { token, ..no_finish() };
    let f2 = FinishView { sha256: Some(sum), ..f1 };
    assert(finish_args(Seq::empty(), f2, true) == Ok::<FinishView, Seq<char>>(f2));
    assert(w.drop_last() =~= seq!["_install"@, "--finish"@, "--token"@, token, "--sha256"@]);
    let w5 = w.drop_last();
    assert(w5.drop_last() =~= seq!["_install"@, "--finish"@, "--token"@, token]);
    let w4 = w5.drop_last();
    assert(w4.drop_last() =~= seq!["_install"@, "--finish"@, "--token"@]);
    let w3 = w4.drop_last();
    assert(w3.drop_last() =~= seq!["_install"@, "--finish"@]);
    let w2 = w3.drop_last();
    assert(w2.drop_last() =~= seq!["_install"@]);
    reveal_with_fuel(joined_by, 7);
    reveal_strlit("_install");
    reveal_strlit("--finish");
    reveal_strlit("--token");
    reveal_strlit("--sha256");
    reveal_strlit(" ");
    reveal_strlit("_install --finish --token ");
    reveal_strlit(" --sha256 ");
    assert("_install --finish --token "@ =~= "_install"@ + " "@ + "--finish"@ + " "@ + "--token"@
        + " "@);
    assert(" --sha256 "@ =~= " "@ + "--sha256"@ + " "@);
    assert(joined_by(w, " "@) =~= "_install --finish --token "@ + token + " --sha256 "@ + sum);
    w
}

proof fn lemma_payload_words(token: Seq<char>, slim: Seq<char>, sum: Seq<char>) -> (words: Seq<
    Seq<char>,
>)
    requires
        good_token(token),
    ensures
        words.len() > 1,
        words[0] == "_install"@,
        joined_by(words, " "@) == "_install --finish --token "@ + token + " --slim-sha256 "@ + slim
            + " --blob-sha256 "@ + sum + " --payloads"@,
        finish_args(words.skip(1), no_finish(), false) == Ok::<FinishView, Seq<char>>(
            FinishView {
                token,
                slim_sha256: Some(slim),
                blob_sha256: Some(sum),
                payloads: true,
                ..no_finish()
            },
        ),
{
    lemma_finish_words();
    let w = seq![
        "_install"@,
        "--finish"@,
        "--token"@,
        token,
        "--slim-sha256"@,
        slim,
        "--blob-sha256"@,
        sum,
        "--payloads"@,
    ];
    let a = w.skip(1);
    let a1 = seq!["--token"@, token, "--slim-sha256"@, slim, "--blob-sha256"@, sum, "--payloads"@];
    let a2 = seq!["--slim-sha256"@, slim, "--blob-sha256"@, sum, "--payloads"@];
    let a3 = seq!["--blob-sha256"@, sum, "--payloads"@];
    let a4 = seq!["--payloads"@];
    assert(a[0] == "--finish"@);
    assert(a.skip(1) =~= a1);
    assert(a1.skip(1).skip(1) =~= a2);
    assert(a2.skip(1).skip(1) =~= a3);
    assert(a3.skip(1).skip(1) =~= a4);
    assert(a4.skip(1) =~= Seq::empty());
    let f1 = FinishView { token, ..no_finish() };
    let f2 = FinishView { slim_sha256: Some(slim), ..f1 };
    let f3 = FinishView { blob_sha256: Some(sum), ..f2 };
    let f4 = FinishView { payloads: true, ..f3 };
    assert(finish_args(Seq::empty(), f4, true) == Ok::<FinishView, Seq<char>>(f4));
    assert(finish_args(a4, f3, true) == finish_args(Seq::empty(), f4, true));
    assert(finish_args(a3, f2, true) == finish_args(a4, f3, true));
    assert(finish_args(a2, f1, true) == finish_args(a3, f2, true));
    assert(finish_args(a1, no_finish(), true) == finish_args(a2, f1, true));
    assert(finish_args(a, no_finish(), false) == finish_args(a1, no_finish(), true));
    let w8 = w.drop_last();
    let w7 = w8.drop_last();
    let w6 = w7.drop_last();
    let w5 = w6.drop_last();
    let w4 = w5.drop_last();
    let w3 = w4.drop_last();
    let w2 = w3.drop_last();
    let w1 = w2.drop_last();
    let sep = " "@;
    assert(w1 =~= seq!["_install"@]);
    assert(joined_by(w1, sep) == "_install"@);
    assert(joined_by(w2, sep) == joined_by(w1, sep) + sep + "--finish"@);
    assert(joined_by(w3, sep) == joined_by(w2, sep) + sep + "--token"@);
    assert(joined_by(w4, sep) == joined_by(w3, sep) + sep + token);
    assert(joined_by(w5, sep) == joined_by(w4, sep) + sep + "--slim-sha256"@);
    assert(joined_by(w6, sep) == joined_by(w5, sep) + sep + slim);
    assert(joined_by(w7, sep) == joined_by(w6, sep) + sep + "--blob-sha256"@);
    assert(joined_by(w8, sep) == joined_by(w7, sep) + sep + sum);
    assert(joined_by(w, sep) == joined_by(w8, sep) + sep + "--payloads"@);
    reveal_strlit("_install");
    reveal_strlit("--finish");
    reveal_strlit("--token");
    reveal_strlit("--slim-sha256");
    reveal_strlit("--blob-sha256");
    reveal_strlit("--payloads");
    reveal_strlit(" ");
    reveal_strlit("_install --finish --token ");
    reveal_strlit(" --slim-sha256 ");
    reveal_strlit(" --blob-sha256 ");
    reveal_strlit(" --payloads");
    assert("_install --finish --token "@ =~= "_install"@ + sep + "--finish"@ + sep + "--token"@
        + sep);
    assert(" --slim-sha256 "@ =~= sep + "--slim-sha256"@ + sep);
    assert(" --blob-sha256 "@ =~= sep + "--blob-sha256"@ + sep);
    assert(" --payloads"@ =~= sep + "--payloads"@);
    assert(joined_by(w, sep) =~= "_install --finish --token "@ + token + " --slim-sha256 "@ + slim
        + " --blob-sha256 "@ + sum + " --payloads"@);
    w
}

/// A copy of this binary: one call, given the binary. Its script writes what it is given
/// to a file, refuses the file unless its checksum is the binary's, and then has the file
/// finish the install, told that same checksum.
pub proof fn law_a_copy_is_what_its_script_checks(data: Seq<u8>, token: Seq<char>)
    requires
        good_token(token),
    ensures
        ({
            let u = uploads_for(PlanView::SelfCopy { data }, token);
            let sum = hex_text(sha256(data));
            let file = upload_file(token);
            &&& u.len() == 1
            &&& u[0].input == data
            &&& u[0].expect_ok
            &&& checked_first(u[0].script, " cat > "@, file, sum)
            &&& finishes(
                u[0].script,
                file,
                FinishView { token, sha256: Some(sum), ..no_finish() },
            )
        }),
{
    let u = uploads_for(PlanView::SelfCopy { data }, token);
    let sum = hex_text(sha256(data));
    let file = upload_file(token);
    let script = u[0].script;
    let make = make_dir_text(acs_dir(), version_dir());
    let check = check_upload_text(file, sum);
    let words = lemma_self_words(token, sum);
    let line = joined_by(words, " "@);
    reveal_strlit("; exec ");
    reveal_strlit("; ");
    reveal_strlit("exec ");
    reveal_strlit(" ");
    reveal_strlit(" _install --finish --token ");
    reveal_strlit("_install --finish --token ");
    assert("; exec "@ =~= "; "@ + "exec "@);
    assert(" _install --finish --token "@ =~= " "@ + "_install --finish --token "@);
    let after = "; "@ + ("exec "@ + file + " "@ + line);
    assert(script =~= "set -e; "@ + make + (" cat > "@ + file + "; "@) + check + " chmod 755 "@ + file
        + after);
    lemma_checked_first(script, make, " cat > "@, file, sum, after);
    let end = "exec "@ + file + " "@ + line;
    assert(script.skip(script.len() - end.len()) =~= end);
    assert(runs_last(script, file, words));
}

/// A build for another system: two calls. The first is given the packed build, unpacks
/// it, and refuses it unless its checksum is the build's own; the second is given the
/// payload set, with the checksum of what it is given in its own words.
pub proof fn law_a_payload_is_what_its_scripts_check(
    gz: Seq<u8>,
    blob: Seq<u8>,
    digest: Seq<u8>,
    token: Seq<char>,
)
    requires
        good_token(token),
    ensures
        ({
            let u = uploads_for(PlanView::Payload { gz, blob, digest }, token);
            let file = upload_file(token);
            &&& u.len() == 2
            &&& u[0].input == gz
            &&& !u[0].expect_ok
            &&& checked_first(u[0].script, " gzip -dc > "@, file, hex_text(digest))
            &&& u[1].input == blob
            &&& u[1].expect_ok
            &&& finishes(
                u[1].script,
                file,
                FinishView {
                    token,
                    slim_sha256: Some(hex_text(digest)),
                    blob_sha256: Some(hex_text(sha256(u[1].input))),
                    payloads: true,
                    ..no_finish()
                },
            )
        }),
{
    let u = uploads_for(PlanView::Payload { gz, blob, digest }, token);
    let slim = hex_text(digest);
    let sum = hex_text(sha256(blob));
    let file = upload_file(token);
    let make = make_dir_text(acs_dir(), version_dir());
    let first = u[0].script;
    let head = "set -e; command -v gzip >/dev/null || { echo 'acs: the remote has no gzip' >&2; exit 3; }; "@;
    reveal_strlit("set -e; command -v gzip >/dev/null || { echo 'acs: the remote has no gzip' >&2; exit 3; }; ");
    reveal_strlit("set -e; ");
    let n = "set -e; "@.len() as int;
    assert(head =~= "set -e; "@ + head.skip(n));
    let before = head.skip(n) + make;
    let check = check_upload_text(file, slim);
    assert(first =~= "set -e; "@ + before + (" gzip -dc > "@ + file + "; "@) + check
        + " chmod 755 "@ + file + Seq::empty());
    lemma_checked_first(first, before, " gzip -dc > "@, file, slim, Seq::empty());
    let second = u[1].script;
    let words = lemma_payload_words(token, slim, sum);
    let line = joined_by(words, " "@);
    reveal_strlit(" ");
    reveal_strlit(" _install --finish --token ");
    reveal_strlit("_install --finish --token ");
    assert(" _install --finish --token "@ =~= " "@ + "_install --finish --token "@);
    let end = "exec "@ + file + " "@ + line;
    assert(second =~= end);
    assert(second.skip(second.len() - end.len()) =~= end);
    assert(runs_last(second, file, words));
}

/// A checksum that an install is told refuses every other content, and no other.
pub proof fn law_a_checksum_tells_contents_apart(sent: Seq<u8>, found: Seq<u8>)
    ensures
        mismatch(Some(hex_text(sha256(sent))), found) <==> sha256(found) != sha256(sent),
        !mismatch(None, found),
{
    if hex_text(sha256(sent)) == hex_text(sha256(found)) {
        lemma_hex_apart(sha256(sent), sha256(found));
    }
}

/// From what was packed to what is sent: a host of another system is sent the packed
/// build of its own target, held against the checksum of the build that was packed for
/// it, and then everything that was packed.
pub proof fn law_a_host_is_sent_the_build_of_its_target(
    v: Seq<InputView>,
    p: &Payloads,
    target: Seq<char>,
    own_target: Seq<char>,
    own_file: Seq<u8>,
    token: Seq<char>,
)
    requires
        fits(v),
        p.bytes@ == blob_of(v),
        parsed(blob_of(v)) == Some(entry_views(p.entries@)),
        good_token(token),
        target != own_target,
        holds(target, "-linux-"@),
    ensures
        match first_input(v, target, 0) {
            None => planned(target, own_target, own_file, Some(p)) is Err,
            Some(k) => {
                let plan = planned(target, own_target, own_file, Some(p));
                let u = uploads_for(plan->Ok_0, token);
                &&& plan is Ok
                &&& v[k].target == target
                &&& u.len() == 2
                &&& u[0].input == v[k].gz
                &&& checked_first(
                    u[0].script,
                    " gzip -dc > "@,
                    upload_file(token),
                    hex_text(sha256(v[k].raw)),
                )
                &&& u[1].input == blob_of(v)
                &&& finishes(
                    u[1].script,
                    upload_file(token),
                    FinishView {
                        token,
                        slim_sha256: Some(hex_text(sha256(v[k].raw))),
                        blob_sha256: Some(hex_text(sha256(blob_of(v)))),
                        payloads: true,
                        ..no_finish()
                    },
                )
            },
        },
        planned(own_target, own_target, own_file, Some(p)) == Ok::<PlanView, Seq<char>>(
            PlanView::SelfCopy { data: own_file },
        ),
{
    law_a_target_gives_its_first_input(v, target);
    if let Some(k) = first_input(v, target, 0) {
        lemma_first_named(v, target, 0);
        law_a_payload_is_what_its_scripts_check(
            v[k].gz,
            blob_of(v),
            sha256(v[k].raw),
            token,
        );
    }
}

/// A host that runs what this machine runs is sent this very build, and no other host is;
/// without builds for others, no other host is sent anything.
pub proof fn law_our_own_build_is_for_our_own_target(
    target: Seq<char>,
    own: Seq<char>,
    file: Seq<u8>,
    payloads: Option<&Payloads>,
)
    ensures
        target == own ==> planned(target, own, file, payloads) == Ok::<PlanView, Seq<char>>(
            PlanView::SelfCopy { data: file },
        ),
        planned(target, own, file, payloads) matches Ok(PlanView::SelfCopy { .. }) ==> target == own,
        target != own ==> planned(target, own, file, None) is Err,
{
}

/// The program the user starts is the newest installed: the link is made where there is
/// none, made again where ours leads nowhere, and moved exactly to a version that is not
/// older; a link that is not ours is left alone.
pub proof fn law_when_the_link_is_made(
    to: String,
    followed: String,
    target: Seq<char>,
    share: Seq<char>,
    real_share: Seq<char>,
    alive: bool,
)
    ensures
        ({
            let ours = is_under(to@, share) || is_under(followed@, real_share);
            let link = Bin::Link { to, followed, alive };
            &&& links(Bin::Missing, target, share, real_share)
            &&& !links(Bin::NotALink, target, share, real_share)
            &&& !ours ==> !links(link, target, share, real_share)
            &&& ours && !alive ==> links(link, target, share, real_share)
            &&& ours && alive && version_at(followed@) is Some && version_at(target) is Some ==> (
            links(link, target, share, real_share) <==> at_least(
                version_at(target)->0,
                version_at(followed@)->0,
            ))
        }),
{
}

} // verus!
