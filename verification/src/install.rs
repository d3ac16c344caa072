//! Installing acs on a remote on first contact.
//!
//! The client learns what is missing from the prelude's `ACS-NEED <os>
//! <arch>` line and installs exactly its own version under
//! `~/.local/share/acs/<version>/acs`:
//!
//! - **self-copy**: the remote has this binary's own target, so our file
//!   (complete if it carries payloads) is streamed in one call;
//! - **payload**: for another Linux target we carry, its gzip'd slim build is
//!   streamed to the remote's `gzip -dc`, then the new binary's
//!   `_install --finish` runs with the payload set on stdin and appends it.
//!
//! Either way the remote shell checks the SHA-256 the client computed before
//! the upload is made executable, and `_install --finish` then renames the file
//! into place and repoints `~/.local/bin/acs`.

pub mod laws;

use crate::cli::{ArgsView, ClientArgs};
use crate::config::place;
use crate::payload::{
    entry_views, first_for, is_elf_target, parsed, target_for_uname, target_of, Payloads,
};
use crate::path::{file_name, file_name_of, is_under, parent, parent_of, under};
use crate::release::{at_least, not_older};
use crate::sha256::{digest, hex, hex_text, sha256};
use crate::ssh::{quoted, sh_quote};
use crate::text::{
    chars_of, debug, debugged, holds, is_text, same, split, split_at_char, string_of, sub_vec,
    texts, trim_chars, trimmed,
};
use crate::VERSION;
use vstd::prelude::*;

verus! {

/// What to send for a target, decided from what this binary carries.
#[derive(Debug, PartialEq, Eq)]
pub enum Plan {
    /// Our own file, streamed as is.
    SelfCopy { data: Vec<u8> },
    /// A gzip'd slim build, then the payload blob appended remotely.
    Payload { gz: Vec<u8>, blob: Vec<u8>, digest: [u8; 32] },
}

pub enum PlanView {
    SelfCopy { data: Seq<u8> },
    Payload { gz: Seq<u8>, blob: Seq<u8>, digest: Seq<u8> },
}

impl View for Plan {
    type V = PlanView;

    open spec fn view(&self) -> PlanView {
        match *self {
            Plan::SelfCopy { data } => PlanView::SelfCopy { data: data@ },
            Plan::Payload { gz, blob, digest } => PlanView::Payload {
                gz: gz@,
                blob: blob@,
                digest: digest@,
            },
        }
    }
}

pub open spec fn no_binary_text(target: Seq<char>) -> Seq<char> {
    "this acs build carries no binary for "@ + target + "; build a complete one with `cargo xtask dist`, or install ~/.local/share/acs/"@ + VERSION@ + "/acs on the host by hand"@
}

fn no_binary(target: &str) -> (s: String)
    ensures
        s@ == no_binary_text(target@),
{
    let mut s = "this acs build carries no binary for ".to_owned();
    s.append(target);
    s.append("; build a complete one with `cargo xtask dist`, or install ~/.local/share/acs/");
    s.append(VERSION);
    s.append("/acs on the host by hand");
    s
}

pub open spec fn not_from_here_text(target: Seq<char>, own_target: Seq<char>) -> Seq<char> {
    "cannot install acs for "@ + target + " from a "@ + own_target + " build; install ~/.local/share/acs/"@ + VERSION@ + "/acs on the host by hand"@
}

fn not_from_here(target: &str, own_target: &str) -> (s: String)
    ensures
        s@ == not_from_here_text(target@, own_target@),
{
    let mut s = "cannot install acs for ".to_owned();
    s.append(target);
    s.append(" from a ");
    s.append(own_target);
    s.append(" build; install ~/.local/share/acs/");
    s.append(VERSION);
    s.append("/acs on the host by hand");
    s
}

/// The plan for `target`: our own file where it is our own target, the slim
/// build we carry for another ELF target, else why not.
pub open spec fn planned(
    target: Seq<char>,
    own_target: Seq<char>,
    own_file: Seq<u8>,
    payloads: Option<&Payloads>,
) -> Result<PlanView, Seq<char>> {
    if target == own_target {
        Ok(PlanView::SelfCopy { data: own_file })
    } else if holds(target, "-linux-"@) {
        match payloads {
            None => Err(no_binary_text(target)),
            Some(p) => match first_for(entry_views(p.entries@), target) {
                None => Err(no_binary_text(target)),
                Some(e) => Ok(
                    PlanView::Payload {
                        gz: p.bytes@.subrange(e.offset as int, e.offset + e.gz_len),
                        blob: p.bytes@,
                        digest: e.sha256,
                    },
                ),
            },
        }
    } else {
        Err(not_from_here_text(target, own_target))
    }
}

/// A result as its views.
pub open spec fn plan_result(r: Result<Plan, String>) -> Result<PlanView, Seq<char>> {
    match r {
        Ok(p) => Ok(p@),
        Err(e) => Err(e@),
    }
}

/// Decide how to install acs for `target` given our own target, our file, and
/// the payloads we carry.
pub fn plan(
    target: &str,
    own_target: &str,
    own_file: &[u8],
    payloads: Option<&Payloads>,
) -> (r: Result<Plan, String>)
    requires
        payloads is Some ==> payloads->0.wf(),
    ensures
        plan_result(r) == planned(target@, own_target@, own_file@, payloads),
{
    if same(target, own_target) {
        let data = sub_vec(own_file, 0, own_file.len());
        assert(data@ =~= own_file@);
        return Ok(Plan::SelfCopy { data });
    }
    if is_elf_target(target) {
        if let Some(p) = payloads {
            if let Some((entry, gz)) = p.get(target) {
                let blob = sub_vec(p.blob(), 0, p.blob().len());
                assert(blob@ =~= p.bytes@);
                let packed = sub_vec(gz, 0, gz.len());
                assert(packed@ =~= gz@);
                return Ok(Plan::Payload { gz: packed, blob, digest: entry.sha256 });
            }
        }
        return Err(no_binary(target));
    }
    Err(not_from_here(target, own_target))
}

/// The one-line installer: it puts a release where the prelude looks for it.
pub const INSTALLER: &'static str = "https://github.com/michel-onstein/acs/releases/latest/download/install.sh";

pub open spec fn make_dir_text(acs_dir: Seq<char>, dir: Seq<char>) -> Seq<char> {
    "umask 022; mkdir -p "@ + dir + "; chmod 755 "@ + acs_dir + " "@ + dir + ";"@
}

/// The fragment that makes the directory acs installs into, with a mode of its
/// own rather than whatever the remote's umask leaves: the prelude refuses to
/// exec a binary whose directory is writable by group or other.
fn make_dir(acs_dir: &str, dir: &str) -> (s: String)
    ensures
        s@ == make_dir_text(acs_dir@, dir@),
{
    let mut s = "umask 022; mkdir -p ".to_owned();
    s.append(dir);
    s.append("; chmod 755 ");
    s.append(acs_dir);
    s.append(" ");
    s.append(dir);
    s.append(";");
    s
}

pub open spec fn check_upload_text(file: Seq<char>, want: Seq<char>) -> Seq<char> {
    "got=$({ sha256sum "@ + file + " || shasum -a 256 "@ + file + " || openssl dgst -sha256 "@ + file + "; } 2>/dev/null | sed -n 's/.*\\([0-9a-f]\\{64\\}\\).*/\\1/p' | head -n 1) || true; [ -n \"$got\" ] || { rm -f "@ + file + "; echo 'acs: the remote has no sha256sum, shasum or openssl to check the upload' >&2; exit 4; }; [ \"$got\" = "@ + want + " ] || { rm -f "@ + file + "; echo 'acs: the uploaded acs does not match the checksum the client computed' >&2; exit 5; }; "@
}

/// Shell that checks the uploaded `file` against `want` **before** the file is
/// made executable or run. The remote shell checks it, with whichever of the
/// three usual tools the host has; a host with none of them cannot be installed
/// onto this way, and says so rather than running something unchecked.
pub fn check_upload(file: &str, want: &str) -> (s: String)
    ensures
        s@ == check_upload_text(file@, want@),
{
    let mut s = "got=$({ sha256sum ".to_owned();
    s.append(file);
    s.append(" || shasum -a 256 ");
    s.append(file);
    s.append(" || openssl dgst -sha256 ");
    s.append(file);
    s.append("; } 2>/dev/null | sed -n 's/.*\\([0-9a-f]\\{64\\}\\).*/\\1/p' | head -n 1) || true; [ -n \"$got\" ] || { rm -f ");
    s.append(file);
    s.append("; echo 'acs: the remote has no sha256sum, shasum or openssl to check the upload' >&2; exit 4; }; [ \"$got\" = ");
    s.append(want);
    s.append(" ] || { rm -f ");
    s.append(file);
    s.append("; echo 'acs: the uploaded acs does not match the checksum the client computed' >&2; exit 5; }; ");
    s
}

// ---- what is sent -----------------------------------------------------------

/// One call to the remote: a script, what it reads on stdin, and whether it
/// must answer with an `ok` line.
pub struct Upload {
    pub script: String,
    pub input: Vec<u8>,
    pub expect_ok: bool,
}

#[verifier::ext_equal]
pub struct UploadView {
    pub script: Seq<char>,
    pub input: Seq<u8>,
    pub expect_ok: bool,
}

impl View for Upload {
    type V = UploadView;

    open spec fn view(&self) -> UploadView {
        UploadView { script: self.script@, input: self.input@, expect_ok: self.expect_ok }
    }
}

pub open spec fn self_script_text(make_dir: Seq<char>, tmp: Seq<char>, check: Seq<char>, token: Seq<char>, digest: Seq<char>) -> Seq<char> {
    "set -e; "@ + make_dir + " cat > "@ + tmp + "; "@ + check + " chmod 755 "@ + tmp + "; exec "@ + tmp + " _install --finish --token "@ + token + " --sha256 "@ + digest
}

fn self_script(make_dir: &str, tmp: &str, check: &str, token: &str, digest: &str) -> (s: String)
    ensures
        s@ == self_script_text(make_dir@, tmp@, check@, token@, digest@),
{
    let mut s = "set -e; ".to_owned();
    s.append(make_dir);
    s.append(" cat > ");
    s.append(tmp);
    s.append("; ");
    s.append(check);
    s.append(" chmod 755 ");
    s.append(tmp);
    s.append("; exec ");
    s.append(tmp);
    s.append(" _install --finish --token ");
    s.append(token);
    s.append(" --sha256 ");
    s.append(digest);
    s
}

pub open spec fn unpack_script_text(make_dir: Seq<char>, tmp: Seq<char>, check: Seq<char>) -> Seq<char> {
    "set -e; command -v gzip >/dev/null || { echo 'acs: the remote has no gzip' >&2; exit 3; }; "@ + make_dir + " gzip -dc > "@ + tmp + "; "@ + check + " chmod 755 "@ + tmp
}

fn unpack_script(make_dir: &str, tmp: &str, check: &str) -> (s: String)
    ensures
        s@ == unpack_script_text(make_dir@, tmp@, check@),
{
    let mut s = "set -e; command -v gzip >/dev/null || { echo 'acs: the remote has no gzip' >&2; exit 3; }; ".to_owned();
    s.append(make_dir);
    s.append(" gzip -dc > ");
    s.append(tmp);
    s.append("; ");
    s.append(check);
    s.append(" chmod 755 ");
    s.append(tmp);
    s
}

pub open spec fn finish_script_text(tmp: Seq<char>, token: Seq<char>, slim: Seq<char>, blob: Seq<char>) -> Seq<char> {
    "exec "@ + tmp + " _install --finish --token "@ + token + " --slim-sha256 "@ + slim + " --blob-sha256 "@ + blob + " --payloads"@
}

fn finish_script(tmp: &str, token: &str, slim: &str, blob: &str) -> (s: String)
    ensures
        s@ == finish_script_text(tmp@, token@, slim@, blob@),
{
    let mut s = "exec ".to_owned();
    s.append(tmp);
    s.append(" _install --finish --token ");
    s.append(token);
    s.append(" --slim-sha256 ");
    s.append(slim);
    s.append(" --blob-sha256 ");
    s.append(blob);
    s.append(" --payloads");
    s
}

/// Where acs installs itself on a remote.
pub open spec fn acs_dir() -> Seq<char> {
    "\"$HOME\"/.local/share/acs"@
}

/// The directory of this version there.
pub open spec fn version_dir() -> Seq<char> {
    acs_dir() + "/"@ + quoted(VERSION@)
}

/// The file an upload with `token` goes to.
pub open spec fn upload_file(token: Seq<char>) -> Seq<char> {
    version_dir() + "/acs.new."@ + token
}

/// The calls that carry out a plan, in order. In each, what is uploaded is
/// checked against its digest before it is made executable.
pub open spec fn uploads_for(plan: PlanView, token: Seq<char>) -> Seq<UploadView> {
    let tmp = upload_file(token);
    let make = make_dir_text(acs_dir(), version_dir());
    match plan {
        PlanView::SelfCopy { data } => {
            let sum = hex_text(sha256(data));
            seq![
                UploadView {
                    script: self_script_text(make, tmp, check_upload_text(tmp, sum), token, sum),
                    input: data,
                    expect_ok: true,
                },
            ]
        },
        PlanView::Payload { gz, blob, digest } => {
            let slim = hex_text(digest);
            seq![
                UploadView {
                    script: unpack_script_text(make, tmp, check_upload_text(tmp, slim)),
                    input: gz,
                    expect_ok: false,
                },
                UploadView {
                    script: finish_script_text(tmp, token, slim, hex_text(sha256(blob))),
                    input: blob,
                    expect_ok: true,
                },
            ]
        },
    }
}

/// The calls that carry out `plan`.
pub fn uploads(plan: Plan, token: &str) -> (r: Vec<Upload>)
    ensures
        r@.map_values(|u: Upload| u@) == uploads_for(plan@, token@),
{
    let base = "\"$HOME\"/.local/share/acs";
    let mut dir = base.to_owned();
    dir.append("/");
    dir.append(&sh_quote(VERSION));
    let mut tmp = dir.clone();
    tmp.append("/acs.new.");
    tmp.append(token);
    let make = make_dir(base, &dir);
    match plan {
        Plan::SelfCopy { data } => {
            let sum = hex(&digest(&data));
            let check = check_upload(&tmp, &sum);
            let script = self_script(&make, &tmp, &check, token, &sum);
            let r = vec![Upload { script, input: data, expect_ok: true }];
            assert(r@.map_values(|u: Upload| u@) =~= uploads_for(plan@, token@));
            r
        },
        Plan::Payload { gz, blob, digest: d } => {
            let slim = hex(&d);
            let sum = hex(&digest(&blob));
            let check = check_upload(&tmp, &slim);
            let first = unpack_script(&make, &tmp, &check);
            let second = finish_script(&tmp, token, &slim, &sum);
            let r = vec![
                Upload { script: first, input: gz, expect_ok: false },
                Upload { script: second, input: blob, expect_ok: true },
            ];
            assert(r@.map_values(|u: Upload| u@) =~= uploads_for(plan@, token@));
            r
        },
    }
}

pub open spec fn twice_text(host: Seq<char>) -> Seq<char> {
    "acs was installed on "@ + host + " but the remote still cannot run it (is $HOME the same for ssh commands?)"@
}

fn twice(host: &str) -> (s: String)
    ensures
        s@ == twice_text(host@),
{
    let mut s = "acs was installed on ".to_owned();
    s.append(host);
    s.append(" but the remote still cannot run it (is $HOME the same for ssh commands?)");
    s
}

pub open spec fn unsupported_text(host: Seq<char>, os: Seq<char>, arch: Seq<char>) -> Seq<char> {
    host + " runs "@ + os + " "@ + arch + ", which acs does not support"@
}

fn unsupported(host: &str, os: &str, arch: &str) -> (s: String)
    ensures
        s@ == unsupported_text(host@, os@, arch@),
{
    let mut s = host.to_owned();
    s.append(" runs ");
    s.append(os);
    s.append(" ");
    s.append(arch);
    s.append(", which acs does not support");
    s
}

/// The target to install for, unless an install was attempted before or the
/// system is not supported.
pub fn target_on(host: &str, os: &str, arch: &str, attempted: bool) -> (r: Result<
    &'static str,
    String,
>)
    ensures
        match r {
            Ok(t) => !attempted && target_of(os@, arch@) == Some(t@),
            Err(e) => if attempted {
                e@ == twice_text(host@)
            } else {
                target_of(os@, arch@) is None && e@ == unsupported_text(host@, os@, arch@)
            },
        },
{
    if attempted {
        return Err(twice(host));
    }
    match target_for_uname(os, arch) {
        Some(t) => Ok(t),
        None => Err(unsupported(host, os, arch)),
    }
}

/// One of the lines of a reply is `ok`, whatever noise stands around it.
pub open spec fn says_ok(out: Seq<char>) -> bool {
    exists|i: int|
        0 <= i < split(out, '\n').len() && trimmed(#[trigger] split(out, '\n')[i]) == "ok"@
}

/// Whether the finisher printed its `ok` line.
pub fn said_ok(out: &str) -> (r: bool)
    ensures
        r == says_ok(out@),
{
    let lines = split_at_char(&chars_of(out), '\n');
    let ghost all = split(out@, '\n');
    let mut i: usize = 0;
    while i < lines.len()
        invariant
            i <= lines.len(),
            all == split(out@, '\n'),
            crate::text::views(lines@) == all,
            forall|k: int| 0 <= k < i ==> trimmed(#[trigger] all[k]) != "ok"@,
        decreases lines.len() - i,
    {
        assert(all[i as int] == lines@[i as int]@);
        if is_text(&trim_chars(&lines[i]), "ok") {
            return true;
        }
        i = i + 1;
    }
    false
}

pub open spec fn side_failed_text(status: Seq<char>) -> Seq<char> {
    "installing acs failed ("@ + status + ")"@
}

fn side_failed(status: &str) -> (s: String)
    ensures
        s@ == side_failed_text(status@),
{
    let mut s = "installing acs failed (".to_owned();
    s.append(status);
    s.append(")");
    s
}

pub open spec fn odd_reply_text(shown: Seq<char>) -> Seq<char> {
    "unexpected reply while installing: "@ + shown
}

fn odd_reply(shown: &str) -> (s: String)
    ensures
        s@ == odd_reply_text(shown@),
{
    let mut s = "unexpected reply while installing: ".to_owned();
    s.append(shown);
    s
}

/// What came of one upload: `failed` is the status of an ssh that failed, `out` what
/// the other end printed, of which the last upload must hold an `ok` line.
pub fn side_call(failed: Option<&str>, out: &str, expect_ok: bool) -> (r: Result<(), String>)
    ensures
        match r {
            Ok(_) => failed is None && (expect_ok ==> says_ok(out@)),
            Err(e) => match failed {
                Some(status) => e@ == side_failed_text(status@),
                None => expect_ok && !says_ok(out@) && e@ == odd_reply_text(debugged(trimmed(out@))),
            },
        },
{
    if let Some(status) = failed {
        return Err(side_failed(status));
    }
    if expect_ok && !said_ok(out) {
        let shown = debug(&string_of(&trim_chars(&chars_of(out))));
        return Err(odd_reply(&shown));
    }
    Ok(())
}

// ---- `acs _install --finish` (runs on the remote) ---------------------------

/// What `acs _install --finish` was asked to do.
#[derive(Debug)]
pub struct Finish {
    pub token: String,
    pub sha256: Option<String>,
    pub slim_sha256: Option<String>,
    /// Digest of the payload trailer that arrives on stdin.
    pub blob_sha256: Option<String>,
    pub payloads: bool,
}

#[verifier::ext_equal]
pub struct FinishView {
    pub token: Seq<char>,
    pub sha256: Option<Seq<char>>,
    pub slim_sha256: Option<Seq<char>>,
    pub blob_sha256: Option<Seq<char>>,
    pub payloads: bool,
}

/// The characters of an optional string.
pub open spec fn opt(s: Option<String>) -> Option<Seq<char>> {
    match s {
        None => None,
        Some(t) => Some(t@),
    }
}

impl View for Finish {
    type V = FinishView;

    open spec fn view(&self) -> FinishView {
        FinishView {
            token: self.token@,
            sha256: opt(self.sha256),
            slim_sha256: opt(self.slim_sha256),
            blob_sha256: opt(self.blob_sha256),
            payloads: self.payloads,
        }
    }
}

/// The arguments from `f` on: `finish` says whether `--finish` has stood.
pub open spec fn finish_args(args: Seq<Seq<char>>, f: FinishView, finish: bool) -> Result<
    FinishView,
    Seq<char>,
>
    decreases args.len(),
{
    if args.len() == 0 {
        if !finish {
            Err("usage: acs _install --finish ..."@)
        } else if f.token.len() == 0 || exists|i: int|
            0 <= i < f.token.len() && !hex_char(#[trigger] f.token[i]) {
            Err("bad --token"@)
        } else {
            Ok(f)
        }
    } else {
        let a = args[0];
        let rest = args.skip(1);
        if a == "--finish"@ {
            finish_args(rest, f, true)
        } else if a == "--payloads"@ {
            finish_args(rest, FinishView { payloads: true, ..f }, finish)
        } else if a == "--token"@ || a == "--sha256"@ || a == "--slim-sha256"@ || a
            == "--blob-sha256"@ {
            if rest.len() == 0 {
                Err(a + " needs a value"@)
            } else {
                let v = rest[0];
                let g = if a == "--token"@ {
                    FinishView { token: v, ..f }
                } else if a == "--sha256"@ {
                    FinishView { sha256: Some(v), ..f }
                } else if a == "--slim-sha256"@ {
                    FinishView { slim_sha256: Some(v), ..f }
                } else {
                    FinishView { blob_sha256: Some(v), ..f }
                };
                finish_args(rest.skip(1), g, finish)
            }
        } else {
            Err("unexpected argument "@ + a)
        }
    }
}

/// A hexadecimal digit of either case.
pub open spec fn hex_char(c: char) -> bool {
    '0' <= c <= '9' || 'a' <= c <= 'f' || 'A' <= c <= 'F'
}

/// Nothing asked for yet.
pub open spec fn no_finish() -> FinishView {
    FinishView {
        token: Seq::empty(),
        sha256: None,
        slim_sha256: None,
        blob_sha256: None,
        payloads: false,
    }
}

fn all_hex(s: &str) -> (r: bool)
    ensures
        r == !(exists|i: int| 0 <= i < s@.len() && !hex_char(#[trigger] s@[i])),
{
    let v = chars_of(s);
    let mut i: usize = 0;
    while i < v.len()
        invariant
            i <= v.len(),
            v@ == s@,
            forall|k: int| 0 <= k < i ==> hex_char(#[trigger] s@[k]),
        decreases v.len() - i,
    {
        let c = v[i];
        if !((c >= '0' && c <= '9') || (c >= 'a' && c <= 'f') || (c >= 'A' && c <= 'F')) {
            assert(!hex_char(s@[i as int]));
            return false;
        }
        i = i + 1;
    }
    true
}

pub open spec fn finish_result(r: Result<Finish, String>) -> Result<FinishView, Seq<char>> {
    match r {
        Ok(f) => Ok(f@),
        Err(e) => Err(e@),
    }
}

/// The arguments of `acs _install`.
pub fn parse_finish(args: &[String]) -> (r: Result<Finish, String>)
    ensures
        finish_result(r) == finish_args(texts(args@), no_finish(), false),
{
    let ghost all = texts(args@);
    let mut f = Finish {
        token: String::new(),
        sha256: None,
        slim_sha256: None,
        blob_sha256: None,
        payloads: false,
    };
    assert(f.token@ =~= Seq::empty());
    let mut finish = false;
    let mut i: usize = 0;
    assert(all.skip(0) =~= all);
    while i < args.len()
        invariant
            i <= args.len(),
            all == texts(args@),
            finish_args(all, no_finish(), false) == finish_args(all.skip(i as int), f@, finish),
        decreases args.len() - i,
    {
        let a = args[i].as_str();
        assert(all.skip(i as int)[0] == a@);
        assert(all.skip(i as int).skip(1) =~= all.skip(i + 1));
        proof {
            reveal_strlit("--finish");
            reveal_strlit("--payloads");
            reveal_strlit("--token");
            reveal_strlit("--sha256");
            reveal_strlit("--slim-sha256");
            reveal_strlit("--blob-sha256");
        }
        if same(a, "--finish") {
            finish = true;
            i = i + 1;
        } else if same(a, "--payloads") {
            f.payloads = true;
            i = i + 1;
        } else if same(a, "--token") || same(a, "--sha256") || same(a, "--slim-sha256") || same(
            a,
            "--blob-sha256",
        ) {
            if i + 1 >= args.len() {
                let mut e = a.to_owned();
                e.append(" needs a value");
                return Err(e);
            }
            let v = args[i + 1].clone();
            assert(all.skip(i + 1)[0] == v@);
            assert(all.skip(i + 1).skip(1) =~= all.skip(i + 2));
            if same(a, "--token") {
                f.token = v;
            } else if same(a, "--sha256") {
                f.sha256 = Some(v);
            } else if same(a, "--slim-sha256") {
                f.slim_sha256 = Some(v);
            } else {
                f.blob_sha256 = Some(v);
            }
            i = i + 2;
        } else {
            let mut e = "unexpected argument ".to_owned();
            e.append(a);
            return Err(e);
        }
    }
    if !finish {
        return Err("usage: acs _install --finish ...".to_owned());
    }
    if f.token.as_str().is_empty() || !all_hex(&f.token) {
        return Err("bad --token".to_owned());
    }
    Ok(f)
}

/// A digest that was asked for is not that of the data.
pub open spec fn mismatch(want: Option<Seq<char>>, data: Seq<u8>) -> bool {
    want is Some && want->0 != hex_text(sha256(data))
}

/// Whether an uploaded binary is what the client sent.
pub fn check_binary(want: &Option<String>, data: &[u8]) -> (r: Result<(), String>)
    ensures
        match r {
            Ok(_) => !mismatch(opt(*want), data@),
            Err(e) => mismatch(opt(*want), data@) && e@
                == "the uploaded binary is corrupt (checksum mismatch)"@,
        },
{
    if let Some(want) = want {
        if !same(&hex(&digest(data)), want) {
            return Err("the uploaded binary is corrupt (checksum mismatch)".to_owned());
        }
    }
    Ok(())
}

/// Whether the payload set that completes a slim binary is what the client
/// sent, and well formed.
pub fn check_payloads(want: &Option<String>, blob: &[u8]) -> (r: Result<(), String>)
    ensures
        match r {
            Ok(_) => !mismatch(opt(*want), blob@) && parsed(blob@) is Some,
            Err(e) => if mismatch(opt(*want), blob@) {
                e@ == "the payload set does not match its checksum"@
            } else {
                parsed(blob@) is None && e@ == "the payload set is corrupt"@
            },
        },
{
    if let Some(want) = want {
        if !same(&hex(&digest(blob)), want) {
            return Err("the payload set does not match its checksum".to_owned());
        }
    }
    match Payloads::parse(blob) {
        None => Err("the payload set is corrupt".to_owned()),
        Some(_) => Ok(()),
    }
}

/// What stands at `~/.local/bin/acs`.
pub enum Bin {
    /// Nothing, or a path that cannot be looked at.
    Missing,
    /// A file, or a link that cannot be read.
    NotALink,
    /// A link: where it leads as it is written, where that is with the links in it
    /// followed, and whether a file is there.
    Link { to: String, followed: String, alive: bool },
}

/// The version that a program belongs to: the name of the directory it is in.
pub open spec fn version_at(path: Seq<char>) -> Option<Seq<char>> {
    match parent_of(path) {
        None => None,
        Some(dir) => file_name_of(dir),
    }
}

fn version_of(path: &[char]) -> (r: Option<String>)
    ensures
        opt(r) == version_at(path@),
{
    match parent(path) {
        None => None,
        Some(dir) => match file_name(&dir) {
            None => None,
            Some(name) => Some(string_of(&name)),
        },
    }
}

/// Whether the link should point at `target`, the version just installed under `share`
/// (`real_share` with the links in it followed): when it is missing, or a link of ours
/// to an older or vanished version. A file or link the user put there is left alone,
/// and a newer version keeps the link.
pub open spec fn links(bin: Bin, target: Seq<char>, share: Seq<char>, real_share: Seq<char>) -> bool {
    match bin {
        Bin::Missing => true,
        Bin::NotALink => false,
        Bin::Link { to, followed, alive } => (is_under(to@, share) || is_under(followed@, real_share)) && (
        !alive || match (version_at(followed@), version_at(target)) {
            (Some(have), Some(new)) => at_least(new, have),
            _ => true,
        }),
    }
}

/// Whether `~/.local/bin/acs` should point at `target`, the version just installed
/// under `share`.
pub fn should_link(bin: &Bin, target: &str, share: &str, real_share: &str) -> (r: bool)
    ensures
        r == links(*bin, target@, share@, real_share@),
{
    match bin {
        Bin::Missing => true,
        Bin::NotALink => false,
        Bin::Link { to, followed, alive } => {
            let at = chars_of(followed);
            if !(under(&chars_of(to), &chars_of(share)) || under(&at, &chars_of(real_share))) {
                return false;
            }
            if !*alive {
                return true;
            }
            match (version_of(&at), version_of(&chars_of(target))) {
                (Some(have), Some(new)) => not_older(&new, &have),
                _ => true,
            }
        },
    }
}

/// The link only moves forward: what the user put there is never replaced, and a link
/// of ours to a program that is there leaves it only for a version that is not older.
pub proof fn law_the_link_only_moves_forward(
    bin: Bin,
    target: Seq<char>,
    share: Seq<char>,
    real_share: Seq<char>,
)
    requires
        links(bin, target, share, real_share),
    ensures
        !(bin is NotALink),
        bin matches Bin::Link { to, followed, alive } ==> is_under(to@, share) || is_under(
            followed@,
            real_share,
        ),
        bin matches Bin::Link { to, followed, alive } ==> alive && version_at(followed@) is Some && version_at(
            target,
        ) is Some ==> at_least(version_at(target)->0, version_at(followed@)->0),
{
}

pub open spec fn not_installed_here_text(host: Seq<char>, os: Seq<char>, arch: Seq<char>, why: Seq<char>) -> Seq<char> {
    "acs "@ + VERSION@ + " is not installed on "@ + host + " ("@ + os + " "@ + arch + "), and install_on_remote is false"@ + why + "; install it there with `curl -fsSL "@ + INSTALLER@ + " | ACS_VERSION="@ + VERSION@ + " sh`, or set install_on_remote: true"@
}

fn not_installed_here(host: &str, os: &str, arch: &str, why: &str) -> (s: String)
    ensures
        s@ == not_installed_here_text(host@, os@, arch@, why@),
{
    let mut s = "acs ".to_owned();
    s.append(VERSION);
    s.append(" is not installed on ");
    s.append(host);
    s.append(" (");
    s.append(os);
    s.append(" ");
    s.append(arch);
    s.append("), and install_on_remote is false");
    s.append(why);
    s.append("; install it there with `curl -fsSL ");
    s.append(INSTALLER);
    s.append(" | ACS_VERSION=");
    s.append(VERSION);
    s.append(" sh`, or set install_on_remote: true");
    s
}

/// What is said where acs is missing and may not be installed.
pub open spec fn not_installing_said(a: ArgsView, os: Seq<char>, arch: Seq<char>) -> Seq<char> {
    not_installed_here_text(
        a.transport.destination,
        os,
        arch,
        match a.config.install_on_remote.origin {
            Some(o) => " ("@ + place(o) + ")"@,
            None => Seq::empty(),
        },
    )
}

/// What is said where acs is missing and may not be installed: where the setting is,
/// and what to do about it.
pub fn not_installing(args: &ClientArgs, os: &str, arch: &str) -> (s: String)
    ensures
        s@ == not_installing_said(args@, os@, arch@),
{
    let mut why = String::new();
    if let Some(o) = &args.config.install_on_remote.origin {
        why.append(" (");
        why.append(&o.text());
        why.append(")");
        assert(why@ =~= " ("@ + place(o@) + ")"@);
    }
    not_installed_here(&args.transport.destination, os, arch, &why)
}

} // verus!
