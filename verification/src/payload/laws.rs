//! What holds of every payload blob.

use crate::payload::{
    appended_at, blob_of, first_for, footer_of, index_entries, index_entry, index_of, magic, packed, parsed,
    read_entries, read_entry, target_of, EntryView, InputView, FOOTER,
};
use crate::sha256::{hashed, padded, sha256};
use crate::text::{holds, stands_at};
use crate::wire::{be16, be32, be64, lemma_be16, lemma_be32, lemma_be64, lemma_cat_assoc};
use vstd::prelude::*;
use vstd::utf8::{encode_utf8, encode_utf8_decode_utf8, encode_utf8_valid_utf8};

verus! {

/// A digest has 32 bytes.
pub proof fn lemma_digest_len(m: Seq<u8>)
    ensures
        sha256(m).len() == 32,
{
    reveal(sha256);
    let s = hashed(padded(m), padded(m).len() / 64);
    lemma_be32(s[0]);
    lemma_be32(s[1]);
    lemma_be32(s[2]);
    lemma_be32(s[3]);
    lemma_be32(s[4]);
    lemma_be32(s[5]);
    lemma_be32(s[6]);
    lemma_be32(s[7]);
}

/// The inputs that the layout can hold: what it counts fits the fields it is
/// written in.
pub open spec fn fits(v: Seq<InputView>) -> bool {
    &&& v.len() <= u32::MAX
    &&& blob_of(v).len() <= u64::MAX
    &&& forall|k: int|
        0 <= k < v.len() ==> encode_utf8((#[trigger] v[k]).target).len() <= u16::MAX
            && v[k].raw.len() <= u64::MAX
}

/// The entry for an input whose gzip form stands at `offset`.
pub open spec fn entry_of(i: InputView, offset: u64) -> EntryView {
    EntryView {
        target: i.target,
        offset,
        gz_len: i.gz.len() as u64,
        raw_len: i.raw.len() as u64,
        sha256: sha256(i.raw),
    }
}

/// The entries that a blob of `v` holds.
pub open spec fn entries_of(v: Seq<InputView>) -> Seq<EntryView> {
    Seq::new(v.len(), |k: int| entry_of(v[k], packed(v.take(k)).len() as u64))
}

/// The index entries of the inputs from `k` on.
spec fn tail(v: Seq<InputView>, k: nat) -> Seq<u8>
    decreases v.len() - k,
{
    if k >= v.len() {
        Seq::empty()
    } else {
        index_entry(v[k as int], packed(v.take(k as int)).len() as u64) + tail(v, k + 1)
    }
}

proof fn lemma_tail(v: Seq<InputView>, k: nat)
    requires
        k <= v.len(),
    ensures
        index_entries(v.take(k as int)) + tail(v, k) == index_entries(v),
    decreases v.len() - k,
{
    if k == v.len() {
        assert(v.take(k as int) =~= v);
        assert(index_entries(v) + Seq::<u8>::empty() =~= index_entries(v));
    } else {
        assert(v.take(k as int + 1).drop_last() =~= v.take(k as int));
        lemma_cat_assoc(
            index_entries(v.take(k as int)),
            index_entry(v[k as int], packed(v.take(k as int)).len() as u64),
            tail(v, k + 1),
        );
        lemma_tail(v, k + 1);
    }
}

/// Where the binary of input `k` stands among the packed ones.
proof fn lemma_packed(v: Seq<InputView>, k: int)
    requires
        0 <= k < v.len(),
    ensures
        packed(v.take(k)).len() + v[k].gz.len() <= packed(v).len(),
        packed(v).subrange(
            packed(v.take(k)).len() as int,
            packed(v.take(k)).len() as int + v[k].gz.len(),
        ) == v[k].gz,
    decreases v.len(),
{
    let at = packed(v.take(k)).len() as int;
    if k == v.len() - 1 {
        assert(v.drop_last() =~= v.take(k));
        assert(packed(v).subrange(at, at + v[k].gz.len()) =~= v[k].gz);
    } else {
        let w = v.drop_last();
        assert(w.take(k) =~= v.take(k));
        lemma_packed(w, k);
        assert(packed(v).subrange(at, at + v[k].gz.len()) =~= packed(w).subrange(
            at,
            at + v[k].gz.len(),
        ));
    }
}

proof fn lemma_read_entry(i: InputView, offset: u64, rest: Seq<u8>, limit: nat)
    requires
        encode_utf8(i.target).len() <= u16::MAX,
        i.raw.len() <= u64::MAX,
        i.gz.len() <= u64::MAX,
        offset + i.gz.len() <= limit,
    ensures
        read_entry(index_entry(i, offset) + rest, limit) == Some((entry_of(i, offset), rest)),
{
    reveal(read_entry);
    reveal(index_entry);
    let t = encode_utf8(i.target);
    let n = t.len() as int;
    let p = index_entry(i, offset) + rest;
    lemma_digest_len(i.raw);
    lemma_be16(n as u16);
    lemma_be64(offset);
    lemma_be64(i.gz.len() as u64);
    lemma_be64(i.raw.len() as u64);
    encode_utf8_valid_utf8(i.target);
    encode_utf8_decode_utf8(i.target);
    assert(p.subrange(0, 2) =~= be16(n as u16));
    assert(p.subrange(2, 2 + n) =~= t);
    assert(p.subrange(2 + n, 10 + n) =~= be64(offset));
    assert(p.subrange(10 + n, 18 + n) =~= be64(i.gz.len() as u64));
    assert(p.subrange(18 + n, 26 + n) =~= be64(i.raw.len() as u64));
    assert(p.subrange(26 + n, 58 + n) =~= sha256(i.raw));
    assert(p.skip(58 + n) =~= rest);
}

proof fn lemma_read_tail(v: Seq<InputView>, k: nat)
    requires
        fits(v),
        k <= v.len(),
        packed(v).len() <= u64::MAX,
    ensures
        read_entries(tail(v, k), (v.len() - k) as nat, packed(v).len()) == Some(
            entries_of(v).skip(k as int),
        ),
    decreases v.len() - k,
{
    if k == v.len() {
        assert(entries_of(v).skip(k as int) =~= Seq::empty());
    } else {
        lemma_packed(v, k as int);
        lemma_read_entry(
            v[k as int],
            packed(v.take(k as int)).len() as u64,
            tail(v, k + 1),
            packed(v).len(),
        );
        lemma_read_tail(v, k + 1);
        assert(seq![entries_of(v)[k as int]] + entries_of(v).skip(k as int + 1)
            =~= entries_of(v).skip(k as int));
    }
}

/// The footer of a blob, with anything before it.
proof fn lemma_footer(v: Seq<InputView>, before: Seq<u8>)
    requires
        fits(v),
    ensures
        footer_of(before + blob_of(v)) == Some((index_of(v).len() as u64, blob_of(v).len() as u64)),
        blob_of(v).len() == packed(v).len() + index_of(v).len() + FOOTER,
        blob_of(v).subrange(0, packed(v).len() as int) == packed(v),
        blob_of(v).subrange(packed(v).len() as int, blob_of(v).len() - FOOTER) == index_of(v),
{
    let b = blob_of(v);
    let a = packed(v);
    let x = index_of(v);
    let n1 = x.len() as u64;
    let n2 = (a.len() + x.len() + FOOTER) as u64;
    lemma_be64(n1);
    lemma_be64(n2);
    let w = before + b;
    let n = w.len() as int;
    assert(w.subrange(n - 8, n) =~= magic());
    assert(w.subrange(n - 16, n - 8) =~= be64(n2));
    assert(w.subrange(n - 24, n - 16) =~= be64(n1));
    assert(b.subrange(0, a.len() as int) =~= a);
    assert(b.subrange(a.len() as int, b.len() - FOOTER) =~= x);
}

/// What `build` packs, `parse` reads back: each input's entry, in order, and
/// its compressed binary where the entry says it stands.
pub proof fn law_build_reads_back(v: Seq<InputView>)
    requires
        fits(v),
    ensures
        parsed(blob_of(v)) == Some(entries_of(v)),
        forall|k: int|
            0 <= k < v.len() ==> blob_of(v).subrange(
                (#[trigger] entries_of(v)[k]).offset as int,
                entries_of(v)[k].offset + entries_of(v)[k].gz_len,
            ) == v[k].gz,
{
    let b = blob_of(v);
    let a = packed(v);
    assert(Seq::<u8>::empty() + b =~= b);
    lemma_footer(v, Seq::empty());
    lemma_be32(v.len() as u32);
    let x = index_of(v);
    assert(x.subrange(0, 4) =~= be32(v.len() as u32));
    lemma_tail(v, 0);
    assert(v.take(0) =~= Seq::empty());
    assert(index_entries(v.take(0)) + tail(v, 0) =~= tail(v, 0));
    assert(x.skip(4) =~= tail(v, 0));
    lemma_read_tail(v, 0);
    assert(entries_of(v).skip(0) =~= entries_of(v));
    assert forall|k: int| 0 <= k < v.len() implies b.subrange(
        (#[trigger] entries_of(v)[k]).offset as int,
        entries_of(v)[k].offset + entries_of(v)[k].gz_len,
    ) == v[k].gz by {
        lemma_packed(v, k);
        let at = packed(v.take(k)).len() as int;
        assert(b.subrange(at, at + v[k].gz.len()) =~= a.subrange(at, at + v[k].gz.len()));
    }
}

/// A blob is found behind whatever binary it is appended to.
pub proof fn law_appended_is_found(v: Seq<InputView>, binary: Seq<u8>)
    requires
        fits(v),
    ensures
        appended_at(binary + blob_of(v)) == Some(binary.len() as int),
{
    lemma_footer(v, binary);
    law_build_reads_back(v);
    let w = binary + blob_of(v);
    assert(w.skip(binary.len() as int) =~= blob_of(v));
}

/// The first input for `target`.
pub open spec fn first_input(v: Seq<InputView>, target: Seq<char>, from: int) -> Option<int>
    decreases v.len() - from,
{
    if from < 0 || from >= v.len() {
        None
    } else if v[from].target == target {
        Some(from)
    } else {
        first_input(v, target, from + 1)
    }
}

proof fn lemma_first(v: Seq<InputView>, target: Seq<char>, from: int)
    requires
        0 <= from <= v.len(),
    ensures
        match first_input(v, target, from) {
            None => first_for(entries_of(v).skip(from), target) is None,
            Some(k) => from <= k < v.len() && first_for(entries_of(v).skip(from), target) == Some(
                entries_of(v)[k],
            ),
        },
    decreases v.len() - from,
{
    let e = entries_of(v).skip(from);
    if from < v.len() {
        assert(e[0] == entries_of(v)[from]);
        assert(e.skip(1) =~= entries_of(v).skip(from + 1));
        if v[from].target != target {
            lemma_first(v, target, from + 1);
        }
    }
}

/// The targets that are read back are the inputs', in their order, and what a target
/// gives is the first input for it: its sizes, its checksum and its compressed binary.
pub proof fn law_a_target_gives_its_first_input(v: Seq<InputView>, target: Seq<char>)
    requires
        fits(v),
    ensures
        parsed(blob_of(v)) is Some,
        ({
            let e = parsed(blob_of(v))->0;
            &&& e.map_values(|x: EntryView| x.target) == v.map_values(|x: InputView| x.target)
            &&& match first_input(v, target, 0) {
                None => first_for(e, target) is None,
                Some(k) => first_for(e, target) matches Some(x) && x.target == target && x.gz_len
                    == v[k].gz.len() && x.raw_len == v[k].raw.len() && x.sha256 == sha256(v[k].raw)
                    && blob_of(v).subrange(x.offset as int, x.offset + x.gz_len) == v[k].gz,
            }
        }),
{
    law_build_reads_back(v);
    let e = entries_of(v);
    lemma_first(v, target, 0);
    assert(e.skip(0) =~= e);
    assert(e.map_values(|x: EntryView| x.target) =~= v.map_values(|x: InputView| x.target));
    if let Some(k) = first_input(v, target, 0) {
        lemma_first_named(v, target, 0);
        lemma_packed(v, k);
        assert(e[k] == entry_of(v[k], packed(v.take(k)).len() as u64));
        assert(v[k].gz.len() <= u64::MAX && v[k].raw.len() <= u64::MAX);
    }
}

pub proof fn lemma_first_named(v: Seq<InputView>, target: Seq<char>, from: int)
    requires
        0 <= from,
    ensures
        first_input(v, target, from) matches Some(k) ==> from <= k < v.len() && v[k].target
            == target,
    decreases v.len() - from,
{
    if from < v.len() && v[from].target != target {
        lemma_first_named(v, target, from + 1);
    }
}

/// A host is given a build for its own system and machine, whatever name its machine goes
/// by, and none where there is no such build.
pub proof fn law_a_build_fits_its_host(os: Seq<char>, arch: Seq<char>)
    ensures
        ({
            let t = target_of(os, arch);
            let linux = os == "Linux"@;
            let mac = os == "Darwin"@;
            &&& t is Some ==> linux || mac
            &&& linux && t is Some ==> holds(t->0, "unknown-linux-musl"@)
            &&& mac && t is Some ==> holds(t->0, "apple-darwin"@)
            &&& arch == "x86_64"@ && (linux || mac) ==> t is Some && stands_at(t->0, "x86_64-"@, 0)
            &&& arch == "arm64"@ && (linux || mac) ==> t is Some && stands_at(t->0, "aarch64-"@, 0)
            &&& arch == "armv7l"@ && linux ==> t is Some && stands_at(t->0, "armv7-"@, 0)
        }),
        target_of("Linux"@, "amd64"@) == target_of("Linux"@, "x86_64"@),
        target_of("Linux"@, "aarch64"@) == target_of("Linux"@, "arm64"@),
        target_of("Linux"@, "armv7"@) == target_of("Linux"@, "armv7l"@),
        target_of("Darwin"@, "armv7l"@) is None,
{
    lemma_words_apart();
    lemma_targets_named();
}

proof fn lemma_words_apart()
    ensures
        "Linux"@ != "Darwin"@,
        "x86_64"@ != "amd64"@,
        "x86_64"@ != "aarch64"@,
        "x86_64"@ != "arm64"@,
        "x86_64"@ != "armv7l"@,
        "x86_64"@ != "armv7"@,
        "amd64"@ != "aarch64"@,
        "amd64"@ != "arm64"@,
        "amd64"@ != "armv7l"@,
        "amd64"@ != "armv7"@,
        "aarch64"@ != "armv7l"@,
        "aarch64"@ != "armv7"@,
        "arm64"@ != "armv7l"@,
        "arm64"@ != "armv7"@,
        "aarch64"@ != "arm64"@,
        "armv7l"@ != "armv7"@,
{
    reveal_strlit("Linux");
    reveal_strlit("Darwin");
    reveal_strlit("x86_64");
    reveal_strlit("amd64");
    reveal_strlit("aarch64");
    reveal_strlit("arm64");
    reveal_strlit("armv7l");
    reveal_strlit("armv7");
    assert("Linux"@.len() != "Darwin"@.len());
    assert("x86_64"@[0] != "armv7l"@[0]);
    assert("aarch64"@.len() != "armv7l"@.len());
    assert("amd64"@[1] != "arm64"@[1]);
    assert("amd64"@[1] != "armv7"@[1]);
    assert("arm64"@[3] != "armv7"@[3]);
}

proof fn lemma_targets_named()
    ensures
        holds("x86_64-unknown-linux-musl"@, "unknown-linux-musl"@),
        holds("aarch64-unknown-linux-musl"@, "unknown-linux-musl"@),
        holds("armv7-unknown-linux-musleabihf"@, "unknown-linux-musl"@),
        holds("aarch64-apple-darwin"@, "apple-darwin"@),
        holds("x86_64-apple-darwin"@, "apple-darwin"@),
        stands_at("x86_64-unknown-linux-musl"@, "x86_64-"@, 0),
        stands_at("aarch64-unknown-linux-musl"@, "aarch64-"@, 0),
        stands_at("armv7-unknown-linux-musleabihf"@, "armv7-"@, 0),
        stands_at("aarch64-apple-darwin"@, "aarch64-"@, 0),
        stands_at("x86_64-apple-darwin"@, "x86_64-"@, 0),
{
    reveal_strlit("x86_64-unknown-linux-musl");
    reveal_strlit("aarch64-unknown-linux-musl");
    reveal_strlit("armv7-unknown-linux-musleabihf");
    reveal_strlit("aarch64-apple-darwin");
    reveal_strlit("x86_64-apple-darwin");
    reveal_strlit("unknown-linux-musl");
    reveal_strlit("apple-darwin");
    reveal_strlit("x86_64-");
    reveal_strlit("aarch64-");
    reveal_strlit("armv7-");
    let x = "x86_64-unknown-linux-musl"@;
    let a = "aarch64-unknown-linux-musl"@;
    let v = "armv7-unknown-linux-musleabihf"@;
    let am = "aarch64-apple-darwin"@;
    let xm = "x86_64-apple-darwin"@;
    assert(x.subrange(7, 25) =~= "unknown-linux-musl"@);
    assert(stands_at(x, "unknown-linux-musl"@, 7));
    assert(a.subrange(8, 26) =~= "unknown-linux-musl"@);
    assert(stands_at(a, "unknown-linux-musl"@, 8));
    assert(v.subrange(6, 24) =~= "unknown-linux-musl"@);
    assert(stands_at(v, "unknown-linux-musl"@, 6));
    assert(am.subrange(8, 20) =~= "apple-darwin"@);
    assert(stands_at(am, "apple-darwin"@, 8));
    assert(xm.subrange(7, 19) =~= "apple-darwin"@);
    assert(stands_at(xm, "apple-darwin"@, 7));
    assert(x.subrange(0, 7) =~= "x86_64-"@);
    assert(a.subrange(0, 8) =~= "aarch64-"@);
    assert(v.subrange(0, 6) =~= "armv7-"@);
    assert(am.subrange(0, 8) =~= "aarch64-"@);
    assert(xm.subrange(0, 7) =~= "x86_64-"@);
}

} // verus!
