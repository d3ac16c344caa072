//! The payload set: slim builds for the remote targets, gzip-compressed,
//! carried inside a complete binary so any copy can install acs on any
//! supported remote.
//!
//! Layout of a payload blob:
//!
//! ```text
//! [gz entry 0][gz entry 1]...[index][index_len u64][blob_len u64]["ACSPAY01"]
//! index = count u32, then per entry:
//!         target (u16 len + bytes), offset u64, gz_len u64, raw_len u64, sha256 [32]
//! ```
//!
//! ELF builds carry the blob appended after the executable (the loader
//! ignores it); Mach-O builds link it in because code signing refuses appended
//! data.

pub mod laws;

use crate::sha256::{digest, sha256};
use crate::text::{chars_of, contains_text, holds, same, sub_vec, utf8_string};
use crate::wire::{
    be16, be32, be64, from_be16, from_be32, from_be64, get_u16, get_u32, get_u64, lemma_be64,
    lemma_cat_assoc, put_bytes, put_u16, put_u32, put_u64,
};
use vstd::prelude::*;
use vstd::utf8::{decode_utf8, encode_utf8, valid_utf8};

verus! {

/// The length of a blob's footer.
pub const FOOTER: usize = 24;

/// The last eight bytes of a blob.
pub open spec fn magic() -> Seq<u8> {
    seq![65u8, 67, 83, 80, 65, 89, 48, 49]
}

/// One slim binary in a payload set.
#[derive(Debug, Clone, PartialEq, Eq)]
pub struct Entry {
    pub target: String,
    pub offset: u64,
    pub gz_len: u64,
    pub raw_len: u64,
    /// SHA-256 of the uncompressed slim binary.
    pub sha256: [u8; 32],
}

#[verifier::ext_equal]
pub struct EntryView {
    pub target: Seq<char>,
    pub offset: u64,
    pub gz_len: u64,
    pub raw_len: u64,
    pub sha256: Seq<u8>,
}

impl View for Entry {
    type V = EntryView;

    open spec fn view(&self) -> EntryView {
        EntryView {
            target: self.target@,
            offset: self.offset,
            gz_len: self.gz_len,
            raw_len: self.raw_len,
            sha256: self.sha256@,
        }
    }
}

pub open spec fn entry_views(v: Seq<Entry>) -> Seq<EntryView> {
    v.map_values(|e: Entry| e@)
}

/// A parsed payload blob.
#[derive(Debug, Clone)]
pub struct Payloads {
    pub bytes: Vec<u8>,
    pub entries: Vec<Entry>,
}

/// What goes into a blob: target, uncompressed slim binary, its gzip form.
pub struct Input<'a> {
    pub target: &'a str,
    pub raw: &'a [u8],
    pub gz: &'a [u8],
}

#[verifier::ext_equal]
pub struct InputView {
    pub target: Seq<char>,
    pub raw: Seq<u8>,
    pub gz: Seq<u8>,
}

impl<'a> View for Input<'a> {
    type V = InputView;

    open spec fn view(&self) -> InputView {
        InputView { target: self.target@, raw: self.raw@, gz: self.gz@ }
    }
}

pub open spec fn input_views<'a>(v: Seq<Input<'a>>) -> Seq<InputView> {
    v.map_values(|i: Input<'a>| i@)
}

/// The compressed binaries, one after the other.
pub open spec fn packed(v: Seq<InputView>) -> Seq<u8>
    decreases v.len(),
{
    if v.len() == 0 {
        Seq::empty()
    } else {
        packed(v.drop_last()) + v.last().gz
    }
}

/// What the index says of an input whose gzip form stands at `offset`.
#[verifier::opaque]
pub open spec fn index_entry(i: InputView, offset: u64) -> Seq<u8> {
    be16(encode_utf8(i.target).len() as u16) + encode_utf8(i.target) + be64(offset) + be64(
        i.gz.len() as u64,
    ) + be64(i.raw.len() as u64) + sha256(i.raw)
}

/// The index entries of the inputs, in order.
pub open spec fn index_entries(v: Seq<InputView>) -> Seq<u8>
    decreases v.len(),
{
    if v.len() == 0 {
        Seq::empty()
    } else {
        index_entries(v.drop_last()) + index_entry(
            v.last(),
            packed(v.drop_last()).len() as u64,
        )
    }
}

pub open spec fn index_of(v: Seq<InputView>) -> Seq<u8> {
    be32(v.len() as u32) + index_entries(v)
}

/// The blob that carries the inputs.
pub open spec fn blob_of(v: Seq<InputView>) -> Seq<u8> {
    packed(v) + index_of(v) + be64(index_of(v).len() as u64) + be64(
        (packed(v).len() + index_of(v).len() + FOOTER) as u64,
    ) + magic()
}

/// The index length and the blob length that the footer of `b` gives.
pub open spec fn footer_of(b: Seq<u8>) -> Option<(u64, u64)> {
    let n = b.len() as int;
    if n < FOOTER || b.subrange(n - 8, n) != magic() {
        None
    } else {
        Some((from_be64(b.subrange(n - 24, n - 16)), from_be64(b.subrange(n - 16, n - 8))))
    }
}

/// The entry that `p` starts with, and what follows it; the compressed binary
/// it names must end at `limit` or before.
#[verifier::opaque]
pub open spec fn read_entry(p: Seq<u8>, limit: nat) -> Option<(EntryView, Seq<u8>)> {
    if p.len() < 2 {
        None
    } else {
        let n = from_be16(p.subrange(0, 2)) as int;
        if p.len() < n + 58 || !valid_utf8(p.subrange(2, 2 + n)) {
            None
        } else {
            let offset = from_be64(p.subrange(2 + n, 10 + n));
            let gz_len = from_be64(p.subrange(10 + n, 18 + n));
            if offset + gz_len > limit {
                None
            } else {
                Some(
                    (
                        EntryView {
                            target: decode_utf8(p.subrange(2, 2 + n)),
                            offset,
                            gz_len,
                            raw_len: from_be64(p.subrange(18 + n, 26 + n)),
                            sha256: p.subrange(26 + n, 58 + n),
                        },
                        p.skip(58 + n),
                    ),
                )
            }
        }
    }
}

/// The `count` entries that `p` starts with.
pub open spec fn read_entries(p: Seq<u8>, count: nat, limit: nat) -> Option<Seq<EntryView>>
    decreases count,
{
    if count == 0 {
        Some(Seq::empty())
    } else {
        match read_entry(p, limit) {
            None => None,
            Some((e, rest)) => match read_entries(rest, (count - 1) as nat, limit) {
                None => None,
                Some(v) => Some(seq![e] + v),
            },
        }
    }
}

/// The entries of a blob; `None` for anything malformed.
pub open spec fn parsed(b: Seq<u8>) -> Option<Seq<EntryView>> {
    match footer_of(b) {
        None => None,
        Some((index_len, total)) => {
            let end = b.len() - FOOTER;
            if total != b.len() || index_len > end || index_len < 4 {
                None
            } else {
                let p = b.subrange(end - index_len, end);
                read_entries(
                    p.skip(4),
                    from_be32(p.subrange(0, 4)) as nat,
                    (end - index_len) as nat,
                )
            }
        },
    }
}

/// The first entry for `target`.
pub open spec fn first_for(v: Seq<EntryView>, target: Seq<char>) -> Option<EntryView>
    decreases v.len(),
{
    if v.len() == 0 {
        None
    } else if v[0].target == target {
        Some(v[0])
    } else {
        first_for(v.skip(1), target)
    }
}

/// Where the blob that a file ends in starts, if there is one.
pub open spec fn appended_at(file: Seq<u8>) -> Option<int> {
    match footer_of(file) {
        None => None,
        Some((_, total)) => if total > file.len() || parsed(
            file.skip(file.len() - total),
        ) is None {
            None
        } else {
            Some(file.len() - total)
        },
    }
}

fn is_magic(b: &[u8]) -> (r: bool)
    ensures
        r == (b@ == magic()),
{
    let r = b.len() == 8 && b[0] == 65 && b[1] == 67 && b[2] == 83 && b[3] == 80 && b[4] == 65
        && b[5] == 89 && b[6] == 48 && b[7] == 49;
    assert(r ==> b@ =~= magic());
    r
}

fn footer(b: &[u8]) -> (r: Option<(u64, u64)>)
    ensures
        r == footer_of(b@),
{
    let n: usize = b.len();
    if n < FOOTER {
        return None;
    }
    let end = sub_vec(b, n - 8, n);
    if !is_magic(&end) {
        return None;
    }
    Some((get_u64(b, n - 24), get_u64(b, n - 16)))
}

fn digest_at(b: &[u8], at: usize) -> (d: [u8; 32])
    requires
        at + 32 <= b.len(),
    ensures
        d@ == b@.subrange(at as int, at + 32),
{
    let mut d: [u8; 32] = [0; 32];
    let mut j: usize = 0;
    while j < 32
        invariant
            j <= 32,
            at + 32 <= b.len(),
            d@.len() == 32,
            forall|i: int| 0 <= i < j ==> #[trigger] d@[i] == b@[at + i],
        decreases 32 - j,
    {
        d[j] = b[at + j];
        j = j + 1;
    }
    assert(d@ =~= b@.subrange(at as int, at + 32));
    d
}

/// The three numbers at `at` of `p`.
fn numbers_at(p: &[u8], at: usize) -> (r: (u64, u64, u64))
    requires
        at + 24 <= p.len(),
    ensures
        r.0 == from_be64(p@.subrange(at as int, at + 8)),
        r.1 == from_be64(p@.subrange(at + 8, at + 16)),
        r.2 == from_be64(p@.subrange(at + 16, at + 24)),
{
    (get_u64(p, at), get_u64(p, at + 8), get_u64(p, at + 16))
}

/// Reads the entry at `at` of `p`: it and where the next one starts.
#[verifier::spinoff_prover]
#[verifier::rlimit(40)]
fn entry_at(p: &[u8], at: usize, limit: u64) -> (r: Option<(Entry, usize)>)
    requires
        at <= p.len(),
    ensures
        match r {
            None => read_entry(p@.skip(at as int), limit as nat) is None,
            Some((e, next)) => at <= next <= p.len() && read_entry(
                p@.skip(at as int),
                limit as nat,
            ) == Some((e@, p@.skip(next as int))),
        },
{
    reveal(read_entry);
    let ghost q = p@.skip(at as int);
    if p.len() - at < 2 {
        return None;
    }
    let n: usize = get_u16(p, at) as usize;
    assert(q.subrange(0, 2) =~= p@.subrange(at as int, at + 2));
    if p.len() - at < n + 58 {
        return None;
    }
    let name = sub_vec(p, at + 2, at + 2 + n);
    assert(q.subrange(2, 2 + n) =~= name@);
    let target = match utf8_string(name) {
        None => return None,
        Some(t) => t,
    };
    let (offset, gz_len, raw_len) = numbers_at(p, at + 2 + n);
    assert(q.subrange(2 + n, 10 + n) =~= p@.subrange(at + 2 + n, at + 10 + n));
    assert(q.subrange(10 + n, 18 + n) =~= p@.subrange(at + 10 + n, at + 18 + n));
    assert(q.subrange(18 + n, 26 + n) =~= p@.subrange(at + 18 + n, at + 26 + n));
    assert(q.subrange(26 + n, 58 + n) =~= p@.subrange(at + 26 + n, at + 58 + n));
    if offset > limit || gz_len > limit - offset {
        return None;
    }
    let next: usize = at + 58 + n;
    let e = Entry { target, offset, gz_len, raw_len, sha256: digest_at(p, at + 26 + n) };
    assert(q.skip(58 + n) =~= p@.skip(next as int));
    Some((e, next))
}

/// The entries from `at` on.
fn entries_at(p: &[u8], at: usize, count: u32, limit: u64) -> (r: Option<Vec<Entry>>)
    requires
        at <= p.len(),
    ensures
        match r {
            None => read_entries(p@.skip(at as int), count as nat, limit as nat) is None,
            Some(v) => read_entries(p@.skip(at as int), count as nat, limit as nat) == Some(
                entry_views(v@),
            ),
        },
{
    let mut v: Vec<Entry> = Vec::new();
    let mut here: usize = at;
    let mut left: u32 = count;
    let ghost start = p@.skip(at as int);
    assert(entry_views(v@) =~= Seq::empty());
    while left > 0
        invariant
            here <= p.len(),
            left <= count,
            start == p@.skip(at as int),
            match read_entries(p@.skip(here as int), left as nat, limit as nat) {
                None => read_entries(start, count as nat, limit as nat) is None,
                Some(w) => read_entries(start, count as nat, limit as nat) == Some(
                    entry_views(v@) + w,
                ),
            },
        decreases left,
    {
        let ghost before = entry_views(v@);
        match entry_at(p, here, limit) {
            None => {
                assert(read_entries(p@.skip(here as int), left as nat, limit as nat) is None);
                return None;
            },
            Some((e, next)) => {
                let ghost ev = e@;
                v.push(e);
                here = next;
                left = left - 1;
                proof {
                    assert(entry_views(v@) =~= before.push(ev));
                    match read_entries(p@.skip(here as int), left as nat, limit as nat) {
                        None => {},
                        Some(w) => {
                            assert(before + (seq![ev] + w) =~= entry_views(v@) + w);
                        },
                    }
                }
            },
        }
    }
    assert(entry_views(v@) + Seq::<EntryView>::empty() =~= entry_views(v@));
    Some(v)
}

fn put_entry(index: &mut Vec<u8>, i: &Input<'_>, offset: u64)
    ensures
        final(index)@ == old(index)@ + index_entry(i@, offset),
{
    reveal(index_entry);
    broadcast use lemma_cat_assoc;

    put_u16(index, i.target.as_bytes().len() as u16);
    put_bytes(index, i.target.as_bytes());
    put_u64(index, offset);
    put_u64(index, i.gz.len() as u64);
    put_u64(index, i.raw.len() as u64);
    put_bytes(index, &digest(i.raw));
}

/// The footer of a blob.
fn put_footer(blob: &mut Vec<u8>, index_len: u64, total: u64)
    ensures
        final(blob)@ == old(blob)@ + be64(index_len) + be64(total) + magic(),
{
    put_u64(blob, index_len);
    put_u64(blob, total);
    let end: [u8; 8] = [65, 67, 83, 80, 65, 89, 48, 49];
    assert(end@ =~= magic());
    put_bytes(blob, &end);
}

/// Assemble a payload blob.
pub fn build(inputs: &[Input<'_>]) -> (blob: Vec<u8>)
    requires
        blob_of(input_views(inputs@)).len() <= usize::MAX,
    ensures
        blob@ == blob_of(input_views(inputs@)),
{
    let ghost all = input_views(inputs@);
    let mut blob: Vec<u8> = Vec::new();
    let mut index: Vec<u8> = Vec::new();
    put_u32(&mut index, inputs.len() as u32);
    assert(all.take(0) =~= Seq::empty());
    assert(index@ =~= be32(all.len() as u32) + index_entries(all.take(0)));
    for k in 0..inputs.len()
        invariant
            all == input_views(inputs@),
            blob@ == packed(all.take(k as int)),
            index@ == be32(all.len() as u32) + index_entries(all.take(k as int)),
    {
        let i = &inputs[k];
        proof {
            assert(all[k as int] == i@);
            assert(all.take(k + 1).drop_last() =~= all.take(k as int));
            assert(all.take(k + 1).last() == i@);
        }
        let offset: u64 = blob.len() as u64;
        put_bytes(&mut blob, i.gz);
        put_entry(&mut index, i, offset);
        proof {
            lemma_cat_assoc(
                be32(all.len() as u32),
                index_entries(all.take(k as int)),
                index_entry(i@, offset),
            );
        }
    }
    assert(all.take(all.len() as int) =~= all);
    let index_len: u64 = index.len() as u64;
    put_bytes(&mut blob, &index);
    proof {
        lemma_be64(index_of(all).len() as u64);
        lemma_be64((packed(all).len() + index_of(all).len() + FOOTER) as u64);
    }
    let total: u64 = (blob.len() + FOOTER) as u64;
    put_footer(&mut blob, index_len, total);
    blob
}

impl Payloads {
    /// Every entry's binary lies inside the blob.
    pub open spec fn wf(&self) -> bool {
        forall|i: int|
            0 <= i < self.entries@.len() ==> (#[trigger] self.entries@[i]).offset
                + self.entries@[i].gz_len <= self.bytes@.len()
    }

    /// Parse a blob. Anything malformed is `None`, never a panic.
    pub fn parse(blob: &[u8]) -> (r: Option<Payloads>)
        ensures
            match r {
                None => parsed(blob@) is None,
                Some(p) => p.wf() && p.bytes@ == blob@ && parsed(blob@) == Some(
                    entry_views(p.entries@),
                ),
            },
    {
        let (index_len, total) = match footer(blob) {
            None => return None,
            Some(f) => f,
        };
        if total != blob.len() as u64 {
            return None;
        }
        let end: usize = blob.len() - FOOTER;
        if index_len > end as u64 || index_len < 4 {
            return None;
        }
        let start: usize = end - index_len as usize;
        let p = sub_vec(blob, start, end);
        let count = get_u32(&p, 0);
        match entries_at(&p, 4, count, start as u64) {
            None => None,
            Some(entries) => {
                proof {
                    let v = entry_views(entries@);
                    assert(read_entries(p@.skip(4), count as nat, start as nat) == Some(v));
                    assert forall|i: int| 0 <= i < entries@.len() implies (
                    #[trigger] entries@[i]).offset + entries@[i].gz_len <= blob@.len() by {
                        assert(v[i] == entries@[i]@);
                        lemma_entry_ends(p@.skip(4), count as nat, start as nat, v, i);
                    }
                }
                Some(Payloads { bytes: sub_vec(blob, 0, blob.len()), entries })
            },
        }
    }

    /// The blob that the bytes of a file end in, and the length of what
    /// precedes it.
    pub fn from_file(file: &[u8]) -> (r: Option<(u64, Payloads)>)
        ensures
            match r {
                None => appended_at(file@) is None,
                Some((at, p)) => appended_at(file@) == Some(at as int) && p.wf() && p.bytes@
                    == file@.skip(at as int) && parsed(p.bytes@) == Some(
                    entry_views(p.entries@),
                ),
            },
    {
        let (_, total) = match footer(file) {
            None => return None,
            Some(f) => f,
        };
        if total > file.len() as u64 {
            return None;
        }
        let at: usize = file.len() - total as usize;
        let blob = sub_vec(file, at, file.len());
        assert(blob@ =~= file@.skip(at as int));
        match Payloads::parse(&blob) {
            None => None,
            Some(p) => Some((at as u64, p)),
        }
    }

    /// The payloads that a binary carries: those linked into it, or those
    /// appended to its file (`None` where it cannot be read).
    pub fn from_self(embedded: &[u8], exe: Option<&[u8]>) -> (r: Option<Payloads>)
        ensures
            r is Some ==> r->0.wf() && parsed(r->0.bytes@) == Some(entry_views(r->0.entries@)),
            embedded@.len() > 0 ==> (r is Some <==> parsed(embedded@) is Some) && (r is Some
                ==> r->0.bytes@ == embedded@),
            embedded@.len() == 0 ==> match exe {
                None => r is None,
                Some(file) => match appended_at(file@) {
                    None => r is None,
                    Some(at) => r is Some && r->0.bytes@ == file@.skip(at),
                },
            },
    {
        if embedded.len() > 0 {
            return Payloads::parse(embedded);
        }
        match exe {
            None => None,
            Some(file) => match Payloads::from_file(file) {
                None => None,
                Some((_, p)) => Some(p),
            },
        }
    }

    /// The entry for `target` and its compressed binary.
    pub fn get(&self, target: &str) -> (r: Option<(&Entry, &[u8])>)
        requires
            self.wf(),
        ensures
            match r {
                None => first_for(entry_views(self.entries@), target@) is None,
                Some((e, gz)) => first_for(entry_views(self.entries@), target@) == Some(e@)
                    && gz@ == self.bytes@.subrange(e.offset as int, e.offset + e.gz_len),
            },
    {
        let ghost v = entry_views(self.entries@);
        let mut i: usize = 0;
        assert(v.skip(0) =~= v);
        while i < self.entries.len()
            invariant
                i <= self.entries.len(),
                self.wf(),
                v == entry_views(self.entries@),
                first_for(v, target@) == first_for(v.skip(i as int), target@),
            decreases self.entries.len() - i,
        {
            let e = &self.entries[i];
            assert(v.skip(i as int)[0] == e@);
            if same(&e.target, target) {
                let len: usize = self.bytes.len();
                assert(e == self.entries@[i as int]);
                let start: usize = e.offset as usize;
                let end: usize = start + e.gz_len as usize;
                return Some((e, &self.bytes.as_slice()[start..end]));
            }
            assert(v.skip(i as int).skip(1) =~= v.skip(i + 1));
            i = i + 1;
        }
        None
    }

    /// The whole blob, as appended to a slim ELF binary to complete it.
    pub fn blob(&self) -> (r: &[u8])
        ensures
            r@ == self.bytes@,
    {
        self.bytes.as_slice()
    }

    /// The targets, in order.
    pub fn targets(&self) -> (r: Vec<&str>)
        ensures
            r@.map_values(|s: &str| s@) == entry_views(self.entries@).map_values(
                |e: EntryView| e.target,
            ),
    {
        let mut r: Vec<&str> = Vec::new();
        for i in 0..self.entries.len()
            invariant
                r@.len() == i,
                forall|k: int| 0 <= k < i ==> (#[trigger] r@[k])@ == self.entries@[k].target@,
        {
            r.push(self.entries[i].target.as_str());
        }
        assert(r@.map_values(|s: &str| s@) =~= entry_views(self.entries@).map_values(
            |e: EntryView| e.target,
        ));
        r
    }
}

/// Every entry that is read ends at `limit` or before.
proof fn lemma_entry_ends(p: Seq<u8>, count: nat, limit: nat, v: Seq<EntryView>, i: int)
    requires
        read_entries(p, count, limit) == Some(v),
        0 <= i < v.len(),
    ensures
        v[i].offset + v[i].gz_len <= limit,
    decreases count,
{
    reveal(read_entry);
    let (e, rest) = read_entry(p, limit)->0;
    let w = read_entries(rest, (count - 1) as nat, limit)->0;
    assert(v == seq![e] + w);
    if i > 0 {
        lemma_entry_ends(rest, (count - 1) as nat, limit, w, i - 1);
    }
}

/// A binary's own bytes without any appended payloads, and whether it was
/// complete.
pub fn own_slim_bytes(all: Vec<u8>, embedded: &[u8]) -> (r: (Vec<u8>, bool))
    ensures
        match appended_at(all@) {
            Some(at) => r.0@ == all@.take(at) && r.1,
            None => r.0@ == all@ && r.1 == (embedded@.len() > 0),
        },
{
    match Payloads::from_file(&all) {
        Some((slim_len, _)) => {
            let slim = sub_vec(&all, 0, slim_len as usize);
            assert(slim@ =~= all@.take(slim_len as int));
            (slim, true)
        },
        None => (all, embedded.len() > 0),
    }
}

/// The target triple for a system and a machine as `uname` names them.
pub open spec fn target_of(os: Seq<char>, arch: Seq<char>) -> Option<Seq<char>> {
    if os == "Linux"@ {
        if arch == "x86_64"@ || arch == "amd64"@ {
            Some("x86_64-unknown-linux-musl"@)
        } else if arch == "aarch64"@ || arch == "arm64"@ {
            Some("aarch64-unknown-linux-musl"@)
        } else if arch == "armv7l"@ || arch == "armv7"@ {
            Some("armv7-unknown-linux-musleabihf"@)
        } else {
            None
        }
    } else if os == "Darwin"@ {
        if arch == "arm64"@ {
            Some("aarch64-apple-darwin"@)
        } else if arch == "x86_64"@ {
            Some("x86_64-apple-darwin"@)
        } else {
            None
        }
    } else {
        None
    }
}

/// Map a remote's `uname -s` / `uname -m` to a target triple.
pub fn target_for_uname(os: &str, arch: &str) -> (r: Option<&'static str>)
    ensures
        match r {
            None => target_of(os@, arch@) is None,
            Some(t) => target_of(os@, arch@) == Some(t@),
        },
{
    if same(os, "Linux") {
        if same(arch, "x86_64") || same(arch, "amd64") {
            Some("x86_64-unknown-linux-musl")
        } else if same(arch, "aarch64") || same(arch, "arm64") {
            Some("aarch64-unknown-linux-musl")
        } else if same(arch, "armv7l") || same(arch, "armv7") {
            Some("armv7-unknown-linux-musleabihf")
        } else {
            None
        }
    } else if same(os, "Darwin") {
        if same(arch, "arm64") {
            Some("aarch64-apple-darwin")
        } else if same(arch, "x86_64") {
            Some("x86_64-apple-darwin")
        } else {
            None
        }
    } else {
        None
    }
}

/// Is this an ELF target (payloads appended) rather than Mach-O?
pub fn is_elf_target(target: &str) -> (r: bool)
    ensures
        r == holds(target@, "-linux-"@),
{
    contains_text(&chars_of(target), &chars_of("-linux-"))
}

} // verus!
