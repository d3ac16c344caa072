//! What encoding and decoding promise together: a frame reads back as the
//! message it carries, wherever it stands in a stream and however the stream
//! is cut into pieces.

use super::read::{
    decoded, rd, rd_bool, rd_command, rd_hello, rd_kind, rd_mode, rd_msg, rd_resume, rd_size,
    rd_status, rd_str, rd_strs, rd_u16, rd_u32, rd_u64, rd_u8, rd_welcome, Rd,
};
use super::{
    bool_byte, frame, hello_bytes, kind_byte, mode_byte, payload, resume_bytes, size_bytes,
    status_bytes, str_bytes, strs_bytes, ty, type_byte, welcome_bytes, HelloView, MsgView,
    ProtoError, Resume, StatusView, WelcomeView, WinSize, HEADER, MAX_ARGC, MAX_FRAME, next_frame,
    Next, scan, line_end, marker_line, lemma_line_end, ready_text, MarkerView, PROTO_VERSION,
    READY_MARKER,
};
use crate::text::{dec, digits_value, lemma_one_piece, lemma_piece_more, parsed_max, split};
use crate::wire::{
    be16, be32, be64, from_be32, lemma_be16, lemma_be32, lemma_be64, lemma_cat_assoc,
    lemma_from_be16, lemma_from_be32, lemma_from_be64,
};
use vstd::prelude::*;
use vstd::utf8::{
    decode_utf8_encode_utf8, encode_utf8, encode_utf8_decode_utf8, encode_utf8_valid_utf8,
    is_ascii_chars, is_ascii_chars_encode_utf8,
};

verus! {

// ---- a field that was written reads back -----------------------------------

proof fn cut(a: Seq<u8>, tail: Seq<u8>)
    ensures
        (a + tail).take(a.len() as int) == a,
        (a + tail).skip(a.len() as int) == tail,
{
    assert((a + tail).take(a.len() as int) =~= a);
    assert((a + tail).skip(a.len() as int) =~= tail);
}

proof fn back_u8(v: u8, tail: Seq<u8>, what: &'static str)
    ensures
        rd_u8(rd(seq![v] + tail), what) == (v, rd(tail)),
{
    cut(seq![v], tail);
}

proof fn back_u16(v: u16, tail: Seq<u8>, what: &'static str)
    ensures
        rd_u16(rd(be16(v) + tail), what) == (v, rd(tail)),
{
    lemma_be16(v);
    cut(be16(v), tail);
}

proof fn back_u32(v: u32, tail: Seq<u8>, what: &'static str)
    ensures
        rd_u32(rd(be32(v) + tail), what) == (v, rd(tail)),
{
    lemma_be32(v);
    cut(be32(v), tail);
}

proof fn back_u64(v: u64, tail: Seq<u8>, what: &'static str)
    ensures
        rd_u64(rd(be64(v) + tail), what) == (v, rd(tail)),
{
    lemma_be64(v);
    cut(be64(v), tail);
}

proof fn back_str(s: Seq<char>, tail: Seq<u8>, what: &'static str)
    requires
        encode_utf8(s).len() <= u32::MAX,
    ensures
        rd_str(rd(str_bytes(s) + tail), what) == (s, rd(tail)),
{
    let b = encode_utf8(s);
    lemma_cat_assoc(be32(b.len() as u32), b, tail);
    back_u32(b.len() as u32, b + tail, what);
    cut(b, tail);
    encode_utf8_valid_utf8(s);
    encode_utf8_decode_utf8(s);
}

proof fn back_size(s: WinSize, tail: Seq<u8>)
    ensures
        rd_size(rd(size_bytes(s) + tail)) == (s, rd(tail)),
{
    broadcast use lemma_cat_assoc;

    back_u16(s.cols, be16(s.rows) + (be16(s.xpixel) + (be16(s.ypixel) + tail)), "cols");
    back_u16(s.rows, be16(s.xpixel) + (be16(s.ypixel) + tail), "rows");
    back_u16(s.xpixel, be16(s.ypixel) + tail, "xpixel");
    back_u16(s.ypixel, tail, "ypixel");
}

proof fn back_resume(r: Option<Resume>, tail: Seq<u8>)
    ensures
        rd_resume(rd(resume_bytes(r) + tail)) == (r, rd(tail)),
{
    broadcast use lemma_cat_assoc;

    match r {
        None => {
            back_u8(0, tail, "resume");
        },
        Some(x) => {
            back_u8(1, be64(x.instance) + (be64(x.offset) + tail), "resume");
            back_u64(x.instance, be64(x.offset) + tail, "instance");
            back_u64(x.offset, tail, "offset");
        },
    }
}

proof fn back_strs(v: Seq<Seq<char>>, tail: Seq<u8>, what: &'static str)
    requires
        strs_bytes(v).len() <= u32::MAX,
    ensures
        rd_strs(rd(strs_bytes(v) + tail), v.len(), what) == (v, rd(tail)),
    decreases v.len(),
{
    if v.len() == 0 {
        assert(strs_bytes(v) + tail =~= tail);
        assert(v =~= Seq::empty());
    } else {
        let more = strs_bytes(v.skip(1));
        lemma_cat_assoc(str_bytes(v[0]), more, tail);
        back_str(v[0], more + tail, what);
        back_strs(v.skip(1), tail, what);
        assert(seq![v[0]] + v.skip(1) =~= v);
    }
}

proof fn back_hello(h: HelloView)
    requires
        hello_bytes(h).len() <= u32::MAX,
        h.command.len() <= MAX_ARGC,
    ensures
        rd_hello(rd(hello_bytes(h))) == (h, rd(Seq::empty())),
{
    reveal(rd_hello);
    let none = Seq::<u8>::empty();
    let t9 = strs_bytes(h.command);
    assert(t9 + none =~= t9);
    let t8 = be32(h.command.len() as u32) + t9;
    let t7 = resume_bytes(h.resume) + t8;
    let t6 = size_bytes(h.size) + t7;
    let t5 = str_bytes(h.colorterm) + t6;
    let t4 = str_bytes(h.term) + t5;
    let t3 = seq![bool_byte(h.force)] + t4;
    let t2 = str_bytes(h.identity) + t3;
    let t1 = seq![mode_byte(h.mode)] + t2;
    let t0 = str_bytes(h.session) + t1;
    back_u16(h.proto, t0, "proto");
    back_str(h.session, t1, "session");
    back_u8(mode_byte(h.mode), t2, "mode");
    back_str(h.identity, t3, "identity");
    back_u8(bool_byte(h.force), t4, "force");
    back_str(h.term, t5, "term");
    back_str(h.colorterm, t6, "colorterm");
    back_size(h.size, t7);
    back_resume(h.resume, t8);
    back_u32(h.command.len() as u32, t9, "argc");
    back_strs(h.command, none, "argv");
}

proof fn back_welcome(w: WelcomeView)
    requires
        welcome_bytes(w).len() <= u32::MAX,
    ensures
        rd_welcome(rd(welcome_bytes(w))) == (w, rd(Seq::empty())),
{
    reveal(rd_welcome);
    let none = Seq::<u8>::empty();
    let t5 = be64(w.input_seq);
    assert(t5 + none =~= t5);
    let t4 = seq![kind_byte(w.kind)] + t5;
    let t3 = seq![bool_byte(w.created)] + t4;
    let t2 = be64(w.offset) + t3;
    let t1 = be64(w.instance) + t2;
    let t0 = str_bytes(w.session) + t1;
    back_u16(w.proto, t0, "proto");
    back_str(w.session, t1, "session");
    back_u64(w.instance, t2, "instance");
    back_u64(w.offset, t3, "offset");
    back_u8(bool_byte(w.created), t4, "created");
    back_u8(kind_byte(w.kind), t5, "kind");
    back_u64(w.input_seq, none, "input_seq");
}

proof fn back_status(s: StatusView)
    requires
        status_bytes(s).len() <= u32::MAX,
    ensures
        rd_status(rd(status_bytes(s))) == (s, rd(Seq::empty())),
{
    reveal(rd_status);
    let none = Seq::<u8>::empty();
    let t8 = be32(s.pid);
    assert(t8 + none =~= t8);
    let t7 = str_bytes(s.version) + t8;
    let t6 = size_bytes(s.size) + t7;
    let t5 = str_bytes(s.command) + t6;
    let t4 = be64(s.idle_secs) + t5;
    let t3 = be64(s.created_at) + t4;
    let t2 = str_bytes(s.creator) + t3;
    let t1 = str_bytes(s.identity) + t2;
    let t0 = seq![bool_byte(s.attached)] + t1;
    back_str(s.name, t0, "name");
    back_u8(bool_byte(s.attached), t1, "attached");
    back_str(s.identity, t2, "identity");
    back_str(s.creator, t3, "creator");
    back_u64(s.created_at, t4, "created_at");
    back_u64(s.idle_secs, t5, "idle");
    back_str(s.command, t6, "command");
    back_size(s.size, t7);
    back_str(s.version, t8, "version");
    back_u32(s.pid, none, "pid");
}

/// A message whose frame a decoder accepts: its payload is not over the
/// limit, and a HELLO's command has no more words than a frame may carry.
pub open spec fn sendable(m: MsgView) -> bool {
    &&& payload(m).len() <= MAX_FRAME
    &&& m matches MsgView::Hello(h) ==> h.command.len() <= MAX_ARGC
}

/// The payload of every message reads back as that message.
pub proof fn law_payload_reads_back(m: MsgView)
    requires
        sendable(m),
    ensures
        decoded(type_byte(m), payload(m)) == Ok::<MsgView, ProtoError>(m),
{
    reveal(rd_msg);
    let none = Seq::<u8>::empty();
    match m {
        MsgView::Hello(h) => back_hello(h),
        MsgView::Welcome(w) => back_welcome(w),
        MsgView::Busy { identity, since } => {
            assert(be64(since) + none =~= be64(since));
            back_str(identity, be64(since), "identity");
            back_u64(since, none, "since");
        },
        MsgView::Data { offset, bytes } => back_u64(offset, bytes, "offset"),
        MsgView::Input { seq, bytes } => back_u64(seq, bytes, "seq"),
        MsgView::Ack { seq } => {
            assert(be64(seq) + none =~= be64(seq));
            back_u64(seq, none, "seq");
        },
        MsgView::Resize(s) => {
            assert(size_bytes(s) + none =~= size_bytes(s));
            back_size(s, none);
        },
        MsgView::Ping(n) => {
            assert(be64(n) + none =~= be64(n));
            back_u64(n, none, "nonce");
        },
        MsgView::Pong(n) => {
            assert(be64(n) + none =~= be64(n));
            back_u64(n, none, "nonce");
        },
        MsgView::Exit { status } => {
            assert(be32(status as u32) + none =~= be32(status as u32));
            back_u32(status as u32, none, "status");
            assert((status as u32) as i32 == status) by (bit_vector);
        },
        MsgView::StatusReply(s) => back_status(s),
        MsgView::Error { code, message } => {
            assert(str_bytes(message) + none =~= str_bytes(message));
            back_u16(code, str_bytes(message), "code");
            back_str(message, none, "message");
        },
        _ => {},
    }
}

// ---- a field that reads was written so -------------------------------------

proof fn joined(s: Seq<u8>, n: int)
    requires
        0 <= n <= s.len(),
    ensures
        s == s.take(n) + s.skip(n),
{
    assert(s =~= s.take(n) + s.skip(n));
}

proof fn from_u8(r: Rd, what: &'static str)
    requires
        rd_u8(r, what).1.err is None,
    ensures
        r == rd(seq![rd_u8(r, what).0] + rd_u8(r, what).1.rest),
{
    joined(r.rest, 1);
    assert(r.rest.take(1) =~= seq![r.rest[0]]);
}

proof fn from_u16(r: Rd, what: &'static str)
    requires
        rd_u16(r, what).1.err is None,
    ensures
        r == rd(be16(rd_u16(r, what).0) + rd_u16(r, what).1.rest),
{
    joined(r.rest, 2);
    lemma_from_be16(r.rest.take(2));
}

proof fn from_u32(r: Rd, what: &'static str)
    requires
        rd_u32(r, what).1.err is None,
    ensures
        r == rd(be32(rd_u32(r, what).0) + rd_u32(r, what).1.rest),
{
    joined(r.rest, 4);
    lemma_from_be32(r.rest.take(4));
}

proof fn from_u64(r: Rd, what: &'static str)
    requires
        rd_u64(r, what).1.err is None,
    ensures
        r == rd(be64(rd_u64(r, what).0) + rd_u64(r, what).1.rest),
{
    joined(r.rest, 8);
    lemma_from_be64(r.rest.take(8));
}

proof fn from_str(r: Rd, what: &'static str)
    requires
        rd_str(r, what).1.err is None,
    ensures
        r == rd(str_bytes(rd_str(r, what).0) + rd_str(r, what).1.rest),
{
    let (n, r1) = rd_u32(r, what);
    from_u32(r, what);
    let b = r1.rest.take(n as int);
    joined(r1.rest, n as int);
    decode_utf8_encode_utf8(b);
    lemma_cat_assoc(be32(n), b, r1.rest.skip(n as int));
}

proof fn from_bool(r: Rd, what: &'static str)
    requires
        rd_bool(r, what).1.err is None,
    ensures
        r == rd(seq![bool_byte(rd_bool(r, what).0)] + rd_bool(r, what).1.rest),
{
    from_u8(r, what);
}

proof fn from_mode(r: Rd)
    requires
        rd_mode(r).1.err is None,
    ensures
        r == rd(seq![mode_byte(rd_mode(r).0)] + rd_mode(r).1.rest),
{
    from_u8(r, "mode");
}

proof fn from_kind(r: Rd)
    requires
        rd_kind(r).1.err is None,
    ensures
        r == rd(seq![kind_byte(rd_kind(r).0)] + rd_kind(r).1.rest),
{
    from_u8(r, "kind");
}

proof fn from_size(r: Rd)
    requires
        rd_size(r).1.err is None,
    ensures
        r == rd(size_bytes(rd_size(r).0) + rd_size(r).1.rest),
{
    broadcast use lemma_cat_assoc;

    let (cols, r1) = rd_u16(r, "cols");
    let (rows, r2) = rd_u16(r1, "rows");
    let (xpixel, r3) = rd_u16(r2, "xpixel");
    let (ypixel, r4) = rd_u16(r3, "ypixel");
    from_u16(r, "cols");
    from_u16(r1, "rows");
    from_u16(r2, "xpixel");
    from_u16(r3, "ypixel");
}

proof fn from_resume(r: Rd)
    requires
        rd_resume(r).1.err is None,
    ensures
        r == rd(resume_bytes(rd_resume(r).0) + rd_resume(r).1.rest),
{
    broadcast use lemma_cat_assoc;

    let (b, r1) = rd_bool(r, "resume");
    from_bool(r, "resume");
    if b {
        let (instance, r2) = rd_u64(r1, "instance");
        from_u64(r1, "instance");
        from_u64(r2, "offset");
    }
}

proof fn from_strs(r: Rd, n: nat, what: &'static str)
    requires
        rd_strs(r, n, what).1.err is None,
    ensures
        rd_strs(r, n, what).0.len() == n,
        r == rd(strs_bytes(rd_strs(r, n, what).0) + rd_strs(r, n, what).1.rest),
    decreases n,
{
    let (v, end) = rd_strs(r, n, what);
    if n == 0 {
        assert(Seq::<u8>::empty() + end.rest =~= end.rest);
    } else {
        assert(r.err is None);
        let (s, r1) = rd_str(r, what);
        let (w, r2) = rd_strs(r1, (n - 1) as nat, what);
        assert(r1.err is None);
        from_str(r, what);
        from_strs(r1, (n - 1) as nat, what);
        assert(v == seq![s] + w);
        assert(v.skip(1) =~= w);
        assert(v[0] == s);
        lemma_cat_assoc(str_bytes(s), strs_bytes(w), r2.rest);
    }
}

proof fn from_command(r: Rd)
    requires
        rd_command(r).1.err is None,
    ensures
        rd_command(r).0.len() <= MAX_ARGC,
        r == rd(
            be32(rd_command(r).0.len() as u32) + (strs_bytes(rd_command(r).0)
                + rd_command(r).1.rest),
        ),
{
    let (n, r1) = rd_u32(r, "argc");
    assert(r1.err is None);
    from_u32(r, "argc");
    from_strs(r1, n as nat, "argv");
}

proof fn from_hello(r: Rd)
    requires
        rd_hello(r).1.err is None,
    ensures
        rd_hello(r).0.command.len() <= MAX_ARGC,
        r == rd(hello_bytes(rd_hello(r).0) + rd_hello(r).1.rest),
{
    reveal(rd_hello);
    broadcast use lemma_cat_assoc;

    let r1 = rd_u16(r, "proto").1;
    let r2 = rd_str(r1, "session").1;
    let r3 = rd_mode(r2).1;
    let r4 = rd_str(r3, "identity").1;
    let r5 = rd_bool(r4, "force").1;
    let r6 = rd_str(r5, "term").1;
    let r7 = rd_str(r6, "colorterm").1;
    let r8 = rd_size(r7).1;
    let r9 = rd_resume(r8).1;
    from_command(r9);
    from_resume(r8);
    from_size(r7);
    from_str(r6, "colorterm");
    from_str(r5, "term");
    from_bool(r4, "force");
    from_str(r3, "identity");
    from_mode(r2);
    from_str(r1, "session");
    from_u16(r, "proto");
}

proof fn from_welcome(r: Rd)
    requires
        rd_welcome(r).1.err is None,
    ensures
        r == rd(welcome_bytes(rd_welcome(r).0) + rd_welcome(r).1.rest),
{
    reveal(rd_welcome);
    broadcast use lemma_cat_assoc;

    let r1 = rd_u16(r, "proto").1;
    let r2 = rd_str(r1, "session").1;
    let r3 = rd_u64(r2, "instance").1;
    let r4 = rd_u64(r3, "offset").1;
    let r5 = rd_bool(r4, "created").1;
    let r6 = rd_kind(r5).1;
    from_u64(r6, "input_seq");
    from_kind(r5);
    from_bool(r4, "created");
    from_u64(r3, "offset");
    from_u64(r2, "instance");
    from_str(r1, "session");
    from_u16(r, "proto");
}

proof fn from_status(r: Rd)
    requires
        rd_status(r).1.err is None,
    ensures
        r == rd(status_bytes(rd_status(r).0) + rd_status(r).1.rest),
{
    reveal(rd_status);
    broadcast use lemma_cat_assoc;

    let r1 = rd_str(r, "name").1;
    let r2 = rd_bool(r1, "attached").1;
    let r3 = rd_str(r2, "identity").1;
    let r4 = rd_str(r3, "creator").1;
    let r5 = rd_u64(r4, "created_at").1;
    let r6 = rd_u64(r5, "idle").1;
    let r7 = rd_str(r6, "command").1;
    let r8 = rd_size(r7).1;
    let r9 = rd_str(r8, "version").1;
    from_u32(r9, "pid");
    from_str(r8, "version");
    from_size(r7);
    from_str(r6, "command");
    from_u64(r5, "idle");
    from_u64(r4, "created_at");
    from_str(r3, "creator");
    from_str(r2, "identity");
    from_bool(r1, "attached");
    from_str(r, "name");
}

/// A payload that is accepted is the one payload of the message it reads as, and its
/// frame the one frame: no two frames read as the same message.
pub proof fn law_decoding_is_exact(t: u8, p: Seq<u8>, m: MsgView)
    requires
        decoded(t, p) == Ok::<MsgView, ProtoError>(m),
    ensures
        type_byte(m) == t,
        payload(m) == p,
        frame(m) == seq![t] + be32(p.len() as u32) + p,
{
    reveal(rd_msg);
    let r = rd(p);
    let rest = rd_msg(t, r).1.rest;
    assert(rest =~= Seq::<u8>::empty());
    assert(rd_msg(t, r).1.err is None);
    if t == ty::HELLO {
        from_hello(r);
    } else if t == ty::WELCOME {
        from_welcome(r);
    } else if t == ty::BUSY {
        let r1 = rd_str(r, "identity").1;
        from_u64(r1, "since");
        from_str(r, "identity");
        lemma_cat_assoc(str_bytes(m->Busy_identity), be64(m->since), rest);
    } else if t == ty::DATA {
        from_u64(r, "offset");
    } else if t == ty::INPUT {
        from_u64(r, "seq");
    } else if t == ty::ACK {
        from_u64(r, "seq");
    } else if t == ty::RESIZE {
        from_size(r);
    } else if t == ty::PING || t == ty::PONG {
        from_u64(r, "nonce");
    } else if t == ty::EXIT {
        let s: u32 = rd_u32(r, "status").0;
        from_u32(r, "status");
        assert((s as i32) as u32 == s) by (bit_vector);
    } else if t == ty::STATUS_REPLY {
        from_status(r);
    } else if t == ty::ERROR {
        let r1 = rd_u16(r, "code").1;
        from_str(r1, "message");
        from_u16(r, "code");
        lemma_cat_assoc(be16(m->code), str_bytes(m->message), rest);
    }
    assert(payload(m) + rest =~= payload(m));
    assert(seq![t] + (be32(p.len() as u32) + p) =~= seq![t] + be32(p.len() as u32) + p);
}

// ---- streams ---------------------------------------------------------------

/// The frame at the head of a stream is the one that was written there,
/// whatever follows it.
pub proof fn law_frame_reads_back(m: MsgView, rest: Seq<u8>)
    requires
        sendable(m),
    ensures
        next_frame(frame(m) + rest) == Next::Got(m, frame(m).len() as int),
{
    let p = payload(m);
    let s = frame(m) + rest;
    lemma_be32(p.len() as u32);
    assert(s.subrange(1, HEADER as int) =~= be32(p.len() as u32));
    assert(s.subrange(HEADER as int, HEADER + p.len()) =~= p);
    law_payload_reads_back(m);
}

/// An unfinished frame is waited for.
pub proof fn law_part_of_a_frame_is_waited_for(m: MsgView, k: int)
    requires
        sendable(m),
        0 <= k < frame(m).len(),
    ensures
        next_frame(frame(m).take(k)) == Next::More,
{
    let p = payload(m);
    lemma_be32(p.len() as u32);
    if k >= HEADER {
        assert(frame(m).take(k).subrange(1, HEADER as int) =~= be32(p.len() as u32));
    }
}

/// Whatever the head of a stream has been found to be, more bytes behind it
/// do not change: only an unfinished frame is waiting for them.
pub proof fn law_more_bytes_change_nothing(s: Seq<u8>, more: Seq<u8>)
    requires
        next_frame(s) != Next::More,
    ensures
        next_frame(s + more) == next_frame(s),
{
    let len = from_be32(s.subrange(1, HEADER as int));
    assert((s + more).subrange(1, HEADER as int) =~= s.subrange(1, HEADER as int));
    if len <= MAX_FRAME {
        assert((s + more).subrange(HEADER as int, HEADER + len) =~= s.subrange(
            HEADER as int,
            HEADER + len,
        ));
    }
}

/// The frames of `v`, one after the other.
pub open spec fn frames(v: Seq<MsgView>) -> Seq<u8>
    decreases v.len(),
{
    if v.len() == 0 {
        Seq::empty()
    } else {
        frame(v[0]) + frames(v.skip(1))
    }
}

/// Every message that can be taken off the head of a stream.
pub open spec fn messages(s: Seq<u8>) -> Seq<MsgView>
    decreases s.len(),
{
    match next_frame(s) {
        Next::Got(m, n) => if 0 < n <= s.len() {
            seq![m] + messages(s.skip(n))
        } else {
            Seq::empty()
        },
        _ => Seq::empty(),
    }
}

/// A stream of frames reads back as the messages it was made of, in order.
pub proof fn law_stream_reads_back(v: Seq<MsgView>)
    requires
        forall|i: int| 0 <= i < v.len() ==> sendable(#[trigger] v[i]),
    ensures
        messages(frames(v)) == v,
    decreases v.len(),
{
    if v.len() == 0 {
        assert(messages(frames(v)) =~= v);
    } else {
        let w = v.skip(1);
        assert forall|i: int| 0 <= i < w.len() implies sendable(#[trigger] w[i]) by {
            assert(w[i] == v[i + 1]);
        }
        law_stream_reads_back(w);
        law_frame_reads_back(v[0], frames(w));
        cut(frame(v[0]), frames(w));
        assert(seq![v[0]] + w =~= v);
    }
}

// ---- the marker ------------------------------------------------------------

/// `m` as it would be found with `more` behind what it was found in.
pub open spec fn with_more(m: MarkerView, more: Seq<u8>) -> MarkerView {
    match m {
        MarkerView::Ready { proto, rest } => MarkerView::Ready { proto, rest: rest + more },
        need => need,
    }
}

/// A marker that was found stays found: more bytes only follow it.
pub proof fn law_marker_stays_found(s: Seq<u8>, at: int, more: Seq<u8>)
    requires
        0 <= at <= s.len(),
        scan(s, at).0 is Some,
    ensures
        scan(s + more, at) == (Some(with_more(scan(s, at).0->0, more)), scan(s, at).1),
    decreases s.len() - at,
{
    lemma_line_end(s, at);
    let end = line_end(s, at);
    lemma_line_end_before(s, at, more);
    assert((s + more).subrange(at, end) =~= s.subrange(at, end));
    assert((s + more).skip(end + 1) =~= s.skip(end + 1) + more);
    if marker_line(s.subrange(at, end), s.skip(end + 1)) is None {
        law_marker_stays_found(s, end + 1, more);
    }
}

proof fn lemma_line_end_before(s: Seq<u8>, at: int, more: Seq<u8>)
    requires
        0 <= at <= s.len(),
        line_end(s, at) < s.len(),
    ensures
        line_end(s + more, at) == line_end(s, at),
    decreases s.len() - at,
{
    if at < s.len() && s[at] != 10 {
        lemma_line_end_before(s, at + 1, more);
    }
}

/// A stream in which no marker was found yet is looked at from its unfinished
/// line on: the marker found is the same as if nothing had been cut.
pub proof fn law_marker_in_pieces(s: Seq<u8>, at: int, more: Seq<u8>)
    requires
        0 <= at <= s.len(),
        scan(s, at).0 is None,
    ensures
        at <= scan(s, at).1 <= s.len(),
        scan(s + more, at).0 == scan(s.skip(scan(s, at).1) + more, 0).0,
        scan(s + more, at).1 == scan(s, at).1 + scan(s.skip(scan(s, at).1) + more, 0).1,
    decreases s.len() - at,
{
    lemma_line_end(s, at);
    let end = line_end(s, at);
    if end >= s.len() {
        assert(s.skip(at) + more =~= (s + more).skip(at));
        lemma_scan_shift(s + more, at, at);
    } else {
        lemma_line_end_before(s, at, more);
        assert((s + more).subrange(at, end) =~= s.subrange(at, end));
        assert(marker_line(s.subrange(at, end), s.skip(end + 1)) is None);
        assert(marker_line((s + more).subrange(at, end), (s + more).skip(end + 1)) is None);
        law_marker_in_pieces(s, end + 1, more);
    }
}

proof fn lemma_scan_shift(s: Seq<u8>, cut: int, at: int)
    requires
        0 <= cut <= at <= s.len(),
    ensures
        scan(s.skip(cut), at - cut).0 == scan(s, at).0,
        scan(s.skip(cut), at - cut).1 == scan(s, at).1 - cut,
    decreases s.len() - at,
{
    let t = s.skip(cut);
    lemma_line_end(s, at);
    lemma_line_end_shift(s, cut, at);
    let end = line_end(s, at);
    if end < s.len() {
        assert(t.subrange(at - cut, end - cut) =~= s.subrange(at, end));
        assert(t.skip(end - cut + 1) =~= s.skip(end + 1));
        if marker_line(s.subrange(at, end), s.skip(end + 1)) is None {
            lemma_scan_shift(s, cut, end + 1);
        }
    }
}

proof fn lemma_line_end_shift(s: Seq<u8>, cut: int, at: int)
    requires
        0 <= cut <= at <= s.len(),
    ensures
        line_end(s.skip(cut), at - cut) == line_end(s, at) - cut,
    decreases s.len() - at,
{
    if at < s.len() && s[at] != 10 {
        lemma_line_end_shift(s, cut, at + 1);
    }
}

/// The line that says acs is ready is `ACS-READY` and the protocol's version, and a
/// scanner reads it back as that, with everything behind it as the rest.
pub proof fn law_the_ready_line_is_read_back(rest: Seq<u8>)
    ensures
        ready_text() == "ACS-READY 1\n"@,
        scan(encode_utf8(ready_text()) + rest, 0) == (
            Some(MarkerView::Ready { proto: PROTO_VERSION, rest }),
            0int,
        ),
{
    reveal_strlit("ACS-READY 1\n");
    reveal_strlit("ACS-READY");
    reveal_strlit(" ");
    reveal_strlit("\n");
    let name = READY_MARKER@;
    let digits = dec(PROTO_VERSION as nat);
    let t = ready_text();
    assert(digits =~= seq!['1']);
    assert(t =~= "ACS-READY 1\n"@);
    let words = name.push(' ') + digits;
    assert(t =~= words.push('\n'));
    assert(is_ascii_chars(t));
    assert(is_ascii_chars(words)) by {
        assert forall|i: int| 0 <= i < words.len() implies '\0' <= #[trigger] words[i]
            <= '\u{7f}' by {
            assert(words[i] == t[i]);
        }
    }
    is_ascii_chars_encode_utf8(t);
    is_ascii_chars_encode_utf8(words);
    let s = encode_utf8(t) + rest;
    let n = words.len() as int;
    assert forall|i: int| 0 <= i < n implies s[i] == words[i] as u8 && s[i] != 10 by {
        assert(t[i] == words[i]);
        assert(encode_utf8(t)[i] == t[i] as u8);
    }
    assert(encode_utf8(t)[n] == t[n] as u8);
    assert(s[n] == 10);
    lemma_line_end(s, 0);
    assert(line_end(s, 0) == n);
    let line = s.subrange(0, n);
    assert forall|i: int| 0 <= i < n implies line[i] == encode_utf8(words)[i] by {
        assert(encode_utf8(words)[i] == words[i] as u8);
    }
    assert(line =~= encode_utf8(words));
    encode_utf8_valid_utf8(words);
    encode_utf8_decode_utf8(words);
    assert(words.last() == '1');
    lemma_one_piece(name, ' ');
    lemma_piece_more(name, ' ', digits);
    assert(split(words, ' ') =~= seq![name, digits]);
    reveal_with_fuel(digits_value, 2);
    assert(digits.drop_last() =~= Seq::empty());
    assert(parsed_max(digits, u16::MAX as nat) == Some(1nat));
    assert(s.skip(n + 1) =~= rest);
}

} // verus!
