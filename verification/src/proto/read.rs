//! Reading a frame's payload, field after field. The first field that cannot
//! be read decides the error.

use super::laws::law_decoding_is_exact;
use super::{
    frame, ty, AttachKind, Hello, HelloView, Mode, Msg, MsgView, ProtoError, Resume, StatusInfo,
    StatusView, Welcome, WelcomeView, WinSize, MAX_ARGC,
};
use crate::text::{sub_vec, texts, utf8_string};
use crate::wire::{be32, from_be16, from_be32, from_be64, get_u16, get_u32, get_u64};
use vstd::prelude::*;
use vstd::utf8::{decode_utf8, valid_utf8};

verus! {

/// A reader: the bytes not read yet, and the error of the first field that
/// could not be read. After an error nothing more is read.
pub struct Rd {
    pub rest: Seq<u8>,
    pub err: Option<ProtoError>,
}

pub open spec fn rd(rest: Seq<u8>) -> Rd {
    Rd { rest, err: None }
}

pub open spec fn fail(r: Rd, e: ProtoError) -> Rd {
    if r.err is Some {
        r
    } else {
        Rd { rest: r.rest, err: Some(e) }
    }
}

pub open spec fn rd_take(r: Rd, n: nat, what: &'static str) -> (Seq<u8>, Rd) {
    if r.err is Some {
        (Seq::empty(), r)
    } else if r.rest.len() < n {
        (Seq::empty(), fail(r, ProtoError::Truncated(what)))
    } else {
        (r.rest.take(n as int), rd(r.rest.skip(n as int)))
    }
}

pub open spec fn rd_u8(r: Rd, what: &'static str) -> (u8, Rd) {
    let (b, r) = rd_take(r, 1, what);
    (b[0], r)
}

pub open spec fn rd_u16(r: Rd, what: &'static str) -> (u16, Rd) {
    let (b, r) = rd_take(r, 2, what);
    (from_be16(b), r)
}

pub open spec fn rd_u32(r: Rd, what: &'static str) -> (u32, Rd) {
    let (b, r) = rd_take(r, 4, what);
    (from_be32(b), r)
}

pub open spec fn rd_u64(r: Rd, what: &'static str) -> (u64, Rd) {
    let (b, r) = rd_take(r, 8, what);
    (from_be64(b), r)
}

pub open spec fn rd_str(r: Rd, what: &'static str) -> (Seq<char>, Rd) {
    let (n, r) = rd_u32(r, what);
    let (b, r) = rd_take(r, n as nat, what);
    (decode_utf8(b), if valid_utf8(b) {
        r
    } else {
        fail(r, ProtoError::BadUtf8)
    })
}

pub open spec fn rd_bool(r: Rd, what: &'static str) -> (bool, Rd) {
    let (b, r) = rd_u8(r, what);
    (b == 1, if b <= 1 {
        r
    } else {
        fail(r, ProtoError::BadValue(what))
    })
}

pub open spec fn rd_size(r: Rd) -> (WinSize, Rd) {
    let (cols, r) = rd_u16(r, "cols");
    let (rows, r) = rd_u16(r, "rows");
    let (xpixel, r) = rd_u16(r, "xpixel");
    let (ypixel, r) = rd_u16(r, "ypixel");
    (WinSize { cols, rows, xpixel, ypixel }, r)
}

pub open spec fn rd_mode(r: Rd) -> (Mode, Rd) {
    let (b, r) = rd_u8(r, "mode");
    (
        if b == 0 {
            Mode::Attach
        } else if b == 1 {
            Mode::Create
        } else {
            Mode::AttachOrCreate
        },
        if b <= 2 {
            r
        } else {
            fail(r, ProtoError::BadValue("mode"))
        },
    )
}

pub open spec fn rd_kind(r: Rd) -> (AttachKind, Rd) {
    let (b, r) = rd_u8(r, "kind");
    (
        if b == 0 {
            AttachKind::Fresh
        } else if b == 1 {
            AttachKind::Resumed
        } else {
            AttachKind::Gap
        },
        if b <= 2 {
            r
        } else {
            fail(r, ProtoError::BadValue("kind"))
        },
    )
}

pub open spec fn rd_resume(r: Rd) -> (Option<Resume>, Rd) {
    let (b, r) = rd_bool(r, "resume");
    if b {
        let (instance, r) = rd_u64(r, "instance");
        let (offset, r) = rd_u64(r, "offset");
        (Some(Resume { instance, offset }), r)
    } else {
        (None, r)
    }
}

/// `n` strings, one after the other.
pub open spec fn rd_strs(r: Rd, n: nat, what: &'static str) -> (Seq<Seq<char>>, Rd)
    decreases n,
{
    if n == 0 || r.err is Some {
        (Seq::empty(), r)
    } else {
        let (s, r) = rd_str(r, what);
        let (v, r) = rd_strs(r, (n - 1) as nat, what);
        (seq![s] + v, r)
    }
}

pub open spec fn rd_command(r: Rd) -> (Seq<Seq<char>>, Rd) {
    let (n, r) = rd_u32(r, "argc");
    if n > MAX_ARGC {
        (Seq::empty(), fail(r, ProtoError::BadValue("argc")))
    } else {
        rd_strs(r, n as nat, "argv")
    }
}

#[verifier::opaque]
pub open spec fn rd_hello(r: Rd) -> (HelloView, Rd) {
    let (proto, r) = rd_u16(r, "proto");
    let (session, r) = rd_str(r, "session");
    let (mode, r) = rd_mode(r);
    let (identity, r) = rd_str(r, "identity");
    let (force, r) = rd_bool(r, "force");
    let (term, r) = rd_str(r, "term");
    let (colorterm, r) = rd_str(r, "colorterm");
    let (size, r) = rd_size(r);
    let (resume, r) = rd_resume(r);
    let (command, r) = rd_command(r);
    (
        HelloView {
            proto,
            session,
            mode,
            identity,
            force,
            term,
            colorterm,
            size,
            resume,
            command,
        },
        r,
    )
}

#[verifier::opaque]
pub open spec fn rd_welcome(r: Rd) -> (WelcomeView, Rd) {
    let (proto, r) = rd_u16(r, "proto");
    let (session, r) = rd_str(r, "session");
    let (instance, r) = rd_u64(r, "instance");
    let (offset, r) = rd_u64(r, "offset");
    let (created, r) = rd_bool(r, "created");
    let (kind, r) = rd_kind(r);
    let (input_seq, r) = rd_u64(r, "input_seq");
    (WelcomeView { proto, session, instance, offset, created, kind, input_seq }, r)
}

#[verifier::opaque]
pub open spec fn rd_status(r: Rd) -> (StatusView, Rd) {
    let (name, r) = rd_str(r, "name");
    let (attached, r) = rd_bool(r, "attached");
    let (identity, r) = rd_str(r, "identity");
    let (creator, r) = rd_str(r, "creator");
    let (created_at, r) = rd_u64(r, "created_at");
    let (idle_secs, r) = rd_u64(r, "idle");
    let (command, r) = rd_str(r, "command");
    let (size, r) = rd_size(r);
    let (version, r) = rd_str(r, "version");
    let (pid, r) = rd_u32(r, "pid");
    (
        StatusView {
            name,
            attached,
            identity,
            creator,
            created_at,
            idle_secs,
            command,
            size,
            version,
            pid,
        },
        r,
    )
}

/// What the payload of a frame of type `t` reads as, and what is left of it.
#[verifier::opaque]
pub open spec fn rd_msg(t: u8, r: Rd) -> (MsgView, Rd) {
    if t == ty::HELLO {
        let (h, r) = rd_hello(r);
        (MsgView::Hello(h), r)
    } else if t == ty::WELCOME {
        let (w, r) = rd_welcome(r);
        (MsgView::Welcome(w), r)
    } else if t == ty::BUSY {
        let (identity, r) = rd_str(r, "identity");
        let (since, r) = rd_u64(r, "since");
        (MsgView::Busy { identity, since }, r)
    } else if t == ty::DATA {
        let (offset, r) = rd_u64(r, "offset");
        (MsgView::Data { offset, bytes: r.rest }, Rd { rest: Seq::empty(), err: r.err })
    } else if t == ty::INPUT {
        let (seq, r) = rd_u64(r, "seq");
        (MsgView::Input { seq, bytes: r.rest }, Rd { rest: Seq::empty(), err: r.err })
    } else if t == ty::ACK {
        let (seq, r) = rd_u64(r, "seq");
        (MsgView::Ack { seq }, r)
    } else if t == ty::RESIZE {
        let (s, r) = rd_size(r);
        (MsgView::Resize(s), r)
    } else if t == ty::PING {
        let (n, r) = rd_u64(r, "nonce");
        (MsgView::Ping(n), r)
    } else if t == ty::PONG {
        let (n, r) = rd_u64(r, "nonce");
        (MsgView::Pong(n), r)
    } else if t == ty::DETACH {
        (MsgView::Detach, r)
    } else if t == ty::KILL {
        (MsgView::Kill, r)
    } else if t == ty::EXIT {
        let (status, r) = rd_u32(r, "status");
        (MsgView::Exit { status: status as i32 }, r)
    } else if t == ty::TAKEOVER {
        (MsgView::Takeover, r)
    } else if t == ty::STATUS {
        (MsgView::Status, r)
    } else if t == ty::STATUS_REPLY {
        let (s, r) = rd_status(r);
        (MsgView::StatusReply(s), r)
    } else if t == ty::ERROR {
        let (code, r) = rd_u16(r, "code");
        let (message, r) = rd_str(r, "message");
        (MsgView::Error { code, message }, r)
    } else {
        (MsgView::Detach, fail(r, ProtoError::UnknownType(t)))
    }
}

/// The message that a frame of type `t` with payload `p` carries: the whole
/// payload is read, and nothing is left.
pub open spec fn decoded(t: u8, p: Seq<u8>) -> Result<MsgView, ProtoError> {
    let (m, r) = rd_msg(t, rd(p));
    match r.err {
        Some(e) => Err(e),
        None => if r.rest.len() > 0 {
            Err(ProtoError::Trailing(t))
        } else {
            Ok(m)
        },
    }
}

/// A position in a payload.
pub(super) struct Reader<'a> {
    buf: &'a [u8],
    pos: usize,
}

/// What a read from `before` that should give what `want` says gave: the
/// value, with the reader moved on, or the error.
spec fn reads<T, V>(res: Result<T, ProtoError>, value: V, want: (V, Rd), after: Rd) -> bool {
    match res {
        Ok(_) => want == (value, after),
        Err(e) => want.1.err == Some(e),
    }
}

impl<'a> Reader<'a> {
    pub(super) closed spec fn wf(&self) -> bool {
        self.pos <= self.buf.len()
    }

    /// The reader as [`Rd`] describes it.
    pub(super) closed spec fn rd(&self) -> Rd {
        rd(self.buf@.skip(self.pos as int))
    }

    fn take(&mut self, n: usize, what: &'static str) -> (res: Result<usize, ProtoError>)
        requires
            old(self).wf(),
        ensures
            final(self).wf(),
            final(self).buf == old(self).buf,
            match res {
                Ok(at) => at + n <= final(self).buf.len() && rd_take(old(self).rd(), n as nat, what)
                    == (final(self).buf@.subrange(at as int, at + n), final(self).rd()),
                Err(e) => rd_take(old(self).rd(), n as nat, what).1.err == Some(e),
            },
    {
        if self.buf.len() - self.pos < n {
            return Err(ProtoError::Truncated(what));
        }
        let at: usize = self.pos;
        self.pos = at + n;
        proof {
            let s = self.buf@.skip(at as int);
            assert(s.take(n as int) =~= self.buf@.subrange(at as int, at + n));
            assert(s.skip(n as int) =~= self.buf@.skip(at + n));
        }
        Ok(at)
    }

    fn u8(&mut self, what: &'static str) -> (res: Result<u8, ProtoError>)
        requires
            old(self).wf(),
        ensures
            final(self).wf(),
            final(self).buf == old(self).buf,
            reads(res, res->Ok_0, rd_u8(old(self).rd(), what), final(self).rd()),
    {
        let at = self.take(1, what)?;
        Ok(self.buf[at])
    }

    fn u16(&mut self, what: &'static str) -> (res: Result<u16, ProtoError>)
        requires
            old(self).wf(),
        ensures
            final(self).wf(),
            final(self).buf == old(self).buf,
            reads(res, res->Ok_0, rd_u16(old(self).rd(), what), final(self).rd()),
    {
        let at = self.take(2, what)?;
        Ok(get_u16(self.buf, at))
    }

    fn u32(&mut self, what: &'static str) -> (res: Result<u32, ProtoError>)
        requires
            old(self).wf(),
        ensures
            final(self).wf(),
            final(self).buf == old(self).buf,
            reads(res, res->Ok_0, rd_u32(old(self).rd(), what), final(self).rd()),
    {
        let at = self.take(4, what)?;
        Ok(get_u32(self.buf, at))
    }

    fn u64(&mut self, what: &'static str) -> (res: Result<u64, ProtoError>)
        requires
            old(self).wf(),
        ensures
            final(self).wf(),
            final(self).buf == old(self).buf,
            reads(res, res->Ok_0, rd_u64(old(self).rd(), what), final(self).rd()),
    {
        let at = self.take(8, what)?;
        Ok(get_u64(self.buf, at))
    }

    fn str(&mut self, what: &'static str) -> (res: Result<String, ProtoError>)
        requires
            old(self).wf(),
        ensures
            final(self).wf(),
            final(self).buf == old(self).buf,
            reads(res, res->Ok_0@, rd_str(old(self).rd(), what), final(self).rd()),
    {
        let n = self.u32(what)?;
        let at = self.take(n as usize, what)?;
        let b = sub_vec(self.buf, at, at + n as usize);
        match utf8_string(b) {
            Some(s) => Ok(s),
            None => Err(ProtoError::BadUtf8),
        }
    }

    fn bool(&mut self, what: &'static str) -> (res: Result<bool, ProtoError>)
        requires
            old(self).wf(),
        ensures
            final(self).wf(),
            final(self).buf == old(self).buf,
            reads(res, res->Ok_0, rd_bool(old(self).rd(), what), final(self).rd()),
    {
        let b = self.u8(what)?;
        if b == 0 {
            Ok(false)
        } else if b == 1 {
            Ok(true)
        } else {
            Err(ProtoError::BadValue(what))
        }
    }

    fn size(&mut self) -> (res: Result<WinSize, ProtoError>)
        requires
            old(self).wf(),
        ensures
            final(self).wf(),
            final(self).buf == old(self).buf,
            reads(res, res->Ok_0, rd_size(old(self).rd()), final(self).rd()),
    {
        let cols = self.u16("cols")?;
        let rows = self.u16("rows")?;
        let xpixel = self.u16("xpixel")?;
        let ypixel = self.u16("ypixel")?;
        Ok(WinSize { cols, rows, xpixel, ypixel })
    }

    fn mode(&mut self) -> (res: Result<Mode, ProtoError>)
        requires
            old(self).wf(),
        ensures
            final(self).wf(),
            final(self).buf == old(self).buf,
            reads(res, res->Ok_0, rd_mode(old(self).rd()), final(self).rd()),
    {
        let b = self.u8("mode")?;
        if b == 0 {
            Ok(Mode::Attach)
        } else if b == 1 {
            Ok(Mode::Create)
        } else if b == 2 {
            Ok(Mode::AttachOrCreate)
        } else {
            Err(ProtoError::BadValue("mode"))
        }
    }

    fn kind(&mut self) -> (res: Result<AttachKind, ProtoError>)
        requires
            old(self).wf(),
        ensures
            final(self).wf(),
            final(self).buf == old(self).buf,
            reads(res, res->Ok_0, rd_kind(old(self).rd()), final(self).rd()),
    {
        let b = self.u8("kind")?;
        if b == 0 {
            Ok(AttachKind::Fresh)
        } else if b == 1 {
            Ok(AttachKind::Resumed)
        } else if b == 2 {
            Ok(AttachKind::Gap)
        } else {
            Err(ProtoError::BadValue("kind"))
        }
    }

    fn resume(&mut self) -> (res: Result<Option<Resume>, ProtoError>)
        requires
            old(self).wf(),
        ensures
            final(self).wf(),
            final(self).buf == old(self).buf,
            reads(res, res->Ok_0, rd_resume(old(self).rd()), final(self).rd()),
    {
        if self.bool("resume")? {
            let instance = self.u64("instance")?;
            let offset = self.u64("offset")?;
            Ok(Some(Resume { instance, offset }))
        } else {
            Ok(None)
        }
    }

    fn command(&mut self) -> (res: Result<Vec<String>, ProtoError>)
        requires
            old(self).wf(),
        ensures
            final(self).wf(),
            final(self).buf == old(self).buf,
            reads(res, texts(res->Ok_0@), rd_command(old(self).rd()), final(self).rd()),
    {
        let n: u32 = self.u32("argc")?;
        if n as usize > MAX_ARGC {
            return Err(ProtoError::BadValue("argc"));
        }
        let ghost start = self.rd();
        let ghost whole = rd_strs(start, n as nat, "argv");
        let mut v: Vec<String> = Vec::new();
        let mut i: u32 = 0;
        assert(texts(v@) + whole.0 =~= whole.0);
        while i < n
            invariant
                i <= n <= MAX_ARGC,
                self.wf(),
                self.buf == old(self).buf,
                whole == rd_strs(start, n as nat, "argv"),
                v.len() == i,
                texts(v@) + rd_strs(self.rd(), (n - i) as nat, "argv").0 == whole.0,
                rd_strs(self.rd(), (n - i) as nat, "argv").1 == whole.1,
                rd_command(old(self).rd()) == whole,
            decreases n - i,
        {
            let ghost before = self.rd();
            let ghost done = texts(v@);
            let s = match self.str("argv") {
                Ok(s) => s,
                Err(e) => {
                    proof {
                        reveal_with_fuel(rd_strs, 2);
                    }
                    return Err(e);
                },
            };
            v.push(s);
            i = i + 1;
            proof {
                let tail = rd_strs(self.rd(), (n - i) as nat, "argv");
                assert(texts(v@) =~= done.push(s@));
                assert(rd_strs(before, (n - i + 1) as nat, "argv") == (seq![s@] + tail.0, tail.1));
                assert(done + (seq![s@] + tail.0) =~= done.push(s@) + tail.0);
            }
        }
        assert(texts(v@) + Seq::<Seq<char>>::empty() =~= texts(v@));
        Ok(v)
    }

    fn hello(&mut self) -> (res: Result<Hello, ProtoError>)
        requires
            old(self).wf(),
        ensures
            final(self).wf(),
            final(self).buf == old(self).buf,
            reads(res, res->Ok_0@, rd_hello(old(self).rd()), final(self).rd()),
    {
        reveal(rd_hello);
        let proto = self.u16("proto")?;
        let session = self.str("session")?;
        let mode = self.mode()?;
        let identity = self.str("identity")?;
        let force = self.bool("force")?;
        let term = self.str("term")?;
        let colorterm = self.str("colorterm")?;
        let size = self.size()?;
        let resume = self.resume()?;
        let command = self.command()?;
        Ok(
            Hello {
                proto,
                session,
                mode,
                identity,
                force,
                term,
                colorterm,
                size,
                resume,
                command,
            },
        )
    }

    fn welcome(&mut self) -> (res: Result<Welcome, ProtoError>)
        requires
            old(self).wf(),
        ensures
            final(self).wf(),
            final(self).buf == old(self).buf,
            reads(res, res->Ok_0@, rd_welcome(old(self).rd()), final(self).rd()),
    {
        reveal(rd_welcome);
        let proto = self.u16("proto")?;
        let session = self.str("session")?;
        let instance = self.u64("instance")?;
        let offset = self.u64("offset")?;
        let created = self.bool("created")?;
        let kind = self.kind()?;
        let input_seq = self.u64("input_seq")?;
        Ok(Welcome { proto, session, instance, offset, created, kind, input_seq })
    }

    fn status(&mut self) -> (res: Result<StatusInfo, ProtoError>)
        requires
            old(self).wf(),
        ensures
            final(self).wf(),
            final(self).buf == old(self).buf,
            reads(res, res->Ok_0@, rd_status(old(self).rd()), final(self).rd()),
    {
        reveal(rd_status);
        let name = self.str("name")?;
        let attached = self.bool("attached")?;
        let identity = self.str("identity")?;
        let creator = self.str("creator")?;
        let created_at = self.u64("created_at")?;
        let idle_secs = self.u64("idle")?;
        let command = self.str("command")?;
        let size = self.size()?;
        let version = self.str("version")?;
        let pid = self.u32("pid")?;
        Ok(
            StatusInfo {
                name,
                attached,
                identity,
                creator,
                created_at,
                idle_secs,
                command,
                size,
                version,
                pid,
            },
        )
    }

    /// All the bytes that are left.
    fn remaining(&mut self) -> (v: Vec<u8>)
        requires
            old(self).wf(),
        ensures
            final(self).wf(),
            final(self).buf == old(self).buf,
            v@ == old(self).rd().rest,
            final(self).rd() == rd(Seq::empty()),
    {
        let v = sub_vec(self.buf, self.pos, self.buf.len());
        assert(v@ =~= self.buf@.skip(self.pos as int));
        self.pos = self.buf.len();
        assert(self.buf@.skip(self.pos as int) =~= Seq::empty());
        v
    }

    fn msg(&mut self, t: u8) -> (res: Result<Msg, ProtoError>)
        requires
            old(self).wf(),
        ensures
            final(self).wf(),
            final(self).buf == old(self).buf,
            reads(res, res->Ok_0@, rd_msg(t, old(self).rd()), final(self).rd()),
    {
        reveal(rd_msg);
        if t == ty::HELLO {
            let h = self.hello()?;
            Ok(Msg::Hello(h))
        } else if t == ty::WELCOME {
            let w = self.welcome()?;
            Ok(Msg::Welcome(w))
        } else if t == ty::BUSY {
            let identity = self.str("identity")?;
            let since = self.u64("since")?;
            Ok(Msg::Busy { identity, since })
        } else if t == ty::DATA {
            let offset = self.u64("offset")?;
            let bytes = self.remaining();
            Ok(Msg::Data { offset, bytes })
        } else if t == ty::INPUT {
            let seq = self.u64("seq")?;
            let bytes = self.remaining();
            Ok(Msg::Input { seq, bytes })
        } else if t == ty::ACK {
            let seq = self.u64("seq")?;
            Ok(Msg::Ack { seq })
        } else if t == ty::RESIZE {
            let s = self.size()?;
            Ok(Msg::Resize(s))
        } else if t == ty::PING {
            let n = self.u64("nonce")?;
            Ok(Msg::Ping(n))
        } else if t == ty::PONG {
            let n = self.u64("nonce")?;
            Ok(Msg::Pong(n))
        } else if t == ty::DETACH {
            Ok(Msg::Detach)
        } else if t == ty::KILL {
            Ok(Msg::Kill)
        } else if t == ty::EXIT {
            let status = self.u32("status")?;
            Ok(Msg::Exit { status: status as i32 })
        } else if t == ty::TAKEOVER {
            Ok(Msg::Takeover)
        } else if t == ty::STATUS {
            Ok(Msg::Status)
        } else if t == ty::STATUS_REPLY {
            let s = self.status()?;
            Ok(Msg::StatusReply(s))
        } else if t == ty::ERROR {
            let code = self.u16("code")?;
            let message = self.str("message")?;
            Ok(Msg::Error { code, message })
        } else {
            Err(ProtoError::UnknownType(t))
        }
    }
}

impl Msg {
    /// Reads the payload `p` of a frame of type `t`. What is accepted is written just
    /// as it was read.
    pub fn decode(t: u8, p: &[u8]) -> (res: Result<Msg, ProtoError>)
        ensures
            match res {
                Ok(m) => decoded(t, p@) == Ok::<MsgView, ProtoError>(m@) && frame(m@) == seq![t]
                    + be32(p@.len() as u32) + p@,
                Err(e) => decoded(t, p@) == Err::<MsgView, ProtoError>(e),
            },
    {
        let mut r = Reader { buf: p, pos: 0 };
        assert(p@.skip(0) =~= p@);
        let m = r.msg(t)?;
        if r.pos == p.len() {
            proof {
                law_decoding_is_exact(t, p@, m@);
            }
            Ok(m)
        } else {
            Err(ProtoError::Trailing(t))
        }
    }
}

} // verus!
