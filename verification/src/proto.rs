//! Wire protocol: length-prefixed frames, identical on the ssh leg and on the
//! master's unix socket, plus the plain-text marker lines that precede the
//! first frame.
//!
//! ```text
//! +---------+------------+----------------+
//! | type u8 | len u32 BE | payload[len]   |
//! +---------+------------+----------------+
//! ```

use crate::text::{
    chars_of, dec, decimal, is_text, parse_uint, parsed_max, split, split_at_char, string_of,
    sub_vec, texts, trim_end, trim_end_char, utf8_string, views,
};
use crate::wire::{
    be16, be32, be64, drop_front, from_be32, get_u32, lemma_cat_assoc, put_bytes, put_u16,
    put_u32, put_u64, put_u8,
};
use read::decoded;
use vstd::prelude::*;
use vstd::utf8::{decode_utf8, encode_utf8, valid_utf8};

pub mod err;
pub mod laws;
pub mod read;
pub mod ty;

verus! {

/// Bumped whenever a frame's layout or meaning changes.
pub const PROTO_VERSION: u16 = 1;

/// Largest payload accepted. Senders chunk DATA/INPUT well below this.
pub const MAX_FRAME: usize = 0x10_0000;

/// Largest DATA/INPUT chunk a sender puts in one frame.
pub const MAX_CHUNK: usize = 32 * 1024;

/// Bytes before a frame's payload.
pub const HEADER: usize = 5;

/// Written by the remote side immediately before its first frame.
pub const READY_MARKER: &'static str = "ACS-READY";

/// Written by the remote prelude when no usable binary is installed.
pub const NEED_MARKER: &'static str = "ACS-NEED";

/// Most of what preceded the marker that is kept.
pub const MAX_NOISE: usize = 64 * 1024;

/// Most words of a command that a HELLO may carry.
pub const MAX_ARGC: usize = 4096;

#[derive(Debug, Clone, Copy, PartialEq, Eq, Structural)]
pub struct WinSize {
    pub cols: u16,
    pub rows: u16,
    pub xpixel: u16,
    pub ypixel: u16,
}

impl Default for WinSize {
    fn default() -> (s: WinSize)
        ensures
            s == (WinSize { cols: 0, rows: 0, xpixel: 0, ypixel: 0 }),
    {
        WinSize { cols: 0, rows: 0, xpixel: 0, ypixel: 0 }
    }
}

/// How a HELLO wants to find its session.
#[derive(Debug, Clone, Copy, PartialEq, Eq, Structural)]
pub enum Mode {
    Attach,
    Create,
    AttachOrCreate,
}

/// Where a client wants output to resume from after a drop.
#[derive(Debug, Clone, Copy, PartialEq, Eq, Structural)]
pub struct Resume {
    pub instance: u64,
    pub offset: u64,
}

#[derive(Debug, Clone, PartialEq, Eq)]
pub struct Hello {
    pub proto: u16,
    pub session: String,
    pub mode: Mode,
    /// Display identity, `user@host` of the client.
    pub identity: String,
    /// Take over even when another identity is attached.
    pub force: bool,
    pub term: String,
    pub colorterm: String,
    pub size: WinSize,
    pub resume: Option<Resume>,
    /// Command to run when the session is created; empty means `$SHELL -l`.
    pub command: Vec<String>,
}

/// How the master is serving this attach.
#[derive(Debug, Clone, Copy, PartialEq, Eq, Structural)]
pub enum AttachKind {
    /// New client or unknown terminal state: clear and redraw.
    Fresh,
    /// Output continues exactly where the client left off.
    Resumed,
    /// The requested offset was overwritten: clear and redraw.
    Gap,
}

#[derive(Debug, Clone, PartialEq, Eq)]
pub struct Welcome {
    pub proto: u16,
    /// The session's name (the client may not know it: `--new`).
    pub session: String,
    pub instance: u64,
    /// Offset of the next byte the master will send.
    pub offset: u64,
    pub created: bool,
    pub kind: AttachKind,
    /// Input bytes the master has written to the pty so far: the sequence
    /// number of the next INPUT byte it will accept.
    pub input_seq: u64,
}

#[derive(Debug, Clone, PartialEq, Eq)]
pub struct StatusInfo {
    pub name: String,
    pub attached: bool,
    /// Identity attached now, or last attached; empty if never.
    pub identity: String,
    pub creator: String,
    /// Unix seconds.
    pub created_at: u64,
    pub idle_secs: u64,
    pub command: String,
    pub size: WinSize,
    pub version: String,
    pub pid: u32,
}

#[derive(Debug, Clone, PartialEq, Eq)]
pub enum Msg {
    Hello(Hello),
    Welcome(Welcome),
    /// Another identity is attached.
    Busy { identity: String, since: u64 },
    Data { offset: u64, bytes: Vec<u8> },
    Input { seq: u64, bytes: Vec<u8> },
    Ack { seq: u64 },
    Resize(WinSize),
    Ping(u64),
    Pong(u64),
    Detach,
    Kill,
    /// Child wait status as returned by `waitpid`.
    Exit { status: i32 },
    Takeover,
    Status,
    StatusReply(StatusInfo),
    Error { code: u16, message: String },
}

#[derive(Debug, Clone, PartialEq, Eq)]
pub enum ProtoError {
    TooLarge(usize),
    UnknownType(u8),
    Truncated(&'static str),
    BadUtf8,
    BadValue(&'static str),
    Trailing(u8),
}

// ---- what a message is, as plain mathematical values -----------------------

pub struct HelloView {
    pub proto: u16,
    pub session: Seq<char>,
    pub mode: Mode,
    pub identity: Seq<char>,
    pub force: bool,
    pub term: Seq<char>,
    pub colorterm: Seq<char>,
    pub size: WinSize,
    pub resume: Option<Resume>,
    pub command: Seq<Seq<char>>,
}

pub struct WelcomeView {
    pub proto: u16,
    pub session: Seq<char>,
    pub instance: u64,
    pub offset: u64,
    pub created: bool,
    pub kind: AttachKind,
    pub input_seq: u64,
}

pub struct StatusView {
    pub name: Seq<char>,
    pub attached: bool,
    pub identity: Seq<char>,
    pub creator: Seq<char>,
    pub created_at: u64,
    pub idle_secs: u64,
    pub command: Seq<char>,
    pub size: WinSize,
    pub version: Seq<char>,
    pub pid: u32,
}

pub enum MsgView {
    Hello(HelloView),
    Welcome(WelcomeView),
    Busy { identity: Seq<char>, since: u64 },
    Data { offset: u64, bytes: Seq<u8> },
    Input { seq: u64, bytes: Seq<u8> },
    Ack { seq: u64 },
    Resize(WinSize),
    Ping(u64),
    Pong(u64),
    Detach,
    Kill,
    Exit { status: i32 },
    Takeover,
    Status,
    StatusReply(StatusView),
    Error { code: u16, message: Seq<char> },
}

impl View for Hello {
    type V = HelloView;

    open spec fn view(&self) -> HelloView {
        HelloView {
            proto: self.proto,
            session: self.session@,
            mode: self.mode,
            identity: self.identity@,
            force: self.force,
            term: self.term@,
            colorterm: self.colorterm@,
            size: self.size,
            resume: self.resume,
            command: texts(self.command@),
        }
    }
}

impl View for Welcome {
    type V = WelcomeView;

    open spec fn view(&self) -> WelcomeView {
        WelcomeView {
            proto: self.proto,
            session: self.session@,
            instance: self.instance,
            offset: self.offset,
            created: self.created,
            kind: self.kind,
            input_seq: self.input_seq,
        }
    }
}

impl View for StatusInfo {
    type V = StatusView;

    open spec fn view(&self) -> StatusView {
        StatusView {
            name: self.name@,
            attached: self.attached,
            identity: self.identity@,
            creator: self.creator@,
            created_at: self.created_at,
            idle_secs: self.idle_secs,
            command: self.command@,
            size: self.size,
            version: self.version@,
            pid: self.pid,
        }
    }
}

impl Default for StatusInfo {
    fn default() -> (s: StatusInfo)
        ensures
            s@ == (StatusView {
                name: Seq::empty(),
                attached: false,
                identity: Seq::empty(),
                creator: Seq::empty(),
                created_at: 0,
                idle_secs: 0,
                command: Seq::empty(),
                size: WinSize { cols: 0, rows: 0, xpixel: 0, ypixel: 0 },
                version: Seq::empty(),
                pid: 0,
            }),
    {
        StatusInfo {
            name: String::new(),
            attached: false,
            identity: String::new(),
            creator: String::new(),
            created_at: 0,
            idle_secs: 0,
            command: String::new(),
            size: WinSize::default(),
            version: String::new(),
            pid: 0,
        }
    }
}

impl View for Msg {
    type V = MsgView;

    open spec fn view(&self) -> MsgView {
        match *self {
            Msg::Hello(h) => MsgView::Hello(h@),
            Msg::Welcome(w) => MsgView::Welcome(w@),
            Msg::Busy { identity, since } => MsgView::Busy { identity: identity@, since },
            Msg::Data { offset, bytes } => MsgView::Data { offset, bytes: bytes@ },
            Msg::Input { seq, bytes } => MsgView::Input { seq, bytes: bytes@ },
            Msg::Ack { seq } => MsgView::Ack { seq },
            Msg::Resize(s) => MsgView::Resize(s),
            Msg::Ping(n) => MsgView::Ping(n),
            Msg::Pong(n) => MsgView::Pong(n),
            Msg::Detach => MsgView::Detach,
            Msg::Kill => MsgView::Kill,
            Msg::Exit { status } => MsgView::Exit { status },
            Msg::Takeover => MsgView::Takeover,
            Msg::Status => MsgView::Status,
            Msg::StatusReply(s) => MsgView::StatusReply(s@),
            Msg::Error { code, message } => MsgView::Error { code, message: message@ },
        }
    }
}

// ---- what a frame is -------------------------------------------------------

pub open spec fn bool_byte(b: bool) -> u8 {
    if b {
        1
    } else {
        0
    }
}

pub open spec fn mode_byte(m: Mode) -> u8 {
    match m {
        Mode::Attach => 0,
        Mode::Create => 1,
        Mode::AttachOrCreate => 2,
    }
}

pub open spec fn kind_byte(k: AttachKind) -> u8 {
    match k {
        AttachKind::Fresh => 0,
        AttachKind::Resumed => 1,
        AttachKind::Gap => 2,
    }
}

/// A string on the wire: its UTF-8 length, then its UTF-8.
pub open spec fn str_bytes(s: Seq<char>) -> Seq<u8> {
    be32(encode_utf8(s).len() as u32) + encode_utf8(s)
}

pub open spec fn size_bytes(s: WinSize) -> Seq<u8> {
    be16(s.cols) + (be16(s.rows) + (be16(s.xpixel) + be16(s.ypixel)))
}

pub open spec fn resume_bytes(r: Option<Resume>) -> Seq<u8> {
    match r {
        None => seq![0u8],
        Some(r) => seq![1u8] + (be64(r.instance) + be64(r.offset)),
    }
}

pub open spec fn strs_bytes(v: Seq<Seq<char>>) -> Seq<u8>
    decreases v.len(),
{
    if v.len() == 0 {
        Seq::empty()
    } else {
        str_bytes(v[0]) + strs_bytes(v.skip(1))
    }
}

pub open spec fn hello_bytes(h: HelloView) -> Seq<u8> {
    be16(h.proto) + (str_bytes(h.session) + (seq![mode_byte(h.mode)] + (str_bytes(h.identity) + (
    seq![bool_byte(h.force)] + (str_bytes(h.term) + (str_bytes(h.colorterm) + (size_bytes(h.size)
        + (resume_bytes(h.resume) + (be32(h.command.len() as u32) + strs_bytes(h.command))))))))))
}

pub open spec fn welcome_bytes(w: WelcomeView) -> Seq<u8> {
    be16(w.proto) + (str_bytes(w.session) + (be64(w.instance) + (be64(w.offset) + (
    seq![bool_byte(w.created)] + (seq![kind_byte(w.kind)] + be64(w.input_seq))))))
}

pub open spec fn status_bytes(s: StatusView) -> Seq<u8> {
    str_bytes(s.name) + (seq![bool_byte(s.attached)] + (str_bytes(s.identity) + (str_bytes(
        s.creator,
    ) + (be64(s.created_at) + (be64(s.idle_secs) + (str_bytes(s.command) + (size_bytes(s.size) + (
    str_bytes(s.version) + be32(s.pid)))))))))
}

/// The payload of the frame that carries `m`.
pub open spec fn payload(m: MsgView) -> Seq<u8> {
    match m {
        MsgView::Hello(h) => hello_bytes(h),
        MsgView::Welcome(w) => welcome_bytes(w),
        MsgView::Busy { identity, since } => str_bytes(identity) + be64(since),
        MsgView::Data { offset, bytes } => be64(offset) + bytes,
        MsgView::Input { seq, bytes } => be64(seq) + bytes,
        MsgView::Ack { seq } => be64(seq),
        MsgView::Resize(s) => size_bytes(s),
        MsgView::Ping(n) => be64(n),
        MsgView::Pong(n) => be64(n),
        MsgView::Detach => Seq::empty(),
        MsgView::Kill => Seq::empty(),
        MsgView::Exit { status } => be32(status as u32),
        MsgView::Takeover => Seq::empty(),
        MsgView::Status => Seq::empty(),
        MsgView::StatusReply(s) => status_bytes(s),
        MsgView::Error { code, message } => be16(code) + str_bytes(message),
    }
}

/// The type byte of the frame that carries `m`.
pub open spec fn type_byte(m: MsgView) -> u8 {
    match m {
        MsgView::Hello(_) => ty::HELLO,
        MsgView::Welcome(_) => ty::WELCOME,
        MsgView::Busy { .. } => ty::BUSY,
        MsgView::Data { .. } => ty::DATA,
        MsgView::Input { .. } => ty::INPUT,
        MsgView::Ack { .. } => ty::ACK,
        MsgView::Resize(_) => ty::RESIZE,
        MsgView::Ping(_) => ty::PING,
        MsgView::Pong(_) => ty::PONG,
        MsgView::Detach => ty::DETACH,
        MsgView::Kill => ty::KILL,
        MsgView::Exit { .. } => ty::EXIT,
        MsgView::Takeover => ty::TAKEOVER,
        MsgView::Status => ty::STATUS,
        MsgView::StatusReply(_) => ty::STATUS_REPLY,
        MsgView::Error { .. } => ty::ERROR,
    }
}

/// The frame that carries `m`.
pub open spec fn frame(m: MsgView) -> Seq<u8> {
    seq![type_byte(m)] + (be32(payload(m).len() as u32) + payload(m))
}

// ---- encoding --------------------------------------------------------------

fn put_str(out: &mut Vec<u8>, s: &str)
    ensures
        final(out)@ == old(out)@ + str_bytes(s@),
{
    let b = s.as_bytes();
    put_u32(out, b.len() as u32);
    put_bytes(out, b);
    assert(out@ =~= old(out)@ + str_bytes(s@));
}

fn put_size(out: &mut Vec<u8>, s: &WinSize)
    ensures
        final(out)@ == old(out)@ + size_bytes(*s),
{
    broadcast use lemma_cat_assoc;

    put_u16(out, s.cols);
    put_u16(out, s.rows);
    put_u16(out, s.xpixel);
    put_u16(out, s.ypixel);
}

fn put_bool(out: &mut Vec<u8>, b: bool)
    ensures
        final(out)@ == old(out)@ + seq![bool_byte(b)],
{
    if b {
        put_u8(out, 1);
    } else {
        put_u8(out, 0);
    }
}

fn put_resume(out: &mut Vec<u8>, r: &Option<Resume>)
    ensures
        final(out)@ == old(out)@ + resume_bytes(*r),
{
    broadcast use lemma_cat_assoc;

    match r {
        None => put_u8(out, 0),
        Some(r) => {
            put_u8(out, 1);
            put_u64(out, r.instance);
            put_u64(out, r.offset);
        },
    }
}

fn put_strs(out: &mut Vec<u8>, v: &Vec<String>)
    ensures
        final(out)@ == old(out)@ + strs_bytes(texts(v@)),
{
    let ghost all = texts(v@);
    let mut i: usize = 0;
    assert(all.skip(0) =~= all);
    while i < v.len()
        invariant
            i <= v.len(),
            all == texts(v@),
            out@ + strs_bytes(all.skip(i as int)) == old(out)@ + strs_bytes(all),
        decreases v.len() - i,
    {
        let ghost before = out@;
        put_str(out, v[i].as_str());
        proof {
            assert(all.skip(i as int)[0] == v@[i as int]@);
            assert(all.skip(i as int).skip(1) =~= all.skip(i + 1));
            lemma_cat_assoc(before, str_bytes(v@[i as int]@), strs_bytes(all.skip(i + 1)));
        }
        i = i + 1;
    }
    assert(all.skip(v@.len() as int) =~= Seq::<Seq<char>>::empty());
    assert(out@ + Seq::<u8>::empty() =~= out@);
}

fn put_hello(out: &mut Vec<u8>, h: &Hello)
    ensures
        final(out)@ == old(out)@ + hello_bytes(h@),
{
    broadcast use lemma_cat_assoc;

    put_u16(out, h.proto);
    put_str(out, h.session.as_str());
    put_u8(
        out,
        match h.mode {
            Mode::Attach => 0,
            Mode::Create => 1,
            Mode::AttachOrCreate => 2,
        },
    );
    put_str(out, h.identity.as_str());
    put_bool(out, h.force);
    put_str(out, h.term.as_str());
    put_str(out, h.colorterm.as_str());
    put_size(out, &h.size);
    put_resume(out, &h.resume);
    put_u32(out, h.command.len() as u32);
    put_strs(out, &h.command);
}

fn put_welcome(out: &mut Vec<u8>, w: &Welcome)
    ensures
        final(out)@ == old(out)@ + welcome_bytes(w@),
{
    broadcast use lemma_cat_assoc;

    put_u16(out, w.proto);
    put_str(out, w.session.as_str());
    put_u64(out, w.instance);
    put_u64(out, w.offset);
    put_bool(out, w.created);
    put_u8(
        out,
        match w.kind {
            AttachKind::Fresh => 0,
            AttachKind::Resumed => 1,
            AttachKind::Gap => 2,
        },
    );
    put_u64(out, w.input_seq);
}

fn put_status(out: &mut Vec<u8>, s: &StatusInfo)
    ensures
        final(out)@ == old(out)@ + status_bytes(s@),
{
    broadcast use lemma_cat_assoc;

    put_str(out, s.name.as_str());
    put_bool(out, s.attached);
    put_str(out, s.identity.as_str());
    put_str(out, s.creator.as_str());
    put_u64(out, s.created_at);
    put_u64(out, s.idle_secs);
    put_str(out, s.command.as_str());
    put_size(out, &s.size);
    put_str(out, s.version.as_str());
    put_u32(out, s.pid);
}

impl Msg {
    /// Appends the payload of this message to `out` and returns its type byte.
    fn put_payload(&self, out: &mut Vec<u8>) -> (t: u8)
        ensures
            t == type_byte(self@),
            final(out)@ == old(out)@ + payload(self@),
    {
        broadcast use lemma_cat_assoc;

        assert(out@ + Seq::<u8>::empty() =~= out@);
        match self {
            Msg::Hello(h) => {
                put_hello(out, h);
                ty::HELLO
            },
            Msg::Welcome(w) => {
                put_welcome(out, w);
                ty::WELCOME
            },
            Msg::Busy { identity, since } => {
                put_str(out, identity.as_str());
                put_u64(out, *since);
                ty::BUSY
            },
            Msg::Data { offset, bytes } => {
                put_u64(out, *offset);
                put_bytes(out, bytes.as_slice());
                ty::DATA
            },
            Msg::Input { seq, bytes } => {
                put_u64(out, *seq);
                put_bytes(out, bytes.as_slice());
                ty::INPUT
            },
            Msg::Ack { seq } => {
                put_u64(out, *seq);
                ty::ACK
            },
            Msg::Resize(s) => {
                put_size(out, s);
                ty::RESIZE
            },
            Msg::Ping(n) => {
                put_u64(out, *n);
                ty::PING
            },
            Msg::Pong(n) => {
                put_u64(out, *n);
                ty::PONG
            },
            Msg::Detach => ty::DETACH,
            Msg::Kill => ty::KILL,
            Msg::Exit { status } => {
                put_u32(out, *status as u32);
                ty::EXIT
            },
            Msg::Takeover => ty::TAKEOVER,
            Msg::Status => ty::STATUS,
            Msg::StatusReply(s) => {
                put_status(out, s);
                ty::STATUS_REPLY
            },
            Msg::Error { code, message } => {
                put_u16(out, *code);
                put_str(out, message.as_str());
                ty::ERROR
            },
        }
    }

    /// Appends this message as one frame to `out`.
    pub fn encode(&self, out: &mut Vec<u8>)
        ensures
            final(out)@ == old(out)@ + frame(self@),
    {
        let mut body: Vec<u8> = Vec::new();
        let t = self.put_payload(&mut body);
        assert(body@ =~= payload(self@));
        broadcast use lemma_cat_assoc;

        put_u8(out, t);
        put_u32(out, body.len() as u32);
        put_bytes(out, body.as_slice());
    }

    /// Encodes into a fresh buffer.
    pub fn to_bytes(&self) -> (v: Vec<u8>)
        ensures
            v@ == frame(self@),
    {
        let mut v: Vec<u8> = Vec::new();
        self.encode(&mut v);
        assert(v@ =~= frame(self@));
        v
    }
}

// ---- decoding --------------------------------------------------------------

/// What stands at the head of a stream of frames.
pub enum Next {
    /// Not a whole frame yet.
    More,
    /// A frame that is refused.
    Bad(ProtoError),
    /// A message, in a frame of that many bytes.
    Got(MsgView, int),
}

pub open spec fn next_frame(s: Seq<u8>) -> Next {
    if s.len() < HEADER {
        Next::More
    } else {
        let len = from_be32(s.subrange(1, HEADER as int));
        if len > MAX_FRAME {
            Next::Bad(ProtoError::TooLarge(len as usize))
        } else if s.len() < HEADER + len {
            Next::More
        } else {
            match decoded(s[0], s.subrange(HEADER as int, HEADER + len)) {
                Ok(m) => Next::Got(m, HEADER + len),
                Err(e) => Next::Bad(e),
            }
        }
    }
}

/// Incremental frame decoder: feed it bytes as they arrive, in any chunking.
/// Its view is the bytes that were fed and not decoded yet.
pub struct Decoder {
    buf: Vec<u8>,
    start: usize,
}

impl View for Decoder {
    type V = Seq<u8>;

    closed spec fn view(&self) -> Seq<u8> {
        self.buf@.skip(self.start as int)
    }
}

impl Default for Decoder {
    fn default() -> (d: Decoder)
        ensures
            d.wf(),
            d@ == Seq::<u8>::empty(),
    {
        let d = Decoder { buf: Vec::new(), start: 0 };
        assert(d@ =~= Seq::<u8>::empty());
        d
    }
}

impl Decoder {
    pub closed spec fn wf(&self) -> bool {
        self.start <= self.buf.len()
    }

    pub fn new() -> (d: Decoder)
        ensures
            d.wf(),
            d@ == Seq::<u8>::empty(),
    {
        Decoder::default()
    }

    /// More bytes of the stream.
    pub fn push(&mut self, bytes: &[u8])
        requires
            old(self).wf(),
        ensures
            final(self).wf(),
            final(self)@ == old(self)@ + bytes@,
    {
        if self.start > 0 && self.start == self.buf.len() {
            self.buf.clear();
            self.start = 0;
        } else if self.start > 64 * 1024 {
            drop_front(&mut self.buf, self.start);
            self.start = 0;
        }
        assert(self@ =~= old(self)@);
        put_bytes(&mut self.buf, bytes);
        assert(self@ =~= old(self)@ + bytes@);
    }

    /// Next complete message, `Ok(None)` if more bytes are needed. A refused
    /// frame stays where it is.
    pub fn next_msg(&mut self) -> (res: Result<Option<Msg>, ProtoError>)
        requires
            old(self).wf(),
        ensures
            final(self).wf(),
            match next_frame(old(self)@) {
                Next::More => res == Ok::<Option<Msg>, ProtoError>(None) && final(self)@ == old(
                    self,
                )@,
                Next::Bad(e) => res == Err::<Option<Msg>, ProtoError>(e) && final(self)@ == old(
                    self,
                )@,
                Next::Got(m, n) => {
                    &&& res matches Ok(Some(x))
                    &&& x@ == m
                    &&& final(self)@ == old(self)@.skip(n)
                },
            },
    {
        let ghost s = self@;
        let avail: usize = self.buf.len() - self.start;
        if avail < HEADER {
            return Ok(None);
        }
        let t = self.buf[self.start];
        let len = get_u32(self.buf.as_slice(), self.start + 1) as usize;
        assert(s.subrange(1, HEADER as int) =~= self.buf@.subrange(
            self.start + 1,
            self.start + 5,
        ));
        if len > MAX_FRAME {
            return Err(ProtoError::TooLarge(len));
        }
        if avail - HEADER < len {
            return Ok(None);
        }
        let from: usize = self.start + HEADER;
        let p = &self.buf.as_slice()[from..from + len];
        assert(p@ =~= s.subrange(HEADER as int, HEADER + len));
        let msg = Msg::decode(t, p)?;
        self.start = from + len;
        assert(self@ =~= s.skip(HEADER + len));
        Ok(Some(msg))
    }

    /// Bytes buffered but not yet decoded.
    pub fn pending(&self) -> (n: usize)
        requires
            self.wf(),
        ensures
            n == self@.len(),
    {
        self.buf.len() - self.start
    }
}

impl ProtoError {
    /// What went wrong, in words.
    pub open spec fn words(self) -> Seq<char> {
        match self {
            ProtoError::TooLarge(n) => "frame of "@ + dec(n as nat) + " bytes exceeds the limit"@,
            ProtoError::UnknownType(t) => "unknown frame type "@ + dec(t as nat),
            ProtoError::Truncated(what) => "truncated frame reading "@ + what@,
            ProtoError::BadUtf8 => "string is not UTF-8"@,
            ProtoError::BadValue(what) => "invalid value for "@ + what@,
            ProtoError::Trailing(t) => "trailing bytes in frame type "@ + dec(t as nat),
        }
    }

    /// What went wrong, for a person to read.
    pub fn text(&self) -> (s: String)
        ensures
            s@ == self.words(),
    {
        match self {
            ProtoError::TooLarge(n) => {
                let mut s = "frame of ".to_owned();
                s.append(decimal(*n as u64).as_str());
                s.append(" bytes exceeds the limit");
                s
            },
            ProtoError::UnknownType(t) => {
                let mut s = "unknown frame type ".to_owned();
                s.append(decimal(*t as u64).as_str());
                s
            },
            ProtoError::Truncated(what) => {
                let mut s = "truncated frame reading ".to_owned();
                s.append(what);
                s
            },
            ProtoError::BadUtf8 => "string is not UTF-8".to_owned(),
            ProtoError::BadValue(what) => {
                let mut s = "invalid value for ".to_owned();
                s.append(what);
                s
            },
            ProtoError::Trailing(t) => {
                let mut s = "trailing bytes in frame type ".to_owned();
                s.append(decimal(*t as u64).as_str());
                s
            },
        }
    }
}

// ---- the marker before the first frame -------------------------------------

/// The `ACS-READY <proto>` line.
pub open spec fn ready_text() -> Seq<char> {
    READY_MARKER@ + " "@ + dec(PROTO_VERSION as nat) + "\n"@
}

/// The `ACS-READY <proto>` line.
pub fn ready_line() -> (s: String)
    ensures
        s@ == ready_text(),
{
    let mut s = READY_MARKER.to_owned();
    s.append(" ");
    s.append(decimal(PROTO_VERSION as u64).as_str());
    s.append("\n");
    s
}

/// What the stream said before its first frame.
#[derive(Debug, Clone, PartialEq, Eq)]
pub enum Marker {
    /// Frames follow; `rest` are the bytes already read after the marker.
    Ready { proto: u16, rest: Vec<u8> },
    /// No binary on the remote for this `uname -s` / `uname -m`.
    Need { os: String, arch: String },
}

pub enum MarkerView {
    Ready { proto: u16, rest: Seq<u8> },
    Need { os: Seq<char>, arch: Seq<char> },
}

impl View for Marker {
    type V = MarkerView;

    open spec fn view(&self) -> MarkerView {
        match *self {
            Marker::Ready { proto, rest } => MarkerView::Ready { proto, rest: rest@ },
            Marker::Need { os, arch } => MarkerView::Need { os: os@, arch: arch@ },
        }
    }
}

/// The words of a line: its text without carriage returns at its end, cut at
/// every space.
pub open spec fn line_words(line: Seq<u8>) -> Seq<Seq<char>> {
    split(trim_end(decode_utf8(line), '\r'), ' ')
}

/// What a line says if it is a marker, with `rest` behind it.
pub open spec fn marker_line(line: Seq<u8>, rest: Seq<u8>) -> Option<MarkerView> {
    let w = line_words(line);
    if !valid_utf8(line) {
        None
    } else if w.len() == 2 && w[0] == READY_MARKER@ {
        match parsed_max(w[1], u16::MAX as nat) {
            Some(n) => Some(MarkerView::Ready { proto: n as u16, rest }),
            None => None,
        }
    } else if w.len() == 3 && w[0] == NEED_MARKER@ {
        Some(MarkerView::Need { os: w[1], arch: w[2] })
    } else {
        None
    }
}

/// Where the line that starts at `at` ends: its newline, or the end of `s`.
pub open spec fn line_end(s: Seq<u8>, at: int) -> int
    decreases s.len() - at,
{
    if at >= s.len() || s[at] == 10 {
        at
    } else {
        line_end(s, at + 1)
    }
}

/// The first marker line at or after the line that starts at `at`: what it
/// says and where its line starts; or no marker, and where the unfinished
/// last line starts.
pub open spec fn scan(s: Seq<u8>, at: int) -> (Option<MarkerView>, int)
    decreases s.len() - at,
    when 0 <= at <= s.len() via scan_decreases
{
    let end = line_end(s, at);
    if end >= s.len() {
        (None, at)
    } else {
        match marker_line(s.subrange(at, end), s.skip(end + 1)) {
            Some(m) => (Some(m), at),
            None => scan(s, end + 1),
        }
    }
}

#[via_fn]
proof fn scan_decreases(s: Seq<u8>, at: int) {
    lemma_line_end(s, at);
}

/// A line's end is its first newline, or the end of the stream.
pub proof fn lemma_line_end(s: Seq<u8>, at: int)
    requires
        0 <= at <= s.len(),
    ensures
        at <= line_end(s, at) <= s.len(),
        line_end(s, at) < s.len() ==> s[line_end(s, at)] == 10,
        forall|i: int| at <= i < line_end(s, at) ==> s[i] != 10,
    decreases s.len() - at,
{
    if at < s.len() && s[at] != 10 {
        lemma_line_end(s, at + 1);
    }
}

/// The last [`MAX_NOISE`] bytes of `s`.
pub open spec fn last_noise(s: Seq<u8>) -> Seq<u8> {
    if s.len() > MAX_NOISE {
        s.skip(s.len() - MAX_NOISE)
    } else {
        s
    }
}

/// Finds the marker line in a stream that may start with arbitrary noise from
/// shell startup files. The marker must start a line.
pub struct MarkerScanner {
    /// The line that has no end yet.
    pub line: Vec<u8>,
    /// Everything before the marker, for `-v` diagnostics.
    pub noise: Vec<u8>,
}

impl Default for MarkerScanner {
    fn default() -> (m: MarkerScanner)
        ensures
            m.line@ == Seq::<u8>::empty(),
            m.noise@ == Seq::<u8>::empty(),
    {
        MarkerScanner { line: Vec::new(), noise: Vec::new() }
    }
}

impl MarkerScanner {
    pub fn new() -> (m: MarkerScanner)
        ensures
            m.line@ == Seq::<u8>::empty(),
            m.noise@ == Seq::<u8>::empty(),
    {
        MarkerScanner::default()
    }

    /// More bytes of the stream; the marker, once its line is complete.
    pub fn push(&mut self, bytes: &[u8]) -> (res: Option<Marker>)
        ensures
            ({
                let s = old(self).line@ + bytes@;
                let (found, at) = scan(s, 0);
                match found {
                    Some(m) => {
                        &&& res matches Some(x)
                        &&& x@ == m
                        &&& final(self).line@ == Seq::<u8>::empty()
                        &&& final(self).noise@ == old(self).noise@ + s.take(at)
                    },
                    None => {
                        &&& res is None
                        &&& final(self).line@ == s.skip(at)
                        &&& final(self).noise@ == last_noise(old(self).noise@ + s.take(at))
                    },
                }
            }),
    {
        put_bytes(&mut self.line, bytes);
        let ghost s = self.line@;
        let mut at: usize = 0;
        let mut i: usize = 0;
        while i < self.line.len()
            invariant
                at <= i <= self.line.len(),
                self.line@ == s,
                s == old(self).line@ + bytes@,
                self.noise@ == old(self).noise@,
                scan(s, 0) == scan(s, at as int),
                line_end(s, at as int) == line_end(s, i as int),
            decreases self.line.len() - i,
        {
            if self.line[i] == 10 {
                let line = sub_vec(self.line.as_slice(), at, i);
                let rest = sub_vec(self.line.as_slice(), i + 1, self.line.len());
                assert(rest@ =~= s.skip(i + 1));
                if let Some(m) = parse_marker(line, rest) {
                    let before = sub_vec(self.line.as_slice(), 0, at);
                    assert(before@ =~= s.take(at as int));
                    put_bytes(&mut self.noise, before.as_slice());
                    self.line.clear();
                    return Some(m);
                }
                at = i + 1;
            }
            i = i + 1;
        }
        // Keep memory bounded on a chatty login: retain the unfinished line only.
        let before = sub_vec(self.line.as_slice(), 0, at);
        assert(before@ =~= s.take(at as int));
        put_bytes(&mut self.noise, before.as_slice());
        drop_front(&mut self.line, at);
        if self.noise.len() > MAX_NOISE {
            let cut: usize = self.noise.len() - MAX_NOISE;
            drop_front(&mut self.noise, cut);
        }
        None
    }
}

/// Reads `line` as a marker, with `rest` behind it.
fn parse_marker(line: Vec<u8>, rest: Vec<u8>) -> (res: Option<Marker>)
    ensures
        match res {
            Some(m) => marker_line(line@, rest@) == Some(m@),
            None => marker_line(line@, rest@) is None,
        },
{
    let text = match utf8_string(line) {
        Some(t) => t,
        None => return None,
    };
    let mut t = chars_of(text.as_str());
    trim_end_char(&mut t, '\r');
    let w = split_at_char(t.as_slice(), ' ');
    assert(views(w@) == line_words(line@));
    if w.len() == 2 && is_text(w[0].as_slice(), READY_MARKER) {
        assert(views(w@)[0] == w@[0]@ && views(w@)[1] == w@[1]@);
        match parse_uint(w[1].as_slice(), 65535) {
            Some(n) => Some(Marker::Ready { proto: n as u16, rest }),
            None => None,
        }
    } else if w.len() == 3 && is_text(w[0].as_slice(), NEED_MARKER) {
        assert(views(w@)[0] == w@[0]@ && views(w@)[1] == w@[1]@ && views(w@)[2] == w@[2]@);
        let os = string_of(w[1].as_slice());
        let arch = string_of(w[2].as_slice());
        Some(Marker::Need { os, arch })
    } else {
        assert(w.len() > 0 ==> views(w@)[0] == w@[0]@);
        None
    }
}

} // verus!
