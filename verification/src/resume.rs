//! What lets a session carry on over a new link: the output a master keeps,
//! the input it has taken, and the input a client still owes.

use crate::text::sub_vec;
use crate::wire::drop_front;
use vstd::prelude::*;

verus! {

/// Output history kept for resume when nothing else is asked for.
pub const DEFAULT_RING: usize = 1_048_576;

/// `a + n` on the circle of the 64-bit numbers.
pub open spec fn around(a: u64, n: nat) -> u64 {
    ((a + n) % 0x1_0000_0000_0000_0000) as u64
}

fn go_around(a: u64, n: usize) -> (r: u64)
    ensures
        r == around(a, n as nat),
{
    a.wrapping_add(n as u64)
}

// ---- output ----------------------------------------------------------------

/// The last bytes of a session's output, at most `cap` of them.
pub struct OutputRing {
    cap: usize,
    /// The bytes dropped and kept, from `base` on; the first `skip` of them are
    /// no longer kept.
    buf: Vec<u8>,
    skip: usize,
    /// The offset of the first byte kept.
    start: u64,
}

/// What a ring keeps, and the offset of its first byte.
#[verifier::ext_equal]
pub struct RingView {
    pub cap: nat,
    pub start: u64,
    pub bytes: Seq<u8>,
}

impl View for OutputRing {
    type V = RingView;

    closed spec fn view(&self) -> RingView {
        RingView {
            cap: self.cap as nat,
            start: self.start,
            bytes: self.buf@.skip(self.skip as int),
        }
    }
}

/// What stands at an offset of a session's output.
pub enum Read {
    /// The bytes from there on.
    Data(Vec<u8>),
    /// It was overwritten: the first offset still kept.
    Gap(u64),
    /// It has not been written yet.
    Future,
}

/// The ring after `bytes` more of output: the last `cap` bytes stay.
pub open spec fn pushed(r: RingView, bytes: Seq<u8>) -> RingView {
    let all = r.bytes + bytes;
    if all.len() <= r.cap {
        RingView { bytes: all, ..r }
    } else {
        let n = (all.len() - r.cap) as nat;
        RingView { start: (r.start + n) as u64, bytes: all.skip(n as int), ..r }
    }
}

pub open spec fn ring_end(r: RingView) -> int {
    r.start + r.bytes.len()
}

impl OutputRing {
    pub closed spec fn wf(&self) -> bool {
        self.skip <= self.buf@.len() && self.buf@.len() - self.skip <= self.cap
    }

    pub fn new(cap: usize) -> (r: OutputRing)
        ensures
            r.wf(),
            r@ == (RingView { cap: cap as nat, start: 0, bytes: Seq::empty() }),
    {
        let r = OutputRing { cap, buf: Vec::new(), skip: 0, start: 0 };
        assert(r@.bytes =~= Seq::empty());
        r
    }

    /// More output; the oldest is dropped where it does not all fit.
    pub fn push(&mut self, bytes: &[u8])
        requires
            old(self).wf(),
            ring_end(old(self)@) + bytes.len() <= u64::MAX,
        ensures
            final(self).wf(),
            final(self)@ == pushed(old(self)@, bytes@),
    {
        let ghost before = self@;
        if self.skip >= self.cap {
            drop_front(&mut self.buf, self.skip);
            self.skip = 0;
            assert(self@.bytes =~= before.bytes);
        }
        let ghost kept = self.buf@;
        self.buf.extend_from_slice(bytes);
        assert(self.buf@ =~= kept + bytes@);
        let len: usize = self.buf.len() - self.skip;
        assert(self.buf@.skip(self.skip as int) =~= before.bytes + bytes@);
        if len > self.cap {
            let n: usize = len - self.cap;
            assert(self.buf@.skip(self.skip + n) =~= (before.bytes + bytes@).skip(n as int));
            self.skip = self.skip + n;
            self.start = self.start + n as u64;
        }
    }

    /// The offset of the next byte of output.
    pub fn end(&self) -> (r: u64)
        requires
            self.wf(),
            ring_end(self@) <= u64::MAX,
        ensures
            r == ring_end(self@),
    {
        self.start + (self.buf.len() - self.skip) as u64
    }

    /// How many bytes can be pushed before the one at `next` is overwritten.
    pub fn room_before_overwrite(&self, next: u64) -> (r: usize)
        requires
            self.wf(),
            ring_end(self@) <= u64::MAX,
        ensures
            r == room(self@, next),
    {
        let end = self.end();
        if next >= end {
            self.cap
        } else if end - next >= self.cap as u64 {
            0
        } else {
            self.cap - (end - next) as usize
        }
    }

    /// At most `max` bytes from `offset` on.
    pub fn read_from(&self, offset: u64, max: usize) -> (r: Read)
        requires
            self.wf(),
            ring_end(self@) <= u64::MAX,
        ensures
            match r {
                Read::Data(d) => self@.start <= offset <= ring_end(self@) && d@ == data_from(
                    self@,
                    offset,
                    max as nat,
                ),
                Read::Gap(s) => offset < self@.start && s == self@.start,
                Read::Future => offset > ring_end(self@),
            },
    {
        if offset < self.start {
            return Read::Gap(self.start);
        }
        let end = self.end();
        if offset > end {
            return Read::Future;
        }
        assert(offset - self.start <= self.buf@.len() - self.skip);
        assert(self.buf@.len() <= usize::MAX) by {
            assert(self.buf@.len() == self.buf.len());
        }
        let at: usize = self.skip + (offset - self.start) as usize;
        let left: usize = self.buf.len() - at;
        let n: usize = if left < max {
            left
        } else {
            max
        };
        let d = sub_vec(&self.buf, at, at + n);
        assert(d@ =~= data_from(self@, offset, max as nat));
        Read::Data(d)
    }
}

/// How many bytes can be pushed before the one at `next` is overwritten.
pub open spec fn room(r: RingView, next: u64) -> nat {
    let behind = ring_end(r) - next;
    if behind <= 0 {
        r.cap
    } else if behind >= r.cap {
        0
    } else {
        (r.cap - behind) as nat
    }
}

/// At most `max` of the bytes from `offset` on.
pub open spec fn data_from(r: RingView, offset: u64, max: nat) -> Seq<u8> {
    let rest = r.bytes.skip(offset - r.start);
    if rest.len() <= max {
        rest
    } else {
        rest.take(max as int)
    }
}

/// A ring of a session that has printed `all`: the last bytes of it, as many as fit,
/// each at its place in the whole.
pub open spec fn keeps(r: RingView, all: Seq<u8>) -> bool {
    &&& ring_end(r) == all.len() <= u64::MAX
    &&& r.bytes == all.skip(r.start as int)
    &&& r.bytes.len() <= r.cap
    &&& r.start > 0 ==> r.bytes.len() == r.cap
}

/// Whatever is printed, a ring keeps the newest of everything that was printed so far,
/// as much of it as fits, and nothing moves to another offset.
pub proof fn law_the_newest_output_is_kept(r: RingView, all: Seq<u8>, bytes: Seq<u8>)
    requires
        keeps(r, all),
        all.len() + bytes.len() <= u64::MAX,
    ensures
        keeps(pushed(r, bytes), all + bytes),
        pushed(r, bytes).cap == r.cap,
        pushed(r, bytes).start >= r.start,
{
    let p = pushed(r, bytes);
    let now = all + bytes;
    assert(now.skip(r.start as int) =~= r.bytes + bytes);
    assert(p.bytes =~= now.skip(p.start as int));
}

/// What is read from an offset is what was printed there.
pub proof fn law_what_is_read_was_printed_there(r: RingView, all: Seq<u8>, offset: u64, max: nat)
    requires
        keeps(r, all),
        r.start <= offset <= all.len(),
    ensures
        data_from(r, offset, max).len() == if all.len() - offset < max {
            (all.len() - offset) as nat
        } else {
            max
        },
        data_from(r, offset, max) == all.subrange(
            offset as int,
            offset + data_from(r, offset, max).len(),
        ),
{
    let d = data_from(r, offset, max);
    assert(d =~= all.subrange(offset as int, offset + d.len()));
}

/// Pushing keeps what has not been overwritten: as long as no more is pushed
/// than there is room for, the bytes from `next` on are all still there, with
/// the new ones behind them.
pub proof fn law_room_is_kept(r: RingView, next: u64, bytes: Seq<u8>)
    requires
        r.bytes.len() <= r.cap,
        r.start <= next <= ring_end(r),
        bytes.len() <= room(r, next),
        ring_end(r) + bytes.len() <= u64::MAX,
    ensures
        pushed(r, bytes).start <= next,
        ring_end(pushed(r, bytes)) == ring_end(r) + bytes.len(),
        data_from(pushed(r, bytes), next, pushed(r, bytes).bytes.len()) == data_from(
            r,
            next,
            r.bytes.len(),
        ) + bytes,
{
    let p = pushed(r, bytes);
    let all = r.bytes + bytes;
    assert(p.bytes.skip(next - p.start) =~= r.bytes.skip(next - r.start) + bytes);
}

// ---- input -----------------------------------------------------------------

/// How much of a client's input a master has taken, so a resent frame is taken
/// once.
pub struct InputDedupe {
    pub written: u64,
}

impl Default for InputDedupe {
    fn default() -> (d: InputDedupe)
        ensures
            d.written == 0,
    {
        InputDedupe { written: 0 }
    }
}

/// The bytes of an input frame that are new to a master that has taken
/// `written` of them; `None` where the frame's end is no sequence number.
pub open spec fn fresh(written: u64, seq: u64, bytes: Seq<u8>) -> Option<Seq<u8>> {
    if seq + bytes.len() > u64::MAX {
        None
    } else if seq + bytes.len() <= written {
        Some(Seq::empty())
    } else if seq <= written {
        Some(bytes.skip(written - seq))
    } else {
        Some(bytes)
    }
}

impl InputDedupe {
    /// The new bytes of a frame, which count as written.
    pub fn accept(&mut self, seq: u64, bytes: &[u8]) -> (r: Option<Vec<u8>>)
        ensures
            match r {
                None => fresh(old(self).written, seq, bytes@) is None && final(self).written == old(
                    self,
                ).written,
                Some(new) => {
                    &&& fresh(old(self).written, seq, bytes@) == Some(new@)
                    &&& final(self).written == if seq + bytes@.len() > old(self).written {
                        (seq + bytes@.len()) as u64
                    } else {
                        old(self).written
                    }
                },
            },
    {
        let n: u64 = bytes.len() as u64;
        if seq > u64::MAX - n {
            return None;
        }
        let end: u64 = seq + n;
        if end <= self.written {
            let none: Vec<u8> = Vec::new();
            assert(none@ =~= Seq::empty());
            return Some(none);
        }
        let from: usize = if seq <= self.written {
            (self.written - seq) as usize
        } else {
            0
        };
        let new = sub_vec(bytes, from, bytes.len());
        assert(new@ =~= bytes@.skip(from as int));
        assert(bytes@.skip(0) =~= bytes@);
        self.written = end;
        Some(new)
    }

    /// The input taken so far.
    pub fn written(&self) -> (n: u64)
        ensures
            n == self.written,
    {
        self.written
    }

    /// The last `n` bytes were not written after all.
    pub fn rewind(&mut self, n: usize)
        requires
            n <= old(self).written,
        ensures
            final(self).written == old(self).written - n,
    {
        self.written = self.written - n as u64;
    }
}

/// The input a client has sent and the master has not acknowledged.
pub struct Unacked {
    pub seq: u64,
    pub bytes: Vec<u8>,
}

#[verifier::ext_equal]
pub struct UnackedView {
    /// The sequence number of the first byte.
    pub seq: u64,
    pub bytes: Seq<u8>,
}

impl View for Unacked {
    type V = UnackedView;

    open spec fn view(&self) -> UnackedView {
        UnackedView { seq: self.seq, bytes: self.bytes@ }
    }
}

/// What is left once everything below `seq` is acknowledged.
pub open spec fn acked(u: UnackedView, seq: u64) -> UnackedView {
    if seq <= u.seq {
        u
    } else if seq - u.seq >= u.bytes.len() {
        UnackedView { seq, bytes: Seq::empty() }
    } else {
        UnackedView { seq, bytes: u.bytes.skip(seq - u.seq) }
    }
}

/// What is owed to the instance that has taken the input below `seq`: the rest
/// of it where it is the same one, nothing where it is another.
pub open spec fn rebased(u: UnackedView, seq: u64, same: bool) -> UnackedView {
    if same {
        acked(u, seq)
    } else {
        UnackedView { seq, bytes: Seq::empty() }
    }
}

impl Unacked {
    pub fn new(seq: u64) -> (u: Unacked)
        ensures
            u@ == (UnackedView { seq, bytes: Seq::empty() }),
    {
        let u = Unacked { seq, bytes: Vec::new() };
        assert(u@.bytes =~= Seq::empty());
        u
    }

    /// More input; the sequence number of its first byte.
    pub fn push(&mut self, chunk: &[u8]) -> (seq: u64)
        ensures
            seq == around(old(self).seq, old(self).bytes@.len()),
            final(self)@ == (UnackedView { seq: old(self).seq, bytes: old(self).bytes@ + chunk@ }),
    {
        let seq = go_around(self.seq, self.bytes.len());
        self.bytes.extend_from_slice(chunk);
        assert(self.bytes@ =~= old(self).bytes@ + chunk@);
        seq
    }

    /// The master has taken everything below `seq`.
    pub fn ack(&mut self, seq: u64)
        ensures
            final(self)@ == acked(old(self)@, seq),
    {
        if seq > self.seq {
            let n: u64 = seq - self.seq;
            if n >= self.bytes.len() as u64 {
                self.bytes = Vec::new();
                assert(self.bytes@ =~= Seq::empty());
            } else {
                drop_front(&mut self.bytes, n as usize);
            }
            self.seq = seq;
        }
    }

    /// A master has taken the input below `seq`; `same` says whether it is the
    /// one the input went to.
    pub fn rebase(&mut self, seq: u64, same: bool)
        ensures
            final(self)@ == rebased(old(self)@, seq, same),
    {
        if same {
            self.ack(seq);
        } else {
            self.bytes = Vec::new();
            assert(self.bytes@ =~= Seq::empty());
            self.seq = seq;
        }
    }

    pub fn is_empty(&self) -> (r: bool)
        ensures
            r == (self.bytes@.len() == 0),
    {
        self.bytes.len() == 0
    }
}

/// Input that is resent is written once: what a client still owes after an
/// acknowledgement is new to the master that sent it.
pub proof fn law_resent_input_is_new(u: UnackedView, written: u64)
    requires
        u.seq <= written <= u.seq + u.bytes.len() <= u64::MAX,
    ensures
        fresh(written, acked(u, written).seq, acked(u, written).bytes) == Some(
            u.bytes.skip(written - u.seq),
        ),
        fresh(written, u.seq, u.bytes) == Some(u.bytes.skip(written - u.seq)),
{
    let a = acked(u, written);
    assert(u.bytes.skip(0) =~= u.bytes);
    if written > u.seq {
        assert(a.bytes =~= u.bytes.skip(written - u.seq));
    }
    assert(a.bytes.skip(0) =~= a.bytes);
    if u.bytes.skip(written - u.seq).len() == 0 {
        assert(u.bytes.skip(written - u.seq) =~= Seq::empty());
    }
}

} // verus!
