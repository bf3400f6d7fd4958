//! The device's reassembly of commands from the bytes that arrive on the link.
use crate::cobs::{is_frame, TERMINATOR};
use crate::codec::{Codec, DeserializeError, COMMAND_MAX_SERIALIZED_LEN};
use crate::message::{Command, RejectReason, Response};
use vstd::prelude::*;

verus! {

/// What the arrival of a byte gives.
#[derive(Clone, Copy, Debug, PartialEq, Eq, Structural)]
pub enum Received {
    /// A frame ended and held this command.
    Command(Command),
    /// The device answers at once with this response, without a command.
    Reply(Response),
}

/// The reply to a corrupted or overlong frame.
pub open spec fn corrupted() -> Received {
    Received::Reply(Response::Rejected(RejectReason::CorruptedFrame))
}

/// Capacity of the accumulation buffer: the longest command frame.
pub open spec fn capacity() -> nat {
    COMMAND_MAX_SERIALIZED_LEN as nat
}

/// What a complete frame gives: its command, or a rejection.
pub open spec fn frame_outcome(frame: Seq<u8>) -> Received {
    match <Command as Codec>::deserialized(frame) {
        Ok(c) => Received::Command(c),
        Err(_) => corrupted(),
    }
}

/// The pending bytes after one more byte arrives, and what it gives.
///
/// A byte that finds the buffer full is discarded, the buffer is emptied and
/// the frame rejected. Otherwise the byte is appended; a terminator ends the
/// frame, which is decoded, and empties the buffer.
pub open spec fn receive_step(pending: Seq<u8>, byte: u8) -> (Seq<u8>, Option<Received>) {
    if pending.len() >= capacity() {
        (Seq::empty(), Some(corrupted()))
    } else if byte == TERMINATOR {
        (Seq::empty(), Some(frame_outcome(pending.push(byte))))
    } else {
        (pending.push(byte), None)
    }
}

/// The pending bytes after the bytes of `bytes` arrive in order, and what they
/// give.
pub open spec fn feed(pending: Seq<u8>, bytes: Seq<u8>) -> (Seq<u8>, Seq<Received>)
    decreases bytes.len(),
{
    if bytes.len() == 0 {
        (pending, Seq::empty())
    } else {
        let (p1, out) = feed(pending, bytes.drop_last());
        let (p2, e) = receive_step(p1, bytes.last());
        (
            p2,
            match e {
                Some(ev) => out.push(ev),
                None => out,
            },
        )
    }
}

/// Feeding two runs of bytes is feeding the first, then the second.
pub proof fn lemma_feed_append(p: Seq<u8>, a: Seq<u8>, b: Seq<u8>)
    ensures
        feed(p, a + b) == ({
            let (p1, o1) = feed(p, a);
            let (p2, o2) = feed(p1, b);
            (p2, o1 + o2)
        }),
    decreases b.len(),
{
    if b.len() == 0 {
        assert(a + b =~= a);
        assert(feed(p, a).1 + Seq::<Received>::empty() =~= feed(p, a).1);
    } else {
        assert((a + b).drop_last() =~= a + b.drop_last());
        lemma_feed_append(p, a, b.drop_last());
        let (p1, o1) = feed(p, a);
        let (q, o2) = feed(p1, b.drop_last());
        let (p2, e) = receive_step(q, b.last());
        match e {
            Some(ev) => assert((o1 + o2).push(ev) =~= o1 + o2.push(ev)),
            None => {},
        }
    }
}

/// Bytes other than the terminator that fit in the buffer are appended and
/// give nothing.
proof fn lemma_feed_fill(p: Seq<u8>, bytes: Seq<u8>)
    requires
        p.len() + bytes.len() <= capacity(),
        forall|i: int| 0 <= i < bytes.len() ==> bytes[i] != TERMINATOR,
    ensures
        feed(p, bytes) == (p + bytes, Seq::<Received>::empty()),
    decreases bytes.len(),
{
    if bytes.len() == 0 {
        assert(p + bytes =~= p);
    } else {
        lemma_feed_fill(p, bytes.drop_last());
        assert((p + bytes.drop_last()).push(bytes.last()) =~= p + bytes);
    }
}

/// From an empty buffer, a frame no longer than the buffer gives what it
/// decodes to, and leaves the buffer empty.
pub proof fn lemma_feed_frame(frame: Seq<u8>)
    requires
        is_frame(frame),
        frame.len() <= capacity(),
    ensures
        feed(Seq::empty(), frame) == (Seq::<u8>::empty(), seq![frame_outcome(frame)]),
{
    let body = frame.drop_last();
    lemma_feed_fill(Seq::empty(), body);
    assert(Seq::<u8>::empty() + body =~= body);
    assert(frame.drop_last() == body);
    assert(body.push(frame.last()) =~= frame);
    assert(Seq::<Received>::empty().push(frame_outcome(frame)) =~= seq![frame_outcome(frame)]);
}

/// More than a buffer's worth of bytes without a terminator (up to twice the
/// buffer plus one) gives exactly one rejection, and only the bytes after the
/// one that overflowed stay pending. Where exactly one byte more than the
/// buffer holds arrives, the buffer is left empty, and a command frame that
/// follows is decoded as usual.
pub proof fn lemma_overflow(junk: Seq<u8>, frame: Seq<u8>, c: Command)
    requires
        capacity() < junk.len() <= 2 * capacity() + 1,
        forall|i: int| 0 <= i < junk.len() ==> junk[i] != TERMINATOR,
    ensures
        feed(Seq::empty(), junk) == (
            junk.subrange(capacity() + 1 as int, junk.len() as int),
            seq![corrupted()],
        ),
        junk.len() == capacity() + 1 && is_frame(frame) && frame.len() <= capacity()
            && <Command as Codec>::deserialized(frame) == Ok::<Command, DeserializeError>(c)
            ==> feed(Seq::empty(), junk + frame) == (
            Seq::<u8>::empty(),
            seq![corrupted(), Received::Command(c)],
        ),
{
    let cap = capacity() as int;
    let fill = junk.subrange(0, cap);
    let over = junk.subrange(0, cap + 1);
    let rest = junk.subrange(cap + 1, junk.len() as int);
    lemma_feed_fill(Seq::empty(), fill);
    assert(Seq::<u8>::empty() + fill =~= fill);
    assert(over.drop_last() =~= fill);
    assert(Seq::<Received>::empty().push(corrupted()) =~= seq![corrupted()]);
    assert(feed(Seq::empty(), over) == (Seq::<u8>::empty(), seq![corrupted()]));
    lemma_feed_fill(Seq::empty(), rest);
    assert(Seq::<u8>::empty() + rest =~= rest);
    assert(junk =~= over + rest);
    lemma_feed_append(Seq::empty(), over, rest);
    assert(seq![corrupted()] + Seq::<Received>::empty() =~= seq![corrupted()]);
    if junk.len() == capacity() + 1 && is_frame(frame) && frame.len() <= capacity()
        && <Command as Codec>::deserialized(frame) == Ok::<Command, DeserializeError>(c) {
        assert(rest =~= Seq::<u8>::empty());
        lemma_feed_frame(frame);
        lemma_feed_append(Seq::empty(), junk, frame);
        assert(seq![corrupted()] + seq![Received::Command(c)] =~= seq![
            corrupted(),
            Received::Command(c),
        ]);
    }
}

/// Whether `byte` ends a frame.
pub fn is_termination_byte(byte: u8) -> (r: bool)
    ensures
        r == (byte == TERMINATOR),
{
    byte == TERMINATOR
}

/// The device's reassembly state: the bytes of the frame that is arriving,
/// and a second buffer, of the same capacity, that a complete frame is moved
/// to for decoding while the first starts on the next frame.
pub struct Receiver {
    cmd_buf: Vec<u8>,
    frame_buf: Vec<u8>,
}

impl View for Receiver {
    type V = Seq<u8>;

    /// The pending bytes.
    closed spec fn view(&self) -> Seq<u8> {
        self.cmd_buf@
    }
}

impl Receiver {
    /// At most a buffer's worth of bytes is pending.
    pub open spec fn wf(&self) -> bool {
        self@.len() <= capacity()
    }

    /// A receiver with nothing pending.
    pub fn new() -> (r: Receiver)
        ensures
            r.wf(),
            r@ == Seq::<u8>::empty(),
    {
        Receiver {
            cmd_buf: Vec::with_capacity(COMMAND_MAX_SERIALIZED_LEN),
            frame_buf: Vec::with_capacity(COMMAND_MAX_SERIALIZED_LEN),
        }
    }

    /// Takes one byte from the link.
    pub fn receive_byte(&mut self, byte: u8) -> (r: Option<Received>)
        requires
            old(self).wf(),
        ensures
            final(self).wf(),
            (final(self)@, r) == receive_step(old(self)@, byte),
    {
        if self.cmd_buf.len() >= COMMAND_MAX_SERIALIZED_LEN {
            self.cmd_buf.clear();
            return Some(Received::Reply(Response::Rejected(RejectReason::CorruptedFrame)));
        }
        self.cmd_buf.push(byte);
        if !is_termination_byte(byte) {
            return None;
        }
        core::mem::swap(&mut self.cmd_buf, &mut self.frame_buf);
        self.cmd_buf.clear();
        let r = match Command::deserialize_in_place(self.frame_buf.as_mut_slice()) {
            Ok(cmd) => Received::Command(cmd),
            Err(_) => Received::Reply(Response::Rejected(RejectReason::CorruptedFrame)),
        };
        Some(r)
    }

    /// Takes the bytes of `bytes` from the link, in order, and returns what
    /// they give.
    pub fn receive_bytes(&mut self, bytes: &[u8]) -> (r: Vec<Received>)
        requires
            old(self).wf(),
        ensures
            final(self).wf(),
            (final(self)@, r@) == feed(old(self)@, bytes@),
    {
        let ghost p0 = self@;
        let mut out: Vec<Received> = Vec::new();
        let mut i: usize = 0;
        while i < bytes.len()
            invariant
                self.wf(),
                i <= bytes@.len(),
                (self@, out@) == feed(p0, bytes@.take(i as int)),
            decreases bytes@.len() - i,
        {
            assert(bytes@.take(i + 1).drop_last() =~= bytes@.take(i as int));
            if let Some(ev) = self.receive_byte(bytes[i]) {
                out.push(ev);
            }
            i = i + 1;
        }
        assert(bytes@.take(bytes@.len() as int) =~= bytes@);
        out
    }
}

} // verus!
