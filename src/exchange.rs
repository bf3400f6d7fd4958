//! The host's side of an exchange: framing a command for sending, and
//! collecting the device's response from the bytes that come back.
use crate::cobs::{cobs_frame, is_frame, TERMINATOR};
use crate::codec::{Codec, DeserializeError, RESPONSE_MAX_SERIALIZED_LEN};
use crate::message::Response;
use vstd::prelude::*;

verus! {

/// Why no response was obtained.
#[derive(Clone, Copy, Debug, PartialEq, Eq, Structural)]
pub enum ResponseError {
    /// No complete frame arrived in time.
    Timeout,
}

/// The frame of `value`, ready to be written to the link. It holds no zero
/// byte but its last, and deserializes back to `value` whatever follows it.
pub fn frame<T: Codec>(value: &T) -> (r: Vec<u8>)
    ensures
        r@ == cobs_frame(value.wire_spec()),
        is_frame(r@),
        forall|rest: Seq<u8>|
            #[trigger] T::deserialized(r@ + rest) == Ok::<T, DeserializeError>(*value),
{
    let mut buf: Vec<u8> = Vec::new();
    let mut i: usize = 0;
    while i < T::MAX_SERIALIZED_LEN
        invariant
            buf@.len() == i,
            i <= T::MAX_SERIALIZED_LEN,
        decreases T::MAX_SERIALIZED_LEN - i,
    {
        buf.push(0);
        i = i + 1;
    }
    proof {
        value.lemma_layout();
    }
    let n = match value.serialize(buf.as_mut_slice()) {
        Ok(n) => n,
        Err(_) => {
            assert(false);
            0
        },
    };
    buf.truncate(n);
    buf
}

/// Whether the bytes collected so far end the exchange: a terminator has
/// arrived, or the buffer is full.
pub open spec fn collection_complete(collected: Seq<u8>) -> bool {
    ||| collected.len() >= RESPONSE_MAX_SERIALIZED_LEN
    ||| (collected.len() > 0 && collected.last() == TERMINATOR)
}

/// The bytes of a response arriving at the host, one at a time.
pub struct ResponseCollector {
    buf: Vec<u8>,
}

impl View for ResponseCollector {
    type V = Seq<u8>;

    /// The bytes collected so far.
    closed spec fn view(&self) -> Seq<u8> {
        self.buf@
    }
}

impl ResponseCollector {
    /// A collector that holds no byte yet.
    pub fn new() -> (r: ResponseCollector)
        ensures
            r@ == Seq::<u8>::empty(),
    {
        ResponseCollector { buf: Vec::with_capacity(RESPONSE_MAX_SERIALIZED_LEN) }
    }

    /// Whether no more bytes should be read.
    pub fn is_complete(&self) -> (r: bool)
        ensures
            r == collection_complete(self@),
    {
        let n = self.buf.len();
        n >= RESPONSE_MAX_SERIALIZED_LEN || (n > 0 && self.buf[n - 1] == TERMINATOR)
    }

    /// Adds a byte read from the link; returns whether no more bytes should be
    /// read.
    pub fn push(&mut self, byte: u8) -> (done: bool)
        requires
            !collection_complete(old(self)@),
        ensures
            final(self)@ == old(self)@.push(byte),
            done == collection_complete(final(self)@),
    {
        self.buf.push(byte);
        self.is_complete()
    }

    /// Deserializes the response from the bytes collected.
    pub fn finish(&mut self) -> (r: Result<Response, DeserializeError>)
        ensures
            r == <Response as Codec>::deserialized(old(self)@),
    {
        Response::deserialize_in_place(self.buf.as_mut_slice())
    }
}

} // verus!
