//! Turning messages into frames for the serial link, and back.
use crate::cobs::{
    cobs_decode_in_place, cobs_encode, cobs_frame, cobs_max_encoded_len, cobs_unframe, is_frame,
    max_encoded_len,
};
use crate::message::{Command, Response};
use crate::wire::{
    lemma_command_layout_exact, lemma_command_round_trip, lemma_response_layout_exact,
    lemma_response_round_trip, parse_command, parse_response, read_command, read_response,
    write_command, write_response, COMMAND_WIRE_MAX, RESPONSE_WIRE_MAX,
};
use vstd::prelude::*;

verus! {

/// One word of slack that every frame buffer reserves beyond the longest
/// layout.
pub const SLACK_LEN: usize = 4;

/// Length of a buffer that holds the frame of any command: the longest
/// command layout plus the slack word, with the worst-case overhead of byte
/// stuffing and the terminator.
pub const COMMAND_MAX_SERIALIZED_LEN: usize = COMMAND_WIRE_MAX + SLACK_LEN + (COMMAND_WIRE_MAX
    + SLACK_LEN + 253) / 254 + 1;

/// Length of a buffer that holds the frame of any response: the longest
/// response layout plus the slack word, with the worst-case overhead of byte
/// stuffing and the terminator.
pub const RESPONSE_MAX_SERIALIZED_LEN: usize = RESPONSE_WIRE_MAX + SLACK_LEN + (RESPONSE_WIRE_MAX
    + SLACK_LEN + 253) / 254 + 1;

/// Why a message could not be serialized.
#[derive(Clone, Copy, Debug, PartialEq, Eq, Structural)]
pub enum SerializeError {
    /// The output buffer is shorter than the worst-case frame of the message.
    BufferTooSmall,
}

/// Why a frame could not be deserialized.
#[derive(Clone, Copy, Debug, PartialEq, Eq, Structural)]
pub enum DeserializeError {
    /// The byte stuffing of the frame is invalid.
    InvalidFrame,
    /// The unstuffed bytes are not exactly the layout of one message.
    InvalidLayout,
}

/// Messages that can be passed to and from the device over the serial link.
pub trait Codec: Sized {
    /// Length of a buffer that holds the frame of any value of the type.
    const MAX_SERIALIZED_LEN: usize;

    /// The fixed-width layout of the value.
    spec fn wire_spec(&self) -> Seq<u8>;

    /// The value laid out in exactly `bytes`.
    spec fn parse_spec(bytes: Seq<u8>) -> Option<Self>;

    /// What deserializing `bytes` gives: the frame at their start is unstuffed,
    /// and the bytes recovered must be the layout of one value.
    open spec fn deserialized(bytes: Seq<u8>) -> Result<Self, DeserializeError> {
        match cobs_unframe(bytes) {
            None => Err(DeserializeError::InvalidFrame),
            Some(d) => match Self::parse_spec(d) {
                Some(v) => Ok(v),
                None => Err(DeserializeError::InvalidLayout),
            },
        }
    }

    /// Bytes parse as a value exactly when they are its layout, and the
    /// worst-case frame of the layout fits in `MAX_SERIALIZED_LEN` bytes.
    proof fn lemma_layout(&self)
        ensures
            Self::parse_spec(self.wire_spec()) == Some(*self),
            forall|bytes: Seq<u8>|
                #[trigger] Self::parse_spec(bytes) == Some(*self) <==> self.wire_spec() == bytes,
            max_encoded_len(self.wire_spec().len()) <= Self::MAX_SERIALIZED_LEN,
    ;

    /// Writes the frame of the value at the start of `out_buf` and returns its
    /// length; fails, leaving `out_buf` unchanged, where `out_buf` is shorter
    /// than the worst-case frame of the value's layout.
    fn serialize(&self, out_buf: &mut [u8]) -> (r: Result<usize, SerializeError>)
        ensures
            final(out_buf)@.len() == old(out_buf)@.len(),
            old(out_buf)@.len() < max_encoded_len(self.wire_spec().len()) ==> {
                &&& r == Err::<usize, SerializeError>(SerializeError::BufferTooSmall)
                &&& final(out_buf)@ == old(out_buf)@
            },
            old(out_buf)@.len() >= max_encoded_len(self.wire_spec().len()) ==> (r matches Ok(n)
                && n == cobs_frame(self.wire_spec()).len()),
            r matches Ok(n) ==> {
                &&& n <= old(out_buf)@.len()
                &&& final(out_buf)@.subrange(0, n as int) == cobs_frame(self.wire_spec())
                &&& final(out_buf)@.subrange(n as int, final(out_buf)@.len() as int)
                    == old(out_buf)@.subrange(n as int, old(out_buf)@.len() as int)
                &&& is_frame(final(out_buf)@.subrange(0, n as int))
                &&& forall|rest: Seq<u8>|
                    #[trigger] Self::deserialized(final(out_buf)@.subrange(0, n as int) + rest)
                        == Ok::<Self, DeserializeError>(*self)
            },
    ;

    /// Reads the value from the frame at the start of `in_buf`, unstuffing it
    /// in place: the bytes recovered must be the layout of one value.
    fn deserialize_in_place(in_buf: &mut [u8]) -> (r: Result<Self, DeserializeError>)
        ensures
            final(in_buf)@.len() == old(in_buf)@.len(),
            r == Self::deserialized(old(in_buf)@),
    ;
}

impl Codec for Command {
    const MAX_SERIALIZED_LEN: usize = COMMAND_MAX_SERIALIZED_LEN;

    open spec fn wire_spec(&self) -> Seq<u8> {
        self.wire()
    }

    open spec fn parse_spec(bytes: Seq<u8>) -> Option<Command> {
        parse_command(bytes)
    }

    proof fn lemma_layout(&self) {
        lemma_command_round_trip(*self);
        assert forall|bytes: Seq<u8>|
            #[trigger] parse_command(bytes) == Some(*self) <==> self.wire() == bytes by {
            lemma_command_layout_exact(bytes, *self);
        }
    }

    fn serialize(&self, out_buf: &mut [u8]) -> (r: Result<usize, SerializeError>) {
        let mut layout: Vec<u8> = Vec::new();
        write_command(self, &mut layout);
        proof {
            lemma_command_round_trip(*self);
        }
        if out_buf.len() < cobs_max_encoded_len(layout.len()) {
            return Err(SerializeError::BufferTooSmall);
        }
        let n = cobs_encode(layout.as_slice(), out_buf);
        Ok(n)
    }

    fn deserialize_in_place(in_buf: &mut [u8]) -> (r: Result<Command, DeserializeError>) {
        match cobs_decode_in_place(in_buf) {
            Err(_) => Err(DeserializeError::InvalidFrame),
            Ok(n) => match read_command(in_buf, 0, n) {
                Some(c) => Ok(c),
                None => Err(DeserializeError::InvalidLayout),
            },
        }
    }
}

impl Codec for Response {
    const MAX_SERIALIZED_LEN: usize = RESPONSE_MAX_SERIALIZED_LEN;

    open spec fn wire_spec(&self) -> Seq<u8> {
        self.wire()
    }

    open spec fn parse_spec(bytes: Seq<u8>) -> Option<Response> {
        parse_response(bytes)
    }

    proof fn lemma_layout(&self) {
        lemma_response_round_trip(*self);
        assert forall|bytes: Seq<u8>|
            #[trigger] parse_response(bytes) == Some(*self) <==> self.wire() == bytes by {
            lemma_response_layout_exact(bytes, *self);
        }
    }

    fn serialize(&self, out_buf: &mut [u8]) -> (r: Result<usize, SerializeError>) {
        let mut layout: Vec<u8> = Vec::new();
        write_response(self, &mut layout);
        proof {
            lemma_response_round_trip(*self);
        }
        if out_buf.len() < cobs_max_encoded_len(layout.len()) {
            return Err(SerializeError::BufferTooSmall);
        }
        let n = cobs_encode(layout.as_slice(), out_buf);
        Ok(n)
    }

    fn deserialize_in_place(in_buf: &mut [u8]) -> (r: Result<Response, DeserializeError>) {
        match cobs_decode_in_place(in_buf) {
            Err(_) => Err(DeserializeError::InvalidFrame),
            Ok(n) => match read_response(in_buf, 0, n) {
                Some(c) => Ok(c),
                None => Err(DeserializeError::InvalidLayout),
            },
        }
    }
}

} // verus!
