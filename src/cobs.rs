//! Consistent-overhead byte stuffing (COBS), through the `corncobs` crate.
//!
//! A frame is the stuffed form of some bytes followed by one zero byte, the
//! terminator; the stuffed part holds no zero.
use vstd::prelude::*;

verus! {

/// The byte that ends every frame.
pub const TERMINATOR: u8 = 0;

#[verifier::external_type_specification]
#[verifier::external_body]
pub struct ExCobsError(corncobs::CobsError);

/// The largest frame, terminator included, that `raw_len` bytes can give.
pub open spec fn max_encoded_len(raw_len: nat) -> nat {
    let overhead: nat = if raw_len == 0 {
        1
    } else {
        ((raw_len + 253) / 254) as nat
    };
    raw_len + overhead + 1
}

/// The frame, terminator included, that `corncobs::encode_buf` makes of
/// `data`.
pub uninterp spec fn cobs_frame(data: Seq<u8>) -> Seq<u8>;

/// The bytes that `corncobs::decode_in_place` recovers from the frame at the
/// start of `bytes`, or `None` where it reports an error.
pub uninterp spec fn cobs_unframe(bytes: Seq<u8>) -> Option<Seq<u8>>;

/// `f` is non-empty, ends with the terminator and holds no other zero byte.
pub open spec fn is_frame(f: Seq<u8>) -> bool {
    &&& f.len() >= 1
    &&& f.last() == TERMINATOR
    &&& forall|i: int| 0 <= i < f.len() - 1 ==> f[i] != TERMINATOR
}

/// Relies on `corncobs::max_encoded_len`: it computes `max_encoded_len`; it
/// overflows only near `usize::MAX`.
#[verifier::external_body]
pub(crate) fn cobs_max_encoded_len(raw_len: usize) -> (r: usize)
    requires
        raw_len <= usize::MAX / 2,
    ensures
        r == max_encoded_len(raw_len as nat),
{
    corncobs::max_encoded_len(raw_len)
}

/// Relies on `corncobs::encode_buf`: it writes the frame of `data` at the start
/// of `out`, leaves the rest of `out` unchanged and returns the frame's length,
/// which is the index of its only zero byte plus one and at most
/// `max_encoded_len`; it panics only where `out` is shorter than
/// `max_encoded_len`. The frame decodes back to `data` whatever follows it.
#[verifier::external_body]
pub(crate) fn cobs_encode(data: &[u8], out: &mut [u8]) -> (n: usize)
    requires
        old(out)@.len() >= max_encoded_len(data@.len()),
    ensures
        n == cobs_frame(data@).len(),
        n <= max_encoded_len(data@.len()),
        final(out)@.len() == old(out)@.len(),
        final(out)@.subrange(0, n as int) == cobs_frame(data@),
        final(out)@.subrange(n as int, final(out)@.len() as int) == old(out)@.subrange(
            n as int,
            old(out)@.len() as int,
        ),
        is_frame(final(out)@.subrange(0, n as int)),
        forall|rest: Seq<u8>|
            #[trigger] cobs_unframe(final(out)@.subrange(0, n as int) + rest) == Some(data@),
{
    corncobs::encode_buf(data, out)
}

/// Relies on `corncobs::decode_in_place`: it decodes the frame at the start of
/// `buf` into the start of `buf` and returns the decoded length, which is at
/// most the length of `buf`, or reports an error; it does not panic.
#[verifier::external_body]
pub(crate) fn cobs_decode_in_place(buf: &mut [u8]) -> (r: Result<usize, corncobs::CobsError>)
    ensures
        final(buf)@.len() == old(buf)@.len(),
        match cobs_unframe(old(buf)@) {
            Some(d) => r matches Ok(n) && n == d.len() && n <= old(buf)@.len()
                && final(buf)@.subrange(0, n as int) == d,
            None => r is Err,
        },
{
    corncobs::decode_in_place(buf)
}

} // verus!
