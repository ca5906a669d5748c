//! Consistent Overhead Byte Stuffing, as computed by the `cobs` crate.
//!
//! COBS turns a message into one that holds no zero byte, so that a zero
//! byte can mark where a frame ends.

use vstd::prelude::*;

verus! {

/// What `cobs::encode` writes for `source`.
pub uninterp spec fn cobs_encoding(source: Seq<u8>) -> Seq<u8>;

/// What `cobs::decode` makes of `source`: the decoded message, or `None`
/// where it reports a decoding error.
pub uninterp spec fn cobs_decoding(source: Seq<u8>) -> Option<Seq<u8>>;

/// The number of bytes that `cobs::encode` may write for a message of
/// `n` bytes.
pub open spec fn cobs_encoding_room(n: nat) -> nat {
    n + n / 254 + 1
}

/// Calls `cobs::encode(source, dest)`.
///
/// The function writes the encoding at the start of `dest`, no byte past
/// it, and returns its length. A non-empty message takes one byte more
/// than its own length, plus one per run of 254 bytes without a zero (an
/// empty message takes none), so
/// `cobs_encoding_room` bytes are enough; with fewer the function may index
/// past the end of `dest` and panic, which `requires` rules out. As the
/// crate's tests check, the encoding holds no zero byte and `cobs::decode`
/// gives the message back from it.
#[verifier::external_body]
pub(crate) fn cobs_encode(source: &[u8], dest: &mut [u8]) -> (n: usize)
    requires
        old(dest)@.len() >= cobs_encoding_room(source@.len()),
    ensures
        n == cobs_encoding(source@).len(),
        source@.len() <= n,
        final(dest)@ == cobs_encoding(source@) + old(dest)@.skip(n as int),
        n <= cobs_encoding_room(source@.len()),
        forall|i: int| 0 <= i < n ==> #[trigger] final(dest)@[i] != 0u8,
        cobs_decoding(final(dest)@.take(n as int)) == Some(source@),
{
    cobs::encode(source, dest)
}

/// Calls `cobs::decode(source, dest)`.
///
/// The function writes the decoded message at the start of `dest` and
/// returns its length, or reports `Err(())` on an ill-formed encoding.
/// Each decoded byte uses up at least one byte of `source`, so a `dest` as
/// long as `source` is enough; `requires` rules out a shorter one, on which
/// the function may index past the end of `dest` and panic. On success it
/// writes no byte past the decoded message; what it leaves in `dest` when it
/// reports an error is not stated.
#[verifier::external_body]
pub(crate) fn cobs_decode(source: &[u8], dest: &mut [u8]) -> (r: Result<usize, ()>)
    requires
        old(dest)@.len() >= source@.len(),
    ensures
        final(dest)@.len() == old(dest)@.len(),
        match r {
            Ok(n) => {
                &&& n <= source@.len()
                &&& cobs_decoding(source@) == Some(final(dest)@.take(n as int))
                &&& final(dest)@.skip(n as int) == old(dest)@.skip(n as int)
            },
            Err(_) => cobs_decoding(source@) is None,
        },
{
    cobs::decode(source, dest)
}

} // verus!
