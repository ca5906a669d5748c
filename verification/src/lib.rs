//! Send and receive data over lossy streams of bytes.
//!
//! A payload is sent as a frame: the payload followed by a checksum over
//! it, [COBS]-encoded so that it holds no zero byte, then a terminating
//! zero byte (`FRAME_END_SYMBOL`).
//!
//! [COBS]: https://en.wikipedia.org/wiki/Consistent_Overhead_Byte_Stuffing

use vstd::prelude::*;

pub mod bytes;
pub mod checksum;
pub mod error;
pub mod plain;
pub mod stuffing;
pub mod test_type;
pub mod typed;

pub use error::{Error, Result};

verus! {

/// The frame ends with (and includes) this byte.
///
/// Consumers can read encoded data into a buffer until they encounter
/// this value and then use one of the `decode_*` functions to decode
/// the frame's payload.
pub const FRAME_END_SYMBOL: u8 = 0;


/// Arbitrary user data.
pub type Payload = [u8];

/// Data that is encoded as a frame. It is ready to send, or may have
/// just been received.
pub type Encoded = [u8];

/// A buffer that is used as temporary storage.
/// There are no guarantees on its contents after use.
pub type TempBuffer = [u8];

/// Heap-allocated user data used as a return type.
#[derive(Debug)]
pub struct BoxPayload(Vec<u8>);

impl View for BoxPayload {
    type V = Seq<u8>;

    closed spec fn view(&self) -> Seq<u8> {
        self.0@
    }
}

impl From<Vec<u8>> for BoxPayload {
    fn from(v: Vec<u8>) -> (b: BoxPayload)
        ensures
            b@ == v@,
    {
        BoxPayload(v)
    }
}

impl vstd::std_specs::convert::FromSpecImpl<Vec<u8>> for BoxPayload {
    open spec fn obeys_from_spec() -> bool {
        true
    }

    closed spec fn from_spec(v: Vec<u8>) -> BoxPayload {
        BoxPayload(v)
    }
}

impl core::ops::Deref for BoxPayload {
    type Target = [u8];

    fn deref(&self) -> (s: &[u8])
        ensures
            s@ == self@,
    {
        self.0.as_slice()
    }
}

/// Heap-allocated frame data used as a return type.
#[derive(Debug)]
pub struct BoxEncoded(Vec<u8>);

impl View for BoxEncoded {
    type V = Seq<u8>;

    closed spec fn view(&self) -> Seq<u8> {
        self.0@
    }
}

impl From<Vec<u8>> for BoxEncoded {
    fn from(v: Vec<u8>) -> (b: BoxEncoded)
        ensures
            b@ == v@,
    {
        BoxEncoded(v)
    }
}

impl vstd::std_specs::convert::FromSpecImpl<Vec<u8>> for BoxEncoded {
    open spec fn obeys_from_spec() -> bool {
        true
    }

    closed spec fn from_spec(v: Vec<u8>) -> BoxEncoded {
        BoxEncoded(v)
    }
}

impl core::ops::Deref for BoxEncoded {
    type Target = [u8];

    fn deref(&self) -> (s: &[u8])
        ensures
            s@ == self@,
    {
        self.0.as_slice()
    }
}

} // verus!
