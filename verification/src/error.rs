//! Representations of errors returned by this crate.

use ssmarshal::Error as MarshalError;
use vstd::prelude::*;

verus! {

/// The error type of `std::io`, carried through unread.
#[verifier::external_type_specification]
#[verifier::external_body]
pub struct ExIoError(std::io::Error);

/// The error type of `ssmarshal`, carried through unread.
#[verifier::external_type_specification]
#[verifier::external_body]
pub struct ExSsmarshalError(MarshalError);

/// Errors from this crate.
#[derive(Debug)]
pub enum Error {
    /// COBS decode failed
    CobsDecodeFailed,
    /// End of data while reading a frame; we received some of a frame
    /// but it was incomplete.
    EofDuringFrame,
    /// End of data before a frame started; we received none of a frame.
    EofBeforeFrame,
    /// The supplied value was too short to be an encoded frame
    EncodedFrameTooShort,
    /// The checksum in a frame did not match the checksum of its payload.
    ChecksumError,
    /// Forwarded io::Error.
    Io(std::io::Error),
    /// Forwarded `ssmarshal` error.
    Ssmarshal(MarshalError),
}

/// Type alias for results from this crate.
pub type Result<T> = core::result::Result<T, Error>;

impl From<std::io::Error> for Error {
    fn from(e: std::io::Error) -> (r: Error)
    {
        Error::Io(e)
    }
}

impl vstd::std_specs::convert::FromSpecImpl<std::io::Error> for Error {
    open spec fn obeys_from_spec() -> bool {
        true
    }

    open spec fn from_spec(e: std::io::Error) -> Error {
        Error::Io(e)
    }
}

impl From<MarshalError> for Error {
    fn from(e: MarshalError) -> (r: Error)
    {
        Error::Ssmarshal(e)
    }
}

impl vstd::std_specs::convert::FromSpecImpl<MarshalError> for Error {
    open spec fn obeys_from_spec() -> bool {
        true
    }

    open spec fn from_spec(e: MarshalError) -> Error {
        Error::Ssmarshal(e)
    }
}

} // verus!
