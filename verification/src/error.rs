//! Errors. Configuration errors are detected before any allocation, one
//! specific kind per violated rule; decoding errors belong to the decode
//! path of the encoded credential string.
use vstd::prelude::*;

verus! {

#[derive(Clone, Copy, Debug, PartialEq, Eq, Structural)]
pub enum Error {
    /// The degree of parallelism is zero.
    InvalidLanes,
    /// The memory cost allows fewer than eight blocks per lane.
    InvalidMemCost,
    /// The number of passes is zero.
    InvalidTimeCost,
    /// The requested tag length is shorter than four bytes.
    InvalidHashLength,
    /// The keying material is longer than 2^32 - 1 bytes.
    SecretTooLong,
    /// The associated data is longer than 2^32 - 1 bytes.
    AdTooLong,
    /// The password is longer than 2^32 - 1 bytes.
    PwdTooLong,
    /// The salt is shorter than 8 bytes or longer than 2^32 - 1 bytes.
    SaltTooShortOrTooLong,
}

#[derive(Clone, Copy, Debug, PartialEq, Eq, Structural)]
pub enum DecodingError {
    /// The string does not have the expected framing.
    MalformedPrefix,
    /// The variant name is not one of the three known ones.
    UnsupportedVariant,
    /// The version number is neither 16 nor 19.
    UnsupportedVersion,
    /// A base64 section holds a character outside the alphabet, or has an
    /// impossible length.
    InvalidBase64,
    /// A numeric field does not fit its range.
    LengthMismatch,
}

} // verus!
