//! The error taxonomy shared by the encoder, the decoder and the size oracle.

use vstd::prelude::*;

verus! {

/// Errors that can result from encoding or decoding a value.
#[derive(Copy, Clone, Debug, PartialEq, Eq, Structural)]
pub enum Error {
    /// A `Serialize` or `Deserialize` collaborator outside the core produced
    /// an opaque error. The core itself never produces this variant.
    Custom,
    /// Encoding a value failed because there were not enough bytes available
    /// in the destination buffer.
    Overrun,
    /// The type declares an enum with more than 256 variants, which the
    /// one-byte variant tag cannot represent.
    TooManyVariants,
    /// The type lies outside the closed set of supported shapes, such as a
    /// sequence, map, or `char`.
    NotSupported,
    /// Decoding a value failed because its encoded representation ended
    /// unexpectedly.
    Truncated,
    /// Decoding a value failed because an encoded byte was out of range for
    /// its type, such as a `bool` position holding the value `39`.
    Invalid,
}

impl Error {
    /// A human-readable description of the error.
    pub fn message(&self) -> (r: &'static str)
        ensures
            r@ == match *self {
                Error::Custom => "Custom"@,
                Error::Overrun => "serialization buffer too small"@,
                Error::TooManyVariants => "too many enum variants (format only supports 256)"@,
                Error::NotSupported => "type not supported"@,
                Error::Truncated => "truncated"@,
                Error::Invalid => "invalid/corrupt"@,
            },
    {
        match *self {
            Error::Custom => "Custom",
            Error::Overrun => "serialization buffer too small",
            Error::TooManyVariants => "too many enum variants (format only supports 256)",
            Error::NotSupported => "type not supported",
            Error::Truncated => "truncated",
            Error::Invalid => "invalid/corrupt",
        }
    }
}

} // verus!
