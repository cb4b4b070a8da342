//! Errors of the codec and of the exchange client.
use vstd::prelude::*;

use crate::protocol::AuroraStatus;

verus! {

/// Why a value could not be written.
#[derive(Debug, Clone, PartialEq, Eq)]
pub enum EncodeError {
    /// A string or a vector is longer than a 16-bit length prefix can count.
    TooManyElements { allowed: usize, actual: usize },
    /// The underlying stream failed.
    IoError,
}

/// Why a value could not be read.
#[derive(Debug, Clone, PartialEq, Eq)]
pub enum DecodeError {
    /// The input ended before the value did, or the stream failed.
    IoError,
    /// A discriminant or a tag that no variant of `enum_name` carries.
    InvalidEnumVariant { variant_value: String, enum_name: String },
    /// A string whose bytes are not UTF-8.
    FromUtf8Error,
}

/// Why a key, a signature or a digest could not be read from base64.
#[derive(Debug, Clone, PartialEq, Eq)]
pub enum Base64Error {
    /// The text is not canonical unpadded base64.
    InvalidBase64,
    /// The text decodes to the wrong number of bytes.
    InvalidLength { expected: usize, actual: usize },
}

/// Why a call to a peer failed as a whole.
#[derive(Debug, Clone)]
pub enum ClientError {
    MissingPayload,
    UnexpectedResponseCode { status: AuroraStatus },
    Encode(EncodeError),
    Decode(DecodeError),
    InvalidSignature,
    /// The transport to the peer failed.
    Transport,
    /// The local repositories failed.
    Database,
}

} // verus!
