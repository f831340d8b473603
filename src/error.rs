//! The errors of the encoder and the decoder.
use vstd::prelude::*;

use crate::format::Fault;

verus! {

/// A failure while encoding; each carries a message with the context path.
#[derive(Clone, Debug, PartialEq, Eq)]
pub enum EncodeError {
    /// A string too long for a 32-bit length.
    StrWriteError(String),
    /// A byte buffer too long for a 32-bit length.
    BinWriteError(String),
    /// An array too long for a 32-bit length.
    ArrayWriteError(String),
    /// A map too large for a 32-bit length.
    MapWriteError(String),
    /// A structured value that could not be rendered as text.
    JSONWriteError(String),
}

/// A failure while decoding; each carries a message with the context path.
#[derive(Clone, Debug, PartialEq, Eq)]
pub enum DecodeError {
    /// The buffer ended before the value did.
    IOError(String),
    /// The leading byte matches no tag of the format.
    UnknownFormat(String),
    /// The tag is not one of the type expected.
    WrongMsgPackFormat(String),
    /// The integer does not fit the type expected.
    IntRangeError(String),
    /// A string payload that is not valid UTF-8.
    StrReadError(String),
    /// A required field that the object never held.
    MissingField(String),
    /// A field name that the object's type does not declare.
    UnknownFieldName(String),
    /// An integer or a name that is no variant of the enum.
    EnumProcessingError(String),
    /// Decimal text that is no integer.
    ParseBigIntError(String),
    /// Text that is no structured value.
    JSONReadError(String),
}

/// Whether a decode error is the one that reports a fault.
pub open spec fn reports(e: DecodeError, f: Fault) -> bool {
    match f {
        Fault::Exhausted => e is IOError,
        Fault::UnknownTag => e is UnknownFormat,
        Fault::WrongType => e is WrongMsgPackFormat,
        Fault::OutOfRange => e is IntRangeError,
        Fault::InvalidText => e is StrReadError,
    }
}

impl DecodeError {
    /// The error that reports a fault, with the message given.
    pub fn from_fault(f: Fault, message: String) -> (r: DecodeError)
        ensures
            reports(r, f),
    {
        match f {
            Fault::Exhausted => DecodeError::IOError(message),
            Fault::UnknownTag => DecodeError::UnknownFormat(message),
            Fault::WrongType => DecodeError::WrongMsgPackFormat(message),
            Fault::OutOfRange => DecodeError::IntRangeError(message),
            Fault::InvalidText => DecodeError::StrReadError(message),
        }
    }
}

} // verus!
