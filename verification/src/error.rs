//! The single error type surfaced by every encoder and decoder here.

use vstd::prelude::*;

use crate::hint::NumberHint;
use crate::hint::TypeHint;

verus! {

/// Why an encode or decode call failed.
///
/// The `Expected*` variants carry the [`TypeHint`] describing what the
/// decoder was offering instead of the requested shape.
#[derive(Clone, Debug, PartialEq, Eq)]
pub enum CodecError {
    /// A unit was requested but the data has another shape.
    ExpectedUnit(TypeHint),
    /// A boolean was requested but the data has another shape.
    ExpectedBool(TypeHint),
    /// A character was requested but the data has another shape.
    ExpectedChar(TypeHint),
    /// A number of the given width was requested but the data has another shape.
    ExpectedNumber(NumberHint, TypeHint),
    /// Bytes were requested but the data has another shape.
    ExpectedBytes(TypeHint),
    /// A string was requested but the data has another shape.
    ExpectedString(TypeHint),
    /// A sequence was requested but the data has another shape.
    ExpectedSequence(TypeHint),
    /// A map was requested but the data has another shape.
    ExpectedMap(TypeHint),
    /// A variant was requested but the data has another shape.
    ExpectedVariant(TypeHint),
    /// An option was requested but the data has another shape.
    ExpectedOption(TypeHint),
    /// A pack was requested but the data has another shape.
    ExpectedPack(TypeHint),
    /// The format cannot satisfy the requested operation.
    InvalidType,
    /// A fixed-size array decode met a length mismatch.
    ArrayOutOfBounds,
    /// A pack ran out of elements.
    ExpectedPackValue,
    /// The reader ran out of input.
    OutOfInput,
    /// A bounded writer ran out of room.
    BufferOverflow,
    /// Length arithmetic overflowed, or a wire value exceeds the host width.
    IntegerOverflow,
    /// A variable-length integer used more bytes than its width allows.
    OverlongEncoding,
    /// A string payload is not valid UTF-8.
    InvalidUtf8,
    /// A character payload is not a Unicode scalar value.
    InvalidChar,
}

impl CodecError {
    /// The short human-readable name of each error.
    pub open spec fn spec_describe(&self) -> Seq<char> {
        match self {
            CodecError::ExpectedUnit(_) => "expected unit"@,
            CodecError::ExpectedBool(_) => "expected bool"@,
            CodecError::ExpectedChar(_) => "expected char"@,
            CodecError::ExpectedNumber(_, _) => "expected number"@,
            CodecError::ExpectedBytes(_) => "expected bytes"@,
            CodecError::ExpectedString(_) => "expected string"@,
            CodecError::ExpectedSequence(_) => "expected sequence"@,
            CodecError::ExpectedMap(_) => "expected map"@,
            CodecError::ExpectedVariant(_) => "expected variant"@,
            CodecError::ExpectedOption(_) => "expected option"@,
            CodecError::ExpectedPack(_) => "expected pack"@,
            CodecError::InvalidType => "invalid type"@,
            CodecError::ArrayOutOfBounds => "array out of bounds"@,
            CodecError::ExpectedPackValue => "expected pack value"@,
            CodecError::OutOfInput => "out of input"@,
            CodecError::BufferOverflow => "buffer overflow"@,
            CodecError::IntegerOverflow => "integer overflow"@,
            CodecError::OverlongEncoding => "overlong encoding"@,
            CodecError::InvalidUtf8 => "invalid utf-8"@,
            CodecError::InvalidChar => "invalid character"@,
        }
    }

    /// A short human-readable name for the error, for diagnostics.
    pub fn describe(&self) -> (r: String)
        ensures
            r@ == self.spec_describe(),
    {
        match self {
            CodecError::ExpectedUnit(_) => String::from_str("expected unit"),
            CodecError::ExpectedBool(_) => String::from_str("expected bool"),
            CodecError::ExpectedChar(_) => String::from_str("expected char"),
            CodecError::ExpectedNumber(_, _) => String::from_str("expected number"),
            CodecError::ExpectedBytes(_) => String::from_str("expected bytes"),
            CodecError::ExpectedString(_) => String::from_str("expected string"),
            CodecError::ExpectedSequence(_) => String::from_str("expected sequence"),
            CodecError::ExpectedMap(_) => String::from_str("expected map"),
            CodecError::ExpectedVariant(_) => String::from_str("expected variant"),
            CodecError::ExpectedOption(_) => String::from_str("expected option"),
            CodecError::ExpectedPack(_) => String::from_str("expected pack"),
            CodecError::InvalidType => String::from_str("invalid type"),
            CodecError::ArrayOutOfBounds => String::from_str("array out of bounds"),
            CodecError::ExpectedPackValue => String::from_str("expected pack value"),
            CodecError::OutOfInput => String::from_str("out of input"),
            CodecError::BufferOverflow => String::from_str("buffer overflow"),
            CodecError::IntegerOverflow => String::from_str("integer overflow"),
            CodecError::OverlongEncoding => String::from_str("overlong encoding"),
            CodecError::InvalidUtf8 => String::from_str("invalid utf-8"),
            CodecError::InvalidChar => String::from_str("invalid character"),
        }
    }
}

} // verus!
