//! Caller-supplied receivers for byte, string and open-ended number data.
//!
//! Byte and string decoding is visitor-driven in the generic protocol
//! because formats differ in whether they can hand out a borrowed slice,
//! an owned buffer, or only a transient reference.  A visitor decides which
//! forms it accepts; a decoder calls the strongest entry point it can
//! honour.

use vstd::prelude::*;

use crate::error::CodecError;

verus! {

/// A receiver for byte data from a decoder.
///
/// The entry points stand in decreasing order of preference: a buffer the
/// decoder materialized and hands over, then a transient reference the
/// visitor must copy from.  An implementation accepting only one form
/// rejects the others with `CodecError::InvalidType`.
pub trait ValueVisitor: Sized {
    /// The value the visitor produces.
    type Output;

    /// What the visitor expects, named for error messages.
    fn expecting(&self) -> String;

    /// Visit a buffer the decoder materialized; the visitor owns it.
    fn visit_owned(self, value: Vec<u8>) -> Result<Self::Output, CodecError>;

    /// Visit a transient reference; the visitor must copy what it keeps.
    fn visit_any(self, value: &[u8]) -> Result<Self::Output, CodecError>;
}

/// A receiver for numbers too wide for any fixed-width entry point.
///
/// The formats here never produce such numbers; the trait keeps the door
/// open for ones that do.
pub trait NumberVisitor: Sized {
    /// The value the visitor produces.
    type Output;

    /// What the visitor expects, named for error messages.
    fn expecting(&self) -> String;

    /// Visit a number given as mantissa words, exponent and sign.
    fn visit_components(
        self,
        mantissa_lo: u128,
        mantissa_hi: u128,
        exponent: u32,
        sign: u32,
    ) -> Result<Self::Output, CodecError>;
}

} // verus!
