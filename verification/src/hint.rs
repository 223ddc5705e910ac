//! Hints with which a decoder pre-announces the shape of the next item.

use vstd::prelude::*;

verus! {

/// What a decoder knows about an upcoming length.
#[derive(Clone, Copy, Debug, PartialEq, Eq, Structural)]
pub enum LengthHint {
    /// The length is not known up front.
    Any,
    /// Exactly this many elements or bytes follow.
    Exact(usize),
}

impl LengthHint {
    /// The hinted length, usable as a capacity hint; zero when unknown.
    pub open spec fn spec_size_hint(self) -> usize {
        match self {
            LengthHint::Any => 0,
            LengthHint::Exact(n) => n,
        }
    }

    /// Executable counterpart of [`LengthHint::spec_size_hint`].
    pub fn size_hint(self) -> (r: usize)
        ensures
            r == self.spec_size_hint(),
    {
        match self {
            LengthHint::Any => 0,
            LengthHint::Exact(n) => n,
        }
    }
}

/// The numeric width a decoder is about to produce.
///
/// The two float widths name IEEE 754 bit patterns; on the wire they travel
/// as unsigned integers of the same width.
#[derive(Clone, Copy, Debug, PartialEq, Eq, Structural)]
pub enum NumberHint {
    /// Width unknown.
    Any,
    /// `u8`
    U8,
    /// `u16`
    U16,
    /// `u32`
    U32,
    /// `u64`
    U64,
    /// `u128`
    U128,
    /// `i8`
    I8,
    /// `i16`
    I16,
    /// `i32`
    I32,
    /// `i64`
    I64,
    /// `i128`
    I128,
    /// `usize`
    Usize,
    /// `isize`
    Isize,
    /// `f32`, carried as its 32 raw bits
    F32,
    /// `f64`, carried as its 64 raw bits
    F64,
}

/// The shape a decoder is about to produce.
#[derive(Clone, Copy, Debug, PartialEq, Eq, Structural)]
pub enum TypeHint {
    /// The decoder cannot say; self-describing decoding is impossible.
    Any,
    /// A unit value.
    Unit,
    /// A boolean.
    Bool,
    /// A character.
    Char,
    /// A number of the hinted width.
    Number(NumberHint),
    /// A byte sequence of the hinted length.
    Bytes(LengthHint),
    /// A string of the hinted byte length.
    String(LengthHint),
    /// An ordered sequence of the hinted length.
    Sequence(LengthHint),
    /// A map of the hinted number of pairs.
    Mapping(LengthHint),
    /// A tagged variant.
    Variant,
}

} // verus!
