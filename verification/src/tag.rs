//! The one-byte type discriminator that introduces every wire record.
//!
//! A tag byte packs a 3-bit kind into its high bits and 5 data bits into its
//! low bits.  The data bits carry an embedded value or length up to 30; the
//! reserved value 31 signals that the real value or length follows, written
//! by the configured integer codec.

use vstd::prelude::*;

verus! {

/// Largest value or length that embeds directly in a tag's data bits.
pub const MAX_INLINE_LEN: u8 = 30;

/// Reserved data value meaning "a continuation payload follows".
pub const CONTINUATION_SENTINEL: u8 = 31;

/// The kind of a wire record, stored in the 3 high bits of its tag byte.
/// Kind values above `Sequence` are reserved and rejected on decode.
#[derive(Clone, Copy, Debug, PartialEq, Eq, Structural)]
pub enum Kind {
    /// A scalar that fits one byte.
    Byte,
    /// Length-prefixed bytes or string payload.
    Prefix,
    /// A number whose payload follows, written by the integer codec.
    Continuation,
    /// Ordered items; also options, variants and unit.
    Sequence,
}

impl Kind {
    /// The 3-bit field value of this kind.
    pub open spec fn spec_value(self) -> u8 {
        match self {
            Kind::Byte => 0,
            Kind::Prefix => 1,
            Kind::Continuation => 2,
            Kind::Sequence => 3,
        }
    }

    /// Executable counterpart of [`Kind::spec_value`].
    pub fn value(self) -> (r: u8)
        ensures
            r == self.spec_value(),
    {
        match self {
            Kind::Byte => 0,
            Kind::Prefix => 1,
            Kind::Continuation => 2,
            Kind::Sequence => 3,
        }
    }
}

/// The byte `[kkkddddd]` formed from a kind and 5 data bits.
pub open spec fn tag_byte_of(kind: Kind, data: u8) -> u8
    recommends
        data <= CONTINUATION_SENTINEL,
{
    (kind.spec_value() * 32 + data) as u8
}

/// A one-byte discriminator: 3-bit kind and 5-bit data field.
#[derive(Clone, Copy, Debug, PartialEq, Eq, Structural)]
pub struct Tag {
    repr: u8,
}

impl Tag {
    /// The raw byte as it appears on the wire.
    pub closed spec fn spec_byte(self) -> u8 {
        self.repr
    }

    /// The 3-bit kind field; values 4..=7 name no kind and are reserved.
    pub closed spec fn spec_kind_value(self) -> u8 {
        self.repr / 32
    }

    /// The 5-bit data field.
    pub closed spec fn spec_data(self) -> u8 {
        self.repr % 32
    }

    /// Build a tag from a kind and an in-range data value.
    pub fn new(kind: Kind, data: u8) -> (r: Tag)
        requires
            data <= CONTINUATION_SENTINEL,
        ensures
            r.spec_byte() == tag_byte_of(kind, data),
            r.spec_kind_value() == kind.spec_value(),
            r.spec_data() == data,
    {
        let repr: u8 = kind.value() * 32 + data;
        proof {
            assert(repr / 32 == kind.spec_value() && repr % 32 == data) by (nonlinear_arith)
                requires
                    repr == kind.spec_value() * 32 + data,
                    kind.spec_value() <= 3,
                    data <= 31,
            ;
        }
        Tag { repr }
    }

    /// Reconstruct a tag from a wire byte.  Every byte is a tag; bytes whose
    /// kind field is reserved are rejected later, when the kind is inspected.
    pub fn from_byte(byte: u8) -> (r: Tag)
        ensures
            r.spec_byte() == byte,
            r.spec_kind_value() == byte / 32,
            r.spec_data() == byte % 32,
    {
        Tag { repr: byte }
    }

    /// A tag embedding `len` when it fits, else the continuation sentinel.
    /// The boolean reports whether the length was embedded.
    pub fn with_len(kind: Kind, len: usize) -> (r: (Tag, bool))
        ensures
            r.1 == (len <= MAX_INLINE_LEN),
            len <= MAX_INLINE_LEN ==> r.0.spec_byte() == tag_byte_of(kind, len as u8),
            len > MAX_INLINE_LEN ==> r.0.spec_byte() == tag_byte_of(kind, CONTINUATION_SENTINEL),
    {
        if len <= MAX_INLINE_LEN as usize {
            (Tag::new(kind, len as u8), true)
        } else {
            (Tag::new(kind, CONTINUATION_SENTINEL), false)
        }
    }

    /// A tag embedding the byte `value` when it fits, else the sentinel.
    /// The boolean reports whether the value was embedded.
    pub fn with_byte(kind: Kind, value: u8) -> (r: (Tag, bool))
        ensures
            r.1 == (value <= MAX_INLINE_LEN),
            value <= MAX_INLINE_LEN ==> r.0.spec_byte() == tag_byte_of(kind, value),
            value > MAX_INLINE_LEN ==> r.0.spec_byte() == tag_byte_of(kind, CONTINUATION_SENTINEL),
    {
        if value <= MAX_INLINE_LEN {
            (Tag::new(kind, value), true)
        } else {
            (Tag::new(kind, CONTINUATION_SENTINEL), false)
        }
    }

    /// The raw wire byte of this tag.
    pub fn byte(self) -> (r: u8)
        ensures
            r == self.spec_byte(),
    {
        self.repr
    }

    /// The kind named by the 3-bit field, or `None` for a reserved value.
    pub fn kind(self) -> (r: Option<Kind>)
        ensures
            r == spec_kind_of(self.spec_kind_value()),
    {
        let k = self.repr / 32;
        if k == 0 {
            Some(Kind::Byte)
        } else if k == 1 {
            Some(Kind::Prefix)
        } else if k == 2 {
            Some(Kind::Continuation)
        } else if k == 3 {
            Some(Kind::Sequence)
        } else {
            None
        }
    }

    /// The 5-bit data field.
    pub fn data(self) -> (r: u8)
        ensures
            r == self.spec_data(),
    {
        self.repr % 32
    }
}

/// The kind named by a 3-bit field value, if any.
pub open spec fn spec_kind_of(k: u8) -> Option<Kind> {
    if k == 0 {
        Some(Kind::Byte)
    } else if k == 1 {
        Some(Kind::Prefix)
    } else if k == 2 {
        Some(Kind::Continuation)
    } else if k == 3 {
        Some(Kind::Sequence)
    } else {
        None
    }
}

/// Composing a tag byte and splitting it again are mutually inverse.
pub proof fn lemma_tag_byte_split(kind: Kind, data: u8)
    requires
        data <= CONTINUATION_SENTINEL,
    ensures
        tag_byte_of(kind, data) / 32 == kind.spec_value(),
        tag_byte_of(kind, data) % 32 == data,
        spec_kind_of(tag_byte_of(kind, data) / 32) == Some(kind),
{
    let b = tag_byte_of(kind, data);
    assert(b / 32 == kind.spec_value() && b % 32 == data) by (nonlinear_arith)
        requires
            b == kind.spec_value() * 32 + data,
            kind.spec_value() <= 3,
            data <= 31,
    ;
}

} // verus!
