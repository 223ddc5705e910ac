//! The wire-format decoder.
//!
//! [`WireDecoder`] consumes tag-prefixed records from a cursor.  Every
//! decode method is specified against a spec-level parser (`parse_unit`,
//! `parse_typed_unsigned`, `parse_header`, ...): the method returns exactly
//! what the parser says, advances exactly past the parsed bytes on success,
//! and leaves the cursor where it was on failure.

use vstd::prelude::*;

use crate::en::Options;
use crate::error::CodecError;
use crate::hint::LengthHint;
use crate::hint::NumberHint;
use crate::hint::TypeHint;
use crate::integer_encoding::IntegerEncoding;
use crate::integer_encoding::lemma_parse_unsigned_bound;
use crate::integer_encoding::lemma_pow256_values;
use crate::integer_encoding::parse_unsigned;
use crate::integer_encoding::pow256;
use crate::integer_encoding::read_unsigned;
use crate::integer_encoding::unzigzag;
use crate::integer_encoding::unzigzag_u128;
use crate::reader::Reader;
use crate::tag::Kind;
use crate::unicode::char_from_u32;
use crate::unicode::is_unicode_scalar;
use crate::unicode::string_from_utf8;

verus! {

/// The shape the first byte of the input announces.  The wire format tells
/// byte scalars, length-prefixed payloads, numbers (with their width) and
/// sequences apart; the finer shapes of the data model all travel as one of
/// those four.
pub open spec fn wire_type_hint_byte(b: u8) -> TypeHint {
    let k = b / 32;
    let d = b % 32;
    if k == 0 {
        TypeHint::Number(NumberHint::U8)
    } else if k == 1 {
        TypeHint::Bytes(
            if d <= 30 {
                LengthHint::Exact(d as usize)
            } else {
                LengthHint::Any
            },
        )
    } else if k == 2 {
        TypeHint::Number(
            if d == 2 {
                NumberHint::U16
            } else if d == 4 {
                NumberHint::U32
            } else if d == 8 {
                NumberHint::U64
            } else if d == 16 {
                NumberHint::U128
            } else {
                NumberHint::Any
            },
        )
    } else if k == 3 {
        TypeHint::Sequence(
            if d <= 30 {
                LengthHint::Exact(d as usize)
            } else {
                LengthHint::Any
            },
        )
    } else {
        TypeHint::Any
    }
}

/// The hint for a whole input: that of its first byte, or `Any` when empty.
pub open spec fn wire_type_hint(bytes: Seq<u8>) -> TypeHint {
    if bytes.len() == 0 {
        TypeHint::Any
    } else {
        wire_type_hint_byte(bytes[0])
    }
}

/// Parse a unit: exactly a `Sequence` tag with data 0.
pub open spec fn parse_unit(bytes: Seq<u8>) -> Result<((), nat), CodecError> {
    if bytes.len() == 0 {
        Err(CodecError::OutOfInput)
    } else if bytes[0] / 32 == 3 && bytes[0] % 32 == 0 {
        Ok(((), 1))
    } else {
        Err(CodecError::ExpectedUnit(wire_type_hint(bytes)))
    }
}

/// Parse a boolean: a `Byte` tag whose data is 0 or 1.
pub open spec fn parse_bool(bytes: Seq<u8>) -> Result<(bool, nat), CodecError> {
    if bytes.len() == 0 {
        Err(CodecError::OutOfInput)
    } else if bytes[0] / 32 == 0 && bytes[0] % 32 <= 1 {
        Ok((bytes[0] % 32 == 1, 1))
    } else {
        Err(CodecError::ExpectedBool(wire_type_hint(bytes)))
    }
}

/// Parse a `u8`: embedded in a `Byte` tag, or the sentinel and a raw byte.
pub open spec fn parse_u8(bytes: Seq<u8>) -> Result<(u8, nat), CodecError> {
    if bytes.len() == 0 {
        Err(CodecError::OutOfInput)
    } else if bytes[0] / 32 == 0 {
        if bytes[0] % 32 <= 30 {
            Ok(((bytes[0] % 32) as u8, 1))
        } else if bytes.len() >= 2 {
            Ok((bytes[1], 2))
        } else {
            Err(CodecError::OutOfInput)
        }
    } else {
        Err(CodecError::ExpectedNumber(NumberHint::U8, wire_type_hint(bytes)))
    }
}

/// Parse a typed unsigned integer: a `Continuation` tag whose data names
/// the width, then the untyped payload.  `want` names the width the caller
/// asked for, for the mismatch error.
pub open spec fn parse_typed_unsigned(
    bytes: Seq<u8>,
    width: nat,
    enc: IntegerEncoding,
    want: NumberHint,
) -> Result<(nat, nat), CodecError> {
    if bytes.len() == 0 {
        Err(CodecError::OutOfInput)
    } else if bytes[0] / 32 == 2 && bytes[0] % 32 == width {
        match parse_unsigned(bytes.drop_first(), width, enc) {
            Ok((v, n)) => Ok((v, (n + 1) as nat)),
            Err(e) => Err(e),
        }
    } else {
        Err(CodecError::ExpectedNumber(want, wire_type_hint(bytes)))
    }
}

/// Parse a length header of the given kind: the length embeds in the data
/// bits, or follows the sentinel under the length codec.  A length above
/// `usize::MAX` is `IntegerOverflow`; a tag of another kind is `err`.
pub open spec fn parse_header(
    bytes: Seq<u8>,
    kind: Kind,
    enc: IntegerEncoding,
    err: CodecError,
) -> Result<(nat, nat), CodecError> {
    if bytes.len() == 0 {
        Err(CodecError::OutOfInput)
    } else if bytes[0] / 32 != kind.spec_value() {
        Err(err)
    } else if bytes[0] % 32 <= 30 {
        Ok(((bytes[0] % 32) as nat, 1))
    } else {
        match parse_unsigned(bytes.drop_first(), 8, enc) {
            Ok((l, n)) => if l <= usize::MAX {
                Ok((l, (n + 1) as nat))
            } else {
                Err(CodecError::IntegerOverflow)
            },
            Err(e) => Err(e),
        }
    }
}

/// Parse a byte payload: a `Prefix` header, then that many raw bytes.
pub open spec fn parse_bytes(bytes: Seq<u8>, enc: IntegerEncoding) -> Result<
    (Seq<u8>, nat),
    CodecError,
> {
    match parse_header(bytes, Kind::Prefix, enc, CodecError::ExpectedBytes(wire_type_hint(bytes))) {
        Ok((l, hn)) => if bytes.len() >= hn + l {
            Ok((bytes.subrange(hn as int, (hn + l) as int), (hn + l) as nat))
        } else {
            Err(CodecError::OutOfInput)
        },
        Err(e) => Err(e),
    }
}

/// Parse a string: a byte payload that must be valid UTF-8.
pub open spec fn parse_string(bytes: Seq<u8>, enc: IntegerEncoding) -> Result<
    (Seq<char>, nat),
    CodecError,
> {
    match parse_bytes(bytes, enc) {
        Ok((data, n)) => if vstd::utf8::valid_utf8(data) {
            Ok((vstd::utf8::decode_utf8(data), n))
        } else {
            Err(CodecError::InvalidUtf8)
        },
        Err(e) => Err(e),
    }
}

/// Parse an option marker: a `Sequence` tag with data 0 (`None`) or 1
/// (`Some`, payload follows).
pub open spec fn parse_option(bytes: Seq<u8>) -> Result<(bool, nat), CodecError> {
    if bytes.len() == 0 {
        Err(CodecError::OutOfInput)
    } else if bytes[0] / 32 == 3 && bytes[0] % 32 == 0 {
        Ok((false, 1))
    } else if bytes[0] / 32 == 3 && bytes[0] % 32 == 1 {
        Ok((true, 1))
    } else {
        Err(CodecError::ExpectedOption(wire_type_hint(bytes)))
    }
}

/// Parse a variant marker: a `Sequence` tag with data 2; the variant's tag
/// value and body follow.
pub open spec fn parse_variant_mark(bytes: Seq<u8>) -> Result<((), nat), CodecError> {
    if bytes.len() == 0 {
        Err(CodecError::OutOfInput)
    } else if bytes[0] / 32 == 3 && bytes[0] % 32 == 2 {
        Ok(((), 1))
    } else {
        Err(CodecError::ExpectedVariant(wire_type_hint(bytes)))
    }
}

/// A successful header parse consumes at least the tag byte and no more
/// than the input holds.
pub proof fn lemma_parse_header_consumes(
    bytes: Seq<u8>,
    kind: Kind,
    enc: IntegerEncoding,
    err: CodecError,
)
    ensures
        parse_header(bytes, kind, enc, err) matches Ok(p) ==> 1 <= p.1 <= bytes.len(),
{
    crate::integer_encoding::lemma_parse_unsigned_consumes(bytes.drop_first(), 8, enc);
}

/// A successful typed parse consumes at least the tag byte and no more
/// than the input holds.
pub proof fn lemma_parse_typed_consumes(
    bytes: Seq<u8>,
    width: nat,
    enc: IntegerEncoding,
    want: NumberHint,
)
    requires
        width >= 1,
    ensures
        parse_typed_unsigned(bytes, width, enc, want) matches Ok(p) ==> 1 <= p.1 <= bytes.len(),
{
    crate::integer_encoding::lemma_parse_unsigned_consumes(bytes.drop_first(), width, enc);
}

/// A successful byte-payload parse consumes at least the tag byte and no
/// more than the input holds.
pub proof fn lemma_parse_bytes_consumes(bytes: Seq<u8>, enc: IntegerEncoding)
    ensures
        parse_bytes(bytes, enc) matches Ok(p) ==> 1 <= p.1 <= bytes.len(),
{
    lemma_parse_header_consumes(
        bytes,
        Kind::Prefix,
        enc,
        CodecError::ExpectedBytes(wire_type_hint(bytes)),
    );
}

/// Parsing at the head of a typed encoding of an in-range value returns
/// the value and consumes exactly its encoding.
pub proof fn lemma_parse_typed_roundtrip(
    v: nat,
    width: nat,
    enc: IntegerEncoding,
    want: NumberHint,
    rest: Seq<u8>,
)
    requires
        width == 2 || width == 4 || width == 8 || width == 16,
        v < crate::integer_encoding::pow256(width),
    ensures
        parse_typed_unsigned(
            crate::integer_encoding::typed_unsigned_bytes(v, width, enc) + rest,
            width,
            enc,
            want,
        ) == Ok::<(nat, nat), CodecError>(
            (v, crate::integer_encoding::typed_unsigned_bytes(v, width, enc).len()),
        ),
{
    let whole = crate::integer_encoding::typed_unsigned_bytes(v, width, enc) + rest;
    crate::tag::lemma_tag_byte_split(Kind::Continuation, width as u8);
    assert(whole[0] == crate::tag::tag_byte_of(Kind::Continuation, width as u8));
    assert(whole.drop_first() =~= crate::integer_encoding::unsigned_bytes(v, width, enc) + rest);
    crate::integer_encoding::lemma_parse_unsigned_roundtrip(v, width, enc, rest);
}

/// Parsing at the head of a length header of an in-range length returns
/// the length and consumes exactly the header.
pub proof fn lemma_parse_header_roundtrip(
    kind: Kind,
    len: nat,
    enc: IntegerEncoding,
    err: CodecError,
    rest: Seq<u8>,
)
    requires
        len <= usize::MAX,
    ensures
        parse_header(crate::en::header_bytes(kind, len, enc) + rest, kind, enc, err) == Ok::<
            (nat, nat),
            CodecError,
        >((len, crate::en::header_bytes(kind, len, enc).len())),
{
    let whole = crate::en::header_bytes(kind, len, enc) + rest;
    if len <= crate::tag::MAX_INLINE_LEN {
        crate::tag::lemma_tag_byte_split(kind, len as u8);
        assert(whole[0] == crate::tag::tag_byte_of(kind, len as u8));
    } else {
        crate::tag::lemma_tag_byte_split(kind, crate::tag::CONTINUATION_SENTINEL);
        assert(whole[0] == crate::tag::tag_byte_of(kind, crate::tag::CONTINUATION_SENTINEL));
        assert(whole.drop_first() =~= crate::integer_encoding::unsigned_bytes(len, 8, enc) + rest);
        proof_usize_fits();
        crate::integer_encoding::lemma_parse_unsigned_roundtrip(len, 8, enc, rest);
    }
}

/// Every `usize` value lies within the wire's 64-bit width.
proof fn proof_usize_fits()
    ensures
        usize::MAX < crate::integer_encoding::pow256(8),
{
    crate::integer_encoding::lemma_pow256_values();
    assert(usize::MAX <= u64::MAX);
}

/// The wire-format decoder: a cursor over one message plus the codec
/// configuration it was encoded with.
pub struct WireDecoder {
    /// The cursor over the input.
    pub reader: Reader,
    /// The integer and length codecs in force.
    pub options: Options,
}

impl WireDecoder {
    /// The decoder's cursor is within bounds.
    pub open spec fn wf(self) -> bool {
        self.reader.wf()
    }

    /// The bytes not yet consumed.
    pub open spec fn remaining(self) -> Seq<u8> {
        self.reader.remaining_bytes()
    }

    /// The whole input and the configuration, carried unchanged.
    pub open spec fn frame_kept(self, other: WireDecoder) -> bool {
        other.reader.bytes() == self.reader.bytes() && other.options == self.options
    }

    /// A decoder over `data` with the default configuration: fixed-width
    /// integers, variable-length lengths.
    pub fn new(data: Vec<u8>) -> (r: WireDecoder)
        ensures
            r.wf(),
            r.reader.bytes() == data@,
            r.reader.position() == 0,
            r.options == (Options {
                integer: IntegerEncoding::Fixed,
                length: IntegerEncoding::Variable,
            }),
    {
        WireDecoder {
            reader: Reader::new(data),
            options: Options { integer: IntegerEncoding::Fixed, length: IntegerEncoding::Variable },
        }
    }

    /// A decoder with an explicit configuration.
    pub fn with_options(data: Vec<u8>, options: Options) -> (r: WireDecoder)
        ensures
            r.wf(),
            r.reader.bytes() == data@,
            r.reader.position() == 0,
            r.options == options,
    {
        WireDecoder { reader: Reader::new(data), options }
    }

    /// The shape the next record announces, without consuming anything.
    pub fn type_hint(&self) -> (r: TypeHint)
        requires
            self.wf(),
        ensures
            r == wire_type_hint(self.remaining()),
    {
        match self.reader.peek() {
            None => TypeHint::Any,
            Some(b) => {
                let k = b / 32;
                let d = b % 32;
                if k == 0 {
                    TypeHint::Number(NumberHint::U8)
                } else if k == 1 {
                    TypeHint::Bytes(
                        if d <= 30 {
                            LengthHint::Exact(d as usize)
                        } else {
                            LengthHint::Any
                        },
                    )
                } else if k == 2 {
                    TypeHint::Number(
                        if d == 2 {
                            NumberHint::U16
                        } else if d == 4 {
                            NumberHint::U32
                        } else if d == 8 {
                            NumberHint::U64
                        } else if d == 16 {
                            NumberHint::U128
                        } else {
                            NumberHint::Any
                        },
                    )
                } else if k == 3 {
                    TypeHint::Sequence(
                        if d <= 30 {
                            LengthHint::Exact(d as usize)
                        } else {
                            LengthHint::Any
                        },
                    )
                } else {
                    TypeHint::Any
                }
            },
        }
    }

    /// Decode a unit.
    pub fn decode_unit(&mut self) -> (r: Result<(), CodecError>)
        requires
            old(self).wf(),
        ensures
            final(self).wf(),
            old(self).frame_kept(*final(self)),
            match parse_unit(old(self).remaining()) {
                Ok((v, n)) => r is Ok && final(self).reader.position() == old(self).reader.position() + n,
                Err(e) => r == Err::<(), CodecError>(e) && final(self).reader.position() == old(self).reader.position(),
            },
    {
        let hint = self.type_hint();
        let start = self.reader.pos();
        let b = match self.reader.read_byte() {
            Ok(b) => b,
            Err(e) => {
                return Err(e);
            },
        };
        if b / 32 == 3 && b % 32 == 0 {
            Ok(())
        } else {
            self.reader.rewind(start);
            Err(CodecError::ExpectedUnit(hint))
        }
    }

    /// Decode a boolean.
    pub fn decode_bool(&mut self) -> (r: Result<bool, CodecError>)
        requires
            old(self).wf(),
        ensures
            final(self).wf(),
            old(self).frame_kept(*final(self)),
            match parse_bool(old(self).remaining()) {
                Ok((v, n)) => r == Ok::<bool, CodecError>(v) && final(self).reader.position()
                    == old(self).reader.position() + n,
                Err(e) => r == Err::<bool, CodecError>(e) && final(self).reader.position() == old(self).reader.position(),
            },
    {
        let hint = self.type_hint();
        let start = self.reader.pos();
        let b = match self.reader.read_byte() {
            Ok(b) => b,
            Err(e) => {
                return Err(e);
            },
        };
        if b / 32 == 0 && b % 32 <= 1 {
            Ok(b % 32 == 1)
        } else {
            self.reader.rewind(start);
            Err(CodecError::ExpectedBool(hint))
        }
    }

    /// Decode a `u8`.
    pub fn decode_u8(&mut self) -> (r: Result<u8, CodecError>)
        requires
            old(self).wf(),
        ensures
            final(self).wf(),
            old(self).frame_kept(*final(self)),
            match parse_u8(old(self).remaining()) {
                Ok((v, n)) => r == Ok::<u8, CodecError>(v) && final(self).reader.position() == old(self).reader.position() + n,
                Err(e) => r == Err::<u8, CodecError>(e) && final(self).reader.position() == old(self).reader.position(),
            },
    {
        let hint = self.type_hint();
        let start = self.reader.pos();
        let b = match self.reader.read_byte() {
            Ok(b) => b,
            Err(e) => {
                return Err(e);
            },
        };
        if b / 32 == 0 {
            if b % 32 <= 30 {
                Ok(b % 32)
            } else {
                match self.reader.read_byte() {
                    Ok(v) => Ok(v),
                    Err(e) => {
                        self.reader.rewind(start);
                        Err(e)
                    },
                }
            }
        } else {
            self.reader.rewind(start);
            Err(CodecError::ExpectedNumber(NumberHint::U8, hint))
        }
    }

    /// Decode a typed unsigned integer of the given width and codec; the
    /// value is bounded by the width.
    fn decode_typed(&mut self, width: usize, enc: IntegerEncoding, want: NumberHint) -> (r: Result<
        u128,
        CodecError,
    >)
        requires
            old(self).wf(),
            width == 2 || width == 4 || width == 8 || width == 16,
        ensures
            final(self).wf(),
            old(self).frame_kept(*final(self)),
            match parse_typed_unsigned(old(self).remaining(), width as nat, enc, want) {
                Ok((v, n)) => r matches Ok(x) && x as nat == v && v < pow256(width as nat)
                    && final(self).reader.position() == old(self).reader.position() + n,
                Err(e) => r == Err::<u128, CodecError>(e) && final(self).reader.position() == old(self).reader.position(),
            },
    {
        let hint = self.type_hint();
        let start = self.reader.pos();
        let b = match self.reader.read_byte() {
            Ok(b) => b,
            Err(e) => {
                return Err(e);
            },
        };
        if b / 32 == 2 && (b % 32) as usize == width {
            proof {
                assert(self.reader.remaining_bytes() =~= old(self).remaining().drop_first());
                lemma_parse_unsigned_bound(old(self).remaining().drop_first(), width as nat, enc);
            }
            match read_unsigned(&mut self.reader, width, enc) {
                Ok(v) => Ok(v),
                Err(e) => {
                    self.reader.rewind(start);
                    Err(e)
                },
            }
        } else {
            self.reader.rewind(start);
            Err(CodecError::ExpectedNumber(want, hint))
        }
    }

    /// Decode a `u16`.
    pub fn decode_u16(&mut self) -> (r: Result<u16, CodecError>)
        requires
            old(self).wf(),
        ensures
            final(self).wf(),
            old(self).frame_kept(*final(self)),
            match parse_typed_unsigned(
                old(self).remaining(),
                2,
                old(self).options.integer,
                NumberHint::U16,
            ) {
                Ok((v, n)) => r matches Ok(x) && x as nat == v && final(self).reader.position()
                    == old(self).reader.position() + n,
                Err(e) => r == Err::<u16, CodecError>(e) && final(self).reader.position() == old(self).reader.position(),
            },
    {
        proof {
            lemma_pow256_values();
        }
        match self.decode_typed(2, self.options.integer, NumberHint::U16) {
            Ok(v) => Ok(v as u16),
            Err(e) => Err(e),
        }
    }

    /// Decode a `u32`.
    pub fn decode_u32(&mut self) -> (r: Result<u32, CodecError>)
        requires
            old(self).wf(),
        ensures
            final(self).wf(),
            old(self).frame_kept(*final(self)),
            match parse_typed_unsigned(
                old(self).remaining(),
                4,
                old(self).options.integer,
                NumberHint::U32,
            ) {
                Ok((v, n)) => r matches Ok(x) && x as nat == v && final(self).reader.position()
                    == old(self).reader.position() + n,
                Err(e) => r == Err::<u32, CodecError>(e) && final(self).reader.position() == old(self).reader.position(),
            },
    {
        proof {
            lemma_pow256_values();
        }
        match self.decode_typed(4, self.options.integer, NumberHint::U32) {
            Ok(v) => Ok(v as u32),
            Err(e) => Err(e),
        }
    }

    /// Decode a `u64`.
    pub fn decode_u64(&mut self) -> (r: Result<u64, CodecError>)
        requires
            old(self).wf(),
        ensures
            final(self).wf(),
            old(self).frame_kept(*final(self)),
            match parse_typed_unsigned(
                old(self).remaining(),
                8,
                old(self).options.integer,
                NumberHint::U64,
            ) {
                Ok((v, n)) => r matches Ok(x) && x as nat == v && final(self).reader.position()
                    == old(self).reader.position() + n,
                Err(e) => r == Err::<u64, CodecError>(e) && final(self).reader.position() == old(self).reader.position(),
            },
    {
        proof {
            lemma_pow256_values();
        }
        match self.decode_typed(8, self.options.integer, NumberHint::U64) {
            Ok(v) => Ok(v as u64),
            Err(e) => Err(e),
        }
    }

    /// Decode an `i8`: a byte scalar, unzigzagged.
    pub fn decode_i8(&mut self) -> (r: Result<i8, CodecError>)
        requires
            old(self).wf(),
        ensures
            final(self).wf(),
            old(self).frame_kept(*final(self)),
            match parse_u8(old(self).remaining()) {
                Ok((v, n)) => r matches Ok(x) && x as int == unzigzag(v as int) && final(self).reader.position()
                    == old(self).reader.position() + n,
                Err(e) => r == Err::<i8, CodecError>(e) && final(self).reader.position() == old(self).reader.position(),
            },
    {
        match self.decode_u8() {
            Ok(v) => {
                let s = unzigzag_u128(v as u128);
                Ok(s as i8)
            },
            Err(e) => Err(e),
        }
    }

    /// Decode an `i16`: a typed width-2 value, unzigzagged.
    pub fn decode_i16(&mut self) -> (r: Result<i16, CodecError>)
        requires
            old(self).wf(),
        ensures
            final(self).wf(),
            old(self).frame_kept(*final(self)),
            match parse_typed_unsigned(
                old(self).remaining(),
                2,
                old(self).options.integer,
                NumberHint::I16,
            ) {
                Ok((v, n)) => r matches Ok(x) && x as int == unzigzag(v as int) && final(self).reader.position() == old(self).reader.position() + n,
                Err(e) => r == Err::<i16, CodecError>(e) && final(self).reader.position() == old(self).reader.position(),
            },
    {
        proof {
            lemma_pow256_values();
        }
        match self.decode_typed(2, self.options.integer, NumberHint::I16) {
            Ok(u) => {
                let s = unzigzag_u128(u);
                Ok(s as i16)
            },
            Err(e) => Err(e),
        }
    }

    /// Decode an `i32`: a typed width-4 value, unzigzagged.
    pub fn decode_i32(&mut self) -> (r: Result<i32, CodecError>)
        requires
            old(self).wf(),
        ensures
            final(self).wf(),
            old(self).frame_kept(*final(self)),
            match parse_typed_unsigned(
                old(self).remaining(),
                4,
                old(self).options.integer,
                NumberHint::I32,
            ) {
                Ok((v, n)) => r matches Ok(x) && x as int == unzigzag(v as int) && final(self).reader.position() == old(self).reader.position() + n,
                Err(e) => r == Err::<i32, CodecError>(e) && final(self).reader.position() == old(self).reader.position(),
            },
    {
        proof {
            lemma_pow256_values();
        }
        match self.decode_typed(4, self.options.integer, NumberHint::I32) {
            Ok(u) => {
                let s = unzigzag_u128(u);
                Ok(s as i32)
            },
            Err(e) => Err(e),
        }
    }

    /// Decode an `i64`: a typed width-8 value, unzigzagged.
    pub fn decode_i64(&mut self) -> (r: Result<i64, CodecError>)
        requires
            old(self).wf(),
        ensures
            final(self).wf(),
            old(self).frame_kept(*final(self)),
            match parse_typed_unsigned(
                old(self).remaining(),
                8,
                old(self).options.integer,
                NumberHint::I64,
            ) {
                Ok((v, n)) => r matches Ok(x) && x as int == unzigzag(v as int) && final(self).reader.position() == old(self).reader.position() + n,
                Err(e) => r == Err::<i64, CodecError>(e) && final(self).reader.position() == old(self).reader.position(),
            },
    {
        proof {
            lemma_pow256_values();
        }
        match self.decode_typed(8, self.options.integer, NumberHint::I64) {
            Ok(u) => {
                let s = unzigzag_u128(u);
                Ok(s as i64)
            },
            Err(e) => Err(e),
        }
    }

    /// Decode an `i128`: a typed width-16 value, unzigzagged.
    pub fn decode_i128(&mut self) -> (r: Result<i128, CodecError>)
        requires
            old(self).wf(),
        ensures
            final(self).wf(),
            old(self).frame_kept(*final(self)),
            match parse_typed_unsigned(
                old(self).remaining(),
                16,
                old(self).options.integer,
                NumberHint::I128,
            ) {
                Ok((v, n)) => r matches Ok(x) && x as int == unzigzag(v as int) && final(self).reader.position() == old(self).reader.position() + n,
                Err(e) => r == Err::<i128, CodecError>(e) && final(self).reader.position() == old(self).reader.position(),
            },
    {
        match self.decode_typed(16, self.options.integer, NumberHint::I128) {
            Ok(u) => Ok(unzigzag_u128(u)),
            Err(e) => Err(e),
        }
    }

    /// Decode a `usize`, carried on the wire as a 64-bit unsigned value.
    /// A value above the host's `usize::MAX` is `IntegerOverflow`.
    pub fn decode_usize(&mut self) -> (r: Result<usize, CodecError>)
        requires
            old(self).wf(),
        ensures
            final(self).wf(),
            old(self).frame_kept(*final(self)),
            match parse_typed_unsigned(
                old(self).remaining(),
                8,
                old(self).options.length,
                NumberHint::Usize,
            ) {
                Ok((v, n)) => if v <= usize::MAX {
                    r matches Ok(x) && x as nat == v && final(self).reader.position() == old(self).reader.position() + n
                } else {
                    r == Err::<usize, CodecError>(CodecError::IntegerOverflow) && final(self).reader.position() == old(self).reader.position()
                },
                Err(e) => r == Err::<usize, CodecError>(e) && final(self).reader.position() == old(self).reader.position(),
            },
    {
        let start = self.reader.pos();
        match self.decode_typed(8, self.options.length, NumberHint::Usize) {
            Ok(v) => {
                if v <= usize::MAX as u128 {
                    Ok(v as usize)
                } else {
                    self.reader.rewind(start);
                    Err(CodecError::IntegerOverflow)
                }
            },
            Err(e) => Err(e),
        }
    }

    /// Decode an `isize`: the wire's portable 64-bit unsigned value,
    /// unzigzagged.  A value whose signed image passes the host width is
    /// `IntegerOverflow`.
    pub fn decode_isize(&mut self) -> (r: Result<isize, CodecError>)
        requires
            old(self).wf(),
        ensures
            final(self).wf(),
            old(self).frame_kept(*final(self)),
            match parse_typed_unsigned(
                old(self).remaining(),
                8,
                old(self).options.length,
                NumberHint::Isize,
            ) {
                Ok((v, n)) => if v <= usize::MAX {
                    r matches Ok(x) && x as int == unzigzag(v as int) && final(self).reader.position() == old(self).reader.position() + n
                } else {
                    r == Err::<isize, CodecError>(CodecError::IntegerOverflow) && final(self).reader.position() == old(self).reader.position()
                },
                Err(e) => r == Err::<isize, CodecError>(e) && final(self).reader.position() == old(self).reader.position(),
            },
    {
        let start = self.reader.pos();
        match self.decode_typed(8, self.options.length, NumberHint::Isize) {
            Ok(v) => {
                if v <= usize::MAX as u128 {
                    let s = unzigzag_u128(v);
                    proof {
                        assert(usize::MAX as int == 2 * (isize::MAX as int) + 1);
                        assert(isize::MIN as int == -(isize::MAX as int) - 1);
                    }
                    Ok(s as isize)
                } else {
                    self.reader.rewind(start);
                    Err(CodecError::IntegerOverflow)
                }
            },
            Err(e) => Err(e),
        }
    }

    /// Decode the raw bits of an `f32`, carried as a `u32`.
    pub fn decode_f32_bits(&mut self) -> (r: Result<u32, CodecError>)
        requires
            old(self).wf(),
        ensures
            final(self).wf(),
            old(self).frame_kept(*final(self)),
            match parse_typed_unsigned(
                old(self).remaining(),
                4,
                old(self).options.integer,
                NumberHint::F32,
            ) {
                Ok((v, n)) => r matches Ok(x) && x as nat == v && final(self).reader.position()
                    == old(self).reader.position() + n,
                Err(e) => r == Err::<u32, CodecError>(e) && final(self).reader.position() == old(self).reader.position(),
            },
    {
        proof {
            lemma_pow256_values();
        }
        match self.decode_typed(4, self.options.integer, NumberHint::F32) {
            Ok(v) => Ok(v as u32),
            Err(e) => Err(e),
        }
    }

    /// Decode the raw bits of an `f64`, carried as a `u64`.
    pub fn decode_f64_bits(&mut self) -> (r: Result<u64, CodecError>)
        requires
            old(self).wf(),
        ensures
            final(self).wf(),
            old(self).frame_kept(*final(self)),
            match parse_typed_unsigned(
                old(self).remaining(),
                8,
                old(self).options.integer,
                NumberHint::F64,
            ) {
                Ok((v, n)) => r matches Ok(x) && x as nat == v && final(self).reader.position()
                    == old(self).reader.position() + n,
                Err(e) => r == Err::<u64, CodecError>(e) && final(self).reader.position() == old(self).reader.position(),
            },
    {
        proof {
            lemma_pow256_values();
        }
        match self.decode_typed(8, self.options.integer, NumberHint::F64) {
            Ok(v) => Ok(v as u64),
            Err(e) => Err(e),
        }
    }

    /// Decode a character: a typed `u32` that must be a Unicode scalar.
    pub fn decode_char(&mut self) -> (r: Result<char, CodecError>)
        requires
            old(self).wf(),
        ensures
            final(self).wf(),
            old(self).frame_kept(*final(self)),
            match parse_typed_unsigned(
                old(self).remaining(),
                4,
                old(self).options.integer,
                NumberHint::U32,
            ) {
                Ok((v, n)) => if is_unicode_scalar(v as u32) {
                    r matches Ok(c) && (c as u32) as nat == v && final(self).reader.position()
                        == old(self).reader.position() + n
                } else {
                    r == Err::<char, CodecError>(CodecError::InvalidChar) && final(self).reader.position() == old(self).reader.position()
                },
                Err(e) => r == Err::<char, CodecError>(e) && final(self).reader.position() == old(self).reader.position(),
            },
    {
        proof {
            lemma_pow256_values();
        }
        let start = self.reader.pos();
        match self.decode_typed(4, self.options.integer, NumberHint::U32) {
            Ok(v) => {
                match char_from_u32(v as u32) {
                    Some(c) => Ok(c),
                    None => {
                        self.reader.rewind(start);
                        Err(CodecError::InvalidChar)
                    },
                }
            },
            Err(e) => Err(e),
        }
    }

    /// Decode a length header of the given kind; `mismatch` is returned when
    /// the next record has another kind.
    fn decode_header(&mut self, kind: Kind, enc: IntegerEncoding, mismatch: CodecError) -> (r:
        Result<usize, CodecError>)
        requires
            old(self).wf(),
        ensures
            final(self).wf(),
            old(self).frame_kept(*final(self)),
            match parse_header(old(self).remaining(), kind, enc, mismatch) {
                Ok((l, n)) => r matches Ok(x) && x as nat == l && final(self).reader.position()
                    == old(self).reader.position() + n,
                Err(e) => r == Err::<usize, CodecError>(e) && final(self).reader.position() == old(self).reader.position(),
            },
    {
        let start = self.reader.pos();
        let b = match self.reader.read_byte() {
            Ok(b) => b,
            Err(e) => {
                return Err(e);
            },
        };
        if b / 32 != kind.value() {
            self.reader.rewind(start);
            return Err(mismatch);
        }
        if b % 32 <= 30 {
            return Ok((b % 32) as usize);
        }
        proof {
            assert(self.reader.remaining_bytes() =~= old(self).remaining().drop_first());
        }
        match read_unsigned(&mut self.reader, 8, enc) {
            Ok(l) => {
                if l <= usize::MAX as u128 {
                    Ok(l as usize)
                } else {
                    self.reader.rewind(start);
                    Err(CodecError::IntegerOverflow)
                }
            },
            Err(e) => {
                self.reader.rewind(start);
                Err(e)
            },
        }
    }

    /// Decode a byte payload.
    pub fn decode_bytes(&mut self) -> (r: Result<Vec<u8>, CodecError>)
        requires
            old(self).wf(),
        ensures
            final(self).wf(),
            old(self).frame_kept(*final(self)),
            match parse_bytes(old(self).remaining(), old(self).options.length) {
                Ok((data, n)) => r matches Ok(v) && v@ == data && final(self).reader.position()
                    == old(self).reader.position() + n,
                Err(e) => r == Err::<Vec<u8>, CodecError>(e) && final(self).reader.position()
                    == old(self).reader.position(),
            },
    {
        let hint = self.type_hint();
        let start = self.reader.pos();
        let len = match self.decode_header(
            Kind::Prefix,
            self.options.length,
            CodecError::ExpectedBytes(hint),
        ) {
            Ok(l) => l,
            Err(e) => {
                return Err(e);
            },
        };
        match self.reader.read_bytes(len) {
            Ok(v) => {
                proof {
                    match parse_bytes(old(self).remaining(), old(self).options.length) {
                        Ok((data, n)) => {
                            assert(v@ =~= data);
                        },
                        Err(_) => {},
                    }
                }
                Ok(v)
            },
            Err(e) => {
                self.reader.rewind(start);
                Err(e)
            },
        }
    }

    /// Decode a byte payload through a visitor: the payload is
    /// materialized and handed to its owned-buffer entry point.  On a
    /// malformed payload the visitor is never called and the parse error
    /// comes back; otherwise the reader advances past the payload and the
    /// visitor decides the result.
    pub fn decode_bytes_with<V: crate::visitor::ValueVisitor>(&mut self, visitor: V) -> (r: Result<
        V::Output,
        CodecError,
    >)
        requires
            old(self).wf(),
        ensures
            final(self).wf(),
            old(self).frame_kept(*final(self)),
            match parse_bytes(old(self).remaining(), old(self).options.length) {
                Ok((data, n)) => final(self).reader.position() == old(self).reader.position() + n,
                Err(e) => r == Err::<V::Output, CodecError>(e) && final(self).reader.position()
                    == old(self).reader.position(),
            },
    {
        match self.decode_bytes() {
            Ok(data) => visitor.visit_owned(data),
            Err(e) => Err(e),
        }
    }

    /// Decode an open-ended number through a visitor.  The wire format
    /// never produces arbitrary-precision numbers, so this declines with
    /// `InvalidType` without consuming anything or calling the visitor.
    pub fn decode_number<V: crate::visitor::NumberVisitor>(&mut self, _visitor: V) -> (r: Result<
        V::Output,
        CodecError,
    >)
        requires
            old(self).wf(),
        ensures
            final(self).wf(),
            old(self).frame_kept(*final(self)),
            r == Err::<V::Output, CodecError>(CodecError::InvalidType),
            final(self).reader.position() == old(self).reader.position(),
    {
        Err(CodecError::InvalidType)
    }

    /// Decode a string: a byte payload validated as UTF-8.
    pub fn decode_string(&mut self) -> (r: Result<String, CodecError>)
        requires
            old(self).wf(),
        ensures
            final(self).wf(),
            old(self).frame_kept(*final(self)),
            match parse_string(old(self).remaining(), old(self).options.length) {
                Ok((chars, n)) => r matches Ok(s) && s@ == chars && final(self).reader.position()
                    == old(self).reader.position() + n,
                Err(e) => r == Err::<String, CodecError>(e) && final(self).reader.position()
                    == old(self).reader.position(),
            },
    {
        let start = self.reader.pos();
        let data = match self.decode_bytes() {
            Ok(v) => v,
            Err(e) => {
                return Err(e);
            },
        };
        match string_from_utf8(data) {
            Some(s) => Ok(s),
            None => {
                self.reader.rewind(start);
                Err(CodecError::InvalidUtf8)
            },
        }
    }

    /// Decode an option marker: `false` for `None`, `true` for `Some`, in
    /// which case the payload follows.
    pub fn decode_option(&mut self) -> (r: Result<bool, CodecError>)
        requires
            old(self).wf(),
        ensures
            final(self).wf(),
            old(self).frame_kept(*final(self)),
            match parse_option(old(self).remaining()) {
                Ok((v, n)) => r == Ok::<bool, CodecError>(v) && final(self).reader.position()
                    == old(self).reader.position() + n,
                Err(e) => r == Err::<bool, CodecError>(e) && final(self).reader.position() == old(self).reader.position(),
            },
    {
        let hint = self.type_hint();
        let start = self.reader.pos();
        let b = match self.reader.read_byte() {
            Ok(b) => b,
            Err(e) => {
                return Err(e);
            },
        };
        if b / 32 == 3 && b % 32 == 0 {
            Ok(false)
        } else if b / 32 == 3 && b % 32 == 1 {
            Ok(true)
        } else {
            self.reader.rewind(start);
            Err(CodecError::ExpectedOption(hint))
        }
    }

    /// Decode a variant marker; the variant's tag value and body follow.
    pub fn decode_variant(&mut self) -> (r: Result<(), CodecError>)
        requires
            old(self).wf(),
        ensures
            final(self).wf(),
            old(self).frame_kept(*final(self)),
            match parse_variant_mark(old(self).remaining()) {
                Ok((v, n)) => r is Ok && final(self).reader.position() == old(self).reader.position() + n,
                Err(e) => r == Err::<(), CodecError>(e) && final(self).reader.position() == old(self).reader.position(),
            },
    {
        let hint = self.type_hint();
        let start = self.reader.pos();
        let b = match self.reader.read_byte() {
            Ok(b) => b,
            Err(e) => {
                return Err(e);
            },
        };
        if b / 32 == 3 && b % 32 == 2 {
            Ok(())
        } else {
            self.reader.rewind(start);
            Err(CodecError::ExpectedVariant(hint))
        }
    }

    /// Decode a sequence header: how many items follow.
    pub fn decode_sequence(&mut self) -> (r: Result<usize, CodecError>)
        requires
            old(self).wf(),
        ensures
            final(self).wf(),
            old(self).frame_kept(*final(self)),
            match parse_header(
                old(self).remaining(),
                Kind::Sequence,
                old(self).options.length,
                CodecError::ExpectedSequence(wire_type_hint(old(self).remaining())),
            ) {
                Ok((l, n)) => r matches Ok(x) && x as nat == l && final(self).reader.position()
                    == old(self).reader.position() + n,
                Err(e) => r == Err::<usize, CodecError>(e) && final(self).reader.position() == old(self).reader.position(),
            },
    {
        let hint = self.type_hint();
        self.decode_header(Kind::Sequence, self.options.length, CodecError::ExpectedSequence(hint))
    }

    /// Decode a map header: how many items follow.  Keys and values
    /// alternate, so the count is twice the number of pairs.
    pub fn decode_map(&mut self) -> (r: Result<usize, CodecError>)
        requires
            old(self).wf(),
        ensures
            final(self).wf(),
            old(self).frame_kept(*final(self)),
            match parse_header(
                old(self).remaining(),
                Kind::Sequence,
                old(self).options.length,
                CodecError::ExpectedMap(wire_type_hint(old(self).remaining())),
            ) {
                Ok((l, n)) => r matches Ok(x) && x as nat == l && final(self).reader.position()
                    == old(self).reader.position() + n,
                Err(e) => r == Err::<usize, CodecError>(e) && final(self).reader.position() == old(self).reader.position(),
            },
    {
        let hint = self.type_hint();
        self.decode_header(Kind::Sequence, self.options.length, CodecError::ExpectedMap(hint))
    }

    /// Decode a pack header: how many untagged body bytes follow, to be read
    /// with the `unpack_*` methods.
    pub fn decode_pack(&mut self) -> (r: Result<usize, CodecError>)
        requires
            old(self).wf(),
        ensures
            final(self).wf(),
            old(self).frame_kept(*final(self)),
            match parse_header(
                old(self).remaining(),
                Kind::Prefix,
                old(self).options.length,
                CodecError::ExpectedPack(wire_type_hint(old(self).remaining())),
            ) {
                Ok((l, n)) => r matches Ok(x) && x as nat == l && final(self).reader.position()
                    == old(self).reader.position() + n,
                Err(e) => r == Err::<usize, CodecError>(e) && final(self).reader.position() == old(self).reader.position(),
            },
    {
        let hint = self.type_hint();
        self.decode_header(Kind::Prefix, self.options.length, CodecError::ExpectedPack(hint))
    }

    /// Read one raw byte of a pack body as a `u8`.
    pub fn unpack_u8(&mut self) -> (r: Result<u8, CodecError>)
        requires
            old(self).wf(),
        ensures
            final(self).wf(),
            old(self).frame_kept(*final(self)),
            old(self).remaining().len() > 0 ==> r == Ok::<u8, CodecError>(old(self).remaining()[0])
                && final(self).reader.position() == old(self).reader.position() + 1,
            old(self).remaining().len() == 0 ==> r == Err::<u8, CodecError>(CodecError::OutOfInput)
                && final(self).reader.position() == old(self).reader.position(),
    {
        self.reader.read_byte()
    }

    /// Read one raw byte of a pack body as a `bool`: 0 or 1.
    pub fn unpack_bool(&mut self) -> (r: Result<bool, CodecError>)
        requires
            old(self).wf(),
        ensures
            final(self).wf(),
            old(self).frame_kept(*final(self)),
            old(self).remaining().len() > 0 && old(self).remaining()[0] <= 1 ==> r == Ok::<
                bool,
                CodecError,
            >(old(self).remaining()[0] == 1) && final(self).reader.position() == old(self).reader.position() + 1,
            old(self).remaining().len() > 0 && old(self).remaining()[0] > 1 ==> r == Err::<
                bool,
                CodecError,
            >(CodecError::InvalidType) && final(self).reader.position() == old(self).reader.position(),
            old(self).remaining().len() == 0 ==> r == Err::<bool, CodecError>(
                CodecError::OutOfInput,
            ) && final(self).reader.position() == old(self).reader.position(),
    {
        let start = self.reader.pos();
        match self.reader.read_byte() {
            Ok(0) => Ok(false),
            Ok(1) => Ok(true),
            Ok(_) => {
                self.reader.rewind(start);
                Err(CodecError::InvalidType)
            },
            Err(e) => Err(e),
        }
    }

    /// Read an untagged `u16` of a pack body, in the integer codec.
    pub fn unpack_u16(&mut self) -> (r: Result<u16, CodecError>)
        requires
            old(self).wf(),
        ensures
            final(self).wf(),
            old(self).frame_kept(*final(self)),
            match parse_unsigned(old(self).remaining(), 2, old(self).options.integer) {
                Ok((v, n)) => r matches Ok(x) && x as nat == v && final(self).reader.position()
                    == old(self).reader.position() + n,
                Err(e) => r == Err::<u16, CodecError>(e) && final(self).reader.position() == old(self).reader.position(),
            },
    {
        proof {
            lemma_pow256_values();
            lemma_parse_unsigned_bound(old(self).remaining(), 2, old(self).options.integer);
        }
        match read_unsigned(&mut self.reader, 2, self.options.integer) {
            Ok(v) => Ok(v as u16),
            Err(e) => Err(e),
        }
    }

    /// Read an untagged `u32` of a pack body, in the integer codec.
    pub fn unpack_u32(&mut self) -> (r: Result<u32, CodecError>)
        requires
            old(self).wf(),
        ensures
            final(self).wf(),
            old(self).frame_kept(*final(self)),
            match parse_unsigned(old(self).remaining(), 4, old(self).options.integer) {
                Ok((v, n)) => r matches Ok(x) && x as nat == v && final(self).reader.position()
                    == old(self).reader.position() + n,
                Err(e) => r == Err::<u32, CodecError>(e) && final(self).reader.position() == old(self).reader.position(),
            },
    {
        proof {
            lemma_pow256_values();
            lemma_parse_unsigned_bound(old(self).remaining(), 4, old(self).options.integer);
        }
        match read_unsigned(&mut self.reader, 4, self.options.integer) {
            Ok(v) => Ok(v as u32),
            Err(e) => Err(e),
        }
    }

    /// Read an untagged `u64` of a pack body, in the integer codec.
    pub fn unpack_u64(&mut self) -> (r: Result<u64, CodecError>)
        requires
            old(self).wf(),
        ensures
            final(self).wf(),
            old(self).frame_kept(*final(self)),
            match parse_unsigned(old(self).remaining(), 8, old(self).options.integer) {
                Ok((v, n)) => r matches Ok(x) && x as nat == v && final(self).reader.position()
                    == old(self).reader.position() + n,
                Err(e) => r == Err::<u64, CodecError>(e) && final(self).reader.position() == old(self).reader.position(),
            },
    {
        proof {
            lemma_pow256_values();
            lemma_parse_unsigned_bound(old(self).remaining(), 8, old(self).options.integer);
        }
        match read_unsigned(&mut self.reader, 8, self.options.integer) {
            Ok(v) => Ok(v as u64),
            Err(e) => Err(e),
        }
    }

    /// Read an untagged `u128` of a pack body, in the integer codec.
    pub fn unpack_u128(&mut self) -> (r: Result<u128, CodecError>)
        requires
            old(self).wf(),
        ensures
            final(self).wf(),
            old(self).frame_kept(*final(self)),
            match parse_unsigned(old(self).remaining(), 16, old(self).options.integer) {
                Ok((v, n)) => r matches Ok(x) && x as nat == v && final(self).reader.position()
                    == old(self).reader.position() + n,
                Err(e) => r == Err::<u128, CodecError>(e) && final(self).reader.position() == old(self).reader.position(),
            },
    {
        proof {
            lemma_pow256_values();
            lemma_parse_unsigned_bound(old(self).remaining(), 16, old(self).options.integer);
        }
        match read_unsigned(&mut self.reader, 16, self.options.integer) {
            Ok(v) => Ok(v as u128),
            Err(e) => Err(e),
        }
    }

    /// Read one raw byte of a pack body as an `i8`, unzigzagged.
    pub fn unpack_i8(&mut self) -> (r: Result<i8, CodecError>)
        requires
            old(self).wf(),
        ensures
            final(self).wf(),
            old(self).frame_kept(*final(self)),
            old(self).remaining().len() > 0 ==> (r matches Ok(x) && x as int == unzigzag(
                old(self).remaining()[0] as int,
            ) && final(self).reader.position() == old(self).reader.position() + 1),
            old(self).remaining().len() == 0 ==> r == Err::<i8, CodecError>(CodecError::OutOfInput)
                && final(self).reader.position() == old(self).reader.position(),
    {
        match self.reader.read_byte() {
            Ok(b) => {
                let s = unzigzag_u128(b as u128);
                Ok(s as i8)
            },
            Err(e) => Err(e),
        }
    }

    /// Read an untagged `i16` of a pack body, zig-zag mapped, in the integer codec.
    pub fn unpack_i16(&mut self) -> (r: Result<i16, CodecError>)
        requires
            old(self).wf(),
        ensures
            final(self).wf(),
            old(self).frame_kept(*final(self)),
            match parse_unsigned(old(self).remaining(), 2, old(self).options.integer) {
                Ok((v, n)) => r matches Ok(x) && x as int == unzigzag(v as int) && final(self).reader.position()
                    == old(self).reader.position() + n,
                Err(e) => r == Err::<i16, CodecError>(e) && final(self).reader.position() == old(self).reader.position(),
            },
    {
        proof {
            lemma_pow256_values();
            lemma_parse_unsigned_bound(old(self).remaining(), 2, old(self).options.integer);
        }
        match read_unsigned(&mut self.reader, 2, self.options.integer) {
            Ok(u) => {
                let s = unzigzag_u128(u);
                Ok(s as i16)
            },
            Err(e) => Err(e),
        }
    }

    /// Read an untagged `i32` of a pack body, zig-zag mapped, in the integer codec.
    pub fn unpack_i32(&mut self) -> (r: Result<i32, CodecError>)
        requires
            old(self).wf(),
        ensures
            final(self).wf(),
            old(self).frame_kept(*final(self)),
            match parse_unsigned(old(self).remaining(), 4, old(self).options.integer) {
                Ok((v, n)) => r matches Ok(x) && x as int == unzigzag(v as int) && final(self).reader.position()
                    == old(self).reader.position() + n,
                Err(e) => r == Err::<i32, CodecError>(e) && final(self).reader.position() == old(self).reader.position(),
            },
    {
        proof {
            lemma_pow256_values();
            lemma_parse_unsigned_bound(old(self).remaining(), 4, old(self).options.integer);
        }
        match read_unsigned(&mut self.reader, 4, self.options.integer) {
            Ok(u) => {
                let s = unzigzag_u128(u);
                Ok(s as i32)
            },
            Err(e) => Err(e),
        }
    }

    /// Read an untagged `i64` of a pack body, zig-zag mapped, in the integer codec.
    pub fn unpack_i64(&mut self) -> (r: Result<i64, CodecError>)
        requires
            old(self).wf(),
        ensures
            final(self).wf(),
            old(self).frame_kept(*final(self)),
            match parse_unsigned(old(self).remaining(), 8, old(self).options.integer) {
                Ok((v, n)) => r matches Ok(x) && x as int == unzigzag(v as int) && final(self).reader.position()
                    == old(self).reader.position() + n,
                Err(e) => r == Err::<i64, CodecError>(e) && final(self).reader.position() == old(self).reader.position(),
            },
    {
        proof {
            lemma_pow256_values();
            lemma_parse_unsigned_bound(old(self).remaining(), 8, old(self).options.integer);
        }
        match read_unsigned(&mut self.reader, 8, self.options.integer) {
            Ok(u) => {
                let s = unzigzag_u128(u);
                Ok(s as i64)
            },
            Err(e) => Err(e),
        }
    }

    /// Read an untagged `i128` of a pack body, zig-zag mapped, in the integer codec.
    pub fn unpack_i128(&mut self) -> (r: Result<i128, CodecError>)
        requires
            old(self).wf(),
        ensures
            final(self).wf(),
            old(self).frame_kept(*final(self)),
            match parse_unsigned(old(self).remaining(), 16, old(self).options.integer) {
                Ok((v, n)) => r matches Ok(x) && x as int == unzigzag(v as int) && final(self).reader.position()
                    == old(self).reader.position() + n,
                Err(e) => r == Err::<i128, CodecError>(e) && final(self).reader.position() == old(self).reader.position(),
            },
    {
        proof {
            lemma_pow256_values();
            lemma_parse_unsigned_bound(old(self).remaining(), 16, old(self).options.integer);
        }
        match read_unsigned(&mut self.reader, 16, self.options.integer) {
            Ok(u) => {
                let s = unzigzag_u128(u);
                Ok(s as i128)
            },
            Err(e) => Err(e),
        }
    }

    /// Read an untagged `usize` of a pack body: the wire's 64-bit value,
    /// rejected when it passes the host width.
    pub fn unpack_usize(&mut self) -> (r: Result<usize, CodecError>)
        requires
            old(self).wf(),
        ensures
            final(self).wf(),
            old(self).frame_kept(*final(self)),
            match parse_unsigned(old(self).remaining(), 8, old(self).options.length) {
                Ok((v, n)) => if v <= usize::MAX {
                    r matches Ok(x) && x as nat == v && final(self).reader.position() == old(self).reader.position() + n
                } else {
                    r == Err::<usize, CodecError>(CodecError::IntegerOverflow) && final(self).reader.position() == old(self).reader.position()
                },
                Err(e) => r == Err::<usize, CodecError>(e) && final(self).reader.position() == old(self).reader.position(),
            },
    {
        proof {
            lemma_pow256_values();
            lemma_parse_unsigned_bound(old(self).remaining(), 8, old(self).options.length);
        }
        let start = self.reader.pos();
        match read_unsigned(&mut self.reader, 8, self.options.length) {
            Ok(v) => {
                if v <= usize::MAX as u128 {
                    Ok(v as usize)
                } else {
                    self.reader.rewind(start);
                    Err(CodecError::IntegerOverflow)
                }
            },
            Err(e) => Err(e),
        }
    }

    /// Read an untagged `isize` of a pack body: the wire's 64-bit value,
    /// unzigzagged, rejected when its image passes the host width.
    pub fn unpack_isize(&mut self) -> (r: Result<isize, CodecError>)
        requires
            old(self).wf(),
        ensures
            final(self).wf(),
            old(self).frame_kept(*final(self)),
            match parse_unsigned(old(self).remaining(), 8, old(self).options.length) {
                Ok((v, n)) => if v <= usize::MAX {
                    r matches Ok(x) && x as int == unzigzag(v as int) && final(self).reader.position() == old(self).reader.position() + n
                } else {
                    r == Err::<isize, CodecError>(CodecError::IntegerOverflow) && final(self).reader.position() == old(self).reader.position()
                },
                Err(e) => r == Err::<isize, CodecError>(e) && final(self).reader.position() == old(self).reader.position(),
            },
    {
        proof {
            lemma_pow256_values();
            lemma_parse_unsigned_bound(old(self).remaining(), 8, old(self).options.length);
        }
        let start = self.reader.pos();
        match read_unsigned(&mut self.reader, 8, self.options.length) {
            Ok(v) => {
                if v <= usize::MAX as u128 {
                    let s = unzigzag_u128(v);
                    proof {
                        assert(usize::MAX as int == 2 * (isize::MAX as int) + 1);
                        assert(isize::MIN as int == -(isize::MAX as int) - 1);
                    }
                    Ok(s as isize)
                } else {
                    self.reader.rewind(start);
                    Err(CodecError::IntegerOverflow)
                }
            },
            Err(e) => Err(e),
        }
    }

    /// Read the untagged raw bits of an `f32` of a pack body.
    pub fn unpack_f32_bits(&mut self) -> (r: Result<u32, CodecError>)
        requires
            old(self).wf(),
        ensures
            final(self).wf(),
            old(self).frame_kept(*final(self)),
            match parse_unsigned(old(self).remaining(), 4, old(self).options.integer) {
                Ok((v, n)) => r matches Ok(x) && x as nat == v && final(self).reader.position()
                    == old(self).reader.position() + n,
                Err(e) => r == Err::<u32, CodecError>(e) && final(self).reader.position() == old(self).reader.position(),
            },
    {
        proof {
            lemma_pow256_values();
            lemma_parse_unsigned_bound(old(self).remaining(), 4, old(self).options.integer);
        }
        match read_unsigned(&mut self.reader, 4, self.options.integer) {
            Ok(v) => Ok(v as u32),
            Err(e) => Err(e),
        }
    }

    /// Read the untagged raw bits of an `f64` of a pack body.
    pub fn unpack_f64_bits(&mut self) -> (r: Result<u64, CodecError>)
        requires
            old(self).wf(),
        ensures
            final(self).wf(),
            old(self).frame_kept(*final(self)),
            match parse_unsigned(old(self).remaining(), 8, old(self).options.integer) {
                Ok((v, n)) => r matches Ok(x) && x as nat == v && final(self).reader.position()
                    == old(self).reader.position() + n,
                Err(e) => r == Err::<u64, CodecError>(e) && final(self).reader.position() == old(self).reader.position(),
            },
    {
        proof {
            lemma_pow256_values();
            lemma_parse_unsigned_bound(old(self).remaining(), 8, old(self).options.integer);
        }
        match read_unsigned(&mut self.reader, 8, self.options.integer) {
            Ok(v) => Ok(v as u64),
            Err(e) => Err(e),
        }
    }

    /// Read an untagged byte payload of a pack body: its length in the
    /// length codec, then that many raw bytes.
    pub fn unpack_bytes(&mut self) -> (r: Result<Vec<u8>, CodecError>)
        requires
            old(self).wf(),
        ensures
            final(self).wf(),
            old(self).frame_kept(*final(self)),
            match parse_unsigned(old(self).remaining(), 8, old(self).options.length) {
                Ok((l, n)) => if l <= usize::MAX {
                    if old(self).remaining().len() >= n + l {
                        r matches Ok(v) && v@ == old(self).remaining().subrange(
                            n as int,
                            (n + l) as int,
                        ) && final(self).reader.position() == old(self).reader.position() + n + l
                    } else {
                        r == Err::<Vec<u8>, CodecError>(CodecError::OutOfInput) && final(self).reader.position() == old(self).reader.position()
                    }
                } else {
                    r == Err::<Vec<u8>, CodecError>(CodecError::IntegerOverflow) && final(self).reader.position() == old(self).reader.position()
                },
                Err(e) => r == Err::<Vec<u8>, CodecError>(e) && final(self).reader.position() == old(self).reader.position(),
            },
    {
        proof {
            lemma_pow256_values();
        }
        let start = self.reader.pos();
        match read_unsigned(&mut self.reader, 8, self.options.length) {
            Ok(l) => {
                if l <= usize::MAX as u128 {
                    match self.reader.read_bytes(l as usize) {
                        Ok(v) => {
                            proof {
                                match parse_unsigned(
                                    old(self).remaining(),
                                    8,
                                    old(self).options.length,
                                ) {
                                    Ok((gl, gn)) => {
                                        assert(v@ =~= old(self).remaining().subrange(
                                            gn as int,
                                            (gn + gl) as int,
                                        ));
                                    },
                                    Err(_) => {},
                                }
                            }
                            Ok(v)
                        },
                        Err(e) => {
                            self.reader.rewind(start);
                            Err(e)
                        },
                    }
                } else {
                    self.reader.rewind(start);
                    Err(CodecError::IntegerOverflow)
                }
            },
            Err(e) => Err(e),
        }
    }

    /// Decode a `u128`.
    pub fn decode_u128(&mut self) -> (r: Result<u128, CodecError>)
        requires
            old(self).wf(),
        ensures
            final(self).wf(),
            old(self).frame_kept(*final(self)),
            match parse_typed_unsigned(
                old(self).remaining(),
                16,
                old(self).options.integer,
                NumberHint::U128,
            ) {
                Ok((v, n)) => r matches Ok(x) && x as nat == v && final(self).reader.position()
                    == old(self).reader.position() + n,
                Err(e) => r == Err::<u128, CodecError>(e) && final(self).reader.position() == old(self).reader.position(),
            },
    {
        self.decode_typed(16, self.options.integer, NumberHint::U128)
    }
}

} // verus!
