//! The wire-format encoder.
//!
//! [`WireEncoder`] appends tag-prefixed records to its writer; every method
//! states the exact bytes it appends.  [`WirePackEncoder`] stages a pack
//! body in a bounded buffer using the untagged storage encoding, and
//! [`WirePackEncoder::finish`] emits it behind a single length prefix.

use vstd::prelude::*;

use crate::error::CodecError;
use crate::fixed_bytes::FixedBytes;
use crate::integer_encoding::IntegerEncoding;
use crate::integer_encoding::lemma_pow256_values;
use crate::integer_encoding::lemma_zigzag_roundtrip;
use crate::integer_encoding::typed_unsigned_bytes;
use crate::integer_encoding::unsigned_bytes;
use crate::integer_encoding::write_unsigned;
use crate::integer_encoding::write_typed_unsigned;
use crate::integer_encoding::zigzag;
use crate::integer_encoding::zigzag_i128;
use crate::tag::CONTINUATION_SENTINEL;
use crate::tag::Kind;
use crate::tag::MAX_INLINE_LEN;
use crate::tag::Tag;
use crate::tag::tag_byte_of;

verus! {

/// The codec configuration of an encoder or decoder: which strategy writes
/// integer payloads and which writes lengths.
#[derive(Clone, Copy, Debug, PartialEq, Eq, Structural)]
pub struct Options {
    /// Codec for integer values behind `Continuation` tags.
    pub integer: IntegerEncoding,
    /// Codec for lengths that do not embed in a tag.
    pub length: IntegerEncoding,
}

/// Pack bodies are staged in a buffer of this capacity unless the encoder
/// was built with another.
pub const DEFAULT_PACK_CAPACITY: usize = 256;

/// A tag whose data bits embed `len` when it fits, else the sentinel
/// followed by the length written by the length codec.
pub open spec fn header_bytes(kind: Kind, len: nat, enc: IntegerEncoding) -> Seq<u8> {
    if len <= MAX_INLINE_LEN {
        seq![tag_byte_of(kind, len as u8)]
    } else {
        seq![tag_byte_of(kind, CONTINUATION_SENTINEL)] + unsigned_bytes(len, 8, enc)
    }
}

/// A single-tag record of `Sequence` kind with the given data value: unit
/// and `None` use 0, `Some` uses 1, a variant header uses 2.
pub open spec fn sequence_mark_bytes(data: u8) -> Seq<u8> {
    seq![tag_byte_of(Kind::Sequence, data)]
}

/// The record holding a `bool`.
pub open spec fn bool_bytes(v: bool) -> Seq<u8> {
    seq![tag_byte_of(Kind::Byte, if v { 1 } else { 0 })]
}

/// The record holding a `u8`: embedded when small, else sentinel plus the
/// raw byte.
pub open spec fn u8_wire_bytes(v: u8) -> Seq<u8> {
    if v <= MAX_INLINE_LEN {
        seq![tag_byte_of(Kind::Byte, v)]
    } else {
        seq![tag_byte_of(Kind::Byte, CONTINUATION_SENTINEL), v]
    }
}

/// The record holding a byte or string payload: length header, then the
/// payload itself.
pub open spec fn bytes_wire_bytes(data: Seq<u8>, enc: IntegerEncoding) -> Seq<u8> {
    header_bytes(Kind::Prefix, data.len(), enc) + data
}

/// The concatenation of a family of byte sequences, in order.
pub open spec fn concat_bytes(vs: Seq<Seq<u8>>) -> Seq<u8>
    decreases vs.len(),
{
    if vs.len() == 0 {
        Seq::empty()
    } else {
        vs[0] + concat_bytes(vs.drop_first())
    }
}

/// A concatenation splits at any index.
pub proof fn lemma_concat_split(vs: Seq<Seq<u8>>, i: int)
    requires
        0 <= i <= vs.len(),
    ensures
        concat_bytes(vs) == concat_bytes(vs.take(i)) + concat_bytes(vs.skip(i)),
    decreases i,
{
    if i == 0 {
        assert(vs.take(0) =~= Seq::<Seq<u8>>::empty());
        assert(vs.skip(0) =~= vs);
        assert(concat_bytes(vs) =~= concat_bytes(vs.take(0)) + concat_bytes(vs.skip(0)));
    } else {
        lemma_concat_split(vs.drop_first(), i - 1);
        assert(vs.take(i).drop_first() =~= vs.drop_first().take(i - 1));
        assert(vs.skip(i) =~= vs.drop_first().skip(i - 1));
        assert(vs.take(i)[0] == vs[0]);
        assert(concat_bytes(vs) =~= concat_bytes(vs.take(i)) + concat_bytes(vs.skip(i)));
    }
}

/// Taking one more sequence extends the concatenation by exactly it.
pub proof fn lemma_concat_snoc(vs: Seq<Seq<u8>>, i: int)
    requires
        0 <= i < vs.len(),
    ensures
        concat_bytes(vs.take(i + 1)) == concat_bytes(vs.take(i)) + vs[i],
{
    lemma_concat_split(vs.take(i + 1), i);
    assert(vs.take(i + 1).take(i) =~= vs.take(i));
    assert(vs.take(i + 1).skip(i) =~= seq![vs[i]]);
    let single = seq![vs[i]];
    assert(single.drop_first() =~= Seq::<Seq<u8>>::empty());
    assert(vs[i] + Seq::<u8>::empty() =~= vs[i]);
    assert(concat_bytes(single) == vs[i] + concat_bytes(Seq::<Seq<u8>>::empty()));
}

/// Append a whole slice of bytes to a writer.
pub fn write_all(out: &mut Vec<u8>, bytes: &[u8])
    ensures
        final(out)@ == old(out)@ + bytes@,
{
    let ghost prefix = out@;
    let mut i: usize = 0;
    while i < bytes.len()
        invariant
            0 <= i <= bytes@.len(),
            out@ == prefix + bytes@.take(i as int),
        decreases bytes@.len() - i,
    {
        out.push(bytes[i]);
        i = i + 1;
        proof {
            assert(out@ =~= prefix + bytes@.take(i as int));
        }
    }
    proof {
        assert(out@ =~= prefix + bytes@);
    }
}

/// Append a length header: the length embeds in the tag's data bits when it
/// is at most 30, else the sentinel is followed by the length itself.
fn write_header(out: &mut Vec<u8>, kind: Kind, len: usize, enc: IntegerEncoding) -> (r: Result<
    (),
    CodecError,
>)
    ensures
        r is Ok,
        final(out)@ == old(out)@ + header_bytes(kind, len as nat, enc),
{
    let (tag, embedded) = Tag::with_len(kind, len);
    out.push(tag.byte());
    if !embedded {
        proof {
            lemma_pow256_values();
            assert(usize::MAX <= u64::MAX);
        }
        let res = write_unsigned(out, len as u128, 8, enc);
        proof {
            assert(out@ =~= old(out)@ + header_bytes(kind, len as nat, enc));
        }
        res
    } else {
        Ok(())
    }
}

/// Encode a `Prefix`-kind length header, as written before byte and string
/// payloads and pack bodies.
pub fn encode_prefix(out: &mut Vec<u8>, len: usize, enc: IntegerEncoding) -> (r: Result<
    (),
    CodecError,
>)
    ensures
        r is Ok,
        final(out)@ == old(out)@ + header_bytes(Kind::Prefix, len as nat, enc),
{
    write_header(out, Kind::Prefix, len, enc)
}

/// The wire-format encoder: appends one tag-prefixed record per call.
pub struct WireEncoder {
    /// The output written so far.
    pub writer: Vec<u8>,
    /// The integer and length codecs in force.
    pub options: Options,
    /// Capacity of the staging buffer a pack body may fill.
    pub pack_capacity: usize,
}

impl WireEncoder {
    /// The bytes written so far.
    pub open spec fn bytes(self) -> Seq<u8> {
        self.writer@
    }

    /// The configuration of `self` carried over unchanged into `other`.
    pub open spec fn config_kept(self, other: WireEncoder) -> bool {
        other.options == self.options && other.pack_capacity == self.pack_capacity
    }

    /// An encoder over `writer` with the default configuration:
    /// fixed-width integers, variable-length lengths.
    pub fn new(writer: Vec<u8>) -> (r: WireEncoder)
        ensures
            r.bytes() == writer@,
            r.options == (Options { integer: IntegerEncoding::Fixed, length: IntegerEncoding::Variable }),
            r.pack_capacity == DEFAULT_PACK_CAPACITY,
    {
        WireEncoder {
            writer,
            options: Options { integer: IntegerEncoding::Fixed, length: IntegerEncoding::Variable },
            pack_capacity: DEFAULT_PACK_CAPACITY,
        }
    }

    /// An encoder with an explicit configuration and pack capacity.
    pub fn with_options(writer: Vec<u8>, options: Options, pack_capacity: usize) -> (r:
        WireEncoder)
        ensures
            r.bytes() == writer@,
            r.options == options,
            r.pack_capacity == pack_capacity,
    {
        WireEncoder { writer, options, pack_capacity }
    }

    /// Hand back the accumulated output.
    pub fn into_writer(self) -> (r: Vec<u8>)
        ensures
            r@ == self.bytes(),
    {
        self.writer
    }

    /// Encode a unit: a bare empty-sequence tag.
    pub fn encode_unit(&mut self) -> (r: Result<(), CodecError>)
        ensures
            r is Ok,
            final(self).bytes() == old(self).bytes() + sequence_mark_bytes(0),
            old(self).config_kept(*final(self)),
    {
        self.writer.push(Tag::new(Kind::Sequence, 0).byte());
        Ok(())
    }

    /// Encode a unit struct, which is indistinguishable from a unit.
    pub fn encode_unit_struct(&mut self) -> (r: Result<(), CodecError>)
        ensures
            r is Ok,
            final(self).bytes() == old(self).bytes() + sequence_mark_bytes(0),
            old(self).config_kept(*final(self)),
    {
        self.encode_unit()
    }

    /// Encode a boolean as a byte-kind tag holding 0 or 1.
    pub fn encode_bool(&mut self, value: bool) -> (r: Result<(), CodecError>)
        ensures
            r is Ok,
            final(self).bytes() == old(self).bytes() + bool_bytes(value),
            old(self).config_kept(*final(self)),
    {
        self.writer.push(Tag::new(Kind::Byte, if value { 1 } else { 0 }).byte());
        Ok(())
    }

    /// Encode a `u8`: embedded in the tag when at most 30, else the sentinel
    /// tag followed by the raw byte.
    pub fn encode_u8(&mut self, value: u8) -> (r: Result<(), CodecError>)
        ensures
            r is Ok,
            final(self).bytes() == old(self).bytes() + u8_wire_bytes(value),
            old(self).config_kept(*final(self)),
    {
        let (tag, embedded) = Tag::with_byte(Kind::Byte, value);
        self.writer.push(tag.byte());
        if !embedded {
            self.writer.push(value);
        }
        Ok(())
    }

    /// Encode a `u16` behind a width-2 continuation tag.
    pub fn encode_u16(&mut self, value: u16) -> (r: Result<(), CodecError>)
        ensures
            r is Ok,
            final(self).bytes() == old(self).bytes() + typed_unsigned_bytes(
                value as nat,
                2,
                old(self).options.integer,
            ),
            old(self).config_kept(*final(self)),
    {
        proof {
            lemma_pow256_values();
        }
        write_typed_unsigned(&mut self.writer, value as u128, 2, self.options.integer)
    }

    /// Encode a `u32` behind a width-4 continuation tag.
    pub fn encode_u32(&mut self, value: u32) -> (r: Result<(), CodecError>)
        ensures
            r is Ok,
            final(self).bytes() == old(self).bytes() + typed_unsigned_bytes(
                value as nat,
                4,
                old(self).options.integer,
            ),
            old(self).config_kept(*final(self)),
    {
        proof {
            lemma_pow256_values();
        }
        write_typed_unsigned(&mut self.writer, value as u128, 4, self.options.integer)
    }

    /// Encode a `u64` behind a width-8 continuation tag.
    pub fn encode_u64(&mut self, value: u64) -> (r: Result<(), CodecError>)
        ensures
            r is Ok,
            final(self).bytes() == old(self).bytes() + typed_unsigned_bytes(
                value as nat,
                8,
                old(self).options.integer,
            ),
            old(self).config_kept(*final(self)),
    {
        proof {
            lemma_pow256_values();
        }
        write_typed_unsigned(&mut self.writer, value as u128, 8, self.options.integer)
    }

    /// Encode a `u128` behind a width-16 continuation tag.
    pub fn encode_u128(&mut self, value: u128) -> (r: Result<(), CodecError>)
        ensures
            r is Ok,
            final(self).bytes() == old(self).bytes() + typed_unsigned_bytes(
                value as nat,
                16,
                old(self).options.integer,
            ),
            old(self).config_kept(*final(self)),
    {
        proof {
            lemma_pow256_values();
        }
        write_typed_unsigned(&mut self.writer, value, 16, self.options.integer)
    }

    /// Encode an `i8`, zig-zag mapped, as a byte scalar.
    pub fn encode_i8(&mut self, value: i8) -> (r: Result<(), CodecError>)
        ensures
            r is Ok,
            final(self).bytes() == old(self).bytes() + u8_wire_bytes(zigzag(value as int) as u8),
            old(self).config_kept(*final(self)),
    {
        proof {
            lemma_zigzag_roundtrip(value as int, 0x80);
        }
        let u = zigzag_i128(value as i128);
        self.encode_u8(u as u8)
    }

    /// Encode an `i16`, zig-zag mapped, behind a width-2 continuation tag.
    pub fn encode_i16(&mut self, value: i16) -> (r: Result<(), CodecError>)
        ensures
            r is Ok,
            final(self).bytes() == old(self).bytes() + typed_unsigned_bytes(
                zigzag(value as int) as nat,
                2,
                old(self).options.integer,
            ),
            old(self).config_kept(*final(self)),
    {
        proof {
            lemma_pow256_values();
            lemma_zigzag_roundtrip(value as int, 0x8000);
        }
        let u = zigzag_i128(value as i128);
        write_typed_unsigned(&mut self.writer, u, 2, self.options.integer)
    }

    /// Encode an `i32`, zig-zag mapped, behind a width-4 continuation tag.
    pub fn encode_i32(&mut self, value: i32) -> (r: Result<(), CodecError>)
        ensures
            r is Ok,
            final(self).bytes() == old(self).bytes() + typed_unsigned_bytes(
                zigzag(value as int) as nat,
                4,
                old(self).options.integer,
            ),
            old(self).config_kept(*final(self)),
    {
        proof {
            lemma_pow256_values();
            lemma_zigzag_roundtrip(value as int, 0x80000000);
        }
        let u = zigzag_i128(value as i128);
        write_typed_unsigned(&mut self.writer, u, 4, self.options.integer)
    }

    /// Encode an `i64`, zig-zag mapped, behind a width-8 continuation tag.
    pub fn encode_i64(&mut self, value: i64) -> (r: Result<(), CodecError>)
        ensures
            r is Ok,
            final(self).bytes() == old(self).bytes() + typed_unsigned_bytes(
                zigzag(value as int) as nat,
                8,
                old(self).options.integer,
            ),
            old(self).config_kept(*final(self)),
    {
        proof {
            lemma_pow256_values();
            lemma_zigzag_roundtrip(value as int, 0x8000000000000000);
        }
        let u = zigzag_i128(value as i128);
        write_typed_unsigned(&mut self.writer, u, 8, self.options.integer)
    }

    /// Encode an `i128`, zig-zag mapped, behind a width-16 continuation tag.
    pub fn encode_i128(&mut self, value: i128) -> (r: Result<(), CodecError>)
        ensures
            r is Ok,
            final(self).bytes() == old(self).bytes() + typed_unsigned_bytes(
                zigzag(value as int) as nat,
                16,
                old(self).options.integer,
            ),
            old(self).config_kept(*final(self)),
    {
        proof {
            lemma_pow256_values();
            lemma_zigzag_roundtrip(value as int, 0x80000000000000000000000000000000);
        }
        let u = zigzag_i128(value);
        write_typed_unsigned(&mut self.writer, u, 16, self.options.integer)
    }

    /// Encode a `usize` as a portable 64-bit unsigned value.
    pub fn encode_usize(&mut self, value: usize) -> (r: Result<(), CodecError>)
        ensures
            r is Ok,
            final(self).bytes() == old(self).bytes() + typed_unsigned_bytes(
                value as nat,
                8,
                old(self).options.length,
            ),
            old(self).config_kept(*final(self)),
    {
        proof {
            lemma_pow256_values();
            assert(usize::MAX <= u64::MAX);
        }
        write_typed_unsigned(&mut self.writer, value as u128, 8, self.options.length)
    }

    /// Encode an `isize`, zig-zag mapped, as a portable 64-bit unsigned
    /// value.
    pub fn encode_isize(&mut self, value: isize) -> (r: Result<(), CodecError>)
        ensures
            r is Ok,
            final(self).bytes() == old(self).bytes() + typed_unsigned_bytes(
                zigzag(value as int) as nat,
                8,
                old(self).options.length,
            ),
            old(self).config_kept(*final(self)),
    {
        proof {
            lemma_pow256_values();
            lemma_zigzag_roundtrip(value as int, 0x8000000000000000);
        }
        let u = zigzag_i128(value as i128);
        write_typed_unsigned(&mut self.writer, u, 8, self.options.length)
    }

    /// Encode a character as the `u32` holding its scalar value.
    pub fn encode_char(&mut self, value: char) -> (r: Result<(), CodecError>)
        ensures
            r is Ok,
            final(self).bytes() == old(self).bytes() + typed_unsigned_bytes(
                (value as u32) as nat,
                4,
                old(self).options.integer,
            ),
            old(self).config_kept(*final(self)),
    {
        self.encode_u32(value as u32)
    }

    /// Encode the raw bits of an `f32` as a `u32`.
    pub fn encode_f32_bits(&mut self, bits: u32) -> (r: Result<(), CodecError>)
        ensures
            r is Ok,
            final(self).bytes() == old(self).bytes() + typed_unsigned_bytes(
                bits as nat,
                4,
                old(self).options.integer,
            ),
            old(self).config_kept(*final(self)),
    {
        self.encode_u32(bits)
    }

    /// Encode the raw bits of an `f64` as a `u64`.
    pub fn encode_f64_bits(&mut self, bits: u64) -> (r: Result<(), CodecError>)
        ensures
            r is Ok,
            final(self).bytes() == old(self).bytes() + typed_unsigned_bytes(
                bits as nat,
                8,
                old(self).options.integer,
            ),
            old(self).config_kept(*final(self)),
    {
        self.encode_u64(bits)
    }

    /// Encode a fixed-size byte array as a byte payload.
    pub fn encode_array<const N: usize>(&mut self, array: [u8; N]) -> (r: Result<(), CodecError>)
        ensures
            r is Ok,
            final(self).bytes() == old(self).bytes() + bytes_wire_bytes(
                array@,
                old(self).options.length,
            ),
            old(self).config_kept(*final(self)),
    {
        self.encode_bytes(array.as_slice())
    }

    /// Encode a byte payload behind a length header.
    pub fn encode_bytes(&mut self, bytes: &[u8]) -> (r: Result<(), CodecError>)
        ensures
            r is Ok,
            final(self).bytes() == old(self).bytes() + bytes_wire_bytes(
                bytes@,
                old(self).options.length,
            ),
            old(self).config_kept(*final(self)),
    {
        let res = encode_prefix(&mut self.writer, bytes.len(), self.options.length);
        write_all(&mut self.writer, bytes);
        proof {
            assert(self.writer@ =~= old(self).bytes() + bytes_wire_bytes(
                bytes@,
                old(self).options.length,
            ));
        }
        res
    }

    /// Encode a string as its UTF-8 bytes behind a length header.
    pub fn encode_string(&mut self, string: &str) -> (r: Result<(), CodecError>)
        ensures
            r is Ok,
            final(self).bytes() == old(self).bytes() + bytes_wire_bytes(
                vstd::utf8::encode_utf8(string@),
                old(self).options.length,
            ),
            old(self).config_kept(*final(self)),
    {
        self.encode_bytes(string.as_bytes())
    }

    /// Encode several byte slices as one logical payload: a single length
    /// header covering their total, then the slices in argument order.
    pub fn encode_bytes_vectored(&mut self, vectors: &Vec<Vec<u8>>) -> (r: Result<
        (),
        CodecError,
    >)
        requires
            concat_bytes(vectors@.map_values(|v: Vec<u8>| v@)).len() <= usize::MAX,
        ensures
            r is Ok,
            final(self).bytes() == old(self).bytes() + bytes_wire_bytes(
                concat_bytes(vectors@.map_values(|v: Vec<u8>| v@)),
                old(self).options.length,
            ),
            old(self).config_kept(*final(self)),
    {
        let ghost parts = vectors@.map_values(|v: Vec<u8>| v@);
        let mut total: usize = 0;
        let mut i: usize = 0;
        proof {
            assert(parts.take(0) =~= Seq::<Seq<u8>>::empty());
        }
        while i < vectors.len()
            invariant
                0 <= i <= vectors@.len(),
                parts == vectors@.map_values(|v: Vec<u8>| v@),
                concat_bytes(parts).len() <= usize::MAX,
                total == concat_bytes(parts.take(i as int)).len(),
            decreases vectors@.len() - i,
        {
            proof {
                lemma_concat_snoc(parts, i as int);
                lemma_concat_split(parts, i + 1);
            }
            total = total + vectors[i].len();
            i = i + 1;
        }
        proof {
            assert(parts.take(vectors@.len() as int) =~= parts);
        }
        let res = encode_prefix(&mut self.writer, total, self.options.length);
        let ghost headered = self.writer@;
        let mut j: usize = 0;
        proof {
            assert(parts.take(0) =~= Seq::<Seq<u8>>::empty());
            assert(headered =~= headered + concat_bytes(parts.take(0)));
        }
        while j < vectors.len()
            invariant
                0 <= j <= vectors@.len(),
                parts == vectors@.map_values(|v: Vec<u8>| v@),
                self.writer@ == headered + concat_bytes(parts.take(j as int)),
                self.options == old(self).options,
                self.pack_capacity == old(self).pack_capacity,
            decreases vectors@.len() - j,
        {
            proof {
                lemma_concat_snoc(parts, j as int);
            }
            write_all(&mut self.writer, vectors[j].as_slice());
            j = j + 1;
            proof {
                assert(self.writer@ =~= headered + concat_bytes(parts.take(j as int)));
            }
        }
        proof {
            assert(parts.take(vectors@.len() as int) =~= parts);
            assert(self.writer@ =~= old(self).bytes() + bytes_wire_bytes(
                concat_bytes(parts),
                old(self).options.length,
            ));
        }
        res
    }

    /// Open an option holding a value: a sequence tag with data 1; the
    /// payload is encoded next.
    pub fn encode_some(&mut self) -> (r: Result<(), CodecError>)
        ensures
            r is Ok,
            final(self).bytes() == old(self).bytes() + sequence_mark_bytes(1),
            old(self).config_kept(*final(self)),
    {
        self.writer.push(Tag::new(Kind::Sequence, 1).byte());
        Ok(())
    }

    /// Encode an absent option, indistinguishable from a unit.
    pub fn encode_none(&mut self) -> (r: Result<(), CodecError>)
        ensures
            r is Ok,
            final(self).bytes() == old(self).bytes() + sequence_mark_bytes(0),
            old(self).config_kept(*final(self)),
    {
        self.writer.push(Tag::new(Kind::Sequence, 0).byte());
        Ok(())
    }

    /// Open a sequence of `len` items: its header is written now, the items
    /// are encoded by the following `len` calls.
    pub fn encode_sequence(&mut self, len: usize) -> (r: Result<(), CodecError>)
        ensures
            r is Ok,
            final(self).bytes() == old(self).bytes() + header_bytes(
                Kind::Sequence,
                len as nat,
                old(self).options.length,
            ),
            old(self).config_kept(*final(self)),
    {
        write_header(&mut self.writer, Kind::Sequence, len, self.options.length)
    }

    /// Open a map of `len` pairs, laid out as a sequence of `2 * len` items
    /// alternating keys and values.  Fails with `IntegerOverflow`, writing
    /// nothing, exactly when `2 * len` passes `usize::MAX`.
    pub fn encode_map(&mut self, len: usize) -> (r: Result<(), CodecError>)
        ensures
            old(self).config_kept(*final(self)),
            2 * len <= usize::MAX ==> r is Ok && final(self).bytes() == old(self).bytes()
                + header_bytes(Kind::Sequence, 2 * len as nat, old(self).options.length),
            2 * len > usize::MAX ==> r == Err::<(), CodecError>(CodecError::IntegerOverflow)
                && final(self).bytes() == old(self).bytes(),
    {
        let doubled = match len.checked_mul(2) {
            Some(d) => d,
            None => {
                return Err(CodecError::IntegerOverflow);
            },
        };
        write_header(&mut self.writer, Kind::Sequence, doubled, self.options.length)
    }

    /// Open a struct of `len` fields; the layout is that of a map.
    pub fn encode_struct(&mut self, len: usize) -> (r: Result<(), CodecError>)
        ensures
            old(self).config_kept(*final(self)),
            2 * len <= usize::MAX ==> r is Ok && final(self).bytes() == old(self).bytes()
                + header_bytes(Kind::Sequence, 2 * len as nat, old(self).options.length),
            2 * len > usize::MAX ==> r == Err::<(), CodecError>(CodecError::IntegerOverflow)
                && final(self).bytes() == old(self).bytes(),
    {
        self.encode_map(len)
    }

    /// Open a tuple of `len` slots; the layout is that of a map.
    pub fn encode_tuple(&mut self, len: usize) -> (r: Result<(), CodecError>)
        ensures
            old(self).config_kept(*final(self)),
            2 * len <= usize::MAX ==> r is Ok && final(self).bytes() == old(self).bytes()
                + header_bytes(Kind::Sequence, 2 * len as nat, old(self).options.length),
            2 * len > usize::MAX ==> r == Err::<(), CodecError>(CodecError::IntegerOverflow)
                && final(self).bytes() == old(self).bytes(),
    {
        self.encode_map(len)
    }

    /// Open a variant: a two-item sequence holding the tag, then the body.
    pub fn encode_variant(&mut self) -> (r: Result<(), CodecError>)
        ensures
            r is Ok,
            final(self).bytes() == old(self).bytes() + sequence_mark_bytes(2),
            old(self).config_kept(*final(self)),
    {
        self.writer.push(Tag::new(Kind::Sequence, 2).byte());
        Ok(())
    }

    /// Open a pack: a fresh bounded staging buffer sharing this encoder's
    /// configuration.  Nothing is written until the pack is finished.
    pub fn encode_pack(&self) -> (r: WirePackEncoder)
        ensures
            r.pack_buf.wf(),
            r.pack_buf.bytes() == Seq::<u8>::empty(),
            r.pack_buf.capacity() == self.pack_capacity,
            r.options == self.options,
    {
        WirePackEncoder { pack_buf: FixedBytes::new(self.pack_capacity), options: self.options }
    }
}

/// Encodes pack elements into a bounded staging buffer with the untagged
/// storage encoding; `finish` emits the staged body behind one length
/// prefix.
pub struct WirePackEncoder {
    /// The staged, untagged pack body.
    pub pack_buf: FixedBytes,
    /// The integer and length codecs in force.
    pub options: Options,
}

impl WirePackEncoder {
    /// An empty pack encoder with the given staging capacity.
    pub fn new(capacity: usize, options: Options) -> (r: WirePackEncoder)
        ensures
            r.pack_buf.wf(),
            r.pack_buf.bytes() == Seq::<u8>::empty(),
            r.pack_buf.capacity() == capacity,
            r.options == options,
    {
        WirePackEncoder { pack_buf: FixedBytes::new(capacity), options }
    }

    /// Stage raw storage-encoded bytes, all or nothing.
    fn stage(&mut self, bytes: &Vec<u8>) -> (r: Result<(), CodecError>)
        requires
            old(self).pack_buf.wf(),
        ensures
            final(self).pack_buf.wf(),
            final(self).options == old(self).options,
            final(self).pack_buf.capacity() == old(self).pack_buf.capacity(),
            old(self).pack_buf.bytes().len() + bytes@.len() <= old(self).pack_buf.capacity()
                ==> r is Ok && final(self).pack_buf.bytes() == old(self).pack_buf.bytes()
                + bytes@,
            old(self).pack_buf.bytes().len() + bytes@.len() > old(self).pack_buf.capacity() ==> r
                == Err::<(), CodecError>(CodecError::BufferOverflow) && final(self).pack_buf.bytes() == old(self).pack_buf.bytes(),
    {
        self.pack_buf.write_bytes(bytes)
    }

    /// Stage a `u8` as one raw byte.
    pub fn encode_u8(&mut self, value: u8) -> (r: Result<(), CodecError>)
        requires
            old(self).pack_buf.wf(),
        ensures
            final(self).pack_buf.wf(),
            final(self).options == old(self).options,
            final(self).pack_buf.capacity() == old(self).pack_buf.capacity(),
            old(self).pack_buf.bytes().len() + 1 <= old(self).pack_buf.capacity() ==> r is Ok
                && final(self).pack_buf.bytes() == old(self).pack_buf.bytes().push(value),
            old(self).pack_buf.bytes().len() + 1 > old(self).pack_buf.capacity() ==> r == Err::<
                (),
                CodecError,
            >(CodecError::BufferOverflow) && final(self).pack_buf.bytes() == old(self).pack_buf.bytes(),
    {
        self.pack_buf.write_byte(value)
    }

    /// Stage a `bool` as one raw byte, 0 or 1.
    pub fn encode_bool(&mut self, value: bool) -> (r: Result<(), CodecError>)
        requires
            old(self).pack_buf.wf(),
        ensures
            final(self).pack_buf.wf(),
            final(self).options == old(self).options,
            final(self).pack_buf.capacity() == old(self).pack_buf.capacity(),
            old(self).pack_buf.bytes().len() + 1 <= old(self).pack_buf.capacity() ==> r is Ok
                && final(self).pack_buf.bytes() == old(self).pack_buf.bytes().push(
                if value { 1 } else { 0 },
            ),
            old(self).pack_buf.bytes().len() + 1 > old(self).pack_buf.capacity() ==> r == Err::<
                (),
                CodecError,
            >(CodecError::BufferOverflow) && final(self).pack_buf.bytes() == old(self).pack_buf.bytes(),
    {
        self.pack_buf.write_byte(if value { 1 } else { 0 })
    }

    /// Stage a `u16` in the untagged integer codec.
    pub fn encode_u16(&mut self, value: u16) -> (r: Result<(), CodecError>)
        requires
            old(self).pack_buf.wf(),
        ensures
            final(self).pack_buf.wf(),
            final(self).options == old(self).options,
            final(self).pack_buf.capacity() == old(self).pack_buf.capacity(),
            ({
                let payload = unsigned_bytes(value as nat, 2, old(self).options.integer);
                &&& old(self).pack_buf.bytes().len() + payload.len() <= old(self).pack_buf.capacity() ==> r is Ok && final(self).pack_buf.bytes() == old(self).pack_buf.bytes() + payload
                &&& old(self).pack_buf.bytes().len() + payload.len() > old(self).pack_buf.capacity() ==> r == Err::<(), CodecError>(CodecError::BufferOverflow)
                    && final(self).pack_buf.bytes() == old(self).pack_buf.bytes()
            }),
    {
        proof {
            lemma_pow256_values();
        }
        let mut tmp: Vec<u8> = Vec::new();
        let res = write_unsigned(&mut tmp, value as u128, 2, self.options.integer);
        proof {
            assert(tmp@ =~= unsigned_bytes(value as nat, 2, self.options.integer));
        }
        self.stage(&tmp)
    }

    /// Stage a `u32` in the untagged integer codec.
    pub fn encode_u32(&mut self, value: u32) -> (r: Result<(), CodecError>)
        requires
            old(self).pack_buf.wf(),
        ensures
            final(self).pack_buf.wf(),
            final(self).options == old(self).options,
            final(self).pack_buf.capacity() == old(self).pack_buf.capacity(),
            ({
                let payload = unsigned_bytes(value as nat, 4, old(self).options.integer);
                &&& old(self).pack_buf.bytes().len() + payload.len() <= old(self).pack_buf.capacity() ==> r is Ok && final(self).pack_buf.bytes() == old(self).pack_buf.bytes() + payload
                &&& old(self).pack_buf.bytes().len() + payload.len() > old(self).pack_buf.capacity() ==> r == Err::<(), CodecError>(CodecError::BufferOverflow)
                    && final(self).pack_buf.bytes() == old(self).pack_buf.bytes()
            }),
    {
        proof {
            lemma_pow256_values();
        }
        let mut tmp: Vec<u8> = Vec::new();
        let res = write_unsigned(&mut tmp, value as u128, 4, self.options.integer);
        proof {
            assert(tmp@ =~= unsigned_bytes(value as nat, 4, self.options.integer));
        }
        self.stage(&tmp)
    }

    /// Stage a `u64` in the untagged integer codec.
    pub fn encode_u64(&mut self, value: u64) -> (r: Result<(), CodecError>)
        requires
            old(self).pack_buf.wf(),
        ensures
            final(self).pack_buf.wf(),
            final(self).options == old(self).options,
            final(self).pack_buf.capacity() == old(self).pack_buf.capacity(),
            ({
                let payload = unsigned_bytes(value as nat, 8, old(self).options.integer);
                &&& old(self).pack_buf.bytes().len() + payload.len() <= old(self).pack_buf.capacity() ==> r is Ok && final(self).pack_buf.bytes() == old(self).pack_buf.bytes() + payload
                &&& old(self).pack_buf.bytes().len() + payload.len() > old(self).pack_buf.capacity() ==> r == Err::<(), CodecError>(CodecError::BufferOverflow)
                    && final(self).pack_buf.bytes() == old(self).pack_buf.bytes()
            }),
    {
        proof {
            lemma_pow256_values();
        }
        let mut tmp: Vec<u8> = Vec::new();
        let res = write_unsigned(&mut tmp, value as u128, 8, self.options.integer);
        proof {
            assert(tmp@ =~= unsigned_bytes(value as nat, 8, self.options.integer));
        }
        self.stage(&tmp)
    }

    /// Stage a `u128` in the untagged integer codec.
    pub fn encode_u128(&mut self, value: u128) -> (r: Result<(), CodecError>)
        requires
            old(self).pack_buf.wf(),
        ensures
            final(self).pack_buf.wf(),
            final(self).options == old(self).options,
            final(self).pack_buf.capacity() == old(self).pack_buf.capacity(),
            ({
                let payload = unsigned_bytes(value as nat, 16, old(self).options.integer);
                &&& old(self).pack_buf.bytes().len() + payload.len() <= old(self).pack_buf.capacity() ==> r is Ok && final(self).pack_buf.bytes() == old(self).pack_buf.bytes() + payload
                &&& old(self).pack_buf.bytes().len() + payload.len() > old(self).pack_buf.capacity() ==> r == Err::<(), CodecError>(CodecError::BufferOverflow)
                    && final(self).pack_buf.bytes() == old(self).pack_buf.bytes()
            }),
    {
        proof {
            lemma_pow256_values();
        }
        let mut tmp: Vec<u8> = Vec::new();
        let res = write_unsigned(&mut tmp, value as u128, 16, self.options.integer);
        proof {
            assert(tmp@ =~= unsigned_bytes(value as nat, 16, self.options.integer));
        }
        self.stage(&tmp)
    }

    /// Stage an `i8`, zig-zag mapped, as one raw byte.
    pub fn encode_i8(&mut self, value: i8) -> (r: Result<(), CodecError>)
        requires
            old(self).pack_buf.wf(),
        ensures
            final(self).pack_buf.wf(),
            final(self).options == old(self).options,
            final(self).pack_buf.capacity() == old(self).pack_buf.capacity(),
            old(self).pack_buf.bytes().len() + 1 <= old(self).pack_buf.capacity() ==> r is Ok
                && final(self).pack_buf.bytes() == old(self).pack_buf.bytes().push(
                zigzag(value as int) as u8,
            ),
            old(self).pack_buf.bytes().len() + 1 > old(self).pack_buf.capacity() ==> r == Err::<
                (),
                CodecError,
            >(CodecError::BufferOverflow) && final(self).pack_buf.bytes() == old(self).pack_buf.bytes(),
    {
        proof {
            lemma_zigzag_roundtrip(value as int, 0x80);
        }
        let u = zigzag_i128(value as i128);
        self.pack_buf.write_byte(u as u8)
    }

    /// Stage an `i16`, zig-zag mapped, in the untagged integer codec.
    pub fn encode_i16(&mut self, value: i16) -> (r: Result<(), CodecError>)
        requires
            old(self).pack_buf.wf(),
        ensures
            final(self).pack_buf.wf(),
            final(self).options == old(self).options,
            final(self).pack_buf.capacity() == old(self).pack_buf.capacity(),
            ({
                let payload = unsigned_bytes(zigzag(value as int) as nat, 2, old(self).options.integer);
                &&& old(self).pack_buf.bytes().len() + payload.len() <= old(self).pack_buf.capacity() ==> r is Ok && final(self).pack_buf.bytes() == old(self).pack_buf.bytes() + payload
                &&& old(self).pack_buf.bytes().len() + payload.len() > old(self).pack_buf.capacity() ==> r == Err::<(), CodecError>(CodecError::BufferOverflow)
                    && final(self).pack_buf.bytes() == old(self).pack_buf.bytes()
            }),
    {
        proof {
            lemma_pow256_values();
            lemma_zigzag_roundtrip(value as int, 0x8000);
        }
        let u = zigzag_i128(value as i128);
        let mut tmp: Vec<u8> = Vec::new();
        let res = write_unsigned(&mut tmp, u, 2, self.options.integer);
        proof {
            assert(tmp@ =~= unsigned_bytes(zigzag(value as int) as nat, 2, self.options.integer));
        }
        self.stage(&tmp)
    }

    /// Stage an `i32`, zig-zag mapped, in the untagged integer codec.
    pub fn encode_i32(&mut self, value: i32) -> (r: Result<(), CodecError>)
        requires
            old(self).pack_buf.wf(),
        ensures
            final(self).pack_buf.wf(),
            final(self).options == old(self).options,
            final(self).pack_buf.capacity() == old(self).pack_buf.capacity(),
            ({
                let payload = unsigned_bytes(zigzag(value as int) as nat, 4, old(self).options.integer);
                &&& old(self).pack_buf.bytes().len() + payload.len() <= old(self).pack_buf.capacity() ==> r is Ok && final(self).pack_buf.bytes() == old(self).pack_buf.bytes() + payload
                &&& old(self).pack_buf.bytes().len() + payload.len() > old(self).pack_buf.capacity() ==> r == Err::<(), CodecError>(CodecError::BufferOverflow)
                    && final(self).pack_buf.bytes() == old(self).pack_buf.bytes()
            }),
    {
        proof {
            lemma_pow256_values();
            lemma_zigzag_roundtrip(value as int, 0x80000000);
        }
        let u = zigzag_i128(value as i128);
        let mut tmp: Vec<u8> = Vec::new();
        let res = write_unsigned(&mut tmp, u, 4, self.options.integer);
        proof {
            assert(tmp@ =~= unsigned_bytes(zigzag(value as int) as nat, 4, self.options.integer));
        }
        self.stage(&tmp)
    }

    /// Stage an `i64`, zig-zag mapped, in the untagged integer codec.
    pub fn encode_i64(&mut self, value: i64) -> (r: Result<(), CodecError>)
        requires
            old(self).pack_buf.wf(),
        ensures
            final(self).pack_buf.wf(),
            final(self).options == old(self).options,
            final(self).pack_buf.capacity() == old(self).pack_buf.capacity(),
            ({
                let payload = unsigned_bytes(zigzag(value as int) as nat, 8, old(self).options.integer);
                &&& old(self).pack_buf.bytes().len() + payload.len() <= old(self).pack_buf.capacity() ==> r is Ok && final(self).pack_buf.bytes() == old(self).pack_buf.bytes() + payload
                &&& old(self).pack_buf.bytes().len() + payload.len() > old(self).pack_buf.capacity() ==> r == Err::<(), CodecError>(CodecError::BufferOverflow)
                    && final(self).pack_buf.bytes() == old(self).pack_buf.bytes()
            }),
    {
        proof {
            lemma_pow256_values();
            lemma_zigzag_roundtrip(value as int, 0x8000000000000000);
        }
        let u = zigzag_i128(value as i128);
        let mut tmp: Vec<u8> = Vec::new();
        let res = write_unsigned(&mut tmp, u, 8, self.options.integer);
        proof {
            assert(tmp@ =~= unsigned_bytes(zigzag(value as int) as nat, 8, self.options.integer));
        }
        self.stage(&tmp)
    }

    /// Stage an `i128`, zig-zag mapped, in the untagged integer codec.
    pub fn encode_i128(&mut self, value: i128) -> (r: Result<(), CodecError>)
        requires
            old(self).pack_buf.wf(),
        ensures
            final(self).pack_buf.wf(),
            final(self).options == old(self).options,
            final(self).pack_buf.capacity() == old(self).pack_buf.capacity(),
            ({
                let payload = unsigned_bytes(zigzag(value as int) as nat, 16, old(self).options.integer);
                &&& old(self).pack_buf.bytes().len() + payload.len() <= old(self).pack_buf.capacity() ==> r is Ok && final(self).pack_buf.bytes() == old(self).pack_buf.bytes() + payload
                &&& old(self).pack_buf.bytes().len() + payload.len() > old(self).pack_buf.capacity() ==> r == Err::<(), CodecError>(CodecError::BufferOverflow)
                    && final(self).pack_buf.bytes() == old(self).pack_buf.bytes()
            }),
    {
        proof {
            lemma_pow256_values();
            lemma_zigzag_roundtrip(value as int, 0x80000000000000000000000000000000);
        }
        let u = zigzag_i128(value as i128);
        let mut tmp: Vec<u8> = Vec::new();
        let res = write_unsigned(&mut tmp, u, 16, self.options.integer);
        proof {
            assert(tmp@ =~= unsigned_bytes(zigzag(value as int) as nat, 16, self.options.integer));
        }
        self.stage(&tmp)
    }

    /// Stage a `usize` as a portable 64-bit value in the untagged length
    /// codec.
    pub fn encode_usize(&mut self, value: usize) -> (r: Result<(), CodecError>)
        requires
            old(self).pack_buf.wf(),
        ensures
            final(self).pack_buf.wf(),
            final(self).options == old(self).options,
            final(self).pack_buf.capacity() == old(self).pack_buf.capacity(),
            ({
                let payload = unsigned_bytes(value as nat, 8, old(self).options.length);
                &&& old(self).pack_buf.bytes().len() + payload.len() <= old(self).pack_buf.capacity() ==> r is Ok && final(self).pack_buf.bytes() == old(self).pack_buf.bytes() + payload
                &&& old(self).pack_buf.bytes().len() + payload.len() > old(self).pack_buf.capacity() ==> r == Err::<(), CodecError>(CodecError::BufferOverflow)
                    && final(self).pack_buf.bytes() == old(self).pack_buf.bytes()
            }),
    {
        proof {
            lemma_pow256_values();
            assert(usize::MAX <= u64::MAX);
        }
        let mut tmp: Vec<u8> = Vec::new();
        let res = write_unsigned(&mut tmp, value as u128, 8, self.options.length);
        proof {
            assert(tmp@ =~= unsigned_bytes(value as nat, 8, self.options.length));
        }
        self.stage(&tmp)
    }

    /// Stage an `isize`, zig-zag mapped, as a portable 64-bit value in the
    /// untagged length codec.
    pub fn encode_isize(&mut self, value: isize) -> (r: Result<(), CodecError>)
        requires
            old(self).pack_buf.wf(),
        ensures
            final(self).pack_buf.wf(),
            final(self).options == old(self).options,
            final(self).pack_buf.capacity() == old(self).pack_buf.capacity(),
            ({
                let payload = unsigned_bytes(zigzag(value as int) as nat, 8, old(self).options.length);
                &&& old(self).pack_buf.bytes().len() + payload.len() <= old(self).pack_buf.capacity() ==> r is Ok && final(self).pack_buf.bytes() == old(self).pack_buf.bytes() + payload
                &&& old(self).pack_buf.bytes().len() + payload.len() > old(self).pack_buf.capacity() ==> r == Err::<(), CodecError>(CodecError::BufferOverflow)
                    && final(self).pack_buf.bytes() == old(self).pack_buf.bytes()
            }),
    {
        proof {
            lemma_pow256_values();
            lemma_zigzag_roundtrip(value as int, 0x8000000000000000);
        }
        let u = zigzag_i128(value as i128);
        let mut tmp: Vec<u8> = Vec::new();
        let res = write_unsigned(&mut tmp, u, 8, self.options.length);
        proof {
            assert(tmp@ =~= unsigned_bytes(zigzag(value as int) as nat, 8, self.options.length));
        }
        self.stage(&tmp)
    }

    /// Stage the raw bits of an `f32` in the untagged integer codec.
    pub fn encode_f32_bits(&mut self, value: u32) -> (r: Result<(), CodecError>)
        requires
            old(self).pack_buf.wf(),
        ensures
            final(self).pack_buf.wf(),
            final(self).options == old(self).options,
            final(self).pack_buf.capacity() == old(self).pack_buf.capacity(),
            ({
                let payload = unsigned_bytes(value as nat, 4, old(self).options.integer);
                &&& old(self).pack_buf.bytes().len() + payload.len() <= old(self).pack_buf.capacity() ==> r is Ok && final(self).pack_buf.bytes() == old(self).pack_buf.bytes() + payload
                &&& old(self).pack_buf.bytes().len() + payload.len() > old(self).pack_buf.capacity() ==> r == Err::<(), CodecError>(CodecError::BufferOverflow)
                    && final(self).pack_buf.bytes() == old(self).pack_buf.bytes()
            }),
    {
        proof {
            lemma_pow256_values();
        }
        let mut tmp: Vec<u8> = Vec::new();
        let res = write_unsigned(&mut tmp, value as u128, 4, self.options.integer);
        proof {
            assert(tmp@ =~= unsigned_bytes(value as nat, 4, self.options.integer));
        }
        self.stage(&tmp)
    }

    /// Stage the raw bits of an `f64` in the untagged integer codec.
    pub fn encode_f64_bits(&mut self, value: u64) -> (r: Result<(), CodecError>)
        requires
            old(self).pack_buf.wf(),
        ensures
            final(self).pack_buf.wf(),
            final(self).options == old(self).options,
            final(self).pack_buf.capacity() == old(self).pack_buf.capacity(),
            ({
                let payload = unsigned_bytes(value as nat, 8, old(self).options.integer);
                &&& old(self).pack_buf.bytes().len() + payload.len() <= old(self).pack_buf.capacity() ==> r is Ok && final(self).pack_buf.bytes() == old(self).pack_buf.bytes() + payload
                &&& old(self).pack_buf.bytes().len() + payload.len() > old(self).pack_buf.capacity() ==> r == Err::<(), CodecError>(CodecError::BufferOverflow)
                    && final(self).pack_buf.bytes() == old(self).pack_buf.bytes()
            }),
    {
        proof {
            lemma_pow256_values();
        }
        let mut tmp: Vec<u8> = Vec::new();
        let res = write_unsigned(&mut tmp, value as u128, 8, self.options.integer);
        proof {
            assert(tmp@ =~= unsigned_bytes(value as nat, 8, self.options.integer));
        }
        self.stage(&tmp)
    }

    /// Stage a byte payload: its length in the untagged length codec, then
    /// the bytes themselves, all or nothing.
    pub fn encode_bytes(&mut self, bytes: &[u8]) -> (r: Result<(), CodecError>)
        requires
            old(self).pack_buf.wf(),
        ensures
            final(self).pack_buf.wf(),
            final(self).options == old(self).options,
            final(self).pack_buf.capacity() == old(self).pack_buf.capacity(),
            ({
                let payload = unsigned_bytes(bytes@.len(), 8, old(self).options.length) + bytes@;
                &&& old(self).pack_buf.bytes().len() + payload.len() <= old(self).pack_buf.capacity() ==> r is Ok && final(self).pack_buf.bytes() == old(self).pack_buf.bytes() + payload
                &&& old(self).pack_buf.bytes().len() + payload.len() > old(self).pack_buf.capacity() ==> r == Err::<(), CodecError>(CodecError::BufferOverflow)
                    && final(self).pack_buf.bytes() == old(self).pack_buf.bytes()
            }),
    {
        proof {
            lemma_pow256_values();
            assert(usize::MAX <= u64::MAX);
        }
        let mut tmp: Vec<u8> = Vec::new();
        let res = write_unsigned(&mut tmp, bytes.len() as u128, 8, self.options.length);
        write_all(&mut tmp, bytes);
        proof {
            assert(tmp@ =~= unsigned_bytes(bytes@.len(), 8, self.options.length) + bytes@);
        }
        self.stage(&tmp)
    }

    /// Emit the staged pack body into `enc`: one length prefix, then the
    /// body bytes.
    pub fn finish(self, enc: &mut WireEncoder) -> (r: Result<(), CodecError>)
        requires
            self.pack_buf.wf(),
        ensures
            r is Ok,
            final(enc).bytes() == old(enc).bytes() + bytes_wire_bytes(
                self.pack_buf.bytes(),
                old(enc).options.length,
            ),
            old(enc).config_kept(*final(enc)),
    {
        let res = encode_prefix(&mut enc.writer, self.pack_buf.len(), enc.options.length);
        write_all(&mut enc.writer, self.pack_buf.as_bytes().as_slice());
        proof {
            assert(enc.writer@ =~= old(enc).bytes() + bytes_wire_bytes(
                self.pack_buf.bytes(),
                old(enc).options.length,
            ));
        }
        res
    }
}

} // verus!
