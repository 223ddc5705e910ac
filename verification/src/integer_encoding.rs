//! The pluggable integer and length codecs of the wire format.
//!
//! Two strategies exist: `Fixed` writes a value as raw little-endian bytes of
//! its declared width; `Variable` writes 7 low bits per byte, least
//! significant first, with the high bit flagging continuation.  Signed values
//! travel zig-zag mapped over the unsigned path.  The "typed" forms prepend a
//! `Continuation` tag whose data bits carry the width in bytes, so a
//! type-erased decoder can recover the width.
//!
//! Every byte sequence these codecs produce is pinned down by the spec
//! functions `le_bytes` and `varint_bytes`; every parse is pinned down by
//! `parse_fixed` and `parse_varint`.

use vstd::prelude::*;

use crate::error::CodecError;
use crate::reader::Reader;
use crate::tag::Kind;
use crate::tag::Tag;
use crate::tag::tag_byte_of;

verus! {

/// Which codec writes integer payloads and continuation lengths.
#[derive(Clone, Copy, Debug, PartialEq, Eq, Structural)]
pub enum IntegerEncoding {
    /// Raw little-endian bytes of the declared width.
    Fixed,
    /// 7-bit groups, least significant first, high bit flags continuation.
    Variable,
}

/// `256^n`, the number of values a fixed encoding of `n` bytes can hold.
pub open spec fn pow256(n: nat) -> nat
    decreases n,
{
    if n == 0 {
        1
    } else {
        256 * pow256((n - 1) as nat)
    }
}

/// `128^n`, the number of values `n` variable-length groups can hold.
pub open spec fn pow128(n: nat) -> nat
    decreases n,
{
    if n == 0 {
        1
    } else {
        128 * pow128((n - 1) as nat)
    }
}

/// Most bytes a variable-length integer of `width` bytes may occupy:
/// one byte per started group of 7 bits.
pub open spec fn varint_max_bytes(width: nat) -> nat {
    (8 * width + 6) / 7
}

/// The little-endian encoding of `v mod 256^n` in exactly `n` bytes.
pub open spec fn le_bytes(v: nat, n: nat) -> Seq<u8>
    decreases n,
{
    if n == 0 {
        Seq::empty()
    } else {
        seq![(v % 256) as u8] + le_bytes(v / 256, (n - 1) as nat)
    }
}

/// The value read little-endian from a whole byte sequence.
pub open spec fn le_val(bytes: Seq<u8>) -> nat
    decreases bytes.len(),
{
    if bytes.len() == 0 {
        0
    } else {
        (bytes[0] + 256 * le_val(bytes.drop_first())) as nat
    }
}

/// The variable-length encoding of `v`: low 7 bits per byte, least
/// significant first, high bit set on every byte but the last.
pub open spec fn varint_bytes(v: nat) -> Seq<u8>
    decreases v,
{
    if v < 128 {
        seq![v as u8]
    } else {
        seq![(128 + v % 128) as u8] + varint_bytes(v / 128)
    }
}

/// Parse a variable-length integer from the front of `bytes`, allowing at
/// most `max` bytes.  Returns the value and the number of bytes consumed, or
/// the error the decoder reports: `OverlongEncoding` once `max` bytes carry
/// continuation bits, `OutOfInput` when the input ends first.
pub open spec fn parse_varint(bytes: Seq<u8>, max: nat) -> Result<(nat, nat), CodecError>
    decreases max,
{
    if max == 0 {
        Err(CodecError::OverlongEncoding)
    } else if bytes.len() == 0 {
        Err(CodecError::OutOfInput)
    } else if bytes[0] < 128 {
        Ok((bytes[0] as nat, 1))
    } else {
        match parse_varint(bytes.drop_first(), (max - 1) as nat) {
            Ok((v, n)) => Ok((((bytes[0] - 128) + 128 * v) as nat, (n + 1) as nat)),
            Err(e) => Err(e),
        }
    }
}

/// A successful variable-length parse consumes at least one byte and no
/// more than the input holds.
pub proof fn lemma_parse_varint_consumes(bytes: Seq<u8>, max: nat)
    ensures
        parse_varint(bytes, max) matches Ok(p) ==> 1 <= p.1 <= bytes.len(),
    decreases max,
{
    if max > 0 && bytes.len() > 0 && bytes[0] >= 128 {
        lemma_parse_varint_consumes(bytes.drop_first(), (max - 1) as nat);
    }
}

/// Parse a fixed-width integer from the front of `bytes`.
pub open spec fn parse_fixed(bytes: Seq<u8>, width: nat) -> Result<(nat, nat), CodecError> {
    if bytes.len() < width {
        Err(CodecError::OutOfInput)
    } else {
        Ok((le_val(bytes.take(width as int)), width))
    }
}

/// The untyped encoding of an unsigned value under the given codec.
pub open spec fn unsigned_bytes(v: nat, width: nat, enc: IntegerEncoding) -> Seq<u8> {
    match enc {
        IntegerEncoding::Fixed => le_bytes(v, width),
        IntegerEncoding::Variable => varint_bytes(v),
    }
}

/// Parse an untyped unsigned value of the given width under the given codec.
/// A variable-length value too large for the width is `IntegerOverflow`.
pub open spec fn parse_unsigned(bytes: Seq<u8>, width: nat, enc: IntegerEncoding) -> Result<
    (nat, nat),
    CodecError,
> {
    match enc {
        IntegerEncoding::Fixed => parse_fixed(bytes, width),
        IntegerEncoding::Variable => match parse_varint(bytes, varint_max_bytes(width)) {
            Ok((v, n)) => if v < pow256(width) {
                Ok((v, n))
            } else {
                Err(CodecError::IntegerOverflow)
            },
            Err(e) => Err(e),
        },
    }
}

/// The typed encoding of an unsigned value: a `Continuation` tag whose data
/// bits carry the width in bytes, then the untyped payload.
pub open spec fn typed_unsigned_bytes(v: nat, width: nat, enc: IntegerEncoding) -> Seq<u8> {
    seq![tag_byte_of(Kind::Continuation, width as u8)] + unsigned_bytes(v, width, enc)
}

/// The zig-zag image of a signed value: small magnitudes stay small.
pub open spec fn zigzag(v: int) -> int {
    if v >= 0 {
        2 * v
    } else {
        -2 * v - 1
    }
}

/// The signed value a zig-zag image came from.
pub open spec fn unzigzag(u: int) -> int {
    if u % 2 == 0 {
        u / 2
    } else {
        -(u / 2) - 1
    }
}

/// Zig-zag and its inverse cancel, and zig-zag maps the signed range of a
/// width onto exactly the unsigned range of the same width.
pub proof fn lemma_zigzag_roundtrip(v: int, bound: int)
    requires
        bound > 0,
        -bound <= v < bound,
    ensures
        0 <= zigzag(v) < 2 * bound,
        unzigzag(zigzag(v)) == v,
{
}

/// Unzigzag of any non-negative value zigzags back to it.
pub proof fn lemma_unzigzag_roundtrip(u: int)
    requires
        u >= 0,
    ensures
        zigzag(unzigzag(u)) == u,
{
}

/// A fixed encoding is as long as its declared width.
pub proof fn lemma_le_bytes_len(v: nat, n: nat)
    ensures
        le_bytes(v, n).len() == n,
    decreases n,
{
    if n > 0 {
        lemma_le_bytes_len(v / 256, (n - 1) as nat);
    }
}

/// Reading back a fixed encoding of an in-range value returns the value.
pub proof fn lemma_le_roundtrip(v: nat, n: nat)
    requires
        v < pow256(n),
    ensures
        le_val(le_bytes(v, n)) == v,
    decreases n,
{
    if n > 0 {
        assert(v / 256 < pow256((n - 1) as nat)) by (nonlinear_arith)
            requires
                v < 256 * pow256((n - 1) as nat),
        ;
        lemma_le_roundtrip(v / 256, (n - 1) as nat);
        assert(le_bytes(v, n).drop_first() =~= le_bytes(v / 256, (n - 1) as nat));
    }
}

/// Parsing at the head of a fixed encoding followed by anything returns the
/// encoded value and consumes exactly the width.
pub proof fn lemma_parse_fixed_of_le_bytes(v: nat, n: nat, rest: Seq<u8>)
    requires
        v < pow256(n),
    ensures
        parse_fixed(le_bytes(v, n) + rest, n) == Ok::<(nat, nat), CodecError>((v, n)),
{
    lemma_le_bytes_len(v, n);
    lemma_le_roundtrip(v, n);
    assert((le_bytes(v, n) + rest).take(n as int) =~= le_bytes(v, n));
}

/// A variable-length encoding of a value below `128^k` takes at most `k`
/// bytes (`k` of at least 1).
pub proof fn lemma_varint_len(v: nat, k: nat)
    requires
        k >= 1,
        v < pow128(k),
    ensures
        varint_bytes(v).len() <= k,
    decreases k,
{
    if v >= 128 {
        assert(v / 128 < pow128((k - 1) as nat)) by (nonlinear_arith)
            requires
                v < 128 * pow128((k - 1) as nat),
                v >= 128,
        ;
        assert(pow128((k - 1) as nat) > 1);
        lemma_varint_len(v / 128, (k - 1) as nat);
    }
}

/// Parsing at the head of a variable-length encoding followed by anything
/// returns the encoded value and consumes exactly its length, provided the
/// byte allowance covers the encoding.
pub proof fn lemma_parse_varint_of_varint_bytes(v: nat, max: nat, rest: Seq<u8>)
    requires
        varint_bytes(v).len() <= max,
    ensures
        parse_varint(varint_bytes(v) + rest, max) == Ok::<(nat, nat), CodecError>(
            (v, varint_bytes(v).len()),
        ),
    decreases v,
{
    let b = varint_bytes(v) + rest;
    if v < 128 {
        assert(b[0] == v as u8);
    } else {
        assert(b[0] == (128 + v % 128) as u8);
        lemma_parse_varint_of_varint_bytes(v / 128, (max - 1) as nat, rest);
        assert(b.drop_first() =~= varint_bytes(v / 128) + rest);
    }
}

/// `pow128` grows with its exponent.
pub proof fn lemma_pow128_increases(j: nat, k: nat)
    requires
        j <= k,
    ensures
        pow128(j) <= pow128(k),
    decreases k,
{
    if j < k {
        lemma_pow128_increases(j, (k - 1) as nat);
        assert(pow128((k - 1) as nat) <= 128 * pow128((k - 1) as nat)) by (nonlinear_arith)
            requires
                pow128((k - 1) as nat) >= 0,
        ;
    }
}

/// The values of `pow128` the decoders lean on, written out: the byte
/// allowances of the five supported widths, and the largest scale a decoding
/// loop ever holds, which still fits `u128`.
pub proof fn lemma_pow128_values()
    ensures
        pow128(2) == 0x4000,
        pow128(3) == 0x200000,
        pow128(5) == 0x800000000,
        pow128(10) == 0x400000000000000000,
        pow128(18) == 0x40000000000000000000000000000000,
        pow128(19) == 0x2000000000000000000000000000000000,
{
    assert(pow128(0) == 1);
    assert(pow128(1) == 0x80);
    assert(pow128(2) == 0x4000);
    assert(pow128(3) == 0x200000);
    assert(pow128(4) == 0x10000000);
    assert(pow128(5) == 0x800000000);
    assert(pow128(6) == 0x40000000000);
    assert(pow128(7) == 0x2000000000000);
    assert(pow128(8) == 0x100000000000000);
    assert(pow128(9) == 0x8000000000000000);
    assert(pow128(10) == 0x400000000000000000);
    assert(pow128(11) == 0x20000000000000000000);
    assert(pow128(12) == 0x1000000000000000000000);
    assert(pow128(13) == 0x80000000000000000000000);
    assert(pow128(14) == 0x4000000000000000000000000);
    assert(pow128(15) == 0x200000000000000000000000000);
    assert(pow128(16) == 0x10000000000000000000000000000);
    assert(pow128(17) == 0x800000000000000000000000000000);
    assert(pow128(18) == 0x40000000000000000000000000000000);
    assert(pow128(19) == 0x2000000000000000000000000000000000);
}

/// The values of `pow256` at the five supported widths.
pub proof fn lemma_pow256_values()
    ensures
        pow256(1) == 0x100,
        pow256(2) == 0x10000,
        pow256(4) == 0x100000000,
        pow256(8) == 0x10000000000000000,
        pow256(16) == 0x100000000000000000000000000000000,
{
    assert(pow256(0) == 1);
    assert(pow256(1) == 0x100);
    assert(pow256(2) == 0x10000);
    assert(pow256(3) == 0x1000000);
    assert(pow256(4) == 0x100000000);
    assert(pow256(5) == 0x10000000000);
    assert(pow256(6) == 0x1000000000000);
    assert(pow256(7) == 0x100000000000000);
    assert(pow256(8) == 0x10000000000000000);
    assert(pow256(9) == 0x1000000000000000000);
    assert(pow256(10) == 0x100000000000000000000);
    assert(pow256(11) == 0x10000000000000000000000);
    assert(pow256(12) == 0x1000000000000000000000000);
    assert(pow256(13) == 0x100000000000000000000000000);
    assert(pow256(14) == 0x10000000000000000000000000000);
    assert(pow256(15) == 0x1000000000000000000000000000000);
    assert(pow256(16) == 0x100000000000000000000000000000000);
}

/// Any value an in-width unsigned integer can hold has a variable-length
/// encoding within the width's byte allowance.
pub proof fn lemma_varint_fits_width(v: nat, width: nat)
    requires
        width == 1 || width == 2 || width == 4 || width == 8 || width == 16,
        v < pow256(width),
    ensures
        varint_bytes(v).len() <= varint_max_bytes(width),
{
    lemma_pow128_values();
    lemma_pow256_values();
    lemma_varint_len(v, varint_max_bytes(width));
}

/// A successful untyped parse of a positive width consumes at least one
/// byte and no more than the input holds.
pub proof fn lemma_parse_unsigned_consumes(bytes: Seq<u8>, width: nat, enc: IntegerEncoding)
    requires
        width >= 1,
    ensures
        parse_unsigned(bytes, width, enc) matches Ok(p) ==> 1 <= p.1 <= bytes.len(),
{
    match enc {
        IntegerEncoding::Fixed => {},
        IntegerEncoding::Variable => {
            lemma_parse_varint_consumes(bytes, varint_max_bytes(width));
        },
    }
}

/// A successfully parsed unsigned value lies within its declared width.
pub proof fn lemma_parse_unsigned_bound(bytes: Seq<u8>, width: nat, enc: IntegerEncoding)
    ensures
        parse_unsigned(bytes, width, enc) matches Ok(p) ==> p.0 < pow256(width),
{
    match enc {
        IntegerEncoding::Fixed => {
            if bytes.len() >= width {
                lemma_le_val_bound(bytes.take(width as int));
            }
        },
        IntegerEncoding::Variable => {},
    }
}

/// Parsing at the head of an untyped encoding of an in-range value returns
/// the value and consumes exactly its encoding.
pub proof fn lemma_parse_unsigned_roundtrip(v: nat, width: nat, enc: IntegerEncoding, rest: Seq<u8>)
    requires
        width == 1 || width == 2 || width == 4 || width == 8 || width == 16,
        v < pow256(width),
    ensures
        parse_unsigned(unsigned_bytes(v, width, enc) + rest, width, enc) == Ok::<
            (nat, nat),
            CodecError,
        >((v, unsigned_bytes(v, width, enc).len())),
{
    match enc {
        IntegerEncoding::Fixed => {
            lemma_parse_fixed_of_le_bytes(v, width, rest);
            lemma_le_bytes_len(v, width);
        },
        IntegerEncoding::Variable => {
            lemma_varint_fits_width(v, width);
            lemma_parse_varint_of_varint_bytes(v, varint_max_bytes(width), rest);
        },
    }
}

/// `pow256` grows with its exponent.
pub proof fn lemma_pow256_increases(j: nat, k: nat)
    requires
        j <= k,
    ensures
        pow256(j) <= pow256(k),
    decreases k,
{
    if j < k {
        lemma_pow256_increases(j, (k - 1) as nat);
        assert(pow256((k - 1) as nat) <= 256 * pow256((k - 1) as nat)) by (nonlinear_arith)
            requires
                pow256((k - 1) as nat) >= 0,
        ;
    }
}

/// A whole byte sequence read little-endian stays below `256^len`.
pub proof fn lemma_le_val_bound(bytes: Seq<u8>)
    ensures
        le_val(bytes) < pow256(bytes.len()),
    decreases bytes.len(),
{
    if bytes.len() > 0 {
        lemma_le_val_bound(bytes.drop_first());
        assert(bytes[0] + 256 * le_val(bytes.drop_first()) < 256 * pow256(
            (bytes.len() - 1) as nat,
        )) by (nonlinear_arith)
            requires
                bytes[0] < 256,
                le_val(bytes.drop_first()) < pow256((bytes.len() - 1) as nat),
        ;
    }
}

/// Append the fixed little-endian encoding of `value` to `out`.
pub fn write_fixed(out: &mut Vec<u8>, value: u128, width: usize) -> (r: Result<(), CodecError>)
    requires
        width <= 16,
        (value as nat) < pow256(width as nat),
    ensures
        r is Ok,
        final(out)@ == old(out)@ + le_bytes(value as nat, width as nat),
{
    let ghost prefix = out@;
    let mut cur: u128 = value;
    let mut i: usize = 0;
    while i < width
        invariant
            0 <= i <= width,
            out@.len() == prefix.len() + i,
            le_bytes(value as nat, width as nat) =~= out@.skip(prefix.len() as int) + le_bytes(
                cur as nat,
                (width - i) as nat,
            ),
            out@.take(prefix.len() as int) == prefix,
        decreases width - i,
    {
        let b: u8 = (cur % 256) as u8;
        out.push(b);
        cur = cur / 256;
        i = i + 1;
        proof {
            assert(le_bytes(value as nat, width as nat) =~= out@.skip(prefix.len() as int)
                + le_bytes(cur as nat, (width - i) as nat));
            assert(out@.take(prefix.len() as int) =~= prefix);
        }
    }
    proof {
        assert(out@ =~= prefix + le_bytes(value as nat, width as nat));
    }
    Ok(())
}

/// Append the variable-length encoding of `value` to `out`.
pub fn write_varint(out: &mut Vec<u8>, value: u128) -> (r: Result<(), CodecError>)
    ensures
        r is Ok,
        final(out)@ == old(out)@ + varint_bytes(value as nat),
{
    let ghost prefix = out@;
    let mut cur: u128 = value;
    while cur >= 128
        invariant
            varint_bytes(value as nat) =~= out@.skip(prefix.len() as int) + varint_bytes(
                cur as nat,
            ),
            out@.take(prefix.len() as int) == prefix,
            out@.len() >= prefix.len(),
        decreases cur,
    {
        out.push((128 + (cur % 128)) as u8);
        cur = cur / 128;
        proof {
            assert(varint_bytes(value as nat) =~= out@.skip(prefix.len() as int) + varint_bytes(
                cur as nat,
            ));
            assert(out@.take(prefix.len() as int) =~= prefix);
        }
    }
    out.push(cur as u8);
    proof {
        assert(out@ =~= prefix + varint_bytes(value as nat));
    }
    Ok(())
}

/// Append the untyped encoding of `value` under the chosen codec.
pub fn write_unsigned(out: &mut Vec<u8>, value: u128, width: usize, enc: IntegerEncoding) -> (r:
    Result<(), CodecError>)
    requires
        width <= 16,
        (value as nat) < pow256(width as nat),
    ensures
        r is Ok,
        final(out)@ == old(out)@ + unsigned_bytes(value as nat, width as nat, enc),
{
    match enc {
        IntegerEncoding::Fixed => write_fixed(out, value, width),
        IntegerEncoding::Variable => write_varint(out, value),
    }
}

/// Append the typed encoding of `value`: width-marked tag, then payload.
pub fn write_typed_unsigned(
    out: &mut Vec<u8>,
    value: u128,
    width: usize,
    enc: IntegerEncoding,
) -> (r: Result<(), CodecError>)
    requires
        width == 1 || width == 2 || width == 4 || width == 8 || width == 16,
        (value as nat) < pow256(width as nat),
    ensures
        r is Ok,
        final(out)@ == old(out)@ + typed_unsigned_bytes(value as nat, width as nat, enc),
{
    out.push(Tag::new(Kind::Continuation, width as u8).byte());
    let res = write_unsigned(out, value, width, enc);
    proof {
        assert(out@ =~= old(out)@ + typed_unsigned_bytes(value as nat, width as nat, enc));
    }
    res
}

/// The zig-zag image of a signed value, computed without overflow for the
/// whole `i128` range.
pub fn zigzag_i128(value: i128) -> (r: u128)
    ensures
        r as int == zigzag(value as int),
{
    if value >= 0 {
        (value as u128) * 2
    } else {
        ((-(value + 1)) as u128) * 2 + 1
    }
}

/// The signed value a zig-zag image came from, for the whole `u128` range.
pub fn unzigzag_u128(value: u128) -> (r: i128)
    ensures
        r as int == unzigzag(value as int),
{
    if value % 2 == 0 {
        (value / 2) as i128
    } else {
        -((value / 2) as i128) - 1
    }
}

/// Read a fixed little-endian integer of the given width.  Consumes exactly
/// `width` bytes on success; on failure the reader is unchanged.
pub fn read_fixed(r: &mut Reader, width: usize) -> (res: Result<u128, CodecError>)
    requires
        old(r).wf(),
        width <= 16,
    ensures
        final(r).wf(),
        final(r).bytes() == old(r).bytes(),
        match parse_fixed(old(r).remaining_bytes(), width as nat) {
            Ok((v, n)) => res matches Ok(x) && x as nat == v && final(r).position() == old(
                r,
            ).position() + n,
            Err(e) => res == Err::<u128, CodecError>(e) && final(r).position() == old(
                r,
            ).position(),
        },
{
    let bytes = match r.read_bytes(width) {
        Ok(b) => b,
        Err(e) => {
            return Err(e);
        },
    };
    let ghost taken = old(r).remaining_bytes().take(width as int);
    let mut acc: u128 = 0;
    let mut j: usize = width;
    proof {
        assert(bytes@.skip(j as int) =~= Seq::<u8>::empty());
    }
    while j > 0
        invariant
            j <= width,
            width <= 16,
            bytes@.len() == width,
            bytes@ == taken,
            acc as nat == le_val(bytes@.skip(j as int)),
            (acc as nat) < pow256((width - j) as nat),
        decreases j,
    {
        proof {
            lemma_pow256_increases(((width - j) + 1) as nat, 16);
            lemma_pow256_values();
            assert(acc * 256 + bytes@[j - 1] < 256 * pow256((width - j) as nat))
                by (nonlinear_arith)
                requires
                    (acc as nat) < pow256((width - j) as nat),
                    bytes@[j - 1] < 256,
            ;
        }
        acc = acc * 256 + (bytes[j - 1] as u128);
        j = j - 1;
        proof {
            assert(bytes@.skip(j as int).drop_first() =~= bytes@.skip(j + 1));
        }
    }
    proof {
        assert(bytes@.skip(0) =~= bytes@);
    }
    Ok(acc)
}

/// One unfolding of [`parse_varint`] past a continuation byte.
proof fn lemma_parse_varint_step(bytes: Seq<u8>, max: nat)
    requires
        max >= 1,
        bytes.len() > 0,
        bytes[0] >= 128,
    ensures
        parse_varint(bytes, max) == (match parse_varint(bytes.drop_first(), (max - 1) as nat) {
            Ok((v, n)) => Ok::<(nat, nat), CodecError>(
                (((bytes[0] - 128) + 128 * v) as nat, (n + 1) as nat),
            ),
            Err(e) => Err::<(nat, nat), CodecError>(e),
        }),
{
}

/// Read a variable-length integer of at most `max_bytes` bytes and at most
/// `limit` in value; a larger value is `IntegerOverflow`.  Consumes exactly
/// the parsed bytes on success; on failure the reader is unchanged.
pub fn read_varint(r: &mut Reader, max_bytes: usize, limit: u128) -> (res: Result<
    u128,
    CodecError,
>)
    requires
        old(r).wf(),
        1 <= max_bytes <= 19,
    ensures
        final(r).wf(),
        final(r).bytes() == old(r).bytes(),
        match parse_varint(old(r).remaining_bytes(), max_bytes as nat) {
            Ok((v, n)) => if v <= limit {
                res matches Ok(x) && x as nat == v && final(r).position() == old(r).position() + n
            } else {
                res == Err::<u128, CodecError>(CodecError::IntegerOverflow) && final(r).position()
                    == old(r).position()
            },
            Err(e) => res == Err::<u128, CodecError>(e) && final(r).position() == old(
                r,
            ).position(),
        },
{
    let ghost bs = old(r).remaining_bytes();
    let ghost max = max_bytes as nat;
    let start = r.pos();
    let mut acc: u128 = 0;
    let mut scale: u128 = 1;
    let mut overflowed: bool = false;
    let ghost mut gacc: nat = 0nat;
    let mut i: usize = 0;
    proof {
        assert(bs.skip(0) =~= bs);
        assert(pow128(0) == 1);
        match parse_varint(bs, max) {
            Ok((v, n)) => {
                assert(v * pow128(0) == v) by (nonlinear_arith)
                    requires
                        pow128(0) == 1,
                ;
            },
            Err(_) => {},
        }
    }
    while i < max_bytes
        invariant
            old(r).wf(),
            r.wf(),
            r.bytes() == old(r).bytes(),
            bs == old(r).remaining_bytes(),
            max == max_bytes as nat,
            1 <= max_bytes <= 19,
            start == old(r).position(),
            r.position() == start + i,
            0 <= i <= max_bytes,
            parse_varint(bs, max) == (match parse_varint(
                bs.skip(i as int),
                (max - i) as nat,
            ) {
                Ok((v, n)) => Ok::<(nat, nat), CodecError>(
                    ((gacc + v * pow128(i as nat)) as nat, (n + i) as nat),
                ),
                Err(e) => Err::<(nat, nat), CodecError>(e),
            }),
            !overflowed ==> acc as nat == gacc,
            overflowed ==> gacc > u128::MAX,
            i < max_bytes ==> scale as nat == pow128(i as nat),
        decreases max_bytes - i,
    {
        proof {
            assert(r.remaining_bytes() =~= bs.skip(i as int));
        }
        let b = match r.read_byte() {
            Ok(b) => b,
            Err(_) => {
                r.rewind(start);
                return Err(CodecError::OutOfInput);
            },
        };
        let low: u8 = b % 128;
        let ghost contribution = (low as nat) * pow128(i as nat);
        proof {
            assert(contribution >= 0) by (nonlinear_arith)
                requires
                    low >= 0,
                    pow128(i as nat) >= 0,
            ;
        }
        if !overflowed {
            match (low as u128).checked_mul(scale) {
                Some(c) => {
                    proof {
                        assert(c as nat == contribution);
                    }
                    match acc.checked_add(c) {
                        Some(a2) => {
                            acc = a2;
                        },
                        None => {
                            overflowed = true;
                        },
                    }
                },
                None => {
                    proof {
                        assert((low as nat) * (scale as nat) == contribution);
                    }
                    overflowed = true;
                },
            }
        }
        proof {
            gacc = gacc + contribution;
        }
        if b < 128 {
            proof {
                assert(bs.skip(i as int)[0] == b);
                assert(parse_varint(bs.skip(i as int), (max - i) as nat) == Ok::<
                    (nat, nat),
                    CodecError,
                >((b as nat, 1)));
                assert((b as nat) * pow128(i as nat) == contribution);
            }
            if overflowed {
                r.rewind(start);
                return Err(CodecError::IntegerOverflow);
            }
            if acc > limit {
                r.rewind(start);
                return Err(CodecError::IntegerOverflow);
            }
            return Ok(acc);
        }
        proof {
            lemma_parse_varint_step(bs.skip(i as int), (max - i) as nat);
            assert(bs.skip(i as int).drop_first() =~= bs.skip(i + 1));
            match parse_varint(bs.skip(i + 1), (max - i - 1) as nat) {
                Ok((v, n)) => {
                    assert((low + 128 * v) * pow128(i as nat) == low * pow128(i as nat) + v * (128
                        * pow128(i as nat))) by (nonlinear_arith);
                },
                Err(_) => {},
            }
        }
        i = i + 1;
        if i < max_bytes {
            proof {
                lemma_pow128_increases(i as nat, 18);
                lemma_pow128_values();
            }
            scale = scale * 128;
        }
    }
    proof {
        assert(parse_varint(bs.skip(i as int), 0) == Err::<(nat, nat), CodecError>(
            CodecError::OverlongEncoding,
        ));
    }
    r.rewind(start);
    Err(CodecError::OverlongEncoding)
}

/// Read an untyped unsigned integer of the given width under the chosen
/// codec.  Consumes exactly the parsed bytes on success; on failure the
/// reader is unchanged.
pub fn read_unsigned(r: &mut Reader, width: usize, enc: IntegerEncoding) -> (res: Result<
    u128,
    CodecError,
>)
    requires
        old(r).wf(),
        width == 1 || width == 2 || width == 4 || width == 8 || width == 16,
    ensures
        final(r).wf(),
        final(r).bytes() == old(r).bytes(),
        match parse_unsigned(old(r).remaining_bytes(), width as nat, enc) {
            Ok((v, n)) => res matches Ok(x) && x as nat == v && final(r).position() == old(
                r,
            ).position() + n,
            Err(e) => res == Err::<u128, CodecError>(e) && final(r).position() == old(
                r,
            ).position(),
        },
{
    match enc {
        IntegerEncoding::Fixed => read_fixed(r, width),
        IntegerEncoding::Variable => {
            proof {
                lemma_pow256_values();
            }
            let (max_b, limit): (usize, u128) = if width == 1 {
                (2, 0xff)
            } else if width == 2 {
                (3, 0xffff)
            } else if width == 4 {
                (5, 0xffffffff)
            } else if width == 8 {
                (10, 0xffffffffffffffff)
            } else {
                (19, u128::MAX)
            };
            read_varint(r, max_b, limit)
        },
    }
}

} // verus!
