//! A self-describing in-memory value tree.
//!
//! [`Value`] can represent anything the wire format carries, acts as the
//! target of a hint-driven decode, and re-encodes through the same protocol,
//! which makes it a transcoder between configurations.
//!
//! Floating-point numbers are carried as their IEEE 754 bit patterns
//! (`F32Bits`, `F64Bits`): the wire format moves raw bits, and bit patterns
//! round-trip exactly.

use vstd::prelude::*;

use crate::de::WireDecoder;
use crate::de::parse_bytes;
use crate::de::parse_header;
use crate::de::parse_typed_unsigned;
use crate::de::parse_u8;
use crate::de::wire_type_hint;
use crate::en::Options;
use crate::en::WireEncoder;
use crate::en::bool_bytes;
use crate::en::bytes_wire_bytes;
use crate::en::header_bytes;
use crate::en::sequence_mark_bytes;
use crate::en::u8_wire_bytes;
use crate::error::CodecError;
use crate::hint::LengthHint;
use crate::hint::NumberHint;
use crate::hint::TypeHint;
use crate::integer_encoding::typed_unsigned_bytes;
use crate::integer_encoding::zigzag;
use crate::tag::Kind;

verus! {

/// A number of any of the supported widths.  The float widths carry raw
/// IEEE 754 bit patterns.
#[derive(Clone, Copy, Debug, PartialEq, Eq, Structural)]
#[non_exhaustive]
pub enum Number {
    /// `u8`
    U8(u8),
    /// `u16`
    U16(u16),
    /// `u32`
    U32(u32),
    /// `u64`
    U64(u64),
    /// `u128`
    U128(u128),
    /// `i8`
    I8(i8),
    /// `i16`
    I16(i16),
    /// `i32`
    I32(i32),
    /// `i64`
    I64(i64),
    /// `i128`
    I128(i128),
    /// `usize`
    Usize(usize),
    /// `isize`
    Isize(isize),
    /// the raw bits of an `f32`
    F32Bits(u32),
    /// the raw bits of an `f64`
    F64Bits(u64),
}

/// A dynamic value capable of representing anything the wire format
/// carries, simple or compound.
#[non_exhaustive]
pub enum Value {
    /// The unit value.
    Unit,
    /// A boolean.
    Bool(bool),
    /// A character.
    Char(char),
    /// A number.
    Number(Number),
    /// A byte buffer.
    Bytes(Vec<u8>),
    /// A string.
    String(String),
    /// An ordered sequence of values.
    Sequence(Vec<Value>),
    /// An ordered list of key/value pairs; duplicate keys are kept.
    Mapping(Vec<(Value, Value)>),
    /// A variant: a tag value naming the case, and the case's body.
    Variant(Box<(Value, Value)>),
}

impl Number {
    /// The width hint for this number.
    pub open spec fn spec_type_hint(self) -> NumberHint {
        match self {
            Number::U8(_) => NumberHint::U8,
            Number::U16(_) => NumberHint::U16,
            Number::U32(_) => NumberHint::U32,
            Number::U64(_) => NumberHint::U64,
            Number::U128(_) => NumberHint::U128,
            Number::I8(_) => NumberHint::I8,
            Number::I16(_) => NumberHint::I16,
            Number::I32(_) => NumberHint::I32,
            Number::I64(_) => NumberHint::I64,
            Number::I128(_) => NumberHint::I128,
            Number::Usize(_) => NumberHint::Usize,
            Number::Isize(_) => NumberHint::Isize,
            Number::F32Bits(_) => NumberHint::F32,
            Number::F64Bits(_) => NumberHint::F64,
        }
    }

    /// The width hint for this number.
    pub fn type_hint(&self) -> (r: NumberHint)
        ensures
            r == self.spec_type_hint(),
    {
        match self {
            Number::U8(_) => NumberHint::U8,
            Number::U16(_) => NumberHint::U16,
            Number::U32(_) => NumberHint::U32,
            Number::U64(_) => NumberHint::U64,
            Number::U128(_) => NumberHint::U128,
            Number::I8(_) => NumberHint::I8,
            Number::I16(_) => NumberHint::I16,
            Number::I32(_) => NumberHint::I32,
            Number::I64(_) => NumberHint::I64,
            Number::I128(_) => NumberHint::I128,
            Number::Usize(_) => NumberHint::Usize,
            Number::Isize(_) => NumberHint::Isize,
            Number::F32Bits(_) => NumberHint::F32,
            Number::F64Bits(_) => NumberHint::F64,
        }
    }
}

/// The wire bytes of a number under the given configuration.
pub open spec fn number_bytes(n: Number, opt: Options) -> Seq<u8> {
    match n {
        Number::U8(v) => u8_wire_bytes(v),
        Number::U16(v) => typed_unsigned_bytes(v as nat, 2, opt.integer),
        Number::U32(v) => typed_unsigned_bytes(v as nat, 4, opt.integer),
        Number::U64(v) => typed_unsigned_bytes(v as nat, 8, opt.integer),
        Number::U128(v) => typed_unsigned_bytes(v as nat, 16, opt.integer),
        Number::I8(v) => u8_wire_bytes(zigzag(v as int) as u8),
        Number::I16(v) => typed_unsigned_bytes(zigzag(v as int) as nat, 2, opt.integer),
        Number::I32(v) => typed_unsigned_bytes(zigzag(v as int) as nat, 4, opt.integer),
        Number::I64(v) => typed_unsigned_bytes(zigzag(v as int) as nat, 8, opt.integer),
        Number::I128(v) => typed_unsigned_bytes(zigzag(v as int) as nat, 16, opt.integer),
        Number::Usize(v) => typed_unsigned_bytes(v as nat, 8, opt.length),
        Number::Isize(v) => typed_unsigned_bytes(zigzag(v as int) as nat, 8, opt.length),
        Number::F32Bits(v) => typed_unsigned_bytes(v as nat, 4, opt.integer),
        Number::F64Bits(v) => typed_unsigned_bytes(v as nat, 8, opt.integer),
    }
}

/// The wire bytes of a value under the given configuration.
pub open spec fn value_bytes(v: Value, opt: Options) -> Seq<u8>
    decreases v,
{
    match v {
        Value::Unit => sequence_mark_bytes(0),
        Value::Bool(b) => bool_bytes(b),
        Value::Char(c) => typed_unsigned_bytes((c as u32) as nat, 4, opt.integer),
        Value::Number(n) => number_bytes(n, opt),
        Value::Bytes(b) => bytes_wire_bytes(b@, opt.length),
        Value::String(s) => bytes_wire_bytes(vstd::utf8::encode_utf8(s@), opt.length),
        Value::Sequence(vs) => header_bytes(Kind::Sequence, vs@.len(), opt.length) + values_bytes(
            vs@,
            opt,
        ),
        Value::Mapping(ps) => header_bytes(Kind::Sequence, 2 * ps@.len(), opt.length)
            + pairs_bytes(ps@, opt),
        Value::Variant(bx) => sequence_mark_bytes(2) + value_bytes(bx.0, opt) + value_bytes(
            bx.1,
            opt,
        ),
    }
}

/// The wire bytes of a run of values, in order.
pub open spec fn values_bytes(vs: Seq<Value>, opt: Options) -> Seq<u8>
    decreases vs,
{
    if vs.len() == 0 {
        Seq::empty()
    } else {
        value_bytes(vs[0], opt) + values_bytes(vs.drop_first(), opt)
    }
}

/// The wire bytes of a run of pairs: each key, then its value.
pub open spec fn pairs_bytes(ps: Seq<(Value, Value)>, opt: Options) -> Seq<u8>
    decreases ps,
{
    if ps.len() == 0 {
        Seq::empty()
    } else {
        value_bytes(ps[0].0, opt) + value_bytes(ps[0].1, opt) + pairs_bytes(ps.drop_first(), opt)
    }
}

/// Whether a value can be encoded at all: every payload and item count in
/// it fits `usize`, and every map's item count, twice its pair count, does
/// too.  Every value built at runtime satisfies this; only a map of more
/// than `usize::MAX / 2` pairs can make an encoder fail.
pub open spec fn encodable(v: Value) -> bool
    decreases v,
{
    match v {
        Value::Bytes(b) => b@.len() <= usize::MAX,
        Value::String(s) => vstd::utf8::encode_utf8(s@).len() <= usize::MAX,
        Value::Sequence(vs) => vs@.len() <= usize::MAX && encodable_all(vs@),
        Value::Mapping(ps) => 2 * ps@.len() <= usize::MAX && encodable_pairs(ps@),
        Value::Variant(bx) => encodable(bx.0) && encodable(bx.1),
        _ => true,
    }
}

/// Whether a value's encoding reads back the same on every host: `usize`
/// and `isize` travel under the length codec but surface as 64-bit numbers
/// read under the integer codec, so they only survive a hint-driven decode
/// when the two codecs agree.
pub open spec fn portable(v: Value) -> bool
    decreases v,
{
    match v {
        Value::Number(n) => !(n matches Number::Usize(_)) && !(n matches Number::Isize(_)),
        Value::Sequence(vs) => portable_all(vs@),
        Value::Mapping(ps) => portable_pairs(ps@),
        Value::Variant(bx) => portable(bx.0) && portable(bx.1),
        _ => true,
    }
}

/// Whether every value of a run is portable.
pub open spec fn portable_all(vs: Seq<Value>) -> bool
    decreases vs,
{
    vs.len() == 0 || (portable(vs[0]) && portable_all(vs.drop_first()))
}

/// Whether every key and value of a run of pairs is portable.
pub open spec fn portable_pairs(ps: Seq<(Value, Value)>) -> bool
    decreases ps,
{
    ps.len() == 0 || (portable(ps[0].0) && portable(ps[0].1) && portable_pairs(ps.drop_first()))
}

/// Whether every value of a run is encodable.
pub open spec fn encodable_all(vs: Seq<Value>) -> bool
    decreases vs,
{
    vs.len() == 0 || (encodable(vs[0]) && encodable_all(vs.drop_first()))
}

/// Whether every key and value of a run of pairs is encodable.
pub open spec fn encodable_pairs(ps: Seq<(Value, Value)>) -> bool
    decreases ps,
{
    ps.len() == 0 || (encodable(ps[0].0) && encodable(ps[0].1) && encodable_pairs(
        ps.drop_first(),
    ))
}

/// Every member of an encodable run is itself encodable.
pub proof fn lemma_encodable_all_index(vs: Seq<Value>, i: int)
    requires
        encodable_all(vs),
        0 <= i < vs.len(),
    ensures
        encodable(vs[i]),
    decreases i,
{
    if i > 0 {
        lemma_encodable_all_index(vs.drop_first(), i - 1);
    }
}

/// Every key and value of an encodable run of pairs is itself encodable.
pub proof fn lemma_encodable_pairs_index(ps: Seq<(Value, Value)>, i: int)
    requires
        encodable_pairs(ps),
        0 <= i < ps.len(),
    ensures
        encodable(ps[i].0),
        encodable(ps[i].1),
    decreases i,
{
    if i > 0 {
        lemma_encodable_pairs_index(ps.drop_first(), i - 1);
    }
}

/// Taking one more value extends the run's bytes by exactly its encoding.
pub proof fn lemma_values_bytes_snoc(vs: Seq<Value>, i: int, opt: Options)
    requires
        0 <= i < vs.len(),
    ensures
        values_bytes(vs.take(i + 1), opt) == values_bytes(vs.take(i), opt) + value_bytes(
            vs[i],
            opt,
        ),
    decreases i,
{
    if i == 0 {
        assert(vs.take(0) =~= Seq::<Value>::empty());
        assert(vs.take(1).drop_first() =~= Seq::<Value>::empty());
        assert(vs.take(1)[0] == vs[0]);
        assert(values_bytes(vs.take(1), opt) =~= values_bytes(vs.take(0), opt) + value_bytes(
            vs[0],
            opt,
        ));
    } else {
        lemma_values_bytes_snoc(vs.drop_first(), i - 1, opt);
        assert(vs.take(i + 1).drop_first() =~= vs.drop_first().take(i));
        assert(vs.take(i).drop_first() =~= vs.drop_first().take(i - 1));
        assert(vs.take(i + 1)[0] == vs[0]);
        assert(vs.take(i)[0] == vs[0]);
        assert(vs.drop_first()[i - 1] == vs[i]);
        assert(values_bytes(vs.take(i + 1), opt) =~= values_bytes(vs.take(i), opt) + value_bytes(
            vs[i],
            opt,
        ));
    }
}

/// Taking one more pair extends the run's bytes by its key and value.
pub proof fn lemma_pairs_bytes_snoc(ps: Seq<(Value, Value)>, i: int, opt: Options)
    requires
        0 <= i < ps.len(),
    ensures
        pairs_bytes(ps.take(i + 1), opt) == pairs_bytes(ps.take(i), opt) + value_bytes(
            ps[i].0,
            opt,
        ) + value_bytes(ps[i].1, opt),
    decreases i,
{
    if i == 0 {
        assert(ps.take(0) =~= Seq::<(Value, Value)>::empty());
        assert(ps.take(1).drop_first() =~= Seq::<(Value, Value)>::empty());
        assert(ps.take(1)[0] == ps[0]);
        assert(pairs_bytes(ps.take(1), opt) =~= pairs_bytes(ps.take(0), opt) + value_bytes(
            ps[0].0,
            opt,
        ) + value_bytes(ps[0].1, opt));
    } else {
        lemma_pairs_bytes_snoc(ps.drop_first(), i - 1, opt);
        assert(ps.take(i + 1).drop_first() =~= ps.drop_first().take(i));
        assert(ps.take(i).drop_first() =~= ps.drop_first().take(i - 1));
        assert(ps.take(i + 1)[0] == ps[0]);
        assert(ps.take(i)[0] == ps[0]);
        assert(ps.drop_first()[i - 1] == ps[i]);
        assert(pairs_bytes(ps.take(i + 1), opt) =~= pairs_bytes(ps.take(i), opt) + value_bytes(
            ps[i].0,
            opt,
        ) + value_bytes(ps[i].1, opt));
    }
}

/// The shapes a hint-driven wire decode can produce.  The wire format
/// collapses the data model when read back by hints alone: booleans and
/// characters surface as numbers, strings as bytes, and units, options,
/// maps, structs, tuples and variants all surface as sequences.
pub enum ValueModel {
    /// A number that surfaced as a `u8`.
    U8(u8),
    /// A number that surfaced as a `u16`.
    U16(u16),
    /// A number that surfaced as a `u32`.
    U32(u32),
    /// A number that surfaced as a `u64`.
    U64(u64),
    /// A number that surfaced as a `u128`.
    U128(u128),
    /// A byte payload.
    Bytes(Seq<u8>),
    /// A sequence of further models.
    Sequence(Seq<ValueModel>),
}

/// The model a hint-driven decode of this value's encoding yields: what
/// survives of the value once only the wire's own shapes describe it.
pub open spec fn canonical_model(v: Value) -> ValueModel
    decreases v,
{
    match v {
        Value::Unit => ValueModel::Sequence(Seq::empty()),
        Value::Bool(b) => ValueModel::U8(
            if b {
                1
            } else {
                0
            },
        ),
        Value::Char(c) => ValueModel::U32(c as u32),
        Value::Number(n) => canonical_number_model(n),
        Value::Bytes(b) => ValueModel::Bytes(b@),
        Value::String(s) => ValueModel::Bytes(vstd::utf8::encode_utf8(s@)),
        Value::Sequence(vs) => ValueModel::Sequence(canonical_models(vs@)),
        Value::Mapping(ps) => ValueModel::Sequence(canonical_pair_models(ps@)),
        Value::Variant(bx) => ValueModel::Sequence(
            seq![canonical_model(bx.0), canonical_model(bx.1)],
        ),
    }
}

/// The model a number surfaces as: signed widths surface zig-zagged, host
/// widths surface as 64-bit, float widths surface as their bit patterns.
pub open spec fn canonical_number_model(n: Number) -> ValueModel {
    match n {
        Number::U8(v) => ValueModel::U8(v),
        Number::U16(v) => ValueModel::U16(v),
        Number::U32(v) => ValueModel::U32(v),
        Number::U64(v) => ValueModel::U64(v),
        Number::U128(v) => ValueModel::U128(v),
        Number::I8(v) => ValueModel::U8(zigzag(v as int) as u8),
        Number::I16(v) => ValueModel::U16(zigzag(v as int) as u16),
        Number::I32(v) => ValueModel::U32(zigzag(v as int) as u32),
        Number::I64(v) => ValueModel::U64(zigzag(v as int) as u64),
        Number::I128(v) => ValueModel::U128(zigzag(v as int) as u128),
        Number::Usize(v) => ValueModel::U64(v as u64),
        Number::Isize(v) => ValueModel::U64(zigzag(v as int) as u64),
        Number::F32Bits(v) => ValueModel::U32(v),
        Number::F64Bits(v) => ValueModel::U64(v),
    }
}

/// The models of a run of values, in order.
pub open spec fn canonical_models(vs: Seq<Value>) -> Seq<ValueModel>
    decreases vs,
{
    if vs.len() == 0 {
        Seq::empty()
    } else {
        seq![canonical_model(vs[0])] + canonical_models(vs.drop_first())
    }
}

/// The models of a run of pairs, each key before its value.
pub open spec fn canonical_pair_models(ps: Seq<(Value, Value)>) -> Seq<ValueModel>
    decreases ps,
{
    if ps.len() == 0 {
        Seq::empty()
    } else {
        seq![canonical_model(ps[0].0), canonical_model(ps[0].1)] + canonical_pair_models(
            ps.drop_first(),
        )
    }
}

/// Whether a value is one a hint-driven decode can return: numbers of the
/// unsigned widths, bytes, and sequences of such values.  On these,
/// decoding an encoding is the exact identity.
pub open spec fn is_canonical(v: Value) -> bool
    decreases v,
{
    match v {
        Value::Number(n) => n matches Number::U8(_) || n matches Number::U16(_)
            || n matches Number::U32(_) || n matches Number::U64(_) || n matches Number::U128(_),
        Value::Bytes(_) => true,
        Value::Sequence(vs) => is_canonical_all(vs@),
        _ => false,
    }
}

/// Whether every value of a run is canonical.
pub open spec fn is_canonical_all(vs: Seq<Value>) -> bool
    decreases vs,
{
    vs.len() == 0 || (is_canonical(vs[0]) && is_canonical_all(vs.drop_first()))
}

/// Parse one value from the front of `bytes`, driven by the wire's type
/// hints, yielding its model and the bytes consumed.  Input whose hint
/// names no decodable shape is `InvalidType`.
pub open spec fn parse_value(bytes: Seq<u8>, opt: Options) -> Result<(ValueModel, nat), CodecError>
    decreases bytes.len(), 0int,
{
    if bytes.len() == 0 {
        Err(CodecError::OutOfInput)
    } else {
        let k = bytes[0] / 32;
        let d = bytes[0] % 32;
        if k == 0 {
            match parse_u8(bytes) {
                Ok((v, n)) => Ok((ValueModel::U8(v), n)),
                Err(e) => Err(e),
            }
        } else if k == 1 {
            match parse_bytes(bytes, opt.length) {
                Ok((data, n)) => Ok((ValueModel::Bytes(data), n)),
                Err(e) => Err(e),
            }
        } else if k == 2 {
            if d == 2 {
                match parse_typed_unsigned(bytes, 2, opt.integer, NumberHint::U16) {
                    Ok((v, n)) => Ok((ValueModel::U16(v as u16), n)),
                    Err(e) => Err(e),
                }
            } else if d == 4 {
                match parse_typed_unsigned(bytes, 4, opt.integer, NumberHint::U32) {
                    Ok((v, n)) => Ok((ValueModel::U32(v as u32), n)),
                    Err(e) => Err(e),
                }
            } else if d == 8 {
                match parse_typed_unsigned(bytes, 8, opt.integer, NumberHint::U64) {
                    Ok((v, n)) => Ok((ValueModel::U64(v as u64), n)),
                    Err(e) => Err(e),
                }
            } else if d == 16 {
                match parse_typed_unsigned(bytes, 16, opt.integer, NumberHint::U128) {
                    Ok((v, n)) => Ok((ValueModel::U128(v as u128), n)),
                    Err(e) => Err(e),
                }
            } else {
                Err(CodecError::InvalidType)
            }
        } else if k == 3 {
            match parse_header(
                bytes,
                Kind::Sequence,
                opt.length,
                CodecError::ExpectedSequence(wire_type_hint(bytes)),
            ) {
                Ok((count, hn)) => if 1 <= hn <= bytes.len() {
                    match parse_values(bytes.skip(hn as int), count, opt) {
                        Ok((ms, n)) => Ok((ValueModel::Sequence(ms), (hn + n) as nat)),
                        Err(e) => Err(e),
                    }
                } else {
                    Err(CodecError::InvalidType)
                },
                Err(e) => Err(e),
            }
        } else {
            Err(CodecError::InvalidType)
        }
    }
}

/// Parse `count` values in a row, yielding their models and the total
/// bytes consumed.
pub open spec fn parse_values(bytes: Seq<u8>, count: nat, opt: Options) -> Result<
    (Seq<ValueModel>, nat),
    CodecError,
>
    decreases bytes.len(), count,
{
    if count == 0 {
        Ok((Seq::empty(), 0))
    } else {
        match parse_value(bytes, opt) {
            Ok((m, n)) => if 1 <= n <= bytes.len() {
                match parse_values(bytes.skip(n as int), (count - 1) as nat, opt) {
                    Ok((ms, rest_n)) => Ok((seq![m] + ms, (n + rest_n) as nat)),
                    Err(e) => Err(e),
                }
            } else {
                Err(CodecError::InvalidType)
            },
            Err(e) => Err(e),
        }
    }
}

/// The wire bytes of a model under the given configuration.
pub open spec fn model_bytes(m: ValueModel, opt: Options) -> Seq<u8>
    decreases m,
{
    match m {
        ValueModel::U8(v) => u8_wire_bytes(v),
        ValueModel::U16(v) => typed_unsigned_bytes(v as nat, 2, opt.integer),
        ValueModel::U32(v) => typed_unsigned_bytes(v as nat, 4, opt.integer),
        ValueModel::U64(v) => typed_unsigned_bytes(v as nat, 8, opt.integer),
        ValueModel::U128(v) => typed_unsigned_bytes(v as nat, 16, opt.integer),
        ValueModel::Bytes(b) => bytes_wire_bytes(b, opt.length),
        ValueModel::Sequence(ms) => header_bytes(Kind::Sequence, ms.len(), opt.length)
            + models_bytes(ms, opt),
    }
}

/// The wire bytes of a run of models, in order.
pub open spec fn models_bytes(ms: Seq<ValueModel>, opt: Options) -> Seq<u8>
    decreases ms,
{
    if ms.len() == 0 {
        Seq::empty()
    } else {
        model_bytes(ms[0], opt) + models_bytes(ms.drop_first(), opt)
    }
}

/// Structural equality of values up to buffer identity: the same shapes
/// with the same contents, comparing byte buffers and strings by their
/// contents.
pub open spec fn value_like(a: Value, b: Value) -> bool
    decreases a,
{
    match (a, b) {
        (Value::Unit, Value::Unit) => true,
        (Value::Bool(x), Value::Bool(y)) => x == y,
        (Value::Char(x), Value::Char(y)) => x == y,
        (Value::Number(x), Value::Number(y)) => x == y,
        (Value::Bytes(x), Value::Bytes(y)) => x@ == y@,
        (Value::String(x), Value::String(y)) => x@ == y@,
        (Value::Sequence(xs), Value::Sequence(ys)) => values_like(xs@, ys@),
        (Value::Mapping(xs), Value::Mapping(ys)) => pairs_like(xs@, ys@),
        (Value::Variant(x), Value::Variant(y)) => value_like(x.0, y.0) && value_like(x.1, y.1),
        _ => false,
    }
}

/// Pointwise [`value_like`] over two runs of the same length.
pub open spec fn values_like(xs: Seq<Value>, ys: Seq<Value>) -> bool
    decreases xs,
{
    xs.len() == ys.len() && (xs.len() == 0 || (value_like(xs[0], ys[0]) && values_like(
        xs.drop_first(),
        ys.drop_first(),
    )))
}

/// Pointwise [`value_like`] over two runs of pairs of the same length.
pub open spec fn pairs_like(xs: Seq<(Value, Value)>, ys: Seq<(Value, Value)>) -> bool
    decreases xs,
{
    xs.len() == ys.len() && (xs.len() == 0 || (value_like(xs[0].0, ys[0].0) && value_like(
        xs[0].1,
        ys[0].1,
    ) && pairs_like(xs.drop_first(), ys.drop_first())))
}

/// Appending likewise-related values keeps two runs pointwise alike.
pub proof fn lemma_values_like_push(xs: Seq<Value>, ys: Seq<Value>, x: Value, y: Value)
    requires
        values_like(xs, ys),
        value_like(x, y),
    ensures
        values_like(xs.push(x), ys.push(y)),
    decreases xs,
{
    if xs.len() == 0 {
        assert(xs.push(x).drop_first() =~= Seq::<Value>::empty());
        assert(ys.push(y).drop_first() =~= Seq::<Value>::empty());
        assert(xs.push(x)[0] == x);
        assert(ys.push(y)[0] == y);
        assert(values_like(Seq::<Value>::empty(), Seq::<Value>::empty()));
    } else {
        lemma_values_like_push(xs.drop_first(), ys.drop_first(), x, y);
        assert(xs.push(x).drop_first() =~= xs.drop_first().push(x));
        assert(ys.push(y).drop_first() =~= ys.drop_first().push(y));
        assert(xs.push(x)[0] == xs[0]);
        assert(ys.push(y)[0] == ys[0]);
    }
}

/// Appending likewise-related pairs keeps two runs of pairs alike.
pub proof fn lemma_pairs_like_push(
    xs: Seq<(Value, Value)>,
    ys: Seq<(Value, Value)>,
    x: (Value, Value),
    y: (Value, Value),
)
    requires
        pairs_like(xs, ys),
        value_like(x.0, y.0),
        value_like(x.1, y.1),
    ensures
        pairs_like(xs.push(x), ys.push(y)),
    decreases xs,
{
    if xs.len() == 0 {
        assert(xs.push(x).drop_first() =~= Seq::<(Value, Value)>::empty());
        assert(ys.push(y).drop_first() =~= Seq::<(Value, Value)>::empty());
        assert(xs.push(x)[0] == x);
        assert(ys.push(y)[0] == y);
        assert(pairs_like(Seq::<(Value, Value)>::empty(), Seq::<(Value, Value)>::empty()));
    } else {
        lemma_pairs_like_push(xs.drop_first(), ys.drop_first(), x, y);
        assert(xs.push(x).drop_first() =~= xs.drop_first().push(x));
        assert(ys.push(y).drop_first() =~= ys.drop_first().push(y));
        assert(xs.push(x)[0] == xs[0]);
        assert(ys.push(y)[0] == ys[0]);
    }
}

/// Copy a byte buffer.
fn copy_bytes(bytes: &Vec<u8>) -> (r: Vec<u8>)
    ensures
        r@ == bytes@,
{
    let mut out: Vec<u8> = Vec::new();
    let mut i: usize = 0;
    while i < bytes.len()
        invariant
            0 <= i <= bytes@.len(),
            out@ == bytes@.take(i as int),
        decreases bytes@.len() - i,
    {
        out.push(bytes[i]);
        i = i + 1;
        proof {
            assert(out@ =~= bytes@.take(i as int));
        }
    }
    proof {
        assert(out@ =~= bytes@);
    }
    out
}

/// A successful value parse consumes at least one byte and no more than
/// the input holds.
pub proof fn lemma_parse_value_consumes(bytes: Seq<u8>, opt: Options)
    ensures
        parse_value(bytes, opt) matches Ok(p) ==> 1 <= p.1 <= bytes.len(),
    decreases bytes.len(), 0int,
{
    if bytes.len() > 0 {
        let k = bytes[0] / 32;
        let d = bytes[0] % 32;
        if k == 1 {
            crate::de::lemma_parse_bytes_consumes(bytes, opt.length);
        } else if k == 2 {
            if d == 2 {
                crate::de::lemma_parse_typed_consumes(bytes, 2, opt.integer, NumberHint::U16);
            } else if d == 4 {
                crate::de::lemma_parse_typed_consumes(bytes, 4, opt.integer, NumberHint::U32);
            } else if d == 8 {
                crate::de::lemma_parse_typed_consumes(bytes, 8, opt.integer, NumberHint::U64);
            } else if d == 16 {
                crate::de::lemma_parse_typed_consumes(bytes, 16, opt.integer, NumberHint::U128);
            }
        } else if k == 3 {
            let err = CodecError::ExpectedSequence(wire_type_hint(bytes));
            crate::de::lemma_parse_header_consumes(bytes, Kind::Sequence, opt.length, err);
            match parse_header(bytes, Kind::Sequence, opt.length, err) {
                Ok((count, hn)) => {
                    if 1 <= hn <= bytes.len() {
                        lemma_parse_values_consumes(bytes.skip(hn as int), count, opt);
                    }
                },
                Err(_) => {},
            }
        }
    }
}

/// A successful run parse yields one model per requested value and
/// consumes no more than the input holds.
pub proof fn lemma_parse_values_consumes(bytes: Seq<u8>, count: nat, opt: Options)
    ensures
        parse_values(bytes, count, opt) matches Ok(p) ==> p.1 <= bytes.len() && p.0.len() == count,
    decreases bytes.len(), count,
{
    if count > 0 {
        lemma_parse_value_consumes(bytes, opt);
        match parse_value(bytes, opt) {
            Ok((m, n)) => {
                if 1 <= n <= bytes.len() {
                    lemma_parse_values_consumes(bytes.skip(n as int), (count - 1) as nat, opt);
                }
            },
            Err(_) => {},
        }
    }
}

/// Every value's encoding starts with at least its tag byte.
pub proof fn lemma_value_bytes_len_pos(v: Value, opt: Options)
    ensures
        value_bytes(v, opt).len() >= 1,
{
}

/// A run has one model per value.
pub proof fn lemma_canonical_models_len(vs: Seq<Value>)
    ensures
        canonical_models(vs).len() == vs.len(),
    decreases vs,
{
    if vs.len() > 0 {
        lemma_canonical_models_len(vs.drop_first());
    }
}

/// A run of pairs has two models per pair.
pub proof fn lemma_canonical_pair_models_len(ps: Seq<(Value, Value)>)
    ensures
        canonical_pair_models(ps).len() == 2 * ps.len(),
    decreases ps,
{
    if ps.len() > 0 {
        lemma_canonical_pair_models_len(ps.drop_first());
    }
}

/// Encode one value onto the end of `writer` under the given
/// configuration and hand the extended buffer back.  Succeeds on every
/// [`encodable`] value; only a map whose item count cannot fit `usize`
/// fails, with `IntegerOverflow`.
pub fn encode(value: &Value, writer: Vec<u8>, options: Options) -> (r: Result<Vec<u8>, CodecError>)
    ensures
        encodable(*value) ==> r is Ok,
        r matches Ok(out) ==> out@ == writer@ + value_bytes(*value, options),
        r is Err ==> r == Err::<Vec<u8>, CodecError>(CodecError::IntegerOverflow),
{
    let mut encoder = WireEncoder::with_options(
        writer,
        options,
        crate::en::DEFAULT_PACK_CAPACITY,
    );
    match value.encode(&mut encoder) {
        Ok(_) => Ok(encoder.into_writer()),
        Err(e) => Err(e),
    }
}

/// Decode one value from the front of `data` under the given
/// configuration, by the wire's own type hints.  Trailing bytes are left
/// unread.
pub fn decode(data: Vec<u8>, options: Options) -> (r: Result<Value, CodecError>)
    ensures
        match parse_value(data@, options) {
            Ok((m, n)) => r matches Ok(v) && is_canonical(v) && canonical_model(v) == m,
            Err(e) => r == Err::<Value, CodecError>(e),
        },
{
    let mut decoder = WireDecoder::with_options(data, options);
    proof {
        assert(decoder.remaining() =~= decoder.reader.bytes());
    }
    Value::decode(&mut decoder)
}

/// Skip one record: read and discard it, leaving the cursor exactly past
/// it, so that the next read sees the following sibling unchanged.
pub fn skip_value(decoder: &mut WireDecoder) -> (r: Result<(), CodecError>)
    requires
        old(decoder).wf(),
    ensures
        final(decoder).wf(),
        old(decoder).frame_kept(*final(decoder)),
        match parse_value(old(decoder).remaining(), old(decoder).options) {
            Ok((m, n)) => r is Ok && final(decoder).reader.position() == old(
                decoder,
            ).reader.position() + n,
            Err(e) => r == Err::<(), CodecError>(e) && final(decoder).reader.position() == old(
                decoder,
            ).reader.position(),
        },
{
    match Value::decode(decoder) {
        Ok(_) => Ok(()),
        Err(e) => Err(e),
    }
}

/// Appending a value extends the run's models by exactly its model.
pub proof fn lemma_canonical_models_push(vs: Seq<Value>, v: Value)
    ensures
        canonical_models(vs.push(v)) == canonical_models(vs).push(canonical_model(v)),
    decreases vs,
{
    if vs.len() == 0 {
        assert(vs.push(v).drop_first() =~= Seq::<Value>::empty());
        assert(vs.push(v)[0] == v);
        assert(canonical_models(Seq::<Value>::empty()) =~= Seq::<ValueModel>::empty());
        assert(canonical_models(vs.push(v)) =~= canonical_models(vs).push(canonical_model(v)));
    } else {
        lemma_canonical_models_push(vs.drop_first(), v);
        assert(vs.push(v).drop_first() =~= vs.drop_first().push(v));
        assert(vs.push(v)[0] == vs[0]);
        assert(canonical_models(vs.push(v)) == seq![canonical_model(vs[0])] + canonical_models(
            vs.drop_first().push(v),
        ));
        assert(canonical_models(vs) == seq![canonical_model(vs[0])] + canonical_models(
            vs.drop_first(),
        ));
        assert(seq![canonical_model(vs[0])] + canonical_models(vs.drop_first()).push(
            canonical_model(v),
        ) =~= (seq![canonical_model(vs[0])] + canonical_models(vs.drop_first())).push(
            canonical_model(v),
        ));
    }
}

/// Appending a canonical value keeps a canonical run canonical.
pub proof fn lemma_is_canonical_all_push(vs: Seq<Value>, v: Value)
    requires
        is_canonical_all(vs),
        is_canonical(v),
    ensures
        is_canonical_all(vs.push(v)),
    decreases vs,
{
    if vs.len() == 0 {
        assert(vs.push(v).drop_first() =~= Seq::<Value>::empty());
        assert(vs.push(v)[0] == v);
        assert(is_canonical_all(Seq::<Value>::empty()));
        assert(is_canonical_all(vs.push(v)));
    } else {
        lemma_is_canonical_all_push(vs.drop_first(), v);
        assert(vs.push(v).drop_first() =~= vs.drop_first().push(v));
        assert(vs.push(v)[0] == vs[0]);
        assert(is_canonical_all(vs.push(v)));
    }
}

impl Number {
    /// Encode this number onto the given encoder.
    pub fn encode(&self, encoder: &mut WireEncoder) -> (r: Result<(), CodecError>)
        ensures
            r is Ok,
            final(encoder).bytes() == old(encoder).bytes() + number_bytes(
                *self,
                old(encoder).options,
            ),
            old(encoder).config_kept(*final(encoder)),
    {
        match self {
            Number::U8(n) => encoder.encode_u8(*n),
            Number::U16(n) => encoder.encode_u16(*n),
            Number::U32(n) => encoder.encode_u32(*n),
            Number::U64(n) => encoder.encode_u64(*n),
            Number::U128(n) => encoder.encode_u128(*n),
            Number::I8(n) => encoder.encode_i8(*n),
            Number::I16(n) => encoder.encode_i16(*n),
            Number::I32(n) => encoder.encode_i32(*n),
            Number::I64(n) => encoder.encode_i64(*n),
            Number::I128(n) => encoder.encode_i128(*n),
            Number::Usize(n) => encoder.encode_usize(*n),
            Number::Isize(n) => encoder.encode_isize(*n),
            Number::F32Bits(n) => encoder.encode_f32_bits(*n),
            Number::F64Bits(n) => encoder.encode_f64_bits(*n),
        }
    }
}

impl Value {
    /// The shape hint for this value.
    pub open spec fn spec_type_hint(self) -> TypeHint {
        match self {
            Value::Unit => TypeHint::Unit,
            Value::Bool(_) => TypeHint::Bool,
            Value::Char(_) => TypeHint::Char,
            Value::Number(n) => TypeHint::Number(n.spec_type_hint()),
            Value::Bytes(b) => TypeHint::Bytes(LengthHint::Exact(b@.len() as usize)),
            Value::String(s) => TypeHint::String(
                LengthHint::Exact(vstd::utf8::encode_utf8(s@).len() as usize),
            ),
            Value::Sequence(vs) => TypeHint::Sequence(LengthHint::Exact(vs@.len() as usize)),
            Value::Mapping(ps) => TypeHint::Mapping(LengthHint::Exact(ps@.len() as usize)),
            Value::Variant(_) => TypeHint::Variant,
        }
    }

    /// The shape hint for this value.
    pub fn type_hint(&self) -> (r: TypeHint)
        ensures
            r == self.spec_type_hint(),
    {
        match self {
            Value::Unit => TypeHint::Unit,
            Value::Bool(_) => TypeHint::Bool,
            Value::Char(_) => TypeHint::Char,
            Value::Number(n) => TypeHint::Number(n.type_hint()),
            Value::Bytes(b) => TypeHint::Bytes(LengthHint::Exact(b.len())),
            Value::String(s) => TypeHint::String(LengthHint::Exact(s.as_str().len())),
            Value::Sequence(vs) => TypeHint::Sequence(LengthHint::Exact(vs.len())),
            Value::Mapping(ps) => TypeHint::Mapping(LengthHint::Exact(ps.len())),
            Value::Variant(_) => TypeHint::Variant,
        }
    }

    /// Encode this value onto the given encoder.  Succeeds on every
    /// [`encodable`] value; only a map whose item count cannot fit `usize`
    /// fails, with `IntegerOverflow`.
    pub fn encode(&self, encoder: &mut WireEncoder) -> (r: Result<(), CodecError>)
        ensures
            old(encoder).config_kept(*final(encoder)),
            r is Ok ==> final(encoder).bytes() == old(encoder).bytes() + value_bytes(
                *self,
                old(encoder).options,
            ),
            encodable(*self) ==> r is Ok,
            r is Err ==> r == Err::<(), CodecError>(CodecError::IntegerOverflow),
        decreases *self,
    {
        match self {
            Value::Unit => encoder.encode_unit(),
            Value::Bool(b) => encoder.encode_bool(*b),
            Value::Char(c) => encoder.encode_char(*c),
            Value::Number(n) => n.encode(encoder),
            Value::Bytes(b) => encoder.encode_bytes(b.as_slice()),
            Value::String(s) => encoder.encode_string(s.as_str()),
            Value::Sequence(vs) => {
                let ghost whole = *self;
                let len = vs.len();
                let res = encoder.encode_sequence(len);
                let ghost headered = encoder.bytes();
                let mut i: usize = 0;
                proof {
                    assert(vs@.take(0) =~= Seq::<Value>::empty());
                    assert(headered =~= headered + values_bytes(vs@.take(0), old(
                        encoder,
                    ).options));
                }
                while i < len
                    invariant
                        0 <= i <= len,
                        len == vs@.len(),
                        whole == *self,
                        whole == Value::Sequence(*vs),
                        encoder.bytes() == headered + values_bytes(
                            vs@.take(i as int),
                            old(encoder).options,
                        ),
                        encoder.options == old(encoder).options,
                        encoder.pack_capacity == old(encoder).pack_capacity,
                        headered == old(encoder).bytes() + header_bytes(
                            Kind::Sequence,
                            vs@.len(),
                            old(encoder).options.length,
                        ),
                    decreases len - i,
                {
                    proof {
                        let vsx = whole->Sequence_0;
                        assert(decreases_to!(whole => vsx));
                        vstd::std_specs::vec::axiom_vec_index_decreases(vsx, i as int);
                        assert(decreases_to!(whole => vs@[i as int]));
                        lemma_values_bytes_snoc(vs@, i as int, old(encoder).options);
                    }
                    match vs[i].encode(encoder) {
                        Ok(_) => {},
                        Err(e) => {
                            proof {
                                if encodable(whole) {
                                    lemma_encodable_all_index(vs@, i as int);
                                }
                            }
                            return Err(e);
                        },
                    }
                    i = i + 1;
                }
                proof {
                    assert(vs@.take(len as int) =~= vs@);
                    assert(encoder.bytes() =~= old(encoder).bytes() + value_bytes(
                        *self,
                        old(encoder).options,
                    ));
                }
                res
            },
            Value::Mapping(ps) => {
                let ghost whole = *self;
                let len = ps.len();
                match encoder.encode_map(len) {
                    Ok(_) => {},
                    Err(e) => {
                        proof {
                            assert(encodable(whole) ==> 2 * ps@.len() <= usize::MAX);
                        }
                        return Err(e);
                    },
                }
                let ghost headered = encoder.bytes();
                let mut i: usize = 0;
                proof {
                    assert(ps@.take(0) =~= Seq::<(Value, Value)>::empty());
                    assert(headered =~= headered + pairs_bytes(ps@.take(0), old(
                        encoder,
                    ).options));
                }
                while i < len
                    invariant
                        0 <= i <= len,
                        len == ps@.len(),
                        whole == *self,
                        whole == Value::Mapping(*ps),
                        encoder.bytes() == headered + pairs_bytes(
                            ps@.take(i as int),
                            old(encoder).options,
                        ),
                        encoder.options == old(encoder).options,
                        encoder.pack_capacity == old(encoder).pack_capacity,
                        headered == old(encoder).bytes() + header_bytes(
                            Kind::Sequence,
                            2 * ps@.len(),
                            old(encoder).options.length,
                        ),
                    decreases len - i,
                {
                    proof {
                        let psx = whole->Mapping_0;
                        assert(decreases_to!(whole => psx));
                        vstd::std_specs::vec::axiom_vec_index_decreases(psx, i as int);
                        assert(decreases_to!(psx[i as int] => psx[i as int].0));
                        assert(decreases_to!(psx[i as int] => psx[i as int].1));
                        assert(decreases_to!(whole => ps@[i as int].0));
                        assert(decreases_to!(whole => ps@[i as int].1));
                        lemma_pairs_bytes_snoc(ps@, i as int, old(encoder).options);
                    }
                    match ps[i].0.encode(encoder) {
                        Ok(_) => {},
                        Err(e) => {
                            proof {
                                if encodable(whole) {
                                    lemma_encodable_pairs_index(ps@, i as int);
                                }
                            }
                            return Err(e);
                        },
                    }
                    match ps[i].1.encode(encoder) {
                        Ok(_) => {},
                        Err(e) => {
                            proof {
                                if encodable(whole) {
                                    lemma_encodable_pairs_index(ps@, i as int);
                                }
                            }
                            return Err(e);
                        },
                    }
                    i = i + 1;
                }
                proof {
                    assert(ps@.take(len as int) =~= ps@);
                    assert(encoder.bytes() =~= old(encoder).bytes() + value_bytes(
                        *self,
                        old(encoder).options,
                    ));
                }
                Ok(())
            },

            Value::Variant(bx) => {
                let ghost whole = *self;
                let res = encoder.encode_variant();
                proof {
                    assert(decreases_to!(whole => *bx));
                    assert(decreases_to!(*bx => bx.0));
                    assert(decreases_to!(*bx => bx.1));
                }
                match bx.0.encode(encoder) {
                    Ok(_) => {},
                    Err(e) => {
                        return Err(e);
                    },
                }
                match bx.1.encode(encoder) {
                    Ok(_) => {},
                    Err(e) => {
                        return Err(e);
                    },
                }
                proof {
                    assert(encoder.bytes() =~= old(encoder).bytes() + value_bytes(
                        *self,
                        old(encoder).options,
                    ));
                }
                res
            },
        }
    }
    /// A structurally identical copy of this value: the same shapes with
    /// the same contents.
    pub fn duplicate(&self) -> (r: Value)
        ensures
            value_like(r, *self),
        decreases *self,
    {
        match self {
            Value::Unit => Value::Unit,
            Value::Bool(b) => Value::Bool(*b),
            Value::Char(c) => Value::Char(*c),
            Value::Number(n) => Value::Number(*n),
            Value::Bytes(b) => Value::Bytes(copy_bytes(b)),
            Value::String(s) => Value::String(s.clone()),
            Value::Sequence(vs) => {
                let ghost whole = *self;
                let mut out: Vec<Value> = Vec::new();
                let mut i: usize = 0;
                proof {
                    assert(out@ =~= Seq::<Value>::empty());
                    assert(vs@.take(0) =~= Seq::<Value>::empty());
                }
                while i < vs.len()
                    invariant
                        0 <= i <= vs@.len(),
                        whole == *self,
                        whole == Value::Sequence(*vs),
                        out@.len() == i,
                        values_like(out@, vs@.take(i as int)),
                    decreases vs@.len() - i,
                {
                    proof {
                        let vsx = whole->Sequence_0;
                        assert(decreases_to!(whole => vsx));
                        vstd::std_specs::vec::axiom_vec_index_decreases(vsx, i as int);
                        assert(decreases_to!(whole => vs@[i as int]));
                    }
                    let d = vs[i].duplicate();
                    proof {
                        lemma_values_like_push(out@, vs@.take(i as int), d, vs@[i as int]);
                        assert(vs@.take(i as int).push(vs@[i as int]) =~= vs@.take(i + 1));
                    }
                    out.push(d);
                    i = i + 1;
                }
                proof {
                    assert(vs@.take(vs@.len() as int) =~= vs@);
                }
                Value::Sequence(out)
            },
            Value::Mapping(ps) => {
                let ghost whole = *self;
                let mut out: Vec<(Value, Value)> = Vec::new();
                let mut i: usize = 0;
                proof {
                    assert(out@ =~= Seq::<(Value, Value)>::empty());
                    assert(ps@.take(0) =~= Seq::<(Value, Value)>::empty());
                }
                while i < ps.len()
                    invariant
                        0 <= i <= ps@.len(),
                        whole == *self,
                        whole == Value::Mapping(*ps),
                        out@.len() == i,
                        pairs_like(out@, ps@.take(i as int)),
                    decreases ps@.len() - i,
                {
                    proof {
                        let psx = whole->Mapping_0;
                        assert(decreases_to!(whole => psx));
                        vstd::std_specs::vec::axiom_vec_index_decreases(psx, i as int);
                        assert(decreases_to!(psx[i as int] => psx[i as int].0));
                        assert(decreases_to!(psx[i as int] => psx[i as int].1));
                        assert(decreases_to!(whole => ps@[i as int].0));
                        assert(decreases_to!(whole => ps@[i as int].1));
                    }
                    let k = ps[i].0.duplicate();
                    let w = ps[i].1.duplicate();
                    proof {
                        lemma_pairs_like_push(out@, ps@.take(i as int), (k, w), ps@[i as int]);
                        assert(ps@.take(i as int).push(ps@[i as int]) =~= ps@.take(i + 1));
                    }
                    out.push((k, w));
                    i = i + 1;
                }
                proof {
                    assert(ps@.take(ps@.len() as int) =~= ps@);
                }
                Value::Mapping(out)
            },
            Value::Variant(bx) => {
                let ghost whole = *self;
                proof {
                    assert(decreases_to!(whole => *bx));
                    assert(decreases_to!(*bx => bx.0));
                    assert(decreases_to!(*bx => bx.1));
                }
                Value::Variant(Box::new((bx.0.duplicate(), bx.1.duplicate())))
            },
        }
    }

    /// Decode one value, driven by the wire's type hints.  The result is
    /// always canonical: what the hints cannot tell apart surfaces as the
    /// wire's own shape, a number, bytes, or a sequence.
    pub fn decode(decoder: &mut WireDecoder) -> (r: Result<Value, CodecError>)
        requires
            old(decoder).wf(),
        ensures
            final(decoder).wf(),
            old(decoder).frame_kept(*final(decoder)),
            match parse_value(old(decoder).remaining(), old(decoder).options) {
                Ok((m, n)) => r matches Ok(v) && is_canonical(v) && canonical_model(v) == m
                    && final(decoder).reader.position() == old(decoder).reader.position() + n,
                Err(e) => r == Err::<Value, CodecError>(e) && final(decoder).reader.position()
                    == old(decoder).reader.position(),
            },
        decreases old(decoder).remaining().len(),
    {
        let hint = decoder.type_hint();
        match hint {
            TypeHint::Number(NumberHint::U8) => match decoder.decode_u8() {
                Ok(v) => Ok(Value::Number(Number::U8(v))),
                Err(e) => Err(e),
            },
            TypeHint::Number(NumberHint::U16) => match decoder.decode_u16() {
                Ok(v) => Ok(Value::Number(Number::U16(v))),
                Err(e) => Err(e),
            },
            TypeHint::Number(NumberHint::U32) => match decoder.decode_u32() {
                Ok(v) => Ok(Value::Number(Number::U32(v))),
                Err(e) => Err(e),
            },
            TypeHint::Number(NumberHint::U64) => match decoder.decode_u64() {
                Ok(v) => Ok(Value::Number(Number::U64(v))),
                Err(e) => Err(e),
            },
            TypeHint::Number(NumberHint::U128) => match decoder.decode_u128() {
                Ok(v) => Ok(Value::Number(Number::U128(v))),
                Err(e) => Err(e),
            },
            TypeHint::Bytes(_) => match decoder.decode_bytes() {
                Ok(v) => Ok(Value::Bytes(v)),
                Err(e) => Err(e),
            },
            TypeHint::Sequence(_) => {
                let ghost orig = old(decoder).remaining();
                let ghost opt = old(decoder).options;
                let start = decoder.reader.pos();
                let count = match decoder.decode_sequence() {
                    Ok(c) => c,
                    Err(e) => {
                        return Err(e);
                    },
                };
                let ghost hn = decoder.reader.position() - start;
                let ghost after_header = decoder.remaining();
                proof {
                    assert(after_header =~= orig.skip(hn as int));
                }
                let mut items: Vec<Value> = Vec::new();
                let mut i: usize = 0;
                proof {
                    assert(items@ =~= Seq::<Value>::empty());
                    assert(canonical_models(items@) =~= Seq::<ValueModel>::empty());
                    match parse_values(after_header, count as nat, opt) {
                        Ok((ms, n2)) => {
                            assert(canonical_models(items@) + ms =~= ms);
                        },
                        Err(_) => {},
                    }
                }
                while i < count
                    invariant
                        decoder.wf(),
                        old(decoder).wf(),
                        decoder.reader.bytes() == old(decoder).reader.bytes(),
                        decoder.options == opt,
                        opt == old(decoder).options,
                        orig == old(decoder).remaining(),
                        start == old(decoder).reader.position(),
                        start + hn <= decoder.reader.position() <= decoder.reader.bytes().len(),
                        0 <= start,
                        1 <= hn,
                        after_header == orig.skip(hn as int),
                        hn <= orig.len(),
                        parse_header(
                            orig,
                            Kind::Sequence,
                            opt.length,
                            CodecError::ExpectedSequence(wire_type_hint(orig)),
                        ) == Ok::<(nat, nat), CodecError>((count as nat, hn as nat)),
                        i == items@.len(),
                        0 <= i <= count,
                        is_canonical_all(items@),
                        parse_values(after_header, count as nat, opt) == (match parse_values(
                            decoder.remaining(),
                            (count - i) as nat,
                            opt,
                        ) {
                            Ok((ms, n2)) => Ok::<(Seq<ValueModel>, nat), CodecError>(
                                (
                                    canonical_models(items@) + ms,
                                    ((decoder.reader.position() - (start + hn)) + n2) as nat,
                                ),
                            ),
                            Err(e) => Err::<(Seq<ValueModel>, nat), CodecError>(e),
                        }),
                    decreases count - i,
                {
                    let ghost before = decoder.remaining();
                    proof {
                        lemma_parse_value_consumes(before, opt);
                    }
                    let item = match Value::decode(decoder) {
                        Ok(v) => v,
                        Err(e) => {
                            decoder.reader.rewind(start);
                            return Err(e);
                        },
                    };
                    proof {
                        match parse_value(before, opt) {
                            Ok((m, n)) => {
                                assert(decoder.remaining() =~= before.skip(n as int));
                                lemma_canonical_models_push(items@, item);
                                lemma_is_canonical_all_push(items@, item);
                                match parse_values(
                                    before.skip(n as int),
                                    (count - i - 1) as nat,
                                    opt,
                                ) {
                                    Ok((ms, n2)) => {
                                        assert(canonical_models(items@) + (seq![m] + ms) =~=
                                            canonical_models(items@.push(item)) + ms);
                                    },
                                    Err(_) => {},
                                }
                            },
                            Err(_) => {},
                        }
                    }
                    items.push(item);
                    i = i + 1;
                }
                proof {
                    assert(canonical_models(items@) + Seq::<ValueModel>::empty() =~=
                        canonical_models(items@));
                }
                Ok(Value::Sequence(items))
            },
            _ => {
                if decoder.reader.remaining() == 0 {
                    Err(CodecError::OutOfInput)
                } else {
                    Err(CodecError::InvalidType)
                }
            },
        }
    }
}

} // verus!
