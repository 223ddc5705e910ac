//! The format's global guarantees, stated and proved once for all values
//! and configurations: parsing inverts encoding, re-encoding a decoded
//! value reproduces the original bytes, small scalars and lengths cost one
//! tag byte, and a skipped record moves the cursor exactly past itself.

use vstd::prelude::*;

use crate::de::parse_header;
use crate::value::parse_value;
use crate::value::parse_values;
use crate::de::lemma_parse_header_roundtrip;
use crate::de::lemma_parse_typed_roundtrip;
use crate::de::wire_type_hint;
use crate::en::Options;
use crate::en::bytes_wire_bytes;
use crate::en::header_bytes;
use crate::en::u8_wire_bytes;
use crate::error::CodecError;
use crate::hint::NumberHint;
use crate::integer_encoding::lemma_pow256_values;
use crate::integer_encoding::lemma_zigzag_roundtrip;
use crate::integer_encoding::pow256;
use crate::integer_encoding::zigzag;
use crate::tag::Kind;
use crate::tag::lemma_tag_byte_split;
use crate::tag::tag_byte_of;
use crate::value::Value;
use crate::value::ValueModel;
use crate::value::canonical_model;
use crate::value::canonical_models;
use crate::value::canonical_pair_models;
use crate::value::encodable;
use crate::value::encodable_all;
use crate::value::encodable_pairs;
use crate::value::lemma_value_bytes_len_pos;
use crate::value::number_bytes;
use crate::value::pairs_bytes;
use crate::value::portable;
use crate::value::portable_all;
use crate::value::portable_pairs;
use crate::value::value_bytes;
use crate::value::values_bytes;
use crate::value::value_like;
use crate::value::values_like;
use crate::value::pairs_like;

verus! {

/// Round trip: a hint-driven parse at the head of any encodable value's
/// encoding succeeds, yields exactly that value's model, and consumes
/// exactly the encoding, whatever follows it.  When the two codecs differ
/// the value must be portable: `usize` and `isize` travel under the length
/// codec but read back under the integer codec.
#[verifier::rlimit(100)]
pub proof fn lemma_parse_value_of_value_bytes(v: Value, rest: Seq<u8>, opt: Options)
    requires
        encodable(v),
        opt.integer == opt.length || portable(v),
    ensures
        parse_value(value_bytes(v, opt) + rest, opt) == Ok::<(ValueModel, nat), CodecError>(
            (canonical_model(v), value_bytes(v, opt).len()),
        ),
    decreases v, 1int,
{
    let vb = value_bytes(v, opt);
    let whole = vb + rest;
    proof_pow_facts();
    match v {
        Value::Unit => {
            lemma_tag_byte_split(Kind::Sequence, 0);
            assert(whole[0] == tag_byte_of(Kind::Sequence, 0));
            assert(whole.skip(1) =~= rest);
        },
        Value::Bool(b) => {
            let d: u8 = if b {
                1
            } else {
                0
            };
            lemma_tag_byte_split(Kind::Byte, d);
            assert(whole[0] == tag_byte_of(Kind::Byte, d));
        },
        Value::Char(c) => {
            vstd::utf8::char_is_scalar(c);
            lemma_parse_typed_roundtrip(
                (c as u32) as nat,
                4,
                opt.integer,
                NumberHint::U32,
                rest,
            );
            lemma_tag_byte_split(Kind::Continuation, 4);
            assert(whole[0] == tag_byte_of(Kind::Continuation, 4));
        },
        Value::Number(n) => {
            lemma_parse_number(n, rest, opt);
        },
        Value::Bytes(b) => {
            lemma_parse_value_bytes_case(v, rest, opt);
        },
        Value::String(st) => {
            lemma_parse_value_string_case(v, rest, opt);
        },
        Value::Sequence(vs) => {
            lemma_parse_value_sequence_case(v, rest, opt);
        },
        Value::Mapping(ps) => {
            lemma_parse_value_mapping_case(v, rest, opt);
        },
        Value::Variant(bx) => {
            lemma_parse_value_variant_case(v, rest, opt);
        },
    }
}

/// The byte-payload case of the round trip.
proof fn lemma_parse_value_bytes_case(v: Value, rest: Seq<u8>, opt: Options)
    requires
        v is Bytes,
        encodable(v),
    ensures
        parse_value(value_bytes(v, opt) + rest, opt) == Ok::<(ValueModel, nat), CodecError>(
            (canonical_model(v), value_bytes(v, opt).len()),
        ),
    decreases v, 0int,
{
    let vb = value_bytes(v, opt);
    let whole = vb + rest;
    let data = v->Bytes_0@;
    let hb = header_bytes(Kind::Prefix, data.len(), opt.length);
    assert(whole =~= hb + (data + rest));
    if data.len() <= 30 {
        lemma_tag_byte_split(Kind::Prefix, data.len() as u8);
    } else {
        lemma_tag_byte_split(Kind::Prefix, 31);
    }
    lemma_parse_header_roundtrip(
        Kind::Prefix,
        data.len(),
        opt.length,
        CodecError::ExpectedBytes(wire_type_hint(whole)),
        data + rest,
    );
    assert(whole.subrange(hb.len() as int, (hb.len() + data.len()) as int) =~= data);
}

/// The string case of the round trip: a byte payload of UTF-8.
proof fn lemma_parse_value_string_case(v: Value, rest: Seq<u8>, opt: Options)
    requires
        v is String,
        encodable(v),
    ensures
        parse_value(value_bytes(v, opt) + rest, opt) == Ok::<(ValueModel, nat), CodecError>(
            (canonical_model(v), value_bytes(v, opt).len()),
        ),
    decreases v, 0int,
{
    let vb = value_bytes(v, opt);
    let whole = vb + rest;
    let data = vstd::utf8::encode_utf8(v->String_0@);
    let hb = header_bytes(Kind::Prefix, data.len(), opt.length);
    assert(whole =~= hb + (data + rest));
    if data.len() <= 30 {
        lemma_tag_byte_split(Kind::Prefix, data.len() as u8);
    } else {
        lemma_tag_byte_split(Kind::Prefix, 31);
    }
    lemma_parse_header_roundtrip(
        Kind::Prefix,
        data.len(),
        opt.length,
        CodecError::ExpectedBytes(wire_type_hint(whole)),
        data + rest,
    );
    assert(whole.subrange(hb.len() as int, (hb.len() + data.len()) as int) =~= data);
}

/// The sequence case of the round trip.
proof fn lemma_parse_value_sequence_case(v: Value, rest: Seq<u8>, opt: Options)
    requires
        v is Sequence,
        encodable(v),
        opt.integer == opt.length || portable(v),
    ensures
        parse_value(value_bytes(v, opt) + rest, opt) == Ok::<(ValueModel, nat), CodecError>(
            (canonical_model(v), value_bytes(v, opt).len()),
        ),
    decreases v, 0int,
{
    let vb = value_bytes(v, opt);
    let whole = vb + rest;
    let vsx = v->Sequence_0;
    assert(decreases_to!(v => vsx));
    assert(decreases_to!(vsx => vsx@));
    let hb = header_bytes(Kind::Sequence, vsx@.len(), opt.length);
    let body = values_bytes(vsx@, opt);
    assert(whole =~= hb + (body + rest));
    if vsx@.len() <= 30 {
        lemma_tag_byte_split(Kind::Sequence, vsx@.len() as u8);
    } else {
        lemma_tag_byte_split(Kind::Sequence, 31);
    }
    lemma_parse_header_roundtrip(
        Kind::Sequence,
        vsx@.len(),
        opt.length,
        CodecError::ExpectedSequence(wire_type_hint(whole)),
        body + rest,
    );
    assert(whole.skip(hb.len() as int) =~= body + rest);
    lemma_parse_values_of_values_bytes(vsx@, rest, opt);
}

/// The map case of the round trip: a sequence of twice as many items.
proof fn lemma_parse_value_mapping_case(v: Value, rest: Seq<u8>, opt: Options)
    requires
        v is Mapping,
        encodable(v),
        opt.integer == opt.length || portable(v),
    ensures
        parse_value(value_bytes(v, opt) + rest, opt) == Ok::<(ValueModel, nat), CodecError>(
            (canonical_model(v), value_bytes(v, opt).len()),
        ),
    decreases v, 0int,
{
    let vb = value_bytes(v, opt);
    let whole = vb + rest;
    let psx = v->Mapping_0;
    assert(decreases_to!(v => psx));
    assert(decreases_to!(psx => psx@));
    let hb = header_bytes(Kind::Sequence, 2 * psx@.len(), opt.length);
    let body = pairs_bytes(psx@, opt);
    assert(whole =~= hb + (body + rest));
    if 2 * psx@.len() <= 30 {
        lemma_tag_byte_split(Kind::Sequence, (2 * psx@.len()) as u8);
    } else {
        lemma_tag_byte_split(Kind::Sequence, 31);
    }
    lemma_parse_header_roundtrip(
        Kind::Sequence,
        2 * psx@.len(),
        opt.length,
        CodecError::ExpectedSequence(wire_type_hint(whole)),
        body + rest,
    );
    assert(whole.skip(hb.len() as int) =~= body + rest);
    lemma_parse_values_of_pairs_bytes(psx@, rest, opt);
}

/// The variant case of the round trip: a two-item sequence.
proof fn lemma_parse_value_variant_case(v: Value, rest: Seq<u8>, opt: Options)
    requires
        v is Variant,
        encodable(v),
        opt.integer == opt.length || portable(v),
    ensures
        parse_value(value_bytes(v, opt) + rest, opt) == Ok::<(ValueModel, nat), CodecError>(
            (canonical_model(v), value_bytes(v, opt).len()),
        ),
    decreases v, 0int,
{
    let vb = value_bytes(v, opt);
    let whole = vb + rest;
    let bx = v->Variant_0;
    lemma_tag_byte_split(Kind::Sequence, 2);
    assert(decreases_to!(v => bx));
    assert(decreases_to!(bx => bx.0));
    assert(decreases_to!(bx => bx.1));
    let a = bx.0;
    let b = bx.1;
    let vba = value_bytes(a, opt);
    let vbb = value_bytes(b, opt);
    assert(whole[0] == tag_byte_of(Kind::Sequence, 2));
    lemma_parse_value_of_value_bytes(a, vbb + rest, opt);
    lemma_value_bytes_len_pos(a, opt);
    assert(whole.skip(1) =~= vba + (vbb + rest));
    lemma_parse_value_of_value_bytes(b, rest, opt);
    lemma_value_bytes_len_pos(b, opt);
    assert(whole.skip(1).skip(vba.len() as int) =~= vbb + rest);
    assert(seq![canonical_model(a)] + (seq![canonical_model(b)] + Seq::<ValueModel>::empty())
        =~= seq![canonical_model(a), canonical_model(b)]);
    let s1 = whole.skip(1);
    let s2 = s1.skip(vba.len() as int);
    assert(parse_value(s1, opt) == Ok::<(ValueModel, nat), CodecError>(
        (canonical_model(a), vba.len()),
    ));
    assert(parse_value(s2, opt) == Ok::<(ValueModel, nat), CodecError>(
        (canonical_model(b), vbb.len()),
    ));
    assert(parse_values(s2.skip(vbb.len() as int), 0, opt) == Ok::<
        (Seq<ValueModel>, nat),
        CodecError,
    >((Seq::empty(), 0)));
    assert(parse_values(s2, 1, opt) == Ok::<(Seq<ValueModel>, nat), CodecError>(
        (seq![canonical_model(b)] + Seq::<ValueModel>::empty(), vbb.len()),
    ));
    assert(parse_values(s1, 2, opt) == Ok::<(Seq<ValueModel>, nat), CodecError>(
        (
            seq![canonical_model(a)] + (seq![canonical_model(b)] + Seq::<ValueModel>::empty()),
            vba.len() + vbb.len(),
        ),
    ));
    assert(parse_header(
        whole,
        Kind::Sequence,
        opt.length,
        CodecError::ExpectedSequence(wire_type_hint(whole)),
    ) == Ok::<(nat, nat), CodecError>((2, 1)));
    assert(vb.len() == 1 + vba.len() + vbb.len());
}

/// Round trip for a run of values: parsing as many values as the run holds
/// yields their models and consumes exactly the run's bytes.
pub proof fn lemma_parse_values_of_values_bytes(vs: Seq<Value>, rest: Seq<u8>, opt: Options)
    requires
        encodable_all(vs),
        opt.integer == opt.length || portable_all(vs),
    ensures
        parse_values(values_bytes(vs, opt) + rest, vs.len(), opt) == Ok::<
            (Seq<ValueModel>, nat),
            CodecError,
        >((canonical_models(vs), values_bytes(vs, opt).len())),
    decreases vs, 2int,
{
    let body = values_bytes(vs, opt);
    let whole = body + rest;
    if vs.len() == 0 {
        assert(whole =~= rest);
        assert(canonical_models(vs) =~= Seq::<ValueModel>::empty());
    } else {
        assert(decreases_to!(vs => vs[0]));
        let first = vs[0];
        let tail_bytes = values_bytes(vs.drop_first(), opt);
        lemma_parse_value_of_value_bytes(first, tail_bytes + rest, opt);
        lemma_value_bytes_len_pos(first, opt);
        let n0 = value_bytes(first, opt).len();
        assert(whole =~= value_bytes(first, opt) + (tail_bytes + rest));
        assert(whole.skip(n0 as int) =~= tail_bytes + rest);
        lemma_parse_values_of_values_bytes(vs.drop_first(), rest, opt);
        assert(seq![canonical_model(first)] + canonical_models(vs.drop_first()) =~=
            canonical_models(vs));
    }
}

/// Round trip for a run of pairs: parsing twice as many values as there are
/// pairs yields the interleaved models and consumes exactly the run's
/// bytes.
#[verifier::rlimit(60)]
pub proof fn lemma_parse_values_of_pairs_bytes(ps: Seq<(Value, Value)>, rest: Seq<u8>, opt: Options)
    requires
        encodable_pairs(ps),
        opt.integer == opt.length || portable_pairs(ps),
    ensures
        parse_values(pairs_bytes(ps, opt) + rest, 2 * ps.len(), opt) == Ok::<
            (Seq<ValueModel>, nat),
            CodecError,
        >((canonical_pair_models(ps), pairs_bytes(ps, opt).len())),
    decreases ps, 2int,
{
    let body = pairs_bytes(ps, opt);
    let whole = body + rest;
    if ps.len() == 0 {
        assert(whole =~= rest);
        assert(canonical_pair_models(ps) =~= Seq::<ValueModel>::empty());
    } else {
        assert(decreases_to!(ps => ps[0]));
        assert(decreases_to!(ps[0] => ps[0].0));
        assert(decreases_to!(ps[0] => ps[0].1));
        let k = ps[0].0;
        let w = ps[0].1;
        let vbk = value_bytes(k, opt);
        let vbw = value_bytes(w, opt);
        let tail_bytes = pairs_bytes(ps.drop_first(), opt);
        lemma_parse_value_of_value_bytes(k, vbw + (tail_bytes + rest), opt);
        lemma_value_bytes_len_pos(k, opt);
        assert(whole =~= vbk + (vbw + (tail_bytes + rest)));
        assert(whole.skip(vbk.len() as int) =~= vbw + (tail_bytes + rest));
        lemma_parse_value_of_value_bytes(w, tail_bytes + rest, opt);
        lemma_value_bytes_len_pos(w, opt);
        assert(whole.skip(vbk.len() as int).skip(vbw.len() as int) =~= tail_bytes + rest);
        lemma_parse_values_of_pairs_bytes(ps.drop_first(), rest, opt);
        assert(2 * ps.len() - 1 - 1 == 2 * ps.drop_first().len());
        assert(seq![canonical_model(k)] + (seq![canonical_model(w)] + canonical_pair_models(
            ps.drop_first(),
        )) =~= canonical_pair_models(ps));
        let s1 = whole.skip(vbk.len() as int);
        let s2 = s1.skip(vbw.len() as int);
        assert(parse_value(whole, opt) == Ok::<(ValueModel, nat), CodecError>(
            (canonical_model(k), vbk.len()),
        ));
        assert(parse_value(s1, opt) == Ok::<(ValueModel, nat), CodecError>(
            (canonical_model(w), vbw.len()),
        ));
        assert(parse_values(s2, 2 * ps.drop_first().len(), opt) == Ok::<
            (Seq<ValueModel>, nat),
            CodecError,
        >((canonical_pair_models(ps.drop_first()), tail_bytes.len())));
        assert(parse_values(s1, (2 * ps.len() - 1) as nat, opt) == Ok::<
            (Seq<ValueModel>, nat),
            CodecError,
        >(
            (
                seq![canonical_model(w)] + canonical_pair_models(ps.drop_first()),
                vbw.len() + tail_bytes.len(),
            ),
        ));
        assert(parse_values(whole, 2 * ps.len(), opt) == Ok::<
            (Seq<ValueModel>, nat),
            CodecError,
        >(
            (
                seq![canonical_model(k)] + (seq![canonical_model(w)] + canonical_pair_models(
                    ps.drop_first(),
                )),
                vbk.len() + (vbw.len() + tail_bytes.len()),
            ),
        ));
    }
}

/// Round trip for each number width.
#[verifier::rlimit(60)]
proof fn lemma_parse_number(n: crate::value::Number, rest: Seq<u8>, opt: Options)
    requires
        opt.integer == opt.length || !(n matches crate::value::Number::Usize(_)) && !(
        n matches crate::value::Number::Isize(_)),
    ensures
        parse_value(number_bytes(n, opt) + rest, opt) == Ok::<(ValueModel, nat), CodecError>(
            (crate::value::canonical_number_model(n), number_bytes(n, opt).len()),
        ),
{
    let whole = number_bytes(n, opt) + rest;
    proof_pow_facts();
    match n {
        crate::value::Number::U8(u) => {
            lemma_parse_u8_wire(u, rest);
        },
        crate::value::Number::U16(u) => {
            lemma_parse_typed_roundtrip(u as nat, 2, opt.integer, NumberHint::U16, rest);
            lemma_tag_byte_split(Kind::Continuation, 2);
            assert(whole[0] == tag_byte_of(Kind::Continuation, 2));
        },
        crate::value::Number::U32(u) => {
            lemma_parse_typed_roundtrip(u as nat, 4, opt.integer, NumberHint::U32, rest);
            lemma_tag_byte_split(Kind::Continuation, 4);
            assert(whole[0] == tag_byte_of(Kind::Continuation, 4));
        },
        crate::value::Number::U64(u) => {
            lemma_parse_typed_roundtrip(u as nat, 8, opt.integer, NumberHint::U64, rest);
            lemma_tag_byte_split(Kind::Continuation, 8);
            assert(whole[0] == tag_byte_of(Kind::Continuation, 8));
        },
        crate::value::Number::U128(u) => {
            lemma_parse_typed_roundtrip(u as nat, 16, opt.integer, NumberHint::U128, rest);
            lemma_tag_byte_split(Kind::Continuation, 16);
            assert(whole[0] == tag_byte_of(Kind::Continuation, 16));
        },
        crate::value::Number::I8(u) => {
            lemma_zigzag_roundtrip(u as int, 0x80);
            lemma_parse_u8_wire(zigzag(u as int) as u8, rest);
        },
        crate::value::Number::I16(u) => {
            lemma_zigzag_roundtrip(u as int, 0x8000);
            lemma_parse_typed_roundtrip(
                zigzag(u as int) as nat,
                2,
                opt.integer,
                NumberHint::U16,
                rest,
            );
            lemma_tag_byte_split(Kind::Continuation, 2);
            assert(whole[0] == tag_byte_of(Kind::Continuation, 2));
        },
        crate::value::Number::I32(u) => {
            lemma_zigzag_roundtrip(u as int, 0x80000000);
            lemma_parse_typed_roundtrip(
                zigzag(u as int) as nat,
                4,
                opt.integer,
                NumberHint::U32,
                rest,
            );
            lemma_tag_byte_split(Kind::Continuation, 4);
            assert(whole[0] == tag_byte_of(Kind::Continuation, 4));
        },
        crate::value::Number::I64(u) => {
            lemma_zigzag_roundtrip(u as int, 0x8000000000000000);
            lemma_parse_typed_roundtrip(
                zigzag(u as int) as nat,
                8,
                opt.integer,
                NumberHint::U64,
                rest,
            );
            lemma_tag_byte_split(Kind::Continuation, 8);
            assert(whole[0] == tag_byte_of(Kind::Continuation, 8));
        },
        crate::value::Number::I128(u) => {
            lemma_zigzag_roundtrip(u as int, 0x80000000000000000000000000000000);
            lemma_parse_typed_roundtrip(
                zigzag(u as int) as nat,
                16,
                opt.integer,
                NumberHint::U128,
                rest,
            );
            lemma_tag_byte_split(Kind::Continuation, 16);
            assert(whole[0] == tag_byte_of(Kind::Continuation, 16));
        },
        crate::value::Number::Usize(u) => {
            assert(usize::MAX <= u64::MAX);
            lemma_parse_typed_roundtrip(u as nat, 8, opt.length, NumberHint::U64, rest);
            lemma_tag_byte_split(Kind::Continuation, 8);
            assert(whole[0] == tag_byte_of(Kind::Continuation, 8));
        },
        crate::value::Number::Isize(u) => {
            lemma_zigzag_roundtrip(u as int, 0x8000000000000000);
            lemma_parse_typed_roundtrip(
                zigzag(u as int) as nat,
                8,
                opt.length,
                NumberHint::U64,
                rest,
            );
            lemma_tag_byte_split(Kind::Continuation, 8);
            assert(whole[0] == tag_byte_of(Kind::Continuation, 8));
        },
        crate::value::Number::F32Bits(u) => {
            lemma_parse_typed_roundtrip(u as nat, 4, opt.integer, NumberHint::U32, rest);
            lemma_tag_byte_split(Kind::Continuation, 4);
            assert(whole[0] == tag_byte_of(Kind::Continuation, 4));
        },
        crate::value::Number::F64Bits(u) => {
            lemma_parse_typed_roundtrip(u as nat, 8, opt.integer, NumberHint::U64, rest);
            lemma_tag_byte_split(Kind::Continuation, 8);
            assert(whole[0] == tag_byte_of(Kind::Continuation, 8));
        },
    }
}

/// Round trip for a `u8` record: embedded or sentinel form.
proof fn lemma_parse_u8_wire(u: u8, rest: Seq<u8>)
    ensures
        crate::de::parse_u8(u8_wire_bytes(u) + rest) == Ok::<(u8, nat), CodecError>(
            (u, u8_wire_bytes(u).len()),
        ),
{
    let whole = u8_wire_bytes(u) + rest;
    if u <= 30 {
        lemma_tag_byte_split(Kind::Byte, u);
        assert(whole[0] == tag_byte_of(Kind::Byte, u));
    } else {
        lemma_tag_byte_split(Kind::Byte, 31);
        assert(whole[0] == tag_byte_of(Kind::Byte, 31));
        assert(whole[1] == u);
    }
}

/// On canonical values the model is a complete observation: two canonical
/// values with the same model are structurally the same value.  Together
/// with the round trip this makes decoding an encoding the exact identity
/// on canonical values.
pub proof fn lemma_canonical_model_determines(a: Value, b: Value)
    requires
        crate::value::is_canonical(a),
        crate::value::is_canonical(b),
        canonical_model(a) == canonical_model(b),
    ensures
        value_like(a, b),
    decreases a,
{
    match (a, b) {
        (Value::Sequence(xs), Value::Sequence(ys)) => {
            assert(decreases_to!(a => a->Sequence_0));
            assert(decreases_to!(a->Sequence_0 => a->Sequence_0@));
            lemma_canonical_models_determine(xs@, ys@);
        },
        _ => {},
    }
}

/// Two canonical runs with the same models are pointwise the same.
pub proof fn lemma_canonical_models_determine(xs: Seq<Value>, ys: Seq<Value>)
    requires
        crate::value::is_canonical_all(xs),
        crate::value::is_canonical_all(ys),
        canonical_models(xs) == canonical_models(ys),
    ensures
        values_like(xs, ys),
    decreases xs,
{
    crate::value::lemma_canonical_models_len(xs);
    crate::value::lemma_canonical_models_len(ys);
    if xs.len() > 0 {
        assert(decreases_to!(xs => xs[0]));
        assert(canonical_models(xs)[0] == canonical_model(xs[0]));
        assert(canonical_models(ys)[0] == canonical_model(ys[0]));
        lemma_canonical_model_determines(xs[0], ys[0]);
        assert(canonical_models(xs).drop_first() =~= canonical_models(xs.drop_first()));
        assert(canonical_models(ys).drop_first() =~= canonical_models(ys.drop_first()));
        lemma_canonical_models_determine(xs.drop_first(), ys.drop_first());
    }
}

/// A canonical value holds no host-sized numbers, so it is portable.
pub proof fn lemma_canonical_is_portable(v: Value)
    requires
        crate::value::is_canonical(v),
    ensures
        portable(v),
    decreases v, 1int,
{
    match v {
        Value::Sequence(vs) => {
            let vsx = v->Sequence_0;
            assert(decreases_to!(v => vsx));
            assert(decreases_to!(vsx => vsx@));
            lemma_canonical_all_portable(vsx@);
        },
        _ => {},
    }
}

/// A run of canonical values is a run of portable values.
pub proof fn lemma_canonical_all_portable(vs: Seq<Value>)
    requires
        crate::value::is_canonical_all(vs),
    ensures
        portable_all(vs),
    decreases vs, 2int,
{
    if vs.len() > 0 {
        assert(decreases_to!(vs => vs[0]));
        lemma_canonical_is_portable(vs[0]);
        lemma_canonical_all_portable(vs.drop_first());
    }
}

/// Round trip, exactly: decoding the encoding of a canonical value gives
/// back a value with the original's model, and any canonical value with
/// that model is structurally the original.  On canonical values, decode
/// after encode is the identity.
pub proof fn theorem_roundtrip(v: Value, w: Value, opt: Options)
    requires
        encodable(v),
        opt.integer == opt.length || portable(v),
        crate::value::is_canonical(v),
        crate::value::is_canonical(w),
        canonical_model(w) == canonical_model(v),
    ensures
        parse_value(value_bytes(v, opt) + Seq::<u8>::empty(), opt) == Ok::<
            (ValueModel, nat),
            CodecError,
        >((canonical_model(v), value_bytes(v, opt).len())),
        value_like(w, v),
{
    lemma_parse_value_of_value_bytes(v, Seq::empty(), opt);
    lemma_canonical_model_determines(w, v);
}

/// Encoding factors through the model: a value and its model produce the
/// same bytes.  When the two codecs differ the value must be portable.
pub proof fn lemma_value_bytes_factors(v: Value, opt: Options)
    requires
        opt.integer == opt.length || portable(v),
    ensures
        value_bytes(v, opt) == crate::value::model_bytes(canonical_model(v), opt),
    decreases v, 1int,
{
    proof_pow_facts();
    match v {
        Value::Unit => {
            assert(crate::value::models_bytes(Seq::<ValueModel>::empty(), opt) =~= Seq::<
                u8,
            >::empty());
            assert(value_bytes(v, opt) =~= crate::value::model_bytes(canonical_model(v), opt));
        },
        Value::Bool(b) => {
            assert(value_bytes(v, opt) =~= crate::value::model_bytes(canonical_model(v), opt));
        },
        Value::Char(c) => {},
        Value::Number(n) => {
            match n {
                crate::value::Number::I8(u) => {
                    lemma_zigzag_roundtrip(u as int, 0x80);
                },
                crate::value::Number::I16(u) => {
                    lemma_zigzag_roundtrip(u as int, 0x8000);
                },
                crate::value::Number::I32(u) => {
                    lemma_zigzag_roundtrip(u as int, 0x80000000);
                },
                crate::value::Number::I64(u) => {
                    lemma_zigzag_roundtrip(u as int, 0x8000000000000000);
                },
                crate::value::Number::I128(u) => {
                    lemma_zigzag_roundtrip(u as int, 0x80000000000000000000000000000000);
                },
                crate::value::Number::Isize(u) => {
                    lemma_zigzag_roundtrip(u as int, 0x8000000000000000);
                },
                _ => {},
            }
        },
        Value::Bytes(b) => {},
        Value::String(s) => {},
        Value::Sequence(vs) => {
            let vsx = v->Sequence_0;
            assert(decreases_to!(v => vsx));
            assert(decreases_to!(vsx => vsx@));
            lemma_values_bytes_factors(vsx@, opt);
            crate::value::lemma_canonical_models_len(vsx@);
        },
        Value::Mapping(ps) => {
            let psx = v->Mapping_0;
            assert(decreases_to!(v => psx));
            assert(decreases_to!(psx => psx@));
            lemma_pairs_bytes_factors(psx@, opt);
            crate::value::lemma_canonical_pair_models_len(psx@);
        },
        Value::Variant(bx) => {
            let b2 = v->Variant_0;
            assert(decreases_to!(v => b2));
            assert(decreases_to!(b2 => b2.0));
            assert(decreases_to!(b2 => b2.1));
            lemma_value_bytes_factors(b2.0, opt);
            lemma_value_bytes_factors(b2.1, opt);
            let ma = canonical_model(b2.0);
            let mb = canonical_model(b2.1);
            let ms = seq![ma, mb];
            let tail = ms.drop_first();
            assert(tail.drop_first() =~= Seq::<ValueModel>::empty());
            assert(crate::value::models_bytes(tail.drop_first(), opt) =~= Seq::<u8>::empty());
            assert(crate::value::models_bytes(tail, opt) =~= crate::value::model_bytes(mb, opt));
            assert(crate::value::models_bytes(ms, opt) =~= crate::value::model_bytes(ma, opt)
                + crate::value::model_bytes(mb, opt));
            assert(value_bytes(v, opt) =~= crate::value::model_bytes(canonical_model(v), opt));
        },
    }
}

/// Encoding of a run factors through its models.
pub proof fn lemma_values_bytes_factors(vs: Seq<Value>, opt: Options)
    requires
        opt.integer == opt.length || portable_all(vs),
    ensures
        values_bytes(vs, opt) == crate::value::models_bytes(canonical_models(vs), opt),
    decreases vs, 2int,
{
    if vs.len() == 0 {
        assert(values_bytes(vs, opt) =~= crate::value::models_bytes(canonical_models(vs), opt));
    } else {
        assert(decreases_to!(vs => vs[0]));
        lemma_value_bytes_factors(vs[0], opt);
        lemma_values_bytes_factors(vs.drop_first(), opt);
        assert(canonical_models(vs).drop_first() =~= canonical_models(vs.drop_first()));
        assert(canonical_models(vs)[0] == canonical_model(vs[0]));
    }
}

/// Encoding of a run of pairs factors through its interleaved models.
pub proof fn lemma_pairs_bytes_factors(ps: Seq<(Value, Value)>, opt: Options)
    requires
        opt.integer == opt.length || portable_pairs(ps),
    ensures
        pairs_bytes(ps, opt) == crate::value::models_bytes(canonical_pair_models(ps), opt),
    decreases ps, 2int,
{
    if ps.len() == 0 {
        assert(pairs_bytes(ps, opt) =~= crate::value::models_bytes(
            canonical_pair_models(ps),
            opt,
        ));
    } else {
        assert(decreases_to!(ps => ps[0]));
        assert(decreases_to!(ps[0] => ps[0].0));
        assert(decreases_to!(ps[0] => ps[0].1));
        lemma_value_bytes_factors(ps[0].0, opt);
        lemma_value_bytes_factors(ps[0].1, opt);
        lemma_pairs_bytes_factors(ps.drop_first(), opt);
        let ms = canonical_pair_models(ps);
        let tail = ms.drop_first();
        assert(ms[0] == canonical_model(ps[0].0));
        assert(tail[0] == canonical_model(ps[0].1));
        assert(tail.drop_first() =~= canonical_pair_models(ps.drop_first()));
        crate::value::lemma_canonical_pair_models_len(ps);
        assert(crate::value::models_bytes(tail, opt) == crate::value::model_bytes(tail[0], opt)
            + crate::value::models_bytes(tail.drop_first(), opt));
        assert(crate::value::models_bytes(ms, opt) == crate::value::model_bytes(ms[0], opt)
            + crate::value::models_bytes(tail, opt));
        assert(pairs_bytes(ps, opt) =~= crate::value::models_bytes(
            canonical_pair_models(ps),
            opt,
        ));
    }
}

/// Encoding respects structural equality: two alike values produce the
/// same bytes under every configuration.
pub proof fn lemma_value_like_same_bytes(a: Value, b: Value, opt: Options)
    requires
        value_like(a, b),
    ensures
        value_bytes(a, opt) == value_bytes(b, opt),
    decreases a, 1int,
{
    match (a, b) {
        (Value::Unit, Value::Unit) => {},
        (Value::Bool(x), Value::Bool(y)) => {
            assert(x == y);
        },
        (Value::Char(x), Value::Char(y)) => {
            assert(x == y);
        },
        (Value::Number(x), Value::Number(y)) => {
            assert(x == y);
        },
        (Value::Bytes(x), Value::Bytes(y)) => {
            assert(x@ == y@);
        },
        (Value::String(x), Value::String(y)) => {
            assert(x@ == y@);
        },
        (Value::Sequence(xs), Value::Sequence(ys)) => {
            let vsx = a->Sequence_0;
            assert(decreases_to!(a => vsx));
            assert(decreases_to!(vsx => vsx@));
            lemma_values_like_same_bytes(xs@, ys@, opt);
            assert(xs@.len() == ys@.len());
        },
        (Value::Mapping(xs), Value::Mapping(ys)) => {
            let psx = a->Mapping_0;
            assert(decreases_to!(a => psx));
            assert(decreases_to!(psx => psx@));
            lemma_pairs_like_same_bytes(xs@, ys@, opt);
            assert(xs@.len() == ys@.len());
        },
        (Value::Variant(x), Value::Variant(y)) => {
            let bx = a->Variant_0;
            assert(decreases_to!(a => bx));
            assert(decreases_to!(bx => bx.0));
            assert(decreases_to!(bx => bx.1));
            lemma_value_like_same_bytes(bx.0, y.0, opt);
            lemma_value_like_same_bytes(bx.1, y.1, opt);
        },
        _ => {
            assert(!value_like(a, b));
        },
    }
}

/// Two pointwise alike runs produce the same bytes.
pub proof fn lemma_values_like_same_bytes(xs: Seq<Value>, ys: Seq<Value>, opt: Options)
    requires
        values_like(xs, ys),
    ensures
        values_bytes(xs, opt) == values_bytes(ys, opt),
    decreases xs, 2int,
{
    if xs.len() > 0 {
        assert(decreases_to!(xs => xs[0]));
        lemma_value_like_same_bytes(xs[0], ys[0], opt);
        lemma_values_like_same_bytes(xs.drop_first(), ys.drop_first(), opt);
    }
}

/// Two pointwise alike runs of pairs produce the same bytes.
pub proof fn lemma_pairs_like_same_bytes(
    xs: Seq<(Value, Value)>,
    ys: Seq<(Value, Value)>,
    opt: Options,
)
    requires
        pairs_like(xs, ys),
    ensures
        pairs_bytes(xs, opt) == pairs_bytes(ys, opt),
    decreases xs, 2int,
{
    if xs.len() > 0 {
        assert(decreases_to!(xs => xs[0]));
        assert(decreases_to!(xs[0] => xs[0].0));
        assert(decreases_to!(xs[0] => xs[0].1));
        lemma_value_like_same_bytes(xs[0].0, ys[0].0, opt);
        lemma_value_like_same_bytes(xs[0].1, ys[0].1, opt);
        lemma_pairs_like_same_bytes(xs.drop_first(), ys.drop_first(), opt);
    }
}

/// Transcode: encode a value under a source configuration, decode it back
/// by hints, and re-encode what came out under any target configuration;
/// the result is byte-for-byte what encoding the original under the target
/// configuration gives.  Both configurations must be self-describing, that
/// is, use one codec for integers and lengths alike.
pub proof fn theorem_transcode(x: Value, w: Value, source: Options, target: Options)
    requires
        encodable(x),
        source.integer == source.length,
        target.integer == target.length,
        crate::value::is_canonical(w),
        canonical_model(w) == canonical_model(x),
    ensures
        parse_value(value_bytes(x, source) + Seq::<u8>::empty(), source) matches Ok(p)
            && p.0 == canonical_model(x),
        value_bytes(w, target) == value_bytes(x, target),
{
    lemma_parse_value_of_value_bytes(x, Seq::empty(), source);
    lemma_value_bytes_factors(x, target);
    lemma_value_bytes_factors(w, target);
}

/// Tag economy: a byte scalar of at most 30 costs exactly one tag byte,
/// and a payload of at most 30 bytes costs exactly one tag byte plus the
/// payload itself, with no separate value or length byte.
pub proof fn lemma_tag_economy(
    v: u8,
    data: Seq<u8>,
    kind: Kind,
    enc: crate::integer_encoding::IntegerEncoding,
)
    requires
        v <= 30,
        data.len() <= 30,
    ensures
        u8_wire_bytes(v).len() == 1,
        header_bytes(kind, data.len(), enc).len() == 1,
        bytes_wire_bytes(data, enc).len() == 1 + data.len(),
{
}

/// Overlong rejection: once the allowed number of bytes all carry
/// continuation bits, a variable-length integer is rejected, whatever
/// follows.
pub proof fn lemma_overlong_rejected(bytes: Seq<u8>, max: nat)
    requires
        bytes.len() >= max,
        forall|i: int| 0 <= i < max ==> bytes[i] >= 128,
    ensures
        crate::integer_encoding::parse_varint(bytes, max) == Err::<(nat, nat), CodecError>(
            CodecError::OverlongEncoding,
        ),
    decreases max,
{
    if max > 0 {
        assert(bytes[0] >= 128);
        assert(forall|i: int|
            0 <= i < max - 1 ==> bytes.drop_first()[i] == bytes[i + 1] && bytes[i + 1] >= 128);
        lemma_overlong_rejected(bytes.drop_first(), (max - 1) as nat);
    }
}

/// Skip advance: after skipping one record, the cursor stands exactly at
/// the start of the next sibling, whose decode is unaffected by the
/// skipped record.
pub proof fn lemma_skip_then_next(skipped: Value, sibling: Value, rest: Seq<u8>, opt: Options)
    requires
        encodable(skipped),
        encodable(sibling),
        opt.integer == opt.length || (portable(skipped) && portable(sibling)),
    ensures
        parse_value(
            value_bytes(skipped, opt) + (value_bytes(sibling, opt) + rest),
            opt,
        ) matches Ok(p) && p.1 == value_bytes(skipped, opt).len(),
        parse_value(value_bytes(sibling, opt) + rest, opt) == Ok::<
            (ValueModel, nat),
            CodecError,
        >((canonical_model(sibling), value_bytes(sibling, opt).len())),
{
    lemma_parse_value_of_value_bytes(skipped, value_bytes(sibling, opt) + rest, opt);
    lemma_parse_value_of_value_bytes(sibling, rest, opt);
}

/// The power values the roundtrip cases lean on.
proof fn proof_pow_facts()
    ensures
        pow256(2) == 0x10000,
        pow256(4) == 0x100000000,
        pow256(8) == 0x10000000000000000,
        pow256(16) == 0x100000000000000000000000000000000,
{
    lemma_pow256_values();
}

} // verus!
