//! The in-memory value tree: type hints, decoding out of the tree, and
//! encoding it onto the wire.

use musli::en::WireEncoder;
use musli::hint::LengthHint;
use musli::hint::NumberHint;
use musli::hint::TypeHint;
use musli::value::Number;
use musli::value::Value;
use musli::value_de::IterValueDecoder;
use musli::value_de::ValueDecoder;
use musli::visitor::NumberVisitor as NumberVisitorTrait;

#[test]
fn type_hints_name_each_shape() {
    assert_eq!(Value::Unit.type_hint(), TypeHint::Unit);
    assert_eq!(Value::Bool(true).type_hint(), TypeHint::Bool);
    assert_eq!(Value::Char('x').type_hint(), TypeHint::Char);
    assert_eq!(
        Value::Number(Number::I64(-2)).type_hint(),
        TypeHint::Number(NumberHint::I64)
    );
    assert_eq!(
        Value::Bytes(vec![1, 2]).type_hint(),
        TypeHint::Bytes(LengthHint::Exact(2))
    );
    assert_eq!(
        Value::Sequence(vec![Value::Unit]).type_hint(),
        TypeHint::Sequence(LengthHint::Exact(1))
    );
    assert_eq!(
        Value::Mapping(vec![(Value::Unit, Value::Unit)]).type_hint(),
        TypeHint::Mapping(LengthHint::Exact(1))
    );
    assert_eq!(
        Value::Variant(Box::new((Value::Unit, Value::Unit))).type_hint(),
        TypeHint::Variant
    );
}

#[test]
fn string_hint_counts_utf8_bytes() {
    // One character, two UTF-8 bytes: the hint carries the byte length.
    let s = Value::String(String::from("\u{e9}"));
    assert_eq!(s.type_hint(), TypeHint::String(LengthHint::Exact(2)));
    let a = Value::String(String::from("hi"));
    assert_eq!(a.type_hint(), TypeHint::String(LengthHint::Exact(2)));
}

#[test]
fn number_hints_name_each_width() {
    assert_eq!(Number::U8(1).type_hint(), NumberHint::U8);
    assert_eq!(Number::Usize(1).type_hint(), NumberHint::Usize);
    assert_eq!(Number::F32Bits(0).type_hint(), NumberHint::F32);
    assert_eq!(Number::I128(-1).type_hint(), NumberHint::I128);
}

#[test]
fn scalar_decoding_from_the_tree() {
    assert_eq!(Value::Bool(true).decoder().decode_bool().unwrap(), true);
    assert_eq!(Value::Char('q').decoder().decode_char().unwrap(), 'q');
    assert_eq!(Value::Number(Number::U8(9)).decoder().decode_u8().unwrap(), 9);
    assert_eq!(Value::Number(Number::U16(900)).decoder().decode_u16().unwrap(), 900);
    assert_eq!(Value::Number(Number::U32(70000)).decoder().decode_u32().unwrap(), 70000);
    assert_eq!(Value::Number(Number::U64(1 << 40)).decoder().decode_u64().unwrap(), 1 << 40);
    assert_eq!(Value::Number(Number::U128(1 << 100)).decoder().decode_u128().unwrap(), 1 << 100);
    assert_eq!(Value::Number(Number::I8(-3)).decoder().decode_i8().unwrap(), -3);
    assert_eq!(Value::Number(Number::I16(-300)).decoder().decode_i16().unwrap(), -300);
    assert_eq!(Value::Number(Number::I32(-70000)).decoder().decode_i32().unwrap(), -70000);
    assert_eq!(Value::Number(Number::I64(-5)).decoder().decode_i64().unwrap(), -5);
    assert_eq!(Value::Number(Number::I128(-6)).decoder().decode_i128().unwrap(), -6);
    assert_eq!(Value::Number(Number::Usize(11)).decoder().decode_usize().unwrap(), 11);
    assert_eq!(Value::Number(Number::Isize(-11)).decoder().decode_isize().unwrap(), -11);
    let bits = 1.25f32.to_bits();
    assert_eq!(Value::Number(Number::F32Bits(bits)).decoder().decode_f32_bits().unwrap(), bits);
    let bits64 = (-8.5f64).to_bits();
    assert_eq!(
        Value::Number(Number::F64Bits(bits64)).decoder().decode_f64_bits().unwrap(),
        bits64
    );
    Value::Unit.decoder().decode_unit().unwrap();
}

#[test]
fn borrowed_bytes_and_strings() {
    let v = Value::Bytes(vec![9, 8]);
    assert_eq!(v.decoder().decode_bytes().unwrap(), &vec![9, 8]);
    let s = Value::String(String::from("hey"));
    assert_eq!(s.decoder().decode_string().unwrap(), "hey");
}

#[test]
fn option_treats_unit_as_none_and_anything_else_as_some() {
    assert!(Value::Unit.decoder().decode_option().unwrap().is_none());
    let v = Value::Number(Number::U8(4));
    let inner = v.decoder().decode_option().unwrap().unwrap();
    assert_eq!(inner.decode_u8().unwrap(), 4);
}

#[test]
fn sequence_iteration_in_order() {
    let v = Value::Sequence(vec![
        Value::Number(Number::U8(1)),
        Value::Number(Number::U8(2)),
        Value::Number(Number::U8(3)),
    ]);
    let mut it: IterValueDecoder = v.decoder().decode_sequence().unwrap();
    assert_eq!(it.size_hint(), Some(3));
    let mut seen = Vec::new();
    while let Some(d) = it.next().unwrap() {
        seen.push(d.decode_u8().unwrap());
    }
    assert_eq!(seen, vec![1, 2, 3]);
}

#[test]
fn map_iteration_keeps_order_and_duplicates() {
    let v = Value::Mapping(vec![
        (Value::Number(Number::U8(1)), Value::Number(Number::U8(10))),
        (Value::Number(Number::U8(1)), Value::Number(Number::U8(20))),
    ]);
    let mut it = v.decoder().decode_map().unwrap();
    assert_eq!(it.size_hint(), Some(2));
    let entry = it.next().unwrap().unwrap();
    assert_eq!(entry.first().unwrap().decode_u8().unwrap(), 1);
    assert_eq!(entry.second().unwrap().decode_u8().unwrap(), 10);
    let entry = it.next().unwrap().unwrap();
    assert_eq!(entry.first().unwrap().decode_u8().unwrap(), 1);
    assert_eq!(entry.second().unwrap().decode_u8().unwrap(), 20);
    assert!(it.next().unwrap().is_none());
}

#[test]
fn variant_exposes_tag_and_body() {
    let v = Value::Variant(Box::new((
        Value::Number(Number::U8(3)),
        Value::String(String::from("body")),
    )));
    let var = v.decoder().decode_variant().unwrap();
    assert_eq!(var.tag().unwrap().decode_u8().unwrap(), 3);
    assert_eq!(var.variant().unwrap().decode_string().unwrap(), "body");
    var.end().unwrap();
}

#[test]
fn decode_tuple_and_struct_share_layouts() {
    let seq = Value::Sequence(vec![Value::Unit]);
    assert!(seq.decoder().decode_tuple(1).is_ok());
    assert!(seq.decoder().decode_pack().is_ok());
    let map = Value::Mapping(vec![(Value::Unit, Value::Unit)]);
    assert!(map.decoder().decode_struct(1).is_ok());
}

#[test]
fn as_decoder_rewinds_to_the_same_value() {
    let v = Value::Number(Number::U8(9));
    let d = ValueDecoder::new(&v);
    let again = d.as_decoder();
    assert_eq!(again.decode_u8().unwrap(), 9);
    assert_eq!(d.decode_u8().unwrap(), 9);
}

#[test]
fn number_encode_writes_its_wire_form() {
    let mut e = WireEncoder::new(Vec::new());
    Number::U8(7).encode(&mut e).unwrap();
    // -1 zig-zags to 1, which embeds in a single byte tag.
    Number::I8(-1).encode(&mut e).unwrap();
    assert_eq!(e.into_writer(), vec![0x07, 0x01]);
}

#[test]
fn isize_zigzags_onto_the_portable_width() {
    // -1 zig-zags to 1, so it encodes exactly as the usize value 1.
    let mut a = WireEncoder::new(Vec::new());
    Number::Isize(-1).encode(&mut a).unwrap();
    let mut b = WireEncoder::new(Vec::new());
    Number::Usize(1).encode(&mut b).unwrap();
    assert_eq!(a.into_writer(), b.into_writer());
}

struct LengthVisitor;

impl musli::visitor::ValueVisitor for LengthVisitor {
    type Output = usize;

    fn expecting(&self) -> String {
        String::from("any byte payload")
    }

    fn visit_owned(self, value: Vec<u8>) -> Result<usize, musli::error::CodecError> {
        Ok(value.len())
    }

    fn visit_any(self, value: &[u8]) -> Result<usize, musli::error::CodecError> {
        Ok(value.len())
    }
}

#[test]
fn visitor_driven_byte_decoding() {
    let mut e = WireEncoder::new(Vec::new());
    e.encode_bytes(&[1, 2, 3, 4]).unwrap();
    let mut d = musli::de::WireDecoder::new(e.into_writer());
    let len = d.decode_bytes_with(LengthVisitor).unwrap();
    assert_eq!(len, 4);
}

struct RejectingNumberVisitor;

impl musli::visitor::NumberVisitor for RejectingNumberVisitor {
    type Output = ();

    fn expecting(&self) -> String {
        String::from("no number at all")
    }

    fn visit_components(
        self,
        _mantissa_lo: u128,
        _mantissa_hi: u128,
        _exponent: u32,
        _sign: u32,
    ) -> Result<(), musli::error::CodecError> {
        Err(musli::error::CodecError::InvalidType)
    }
}

#[test]
fn number_visitor_can_reject_components() {
    assert!(NumberVisitorTrait::visit_components(RejectingNumberVisitor, 1, 0, 0, 0).is_err());
    assert_eq!(NumberVisitorTrait::expecting(&RejectingNumberVisitor), "no number at all");
}

#[test]
fn duplicate_preserves_structure_and_encoding() {
    let tree = Value::Sequence(vec![
        Value::String(String::from("key")),
        Value::Mapping(vec![(Value::Number(Number::U8(1)), Value::Bytes(vec![7, 8]))]),
        Value::Variant(Box::new((Value::Number(Number::U8(2)), Value::Unit))),
    ]);
    let copy = tree.duplicate();
    let mut a = WireEncoder::new(Vec::new());
    tree.encode(&mut a).unwrap();
    let mut b = WireEncoder::new(Vec::new());
    copy.encode(&mut b).unwrap();
    assert_eq!(a.into_writer(), b.into_writer());
}
