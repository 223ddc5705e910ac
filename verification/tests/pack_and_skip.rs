//! Packs: bodies are staged in a bounded buffer that fails closed, and a
//! finished pack is one length-prefixed record.  Skipping: a skipped
//! record moves the cursor exactly past itself, leaving siblings intact.

use musli::de::WireDecoder;
use musli::en::Options;
use musli::en::WireEncoder;
use musli::error::CodecError;
use musli::integer_encoding::IntegerEncoding;
use musli::value::Number;
use musli::value::Value;
use musli::value::skip_value;

fn fixed() -> Options {
    Options { integer: IntegerEncoding::Fixed, length: IntegerEncoding::Fixed }
}

#[test]
fn pack_roundtrip() {
    let mut e = WireEncoder::with_options(Vec::new(), fixed(), 128);
    let mut pack = e.encode_pack();
    pack.encode_u8(7).unwrap();
    pack.encode_bool(true).unwrap();
    pack.encode_u16(512).unwrap();
    pack.encode_u32(0x01020304).unwrap();
    pack.encode_u64(99).unwrap();
    pack.encode_u128(1 << 90).unwrap();
    pack.encode_i8(-3).unwrap();
    pack.encode_i16(-300).unwrap();
    pack.encode_i32(-70000).unwrap();
    pack.encode_i64(i64::MIN).unwrap();
    pack.encode_i128(i128::MAX).unwrap();
    pack.encode_usize(11).unwrap();
    pack.encode_isize(-11).unwrap();
    pack.encode_f32_bits(1.5f32.to_bits()).unwrap();
    pack.encode_f64_bits((-2.5f64).to_bits()).unwrap();
    pack.encode_bytes(&[9, 8, 7]).unwrap();
    pack.finish(&mut e).unwrap();
    let mut d = WireDecoder::with_options(e.into_writer(), fixed());
    d.decode_pack().unwrap();
    assert_eq!(d.unpack_u8().unwrap(), 7);
    assert!(d.unpack_bool().unwrap());
    assert_eq!(d.unpack_u16().unwrap(), 512);
    assert_eq!(d.unpack_u32().unwrap(), 0x01020304);
    assert_eq!(d.unpack_u64().unwrap(), 99);
    assert_eq!(d.unpack_u128().unwrap(), 1 << 90);
    assert_eq!(d.unpack_i8().unwrap(), -3);
    assert_eq!(d.unpack_i16().unwrap(), -300);
    assert_eq!(d.unpack_i32().unwrap(), -70000);
    assert_eq!(d.unpack_i64().unwrap(), i64::MIN);
    assert_eq!(d.unpack_i128().unwrap(), i128::MAX);
    assert_eq!(d.unpack_usize().unwrap(), 11);
    assert_eq!(d.unpack_isize().unwrap(), -11);
    assert_eq!(d.unpack_f32_bits().unwrap(), 1.5f32.to_bits());
    assert_eq!(d.unpack_f64_bits().unwrap(), (-2.5f64).to_bits());
    assert_eq!(d.unpack_bytes().unwrap(), vec![9, 8, 7]);
}

#[test]
fn pack_roundtrip_variable_codec() {
    let opt = Options { integer: IntegerEncoding::Variable, length: IntegerEncoding::Variable };
    let mut e = WireEncoder::with_options(Vec::new(), opt, 64);
    let mut pack = e.encode_pack();
    pack.encode_u16(300).unwrap();
    pack.encode_i32(-5).unwrap();
    pack.encode_bytes(&[1, 2]).unwrap();
    pack.finish(&mut e).unwrap();
    let mut d = WireDecoder::with_options(e.into_writer(), opt);
    d.decode_pack().unwrap();
    assert_eq!(d.unpack_u16().unwrap(), 300);
    assert_eq!(d.unpack_i32().unwrap(), -5);
    assert_eq!(d.unpack_bytes().unwrap(), vec![1, 2]);
}

#[test]
fn pack_body_is_untagged() {
    let mut e = WireEncoder::with_options(Vec::new(), fixed(), 64);
    let mut pack = e.encode_pack();
    pack.encode_u8(7).unwrap();
    pack.finish(&mut e).unwrap();
    // One prefix tag with the embedded length 1, then the raw byte.
    assert_eq!(e.into_writer(), vec![0x21, 0x07]);
}

#[test]
fn pack_overflow_fails_closed_and_emits_no_tag() {
    let mut e = WireEncoder::with_options(Vec::new(), fixed(), 4);
    let mut pack = e.encode_pack();
    pack.encode_u32(1).unwrap();
    // The staging buffer is full: the next element cannot spill.
    assert_eq!(pack.encode_u8(1).unwrap_err(), CodecError::BufferOverflow);
    assert_eq!(pack.encode_u64(2).unwrap_err(), CodecError::BufferOverflow);
    // The buffer kept only the first element, and the writer saw nothing.
    assert_eq!(pack.pack_buf.len(), 4);
    assert_eq!(e.into_writer(), Vec::<u8>::new());
}

#[test]
fn pack_overflow_is_all_or_nothing() {
    let mut e = WireEncoder::with_options(Vec::new(), fixed(), 6);
    let mut pack = e.encode_pack();
    pack.encode_u32(1).unwrap();
    // Two bytes of room remain; an eight-byte element must not write any.
    assert_eq!(pack.encode_u64(2).unwrap_err(), CodecError::BufferOverflow);
    assert_eq!(pack.pack_buf.len(), 4);
}

#[test]
fn skip_value_advances_past_the_record() {
    let mut e = WireEncoder::new(Vec::new());
    e.encode_u8(5).unwrap();
    e.encode_bytes(b"abcdef").unwrap();
    e.encode_u8(7).unwrap();
    let mut d = WireDecoder::new(e.into_writer());
    assert_eq!(d.decode_u8().unwrap(), 5);
    skip_value(&mut d).unwrap();
    assert_eq!(d.decode_u8().unwrap(), 7);
}

#[test]
fn skip_value_advances_past_a_whole_subtree() {
    let tree = Value::Mapping(vec![
        (Value::Number(Number::U8(1)), Value::Sequence(vec![Value::Bool(true), Value::Unit])),
    ]);
    let mut e = WireEncoder::new(Vec::new());
    tree.encode(&mut e).unwrap();
    e.encode_u8(9).unwrap();
    let mut d = WireDecoder::new(e.into_writer());
    skip_value(&mut d).unwrap();
    assert_eq!(d.decode_u8().unwrap(), 9);
}

#[test]
fn value_skip_second_succeeds_and_iteration_moves_on() {
    let map = Value::Mapping(vec![
        (Value::Number(Number::U8(1)), Value::Bool(true)),
        (Value::Number(Number::U8(2)), Value::Bool(false)),
    ]);
    let mut pairs = map.decoder().decode_map().unwrap();
    let entry = pairs.next().unwrap().unwrap();
    assert_eq!(entry.first().unwrap().decode_u8().unwrap(), 1);
    assert!(entry.skip_second().unwrap());
    // The next entry is the next sibling, unchanged.
    let entry = pairs.next().unwrap().unwrap();
    assert_eq!(entry.first().unwrap().decode_u8().unwrap(), 2);
    assert!(!entry.second().unwrap().decode_bool().unwrap());
    assert!(pairs.next().unwrap().is_none());
}

#[test]
fn value_skip_variant_succeeds_and_tag_stays_readable() {
    let variant = Value::Variant(Box::new((Value::Number(Number::U8(3)), Value::Bool(true))));
    let var = variant.decoder().decode_variant().unwrap();
    assert!(var.skip_variant().unwrap());
    assert_eq!(var.tag().unwrap().decode_u8().unwrap(), 3);
    var.end().unwrap();
}
