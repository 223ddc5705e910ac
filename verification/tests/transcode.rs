//! Transcoding: decode under one self-describing configuration, re-encode
//! under another, and land on exactly the bytes a direct encode gives.
//! The lossy collapses are also pinned down: what the hints cannot tell
//! apart re-encodes identically, not structurally.

use musli::de::WireDecoder;
use musli::en::Options;
use musli::en::WireEncoder;
use musli::integer_encoding::IntegerEncoding;
use musli::value::Number;
use musli::value::Value;

fn fixed() -> Options {
    Options { integer: IntegerEncoding::Fixed, length: IntegerEncoding::Fixed }
}

fn variable() -> Options {
    Options { integer: IntegerEncoding::Variable, length: IntegerEncoding::Variable }
}

fn encode(v: &Value, opt: Options) -> Vec<u8> {
    let mut e = WireEncoder::with_options(Vec::new(), opt, 256);
    v.encode(&mut e).unwrap();
    e.into_writer()
}

fn transcode(v: &Value, source: Options, target: Options) -> Vec<u8> {
    let mut d = WireDecoder::with_options(encode(v, source), source);
    let w = Value::decode(&mut d).unwrap();
    encode(&w, target)
}

#[test]
fn transcode_tree_between_configurations() {
    let tree = Value::Sequence(vec![
        Value::Unit,
        Value::Bool(true),
        Value::Char('é'),
        Value::Number(Number::I32(-77)),
        Value::String(String::from("hello")),
        Value::Mapping(vec![
            (Value::Number(Number::U8(5)), Value::Number(Number::U8(40))),
            (Value::Number(Number::U8(5)), Value::Bool(false)),
        ]),
        Value::Variant(Box::new((Value::Number(Number::U8(3)), Value::Bool(false)))),
    ]);
    for s in [fixed(), variable()] {
        for t in [fixed(), variable()] {
            assert_eq!(transcode(&tree, s, t), encode(&tree, t));
        }
    }
}

#[test]
fn transcode_numbers_with_width_changes() {
    let tree = Value::Sequence(vec![
        Value::Number(Number::U16(40000)),
        Value::Number(Number::U64(1 << 40)),
        Value::Number(Number::I128(-(1 << 90))),
        Value::Number(Number::F64Bits(2.5f64.to_bits())),
    ]);
    assert_eq!(transcode(&tree, fixed(), variable()), encode(&tree, variable()));
    assert_eq!(transcode(&tree, variable(), fixed()), encode(&tree, fixed()));
}

#[test]
fn hint_collapse_map_decodes_as_sequence() {
    let map = Value::Mapping(vec![(Value::Number(Number::U8(1)), Value::Number(Number::U8(2)))]);
    let mut d = WireDecoder::with_options(encode(&map, fixed()), fixed());
    match Value::decode(&mut d).unwrap() {
        Value::Sequence(items) => {
            assert_eq!(items.len(), 2);
            assert!(matches!(items[0], Value::Number(Number::U8(1))));
            assert!(matches!(items[1], Value::Number(Number::U8(2))));
        },
        _ => panic!("expected the pair flattened into a sequence"),
    }
}

#[test]
fn hint_collapse_unit_decodes_as_empty_sequence() {
    let mut d = WireDecoder::with_options(encode(&Value::Unit, fixed()), fixed());
    match Value::decode(&mut d).unwrap() {
        Value::Sequence(items) => assert_eq!(items.len(), 0),
        _ => panic!("expected an empty sequence"),
    }
}

#[test]
fn hint_collapse_string_decodes_as_bytes() {
    let s = Value::String(String::from("hi"));
    let mut d = WireDecoder::with_options(encode(&s, variable()), variable());
    match Value::decode(&mut d).unwrap() {
        Value::Bytes(b) => assert_eq!(b, "hi".as_bytes().to_vec()),
        _ => panic!("expected bytes"),
    }
}

#[test]
fn hint_collapse_bool_decodes_as_u8() {
    let mut d = WireDecoder::with_options(encode(&Value::Bool(true), fixed()), fixed());
    assert!(matches!(Value::decode(&mut d).unwrap(), Value::Number(Number::U8(1))));
}
