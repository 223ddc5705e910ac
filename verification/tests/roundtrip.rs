//! Decode-of-encode returns the original value, for every scalar width and
//! for value trees, under both uniform configurations and the default
//! mixed one, including float bit patterns.

use musli::de::WireDecoder;
use musli::en::Options;
use musli::en::WireEncoder;
use musli::integer_encoding::IntegerEncoding;
use musli::value::Number;
use musli::value::Value;

fn configs() -> Vec<Options> {
    vec![
        Options { integer: IntegerEncoding::Fixed, length: IntegerEncoding::Fixed },
        Options { integer: IntegerEncoding::Variable, length: IntegerEncoding::Variable },
        Options { integer: IntegerEncoding::Fixed, length: IntegerEncoding::Variable },
    ]
}

#[test]
fn roundtrip_bool() {
    for opt in configs() {
        for v in [false, true] {
            let mut e = WireEncoder::with_options(Vec::new(), opt, 256);
            e.encode_bool(v).unwrap();
            let mut d = WireDecoder::with_options(e.into_writer(), opt);
            assert_eq!(d.decode_bool().unwrap(), v);
        }
    }
}

#[test]
fn roundtrip_unit_and_option() {
    for opt in configs() {
        let mut e = WireEncoder::with_options(Vec::new(), opt, 256);
        e.encode_unit().unwrap();
        e.encode_none().unwrap();
        e.encode_some().unwrap();
        e.encode_u8(9).unwrap();
        let mut d = WireDecoder::with_options(e.into_writer(), opt);
        d.decode_unit().unwrap();
        assert!(!d.decode_option().unwrap());
        assert!(d.decode_option().unwrap());
        assert_eq!(d.decode_u8().unwrap(), 9);
    }
}

#[test]
fn roundtrip_unsigned_widths() {
    for opt in configs() {
        let mut e = WireEncoder::with_options(Vec::new(), opt, 256);
        e.encode_u8(0).unwrap();
        e.encode_u8(30).unwrap();
        e.encode_u8(31).unwrap();
        e.encode_u8(u8::MAX).unwrap();
        e.encode_u16(u16::MAX).unwrap();
        e.encode_u32(u32::MAX).unwrap();
        e.encode_u64(u64::MAX).unwrap();
        e.encode_u128(u128::MAX).unwrap();
        e.encode_u16(0).unwrap();
        e.encode_u32(127).unwrap();
        e.encode_u64(128).unwrap();
        e.encode_u128(1 << 70).unwrap();
        let mut d = WireDecoder::with_options(e.into_writer(), opt);
        assert_eq!(d.decode_u8().unwrap(), 0);
        assert_eq!(d.decode_u8().unwrap(), 30);
        assert_eq!(d.decode_u8().unwrap(), 31);
        assert_eq!(d.decode_u8().unwrap(), u8::MAX);
        assert_eq!(d.decode_u16().unwrap(), u16::MAX);
        assert_eq!(d.decode_u32().unwrap(), u32::MAX);
        assert_eq!(d.decode_u64().unwrap(), u64::MAX);
        assert_eq!(d.decode_u128().unwrap(), u128::MAX);
        assert_eq!(d.decode_u16().unwrap(), 0);
        assert_eq!(d.decode_u32().unwrap(), 127);
        assert_eq!(d.decode_u64().unwrap(), 128);
        assert_eq!(d.decode_u128().unwrap(), 1 << 70);
    }
}

#[test]
fn roundtrip_signed_widths() {
    for opt in configs() {
        let mut e = WireEncoder::with_options(Vec::new(), opt, 256);
        e.encode_i8(-1).unwrap();
        e.encode_i8(i8::MIN).unwrap();
        e.encode_i16(i16::MIN).unwrap();
        e.encode_i16(i16::MAX).unwrap();
        e.encode_i32(-1).unwrap();
        e.encode_i64(i64::MIN).unwrap();
        e.encode_i128(i128::MIN).unwrap();
        e.encode_i128(i128::MAX).unwrap();
        let mut d = WireDecoder::with_options(e.into_writer(), opt);
        assert_eq!(d.decode_i8().unwrap(), -1);
        assert_eq!(d.decode_i8().unwrap(), i8::MIN);
        assert_eq!(d.decode_i16().unwrap(), i16::MIN);
        assert_eq!(d.decode_i16().unwrap(), i16::MAX);
        assert_eq!(d.decode_i32().unwrap(), -1);
        assert_eq!(d.decode_i64().unwrap(), i64::MIN);
        assert_eq!(d.decode_i128().unwrap(), i128::MIN);
        assert_eq!(d.decode_i128().unwrap(), i128::MAX);
    }
}

#[test]
fn roundtrip_host_widths() {
    for opt in configs() {
        let mut e = WireEncoder::with_options(Vec::new(), opt, 256);
        e.encode_usize(usize::MAX).unwrap();
        e.encode_usize(0).unwrap();
        e.encode_isize(-5).unwrap();
        let mut d = WireDecoder::with_options(e.into_writer(), opt);
        assert_eq!(d.decode_usize().unwrap(), usize::MAX);
        assert_eq!(d.decode_usize().unwrap(), 0);
        assert_eq!(d.decode_isize().unwrap(), -5);
    }
}

#[test]
fn roundtrip_char() {
    for opt in configs() {
        for c in ['a', '\u{0}', '\u{10FFFF}', 'é', '字'] {
            let mut e = WireEncoder::with_options(Vec::new(), opt, 256);
            e.encode_char(c).unwrap();
            let mut d = WireDecoder::with_options(e.into_writer(), opt);
            assert_eq!(d.decode_char().unwrap(), c);
        }
    }
}

#[test]
fn roundtrip_float_bits_exactly() {
    for opt in configs() {
        for f in [0.0f32, -0.0, 1.5, f32::NAN, f32::INFINITY, f32::MIN_POSITIVE] {
            let mut e = WireEncoder::with_options(Vec::new(), opt, 256);
            e.encode_f32_bits(f.to_bits()).unwrap();
            let mut d = WireDecoder::with_options(e.into_writer(), opt);
            let back = f32::from_bits(d.decode_f32_bits().unwrap());
            assert_eq!(back.to_bits(), f.to_bits());
        }
        for f in [0.0f64, -0.0, 2.25, f64::NAN, f64::NEG_INFINITY] {
            let mut e = WireEncoder::with_options(Vec::new(), opt, 256);
            e.encode_f64_bits(f.to_bits()).unwrap();
            let mut d = WireDecoder::with_options(e.into_writer(), opt);
            let back = f64::from_bits(d.decode_f64_bits().unwrap());
            assert_eq!(back.to_bits(), f.to_bits());
        }
    }
}

#[test]
fn roundtrip_bytes_and_string() {
    for opt in configs() {
        let long: Vec<u8> = (0..100u8).collect();
        let mut e = WireEncoder::with_options(Vec::new(), opt, 256);
        e.encode_bytes(&long).unwrap();
        e.encode_string("grüße, 世界").unwrap();
        let mut d = WireDecoder::with_options(e.into_writer(), opt);
        assert_eq!(d.decode_bytes().unwrap(), long);
        assert_eq!(d.decode_string().unwrap(), "grüße, 世界");
    }
}

#[test]
fn roundtrip_value_tree_via_hints() {
    for opt in configs() {
        let tree = Value::Sequence(vec![
            Value::Number(Number::U8(7)),
            Value::Number(Number::U16(300)),
            Value::Bytes(vec![1, 2, 3]),
            Value::Sequence(vec![Value::Number(Number::U64(1))]),
        ]);
        let mut e = WireEncoder::with_options(Vec::new(), opt, 256);
        tree.encode(&mut e).unwrap();
        let bytes = e.into_writer();
        let mut d = WireDecoder::with_options(bytes.clone(), opt);
        let back = Value::decode(&mut d).unwrap();

        // The decoded tree re-encodes to exactly the original bytes.
        let mut e2 = WireEncoder::with_options(Vec::new(), opt, 256);
        back.encode(&mut e2).unwrap();
        assert_eq!(e2.into_writer(), bytes);

        // And it is structurally the original, which was canonical.
        match back {
            Value::Sequence(items) => {
                assert_eq!(items.len(), 4);
                assert!(matches!(items[0], Value::Number(Number::U8(7))));
                assert!(matches!(items[1], Value::Number(Number::U16(300))));
                match &items[2] {
                    Value::Bytes(b) => assert_eq!(b, &vec![1, 2, 3]),
                    _ => panic!("expected bytes"),
                }
                match &items[3] {
                    Value::Sequence(inner) => {
                        assert_eq!(inner.len(), 1);
                        assert!(matches!(inner[0], Value::Number(Number::U64(1))));
                    },
                    _ => panic!("expected sequence"),
                }
            },
            _ => panic!("expected sequence"),
        }
    }
}

#[test]
fn top_level_encode_then_decode() {
    let opt = Options { integer: IntegerEncoding::Variable, length: IntegerEncoding::Variable };
    let tree = Value::Sequence(vec![
        Value::Number(Number::U8(1)),
        Value::Bytes(vec![9, 9]),
    ]);
    let bytes = musli::value::encode(&tree, Vec::new(), opt).unwrap();
    match musli::value::decode(bytes, opt) {
        Ok(Value::Sequence(items)) => {
            assert_eq!(items.len(), 2);
            assert!(matches!(items[0], Value::Number(Number::U8(1))));
        },
        _ => panic!("expected the sequence back"),
    }
}
