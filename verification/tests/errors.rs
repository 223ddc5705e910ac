//! One input per error: every failure the codec can report is reachable,
//! and rejected inputs leave the reader where it stood.

use musli::de::WireDecoder;
use musli::en::Options;
use musli::en::WireEncoder;
use musli::error::CodecError;
use musli::hint::NumberHint;
use musli::hint::TypeHint;
use musli::integer_encoding::IntegerEncoding;
use musli::value::Number;
use musli::value::Value;

fn variable() -> Options {
    Options { integer: IntegerEncoding::Variable, length: IntegerEncoding::Variable }
}

#[test]
fn out_of_input_on_empty() {
    let mut d = WireDecoder::new(Vec::new());
    assert_eq!(d.decode_u8().unwrap_err(), CodecError::OutOfInput);
}

#[test]
fn out_of_input_on_truncated_payload() {
    // A prefix tag claiming three bytes, with only one present.
    let mut d = WireDecoder::new(vec![0x23, 0x68]);
    assert_eq!(d.decode_bytes().unwrap_err(), CodecError::OutOfInput);
    // The failed read left the cursor at the start.
    assert_eq!(d.reader.pos(), 0);
}

#[test]
fn expected_bool_on_prefix_tag() {
    let mut d = WireDecoder::new(vec![0x20]);
    assert_eq!(
        d.decode_bool().unwrap_err(),
        CodecError::ExpectedBool(TypeHint::Bytes(musli::hint::LengthHint::Exact(0)))
    );
}

#[test]
fn expected_unit_on_byte_tag() {
    let mut d = WireDecoder::new(vec![0x01]);
    assert_eq!(
        d.decode_unit().unwrap_err(),
        CodecError::ExpectedUnit(TypeHint::Number(NumberHint::U8))
    );
}

#[test]
fn expected_number_on_wrong_width() {
    // A width-4 continuation read as a u16.
    let mut e = WireEncoder::new(Vec::new());
    e.encode_u32(9).unwrap();
    let mut d = WireDecoder::new(e.into_writer());
    assert_eq!(
        d.decode_u16().unwrap_err(),
        CodecError::ExpectedNumber(NumberHint::U16, TypeHint::Number(NumberHint::U32))
    );
}

#[test]
fn expected_sequence_on_byte_tag() {
    let mut d = WireDecoder::new(vec![0x05]);
    assert!(matches!(d.decode_sequence().unwrap_err(), CodecError::ExpectedSequence(_)));
}

#[test]
fn expected_map_on_byte_tag() {
    let mut d = WireDecoder::new(vec![0x05]);
    assert!(matches!(d.decode_map().unwrap_err(), CodecError::ExpectedMap(_)));
}

#[test]
fn expected_variant_on_unit() {
    let mut d = WireDecoder::new(vec![0x60]);
    assert!(matches!(d.decode_variant().unwrap_err(), CodecError::ExpectedVariant(_)));
}

#[test]
fn expected_option_on_byte_tag() {
    let mut d = WireDecoder::new(vec![0x05]);
    assert!(matches!(d.decode_option().unwrap_err(), CodecError::ExpectedOption(_)));
}

#[test]
fn expected_pack_on_sequence_tag() {
    let mut d = WireDecoder::new(vec![0x62]);
    assert!(matches!(d.decode_pack().unwrap_err(), CodecError::ExpectedPack(_)));
}

#[test]
fn overlong_encoding_rejected() {
    // Tag for a width-2 continuation, then three bytes all flagging more:
    // one more than ceil(16/7) allows.
    let mut d = WireDecoder::with_options(vec![0x42, 0x80, 0x80, 0x80, 0x01], variable());
    assert_eq!(d.decode_u16().unwrap_err(), CodecError::OverlongEncoding);
    assert_eq!(d.reader.pos(), 0);
}

#[test]
fn integer_overflow_into_width_rejected() {
    // 0x1FFFF fits three variable-length bytes but not a u16.
    let mut d = WireDecoder::with_options(vec![0x42, 0xFF, 0xFF, 0x07], variable());
    assert_eq!(d.decode_u16().unwrap_err(), CodecError::IntegerOverflow);
}

#[test]
fn integer_overflow_on_oversized_map() {
    let mut e = WireEncoder::new(Vec::new());
    assert_eq!(e.encode_map(usize::MAX / 2 + 1).unwrap_err(), CodecError::IntegerOverflow);
    // Nothing was emitted.
    assert_eq!(e.into_writer(), Vec::<u8>::new());
}

#[test]
fn map_at_overflow_boundary_succeeds() {
    let mut e = WireEncoder::new(Vec::new());
    assert!(e.encode_map(usize::MAX / 2).is_ok());
    assert!(!e.into_writer().is_empty());
}

#[test]
fn invalid_utf8_rejected() {
    let mut e = WireEncoder::new(Vec::new());
    e.encode_bytes(&[0xFF, 0xFE]).unwrap();
    let mut d = WireDecoder::new(e.into_writer());
    assert_eq!(d.decode_string().unwrap_err(), CodecError::InvalidUtf8);
    assert_eq!(d.reader.pos(), 0);
}

#[test]
fn invalid_char_rejected() {
    // A surrogate code point is not a Unicode scalar value.
    let mut e = WireEncoder::new(Vec::new());
    e.encode_u32(0xD800).unwrap();
    let mut d = WireDecoder::new(e.into_writer());
    assert_eq!(d.decode_char().unwrap_err(), CodecError::InvalidChar);
}

#[test]
fn invalid_type_on_reserved_kind() {
    // Kind fields 4 through 7 name no kind.
    let mut d = WireDecoder::new(vec![0x80]);
    match Value::decode(&mut d) {
        Err(e) => assert_eq!(e, CodecError::InvalidType),
        Ok(_) => panic!("reserved kind must not decode"),
    }
}

#[test]
fn invalid_type_on_unknown_width_marker() {
    // A continuation tag whose data names no width.
    let mut d = WireDecoder::new(vec![0x43, 0x00, 0x00, 0x00]);
    match Value::decode(&mut d) {
        Err(e) => assert_eq!(e, CodecError::InvalidType),
        Ok(_) => panic!("unknown width marker must not decode"),
    }
}

#[test]
fn array_out_of_bounds_on_length_mismatch() {
    let v = Value::Bytes(vec![1, 2, 3]);
    assert_eq!(v.decoder().decode_array(4).unwrap_err(), CodecError::ArrayOutOfBounds);
    assert_eq!(v.decoder().decode_array(3).unwrap(), &vec![1, 2, 3]);
}

#[test]
fn expected_pack_value_when_exhausted() {
    let v = Value::Sequence(vec![Value::Number(Number::U8(1))]);
    let mut pack = v.decoder().decode_pack().unwrap();
    assert!(pack.next_required().is_ok());
    match pack.next_required() {
        Err(e) => assert_eq!(e, CodecError::ExpectedPackValue),
        Ok(_) => panic!("exhausted pack must not yield a value"),
    }
}

#[test]
fn expected_string_on_bytes_value() {
    let v = Value::Bytes(vec![1]);
    assert!(matches!(v.decoder().decode_string().unwrap_err(), CodecError::ExpectedString(_)));
}

#[test]
fn usize_narrowing_is_checked() {
    // The check exists on every host; it can only fire where the wire value
    // exceeds the host width, so here it is exercised structurally.
    let mut e = WireEncoder::new(Vec::new());
    e.encode_usize(usize::MAX).unwrap();
    let mut d = WireDecoder::new(e.into_writer());
    assert_eq!(d.decode_usize().unwrap(), usize::MAX);
}

#[test]
fn error_descriptions_name_the_failure() {
    assert_eq!(CodecError::OutOfInput.describe(), "out of input");
    assert_eq!(CodecError::BufferOverflow.describe(), "buffer overflow");
    assert_eq!(CodecError::OverlongEncoding.describe(), "overlong encoding");
}

#[test]
fn expected_char_on_bool_value() {
    let v = Value::Bool(true);
    assert_eq!(
        v.decoder().decode_char().unwrap_err(),
        CodecError::ExpectedChar(TypeHint::Bool)
    );
}

#[test]
fn expected_bytes_on_byte_tag() {
    let mut d = WireDecoder::new(vec![0x01]);
    assert_eq!(
        d.decode_bytes().unwrap_err(),
        CodecError::ExpectedBytes(TypeHint::Number(NumberHint::U8))
    );
}
