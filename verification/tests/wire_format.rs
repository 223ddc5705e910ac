//! Byte-exact checks of the wire format, with the fixed-width integer
//! codec and the variable-length length codec.

use musli::en::WireEncoder;

fn encoder() -> WireEncoder {
    WireEncoder::new(Vec::new())
}

#[test]
fn encode_bool_true_is_byte_tag_one() {
    let mut e = encoder();
    e.encode_bool(true).unwrap();
    assert_eq!(e.into_writer(), vec![0x01]);
}

#[test]
fn encode_bool_false_is_byte_tag_zero() {
    let mut e = encoder();
    e.encode_bool(false).unwrap();
    assert_eq!(e.into_writer(), vec![0x00]);
}

#[test]
fn encode_u8_small_embeds_in_tag() {
    let mut e = encoder();
    e.encode_u8(7).unwrap();
    assert_eq!(e.into_writer(), vec![0x07]);
}

#[test]
fn encode_u8_large_uses_sentinel_and_raw_byte() {
    let mut e = encoder();
    e.encode_u8(200).unwrap();
    assert_eq!(e.into_writer(), vec![0x1F, 0xC8]);
}

#[test]
fn encode_unit_is_empty_sequence_tag() {
    let mut e = encoder();
    e.encode_unit().unwrap();
    assert_eq!(e.into_writer(), vec![0x60]);
}

#[test]
fn encode_none_matches_unit() {
    let mut e = encoder();
    e.encode_none().unwrap();
    assert_eq!(e.into_writer(), vec![0x60]);
}

#[test]
fn encode_some_marks_then_payload() {
    let mut e = encoder();
    e.encode_some().unwrap();
    e.encode_u8(1).unwrap();
    assert_eq!(e.into_writer(), vec![0x61, 0x01]);
}

#[test]
fn encode_empty_bytes_is_bare_prefix_tag() {
    let mut e = encoder();
    e.encode_bytes(&[]).unwrap();
    assert_eq!(e.into_writer(), vec![0x20]);
}

#[test]
fn encode_bytes_embeds_small_length() {
    let mut e = encoder();
    e.encode_bytes("hi".as_bytes()).unwrap();
    assert_eq!(e.into_writer(), vec![0x22, 0x68, 0x69]);
}

#[test]
fn encode_string_is_utf8_bytes() {
    let mut e = encoder();
    e.encode_string("hi").unwrap();
    assert_eq!(e.into_writer(), vec![0x22, 0x68, 0x69]);
}

#[test]
fn encode_sequence_of_two_bytes() {
    let mut e = encoder();
    e.encode_sequence(2).unwrap();
    e.encode_u8(1).unwrap();
    e.encode_u8(2).unwrap();
    assert_eq!(e.into_writer(), vec![0x62, 0x01, 0x02]);
}

#[test]
fn encode_variant_tag_and_body() {
    let mut e = encoder();
    e.encode_variant().unwrap();
    e.encode_u8(3).unwrap();
    e.encode_bool(false).unwrap();
    assert_eq!(e.into_writer(), vec![0x62, 0x03, 0x00]);
}

#[test]
fn encode_map_of_one_pair() {
    let mut e = encoder();
    e.encode_map(1).unwrap();
    e.encode_u8(5).unwrap();
    e.encode_u8(40).unwrap();
    assert_eq!(e.into_writer(), vec![0x62, 0x05, 0x1F, 0x28]);
}

#[test]
fn encode_struct_and_tuple_match_map_layout() {
    let mut s = encoder();
    s.encode_struct(1).unwrap();
    s.encode_u8(5).unwrap();
    s.encode_u8(40).unwrap();
    let mut t = encoder();
    t.encode_tuple(1).unwrap();
    t.encode_u8(5).unwrap();
    t.encode_u8(40).unwrap();
    assert_eq!(s.into_writer(), vec![0x62, 0x05, 0x1F, 0x28]);
    assert_eq!(t.into_writer(), vec![0x62, 0x05, 0x1F, 0x28]);
}

#[test]
fn encode_unit_struct_matches_unit() {
    let mut e = encoder();
    e.encode_unit_struct().unwrap();
    assert_eq!(e.into_writer(), vec![0x60]);
}

#[test]
fn long_length_uses_sentinel_and_varint() {
    let mut e = encoder();
    let payload = [0xAAu8; 40];
    e.encode_bytes(&payload).unwrap();
    let mut expect = vec![0x3F, 40];
    expect.extend_from_slice(&payload);
    assert_eq!(e.into_writer(), expect);
}

#[test]
fn encode_u16_is_width_marked_fixed_le() {
    let mut e = encoder();
    e.encode_u16(0x1234).unwrap();
    assert_eq!(e.into_writer(), vec![0x42, 0x34, 0x12]);
}

#[test]
fn encode_bytes_vectored_concatenates_under_one_prefix() {
    let mut e = encoder();
    let parts = vec![vec![0x68u8], vec![], vec![0x69u8, 0x21]];
    e.encode_bytes_vectored(&parts).unwrap();
    assert_eq!(e.into_writer(), vec![0x23, 0x68, 0x69, 0x21]);
}

#[test]
fn encode_i8_zigzags_before_the_byte_scalar() {
    // -1 zig-zags to 1 and embeds; 15 zig-zags to 30, the last embedded
    // value; i8::MIN zig-zags to 255 and takes the sentinel form.
    let mut e = encoder();
    e.encode_i8(-1).unwrap();
    e.encode_i8(15).unwrap();
    e.encode_i8(i8::MIN).unwrap();
    assert_eq!(e.into_writer(), vec![0x01, 0x1E, 0x1F, 0xFF]);
}

#[test]
fn encode_isize_zigzags_before_the_portable_width() {
    // +1 zig-zags to 2, carried as a width-8 value under the length codec.
    let mut e = encoder();
    e.encode_isize(1).unwrap();
    assert_eq!(e.into_writer(), vec![0x48, 0x02]);
}

#[test]
fn reader_hands_out_borrowed_slices() {
    let mut r = musli::reader::Reader::new(vec![1, 2, 3, 4]);
    let s = r.read_borrowed(3).unwrap();
    assert_eq!(s, &[1, 2, 3][..]);
    assert_eq!(r.pos(), 3);
    assert!(r.read_borrowed(2).is_err());
    assert_eq!(r.pos(), 3);
}
