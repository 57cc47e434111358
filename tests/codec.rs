use passbuddy::codec::{decode_text, encode_text, push_u16_le, push_u32_le, u16_at, u32_at};

#[test]
fn u32_is_little_endian() {
    let mut out = Vec::new();
    push_u32_le(&mut out, 0x9AA2D903);
    assert_eq!(out, vec![0x03, 0xD9, 0xA2, 0x9A]);
    assert_eq!(u32_at(&out, 0), 0x9AA2D903);
}

#[test]
fn u16_is_little_endian() {
    let mut out = vec![0xAA];
    push_u16_le(&mut out, 0x0102);
    assert_eq!(out, vec![0xAA, 0x02, 0x01]);
    assert_eq!(u16_at(&out, 1), 0x0102);
}

#[test]
fn text_is_zero_padded() {
    let field: [u8; 8] = encode_text("abc");
    assert_eq!(field, [b'a', b'b', b'c', 0, 0, 0, 0, 0]);
    assert_eq!(decode_text(&field), "abc");
}

#[test]
fn long_text_is_truncated_silently() {
    let field: [u8; 4] = encode_text("password");
    assert_eq!(field, *b"pass");
    assert_eq!(decode_text(&field), "pass");
}

#[test]
fn empty_text_is_all_zero() {
    let field: [u8; 64] = encode_text("");
    assert!(field.iter().all(|b| *b == 0));
    assert_eq!(decode_text(&field), "");
}

#[test]
fn decode_stops_at_first_zero() {
    let field = [b'h', b'i', 0, b'x', b'y'];
    assert_eq!(decode_text(&field), "hi");
}

#[test]
fn invalid_utf8_reads_as_empty() {
    let field = [0xFF, 0xFE, b'a', 0];
    assert_eq!(decode_text(&field), "");
}

#[test]
fn multibyte_text_round_trips() {
    let field: [u8; 16] = encode_text("ñandú");
    assert_eq!(decode_text(&field), "ñandú");
}

#[test]
fn truncation_inside_a_character_reads_as_empty() {
    // "añ" is 'a', 0xC3, 0xB1: cutting at two bytes splits the second character.
    let field: [u8; 2] = encode_text("añ");
    assert_eq!(field, [b'a', 0xC3]);
    assert_eq!(decode_text(&field), "");
}
