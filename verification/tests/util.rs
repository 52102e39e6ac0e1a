use mpxrust::util::{get_i32, get_u16, get_u32, get_u64, get_unicode_string};

#[test]
fn primitives() {
    let d = [0x01, 0x00, 0xFF, 0xFF, 0xFF, 0xFF];
    assert_eq!(get_u16(&d, 0), Some(1));
    assert_eq!(get_i32(&d, 2), Some(-1));
    assert_eq!(get_i32(&d, 4), None);
}

#[test]
fn primitives_are_little_endian_and_bounded() {
    let d = [0x78, 0x56, 0x34, 0x12, 0xF0, 0xDE, 0xBC, 0x9A];
    assert_eq!(get_u32(&d, 0), Some(0x1234_5678));
    assert_eq!(get_u64(&d, 0), Some(0x9ABC_DEF0_1234_5678));
    assert_eq!(get_u16(&d, 7), None);
    assert_eq!(get_u32(&d, 5), None);
    assert_eq!(get_u64(&d, 1), None);
    assert_eq!(get_u16(&d, usize::MAX), None);
}

#[test]
fn unicode_string_with_terminator_and_accents() {
    let mut d: Vec<u8> = "Año".encode_utf16().flat_map(u16::to_le_bytes).collect();
    d.extend([0x00, 0x00, 0xAB, 0xCD]);
    assert_eq!(get_unicode_string(&d, 0).as_deref(), Some("Año"));
}

#[test]
fn unicode_string_without_terminator() {
    let d: Vec<u8> = "abc".encode_utf16().flat_map(u16::to_le_bytes).collect();
    assert_eq!(get_unicode_string(&d, 0).as_deref(), Some("abc"));
}

#[test]
fn unicode_string_edges() {
    let d: Vec<u8> = "😀x".encode_utf16().flat_map(u16::to_le_bytes).collect();
    assert_eq!(get_unicode_string(&d, 0).as_deref(), Some("😀x"));
    assert_eq!(get_unicode_string(&[0x00, 0xD8, 0x41, 0x00], 0), None);
    assert_eq!(get_unicode_string(&[0x41, 0x00, 0x42], 0).as_deref(), Some("A"));
    assert_eq!(get_unicode_string(&[0x41, 0x00], 2).as_deref(), Some(""));
    assert_eq!(get_unicode_string(&[0x41, 0x00], 3), None);
}
