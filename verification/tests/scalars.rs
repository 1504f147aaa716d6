use source_assets::bytes::i32_from_slice;
use source_assets::FromSlice;

#[test]
fn i32_little_endian_values() {
    assert_eq!(i32_from_slice(&[1, 0, 0, 0]), Some(1));
    assert_eq!(i32_from_slice(&[0x78, 0x56, 0x34, 0x12]), Some(0x12345678));
    assert_eq!(i32_from_slice(&[0xff, 0xff, 0xff, 0xff]), Some(-1));
    assert_eq!(i32_from_slice(&[0, 0, 0, 0x80]), Some(i32::MIN));
    assert_eq!(i32_from_slice(&[1, 0, 0]), None);
    assert_eq!(i32_from_slice(&[1, 0, 0, 0, 0]), None);
}

#[test]
fn u16_and_i16_little_endian_values() {
    assert_eq!(u16::from_u8_slice(&[0x34, 0x12]), Some(0x1234));
    assert_eq!(u16::from_u8_slice(&[0xff, 0xff]), Some(0xffff));
    assert_eq!(u16::from_u8_slice(&[1]), None);
    assert_eq!(i16::from_u8_slice(&[0xff, 0xff]), Some(-1));
    assert_eq!(i16::from_u8_slice(&[0x00, 0x80]), Some(i16::MIN));
    assert_eq!(i16::from_u8_slice(&[0x34, 0x12]), Some(0x1234));
}
