//! The low-level cursor types, exercised directly.

use hubpack::Deserializer;
use hubpack::Error;
use hubpack::Serializer;

#[test]
fn serializer_writes_little_endian_at_cursor() {
    let mut s = Serializer {
        buf: vec![0u8; 8],
        pos: 0,
    };
    s.write_u8(0x01).unwrap();
    s.write_u16(0x2345).unwrap();
    s.write_u32(0x6789_ABCD).unwrap();
    assert_eq!(s.pos, 7);
    assert_eq!(&s.buf[..7], &[0x01, 0x45, 0x23, 0xCD, 0xAB, 0x89, 0x67]);
    assert_eq!(s.write_u16(0xFFFF), Err(Error::Overrun));
}

#[test]
fn serializer_reserves_ranges() {
    let mut s = Serializer {
        buf: vec![0u8; 4],
        pos: 0,
    };
    assert_eq!(s.get_ary_mut(3), Ok(0));
    assert_eq!(s.pos, 3);
    assert_eq!(s.get_ary_mut(2), Err(Error::Overrun));
    assert_eq!(s.get_ary_mut(1), Ok(3));
}

#[test]
fn serializer_checks_variant_index() {
    let mut s = Serializer {
        buf: vec![0u8; 4],
        pos: 0,
    };
    assert_eq!(s.write_variant(256), Err(Error::TooManyVariants));
    assert_eq!(s.pos, 0);
    s.write_variant(255).unwrap();
    assert_eq!(s.buf[0], 255);
}

#[test]
fn serializer_wide_writes() {
    let mut s = Serializer {
        buf: vec![0u8; 24],
        pos: 0,
    };
    s.write_u64(0x1122_3344_5566_7788).unwrap();
    assert_eq!(&s.buf[..8], &[0x88, 0x77, 0x66, 0x55, 0x44, 0x33, 0x22, 0x11]);
    s.write_u128(1).unwrap();
    assert_eq!(s.buf[8], 1);
    assert_eq!(&s.buf[9..24], &[0u8; 15][..]);
}

#[test]
fn deserializer_takes_in_order() {
    let bytes = [0x01u8, 0x45, 0x23, 0xCD, 0xAB, 0x89, 0x67, 0xFF];
    let mut d = Deserializer { data: &bytes };
    assert_eq!(d.take_u8(), Ok(0x01));
    assert_eq!(d.take_u16(), Ok(0x2345));
    assert_eq!(d.take_u32(), Ok(0x6789_ABCD));
    assert_eq!(d.data, &[0xFF][..]);
    assert_eq!(d.take_u16(), Err(Error::Truncated));
}

#[test]
fn deserializer_takes_chunks() {
    let bytes = [1u8, 2, 3, 4, 5];
    let mut d = Deserializer { data: &bytes };
    assert_eq!(d.take_ary(3), Ok(&[1u8, 2, 3][..]));
    assert_eq!(d.take_ary(3), Err(Error::Truncated));
    assert_eq!(d.take_ary(2), Ok(&[4u8, 5][..]));
}

#[test]
fn deserializer_wide_reads() {
    let bytes = [0x88u8, 0x77, 0x66, 0x55, 0x44, 0x33, 0x22, 0x11];
    let mut d = Deserializer { data: &bytes };
    assert_eq!(d.take_u64(), Ok(0x1122_3344_5566_7788));
    let wide = [0xFFu8; 16];
    let mut d = Deserializer { data: &wide };
    assert_eq!(d.take_u128(), Ok(u128::MAX));
}
