//! The error taxonomy: each failure produced by the input that provokes it,
//! and the exact buffer-size boundary.

use hubpack::check_shape;
use hubpack::deserialize;
use hubpack::max_size;
use hubpack::serialize;
use hubpack::wire::vlist_from_vec;
use hubpack::Error;
use hubpack::Shape;
use hubpack::Value;

#[test]
fn overrun_when_buffer_too_small() {
    let mut buf = vec![0u8; 1];
    assert_eq!(serialize(&mut buf, &Value::U16(7)), Err(Error::Overrun));
}

#[test]
fn buffer_boundary_is_exact() {
    // A maximal-size value: every field of fixed width, so its encoding
    // always hits the oracle's bound.
    let shape = Shape::Record(vec![Shape::U8, Shape::U16, Shape::Bool]);
    let value = Value::Record(vlist_from_vec(vec![
        Value::U8(0xFF),
        Value::U16(0xFFFF),
        Value::Bool(true),
    ]));
    let max = max_size(&shape).unwrap();

    let mut short = vec![0u8; max - 1];
    assert_eq!(serialize(&mut short, &value), Err(Error::Overrun));

    let mut exact = vec![0u8; max];
    assert_eq!(serialize(&mut exact, &value), Ok(max));
}

#[test]
fn boundary_with_present_option() {
    let shape = Shape::Optional(Box::new(Shape::U32));
    let value = Value::Maybe(Some(Box::new(Value::U32(0xFFFF_FFFF))));
    let max = max_size(&shape).unwrap();
    assert_eq!(max, 5);

    let mut short = vec![0u8; max - 1];
    assert_eq!(serialize(&mut short, &value), Err(Error::Overrun));

    let mut exact = vec![0u8; max];
    assert_eq!(serialize(&mut exact, &value), Ok(max));
}

#[test]
fn enum_with_256_variants_round_trips_index_255() {
    let mut variants = Vec::new();
    for _ in 0..256 {
        variants.push(Shape::Unit);
    }
    let shape = Shape::Choice(variants);
    assert_eq!(check_shape(&shape), Ok(()));
    let value = Value::Variant(255, Box::new(Value::Unit));

    let mut buf = vec![0u8; max_size(&shape).unwrap()];
    let n = serialize(&mut buf, &value).unwrap();
    assert_eq!(n, 1);
    assert_eq!(buf[0], 255);

    let (out, rest) = deserialize(&shape, &buf).unwrap();
    assert_eq!(out, value);
    assert!(rest.is_empty());
}

#[test]
fn enum_with_257_variants_is_rejected() {
    let mut variants = Vec::new();
    for _ in 0..257 {
        variants.push(Shape::Unit);
    }
    let shape = Shape::Choice(variants);
    assert_eq!(check_shape(&shape), Err(Error::TooManyVariants));
}

#[test]
fn variant_index_above_255_fails_before_payload() {
    let mut buf = vec![0xEEu8; 8];
    let value = Value::Variant(256, Box::new(Value::U16(1)));
    assert_eq!(serialize(&mut buf, &value), Err(Error::TooManyVariants));
    // Rejected before any write: the buffer is untouched.
    assert_eq!(buf, vec![0xEEu8; 8]);
}

#[test]
fn corrupt_boolean_byte_is_invalid() {
    assert_eq!(deserialize(&Shape::Bool, &[2]), Err(Error::Invalid));
    assert_eq!(deserialize(&Shape::Bool, &[39]), Err(Error::Invalid));
}

#[test]
fn corrupt_presence_tag_is_invalid() {
    let shape = Shape::Optional(Box::new(Shape::U8));
    assert_eq!(deserialize(&shape, &[2, 0xAA]), Err(Error::Invalid));
}

#[test]
fn unknown_variant_index_is_invalid() {
    let shape = Shape::Choice(vec![Shape::Unit, Shape::U8]);
    assert_eq!(deserialize(&shape, &[2, 0]), Err(Error::Invalid));
}

#[test]
fn truncated_u32_from_empty_slice() {
    assert_eq!(deserialize(&Shape::U32, &[]), Err(Error::Truncated));
}

#[test]
fn truncated_mid_value() {
    assert_eq!(deserialize(&Shape::U32, &[1, 2, 3]), Err(Error::Truncated));
    let shape = Shape::Optional(Box::new(Shape::U16));
    assert_eq!(deserialize(&shape, &[1, 0xAA]), Err(Error::Truncated));
}

#[test]
fn char_is_not_supported() {
    let mut buf = vec![0xEEu8; 8];
    assert_eq!(serialize(&mut buf, &Value::Char('x')), Err(Error::NotSupported));
    // Rejected before any write: the buffer is untouched.
    assert_eq!(buf, vec![0xEEu8; 8]);
    assert_eq!(deserialize(&Shape::Char, &[0, 0, 0, 0]), Err(Error::NotSupported));
    assert_eq!(check_shape(&Shape::Char), Err(Error::NotSupported));
}

#[test]
fn char_inside_a_record_is_rejected() {
    let shape = Shape::Record(vec![Shape::U8, Shape::Char]);
    assert_eq!(check_shape(&shape), Err(Error::NotSupported));

    let mut buf = vec![0u8; 8];
    let value = Value::Record(vlist_from_vec(vec![Value::U8(1), Value::Char('y')]));
    assert_eq!(serialize(&mut buf, &value), Err(Error::NotSupported));
}

#[test]
fn first_error_wins_over_later_bytes() {
    // The u64 field overruns the buffer before the char is ever reached.
    let value = Value::Record(vlist_from_vec(vec![
        Value::U64(1),
        Value::Char('z'),
    ]));
    let mut small = vec![0xEEu8; 3];
    assert_eq!(serialize(&mut small, &value), Err(Error::Overrun));
    // The failed write attempted the u64 as a whole: no byte of it landed.
    assert_eq!(small, vec![0xEEu8; 3]);
}

#[test]
fn error_messages() {
    assert_eq!(Error::Truncated.message(), "truncated");
    assert_eq!(Error::Overrun.message(), "serialization buffer too small");
    assert_eq!(
        Error::TooManyVariants.message(),
        "too many enum variants (format only supports 256)"
    );
    assert_eq!(Error::NotSupported.message(), "type not supported");
    assert_eq!(Error::Invalid.message(), "invalid/corrupt");
    assert_eq!(Error::Custom.message(), "Custom");
}
