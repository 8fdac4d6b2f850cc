//! Round trips and exact wire bytes for every supported shape.

use hubpack::deserialize;
use hubpack::max_size;
use hubpack::serialize;
use hubpack::wire::vlist_from_vec;
use hubpack::Shape;
use hubpack::Value;

/// Encodes `value` into a buffer sized by the oracle (plus padding), decodes
/// it back, and checks the value survives, the byte count matches, and the
/// oracle's bound holds.
fn round_trip(shape: &Shape, value: &Value) {
    const PAD: usize = 3;
    let max = max_size(shape).unwrap();
    let mut buf = vec![0u8; max + PAD];
    let n = serialize(&mut buf, value).unwrap();
    assert!(n <= max);
    let (out, rest) = deserialize(shape, &buf).unwrap();
    assert_eq!(&out, value);
    assert_eq!(buf.len() - rest.len(), n);
}

fn record(values: Vec<Value>) -> Value {
    Value::Record(vlist_from_vec(values))
}

#[test]
fn rt_unit() {
    round_trip(&Shape::Unit, &Value::Unit);
}

#[test]
fn rt_u8() {
    round_trip(&Shape::U8, &Value::U8(42));
}

#[test]
fn rt_u16() {
    round_trip(&Shape::U16, &Value::U16(0xDEAD));
}

#[test]
fn rt_u32() {
    round_trip(&Shape::U32, &Value::U32(0xDEAD_BEEF));
}

#[test]
fn rt_u64() {
    round_trip(&Shape::U64, &Value::U64(0xDEAD_BEEF_CAFE_D00D));
}

#[test]
fn rt_u128() {
    round_trip(
        &Shape::U128,
        &Value::U128(0xDEAD_BEEF_CAFE_D00D_1234_5678_ABCD_EF00),
    );
}

#[test]
fn rt_i8() {
    round_trip(&Shape::I8, &Value::I8(-42));
}

#[test]
fn rt_i16() {
    round_trip(&Shape::I16, &Value::I16(-0x4EAD));
}

#[test]
fn rt_i32() {
    round_trip(&Shape::I32, &Value::I32(-0x4EAD_BEEF));
}

#[test]
fn rt_i64() {
    round_trip(&Shape::I64, &Value::I64(-0x4EAD_BEEF_CAFE_D00D));
}

#[test]
fn rt_i128() {
    round_trip(
        &Shape::I128,
        &Value::I128(-0x4EAD_BEEF_CAFE_D00D_1234_5678_ABCD_EF00),
    );
}

#[test]
fn rt_f32_bits() {
    round_trip(&Shape::F32, &Value::F32Bits(core::f32::consts::PI.to_bits()));
}

#[test]
fn rt_f64_bits() {
    round_trip(&Shape::F64, &Value::F64Bits(core::f64::consts::PI.to_bits()));
}

#[test]
fn rt_true() {
    round_trip(&Shape::Bool, &Value::Bool(true));
}

#[test]
fn rt_false() {
    round_trip(&Shape::Bool, &Value::Bool(false));
}

#[test]
fn rt_option_u8_none() {
    let shape = Shape::Optional(Box::new(Shape::U8));
    round_trip(&shape, &Value::Maybe(None));
}

#[test]
fn rt_option_u8_some() {
    let shape = Shape::Optional(Box::new(Shape::U8));
    round_trip(&shape, &Value::Maybe(Some(Box::new(Value::U8(0xAA)))));
}

#[test]
fn rt_tuple() {
    let shape = Shape::Record(vec![Shape::U8, Shape::U16, Shape::Bool]);
    let value = record(vec![Value::U8(55), Value::U16(0xCAFE), Value::Bool(false)]);
    round_trip(&shape, &value);
}

#[test]
fn rt_unit_struct() {
    round_trip(&Shape::Record(vec![]), &record(vec![]));
}

#[test]
fn rt_tuple_struct() {
    let shape = Shape::Record(vec![Shape::U8, Shape::U32]);
    let value = record(vec![Value::U8(12), Value::U32(345678)]);
    round_trip(&shape, &value);
}

#[test]
fn rt_struct() {
    let shape = Shape::Record(vec![Shape::Optional(Box::new(Shape::U16)), Shape::I16]);
    let value = record(vec![
        Value::Maybe(Some(Box::new(Value::U16(0xF00D)))),
        Value::I16(-30),
    ]);
    round_trip(&shape, &value);
}

fn sample_enum_shape() -> Shape {
    Shape::Choice(vec![
        Shape::Unit,
        Shape::Record(vec![Shape::U8, Shape::U16]),
        Shape::Record(vec![Shape::Optional(Box::new(Shape::U16)), Shape::I16]),
    ])
}

#[test]
fn rt_enum_unit() {
    round_trip(&sample_enum_shape(), &Value::Variant(0, Box::new(Value::Unit)));
}

#[test]
fn rt_enum_tuple() {
    let value = Value::Variant(1, Box::new(record(vec![Value::U8(12), Value::U16(3456)])));
    round_trip(&sample_enum_shape(), &value);
}

#[test]
fn rt_enum_struct() {
    let value = Value::Variant(
        2,
        Box::new(record(vec![
            Value::Maybe(Some(Box::new(Value::U16(0xF00D)))),
            Value::I16(-12),
        ])),
    );
    round_trip(&sample_enum_shape(), &value);
}

#[test]
fn rt_array() {
    let shape = Shape::Array(3, Box::new(Shape::U16));
    let value = Value::Array(vlist_from_vec(vec![
        Value::U16(1),
        Value::U16(0xFFFF),
        Value::U16(0x1234),
    ]));
    round_trip(&shape, &value);
}

#[test]
fn bytes_u8() {
    let mut buf = vec![0u8; 1];
    let n = serialize(&mut buf, &Value::U8(42)).unwrap();
    assert_eq!(n, 1);
    assert_eq!(&buf[..n], &[42]);
    assert_eq!(max_size(&Shape::U8), Some(1));
}

#[test]
fn bytes_u16_little_endian() {
    let mut buf = vec![0u8; 2];
    let n = serialize(&mut buf, &Value::U16(0xDEAD)).unwrap();
    assert_eq!(n, 2);
    assert_eq!(&buf[..n], &[0xAD, 0xDE]);
    assert_eq!(max_size(&Shape::U16), Some(2));
}

#[test]
fn bytes_option_u8() {
    let shape = Shape::Optional(Box::new(Shape::U8));
    let mut buf = vec![0u8; 2];
    let n = serialize(&mut buf, &Value::Maybe(Some(Box::new(Value::U8(0xAA))))).unwrap();
    assert_eq!(n, 2);
    assert_eq!(&buf[..n], &[1, 0xAA]);

    let mut buf = vec![0u8; 2];
    let n = serialize(&mut buf, &Value::Maybe(None)).unwrap();
    assert_eq!(n, 1);
    assert_eq!(&buf[..n], &[0]);

    assert_eq!(max_size(&shape), Some(2));
}

#[test]
fn bytes_tuple() {
    let shape = Shape::Record(vec![Shape::U8, Shape::U16, Shape::Bool]);
    let value = record(vec![Value::U8(55), Value::U16(0xCAFE), Value::Bool(false)]);
    let mut buf = vec![0u8; 4];
    let n = serialize(&mut buf, &value).unwrap();
    assert_eq!(n, 4);
    assert_eq!(&buf[..n], &[55, 0xFE, 0xCA, 0]);
    assert_eq!(max_size(&shape), Some(4));
}

#[test]
fn bytes_enum_struct_variant() {
    let shape = sample_enum_shape();
    let value = Value::Variant(
        2,
        Box::new(record(vec![
            Value::Maybe(Some(Box::new(Value::U16(0xF00D)))),
            Value::I16(-12),
        ])),
    );
    let mut buf = vec![0u8; 6];
    let n = serialize(&mut buf, &value).unwrap();
    assert_eq!(n, 6);
    assert_eq!(&buf[..n], &[2, 1, 0x0D, 0xF0, 0xF4, 0xFF]);
    assert_eq!(max_size(&shape), Some(6));
}

#[test]
fn trailing_bytes_are_returned() {
    let mut buf = vec![0u8; 5];
    let n = serialize(&mut buf, &Value::U16(0x0102)).unwrap();
    assert_eq!(n, 2);
    let (out, rest) = deserialize(&Shape::U16, &buf).unwrap();
    assert_eq!(out, Value::U16(0x0102));
    assert_eq!(rest, &[0u8, 0, 0][..]);
}

#[test]
fn concatenated_values_decode_in_sequence() {
    let mut buf = vec![0u8; 16];
    let n1 = serialize(&mut buf, &Value::U16(0xBEEF)).unwrap();
    let mut second = vec![0u8; 16 - n1];
    let n2 = serialize(&mut second, &Value::Bool(true)).unwrap();
    buf[n1..n1 + n2].copy_from_slice(&second[..n2]);

    let (v1, rest) = deserialize(&Shape::U16, &buf).unwrap();
    assert_eq!(v1, Value::U16(0xBEEF));
    let (v2, rest2) = deserialize(&Shape::Bool, rest).unwrap();
    assert_eq!(v2, Value::Bool(true));
    assert_eq!(rest2.len(), 16 - n1 - n2);
}
