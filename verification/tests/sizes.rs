//! The size oracle: shape-level bounds and the per-type trait.

use hubpack::max_size;
use hubpack::SerializedSize;
use hubpack::Shape;

#[test]
fn primitive_sizes() {
    assert_eq!(max_size(&Shape::Unit), Some(0));
    assert_eq!(max_size(&Shape::Bool), Some(1));
    assert_eq!(max_size(&Shape::U8), Some(1));
    assert_eq!(max_size(&Shape::U16), Some(2));
    assert_eq!(max_size(&Shape::U32), Some(4));
    assert_eq!(max_size(&Shape::U64), Some(8));
    assert_eq!(max_size(&Shape::U128), Some(16));
    assert_eq!(max_size(&Shape::I8), Some(1));
    assert_eq!(max_size(&Shape::I16), Some(2));
    assert_eq!(max_size(&Shape::I32), Some(4));
    assert_eq!(max_size(&Shape::I64), Some(8));
    assert_eq!(max_size(&Shape::I128), Some(16));
    assert_eq!(max_size(&Shape::F32), Some(4));
    assert_eq!(max_size(&Shape::F64), Some(8));
    assert_eq!(max_size(&Shape::Char), Some(4));
}

#[test]
fn composite_sizes() {
    let option_u8 = Shape::Optional(Box::new(Shape::U8));
    assert_eq!(max_size(&option_u8), Some(2));

    let array = Shape::Array(5, Box::new(Shape::U16));
    assert_eq!(max_size(&array), Some(10));

    let record = Shape::Record(vec![Shape::U8, Shape::U16, Shape::Bool]);
    assert_eq!(max_size(&record), Some(4));

    let choice = Shape::Choice(vec![
        Shape::Unit,
        Shape::Record(vec![Shape::U8, Shape::U16]),
        Shape::Record(vec![Shape::Optional(Box::new(Shape::U16)), Shape::I16]),
    ]);
    assert_eq!(max_size(&choice), Some(6));

    let empty_choice = Shape::Choice(vec![]);
    assert_eq!(max_size(&empty_choice), Some(1));

    let empty_array = Shape::Array(0, Box::new(Shape::U128));
    assert_eq!(max_size(&empty_array), Some(0));
}

#[test]
fn oversized_bound_is_reported() {
    let huge = Shape::Array(usize::MAX, Box::new(Shape::U16));
    assert_eq!(max_size(&huge), None);

    let nested = Shape::Record(vec![
        Shape::Array(usize::MAX, Box::new(Shape::U8)),
        Shape::U8,
    ]);
    assert_eq!(max_size(&nested), None);
}

#[test]
fn trait_primitive_sizes() {
    assert_eq!(<() as SerializedSize>::max_size(), Some(0));
    assert_eq!(<bool as SerializedSize>::max_size(), Some(1));
    assert_eq!(<char as SerializedSize>::max_size(), Some(4));
    assert_eq!(<u8 as SerializedSize>::max_size(), Some(1));
    assert_eq!(<u16 as SerializedSize>::max_size(), Some(2));
    assert_eq!(<u32 as SerializedSize>::max_size(), Some(4));
    assert_eq!(<u64 as SerializedSize>::max_size(), Some(8));
    assert_eq!(<u128 as SerializedSize>::max_size(), Some(16));
    assert_eq!(<i8 as SerializedSize>::max_size(), Some(1));
    assert_eq!(<i16 as SerializedSize>::max_size(), Some(2));
    assert_eq!(<i32 as SerializedSize>::max_size(), Some(4));
    assert_eq!(<i64 as SerializedSize>::max_size(), Some(8));
    assert_eq!(<i128 as SerializedSize>::max_size(), Some(16));
}

#[test]
fn trait_composite_sizes() {
    assert_eq!(<Option<u8> as SerializedSize>::max_size(), Some(2));
    assert_eq!(<Result<u16, u32> as SerializedSize>::max_size(), Some(5));
    assert_eq!(<[u8; 4] as SerializedSize>::max_size(), Some(4));
    assert_eq!(<[u16; 0] as SerializedSize>::max_size(), Some(0));
    assert_eq!(<(u8,) as SerializedSize>::max_size(), Some(1));
    assert_eq!(<(u8, u16) as SerializedSize>::max_size(), Some(3));
    assert_eq!(<(u8, u16, bool) as SerializedSize>::max_size(), Some(4));
    assert_eq!(
        <Option<(u8, u16, bool)> as SerializedSize>::max_size(),
        Some(5)
    );
}
