//! The data model and the wire format.
//!
//! A [`Shape`] describes a type: one of the closed set of supported type
//! shapes. A [`Value`] is one concrete value of such a type. The wire format
//! is given by the spec function [`wire`], which maps a value to the exact
//! byte sequence that encodes it:
//!
//! - unit and zero-field records: no bytes;
//! - an N-bit integer: N/8 bytes, little-endian, two's-complement for signed;
//! - a boolean: one byte, `0` or `1`;
//! - 32-bit and 64-bit IEEE-754 floats: their raw bit patterns, 4 or 8 bytes
//!   little-endian (the model carries the bits as unsigned integers);
//! - an option: a one-byte presence tag, then the inner encoding if present;
//! - a fixed array or a record: the elements' encodings concatenated in
//!   declared order, with no length prefix and no field names;
//! - an enum value: one byte holding the 0-based variant index, then the
//!   payload's encoding.

use vstd::bytes::*;
use vstd::prelude::*;

verus! {

/// The shape of a type: the closed set of type structures the codec supports,
/// plus `Char`, which is deliberately carried along only to be rejected.
///
/// Runtime-length sequences, maps and strings never enter the model at all.
#[derive(Debug, PartialEq, Eq)]
pub enum Shape {
    /// The unit type; zero bytes on the wire.
    Unit,
    /// A boolean.
    Bool,
    /// Unsigned integers, 8 to 128 bits.
    U8,
    U16,
    U32,
    U64,
    U128,
    /// Signed integers, 8 to 128 bits.
    I8,
    I16,
    I32,
    I64,
    I128,
    /// A 32-bit IEEE-754 float, carried as its raw bit pattern.
    F32,
    /// A 64-bit IEEE-754 float, carried as its raw bit pattern.
    F64,
    /// A single Unicode scalar value. Never encodable: the codec rejects it
    /// with `NotSupported`.
    Char,
    /// An optional value of the inner shape.
    Optional(Box<Shape>),
    /// Exactly N repetitions of one inner shape; N is part of the type.
    Array(usize, Box<Shape>),
    /// A tuple or struct: an ordered, fixed sequence of field shapes.
    Record(Vec<Shape>),
    /// A closed sum type: the payload shapes of its variants, in order.
    /// At most 256 variants are representable on the wire.
    Choice(Vec<Shape>),
}

/// One concrete value of a [`Shape`].
#[derive(Debug, PartialEq, Eq)]
pub enum Value {
    /// The unit value.
    Unit,
    /// A boolean.
    Bool(bool),
    U8(u8),
    U16(u16),
    U32(u32),
    U64(u64),
    U128(u128),
    I8(i8),
    I16(i16),
    I32(i32),
    I64(i64),
    I128(i128),
    /// The raw bit pattern of a 32-bit IEEE-754 float.
    F32Bits(u32),
    /// The raw bit pattern of a 64-bit IEEE-754 float.
    F64Bits(u64),
    /// A single Unicode scalar value. Never encodable.
    Char(char),
    /// An optional value.
    Maybe(Option<Box<Value>>),
    /// A fixed array's elements, in order.
    Array(ValueList),
    /// A tuple's or struct's field values, in declared order.
    Record(ValueList),
    /// An enum value: the 0-based variant index and the variant's payload.
    Variant(u32, Box<Value>),
}

/// An ordered list of values: the elements of an array or the fields of a
/// record, in declared order.
#[derive(Debug, PartialEq, Eq)]
pub enum ValueList {
    /// The empty list.
    Nil,
    /// A head value followed by the rest of the list.
    Cons(Box<Value>, Box<ValueList>),
}

/// The number of values in a list.
pub open spec fn vlist_len(l: ValueList) -> nat
    decreases l,
{
    match l {
        ValueList::Nil => 0,
        ValueList::Cons(head, tail) => 1 + vlist_len(*tail),
    }
}

/// Whether a type shape is well formed: it contains no unsupported shape and
/// every enum within it declares at most 256 variants.
pub open spec fn shape_wf(t: Shape) -> bool
    decreases t, 1int, 0int,
{
    match t {
        Shape::Char => false,
        Shape::Optional(inner) => shape_wf(*inner),
        Shape::Array(_, inner) => shape_wf(*inner),
        Shape::Record(fields) => shape_list_wf(fields@),
        Shape::Choice(variants) => variants@.len() <= 256 && shape_list_wf(variants@),
        _ => true,
    }
}

/// Whether every shape of a list is well formed.
pub open spec fn shape_list_wf(ts: Seq<Shape>) -> bool
    decreases ts, 0int, 0int,
{
    forall|i: int| 0 <= i < ts.len() ==> shape_wf(#[trigger] ts[i])
}

/// Whether a value belongs to a shape: each leaf has the shape's type, arrays
/// have exactly the declared element count, records have the declared fields
/// in order, and an enum value's variant index names one of the declared
/// variants and carries that variant's payload.
pub open spec fn fits(v: Value, t: Shape) -> bool
    decreases v,
{
    match v {
        Value::Unit => t == Shape::Unit,
        Value::Bool(_) => t == Shape::Bool,
        Value::U8(_) => t == Shape::U8,
        Value::U16(_) => t == Shape::U16,
        Value::U32(_) => t == Shape::U32,
        Value::U64(_) => t == Shape::U64,
        Value::U128(_) => t == Shape::U128,
        Value::I8(_) => t == Shape::I8,
        Value::I16(_) => t == Shape::I16,
        Value::I32(_) => t == Shape::I32,
        Value::I64(_) => t == Shape::I64,
        Value::I128(_) => t == Shape::I128,
        Value::F32Bits(_) => t == Shape::F32,
        Value::F64Bits(_) => t == Shape::F64,
        Value::Char(_) => t == Shape::Char,
        Value::Maybe(opt) => match opt {
            Option::None => t is Optional,
            Option::Some(inner) => t matches Shape::Optional(it) && fits(*inner, *it),
        },
        Value::Array(elems) => t matches Shape::Array(n, it) && vlist_len(elems) == n
            && elems_fit(elems, *it),
        Value::Record(fields) => t matches Shape::Record(ts) && fields_fit(fields, ts@),
        Value::Variant(idx, payload) => t matches Shape::Choice(ts) && idx < ts@.len() && fits(
            *payload,
            ts@[idx as int],
        ),
    }
}

/// Whether every element of a list fits one element shape.
pub open spec fn elems_fit(l: ValueList, t: Shape) -> bool
    decreases l,
{
    match l {
        ValueList::Nil => true,
        ValueList::Cons(head, tail) => fits(*head, t) && elems_fit(*tail, t),
    }
}

/// Whether a list of field values matches a list of field shapes, pairwise
/// and exhaustively.
pub open spec fn fields_fit(l: ValueList, ts: Seq<Shape>) -> bool
    decreases l,
{
    match l {
        ValueList::Nil => ts.len() == 0,
        ValueList::Cons(head, tail) => ts.len() > 0 && fits(*head, ts[0]) && fields_fit(
            *tail,
            ts.subrange(1, ts.len() as int),
        ),
    }
}

/// Whether a value can be encoded at all: it contains no `char`, and every
/// enum variant index within it fits the one-byte wire tag.
pub open spec fn encodable(v: Value) -> bool
    decreases v,
{
    match v {
        Value::Char(_) => false,
        Value::Maybe(opt) => match opt {
            Option::None => true,
            Option::Some(inner) => encodable(*inner),
        },
        Value::Array(elems) => list_encodable(elems),
        Value::Record(fields) => list_encodable(fields),
        Value::Variant(idx, payload) => idx <= 255 && encodable(*payload),
        _ => true,
    }
}

/// Whether every value of a list is encodable.
pub open spec fn list_encodable(l: ValueList) -> bool
    decreases l,
{
    match l {
        ValueList::Nil => true,
        ValueList::Cons(head, tail) => encodable(*head) && list_encodable(*tail),
    }
}

/// The wire format: the exact byte sequence that encodes a value.
///
/// Only meaningful for encodable values; a `char` contributes no bytes here
/// because the encoder rejects it before writing anything.
pub open spec fn wire(v: Value) -> Seq<u8>
    decreases v,
{
    match v {
        Value::Unit => Seq::empty(),
        Value::Bool(b) => seq![(if b { 1u8 } else { 0u8 })],
        Value::U8(x) => seq![x],
        Value::U16(x) => spec_u16_to_le_bytes(x),
        Value::U32(x) => spec_u32_to_le_bytes(x),
        Value::U64(x) => spec_u64_to_le_bytes(x),
        Value::U128(x) => spec_u128_to_le_bytes(x),
        Value::I8(x) => seq![x as u8],
        Value::I16(x) => spec_u16_to_le_bytes(x as u16),
        Value::I32(x) => spec_u32_to_le_bytes(x as u32),
        Value::I64(x) => spec_u64_to_le_bytes(x as u64),
        Value::I128(x) => spec_u128_to_le_bytes(x as u128),
        Value::F32Bits(x) => spec_u32_to_le_bytes(x),
        Value::F64Bits(x) => spec_u64_to_le_bytes(x),
        Value::Char(_) => Seq::empty(),
        Value::Maybe(opt) => match opt {
            Option::None => seq![0u8],
            Option::Some(inner) => seq![1u8] + wire(*inner),
        },
        Value::Array(elems) => wire_list(elems),
        Value::Record(fields) => wire_list(fields),
        Value::Variant(idx, payload) => seq![idx as u8] + wire(*payload),
    }
}

/// The concatenation of the encodings of a list of values, in order.
pub open spec fn wire_list(l: ValueList) -> Seq<u8>
    decreases l,
{
    match l {
        ValueList::Nil => Seq::empty(),
        ValueList::Cons(head, tail) => wire(*head) + wire_list(*tail),
    }
}

/// The maximum number of bytes the wire format can produce for any value of a
/// shape: the size oracle's composition rules, stated over unbounded integers.
pub open spec fn spec_max_size(t: Shape) -> int
    decreases t, 1int, 0int,
{
    match t {
        Shape::Unit => 0,
        Shape::Bool => 1,
        Shape::U8 => 1,
        Shape::U16 => 2,
        Shape::U32 => 4,
        Shape::U64 => 8,
        Shape::U128 => 16,
        Shape::I8 => 1,
        Shape::I16 => 2,
        Shape::I32 => 4,
        Shape::I64 => 8,
        Shape::I128 => 16,
        Shape::F32 => 4,
        Shape::F64 => 8,
        Shape::Char => 4,
        Shape::Optional(inner) => 1 + spec_max_size(*inner),
        Shape::Array(n, inner) => n * spec_max_size(*inner),
        Shape::Record(fields) => sum_max_size(fields@),
        Shape::Choice(variants) => 1 + max_of_max_sizes(variants@),
    }
}

/// The sum of the maximum sizes of a list of field shapes.
pub open spec fn sum_max_size(ts: Seq<Shape>) -> int
    decreases ts, 0int, 0int,
{
    if ts.len() == 0 {
        0
    } else {
        spec_max_size(ts[0]) + sum_max_size(ts.subrange(1, ts.len() as int))
    }
}

/// The largest maximum size among a list of variant payload shapes, or 0 for
/// an empty list: a unit payload contributes 0.
pub open spec fn max_of_max_sizes(ts: Seq<Shape>) -> int
    decreases ts, 0int, 0int,
{
    if ts.len() == 0 {
        0
    } else {
        let rest = max_of_max_sizes(ts.subrange(1, ts.len() as int));
        if spec_max_size(ts[0]) >= rest {
            spec_max_size(ts[0])
        } else {
            rest
        }
    }
}

/// The elements of a value list, as a sequence.
pub open spec fn vlist_seq(l: ValueList) -> Seq<Value>
    decreases l,
{
    match l {
        ValueList::Nil => Seq::empty(),
        ValueList::Cons(head, tail) => seq![*head] + vlist_seq(*tail),
    }
}

/// Builds a value list from a vector of values, keeping their order.
pub fn vlist_from_vec(vs: Vec<Value>) -> (l: ValueList)
    ensures
        vlist_seq(l) == vs@,
{
    let mut rest = vs;
    let mut l = ValueList::Nil;
    let ghost all = rest@;
    proof {
        assert(vlist_seq(l) =~= all.skip(all.len() as int));
    }
    while rest.len() > 0
        invariant
            rest@.len() <= all.len(),
            rest@ == all.take(rest@.len() as int),
            vlist_seq(l) == all.skip(rest@.len() as int),
        decreases rest@.len(),
    {
        let ghost k = rest@.len() as int;
        let v = rest.pop().unwrap();
        l = ValueList::Cons(Box::new(v), Box::new(l));
        proof {
            assert(rest@ =~= all.take(k - 1));
            assert(v == all[k - 1]);
            assert(vlist_seq(l) =~= all.skip(k - 1));
        }
    }
    proof {
        assert(vlist_seq(l) =~= all);
    }
    l
}

} // verus!
