//! The format's governing laws, proved once and for all: decoding inverts
//! encoding, encodings never exceed the size oracle's bound, values decode
//! independently from concatenated input, and the size oracle's bound is
//! tight for maximal values.

use vstd::bytes::*;
use vstd::prelude::*;

use crate::de::de_array;
use crate::de::de_list;
use crate::de::de_s;
use crate::error::Error;
use crate::ser::lemma_ser_outcome;
use crate::ser::ser_s;
use crate::size::lemma_max_size_nonneg;
use crate::wire::elems_fit;
use crate::wire::encodable;
use crate::wire::fields_fit;
use crate::wire::fits;
use crate::wire::list_encodable;
use crate::wire::max_of_max_sizes;
use crate::wire::shape_list_wf;
use crate::wire::shape_wf;
use crate::wire::spec_max_size;
use crate::wire::sum_max_size;
use crate::wire::vlist_len;
use crate::wire::wire;
use crate::wire::wire_list;
use crate::wire::Shape;
use crate::wire::Value;
use crate::wire::ValueList;

verus! {

/// The head and tail of a nonempty well-formed shape list are well formed.
proof fn lemma_shape_list_wf_parts(ts: Seq<Shape>)
    requires
        ts.len() > 0,
        shape_list_wf(ts),
    ensures
        shape_wf(ts[0]),
        shape_list_wf(ts.subrange(1, ts.len() as int)),
{
    let rest = ts.subrange(1, ts.len() as int);
    assert forall|i: int| 0 <= i < rest.len() implies shape_wf(#[trigger] rest[i]) by {
        assert(rest[i] == ts[i + 1]);
    }
}

/// Every value of a well-formed shape is encodable: a well-formed shape
/// holds no `char` and no enum wide enough to overflow the one-byte tag.
pub proof fn lemma_fits_encodable(t: Shape, v: Value)
    requires
        shape_wf(t),
        fits(v, t),
    ensures
        encodable(v),
    decreases v,
{
    match v {
        Value::Maybe(opt) => match opt {
            Option::Some(inner) => {
                let it = t->Optional_0;
                lemma_fits_encodable(*it, *inner);
            },
            Option::None => (),
        },
        Value::Array(elems) => {
            let it = t->Array_1;
            lemma_elems_fit_encodable(*it, elems);
        },
        Value::Record(fields) => {
            let ts = t->Record_0;
            lemma_fields_fit_encodable(ts@, fields);
        },
        Value::Variant(idx, payload) => {
            let ts = t->Choice_0;
            assert(shape_list_wf(ts@));
            assert((idx as int) < ts@.len());
            assert(shape_wf(ts@[idx as int]));
            lemma_fits_encodable(ts@[idx as int], *payload);
        },
        _ => (),
    }
}

/// The array-elements form of [`lemma_fits_encodable`].
proof fn lemma_elems_fit_encodable(t: Shape, l: ValueList)
    requires
        shape_wf(t),
        elems_fit(l, t),
    ensures
        list_encodable(l),
    decreases l,
{
    match l {
        ValueList::Nil => (),
        ValueList::Cons(head, tail) => {
            lemma_fits_encodable(t, *head);
            lemma_elems_fit_encodable(t, *tail);
        },
    }
}

/// The record-fields form of [`lemma_fits_encodable`].
proof fn lemma_fields_fit_encodable(ts: Seq<Shape>, l: ValueList)
    requires
        shape_list_wf(ts),
        fields_fit(l, ts),
    ensures
        list_encodable(l),
    decreases l,
{
    match l {
        ValueList::Nil => (),
        ValueList::Cons(head, tail) => {
            lemma_shape_list_wf_parts(ts);
            lemma_fits_encodable(ts[0], *head);
            lemma_fields_fit_encodable(ts.subrange(1, ts.len() as int), *tail);
        },
    }
}

/// Each variant payload's maximum size is within the maximum over the list.
proof fn lemma_max_of_ge(ts: Seq<Shape>, i: int)
    requires
        0 <= i < ts.len(),
    ensures
        spec_max_size(ts[i]) <= max_of_max_sizes(ts),
    decreases i,
{
    if i > 0 {
        let rest = ts.subrange(1, ts.len() as int);
        lemma_max_of_ge(rest, i - 1);
        assert(rest[i - 1] == ts[i]);
    }
}

/// The size bound: no value's encoding is longer than its shape's maximum
/// size. The bound may be strict, for an absent option or a small variant.
pub proof fn lemma_size_bound(t: Shape, v: Value)
    requires
        fits(v, t),
    ensures
        wire(v).len() <= spec_max_size(t),
    decreases v,
{
    lemma_auto_spec_u16_to_from_le_bytes();
    lemma_auto_spec_u32_to_from_le_bytes();
    lemma_auto_spec_u64_to_from_le_bytes();
    lemma_auto_spec_u128_to_from_le_bytes();
    match v {
        Value::Maybe(opt) => match opt {
            Option::Some(inner) => {
                let it = t->Optional_0;
                lemma_size_bound(*it, *inner);
            },
            Option::None => {
                let it = t->Optional_0;
                lemma_max_size_nonneg(*it);
            },
        },
        Value::Array(elems) => {
            let it = t->Array_1;
            let n = t->Array_0;
            lemma_elems_size_bound(*it, elems);
            assert(vlist_len(elems) * spec_max_size(*it) == n * spec_max_size(*it));
        },
        Value::Record(fields) => {
            let ts = t->Record_0;
            lemma_fields_size_bound(ts@, fields);
        },
        Value::Variant(idx, payload) => {
            let ts = t->Choice_0;
            lemma_size_bound(ts@[idx as int], *payload);
            lemma_max_of_ge(ts@, idx as int);
        },
        _ => (),
    }
}

/// The record-fields form of [`lemma_size_bound`].
proof fn lemma_fields_size_bound(ts: Seq<Shape>, l: ValueList)
    requires
        fields_fit(l, ts),
    ensures
        wire_list(l).len() <= sum_max_size(ts),
    decreases l,
{
    match l {
        ValueList::Nil => (),
        ValueList::Cons(head, tail) => {
            lemma_size_bound(ts[0], *head);
            lemma_fields_size_bound(ts.subrange(1, ts.len() as int), *tail);
        },
    }
}

/// The array-elements form of [`lemma_size_bound`].
proof fn lemma_elems_size_bound(t: Shape, l: ValueList)
    requires
        elems_fit(l, t),
    ensures
        wire_list(l).len() <= vlist_len(l) * spec_max_size(t),
    decreases l,
{
    let m = spec_max_size(t);
    match l {
        ValueList::Nil => {
            assert(vlist_len(l) * m == 0) by (nonlinear_arith)
                requires vlist_len(l) == 0;
        },
        ValueList::Cons(head, tail) => {
            lemma_size_bound(t, *head);
            lemma_elems_size_bound(t, *tail);
            let k = vlist_len(*tail);
            assert((k + 1) * m == k * m + m) by (nonlinear_arith);
        },
    }
}

/// The round trip: decoding the encoding of any value of a well-formed shape
/// yields that same value back and consumes exactly the encoding, whatever
/// trailing bytes follow it.
pub proof fn lemma_round_trip(t: Shape, v: Value, tail: Seq<u8>)
    requires
        shape_wf(t),
        fits(v, t),
    ensures
        de_s(t, wire(v) + tail) == Ok::<(Value, int), Error>((v, wire(v).len() as int)),
    decreases v,
{
    lemma_auto_spec_u16_to_from_le_bytes();
    lemma_auto_spec_u32_to_from_le_bytes();
    lemma_auto_spec_u64_to_from_le_bytes();
    lemma_auto_spec_u128_to_from_le_bytes();
    let data = wire(v) + tail;
    match v {
        Value::I8(x) => {
            assert((x as u8) as i8 == x) by (bit_vector);
        },
        Value::I16(x) => {
            assert(data.take(2) =~= wire(v));
            assert((x as u16) as i16 == x) by (bit_vector);
        },
        Value::I32(x) => {
            assert(data.take(4) =~= wire(v));
            assert((x as u32) as i32 == x) by (bit_vector);
        },
        Value::I64(x) => {
            assert(data.take(8) =~= wire(v));
            assert((x as u64) as i64 == x) by (bit_vector);
        },
        Value::I128(x) => {
            assert(data.take(16) =~= wire(v));
            assert((x as u128) as i128 == x) by (bit_vector);
        },
        Value::U16(x) => {
            assert(data.take(2) =~= wire(v));
        },
        Value::U32(x) => {
            assert(data.take(4) =~= wire(v));
        },
        Value::U64(x) => {
            assert(data.take(8) =~= wire(v));
        },
        Value::U128(x) => {
            assert(data.take(16) =~= wire(v));
        },
        Value::F32Bits(x) => {
            assert(data.take(4) =~= wire(v));
        },
        Value::F64Bits(x) => {
            assert(data.take(8) =~= wire(v));
        },
        Value::Maybe(opt) => match opt {
            Option::Some(inner) => {
                let it = t->Optional_0;
                assert(data.skip(1) =~= wire(*inner) + tail);
                lemma_round_trip(*it, *inner, tail);
            },
            Option::None => (),
        },
        Value::Array(elems) => {
            let it = t->Array_1;
            lemma_round_trip_elems(*it, elems, tail);
        },
        Value::Record(fields) => {
            let ts = t->Record_0;
            lemma_round_trip_fields(ts@, fields, tail);
        },
        Value::Variant(idx, payload) => {
            let ts = t->Choice_0;
            assert(shape_list_wf(ts@));
            assert((idx as int) < ts@.len());
            assert(shape_wf(ts@[idx as int]));
            assert(data[0] == idx as u8);
            assert(data.skip(1) =~= wire(*payload) + tail);
            lemma_round_trip(ts@[idx as int], *payload, tail);
        },
        _ => (),
    }
}

/// The record-fields form of [`lemma_round_trip`].
proof fn lemma_round_trip_fields(ts: Seq<Shape>, l: ValueList, tail: Seq<u8>)
    requires
        shape_list_wf(ts),
        fields_fit(l, ts),
    ensures
        de_list(ts, wire_list(l) + tail) == Ok::<(ValueList, int), Error>(
            (l, wire_list(l).len() as int),
        ),
    decreases l,
{
    match l {
        ValueList::Nil => (),
        ValueList::Cons(head, tail_l) => {
            let data = wire_list(l) + tail;
            lemma_shape_list_wf_parts(ts);
            assert(data =~= wire(*head) + (wire_list(*tail_l) + tail));
            lemma_round_trip(ts[0], *head, wire_list(*tail_l) + tail);
            assert(data.skip(wire(*head).len() as int) =~= wire_list(*tail_l) + tail);
            lemma_round_trip_fields(ts.subrange(1, ts.len() as int), *tail_l, tail);
        },
    }
}

/// The array-elements form of [`lemma_round_trip`].
proof fn lemma_round_trip_elems(t: Shape, l: ValueList, tail: Seq<u8>)
    requires
        shape_wf(t),
        elems_fit(l, t),
    ensures
        de_array(t, vlist_len(l) as int, wire_list(l) + tail) == Ok::<(ValueList, int), Error>(
            (l, wire_list(l).len() as int),
        ),
    decreases l,
{
    match l {
        ValueList::Nil => (),
        ValueList::Cons(head, tail_l) => {
            let data = wire_list(l) + tail;
            assert(data =~= wire(*head) + (wire_list(*tail_l) + tail));
            lemma_round_trip(t, *head, wire_list(*tail_l) + tail);
            assert(data.skip(wire(*head).len() as int) =~= wire_list(*tail_l) + tail);
            lemma_round_trip_elems(t, *tail_l, tail);
        },
    }
}

/// Decoder soundness: whatever decoding returns belongs to the shape it was
/// asked for, is encodable, and encodes back to exactly the bytes consumed —
/// every successful decode is the mirror image of some encode.
pub proof fn lemma_decode_sound(t: Shape, data: Seq<u8>)
    ensures
        de_s(t, data) matches Ok(p) ==> fits(p.0, t) && encodable(p.0) && wire(p.0) == data.take(
            p.1,
        ),
    decreases t, 0int, 0int,
{
    lemma_auto_spec_u16_to_from_le_bytes();
    lemma_auto_spec_u32_to_from_le_bytes();
    lemma_auto_spec_u64_to_from_le_bytes();
    lemma_auto_spec_u128_to_from_le_bytes();
    match t {
        Shape::Unit => {
            assert(Seq::<u8>::empty() =~= data.take(0));
        },
        Shape::Bool => {
            if data.len() >= 1 && data[0] <= 1 {
                assert(wire(de_s(t, data)->Ok_0.0) =~= data.take(1));
            }
        },
        Shape::U8 => {
            if data.len() >= 1 {
                assert(seq![data[0]] =~= data.take(1));
            }
        },
        Shape::I8 => {
            if data.len() >= 1 {
                let b = data[0];
                let x = b as i8;
                assert(x as u8 == b) by (bit_vector)
                    requires x == b as i8;
                assert(seq![x as u8] =~= data.take(1));
            }
        },
        Shape::I16 => {
            if data.len() >= 2 {
                let y = spec_u16_from_le_bytes(data.take(2));
                assert((y as i16) as u16 == y) by (bit_vector);
            }
        },
        Shape::I32 => {
            if data.len() >= 4 {
                let y = spec_u32_from_le_bytes(data.take(4));
                assert((y as i32) as u32 == y) by (bit_vector);
            }
        },
        Shape::I64 => {
            if data.len() >= 8 {
                let y = spec_u64_from_le_bytes(data.take(8));
                assert((y as i64) as u64 == y) by (bit_vector);
            }
        },
        Shape::I128 => {
            if data.len() >= 16 {
                let y = spec_u128_from_le_bytes(data.take(16));
                assert((y as i128) as u128 == y) by (bit_vector);
            }
        },
        Shape::Optional(inner) => {
            if data.len() >= 1 && data[0] == 1 {
                lemma_decode_sound(*inner, data.skip(1));
                crate::de::lemma_de_bound(*inner, data.skip(1));
                match de_s(*inner, data.skip(1)) {
                    Ok(p) => {
                        assert(seq![1u8] + wire(p.0) =~= data.take(1 + p.1));
                    },
                    Err(e) => (),
                }
            }
            if data.len() >= 1 && data[0] == 0 {
                assert(seq![0u8] =~= data.take(1));
            }
        },
        Shape::Array(n, inner) => {
            lemma_decode_sound_array(*inner, n as int, data);
        },
        Shape::Record(fields) => {
            lemma_decode_sound_fields(fields@, data);
        },
        Shape::Choice(variants) => {
            if data.len() >= 1 && (data[0] as int) < variants@.len() {
                let it = variants@[data[0] as int];
                lemma_decode_sound(it, data.skip(1));
                crate::de::lemma_de_bound(it, data.skip(1));
                match de_s(it, data.skip(1)) {
                    Ok(p) => {
                        assert((data[0] as u32) as u8 == data[0]);
                        assert(seq![data[0]] + wire(p.0) =~= data.take(1 + p.1));
                    },
                    Err(e) => (),
                }
            }
        },
        _ => {
            // The remaining unsigned and float leaves: the little-endian
            // bijection gives the consumed prefix back directly.
        },
    }
}

/// The record-fields form of [`lemma_decode_sound`].
proof fn lemma_decode_sound_fields(ts: Seq<Shape>, data: Seq<u8>)
    ensures
        de_list(ts, data) matches Ok(p) ==> fields_fit(p.0, ts) && list_encodable(p.0)
            && wire_list(p.0) == data.take(p.1),
    decreases ts, 1int, 0int,
{
    if ts.len() == 0 {
        assert(Seq::<u8>::empty() =~= data.take(0));
    } else {
        lemma_decode_sound(ts[0], data);
        crate::de::lemma_de_bound(ts[0], data);
        match de_s(ts[0], data) {
            Ok(p) => {
                let rest_ts = ts.subrange(1, ts.len() as int);
                lemma_decode_sound_fields(rest_ts, data.skip(p.1));
                crate::de::lemma_de_list_bound(rest_ts, data.skip(p.1));
                match de_list(rest_ts, data.skip(p.1)) {
                    Ok(q) => {
                        assert(wire(p.0) + wire_list(q.0) =~= data.take(p.1 + q.1));
                    },
                    Err(e) => (),
                }
            },
            Err(e) => (),
        }
    }
}

/// The array-elements form of [`lemma_decode_sound`].
proof fn lemma_decode_sound_array(t: Shape, n: int, data: Seq<u8>)
    ensures
        de_array(t, n, data) matches Ok(p) ==> elems_fit(p.0, t) && list_encodable(p.0)
            && wire_list(p.0) == data.take(p.1) && vlist_len(p.0) == if n >= 0 {
            n
        } else {
            0
        },
    decreases t, 1int, n,
{
    if n <= 0 {
        assert(Seq::<u8>::empty() =~= data.take(0));
    } else {
        lemma_decode_sound(t, data);
        crate::de::lemma_de_bound(t, data);
        match de_s(t, data) {
            Ok(p) => {
                lemma_decode_sound_array(t, n - 1, data.skip(p.1));
                crate::de::lemma_de_array_bound(t, n - 1, data.skip(p.1));
                match de_array(t, n - 1, data.skip(p.1)) {
                    Ok(q) => {
                        assert(wire(p.0) + wire_list(q.0) =~= data.take(p.1 + q.1));
                    },
                    Err(e) => (),
                }
            },
            Err(e) => (),
        }
    }
}

/// Concatenation: two encodings laid end to end decode in sequence, each
/// value consuming exactly its own bytes — the format is self-delimiting
/// with no framing between values.
pub proof fn lemma_concat(t1: Shape, v1: Value, t2: Shape, v2: Value, tail: Seq<u8>)
    requires
        shape_wf(t1),
        fits(v1, t1),
        shape_wf(t2),
        fits(v2, t2),
    ensures
        de_s(t1, wire(v1) + wire(v2) + tail) == Ok::<(Value, int), Error>(
            (v1, wire(v1).len() as int),
        ),
        de_s(t2, (wire(v1) + wire(v2) + tail).skip(wire(v1).len() as int)) == Ok::<
            (Value, int),
            Error,
        >((v2, wire(v2).len() as int)),
{
    assert(wire(v1) + wire(v2) + tail =~= wire(v1) + (wire(v2) + tail));
    lemma_round_trip(t1, v1, wire(v2) + tail);
    assert((wire(v1) + wire(v2) + tail).skip(wire(v1).len() as int) =~= wire(v2) + tail);
    lemma_round_trip(t2, v2, tail);
}

/// The buffer boundary: a value of exactly the maximal size fails with
/// `Overrun` in a buffer one byte short of the size oracle's bound, and
/// encodes completely in a buffer of exactly that bound.
pub proof fn lemma_buffer_boundary(t: Shape, v: Value)
    requires
        shape_wf(t),
        fits(v, t),
        wire(v).len() == spec_max_size(t),
        spec_max_size(t) >= 1,
    ensures
        ser_s(v, spec_max_size(t) - 1) == Err::<int, Error>(Error::Overrun),
        ser_s(v, spec_max_size(t)) == Ok::<int, Error>(wire(v).len() as int),
{
    lemma_fits_encodable(t, v);
    lemma_ser_outcome(v, spec_max_size(t) - 1);
    lemma_ser_outcome(v, spec_max_size(t));
}

} // verus!
