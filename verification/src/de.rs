//! Decoding values from a byte slice.

use vstd::bytes::*;
use vstd::prelude::*;

use crate::error::Error;
use crate::wire::encodable;
use crate::wire::fits;
use crate::wire::wire;
use crate::wire::Shape;
use crate::wire::Value;
use crate::wire::ValueList;

verus! {

/// The outcome of decoding one value of shape `t` from the front of `data`:
/// the value together with the number of bytes it occupied, or the first
/// error the decoder meets. Decoding consumes exactly the bytes belonging to
/// one value; input may continue beyond them.
pub open spec fn de_s(t: Shape, data: Seq<u8>) -> Result<(Value, int), Error>
    decreases t, 0int, 0int,
{
    match t {
        Shape::Unit => Ok((Value::Unit, 0)),
        Shape::Bool => if data.len() < 1 {
            Err(Error::Truncated)
        } else if data[0] == 0 {
            Ok((Value::Bool(false), 1))
        } else if data[0] == 1 {
            Ok((Value::Bool(true), 1))
        } else {
            Err(Error::Invalid)
        },
        Shape::U8 => if data.len() < 1 {
            Err(Error::Truncated)
        } else {
            Ok((Value::U8(data[0]), 1))
        },
        Shape::U16 => if data.len() < 2 {
            Err(Error::Truncated)
        } else {
            Ok((Value::U16(spec_u16_from_le_bytes(data.take(2))), 2))
        },
        Shape::U32 => if data.len() < 4 {
            Err(Error::Truncated)
        } else {
            Ok((Value::U32(spec_u32_from_le_bytes(data.take(4))), 4))
        },
        Shape::U64 => if data.len() < 8 {
            Err(Error::Truncated)
        } else {
            Ok((Value::U64(spec_u64_from_le_bytes(data.take(8))), 8))
        },
        Shape::U128 => if data.len() < 16 {
            Err(Error::Truncated)
        } else {
            Ok((Value::U128(spec_u128_from_le_bytes(data.take(16))), 16))
        },
        Shape::I8 => if data.len() < 1 {
            Err(Error::Truncated)
        } else {
            Ok((Value::I8(data[0] as i8), 1))
        },
        Shape::I16 => if data.len() < 2 {
            Err(Error::Truncated)
        } else {
            Ok((Value::I16(spec_u16_from_le_bytes(data.take(2)) as i16), 2))
        },
        Shape::I32 => if data.len() < 4 {
            Err(Error::Truncated)
        } else {
            Ok((Value::I32(spec_u32_from_le_bytes(data.take(4)) as i32), 4))
        },
        Shape::I64 => if data.len() < 8 {
            Err(Error::Truncated)
        } else {
            Ok((Value::I64(spec_u64_from_le_bytes(data.take(8)) as i64), 8))
        },
        Shape::I128 => if data.len() < 16 {
            Err(Error::Truncated)
        } else {
            Ok((Value::I128(spec_u128_from_le_bytes(data.take(16)) as i128), 16))
        },
        Shape::F32 => if data.len() < 4 {
            Err(Error::Truncated)
        } else {
            Ok((Value::F32Bits(spec_u32_from_le_bytes(data.take(4))), 4))
        },
        Shape::F64 => if data.len() < 8 {
            Err(Error::Truncated)
        } else {
            Ok((Value::F64Bits(spec_u64_from_le_bytes(data.take(8))), 8))
        },
        Shape::Char => Err(Error::NotSupported),
        Shape::Optional(inner) => if data.len() < 1 {
            Err(Error::Truncated)
        } else if data[0] == 0 {
            Ok((Value::Maybe(Option::None), 1))
        } else if data[0] == 1 {
            match de_s(*inner, data.skip(1)) {
                Ok(p) => Ok((Value::Maybe(Option::Some(Box::new(p.0))), 1 + p.1)),
                Err(e) => Err(e),
            }
        } else {
            Err(Error::Invalid)
        },
        Shape::Array(n, inner) => match de_array(*inner, n as int, data) {
            Ok(p) => Ok((Value::Array(p.0), p.1)),
            Err(e) => Err(e),
        },
        Shape::Record(fields) => match de_list(fields@, data) {
            Ok(p) => Ok((Value::Record(p.0), p.1)),
            Err(e) => Err(e),
        },
        Shape::Choice(variants) => if data.len() < 1 {
            Err(Error::Truncated)
        } else if (data[0] as int) < variants@.len() {
            match de_s(variants@[data[0] as int], data.skip(1)) {
                Ok(p) => Ok((Value::Variant(data[0] as u32, Box::new(p.0)), 1 + p.1)),
                Err(e) => Err(e),
            }
        } else {
            Err(Error::Invalid)
        },
    }
}

/// The outcome of decoding one value of each shape of a list, in order.
pub open spec fn de_list(ts: Seq<Shape>, data: Seq<u8>) -> Result<(ValueList, int), Error>
    decreases ts, 1int, 0int,
{
    if ts.len() == 0 {
        Ok((ValueList::Nil, 0))
    } else {
        match de_s(ts[0], data) {
            Ok(p) => match de_list(ts.subrange(1, ts.len() as int), data.skip(p.1)) {
                Ok(q) => Ok((ValueList::Cons(Box::new(p.0), Box::new(q.0)), p.1 + q.1)),
                Err(e) => Err(e),
            },
            Err(e) => Err(e),
        }
    }
}

/// The outcome of decoding `n` consecutive values of one element shape.
pub open spec fn de_array(t: Shape, n: int, data: Seq<u8>) -> Result<(ValueList, int), Error>
    decreases t, 1int, n,
{
    if n <= 0 {
        Ok((ValueList::Nil, 0))
    } else {
        match de_s(t, data) {
            Ok(p) => match de_array(t, n - 1, data.skip(p.1)) {
                Ok(q) => Ok((ValueList::Cons(Box::new(p.0), Box::new(q.0)), p.1 + q.1)),
                Err(e) => Err(e),
            },
            Err(e) => Err(e),
        }
    }
}

/// A successful decode consumes between 0 bytes and the whole input.
pub proof fn lemma_de_bound(t: Shape, data: Seq<u8>)
    ensures
        de_s(t, data) matches Ok(p) ==> 0 <= p.1 <= data.len(),
    decreases t, 0int, 0int,
{
    match t {
        Shape::Optional(inner) => if data.len() >= 1 {
            lemma_de_bound(*inner, data.skip(1));
        },
        Shape::Array(n, inner) => lemma_de_array_bound(*inner, n as int, data),
        Shape::Record(fields) => lemma_de_list_bound(fields@, data),
        Shape::Choice(variants) => if data.len() >= 1 && (data[0] as int) < variants@.len() {
            lemma_de_bound(variants@[data[0] as int], data.skip(1));
        },
        _ => (),
    }
}

/// The list form of [`lemma_de_bound`].
pub proof fn lemma_de_list_bound(ts: Seq<Shape>, data: Seq<u8>)
    ensures
        de_list(ts, data) matches Ok(p) ==> 0 <= p.1 <= data.len(),
    decreases ts, 1int, 0int,
{
    if ts.len() > 0 {
        lemma_de_bound(ts[0], data);
        match de_s(ts[0], data) {
            Ok(p) => lemma_de_list_bound(ts.subrange(1, ts.len() as int), data.skip(p.1)),
            Err(e) => (),
        }
    }
}

/// The array form of [`lemma_de_bound`].
pub proof fn lemma_de_array_bound(t: Shape, n: int, data: Seq<u8>)
    ensures
        de_array(t, n, data) matches Ok(p) ==> 0 <= p.1 <= data.len(),
    decreases t, 1int, n,
{
    if n > 0 {
        lemma_de_bound(t, data);
        match de_s(t, data) {
            Ok(p) => lemma_de_array_bound(t, n - 1, data.skip(p.1)),
            Err(e) => (),
        }
    }
}

/// A cursor over the input bytes. Transient: created for one decoding
/// operation and discarded afterwards. It only ever narrows its slice; the
/// underlying bytes are never copied or changed.
pub struct Deserializer<'de> {
    /// The bytes not yet consumed.
    pub data: &'de [u8],
}

impl<'de> Deserializer<'de> {
    /// Takes the next byte, or reports `Truncated` on empty input.
    pub fn take_u8(&mut self) -> (r: Result<u8, Error>)
        ensures
            match r {
                Ok(b) => old(self).data@.len() >= 1 && b == old(self).data@[0]
                    && final(self).data@ == old(self).data@.skip(1),
                Err(e) => e == Error::Truncated && old(self).data@.len() == 0 && final(self).data@
                    == old(self).data@,
            },
    {
        if self.data.len() >= 1 {
            let b = *vstd::slice::slice_index_get(self.data, 0);
            self.data = vstd::slice::slice_subrange(self.data, 1, self.data.len());
            Ok(b)
        } else {
            Err(Error::Truncated)
        }
    }

    /// Takes the next `n` bytes as a slice of the original input, or reports
    /// `Truncated` when fewer remain.
    pub fn take_ary(&mut self, n: usize) -> (r: Result<&'de [u8], Error>)
        ensures
            match r {
                Ok(chunk) => old(self).data@.len() >= n && chunk@ == old(self).data@.take(n as int)
                    && final(self).data@ == old(self).data@.skip(n as int),
                Err(e) => e == Error::Truncated && old(self).data@.len() < n && final(self).data@
                    == old(self).data@,
            },
    {
        if n <= self.data.len() {
            let chunk = vstd::slice::slice_subrange(self.data, 0, n);
            self.data = vstd::slice::slice_subrange(self.data, n, self.data.len());
            Ok(chunk)
        } else {
            Err(Error::Truncated)
        }
    }

    /// Takes a 16-bit little-endian integer.
    pub fn take_u16(&mut self) -> (r: Result<u16, Error>)
        ensures
            match r {
                Ok(x) => old(self).data@.len() >= 2 && x == spec_u16_from_le_bytes(
                    old(self).data@.take(2),
                ) && final(self).data@ == old(self).data@.skip(2),
                Err(e) => e == Error::Truncated && old(self).data@.len() < 2 && final(self).data@
                    == old(self).data@,
            },
    {
        let chunk = self.take_ary(2)?;
        Ok(u16_from_le_bytes(chunk))
    }

    /// Takes a 32-bit little-endian integer.
    pub fn take_u32(&mut self) -> (r: Result<u32, Error>)
        ensures
            match r {
                Ok(x) => old(self).data@.len() >= 4 && x == spec_u32_from_le_bytes(
                    old(self).data@.take(4),
                ) && final(self).data@ == old(self).data@.skip(4),
                Err(e) => e == Error::Truncated && old(self).data@.len() < 4 && final(self).data@
                    == old(self).data@,
            },
    {
        let chunk = self.take_ary(4)?;
        Ok(u32_from_le_bytes(chunk))
    }

    /// Takes a 64-bit little-endian integer.
    pub fn take_u64(&mut self) -> (r: Result<u64, Error>)
        ensures
            match r {
                Ok(x) => old(self).data@.len() >= 8 && x == spec_u64_from_le_bytes(
                    old(self).data@.take(8),
                ) && final(self).data@ == old(self).data@.skip(8),
                Err(e) => e == Error::Truncated && old(self).data@.len() < 8 && final(self).data@
                    == old(self).data@,
            },
    {
        let chunk = self.take_ary(8)?;
        Ok(u64_from_le_bytes(chunk))
    }

    /// Takes a 128-bit little-endian integer.
    pub fn take_u128(&mut self) -> (r: Result<u128, Error>)
        ensures
            match r {
                Ok(x) => old(self).data@.len() >= 16 && x == spec_u128_from_le_bytes(
                    old(self).data@.take(16),
                ) && final(self).data@ == old(self).data@.skip(16),
                Err(e) => e == Error::Truncated && old(self).data@.len() < 16 && final(self).data@
                    == old(self).data@,
            },
    {
        let chunk = self.take_ary(16)?;
        Ok(u128_from_le_bytes(chunk))
    }
}

/// Decodes one value of shape `t` from the deserializer's cursor: on success
/// the cursor moves past exactly the bytes the value occupied, and both the
/// value and the bytes consumed are what the decoding outcome dictates.
pub fn decode_value<'de>(d: &mut Deserializer<'de>, t: &Shape) -> (r: Result<Value, Error>)
    ensures
        match r {
            Ok(v) => de_s(*t, old(d).data@) matches Ok(p) && p.0 == v && final(d).data@ == old(d).data@.skip(p.1),
            Err(e) => de_s(*t, old(d).data@) == Err::<(Value, int), Error>(e),
        },
    decreases *t, 0int, 0int,
{
    match t {
        Shape::Unit => {
            proof {
                assert(d.data@ =~= d.data@.skip(0));
            }
            Ok(Value::Unit)
        },
        Shape::Bool => {
            let b = d.take_u8()?;
            if b == 0 {
                Ok(Value::Bool(false))
            } else if b == 1 {
                Ok(Value::Bool(true))
            } else {
                Err(Error::Invalid)
            }
        },
        Shape::U8 => {
            let b = d.take_u8()?;
            Ok(Value::U8(b))
        },
        Shape::U16 => {
            let x = d.take_u16()?;
            Ok(Value::U16(x))
        },
        Shape::U32 => {
            let x = d.take_u32()?;
            Ok(Value::U32(x))
        },
        Shape::U64 => {
            let x = d.take_u64()?;
            Ok(Value::U64(x))
        },
        Shape::U128 => {
            let x = d.take_u128()?;
            Ok(Value::U128(x))
        },
        Shape::I8 => {
            let b = d.take_u8()?;
            Ok(Value::I8(#[verifier::truncate] (b as i8)))
        },
        Shape::I16 => {
            let x = d.take_u16()?;
            Ok(Value::I16(#[verifier::truncate] (x as i16)))
        },
        Shape::I32 => {
            let x = d.take_u32()?;
            Ok(Value::I32(#[verifier::truncate] (x as i32)))
        },
        Shape::I64 => {
            let x = d.take_u64()?;
            Ok(Value::I64(#[verifier::truncate] (x as i64)))
        },
        Shape::I128 => {
            let x = d.take_u128()?;
            Ok(Value::I128(#[verifier::truncate] (x as i128)))
        },
        Shape::F32 => {
            let x = d.take_u32()?;
            Ok(Value::F32Bits(x))
        },
        Shape::F64 => {
            let x = d.take_u64()?;
            Ok(Value::F64Bits(x))
        },
        Shape::Char => Err(Error::NotSupported),
        Shape::Optional(inner) => {
            let ghost data0 = d.data@;
            let tag = d.take_u8()?;
            if tag == 0 {
                Ok(Value::Maybe(None))
            } else if tag == 1 {
                let v = decode_value(d, &**inner)?;
                proof {
                    lemma_de_bound(**inner, data0.skip(1));
                    assert(d.data@ =~= data0.skip(1 + de_s(**inner, data0.skip(1))->Ok_0.1));
                }
                Ok(Value::Maybe(Some(Box::new(v))))
            } else {
                Err(Error::Invalid)
            }
        },
        Shape::Array(n, inner) => {
            let l = decode_array(d, &**inner, *n)?;
            Ok(Value::Array(l))
        },
        Shape::Record(fields) => {
            let l = decode_fields(d, fields.as_slice())?;
            Ok(Value::Record(l))
        },
        Shape::Choice(variants) => {
            let ghost data0 = d.data@;
            let tag = d.take_u8()?;
            if (tag as usize) < variants.len() {
                let payload = decode_value(d, vstd::slice::slice_index_get(
                    variants.as_slice(),
                    tag as usize,
                ))?;
                proof {
                    let it = variants@[tag as int];
                    lemma_de_bound(it, data0.skip(1));
                    assert(d.data@ =~= data0.skip(1 + de_s(it, data0.skip(1))->Ok_0.1));
                }
                Ok(Value::Variant(tag as u32, Box::new(payload)))
            } else {
                Err(Error::Invalid)
            }
        },
    }
}

/// Decodes one value of each shape of a list, in order.
pub fn decode_fields<'de>(d: &mut Deserializer<'de>, ts: &[Shape]) -> (r: Result<
    ValueList,
    Error,
>)
    ensures
        match r {
            Ok(l) => de_list(ts@, old(d).data@) matches Ok(p) && p.0 == l && final(d).data@ == old(d).data@.skip(p.1),
            Err(e) => de_list(ts@, old(d).data@) == Err::<(ValueList, int), Error>(e),
        },
    decreases ts@, 1int, 0int,
{
    if ts.len() == 0 {
        proof {
            assert(d.data@ =~= d.data@.skip(0));
        }
        Ok(ValueList::Nil)
    } else {
        let ghost data0 = d.data@;
        let head = decode_value(d, vstd::slice::slice_index_get(ts, 0))?;
        let ghost p1 = de_s(ts@[0], data0)->Ok_0.1;
        let tail = decode_fields(d, vstd::slice::slice_subrange(ts, 1, ts.len()))?;
        proof {
            let q1 = de_list(ts@.subrange(1, ts@.len() as int), data0.skip(p1))->Ok_0.1;
            lemma_de_bound(ts@[0], data0);
            lemma_de_list_bound(ts@.subrange(1, ts@.len() as int), data0.skip(p1));
            assert(d.data@ =~= data0.skip(p1 + q1));
        }
        Ok(ValueList::Cons(Box::new(head), Box::new(tail)))
    }
}

/// Decodes `n` consecutive values of one element shape.
pub fn decode_array<'de>(d: &mut Deserializer<'de>, t: &Shape, n: usize) -> (r: Result<
    ValueList,
    Error,
>)
    ensures
        match r {
            Ok(l) => de_array(*t, n as int, old(d).data@) matches Ok(p) && p.0 == l && final(d).data@ == old(d).data@.skip(p.1),
            Err(e) => de_array(*t, n as int, old(d).data@) == Err::<(ValueList, int), Error>(e),
        },
    decreases *t, 1int, n as int,
{
    if n == 0 {
        proof {
            assert(d.data@ =~= d.data@.skip(0));
        }
        Ok(ValueList::Nil)
    } else {
        let ghost data0 = d.data@;
        let head = decode_value(d, t)?;
        let ghost p1 = de_s(*t, data0)->Ok_0.1;
        let tail = decode_array(d, t, n - 1)?;
        proof {
            let q1 = de_array(*t, n - 1, data0.skip(p1))->Ok_0.1;
            lemma_de_bound(*t, data0);
            lemma_de_array_bound(*t, n - 1, data0.skip(p1));
            assert(d.data@ =~= data0.skip(p1 + q1));
        }
        Ok(ValueList::Cons(Box::new(head), Box::new(tail)))
    }
}

/// Decodes a value of shape `t` from the front of `data`. On success returns
/// the value together with the rest of `data`, as a slice: decoding consumes
/// exactly the bytes belonging to one value and leaves the remainder
/// untouched, so several concatenated values can be decoded in sequence.
///
/// `Truncated` means the input ended before the value did; `Invalid` means a
/// byte was out of range for its position (a boolean or presence tag other
/// than 0 or 1, or a variant index no variant answers to); `NotSupported`
/// means the shape lies outside the supported set.
pub fn deserialize<'de>(t: &Shape, data: &'de [u8]) -> (r: Result<(Value, &'de [u8]), Error>)
    ensures
        match r {
            Ok(pair) => de_s(*t, data@) matches Ok(p) && p.0 == pair.0 && pair.1@ == data@.skip(
                p.1,
            ) && fits(pair.0, *t) && encodable(pair.0) && data@ == wire(pair.0) + pair.1@,
            Err(e) => de_s(*t, data@) == Err::<(Value, int), Error>(e),
        },
{
    let mut d = Deserializer { data };
    let v = decode_value(&mut d, t)?;
    proof {
        crate::laws::lemma_decode_sound(*t, data@);
        lemma_de_bound(*t, data@);
        let p1 = de_s(*t, data@)->Ok_0.1;
        assert(data@ =~= data@.take(p1) + data@.skip(p1));
    }
    Ok((v, d.data))
}

} // verus!
