//! Encoding values into a caller-supplied buffer.

use vstd::bytes::*;
use vstd::prelude::*;

use crate::error::Error;
use crate::wire::encodable;
use crate::wire::list_encodable;
use crate::wire::wire;
use crate::wire::wire_list;
use crate::wire::Value;
use crate::wire::ValueList;

verus! {

/// The outcome of writing one primitive of `k` bytes into a buffer with
/// `rem` bytes left.
pub open spec fn prim_write(k: int, rem: int) -> Result<int, Error> {
    if rem >= k {
        Ok(k)
    } else {
        Err(Error::Overrun)
    }
}

/// The outcome of encoding a value into a buffer with `rem` bytes left after
/// the cursor: the number of bytes written, or the first error the encoder
/// meets. Composites are written as the unbroken sequence of their parts'
/// writes, with no rollback; an enum's variant index is checked against the
/// one-byte tag before anything of that variant is written.
pub open spec fn ser_s(v: Value, rem: int) -> Result<int, Error>
    decreases v,
{
    match v {
        Value::Unit => Ok(0),
        Value::Bool(_) => prim_write(1, rem),
        Value::U8(_) => prim_write(1, rem),
        Value::U16(_) => prim_write(2, rem),
        Value::U32(_) => prim_write(4, rem),
        Value::U64(_) => prim_write(8, rem),
        Value::U128(_) => prim_write(16, rem),
        Value::I8(_) => prim_write(1, rem),
        Value::I16(_) => prim_write(2, rem),
        Value::I32(_) => prim_write(4, rem),
        Value::I64(_) => prim_write(8, rem),
        Value::I128(_) => prim_write(16, rem),
        Value::F32Bits(_) => prim_write(4, rem),
        Value::F64Bits(_) => prim_write(8, rem),
        Value::Char(_) => Err(Error::NotSupported),
        Value::Maybe(opt) => match opt {
            Option::None => prim_write(1, rem),
            Option::Some(inner) => if rem >= 1 {
                match ser_s(*inner, rem - 1) {
                    Ok(n) => Ok(n + 1),
                    Err(e) => Err(e),
                }
            } else {
                Err(Error::Overrun)
            },
        },
        Value::Array(elems) => ser_list(elems, rem),
        Value::Record(fields) => ser_list(fields, rem),
        Value::Variant(idx, payload) => if idx > 255 {
            Err(Error::TooManyVariants)
        } else if rem >= 1 {
            match ser_s(*payload, rem - 1) {
                Ok(n) => Ok(n + 1),
                Err(e) => Err(e),
            }
        } else {
            Err(Error::Overrun)
        },
    }
}

/// The outcome of encoding a list of values one after the other.
pub open spec fn ser_list(l: ValueList, rem: int) -> Result<int, Error>
    decreases l,
{
    match l {
        ValueList::Nil => Ok(0),
        ValueList::Cons(head, tail) => match ser_s(*head, rem) {
            Ok(n) => match ser_list(*tail, rem - n) {
                Ok(m) => Ok(n + m),
                Err(e) => Err(e),
            },
            Err(e) => Err(e),
        },
    }
}

/// When encoding succeeds and what it writes: it succeeds exactly on
/// encodable values whose wire encoding fits in the remaining space, it then
/// writes exactly the wire encoding's length, and an encodable value that
/// does not fit fails precisely with `Overrun`.
#[verifier::rlimit(60)]
#[verifier::spinoff_prover]
pub proof fn lemma_ser_outcome(v: Value, rem: int)
    requires
        rem >= 0,
    ensures
        ser_s(v, rem) is Ok <==> encodable(v) && wire(v).len() <= rem,
        ser_s(v, rem) matches Ok(n) ==> n == wire(v).len(),
        encodable(v) && wire(v).len() > rem ==> ser_s(v, rem) == Err::<int, Error>(Error::Overrun),
    decreases v,
{
    lemma_auto_spec_u16_to_from_le_bytes();
    lemma_auto_spec_u32_to_from_le_bytes();
    lemma_auto_spec_u64_to_from_le_bytes();
    lemma_auto_spec_u128_to_from_le_bytes();
    match v {
        Value::Maybe(opt) => match opt {
            Option::Some(inner) => if rem >= 1 {
                lemma_ser_outcome(*inner, rem - 1);
            },
            Option::None => (),
        },
        Value::Array(elems) => lemma_ser_list_outcome(elems, rem),
        Value::Record(fields) => lemma_ser_list_outcome(fields, rem),
        Value::Variant(idx, payload) => if rem >= 1 {
            lemma_ser_outcome(*payload, rem - 1);
        },
        _ => (),
    }
}

/// The list form of [`lemma_ser_outcome`].
#[verifier::rlimit(60)]
#[verifier::spinoff_prover]
pub proof fn lemma_ser_list_outcome(l: ValueList, rem: int)
    requires
        rem >= 0,
    ensures
        ser_list(l, rem) is Ok <==> list_encodable(l) && wire_list(l).len() <= rem,
        ser_list(l, rem) matches Ok(n) ==> n == wire_list(l).len(),
        list_encodable(l) && wire_list(l).len() > rem ==> ser_list(l, rem) == Err::<int, Error>(
            Error::Overrun,
        ),
    decreases l,
{
    match l {
        ValueList::Nil => (),
        ValueList::Cons(head, tail) => {
            lemma_ser_outcome(*head, rem);
            match ser_s(*head, rem) {
                Ok(n) => lemma_ser_list_outcome(*tail, rem - n),
                Err(e) => (),
            }
        },
    }
}

/// Splicing two byte strings one after the other is one splice of their
/// concatenation.
pub proof fn lemma_splice_concat(buf: Seq<u8>, at: int, b1: Seq<u8>, b2: Seq<u8>)
    requires
        0 <= at,
        at + b1.len() + b2.len() <= buf.len(),
    ensures
        splice(splice(buf, at, b1), at + b1.len(), b2) == splice(buf, at, b1 + b2),
{
    assert(splice(splice(buf, at, b1), at + b1.len(), b2) =~= splice(buf, at, b1 + b2));
}

/// The buffer after writing `bytes` at position `at`, leaving everything
/// before `at` and everything after the written range unchanged.
pub open spec fn splice(buf: Seq<u8>, at: int, bytes: Seq<u8>) -> Seq<u8> {
    buf.take(at) + bytes + buf.skip(at + bytes.len())
}

/// What a failed encode may have done to the serializer: the cursor only
/// ever advances, nothing below the original cursor is touched, and nothing
/// at or past the attempted cursor position is written. Only the partial
/// prefix between the two is indeterminate.
pub open spec fn writes_confined(pre: Serializer, post: Serializer) -> bool {
    &&& post.pos >= pre.pos
    &&& post.buf@.take(pre.pos as int) == pre.buf@.take(pre.pos as int)
    &&& post.buf@.skip(post.pos as int) == pre.buf@.skip(post.pos as int)
}

/// A cursor over a caller-supplied destination buffer. Transient: created for
/// one encoding operation and discarded afterwards. The buffer's length is
/// never changed; bytes are written in place.
pub struct Serializer {
    /// The destination buffer.
    pub buf: Vec<u8>,
    /// The number of bytes written so far; the next write lands here.
    pub pos: usize,
}

impl Serializer {
    /// The cursor never runs past the end of the buffer.
    pub open spec fn wf(self) -> bool {
        self.pos <= self.buf@.len()
    }

    /// The bytes still available for writing.
    pub open spec fn rem(self) -> int {
        self.buf@.len() - self.pos
    }

    /// Writes a single byte at the cursor, or reports `Overrun` and leaves
    /// the state untouched when the buffer is full.
    pub fn write_u8(&mut self, v: u8) -> (r: Result<(), Error>)
        requires
            old(self).wf(),
        ensures
            final(self).wf(),
            final(self).buf@.len() == old(self).buf@.len(),
            match r {
                Ok(u) => old(self).rem() >= 1 && final(self).pos == old(self).pos + 1
                    && final(self).buf@ == splice(old(self).buf@, old(self).pos as int, seq![v]),
                Err(e) => e == Error::Overrun && old(self).rem() < 1 && *final(self) == *old(
                    self,
                ),
            },
    {
        if self.pos < self.buf.len() {
            let ghost buf0 = self.buf@;
            let ghost pos0 = self.pos as int;
            self.buf[self.pos] = v;
            self.pos = self.pos + 1;
            proof {
                assert(self.buf@ =~= splice(buf0, pos0, seq![v]));
            }
            Ok(())
        } else {
            Err(Error::Overrun)
        }
    }

    /// Reserves the next `n` bytes of the buffer, returning the offset of the
    /// reserved range and advancing the cursor past it; reports `Overrun` and
    /// leaves the state untouched when fewer than `n` bytes remain.
    pub fn get_ary_mut(&mut self, n: usize) -> (r: Result<usize, Error>)
        requires
            old(self).wf(),
        ensures
            final(self).wf(),
            final(self).buf@ == old(self).buf@,
            match r {
                Ok(off) => off == old(self).pos && old(self).rem() >= n && final(self).pos
                    == old(self).pos + n,
                Err(e) => e == Error::Overrun && old(self).rem() < n && *final(self) == *old(
                    self,
                ),
            },
    {
        if n <= self.buf.len() - self.pos {
            let off = self.pos;
            self.pos = self.pos + n;
            Ok(off)
        } else {
            Err(Error::Overrun)
        }
    }

    /// Stores `bytes` into the already-reserved range starting at `off`,
    /// without moving the cursor.
    fn store_bytes(&mut self, off: usize, bytes: &Vec<u8>)
        requires
            old(self).wf(),
            off + bytes@.len() <= old(self).buf@.len(),
        ensures
            final(self).wf(),
            final(self).pos == old(self).pos,
            final(self).buf@.len() == old(self).buf@.len(),
            final(self).buf@ == splice(old(self).buf@, off as int, bytes@),
    {
        let ghost buf0 = self.buf@;
        let ghost pos0 = self.pos;
        let blen = self.buf.len();
        let n = bytes.len();
        let mut i: usize = 0;
        proof {
            assert(self.buf@ =~= buf0.take(off as int) + bytes@.take(0) + buf0.skip(off as int));
        }
        while i < n
            invariant
                i <= n,
                n == bytes@.len(),
                off + n <= blen,
                blen == buf0.len(),
                self.pos == pos0,
                self.buf@.len() == buf0.len(),
                self.buf@ == buf0.take(off as int) + bytes@.take(i as int) + buf0.skip(
                    off as int + i as int,
                ),
            decreases n - i,
        {
            self.buf[off + i] = bytes[i];
            i = i + 1;
            proof {
                assert(self.buf@ =~= buf0.take(off as int) + bytes@.take(i as int) + buf0.skip(
                    off as int + i as int,
                ));
            }
        }
        proof {
            assert(bytes@.take(n as int) == bytes@);
        }
    }

    /// Writes a 16-bit integer at the cursor, little-endian.
    pub fn write_u16(&mut self, v: u16) -> (r: Result<(), Error>)
        requires
            old(self).wf(),
        ensures
            final(self).wf(),
            final(self).buf@.len() == old(self).buf@.len(),
            match r {
                Ok(u) => old(self).rem() >= 2 && final(self).pos == old(self).pos + 2
                    && final(self).buf@ == splice(
                    old(self).buf@,
                    old(self).pos as int,
                    spec_u16_to_le_bytes(v),
                ),
                Err(e) => e == Error::Overrun && old(self).rem() < 2 && *final(self) == *old(
                    self,
                ),
            },
    {
        proof {
            lemma_auto_spec_u16_to_from_le_bytes();
        }
        let off = self.get_ary_mut(2)?;
        let bytes = u16_to_le_bytes(v);
        self.store_bytes(off, &bytes);
        Ok(())
    }

    /// Writes a 32-bit integer at the cursor, little-endian.
    pub fn write_u32(&mut self, v: u32) -> (r: Result<(), Error>)
        requires
            old(self).wf(),
        ensures
            final(self).wf(),
            final(self).buf@.len() == old(self).buf@.len(),
            match r {
                Ok(u) => old(self).rem() >= 4 && final(self).pos == old(self).pos + 4
                    && final(self).buf@ == splice(
                    old(self).buf@,
                    old(self).pos as int,
                    spec_u32_to_le_bytes(v),
                ),
                Err(e) => e == Error::Overrun && old(self).rem() < 4 && *final(self) == *old(
                    self,
                ),
            },
    {
        proof {
            lemma_auto_spec_u32_to_from_le_bytes();
        }
        let off = self.get_ary_mut(4)?;
        let bytes = u32_to_le_bytes(v);
        self.store_bytes(off, &bytes);
        Ok(())
    }

    /// Writes a 64-bit integer at the cursor, little-endian.
    pub fn write_u64(&mut self, v: u64) -> (r: Result<(), Error>)
        requires
            old(self).wf(),
        ensures
            final(self).wf(),
            final(self).buf@.len() == old(self).buf@.len(),
            match r {
                Ok(u) => old(self).rem() >= 8 && final(self).pos == old(self).pos + 8
                    && final(self).buf@ == splice(
                    old(self).buf@,
                    old(self).pos as int,
                    spec_u64_to_le_bytes(v),
                ),
                Err(e) => e == Error::Overrun && old(self).rem() < 8 && *final(self) == *old(
                    self,
                ),
            },
    {
        proof {
            lemma_auto_spec_u64_to_from_le_bytes();
        }
        let off = self.get_ary_mut(8)?;
        let bytes = u64_to_le_bytes(v);
        self.store_bytes(off, &bytes);
        Ok(())
    }

    /// Writes a 128-bit integer at the cursor, little-endian.
    pub fn write_u128(&mut self, v: u128) -> (r: Result<(), Error>)
        requires
            old(self).wf(),
        ensures
            final(self).wf(),
            final(self).buf@.len() == old(self).buf@.len(),
            match r {
                Ok(u) => old(self).rem() >= 16 && final(self).pos == old(self).pos + 16
                    && final(self).buf@ == splice(
                    old(self).buf@,
                    old(self).pos as int,
                    spec_u128_to_le_bytes(v),
                ),
                Err(e) => e == Error::Overrun && old(self).rem() < 16 && *final(self) == *old(
                    self,
                ),
            },
    {
        proof {
            lemma_auto_spec_u128_to_from_le_bytes();
        }
        let off = self.get_ary_mut(16)?;
        let bytes = u128_to_le_bytes(v);
        self.store_bytes(off, &bytes);
        Ok(())
    }

    /// Writes a one-byte enum variant tag at the cursor: `TooManyVariants`
    /// when the 0-based index does not fit in one byte, `Overrun` when the
    /// buffer is full; the state is untouched on either error.
    pub fn write_variant(&mut self, v: u32) -> (r: Result<(), Error>)
        requires
            old(self).wf(),
        ensures
            final(self).wf(),
            final(self).buf@.len() == old(self).buf@.len(),
            match r {
                Ok(u) => v <= 255 && old(self).rem() >= 1 && final(self).pos == old(self).pos + 1
                    && final(self).buf@ == splice(
                    old(self).buf@,
                    old(self).pos as int,
                    seq![v as u8],
                ),
                Err(e) => *final(self) == *old(self) && ((e == Error::TooManyVariants && v > 255)
                    || (e == Error::Overrun && v <= 255 && old(self).rem() < 1)),
            },
    {
        if v > 255 {
            Err(Error::TooManyVariants)
        } else {
            self.write_u8(v as u8)
        }
    }
}

/// Encodes one value at the serializer's cursor: on success the cursor
/// advances over exactly the value's wire encoding, which now sits where the
/// cursor was. On failure the error is exactly what the encoding outcome
/// dictates, and the writes are confined: a partial prefix may stand between
/// the old and the attempted cursor, but nothing before or beyond it was
/// touched, and a value rejected before any write — a `char`, or an enum
/// value whose index exceeds the one-byte tag — leaves the state untouched.
pub fn encode_value(s: &mut Serializer, v: &Value) -> (r: Result<(), Error>)
    requires
        old(s).wf(),
    ensures
        final(s).wf(),
        final(s).buf@.len() == old(s).buf@.len(),
        match r {
            Ok(u) => encodable(*v) && wire(*v).len() <= old(s).rem() && final(s).pos == old(s).pos
                + wire(*v).len() && final(s).buf@ == splice(
                old(s).buf@,
                old(s).pos as int,
                wire(*v),
            ),
            Err(e) => ser_s(*v, old(s).rem()) == Err::<int, Error>(e) && writes_confined(
                *old(s),
                *final(s),
            ),
        },
        *v is Char ==> *final(s) == *old(s),
        *v matches Value::Variant(idx, _) && idx > 255 ==> *final(s) == *old(s),
    decreases *v,
{
    proof {
        lemma_auto_spec_u16_to_from_le_bytes();
        lemma_auto_spec_u32_to_from_le_bytes();
        lemma_auto_spec_u64_to_from_le_bytes();
        lemma_auto_spec_u128_to_from_le_bytes();
    }
    match v {
        Value::Unit => {
            proof {
                assert(s.buf@ =~= splice(s.buf@, s.pos as int, wire(*v)));
            }
            Ok(())
        },
        Value::Bool(b) => {
            s.write_u8(if *b { 1 } else { 0 })?;
            Ok(())
        },
        Value::U8(x) => {
            s.write_u8(*x)?;
            Ok(())
        },
        Value::U16(x) => {
            s.write_u16(*x)?;
            Ok(())
        },
        Value::U32(x) => {
            s.write_u32(*x)?;
            Ok(())
        },
        Value::U64(x) => {
            s.write_u64(*x)?;
            Ok(())
        },
        Value::U128(x) => {
            s.write_u128(*x)?;
            Ok(())
        },
        Value::I8(x) => {
            s.write_u8(#[verifier::truncate] (*x as u8))?;
            Ok(())
        },
        Value::I16(x) => {
            s.write_u16(#[verifier::truncate] (*x as u16))?;
            Ok(())
        },
        Value::I32(x) => {
            s.write_u32(#[verifier::truncate] (*x as u32))?;
            Ok(())
        },
        Value::I64(x) => {
            s.write_u64(#[verifier::truncate] (*x as u64))?;
            Ok(())
        },
        Value::I128(x) => {
            s.write_u128(#[verifier::truncate] (*x as u128))?;
            Ok(())
        },
        Value::F32Bits(x) => {
            s.write_u32(*x)?;
            Ok(())
        },
        Value::F64Bits(x) => {
            s.write_u64(*x)?;
            Ok(())
        },
        Value::Char(_) => Err(Error::NotSupported),
        Value::Maybe(opt) => match opt {
            Option::None => {
                s.write_u8(0)?;
                Ok(())
            },
            Option::Some(inner) => {
                let ghost buf0 = s.buf@;
                let ghost pos0 = s.pos as int;
                s.write_u8(1)?;
                match encode_value(s, &**inner) {
                    Ok(u) => {
                        proof {
                            lemma_splice_concat(buf0, pos0, seq![1u8], wire(**inner));
                        }
                        Ok(())
                    },
                    Err(e) => {
                        proof {
                            assert(s.buf@.take(pos0) =~= buf0.take(pos0));
                            assert(s.buf@.skip(s.pos as int) =~= buf0.skip(s.pos as int));
                        }
                        Err(e)
                    },
                }
            },
        },
        Value::Array(elems) => {
            encode_list(s, elems)?;
            Ok(())
        },
        Value::Record(fields) => {
            encode_list(s, fields)?;
            Ok(())
        },
        Value::Variant(idx, payload) => {
            let ghost buf0 = s.buf@;
            let ghost pos0 = s.pos as int;
            s.write_variant(*idx)?;
            match encode_value(s, &**payload) {
                Ok(u) => {
                    proof {
                        lemma_splice_concat(buf0, pos0, seq![(*idx) as u8], wire(**payload));
                    }
                    Ok(())
                },
                Err(e) => {
                    proof {
                        assert(s.buf@.take(pos0) =~= buf0.take(pos0));
                        assert(s.buf@.skip(s.pos as int) =~= buf0.skip(s.pos as int));
                    }
                    Err(e)
                },
            }
        },
    }
}

/// Encodes a list of values one after the other at the serializer's cursor;
/// on failure the writes are confined as in [`encode_value`].
pub fn encode_list(s: &mut Serializer, l: &ValueList) -> (r: Result<(), Error>)
    requires
        old(s).wf(),
    ensures
        final(s).wf(),
        final(s).buf@.len() == old(s).buf@.len(),
        match r {
            Ok(u) => list_encodable(*l) && wire_list(*l).len() <= old(s).rem() && final(s).pos
                == old(s).pos + wire_list(*l).len() && final(s).buf@ == splice(
                old(s).buf@,
                old(s).pos as int,
                wire_list(*l),
            ),
            Err(e) => ser_list(*l, old(s).rem()) == Err::<int, Error>(e) && writes_confined(
                *old(s),
                *final(s),
            ),
        },
    decreases *l,
{
    match l {
        ValueList::Nil => {
            proof {
                assert(s.buf@ =~= splice(s.buf@, s.pos as int, wire_list(*l)));
            }
            Ok(())
        },
        ValueList::Cons(head, tail) => {
            let ghost buf0 = s.buf@;
            let ghost pos0 = s.pos as int;
            let ghost rem0 = s.rem();
            encode_value(s, &**head)?;
            proof {
                lemma_ser_outcome(**head, rem0);
            }
            match encode_list(s, &**tail) {
                Ok(u) => {
                    proof {
                        lemma_splice_concat(buf0, pos0, wire(**head), wire_list(**tail));
                    }
                    Ok(())
                },
                Err(e) => {
                    proof {
                        assert(s.buf@.take(pos0) =~= buf0.take(pos0));
                        assert(s.buf@.skip(s.pos as int) =~= buf0.skip(s.pos as int));
                    }
                    Err(e)
                },
            }
        },
    }
}

/// Encodes `value` into the front of `buf`, whose length is never changed.
/// On success, returns the number of bytes used; the buffer then starts with
/// the value's wire encoding and keeps its old contents beyond that.
///
/// Encoding succeeds exactly when the value is encodable (it holds no `char`
/// and no variant index above 255) and its encoding fits in the buffer. A
/// failed encode may leave a partial prefix behind, but never writes at or
/// past the cursor position it was attempting (see
/// [`encode_value`]'s confinement clause), and a value rejected before any
/// write — a `char`, or an enum value whose index exceeds the one-byte tag —
/// leaves the buffer untouched. Callers should still treat the contents as
/// indeterminate after an error: `Overrun` means a larger buffer would have
/// succeeded, while `TooManyVariants` and `NotSupported` mean the value can
/// never be encoded.
pub fn serialize(buf: &mut Vec<u8>, value: &Value) -> (r: Result<usize, Error>)
    ensures
        final(buf)@.len() == old(buf)@.len(),
        r is Ok <==> encodable(*value) && wire(*value).len() <= old(buf)@.len(),
        match r {
            Ok(n) => n == wire(*value).len() && final(buf)@ == wire(*value) + old(buf)@.skip(
                n as int,
            ),
            Err(e) => ser_s(*value, old(buf)@.len() as int) == Err::<int, Error>(e),
        },
        *value is Char ==> final(buf)@ == old(buf)@,
        *value matches Value::Variant(idx, _) && idx > 255 ==> final(buf)@ == old(buf)@,
{
    let mut s = Serializer { buf: Vec::new(), pos: 0 };
    core::mem::swap(&mut s.buf, buf);
    let res = encode_value(&mut s, value);
    core::mem::swap(&mut s.buf, buf);
    proof {
        lemma_ser_outcome(*value, old(buf)@.len() as int);
        if res is Ok {
            assert(wire(*value) + old(buf)@.skip(wire(*value).len() as int) =~= splice(
                old(buf)@,
                0,
                wire(*value),
            ));
        }
    }
    match res {
        Ok(u) => Ok(s.pos),
        Err(e) => Err(e),
    }
}

} // verus!

