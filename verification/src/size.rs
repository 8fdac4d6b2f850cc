//! The size oracle: the maximum encoded size of a type, computed from its
//! shape alone, before any value exists, together with the shape validation
//! that rejects type shapes the wire format cannot carry.

use vstd::prelude::*;

use crate::error::Error;
use crate::wire::max_of_max_sizes;
use crate::wire::shape_list_wf;
use crate::wire::shape_wf;
use crate::wire::spec_max_size;
use crate::wire::sum_max_size;
use crate::wire::Shape;

verus! {

/// The outcome of validating a type shape: `Ok` for a well-formed shape, or
/// the first defect found in declaration order. An enum with more than 256
/// variants is reported at the enum itself, before its variants are visited.
pub open spec fn shape_check_s(t: Shape) -> Result<(), Error>
    decreases t, 1int, 0int,
{
    match t {
        Shape::Char => Err(Error::NotSupported),
        Shape::Optional(inner) => shape_check_s(*inner),
        Shape::Array(_, inner) => shape_check_s(*inner),
        Shape::Record(fields) => shape_list_check_s(fields@),
        Shape::Choice(variants) => if variants@.len() > 256 {
            Err(Error::TooManyVariants)
        } else {
            shape_list_check_s(variants@)
        },
        _ => Ok(()),
    }
}

/// The outcome of validating each shape of a list in order, stopping at the
/// first defect.
pub open spec fn shape_list_check_s(ts: Seq<Shape>) -> Result<(), Error>
    decreases ts, 0int, 0int,
{
    if ts.len() == 0 {
        Ok(())
    } else {
        match shape_check_s(ts[0]) {
            Ok(u) => shape_list_check_s(ts.subrange(1, ts.len() as int)),
            Err(e) => Err(e),
        }
    }
}

/// Validation succeeds exactly on well-formed shapes.
pub proof fn lemma_shape_check_wf(t: Shape)
    ensures
        shape_check_s(t) is Ok <==> shape_wf(t),
    decreases t, 1int, 0int,
{
    match t {
        Shape::Optional(inner) => lemma_shape_check_wf(*inner),
        Shape::Array(_, inner) => lemma_shape_check_wf(*inner),
        Shape::Record(fields) => lemma_shape_list_check_wf(fields@),
        Shape::Choice(variants) => lemma_shape_list_check_wf(variants@),
        _ => (),
    }
}

/// List validation succeeds exactly when every shape of the list is well
/// formed.
pub proof fn lemma_shape_list_check_wf(ts: Seq<Shape>)
    ensures
        shape_list_check_s(ts) is Ok <==> shape_list_wf(ts),
    decreases ts, 0int, 0int,
{
    if ts.len() > 0 {
        let rest = ts.subrange(1, ts.len() as int);
        lemma_shape_check_wf(ts[0]);
        lemma_shape_list_check_wf(rest);
        assert forall|i: int| 0 <= i < ts.len() && shape_wf(ts[0]) && shape_list_wf(rest)
            implies shape_wf(#[trigger] ts[i]) by {
            if i > 0 {
                assert(ts[i] == rest[i - 1]);
            }
        }
        if shape_list_wf(ts) {
            assert(shape_wf(ts[0]));
            assert forall|i: int| 0 <= i < rest.len() implies shape_wf(#[trigger] rest[i]) by {
                assert(rest[i] == ts[i + 1]);
            }
        }
    }
}

/// The maximum size of every shape is nonnegative.
pub proof fn lemma_max_size_nonneg(t: Shape)
    ensures
        spec_max_size(t) >= 0,
    decreases t, 1int, 0int,
{
    match t {
        Shape::Optional(inner) => lemma_max_size_nonneg(*inner),
        Shape::Array(n, inner) => {
            lemma_max_size_nonneg(*inner);
            let m = spec_max_size(*inner);
            assert(n * m >= 0) by (nonlinear_arith)
                requires n >= 0 && m >= 0;
        },
        Shape::Record(fields) => lemma_sum_max_size_nonneg(fields@),
        Shape::Choice(variants) => lemma_max_of_max_sizes_nonneg(variants@),
        _ => (),
    }
}

/// The summed maximum size of a field list is nonnegative.
pub proof fn lemma_sum_max_size_nonneg(ts: Seq<Shape>)
    ensures
        sum_max_size(ts) >= 0,
    decreases ts, 0int, 0int,
{
    if ts.len() > 0 {
        lemma_max_size_nonneg(ts[0]);
        lemma_sum_max_size_nonneg(ts.subrange(1, ts.len() as int));
    }
}

/// The largest maximum size among a variant list is nonnegative.
pub proof fn lemma_max_of_max_sizes_nonneg(ts: Seq<Shape>)
    ensures
        max_of_max_sizes(ts) >= 0,
    decreases ts, 0int, 0int,
{
    if ts.len() > 0 {
        lemma_max_size_nonneg(ts[0]);
        lemma_max_of_max_sizes_nonneg(ts.subrange(1, ts.len() as int));
    }
}

/// Validates a type shape, rejecting at definition time any shape the wire
/// format cannot carry: an unsupported leaf yields `NotSupported`, an enum
/// with more than 256 variants yields `TooManyVariants`.
pub fn check_shape(t: &Shape) -> (r: Result<(), Error>)
    ensures
        r == shape_check_s(*t),
        r is Ok <==> shape_wf(*t),
    decreases *t, 1int, 0int,
{
    proof {
        lemma_shape_check_wf(*t);
    }
    match t {
        Shape::Char => Err(Error::NotSupported),
        Shape::Optional(inner) => check_shape(&**inner),
        Shape::Array(_, inner) => check_shape(&**inner),
        Shape::Record(fields) => check_shape_list(fields.as_slice()),
        Shape::Choice(variants) => {
            if variants.len() > 256 {
                Err(Error::TooManyVariants)
            } else {
                check_shape_list(variants.as_slice())
            }
        },
        _ => Ok(()),
    }
}

/// Validates each shape of a list in order, stopping at the first defect.
pub fn check_shape_list(ts: &[Shape]) -> (r: Result<(), Error>)
    ensures
        r == shape_list_check_s(ts@),
    decreases ts@, 0int, 0int,
{
    if ts.len() == 0 {
        Ok(())
    } else {
        match check_shape(vstd::slice::slice_index_get(ts, 0)) {
            Ok(u) => check_shape_list(vstd::slice::slice_subrange(ts, 1, ts.len())),
            Err(e) => Err(e),
        }
    }
}

/// The maximum number of bytes the wire format can produce for any value of
/// shape `t`, or `None` where that bound does not fit in `usize`.
#[verifier::rlimit(30)]
#[verifier::spinoff_prover]
pub fn max_size(t: &Shape) -> (r: Option<usize>)
    ensures
        r matches Some(n) ==> n == spec_max_size(*t),
        r is None ==> spec_max_size(*t) > usize::MAX,
    decreases *t, 1int, 0int,
{
    match t {
        Shape::Unit => Some(0),
        Shape::Bool => Some(1),
        Shape::U8 => Some(1),
        Shape::U16 => Some(2),
        Shape::U32 => Some(4),
        Shape::U64 => Some(8),
        Shape::U128 => Some(16),
        Shape::I8 => Some(1),
        Shape::I16 => Some(2),
        Shape::I32 => Some(4),
        Shape::I64 => Some(8),
        Shape::I128 => Some(16),
        Shape::F32 => Some(4),
        Shape::F64 => Some(8),
        Shape::Char => Some(4),
        Shape::Optional(inner) => match max_size(&**inner) {
            Some(m) => m.checked_add(1),
            None => None,
        },
        Shape::Array(n, inner) => {
            if *n == 0 {
                Some(0)
            } else {
                match max_size(&**inner) {
                    Some(m) => {
                        let r = n.checked_mul(m);
                        proof {
                            if r is None {
                                let prod = spec_max_size(*t);
                                assert(prod == *n * m);
                            }
                        }
                        r
                    },
                    None => {
                        proof {
                            let ni = *n as int;
                            let m = spec_max_size(**inner);
                            assert(ni * m >= 1 * m) by (nonlinear_arith)
                                requires ni >= 1 && m >= 0;
                            lemma_max_size_nonneg(**inner);
                        }
                        None
                    },
                }
            }
        },
        Shape::Record(fields) => sum_sizes(fields.as_slice()),
        Shape::Choice(variants) => match max_sizes(variants.as_slice()) {
            Some(m) => m.checked_add(1),
            None => None,
        },
    }
}

/// The summed maximum size of a list of field shapes, or `None` where the sum
/// does not fit in `usize`.
pub fn sum_sizes(ts: &[Shape]) -> (r: Option<usize>)
    ensures
        r matches Some(n) ==> n == sum_max_size(ts@),
        r is None ==> sum_max_size(ts@) > usize::MAX,
    decreases ts@, 0int, 0int,
{
    if ts.len() == 0 {
        Some(0)
    } else {
        let head = max_size(vstd::slice::slice_index_get(ts, 0));
        let ghost rest = ts@.subrange(1, ts@.len() as int);
        proof {
            lemma_max_size_nonneg(ts@[0]);
            lemma_sum_max_size_nonneg(rest);
        }
        match head {
            Some(a) => match sum_sizes(vstd::slice::slice_subrange(ts, 1, ts.len())) {
                Some(b) => a.checked_add(b),
                None => None,
            },
            None => None,
        }
    }
}

/// The largest maximum size among a list of variant payload shapes (0 for an
/// empty list), or `None` where that bound does not fit in `usize`.
pub fn max_sizes(ts: &[Shape]) -> (r: Option<usize>)
    ensures
        r matches Some(n) ==> n == max_of_max_sizes(ts@),
        r is None ==> max_of_max_sizes(ts@) > usize::MAX,
    decreases ts@, 0int, 0int,
{
    if ts.len() == 0 {
        Some(0)
    } else {
        let head = max_size(vstd::slice::slice_index_get(ts, 0));
        let ghost rest = ts@.subrange(1, ts@.len() as int);
        proof {
            lemma_max_size_nonneg(ts@[0]);
            lemma_max_of_max_sizes_nonneg(rest);
        }
        match head {
            Some(a) => match max_sizes(vstd::slice::slice_subrange(ts, 1, ts.len())) {
                Some(b) => Some(const_max(a, b)),
                None => None,
            },
            None => None,
        }
    }
}

/// The larger of two sizes.
pub fn const_max(a: usize, b: usize) -> (r: usize)
    ensures
        r == if a > b { a as int } else { b as int },
{
    if a > b {
        a
    } else {
        b
    }
}

/// A type with a statically known maximum encoded size: any value of the
/// type encodes to at most that many bytes, so a buffer of that size can be
/// allocated before any value exists.
pub trait SerializedSize {
    /// The maximum encoded size of any value of this type, in bytes.
    spec fn spec_size() -> nat;

    /// The maximum encoded size as a machine integer, or `None` where the
    /// bound does not fit in `usize`.
    fn max_size() -> (r: Option<usize>)
        ensures
            r matches Some(n) ==> n == Self::spec_size(),
            r is None ==> Self::spec_size() > usize::MAX,
    ;
}

impl SerializedSize for () {
    open spec fn spec_size() -> nat {
        0
    }

    fn max_size() -> (r: Option<usize>) {
        Some(0)
    }
}

impl SerializedSize for bool {
    open spec fn spec_size() -> nat {
        1
    }

    fn max_size() -> (r: Option<usize>) {
        Some(1)
    }
}

impl SerializedSize for char {
    open spec fn spec_size() -> nat {
        4
    }

    fn max_size() -> (r: Option<usize>) {
        Some(4)
    }
}

impl SerializedSize for u8 {
    open spec fn spec_size() -> nat {
        1
    }

    fn max_size() -> (r: Option<usize>) {
        Some(1)
    }
}

impl SerializedSize for u16 {
    open spec fn spec_size() -> nat {
        2
    }

    fn max_size() -> (r: Option<usize>) {
        Some(2)
    }
}

impl SerializedSize for u32 {
    open spec fn spec_size() -> nat {
        4
    }

    fn max_size() -> (r: Option<usize>) {
        Some(4)
    }
}

impl SerializedSize for u64 {
    open spec fn spec_size() -> nat {
        8
    }

    fn max_size() -> (r: Option<usize>) {
        Some(8)
    }
}

impl SerializedSize for u128 {
    open spec fn spec_size() -> nat {
        16
    }

    fn max_size() -> (r: Option<usize>) {
        Some(16)
    }
}

impl SerializedSize for i8 {
    open spec fn spec_size() -> nat {
        1
    }

    fn max_size() -> (r: Option<usize>) {
        Some(1)
    }
}

impl SerializedSize for i16 {
    open spec fn spec_size() -> nat {
        2
    }

    fn max_size() -> (r: Option<usize>) {
        Some(2)
    }
}

impl SerializedSize for i32 {
    open spec fn spec_size() -> nat {
        4
    }

    fn max_size() -> (r: Option<usize>) {
        Some(4)
    }
}

impl SerializedSize for i64 {
    open spec fn spec_size() -> nat {
        8
    }

    fn max_size() -> (r: Option<usize>) {
        Some(8)
    }
}

impl SerializedSize for i128 {
    open spec fn spec_size() -> nat {
        16
    }

    fn max_size() -> (r: Option<usize>) {
        Some(16)
    }
}

impl<T: SerializedSize> SerializedSize for Option<T> {
    open spec fn spec_size() -> nat {
        1 + T::spec_size()
    }

    fn max_size() -> (r: Option<usize>) {
        match T::max_size() {
            Some(m) => if m < usize::MAX {
                Some(m + 1)
            } else {
                None
            },
            None => None,
        }
    }
}

impl<T: SerializedSize, E: SerializedSize> SerializedSize for Result<T, E> {
    open spec fn spec_size() -> nat {
        1 + if T::spec_size() >= E::spec_size() {
            T::spec_size()
        } else {
            E::spec_size()
        }
    }

    fn max_size() -> (r: Option<usize>) {
        match (T::max_size(), E::max_size()) {
            (Some(a), Some(b)) => {
                let m = const_max(a, b);
                if m < usize::MAX {
                    Some(m + 1)
                } else {
                    None
                }
            },
            _ => None,
        }
    }
}

impl<T: SerializedSize, const N: usize> SerializedSize for [T; N] {
    open spec fn spec_size() -> nat {
        (N as nat) * T::spec_size()
    }

    fn max_size() -> (r: Option<usize>) {
        if N == 0 {
            Some(0)
        } else {
            match T::max_size() {
                Some(m) => N.checked_mul(m),
                None => {
                    proof {
                        let s = T::spec_size() as int;
                        let k = N as int;
                        assert(k * s >= 1 * s) by (nonlinear_arith)
                            requires
                                k >= 1 && s >= 0,
                        ;
                    }
                    None
                },
            }
        }
    }
}

impl<A: SerializedSize> SerializedSize for (A,) {
    open spec fn spec_size() -> nat {
        A::spec_size()
    }

    fn max_size() -> (r: Option<usize>) {
        A::max_size()
    }
}

impl<A: SerializedSize, B: SerializedSize> SerializedSize for (A, B) {
    open spec fn spec_size() -> nat {
        A::spec_size() + B::spec_size()
    }

    fn max_size() -> (r: Option<usize>) {
        match (A::max_size(), B::max_size()) {
            (Some(a), Some(b)) => a.checked_add(b),
            _ => None,
        }
    }
}

impl<A: SerializedSize, B: SerializedSize, C: SerializedSize> SerializedSize for (A, B, C) {
    open spec fn spec_size() -> nat {
        A::spec_size() + B::spec_size() + C::spec_size()
    }

    fn max_size() -> (r: Option<usize>) {
        match (A::max_size(), B::max_size(), C::max_size()) {
            (Some(a), Some(b), Some(c)) => match a.checked_add(b) {
                Some(ab) => ab.checked_add(c),
                None => None,
            },
            _ => None,
        }
    }
}

} // verus!
