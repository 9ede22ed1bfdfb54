//! Reversal of dimensions.

use vstd::prelude::*;

use crate::tensor::expr;
use crate::tensor::expr::{Tensor, TensorError};
use crate::tensor::index;
use crate::tensor::ops::Op1;
use crate::tensor::shape::Shape;
use crate::tensor::term;
use crate::tensor::term::Term;

verus! {

broadcast use crate::tensor::term::strictness;

/// A tensor with the entries of each of the dimensions from `dims[i]` on in reverse.
pub open spec fn flipped_from(x: Term, dims: Seq<usize>, i: int) -> Term
    decreases dims.len() - i,
{
    if i < 0 || i >= dims.len() {
        x
    } else {
        flipped_from(x.reverse(dims[i]), dims, i + 1)
    }
}

proof fn lemma_undefined(x: Term, dims: Seq<usize>, i: int)
    requires
        term::typ(x) is None,
    ensures
        term::typ(flipped_from(x, dims, i)) is None,
    decreases dims.len() - i,
{
    if 0 <= i < dims.len() {
        lemma_undefined(x.reverse(dims[i]), dims, i + 1);
    }
}

/// Reversing a single dimension.
pub proof fn lemma_flip_one(x: Term, dims: Seq<usize>)
    requires
        dims.len() == 1,
    ensures
        flipped_from(x, dims, 0) == x.reverse(dims[0]),
{
    reveal_with_fuel(flipped_from, 2);
}

/// Whether dimension `d` is one of those from `dims[i]` on.
pub open spec fn listed(dims: Seq<usize>, i: int, d: int) -> bool {
    exists|k: int| i <= k < dims.len() && #[trigger] dims[k] == d
}

/// Coordinates with those along the dimensions from `dims[i]` on counted from the other end.
pub open spec fn mirrored(shape: Shape, dims: Seq<usize>, i: int, at: Seq<int>) -> Seq<int> {
    Seq::new(
        at.len(),
        |d: int|
            if listed(dims, i, d) {
                shape.spec_dim(d) - 1 - at[d]
            } else {
                at[d]
            },
    )
}

proof fn lemma_flipped_type(x: Term, dims: Seq<usize>, i: int)
    requires
        term::typ(x) is Some,
        forall|k: int| 0 <= k < dims.len() ==> #[trigger] dims[k] < x.shape().spec_rank(),
        0 <= i,
    ensures
        term::typ(flipped_from(x, dims, i)) == term::typ(x),
    decreases dims.len() - i,
{
    if i < dims.len() {
        assert(dims[i] < x.shape().spec_rank());
        term::typ_one(x, Op1::Reverse(dims[i]));
        lemma_flipped_type(x.reverse(dims[i]), dims, i + 1);
    }
}

proof fn lemma_flipped_from(x: Term, dims: Seq<usize>, i: int, at: Seq<int>)
    requires
        term::typ(x) is Some,
        forall|k: int| 0 <= k < dims.len() ==> #[trigger] dims[k] < x.shape().spec_rank(),
        dims.no_duplicates(),
        0 <= i <= dims.len(),
        index::within(x.shape(), at),
    ensures
        index::origin(flipped_from(x, dims, i), index::position(x.shape(), at)) == index::origin(
            x,
            index::position(x.shape(), mirrored(x.shape(), dims, i, at)),
        ),
    decreases dims.len() - i,
{
    let shape = x.shape();
    if i < dims.len() {
        let dim = dims[i];
        let y = x.reverse(dim);
        assert(dim < shape.spec_rank());
        term::typ_one(x, Op1::Reverse(dim));
        lemma_flipped_from(y, dims, i + 1, at);
        let rest = mirrored(shape, dims, i + 1, at);
        lemma_mirrored_within(shape, dims, i + 1, at);
        index::lemma_origin_mirrored(x, dim, rest);
        assert(!listed(dims, i + 1, dim as int));
        let all = mirrored(shape, dims, i, at);
        assert(rest.update(dim as int, shape.spec_dim(dim as int) - 1 - rest[dim as int]) =~= all)
            by {
            assert forall|d: int| 0 <= d < at.len() && d != dim implies listed(dims, i, d)
                == listed(dims, i + 1, d) by {
                if listed(dims, i + 1, d) {
                    let k = choose|k: int| i + 1 <= k < dims.len() && #[trigger] dims[k] == d;
                    assert(dims[k] == d);
                }
            }
            assert(dims[i] == dim);
            assert(listed(dims, i, dim as int));
        }
    } else {
        assert(mirrored(shape, dims, i, at) =~= at);
    }
}

proof fn lemma_mirrored_within(shape: Shape, dims: Seq<usize>, i: int, at: Seq<int>)
    requires
        index::within(shape, at),
    ensures
        index::within(shape, mirrored(shape, dims, i, at)),
        mirrored(shape, dims, i, mirrored(shape, dims, i, at)) =~= at,
{
    let other = mirrored(shape, dims, i, at);
    assert forall|d: int| 0 <= d < other.len() implies 0 <= #[trigger] other[d] < shape.spec_dim(
        d,
    ) by {
        assert(0 <= at[d] < shape.spec_dim(d));
    }
}

/// Reversing distinct dimensions keeps the type, and the element at some coordinates is the one
/// whose coordinates along those dimensions are counted from the other end.
pub proof fn lemma_flip(x: Term, dims: Seq<usize>, at: Seq<int>)
    requires
        term::typ(x) is Some,
        forall|k: int| 0 <= k < dims.len() ==> #[trigger] dims[k] < x.shape().spec_rank(),
        dims.no_duplicates(),
        index::within(x.shape(), at),
    ensures
        term::typ(flipped_from(x, dims, 0)) == term::typ(x),
        index::origin(flipped_from(x, dims, 0), index::position(x.shape(), at)) == index::origin(
            x,
            index::position(x.shape(), mirrored(x.shape(), dims, 0, at)),
        ),
{
    lemma_flipped_type(x, dims, 0);
    lemma_flipped_from(x, dims, 0, at);
}

/// Reversing distinct dimensions twice changes nothing.
pub proof fn lemma_flip_twice(x: Term, dims: Seq<usize>, at: Seq<int>)
    requires
        term::typ(x) is Some,
        forall|k: int| 0 <= k < dims.len() ==> #[trigger] dims[k] < x.shape().spec_rank(),
        dims.no_duplicates(),
        index::within(x.shape(), at),
    ensures
        term::typ(flipped_from(flipped_from(x, dims, 0), dims, 0)) == term::typ(x),
        index::origin(
            flipped_from(flipped_from(x, dims, 0), dims, 0),
            index::position(x.shape(), at),
        ) == index::origin(x, index::position(x.shape(), at)),
{
    lemma_flip(x, dims, at);
    lemma_flip(flipped_from(x, dims, 0), dims, at);
    lemma_mirrored_within(x.shape(), dims, 0, at);
    lemma_flip(x, dims, mirrored(x.shape(), dims, 0, at));
}

/// Reversing no dimension changes nothing.
pub proof fn lemma_flip_none(x: Term)
    ensures
        flipped_from(x, Seq::empty(), 0) == x,
{
}

/// Reversal of dimensions.
pub trait FlipExt: View<V = Term> {
    /// The tensor with the entries of each of the given dimensions in reverse.
    fn flip(&self, dims: &[usize]) -> (r: Result<Tensor, TensorError>)
        ensures
            expr::gives(r, flipped_from(self@, dims@, 0)),
    ;
}

impl FlipExt for Tensor {
    fn flip(&self, dims: &[usize]) -> (r: Result<Tensor, TensorError>) {
        let mut out = self.clone();
        let _ = out.ty();
        let mut i: usize = 0;
        while i < dims.len()
            invariant
                i <= dims@.len(),
                term::typ(out@) is Some,
                flipped_from(self@, dims@, 0) == flipped_from(out@, dims@, i as int),
            decreases dims@.len() - i,
        {
            proof {
                let next = out@.reverse(dims@[i as int]);
                if term::typ(next) is None {
                    lemma_undefined(next, dims@, i + 1);
                }
            }
            out = out.reverse(dims[i])?;
            i = i + 1;
        }
        Ok(out)
    }
}

/// The tensor with its channels, which are dimension 1, in reverse.
pub fn flip_channels(x: &Tensor) -> (r: Result<Tensor, TensorError>)
    ensures
        expr::gives(r, x@.reverse(1)),
{
    let dims: [usize; 1] = [1];
    proof {
        lemma_flip_one(x@, dims@);
    }
    x.flip(&dims)
}

} // verus!
