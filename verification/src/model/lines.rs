//! Operations along the last dimension of a tensor.

use vstd::prelude::*;

use crate::tensor::expr;
use crate::tensor::expr::{Tensor, TensorError};
use crate::tensor::scalar::{Real, Scalar};
use crate::tensor::term;
use crate::tensor::term::Term;
use crate::tensor::typing::DType;

verus! {

broadcast use crate::tensor::term::typing_rules;

/// The position of the last dimension.
pub open spec fn last_axis(x: Term) -> usize {
    (x.shape().spec_rank() - 1) as usize
}

/// The length of the last dimension.
pub open spec fn last_len(x: Term) -> usize {
    x.shape().spec_dim(x.shape().spec_rank() - 1)
}

/// The position of the last dimension, if there is one.
pub fn axis_of(x: &Tensor) -> (r: Result<usize, TensorError>)
    ensures
        match r {
            Ok(d) => x@.shape().spec_rank() > 0 && d == last_axis(x@) && term::typ(x@) is Some,
            Err(_) => x@.shape().spec_rank() == 0,
        },
{
    let rank: usize = x.shape().rank();
    if rank == 0 {
        Err(TensorError::Mismatch)
    } else {
        Ok(rank - 1)
    }
}

/// The running sum along the last dimension.
#[verifier::opaque]
pub open spec fn cumsum_last(x: Term) -> Term {
    if x.shape().spec_rank() == 0 {
        Term::undefined()
    } else {
        x.cumsum(last_axis(x))
    }
}

/// The running sum along the last dimension.
pub fn cumsum_last_dim(x: &Tensor) -> (r: Result<Tensor, TensorError>)
    ensures
        expr::gives(r, cumsum_last(x@)),
{
    proof {
        reveal(cumsum_last);
    }
    let dim: usize = axis_of(x)?;
    x.cumsum(dim)
}

/// Entries of one value, of the type of `x`, in place of the last dimension.
#[verifier::opaque]
pub open spec fn constant_last(x: Term, n: usize, value: Scalar) -> Term {
    if term::typ(x) is None || x.shape().spec_rank() == 0 {
        Term::undefined()
    } else {
        Term::full(
            value,
            DType::F32,
            x.shape().spec_with_dim(x.shape().spec_rank() - 1, n),
        ).cast(x.dtype())
    }
}

/// Entries of one value in place of the last dimension.
pub fn constants(x: &Tensor, n: usize, value: Scalar) -> (r: Result<Tensor, TensorError>)
    ensures
        expr::gives(r, constant_last(x@, n, value)),
{
    proof {
        reveal(constant_last);
    }
    let dim: usize = axis_of(x)?;
    Tensor::full(value, DType::F32, x.shape().with_dim(dim, n))?.cast(x.dtype())
}

/// A tensor with entries of one value before and behind those of the last dimension.
#[verifier::opaque]
pub open spec fn padded_last(x: Term, left: usize, right: usize, value: Scalar) -> Term {
    if x.shape().spec_rank() == 0 {
        Term::undefined()
    } else {
        let front = if left > 0 {
            constant_last(x, left, value).concat(x, last_axis(x))
        } else {
            x
        };
        if right > 0 {
            front.concat(constant_last(x, right, value), last_axis(x))
        } else {
            front
        }
    }
}

/// A tensor with entries of one value before and behind those of the last dimension.
pub fn pad_last_dim(x: &Tensor, left: usize, right: usize, value: Scalar) -> (r: Result<
    Tensor,
    TensorError,
>)
    ensures
        expr::gives(r, padded_last(x@, left, right, value)),
{
    proof {
        reveal(padded_last);
    }
    let dim: usize = axis_of(x)?;
    let front = if left > 0 {
        constants(x, left, value)?.concat(x, dim)?
    } else {
        x.clone()
    };
    if right > 0 {
        front.concat(&constants(x, right, value)?, dim)
    } else {
        Ok(front)
    }
}

/// A tensor in which the entries of a dimension from `start` on are those of `fill`.
#[verifier::opaque]
pub open spec fn overwritten(x: Term, dim: usize, start: usize, fill: Term) -> Term {
    let len = fill.shape().spec_dim(dim as int);
    let total = x.shape().spec_dim(dim as int);
    if term::typ(x) is None || dim >= fill.shape().spec_rank() || dim >= x.shape().spec_rank()
        || start + len > usize::MAX {
        Term::undefined()
    } else {
        let front = if start > 0 {
            x.narrow(dim, 0, start).concat(fill, dim)
        } else {
            fill
        };
        if start + len < total {
            front.concat(
                x.narrow(dim, (start + len) as usize, (total - (start + len)) as usize),
                dim,
            )
        } else {
            front
        }
    }
}

/// A tensor in which the entries of a dimension from `start` on are those of `fill`.
pub fn overwrite_slice(x: &Tensor, dim: usize, start: usize, fill: &Tensor) -> (r: Result<
    Tensor,
    TensorError,
>)
    ensures
        expr::gives(r, overwritten(x@, dim, start, fill@)),
{
    proof {
        reveal(overwritten);
    }
    if dim >= fill.shape().rank() || dim >= x.shape().rank() {
        return Err(TensorError::Mismatch);
    }
    let len: usize = fill.shape().dim(dim);
    let total: usize = x.shape().dim(dim);
    let after_start: usize = match start.checked_add(len) {
        Some(n) => n,
        None => return Err(TensorError::Mismatch),
    };
    let front = if start > 0 {
        x.narrow(dim, 0, start)?.concat(fill, dim)?
    } else {
        fill.clone()
    };
    if after_start < total {
        front.concat(&x.narrow(dim, after_start, total - after_start)?, dim)
    } else {
        Ok(front)
    }
}

/// A tensor in which one entry of the last dimension has one value everywhere.
#[verifier::opaque]
pub open spec fn with_last(x: Term, idx: usize, value: Scalar) -> Term {
    overwritten(x, last_axis(x), idx, constant_last(x, 1, value))
}

/// A tensor in which one entry of the last dimension has one value everywhere.
pub fn set_last_dim_index(x: &Tensor, idx: usize, value: Scalar) -> (r: Result<
    Tensor,
    TensorError,
>)
    ensures
        expr::gives(r, with_last(x@, idx, value)),
{
    proof {
        reveal(with_last);
        reveal(overwritten);
        reveal(constant_last);
    }
    let fill = constants(x, 1, value)?;
    let dim: usize = axis_of(x)?;
    overwrite_slice(x, dim, idx, &fill)
}

/// A tensor with a number added to the last entry of the last dimension.
#[verifier::opaque]
pub open spec fn bumped(x: Term, eps: Real) -> Term {
    if x.shape().spec_rank() == 0 || last_len(x) == 0 {
        Term::undefined()
    } else {
        let end = (last_len(x) - 1) as usize;
        overwritten(
            x,
            last_axis(x),
            end,
            x.narrow(last_axis(x), end, 1).shift(Scalar::Value(eps)),
        )
    }
}

/// A tensor with a number added to the last entry of the last dimension.
pub fn bump_last_index(x: &Tensor, eps: Real) -> (r: Result<Tensor, TensorError>)
    ensures
        expr::gives(r, bumped(x@, eps)),
{
    proof {
        reveal(bumped);
        reveal(overwritten);
    }
    let dim: usize = axis_of(x)?;
    let len: usize = x.shape().dim(dim);
    if len == 0 {
        return Err(TensorError::Mismatch);
    }
    let last = x.narrow(dim, len - 1, 1)?;
    let bumped_entry = last.shift(Scalar::Value(eps))?;
    overwrite_slice(x, dim, len - 1, &bumped_entry)
}

/// Of every line along the last dimension the entry that `idx` names, without that dimension.
#[verifier::opaque]
pub open spec fn picked(x: Term, idx: Term) -> Term {
    x.gather_last(idx).squeeze(last_axis(x.gather_last(idx)))
}

/// Of every line along the last dimension the entry that `idx` names, without that dimension.
pub fn gather_last(x: &Tensor, idx: &Tensor) -> (r: Result<Tensor, TensorError>)
    ensures
        expr::gives(r, picked(x@, idx@)),
{
    proof {
        reveal(picked);
    }
    let gathered = x.gather_last(idx)?;
    let dim: usize = axis_of(&gathered)?;
    gathered.squeeze(dim)
}

/// Of the last dimension, from `start` on, `len` entries.
#[verifier::opaque]
pub open spec fn slice_last(x: Term, start: usize, len: usize) -> Term {
    if x.shape().spec_rank() == 0 {
        Term::undefined()
    } else {
        x.narrow(last_axis(x), start, len)
    }
}

/// Of the last dimension, from `start` on, `len` entries.
pub fn narrow_last(x: &Tensor, start: usize, len: usize) -> (r: Result<Tensor, TensorError>)
    ensures
        expr::gives(r, slice_last(x@, start, len)),
{
    proof {
        reveal(slice_last);
    }
    let dim: usize = axis_of(x)?;
    x.narrow(dim, start, len)
}

/// Nothing comes of nothing: `cumsum_last`.
pub broadcast proof fn strict_cumsum_last(x: Term)
    ensures
        (#[trigger] term::typ(cumsum_last(x))) is Some ==> term::typ(x) is Some,
{
    reveal(cumsum_last);
}

/// Nothing comes of nothing: `constant_last`.
pub broadcast proof fn strict_constant_last(x: Term, n: usize, value: Scalar)
    ensures
        (#[trigger] term::typ(constant_last(x, n, value))) is Some ==> term::typ(x) is Some,
{
    reveal(constant_last);
}

/// Nothing comes of nothing: `padded_last`.
pub broadcast proof fn strict_padded_last(x: Term, left: usize, right: usize, value: Scalar)
    ensures
        (#[trigger] term::typ(padded_last(x, left, right, value))) is Some ==> term::typ(x) is Some,
{
    reveal(padded_last);
}

/// Nothing comes of nothing: `overwritten`.
pub broadcast proof fn strict_overwritten(x: Term, dim: usize, start: usize, fill: Term)
    ensures
        (#[trigger] term::typ(overwritten(x, dim, start, fill))) is Some ==> term::typ(x) is Some && term::typ(fill) is Some,
{
    reveal(overwritten);
}

/// Nothing comes of nothing: `with_last`.
pub broadcast proof fn strict_with_last(x: Term, idx: usize, value: Scalar)
    ensures
        (#[trigger] term::typ(with_last(x, idx, value))) is Some ==> term::typ(x) is Some,
{
    reveal(with_last);
    strict_overwritten(x, last_axis(x), idx, constant_last(x, 1, value));
}

/// Nothing comes of nothing: `bumped`.
pub broadcast proof fn strict_bumped(x: Term, eps: Real)
    ensures
        (#[trigger] term::typ(bumped(x, eps))) is Some ==> term::typ(x) is Some,
{
    reveal(bumped);
    reveal(overwritten);
}

/// Nothing comes of nothing: `picked`.
pub broadcast proof fn strict_picked(x: Term, idx: Term)
    ensures
        (#[trigger] term::typ(picked(x, idx))) is Some ==> term::typ(x) is Some && term::typ(idx) is Some,
{
    reveal(picked);
}

/// Nothing comes of nothing: `slice_last`.
pub broadcast proof fn strict_slice_last(x: Term, start: usize, len: usize)
    ensures
        (#[trigger] term::typ(slice_last(x, start, len))) is Some ==> term::typ(x) is Some,
{
    reveal(slice_last);
}

/// Every operation of this module has a result only if its operands have one.
pub broadcast group strict_rules {
    strict_cumsum_last,
    strict_constant_last,
    strict_padded_last,
    strict_overwritten,
    strict_with_last,
    strict_bumped,
    strict_picked,
    strict_slice_last,
}

} // verus!
