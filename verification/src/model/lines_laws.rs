//! What operations along a dimension do to single elements.

use vstd::prelude::*;

use crate::model::lines;
use crate::tensor::index;
use crate::tensor::scalar::{Real, Scalar};
use crate::tensor::term;
use crate::tensor::term::Term;

verus! {

/// In an overwritten dimension, the entries from `start` on are those of the fill, and the others
/// are as they were.
#[verifier::rlimit(60)]
pub proof fn lemma_overwritten(x: Term, dim: usize, start: usize, fill: Term, o: int, k: int, r: int)
    requires
        term::typ(lines::overwritten(x, dim, start, fill)) is Some,
        dim < x.shape().spec_rank(),
        x.shape().spec_rank() == fill.shape().spec_rank(),
        x.shape().spec_with_dim(dim as int, 0) == fill.shape().spec_with_dim(dim as int, 0),
        start + fill.shape().spec_dim(dim as int) <= x.shape().spec_dim(dim as int),
        0 <= k < x.shape().spec_dim(dim as int),
        0 <= r < index::inner(x.shape(), dim as int),
    ensures
        ({
            let inn = index::inner(x.shape(), dim as int);
            let n = x.shape().spec_dim(dim as int) as int;
            let len = fill.shape().spec_dim(dim as int) as int;
            let p = index::place(n, inn, o, k, r);
            &&& lines::overwritten(x, dim, start, fill).shape() == x.shape()
            &&& index::origin(lines::overwritten(x, dim, start, fill), p) == if start <= k < start + len {
                index::origin(fill, index::place(len, inn, o, k - start, r))
            } else {
                index::origin(x, p)
            }
        }),
{
    broadcast use crate::tensor::term::strictness;

    reveal(lines::overwritten);
    let inn = index::inner(x.shape(), dim as int);
    let len = fill.shape().spec_dim(dim as int);
    let total = x.shape().spec_dim(dim as int);
    let head = x.narrow(dim, 0, start);
    let front = if start > 0 {
        head.concat(fill, dim)
    } else {
        fill
    };
    let tail = x.narrow(dim, (start + len) as usize, (total - (start + len)) as usize);
    index::lemma_with_dim(x.shape(), dim as int, 0, total);
    index::lemma_with_dim(x.shape(), dim as int, start, total);
    index::lemma_with_dim(x.shape(), dim as int, (start + len) as usize, total);
    index::lemma_with_dim(x.shape(), dim as int, (total - (start + len)) as usize, total);
    index::lemma_with_dim(fill.shape(), dim as int, 0, len);
    index::lemma_with_dim(fill.shape(), dim as int, 0, total);
    index::lemma_with_dim(x.shape(), dim as int, 0, len);
    if start + len < total {
        index::lemma_concat_shape(front, tail, dim);
        index::lemma_narrow_shape(
            x,
            dim,
            (start + len) as usize,
            (total - (start + len)) as usize,
        );
    }
    if start > 0 {
        index::lemma_concat_shape(head, fill, dim);
        index::lemma_narrow_shape(x, dim, 0, start);
    }
    if start > 0 {
        if k < start + len {
            index::lemma_origin_concat(head, fill, dim, o, k, r);
        }
        if k < start {
            index::lemma_origin_narrow(x, dim, 0, start, o, k, r);
        }
    }
    if start + len < total {
        index::lemma_origin_concat(front, tail, dim, o, k, r);
        if k >= start + len {
            index::lemma_origin_narrow(
                x,
                dim,
                (start + len) as usize,
                (total - (start + len)) as usize,
                o,
                k - (start + len),
                r,
            );
        }
    }
}

/// The shape of entries of one value in place of the last dimension.
pub(crate) proof fn lemma_constant_shape(x: Term, n: usize, value: Scalar)
    requires
        term::typ(lines::constant_last(x, n, value)) is Some,
    ensures
        x.shape().spec_rank() > 0,
        lines::constant_last(x, n, value).shape() == x.shape().spec_with_dim(
            x.shape().spec_rank() - 1,
            n,
        ),
{
    broadcast use crate::tensor::term::typing_rules;

    reveal(lines::constant_last);
}

/// Where a tensor of constants is moved from: it is not.
proof fn lemma_constant_origin(x: Term, n: usize, value: Scalar, p: int)
    requires
        term::typ(lines::constant_last(x, n, value)) is Some,
    ensures
        index::origin(lines::constant_last(x, n, value), p) == (
            lines::constant_last(x, n, value),
            p,
        ),
{
    broadcast use crate::tensor::term::strictness;

    reveal(lines::constant_last);
}

/// In a padded tensor, the first and the last entries of every line are the constant, and those
/// between are as they were.
pub proof fn lemma_padded(x: Term, left: usize, right: usize, value: Scalar, o: int, k: int)
    requires
        term::typ(lines::padded_last(x, left, right, value)) is Some,
        x.shape().spec_rank() > 0,
        0 <= k < left + lines::last_len(x) + right,
    ensures
        ({
            let n = lines::last_len(x) as int;
            let padded = lines::padded_last(x, left, right, value);
            let found = index::origin(padded, index::place(left + n + right, 1, o, k, 0));
            &&& left + n + right <= usize::MAX
            &&& padded.shape() == x.shape().spec_with_dim(
                x.shape().spec_rank() - 1,
                (left + n + right) as usize,
            )
            &&& if k < left {
                found.0 == lines::constant_last(x, left, value)
            } else if k < left + n {
                found == index::origin(x, index::place(n, 1, o, k - left, 0))
            } else {
                found.0 == lines::constant_last(x, right, value)
            }
        }),
{
    broadcast use crate::tensor::term::strictness;

    reveal(lines::padded_last);
    let axis = x.shape().spec_rank() - 1;
    let dim = lines::last_axis(x);
    let n = lines::last_len(x);
    let before = lines::constant_last(x, left, value);
    let after = lines::constant_last(x, right, value);
    let front = if left > 0 {
        before.concat(x, dim)
    } else {
        x
    };
    index::lemma_with_dim(x.shape(), axis, n, n);
    index::lemma_with_dim(x.shape(), axis, left, n);
    index::lemma_with_dim(x.shape(), axis, right, n);
    if left > 0 {
        index::lemma_concat_shape(before, x, dim);
        lemma_constant_shape(x, left, value);
        index::lemma_with_dim(x.shape(), axis, left, (left + n) as usize);
        index::lemma_with_dim(x.shape(), axis, (left + n) as usize, n);
    }
    if right > 0 {
        index::lemma_concat_shape(front, after, dim);
        lemma_constant_shape(x, right, value);
        index::lemma_with_dim(x.shape(), axis, (left + n) as usize, (left + n + right) as usize);
    }
    if k < left + n && left > 0 {
        index::lemma_origin_concat(before, x, dim, o, k, 0);
        if k < left {
            lemma_constant_origin(x, left, value, index::place(left as int, 1, o, k, 0));
        }
    }
    if right > 0 {
        index::lemma_origin_concat(front, after, dim, o, k, 0);
        if k >= left + n {
            lemma_constant_origin(
                x,
                right,
                value,
                index::place(right as int, 1, o, k - (left + n), 0),
            );
        }
    }
}

/// With one entry set, that entry of every line is the constant, and the others are as they were.
pub proof fn lemma_set(x: Term, idx: usize, value: Scalar, o: int, k: int)
    requires
        term::typ(lines::with_last(x, idx, value)) is Some,
        x.shape().spec_rank() > 0,
        idx < lines::last_len(x),
        0 <= k < lines::last_len(x),
    ensures
        ({
            let p = index::place(lines::last_len(x) as int, 1, o, k, 0);
            let found = index::origin(lines::with_last(x, idx, value), p);
            &&& lines::with_last(x, idx, value).shape() == x.shape()
            &&& if k == idx {
                found.0 == lines::constant_last(x, 1, value)
            } else {
                found == index::origin(x, p)
            }
        }),
{
    broadcast use crate::tensor::term::strictness;

    reveal(lines::with_last);
    reveal(lines::overwritten);
    let axis = x.shape().spec_rank() - 1;
    let fill = lines::constant_last(x, 1, value);
    lemma_constant_shape(x, 1, value);
    index::lemma_with_dim(x.shape(), axis, 1, 0);
    lemma_overwritten(x, lines::last_axis(x), idx, fill, o, k, 0);
    if k == idx {
        lemma_constant_origin(x, 1, value, index::place(1, 1, o, 0, 0));
    }
}

/// With a number added to the last entry, the last entry of every line is the sum, and the others
/// are as they were.
pub proof fn lemma_bumped(x: Term, eps: Real, o: int, k: int)
    requires
        term::typ(lines::bumped(x, eps)) is Some,
        x.shape().spec_rank() > 0,
        0 <= k < lines::last_len(x),
    ensures
        ({
            let n = lines::last_len(x);
            let end = (n - 1) as usize;
            let p = index::place(n as int, 1, o, k, 0);
            let last = x.narrow(lines::last_axis(x), end, 1);
            &&& lines::bumped(x, eps).shape() == x.shape()
            &&& index::origin(lines::bumped(x, eps), p) == if k == end {
                (last.shift(Scalar::Value(eps)), o)
            } else {
                index::origin(x, p)
            }
            &&& index::origin(last, o) == index::origin(
                x,
                index::place(n as int, 1, o, end as int, 0),
            )
        }),
{
    broadcast use crate::tensor::term::strictness;

    reveal(lines::bumped);
    reveal(lines::overwritten);
    let axis = x.shape().spec_rank() - 1;
    let dim = lines::last_axis(x);
    let end = (lines::last_len(x) - 1) as usize;
    let last = x.narrow(dim, end, 1);
    let fill = last.shift(Scalar::Value(eps));
    lemma_shifted_shape(last, eps);
    index::lemma_narrow_shape(x, dim, end, 1);
    index::lemma_with_dim(x.shape(), axis, 1, 0);
    lemma_overwritten(x, dim, end, fill, o, k, 0);
    index::lemma_origin_narrow(x, dim, end, 1, o, 0, 0);
    assert(index::place(1, 1, o, 0, 0) == o);
}

pub(crate) proof fn lemma_shifted_shape(x: Term, eps: Real)
    requires
        term::typ(x.shift(Scalar::Value(eps))) is Some,
    ensures
        x.shift(Scalar::Value(eps)).shape() == x.shape(),
{
    broadcast use crate::tensor::term::typing_rules;

}

} // verus!
