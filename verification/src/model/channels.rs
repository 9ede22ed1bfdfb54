//! Single numbers of tensors of three dimensions, and what the operations do to them.

use vstd::prelude::*;

use crate::model::numbers;
use crate::model::numbers::Numbers;
use crate::model::positions;
use crate::model::spline_laws;
use crate::tensor::index;
use crate::tensor::places;
use crate::tensor::scalar;
use crate::tensor::scalar::{Real, Scalar, MINUS_ONE_BITS, ONE_BITS, ZERO_BITS};
use crate::tensor::shape::Shape;
use crate::tensor::term;
use crate::tensor::term::Term;
use crate::tensor::typing::Binary;

verus! {

broadcast use crate::tensor::term::strictness;

impl Numbers {
    /// The number with the given coordinates of a tensor of three dimensions.
    pub open spec fn at(self, x: Term, b: int, c: int, t: int) -> real {
        self.values(x)(
            positions::at3(x.shape()->S3_1 as int, x.shape()->S3_2 as int, b, c, t),
        )
    }

    /// Whether the numbers of scalars are those that their formulas give, from the numbers that
    /// the patterns stand for.
    pub open spec fn reckons(self) -> bool {
        &&& (self.scalar)(scalar::scalar(ZERO_BITS)) == 0real
        &&& (self.scalar)(scalar::scalar(ONE_BITS)) == 1real
        &&& (self.scalar)(scalar::scalar(MINUS_ONE_BITS)) == -1real
        &&& forall|r: Real| #[trigger]
            (self.scalar)(Scalar::Reciprocal(r)) == 1real / (self.scalar)(Scalar::Value(r))
        &&& forall|n: usize| #[trigger]
            (self.scalar)(Scalar::OverCount(n)) == 1real / (n as real)
        &&& forall|n: usize| #[trigger]
            (self.scalar)(Scalar::Sqrt(n)) >= 0real && (self.scalar)(Scalar::Sqrt(n))
                * (self.scalar)(Scalar::Sqrt(n)) == n as real
        &&& forall|n: usize| #[trigger]
            (self.scalar)(Scalar::InverseSqrt(n)) == 1real / (self.scalar)(Scalar::Sqrt(n))
        &&& forall|n: usize| #[trigger]
            (self.scalar)(Scalar::OverSqrt(n)) == 1real / (self.scalar)(Scalar::Sqrt(n))
    }
}

/// The numbers of scalars, from those of the patterns and from square roots.
pub open spec fn reckoned(
    number: spec_fn(Real) -> real,
    root: spec_fn(usize) -> real,
) -> spec_fn(Scalar) -> real {
    |s: Scalar|
        match s {
            Scalar::Value(r) => number(r),
            Scalar::Reciprocal(r) => 1real / number(r),
            Scalar::OverCount(n) => 1real / (n as real),
            Scalar::Sqrt(n) => root(n),
            Scalar::InverseSqrt(n) => 1real / root(n),
            Scalar::OverSqrt(n) => 1real / root(n),
            _ => 0real,
        }
}

/// There are such numbers, for any square roots and any numbers for the patterns.
pub proof fn lemma_reckons(i: Numbers, number: spec_fn(Real) -> real, root: spec_fn(usize) -> real)
    requires
        i.scalar == reckoned(number, root),
        number(Real { bits: ZERO_BITS }) == 0real,
        number(Real { bits: ONE_BITS }) == 1real,
        number(Real { bits: MINUS_ONE_BITS }) == -1real,
        forall|n: usize| #[trigger] root(n) >= 0real && root(n) * root(n) == n as real,
    ensures
        i.reckons(),
{
    assert forall|n: usize| #[trigger]
        (i.scalar)(Scalar::Sqrt(n)) >= 0real && (i.scalar)(Scalar::Sqrt(n)) * (i.scalar)(
            Scalar::Sqrt(n),
        ) == n as real by {
        assert(root(n) >= 0real);
    }
}

/// Whether a tensor of three dimensions has an element with the given coordinates.
pub open spec fn holds(x: Term, b: int, c: int, t: int) -> bool {
    &&& term::typ(x) is Some
    &&& x.shape() is S3
    &&& 0 <= b < x.shape()->S3_0
    &&& 0 <= c < x.shape()->S3_1
    &&& 0 <= t < x.shape()->S3_2
}

/// Numbers combined one by one.
pub proof fn lemma_zip(i: Numbers, x: Term, y: Term, f: Binary, b: int, c: int, t: int)
    requires
        term::typ(x.zip(y, f)) is Some,
        x.shape() is S3,
    ensures
        term::typ(x.zip(y, f)) == term::typ(x),
        term::typ(y) == term::typ(x),
        i.at(x.zip(y, f), b, c, t) == spline_laws::combined(f, i.at(x, b, c, t), i.at(y, b, c, t)),
{
    broadcast use {crate::tensor::term::typing_rules, crate::model::numbers::number_rules};

}

/// Numbers combined one by one after repetition: the shape is that of the first operand, along each
/// dimension of which the second has the same length or length one.
pub proof fn lemma_spread(i: Numbers, x: Term, y: Term, f: Binary, b: int, c: int, t: int)
    requires
        term::typ(x.broadcast(y, f)) is Some,
        x.shape() is S3,
        y.shape() is S3,
        y.shape()->S3_0 == x.shape()->S3_0 || y.shape()->S3_0 == 1,
        y.shape()->S3_1 == x.shape()->S3_1 || y.shape()->S3_1 == 1,
        y.shape()->S3_2 == x.shape()->S3_2 || y.shape()->S3_2 == 1,
        holds(x, b, c, t),
    ensures
        term::typ(x.broadcast(y, f)) == term::typ(x),
        i.at(x.broadcast(y, f), b, c, t) == spline_laws::combined(
            f,
            i.at(x, b, c, t),
            i.at(
                y,
                places::along(y.shape()->S3_0, b),
                places::along(y.shape()->S3_1, c),
                places::along(y.shape()->S3_2, t),
            ),
        ),
{
    broadcast use {crate::tensor::term::typing_rules, crate::model::numbers::number_rules};

    let joint = x.shape().spec_broadcast(y.shape())->0;
    assert(joint == x.shape());
    places::lemma_repeated_3(x.shape(), joint, b, c, t);
    places::lemma_repeated_3(y.shape(), joint, b, c, t);
}

/// A mask of one channel.
pub proof fn lemma_masked(i: Numbers, x: Term, mask: Term, b: int, c: int, t: int)
    requires
        term::typ(x.broadcast_mul(mask)) is Some,
        x.shape() is S3,
        mask.shape() == Shape::S3(x.shape()->S3_0, 1, x.shape()->S3_2),
        holds(x, b, c, t),
    ensures
        term::typ(x.broadcast_mul(mask)) == term::typ(x),
        i.at(x.broadcast_mul(mask), b, c, t) == i.at(x, b, c, t) * i.at(mask, b, 0, t),
{
    lemma_spread(i, x, mask, Binary::Mul, b, c, t);
    lemma_only(mask.shape()->S3_0, x.shape()->S3_0, b);
    lemma_only(mask.shape()->S3_2, x.shape()->S3_2, t);
}

/// Along a dimension of length one there is one coordinate.
pub proof fn lemma_only(n: usize, m: usize, x: int)
    requires
        n == m,
        0 <= x < m,
    ensures
        places::along(n, x) == x,
{
}

/// A mask of one number for every place, where the places are dimension 1.
pub proof fn lemma_masked_places(i: Numbers, x: Term, mask: Term, b: int, n: int, c: int)
    requires
        term::typ(x.broadcast_mul(mask)) is Some,
        x.shape() is S3,
        mask.shape() == Shape::S3(x.shape()->S3_0, x.shape()->S3_1, 1),
        holds(x, b, n, c),
    ensures
        term::typ(x.broadcast_mul(mask)) == term::typ(x),
        i.at(x.broadcast_mul(mask), b, n, c) == i.at(x, b, n, c) * i.at(mask, b, n, 0),
{
    lemma_spread(i, x, mask, Binary::Mul, b, n, c);
    lemma_only(mask.shape()->S3_0, x.shape()->S3_0, b);
    lemma_only(mask.shape()->S3_1, x.shape()->S3_1, n);
}

/// Dimensions 1 and 2 exchanged.
pub proof fn lemma_turned(i: Numbers, x: Term, b: int, c: int, t: int)
    requires
        term::typ(x.transpose(1, 2)) is Some,
        x.shape() is S3,
        holds(x, b, c, t),
    ensures
        x.transpose(1, 2).shape() == Shape::S3(x.shape()->S3_0, x.shape()->S3_2, x.shape()->S3_1),
        x.transpose(1, 2).dtype() == x.dtype(),
        i.at(x.transpose(1, 2), b, t, c) == i.at(x, b, c, t),
        term::typ(x.transpose(1, 2).contiguous()) == term::typ(x.transpose(1, 2)),
        i.at(x.transpose(1, 2).contiguous(), b, t, c) == i.at(x, b, c, t),
{
    let (rows, columns) = (x.shape()->S3_1 as int, x.shape()->S3_2 as int);
    assert(x.transpose(1, 2).shape() == Shape::S3(
        x.shape()->S3_0,
        x.shape()->S3_2,
        x.shape()->S3_1,
    ) && x.transpose(1, 2).dtype() == x.dtype() && term::typ(x.transpose(1, 2).contiguous())
        == term::typ(x.transpose(1, 2))) by {
        broadcast use crate::tensor::term::typing_rules;

    }
    numbers::lemma_transposed(i, x, x.shape()->S3_0 as int, rows, columns, b, c, t);
    assert(i.values(x.transpose(1, 2).contiguous()) == i.values(x.transpose(1, 2))) by {
        broadcast use crate::model::numbers::number_rules;

    }
}

/// A part of the channels.
pub proof fn lemma_part(i: Numbers, x: Term, start: usize, len: usize, b: int, c: int, t: int)
    requires
        term::typ(x.narrow(1, start, len)) is Some,
        x.shape() is S3,
        0 <= c < len,
        0 <= t < x.shape()->S3_2,
    ensures
        start + len <= x.shape()->S3_1,
        x.narrow(1, start, len).shape() == Shape::S3(x.shape()->S3_0, len, x.shape()->S3_2),
        x.narrow(1, start, len).dtype() == x.dtype(),
        i.at(x.narrow(1, start, len), b, c, t) == i.at(x, b, start + c, t),
{
    broadcast use crate::model::numbers::number_rules;

    index::lemma_narrow_shape(x, 1, start, len);
    index::lemma_place(len as int, x.shape()->S3_2 as int, b, c, t);
}

/// A part of the last dimension.
pub proof fn lemma_last_part(i: Numbers, x: Term, start: usize, len: usize, b: int, n: int, c: int)
    requires
        term::typ(x.narrow(2, start, len)) is Some,
        x.shape() is S3,
        0 <= c < len,
    ensures
        start + len <= x.shape()->S3_2,
        x.narrow(2, start, len).shape() == Shape::S3(x.shape()->S3_0, x.shape()->S3_1, len),
        i.at(x.narrow(2, start, len), b, n, c) == i.at(x, b, n, start + c),
{
    broadcast use crate::model::numbers::number_rules;

    index::lemma_narrow_shape(x, 2, start, len);
    let q = b * x.shape()->S3_1 + n;
    index::lemma_place(len as int, 1, q, c, 0);
}

/// Channels of two tensors, one behind the other.
pub proof fn lemma_joined(i: Numbers, x: Term, y: Term, b: int, c: int, t: int)
    requires
        term::typ(x.concat(y, 1)) is Some,
        x.shape() is S3,
        y.shape() is S3,
        0 <= c < x.shape()->S3_1 + y.shape()->S3_1,
        0 <= t < x.shape()->S3_2,
    ensures
        x.shape()->S3_1 + y.shape()->S3_1 <= usize::MAX,
        y.shape() == Shape::S3(x.shape()->S3_0, y.shape()->S3_1, x.shape()->S3_2),
        x.concat(y, 1).shape() == Shape::S3(
            x.shape()->S3_0,
            (x.shape()->S3_1 + y.shape()->S3_1) as usize,
            x.shape()->S3_2,
        ),
        i.at(x.concat(y, 1), b, c, t) == if c < x.shape()->S3_1 {
            i.at(x, b, c, t)
        } else {
            i.at(y, b, c - x.shape()->S3_1, t)
        },
{
    broadcast use crate::model::numbers::number_rules;

    index::lemma_concat_shape(x, y, 1);
    index::lemma_place(
        x.shape()->S3_1 + y.shape()->S3_1,
        x.shape()->S3_2 as int,
        b,
        c,
        t,
    );
}

/// The channels in reverse.
pub proof fn lemma_reversed(i: Numbers, x: Term, b: int, c: int, t: int)
    requires
        term::typ(x.reverse(1)) is Some,
        x.shape() is S3,
        0 <= c < x.shape()->S3_1,
        0 <= t < x.shape()->S3_2,
    ensures
        term::typ(x.reverse(1)) == term::typ(x),
        i.at(x.reverse(1), b, c, t) == i.at(x, b, x.shape()->S3_1 - 1 - c, t),
{
    broadcast use {crate::tensor::term::typing_rules, crate::model::numbers::number_rules};

    index::lemma_place(x.shape()->S3_1 as int, x.shape()->S3_2 as int, b, c, t);
}

/// A multiple of every number.
pub proof fn lemma_scaled(i: Numbers, x: Term, factor: Scalar, b: int, c: int, t: int)
    requires
        (i.scalar)(scalar::scalar(ZERO_BITS)) == 0real,
        term::typ(x.scale(factor)) is Some,
        x.shape() is S3,
    ensures
        term::typ(x.scale(factor)) == term::typ(x),
        i.at(x.scale(factor), b, c, t) == i.at(x, b, c, t) * (i.scalar)(factor),
{
    broadcast use {crate::tensor::term::typing_rules, crate::model::numbers::number_rules};

}

/// A multiple keeps the type.
pub proof fn lemma_scaled_type(x: Term, factor: Scalar)
    requires
        term::typ(x.scale(factor)) is Some,
    ensures
        term::typ(x.scale(factor)) == term::typ(x),
{
    broadcast use crate::tensor::term::typing_rules;

}

/// A function applied to every number.
pub proof fn lemma_applied(
    i: Numbers,
    x: Term,
    f: crate::tensor::typing::Unary,
    b: int,
    c: int,
    t: int,
)
    requires
        term::typ(x.apply(f)) is Some,
        x.shape() is S3,
    ensures
        term::typ(x.apply(f)) == term::typ(x),
        i.at(x.apply(f), b, c, t) == i.applied(f, i.at(x, b, c, t)),
{
    broadcast use {crate::tensor::term::typing_rules, crate::model::numbers::number_rules};

}

/// Zeros under the type of another tensor.
pub proof fn lemma_zeros(i: Numbers, x: Term, b: int, c: int, t: int)
    requires
        (i.scalar)(scalar::scalar(ZERO_BITS)) == 0real,
        term::typ(x.zeros_like()) is Some,
        term::typ(x) is Some,
        x.shape() is S3,
    ensures
        term::typ(x.zeros_like()) == term::typ(x),
        i.at(x.zeros_like(), b, c, t) == 0real,
{
    broadcast use {crate::tensor::term::typing_rules, crate::model::numbers::number_rules};

}

/// Sums of the same numbers are the same.
pub proof fn lemma_same_sum(s: Seq<real>, r: Seq<real>)
    requires
        s.len() == r.len(),
        forall|k: int| 0 <= k < s.len() ==> #[trigger] s[k] == r[k],
    ensures
        spline_laws::sum(s) == spline_laws::sum(r),
{
    assert(s =~= r);
}

/// A sum of zeros.
pub proof fn lemma_zero_sum(s: Seq<real>)
    requires
        forall|k: int| 0 <= k < s.len() ==> #[trigger] s[k] == 0real,
    ensures
        spline_laws::sum(s) == 0real,
    decreases s.len(),
{
    if s.len() > 0 {
        let front = s.drop_last();
        assert forall|k: int| 0 <= k < front.len() implies #[trigger] front[k] == 0real by {
            assert(front[k] == s[k]);
        }
        lemma_zero_sum(front);
    }
}

/// A sum with one element that is not zero.
pub proof fn lemma_single(s: Seq<real>, j: int)
    requires
        0 <= j < s.len(),
        forall|k: int| 0 <= k < s.len() && k != j ==> #[trigger] s[k] == 0real,
    ensures
        spline_laws::sum(s) == s[j],
    decreases s.len(),
{
    let front = s.drop_last();
    assert forall|k: int| 0 <= k < front.len() && k != j implies #[trigger] front[k] == 0real by {
        assert(front[k] == s[k]);
    }
    if j < front.len() {
        assert(front[j] == s[j]);
        lemma_single(front, j);
        assert(s[s.len() - 1] == 0real);
    } else {
        assert forall|k: int| 0 <= k < front.len() implies #[trigger] front[k] == 0real by {
            assert(front[k] == s[k]);
        }
        lemma_zero_sum(front);
    }
}

/// The sum of two lines, one by one.
pub proof fn lemma_sum_of_sums(s: Seq<real>, r: Seq<real>, q: Seq<real>)
    requires
        s.len() == q.len(),
        r.len() == q.len(),
        forall|k: int| 0 <= k < q.len() ==> #[trigger] q[k] == s[k] + r[k],
    ensures
        spline_laws::sum(q) == spline_laws::sum(s) + spline_laws::sum(r),
    decreases q.len(),
{
    if q.len() > 0 {
        let (f, g, h) = (s.drop_last(), r.drop_last(), q.drop_last());
        assert forall|k: int| 0 <= k < h.len() implies #[trigger] h[k] == f[k] + g[k] by {
            assert(q[k] == s[k] + r[k]);
        }
        lemma_sum_of_sums(f, g, h);
        let n = q.len() - 1;
        assert(q[n] == s[n] + r[n]);
    }
}

} // verus!
