//! Where the elements of a tensor come from.
//!
//! Some operations only move elements. A position is the number of an element in row-major order,
//! so a change of shape alone moves nothing.

use vstd::prelude::*;

use crate::tensor::ops::{Op1, Op2};
use crate::tensor::shape::Shape;
use crate::tensor::term;
use crate::tensor::term::Term;

verus! {

/// The number of elements in one entry of a dimension.
pub open spec fn inner(shape: Shape, dim: int) -> int {
    match shape {
        Shape::S0 => 1,
        Shape::S1(_) => 1,
        Shape::S2(_, b) => if dim == 0 {
            b as int
        } else {
            1
        },
        Shape::S3(_, b, c) => if dim == 0 {
            b * c
        } else if dim == 1 {
            c as int
        } else {
            1
        },
        Shape::S4(_, b, c, d) => if dim == 0 {
            b * c * d
        } else if dim == 1 {
            c * d
        } else if dim == 2 {
            d as int
        } else {
            1
        },
        Shape::S5(_, b, c, d, e) => if dim == 0 {
            b * c * d * e
        } else if dim == 1 {
            c * d * e
        } else if dim == 2 {
            d * e
        } else if dim == 3 {
            e as int
        } else {
            1
        },
        Shape::S6(_, b, c, d, e, f) => if dim == 0 {
            b * c * d * e * f
        } else if dim == 1 {
            c * d * e * f
        } else if dim == 2 {
            d * e * f
        } else if dim == 3 {
            e * f
        } else if dim == 4 {
            f as int
        } else {
            1
        },
    }
}

/// The position of element `r` of entry `k` of a dimension of `n` entries with `inn` elements each,
/// behind `o` such dimensions.
pub open spec fn place(n: int, inn: int, o: int, k: int, r: int) -> int {
    (o * n + k) * inn + r
}

/// The number of whole dimensions before a position.
pub open spec fn outer_of(n: int, inn: int, p: int) -> int {
    p / inn / n
}

/// The entry of the dimension in which a position lies.
pub open spec fn entry_of(n: int, inn: int, p: int) -> int {
    (p / inn) % n
}

/// The element of the entry at which a position lies.
pub open spec fn rest_of(inn: int, p: int) -> int {
    p % inn
}

/// The element that an element of an expression is moved from: an expression that does more than
/// move elements, and a position in it.
pub open spec fn origin(t: Term, p: int) -> (Term, int)
    decreases t,
{
    match t {
        Term::One(Op1::Reshape(_), a) => origin(*a, p),
        Term::One(Op1::Contiguous, a) => origin(*a, p),
        Term::One(Op1::Unsqueeze(_), a) => origin(*a, p),
        Term::One(Op1::Squeeze(_), a) => origin(*a, p),
        Term::One(Op1::Narrow(dim, start, len), a) => {
            let inn = inner(a.shape(), dim as int);
            let n = a.shape().spec_dim(dim as int) as int;
            origin(
                *a,
                place(
                    n,
                    inn,
                    outer_of(len as int, inn, p),
                    start + entry_of(len as int, inn, p),
                    rest_of(inn, p),
                ),
            )
        },
        Term::One(Op1::Reverse(dim), a) => {
            let inn = inner(a.shape(), dim as int);
            let n = a.shape().spec_dim(dim as int) as int;
            origin(
                *a,
                place(
                    n,
                    inn,
                    outer_of(n, inn, p),
                    n - 1 - entry_of(n, inn, p),
                    rest_of(inn, p),
                ),
            )
        },
        Term::Two(Op2::Concat(dim), a, b) => {
            let inn = inner(a.shape(), dim as int);
            let na = a.shape().spec_dim(dim as int) as int;
            let nb = b.shape().spec_dim(dim as int) as int;
            let o = outer_of(na + nb, inn, p);
            let k = entry_of(na + nb, inn, p);
            if k < na {
                origin(*a, place(na, inn, o, k, rest_of(inn, p)))
            } else {
                origin(*b, place(nb, inn, o, k - na, rest_of(inn, p)))
            }
        },
        _ => (t, p),
    }
}

/// A position comes apart into the numbers it was made of.
pub proof fn lemma_place(n: int, inn: int, o: int, k: int, r: int)
    requires
        0 <= k < n,
        0 <= r < inn,
    ensures
        outer_of(n, inn, place(n, inn, o, k, r)) == o,
        entry_of(n, inn, place(n, inn, o, k, r)) == k,
        rest_of(inn, place(n, inn, o, k, r)) == r,
{
    let p = place(n, inn, o, k, r);
    vstd::arithmetic::div_mod::lemma_fundamental_div_mod_converse(p, inn, o * n + k, r);
    vstd::arithmetic::div_mod::lemma_fundamental_div_mod_converse(o * n + k, n, o, k);
}

/// A part of a dimension.
pub proof fn lemma_origin_narrow(
    a: Term,
    dim: usize,
    start: usize,
    len: usize,
    o: int,
    k: int,
    r: int,
)
    requires
        0 <= k < len,
        0 <= r < inner(a.shape(), dim as int),
    ensures
        ({
            let inn = inner(a.shape(), dim as int);
            origin(a.narrow(dim, start, len), place(len as int, inn, o, k, r)) == origin(
                a,
                place(a.shape().spec_dim(dim as int) as int, inn, o, start + k, r),
            )
        }),
{
    lemma_place(len as int, inner(a.shape(), dim as int), o, k, r);
}

/// A dimension in reverse.
pub proof fn lemma_origin_reverse(a: Term, dim: usize, o: int, k: int, r: int)
    requires
        0 <= k < a.shape().spec_dim(dim as int),
        0 <= r < inner(a.shape(), dim as int),
    ensures
        ({
            let inn = inner(a.shape(), dim as int);
            let n = a.shape().spec_dim(dim as int) as int;
            origin(a.reverse(dim), place(n, inn, o, k, r)) == origin(
                a,
                place(n, inn, o, n - 1 - k, r),
            )
        }),
{
    lemma_place(a.shape().spec_dim(dim as int) as int, inner(a.shape(), dim as int), o, k, r);
}

/// Two dimensions, one behind the other.
pub proof fn lemma_origin_concat(a: Term, b: Term, dim: usize, o: int, k: int, r: int)
    requires
        0 <= k < a.shape().spec_dim(dim as int) + b.shape().spec_dim(dim as int),
        0 <= r < inner(a.shape(), dim as int),
    ensures
        ({
            let inn = inner(a.shape(), dim as int);
            let na = a.shape().spec_dim(dim as int) as int;
            let nb = b.shape().spec_dim(dim as int) as int;
            origin(a.concat(b, dim), place(na + nb, inn, o, k, r)) == if k < na {
                origin(a, place(na, inn, o, k, r))
            } else {
                origin(b, place(nb, inn, o, k - na, r))
            }
        }),
{
    lemma_place(
        a.shape().spec_dim(dim as int) + b.shape().spec_dim(dim as int),
        inner(a.shape(), dim as int),
        o,
        k,
        r,
    );
}

/// Reversing a dimension twice changes nothing.
pub proof fn lemma_reverse_twice(x: Term, dim: usize, o: int, k: int, r: int)
    requires
        term::typ(x.reverse(dim)) is Some,
        0 <= k < x.shape().spec_dim(dim as int),
        0 <= r < inner(x.shape(), dim as int),
    ensures
        ({
            let p = place(
                x.shape().spec_dim(dim as int) as int,
                inner(x.shape(), dim as int),
                o,
                k,
                r,
            );
            origin(x.reverse(dim).reverse(dim), p) == origin(x, p)
        }),
{
    broadcast use crate::tensor::term::typing_rules;

    let n = x.shape().spec_dim(dim as int) as int;
    assert(x.reverse(dim).shape() == x.shape());
    lemma_origin_reverse(x.reverse(dim), dim, o, k, r);
    lemma_origin_reverse(x, dim, o, n - 1 - k, r);
}

/// Changing the length of a dimension leaves the others as they are.
pub proof fn lemma_with_dim(shape: Shape, dim: int, v: usize, w: usize)
    requires
        0 <= dim < shape.spec_rank(),
    ensures
        shape.spec_with_dim(dim, v).spec_rank() == shape.spec_rank(),
        shape.spec_with_dim(dim, v).spec_dim(dim) == v,
        inner(shape.spec_with_dim(dim, v), dim) == inner(shape, dim),
        shape.spec_with_dim(dim, v).spec_with_dim(dim, w) == shape.spec_with_dim(dim, w),
        shape.spec_with_dim(dim, shape.spec_dim(dim)) == shape,
{
}

/// The shape of a part of a dimension.
pub proof fn lemma_narrow_shape(a: Term, dim: usize, start: usize, len: usize)
    requires
        term::typ(a.narrow(dim, start, len)) is Some,
    ensures
        dim < a.shape().spec_rank(),
        start + len <= a.shape().spec_dim(dim as int),
        a.narrow(dim, start, len).shape() == a.shape().spec_with_dim(dim as int, len),
        a.narrow(dim, start, len).dtype() == a.dtype(),
{
    term::typ_one(a, Op1::Narrow(dim, start, len));
}

/// The shape of two tensors, one behind the other.
pub proof fn lemma_concat_shape(a: Term, b: Term, dim: usize)
    requires
        term::typ(a.concat(b, dim)) is Some,
    ensures
        ({
            let total = a.shape().spec_dim(dim as int) + b.shape().spec_dim(dim as int);
            &&& dim < a.shape().spec_rank()
            &&& a.shape().spec_rank() == b.shape().spec_rank()
            &&& a.shape().spec_with_dim(dim as int, 0) == b.shape().spec_with_dim(dim as int, 0)
            &&& total <= usize::MAX
            &&& a.concat(b, dim).shape() == a.shape().spec_with_dim(dim as int, total as usize)
        }),
{
    term::typ_two(a, b, Op2::Concat(dim));
}

/// Whether there is one coordinate for every dimension, and each lies within its dimension.
pub open spec fn within(shape: Shape, at: Seq<int>) -> bool {
    &&& at.len() == shape.spec_rank()
    &&& forall|d: int| 0 <= d < at.len() ==> 0 <= #[trigger] at[d] < shape.spec_dim(d)
}

/// The position of the element with the given coordinates.
pub open spec fn position(shape: Shape, at: Seq<int>) -> int {
    match shape {
        Shape::S0 => 0,
        Shape::S1(_) => at[0],
        Shape::S2(_, b) => at[0] * b + at[1],
        Shape::S3(_, b, c) => (at[0] * b + at[1]) * c + at[2],
        Shape::S4(_, b, c, d) => ((at[0] * b + at[1]) * c + at[2]) * d + at[3],
        Shape::S5(_, b, c, d, e) => (((at[0] * b + at[1]) * c + at[2]) * d + at[3]) * e + at[4],
        Shape::S6(_, b, c, d, e, f) => ((((at[0] * b + at[1]) * c + at[2]) * d + at[3]) * e + at[4])
            * f + at[5],
    }
}

/// The number of whole dimensions before an element, counted by its coordinates.
pub open spec fn before(shape: Shape, at: Seq<int>, dim: int) -> int {
    match shape {
        Shape::S2(_, _) => if dim == 1 {
            at[0]
        } else {
            0
        },
        Shape::S3(_, b, _) => if dim == 1 {
            at[0]
        } else if dim == 2 {
            at[0] * b + at[1]
        } else {
            0
        },
        Shape::S4(_, b, c, _) => if dim == 1 {
            at[0]
        } else if dim == 2 {
            at[0] * b + at[1]
        } else if dim == 3 {
            (at[0] * b + at[1]) * c + at[2]
        } else {
            0
        },
        Shape::S5(_, b, c, d, _) => if dim == 1 {
            at[0]
        } else if dim == 2 {
            at[0] * b + at[1]
        } else if dim == 3 {
            (at[0] * b + at[1]) * c + at[2]
        } else if dim == 4 {
            ((at[0] * b + at[1]) * c + at[2]) * d + at[3]
        } else {
            0
        },
        Shape::S6(_, b, c, d, e, _) => if dim == 1 {
            at[0]
        } else if dim == 2 {
            at[0] * b + at[1]
        } else if dim == 3 {
            (at[0] * b + at[1]) * c + at[2]
        } else if dim == 4 {
            ((at[0] * b + at[1]) * c + at[2]) * d + at[3]
        } else if dim == 5 {
            (((at[0] * b + at[1]) * c + at[2]) * d + at[3]) * e + at[4]
        } else {
            0
        },
        _ => 0,
    }
}

/// The place of an element within an entry of a dimension, by its coordinates.
pub open spec fn behind(shape: Shape, at: Seq<int>, dim: int) -> int {
    match shape {
        Shape::S2(_, _) => if dim == 0 {
            at[1]
        } else {
            0
        },
        Shape::S3(_, _, c) => if dim == 0 {
            at[1] * c + at[2]
        } else if dim == 1 {
            at[2]
        } else {
            0
        },
        Shape::S4(_, _, c, d) => if dim == 0 {
            (at[1] * c + at[2]) * d + at[3]
        } else if dim == 1 {
            at[2] * d + at[3]
        } else if dim == 2 {
            at[3]
        } else {
            0
        },
        Shape::S5(_, _, c, d, e) => if dim == 0 {
            ((at[1] * c + at[2]) * d + at[3]) * e + at[4]
        } else if dim == 1 {
            (at[2] * d + at[3]) * e + at[4]
        } else if dim == 2 {
            at[3] * e + at[4]
        } else if dim == 3 {
            at[4]
        } else {
            0
        },
        Shape::S6(_, _, c, d, e, f) => if dim == 0 {
            (((at[1] * c + at[2]) * d + at[3]) * e + at[4]) * f + at[5]
        } else if dim == 1 {
            ((at[2] * d + at[3]) * e + at[4]) * f + at[5]
        } else if dim == 2 {
            (at[3] * e + at[4]) * f + at[5]
        } else if dim == 3 {
            at[4] * f + at[5]
        } else if dim == 4 {
            at[5]
        } else {
            0
        },
        _ => 0,
    }
}

proof fn lemma_two(b: int, c: int, y: int, z: int)
    requires
        0 <= y < b,
        0 <= z < c,
    ensures
        0 <= y * c + z < b * c,
{
    assert(0 <= y * c + z < b * c) by (nonlinear_arith)
        requires
            0 <= y < b,
            0 <= z < c,
    ;
}

/// The position of an element, from that in the shape without the last dimension.
proof fn lemma_deeper(front: Shape, shape: Shape, last: usize, at: Seq<int>, dim: int)
    requires
        within(shape, at),
        0 <= dim < shape.spec_rank(),
        front.spec_rank() >= 4,
        match (front, shape) {
            (Shape::S4(a, b, c, d), Shape::S5(x, y, z, u, v)) => x == a && y == b && z == c && u
                == d && v == last,
            (Shape::S5(a, b, c, d, e), Shape::S6(x, y, z, u, v, w)) => x == a && y == b && z == c
                && u == d && v == e && w == last,
            _ => false,
        },
    ensures
        position(shape, at) == place(
            shape.spec_dim(dim) as int,
            inner(shape, dim),
            before(shape, at, dim),
            at[dim],
            behind(shape, at, dim),
        ),
        0 <= behind(shape, at, dim) < inner(shape, dim),
    decreases shape.spec_rank(), 0int,
{
    let n = front.spec_rank() as int;
    let lead = at.take(n);
    let l = last as int;
    let v = at[n];
    assert(0 <= at[n] < shape.spec_dim(n));
    assert forall|k: int| 0 <= k < lead.len() implies 0 <= #[trigger] lead[k] < front.spec_dim(
        k,
    ) by {
        assert(0 <= at[k] < shape.spec_dim(k));
        assert(front.spec_dim(k) == shape.spec_dim(k));
    }
    let p = position(front, lead);
    assert(position(shape, at) == p * l + v);
    if dim < n {
        lemma_position(front, lead, dim);
        let (q, m, t) = (
            before(front, lead, dim) * front.spec_dim(dim) + lead[dim],
            inner(front, dim),
            behind(front, lead, dim),
        );
        assert((q * m + t) * l == q * (m * l) + t * l) by (nonlinear_arith);
        lemma_two(m, l, t, v);
        assert(before(shape, at, dim) == before(front, lead, dim));
        if dim == n - 1 {
            assert(m * l == l && t * l == 0) by (nonlinear_arith)
                requires
                    m == 1,
                    t == 0,
            ;
        }
        assert(inner(shape, dim) == m * l);
        assert(behind(shape, at, dim) == t * l + v);
        assert(front.spec_dim(dim) == shape.spec_dim(dim));
        assert(q == before(shape, at, dim) * shape.spec_dim(dim) + at[dim]);
        assert(p == q * m + t);
    } else {
        assert(before(shape, at, dim) == p);
        assert((p * l + v) * 1 + 0 == p * l + v);
        assert(inner(shape, dim) == 1 && behind(shape, at, dim) == 0);
    }
}

/// The position of an element, from its entry in one dimension.
pub proof fn lemma_position(shape: Shape, at: Seq<int>, dim: int)
    requires
        within(shape, at),
        0 <= dim < shape.spec_rank(),
    ensures
        position(shape, at) == place(
            shape.spec_dim(dim) as int,
            inner(shape, dim),
            before(shape, at, dim),
            at[dim],
            behind(shape, at, dim),
        ),
        0 <= behind(shape, at, dim) < inner(shape, dim),
    decreases shape.spec_rank(), 1int,
{
    let n = shape.spec_dim(dim) as int;
    let k = at[dim];
    match shape {
        Shape::S0 => {},
        Shape::S1(_) => {
            assert((0 * n + k) * 1 + 0 == k) by (nonlinear_arith);
        },
        Shape::S2(_, b) => {
            let (x, y) = (at[0], at[1]);
            assert(0 <= x && 0 <= y < b);
            assert((0 * n + x) * b + y == x * b + y) by (nonlinear_arith);
            assert((x * b + y) * 1 + 0 == x * b + y) by (nonlinear_arith);
        },
        Shape::S3(_, b, c) => {
            let (x, y, z) = (at[0], at[1], at[2]);
            assert(0 <= y < b && 0 <= z < c);
            lemma_two(b as int, c as int, y, z);
            assert((0 * n + x) * (b * c) + (y * c + z) == (x * b + y) * c + z)
                by (nonlinear_arith);
            assert(((x * b + y) * c + z) * 1 + 0 == (x * b + y) * c + z) by (nonlinear_arith);
        },
        Shape::S4(_, b, c, d) => {
            let (x, y, z, w) = (at[0], at[1], at[2], at[3]);
            assert(0 <= y < b && 0 <= z < c && 0 <= w < d);
            lemma_two(c as int, d as int, z, w);
            lemma_two(b as int, c as int, y, z);
            lemma_two(b * c, d as int, y * c + z, w);
            let p = ((x * b + y) * c + z) * d + w;
            assert((0 * n + x) * (b * c * d) + ((y * c + z) * d + w) == p) by (nonlinear_arith)
                requires
                    p == ((x * b + y) * c + z) * d + w,
            ;
            assert((x * b + y) * (c * d) + (z * d + w) == p) by (nonlinear_arith)
                requires
                    p == ((x * b + y) * c + z) * d + w,
            ;
            assert(p * 1 + 0 == p) by (nonlinear_arith);
        },
        Shape::S5(a, b, c, d, e) => {
            lemma_deeper(Shape::S4(a, b, c, d), shape, e, at, dim);
        },
        Shape::S6(a, b, c, d, e, f) => {
            lemma_deeper(Shape::S5(a, b, c, d, e), shape, f, at, dim);
        },
    }
}

/// A dimension in reverse, by coordinates.
pub proof fn lemma_origin_mirrored(a: Term, dim: usize, at: Seq<int>)
    requires
        within(a.shape(), at),
        dim < a.shape().spec_rank(),
    ensures
        origin(a.reverse(dim), position(a.shape(), at)) == origin(
            a,
            position(
                a.shape(),
                at.update(dim as int, a.shape().spec_dim(dim as int) - 1 - at[dim as int]),
            ),
        ),
{
    let shape = a.shape();
    let d = dim as int;
    let n = shape.spec_dim(d) as int;
    let other = at.update(d, n - 1 - at[d]);
    assert(0 <= at[d] < n);
    assert forall|k: int| 0 <= k < other.len() implies 0 <= #[trigger] other[k] < shape.spec_dim(
        k,
    ) by {
        assert(0 <= at[k] < shape.spec_dim(k));
    }
    lemma_position(shape, at, d);
    lemma_position(shape, other, d);
    assert(before(shape, other, d) == before(shape, at, d));
    assert(behind(shape, other, d) == behind(shape, at, d));
    lemma_origin_reverse(a, dim, before(shape, at, d), at[d], behind(shape, at, d));
}

} // verus!
