//! Coordinates of elements, and the elements that repetition and exchange of dimensions take.

use vstd::prelude::*;

use crate::tensor::index;
use crate::tensor::shape::Shape;

verus! {

/// The coordinates of the element at a position.
pub open spec fn coordinates(shape: Shape, p: int) -> Seq<int> {
    Seq::new(
        shape.spec_rank(),
        |d: int|
            if d == 0 {
                p / index::inner(shape, d)
            } else {
                index::entry_of(shape.spec_dim(d) as int, index::inner(shape, d), p)
            },
    )
}

/// The coordinates of the element of a tensor of shape `from` that repetition brings to the given
/// coordinates: along a dimension of length one there is only one.
pub open spec fn repeated_at(from: Shape, at: Seq<int>) -> Seq<int> {
    let more = at.len() - from.spec_rank();
    Seq::new(
        from.spec_rank(),
        |d: int|
            if from.spec_dim(d) == 1 {
                0
            } else {
                at[more + d]
            },
    )
}

/// The position that repetition takes an element from.
pub open spec fn repeated(from: Shape, to: Shape, p: int) -> int {
    index::position(from, repeated_at(from, coordinates(to, p)))
}

/// Coordinates with two of them exchanged.
pub open spec fn exchanged(at: Seq<int>, i: int, j: int) -> Seq<int> {
    at.update(i, at[j]).update(j, at[i])
}

/// A shape with two dimensions exchanged.
pub open spec fn exchanged_shape(shape: Shape, i: int, j: int) -> Shape {
    shape.spec_with_dim(i, shape.spec_dim(j)).spec_with_dim(j, shape.spec_dim(i))
}

/// A position in rows of `n` comes apart.
proof fn lemma_row(n: int, q: int, r: int)
    requires
        0 <= r < n,
    ensures
        (q * n + r) / n == q,
        (q * n + r) % n == r,
{
    vstd::arithmetic::div_mod::lemma_fundamental_div_mod_converse(q * n + r, n, q, r);
}

/// The coordinates of an element of a tensor of two dimensions.
pub proof fn lemma_coordinates_2(shape: Shape, x: int, y: int)
    requires
        shape is S2,
        0 <= y < shape->S2_1,
    ensures
        coordinates(shape, x * shape->S2_1 + y) == seq![x, y],
{
    let b = shape->S2_1 as int;
    let p = x * b + y;
    lemma_row(b, x, y);
    assert(p / 1 == p);
    assert(coordinates(shape, p) =~= seq![x, y]);
}

/// The coordinates of an element of a tensor of three dimensions.
pub proof fn lemma_coordinates_3(shape: Shape, x: int, y: int, z: int)
    requires
        shape is S3,
        0 <= y < shape->S3_1,
        0 <= z < shape->S3_2,
    ensures
        coordinates(shape, (x * shape->S3_1 + y) * shape->S3_2 + z) == seq![x, y, z],
{
    let (b, c) = (shape->S3_1 as int, shape->S3_2 as int);
    let q = x * b + y;
    let p = q * c + z;
    lemma_row(c, q, z);
    lemma_row(b, x, y);
    assert(p / 1 == p);
    assert(p == x * (b * c) + (y * c + z)) by (nonlinear_arith)
        requires
            p == (x * b + y) * c + z,
    ;
    assert(0 <= y * c + z < b * c) by (nonlinear_arith)
        requires
            0 <= y < b,
            0 <= z < c,
    ;
    lemma_row(b * c, x, y * c + z);
    assert(coordinates(shape, p) =~= seq![x, y, z]);
}

/// The coordinates of an element of a tensor of four dimensions.
pub proof fn lemma_coordinates_4(shape: Shape, x: int, y: int, z: int, u: int)
    requires
        shape is S4,
        0 <= y < shape->S4_1,
        0 <= z < shape->S4_2,
        0 <= u < shape->S4_3,
    ensures
        coordinates(
            shape,
            ((x * shape->S4_1 + y) * shape->S4_2 + z) * shape->S4_3 + u,
        ) == seq![x, y, z, u],
{
    let (b, c, d) = (shape->S4_1 as int, shape->S4_2 as int, shape->S4_3 as int);
    let r = x * b + y;
    let q = r * c + z;
    let p = q * d + u;
    lemma_row(d, q, u);
    lemma_row(c, r, z);
    lemma_row(b, x, y);
    assert(p / 1 == p);
    assert(p == r * (c * d) + (z * d + u)) by (nonlinear_arith)
        requires
            p == (r * c + z) * d + u,
    ;
    assert(0 <= z * d + u < c * d) by (nonlinear_arith)
        requires
            0 <= z < c,
            0 <= u < d,
    ;
    lemma_row(c * d, r, z * d + u);
    let m = y * (c * d) + (z * d + u);
    assert(p == x * (b * c * d) + m) by (nonlinear_arith)
        requires
            p == (x * b + y) * (c * d) + (z * d + u),
            m == y * (c * d) + (z * d + u),
    ;
    assert(0 <= m < b * c * d) by (nonlinear_arith)
        requires
            m == y * (c * d) + (z * d + u),
            0 <= y < b,
            0 <= z * d + u < c * d,
    ;
    lemma_row(b * c * d, x, m);
    assert(coordinates(shape, p) =~= seq![x, y, z, u]);
}

/// The coordinate that repetition takes an element from along a dimension.
pub open spec fn along(n: usize, x: int) -> int {
    if n == 1 {
        0
    } else {
        x
    }
}

/// Repetition up to three dimensions.
pub proof fn lemma_repeated_3(from: Shape, to: Shape, x: int, y: int, z: int)
    requires
        to is S3,
        0 <= y < to->S3_1,
        0 <= z < to->S3_2,
    ensures
        ({
            let p = repeated(from, to, (x * to->S3_1 + y) * to->S3_2 + z);
            match from {
                Shape::S1(c) => p == along(c, z),
                Shape::S2(b, c) => p == along(b, y) * c + along(c, z),
                Shape::S3(a, b, c) => p == (along(a, x) * b + along(b, y)) * c + along(c, z),
                _ => true,
            }
        }),
{
    lemma_coordinates_3(to, x, y, z);
    let at = seq![x, y, z];
    assert(at[0] == x && at[1] == y && at[2] == z);
}

/// Repetition up to four dimensions.
pub proof fn lemma_repeated_4(from: Shape, to: Shape, x: int, y: int, z: int, u: int)
    requires
        to is S4,
        0 <= y < to->S4_1,
        0 <= z < to->S4_2,
        0 <= u < to->S4_3,
    ensures
        ({
            let p = repeated(
                from,
                to,
                ((x * to->S4_1 + y) * to->S4_2 + z) * to->S4_3 + u,
            );
            match from {
                Shape::S4(a, b, c, d) => p == ((along(a, x) * b + along(b, y)) * c + along(c, z))
                    * d + along(d, u),
                _ => true,
            }
        }),
{
    lemma_coordinates_4(to, x, y, z, u);
    let at = seq![x, y, z, u];
    assert(at[0] == x && at[1] == y && at[2] == z && at[3] == u);
}

} // verus!
