//! How long lines become, and how shapes go together.

use vstd::prelude::*;

use crate::tensor::shape::Shape;
use crate::tensor::typing;
use crate::tensor::typing::{ConvConfig, ConvTransposeConfig};

verus! {

/// A kernel takes as many places along a padded line as it can without leaving it: at the last of
/// them its last entry still lies on the line, and one place further it would not.
pub proof fn lemma_places_of_kernel(len: usize, k: usize, c: ConvConfig)
    requires
        c.stride >= 1,
        k >= 1,
        len + 2 * c.padding >= c.dilation * (k - 1) + 1,
    ensures
        ({
            let n = typing::conv_length(len, k, c);
            let last = c.dilation * (k - 1);
            &&& n >= 1
            &&& (n - 1) * c.stride + last < len + 2 * c.padding
            &&& len + 2 * c.padding <= n * c.stride + last
        }),
{
    let n = typing::conv_length(len, k, c);
    let last = c.dilation * (k - 1);
    let room = len + 2 * c.padding - last - 1;
    let s = c.stride as int;
    vstd::arithmetic::div_mod::lemma_fundamental_div_mod(room, s);
    vstd::arithmetic::div_mod::lemma_div_pos_is_pos(room, s);
    let q = room / s;
    assert(s * q == q * s) by (nonlinear_arith);
    assert((q + 1) * s == q * s + s) by (nonlinear_arith);
}

/// A transposed kernel brings nothing beyond the line that it fills, counted with what is cut off
/// at both ends; and without extra places it brings something to the last of them.
pub proof fn lemma_places_filled(len: usize, k: usize, c: ConvTransposeConfig, l: int, j: int)
    requires
        len >= 1,
        k >= 1,
        0 <= l < len,
        0 <= j < k,
    ensures
        ({
            let n = typing::conv_transpose_length(len, k, c);
            &&& l * c.stride + j * c.dilation < n + 2 * c.padding
            &&& (len - 1) * c.stride + (k - 1) * c.dilation + 1 + c.output_padding == n + 2
                * c.padding
        }),
{
    let (s, d) = (c.stride as int, c.dilation as int);
    assert(l * s <= (len - 1) * s) by (nonlinear_arith)
        requires
            l <= len - 1,
            s >= 0,
    ;
    assert(j * d <= (k - 1) * d) by (nonlinear_arith)
        requires
            j <= k - 1,
            d >= 0,
    ;
    assert((k - 1) * d == d * (k - 1)) by (nonlinear_arith);
}

/// The joint shape of two does not depend on their order, is that of either if they are the same,
/// and that of the other where one has no dimensions.
pub proof fn lemma_joint_shape(a: Shape, b: Shape)
    ensures
        a.spec_broadcast(b) == b.spec_broadcast(a),
        a.spec_broadcast(a) == Some(a),
        a.spec_broadcast(Shape::S0) == Some(a),
{
}

/// Where two shapes of the same rank have a joint shape, every dimension of it is that of one of
/// the two, and the other has the same length there or length one.
pub proof fn lemma_joint_dims(a: Shape, b: Shape, d: int)
    requires
        a.spec_rank() == b.spec_rank(),
        a.spec_broadcast(b) is Some,
        0 <= d < a.spec_rank(),
    ensures
        ({
            let n = a.spec_broadcast(b)->0.spec_dim(d);
            &&& a.spec_broadcast(b)->0.spec_rank() == a.spec_rank()
            &&& a.spec_dim(d) == n || a.spec_dim(d) == 1
            &&& b.spec_dim(d) == n || b.spec_dim(d) == 1
            &&& a.spec_dim(d) == n || b.spec_dim(d) == n
        }),
{
}

/// A dimension of length one that is put in can be taken out again.
pub proof fn lemma_put_in_and_taken_out(a: Shape, d: int)
    requires
        0 <= d <= a.spec_rank(),
        a.spec_insert_one(d) is Some,
    ensures
        a.spec_insert_one(d)->0.spec_dim(d) == 1,
        a.spec_insert_one(d)->0.spec_remove(d) == a,
        a.spec_insert_one(d)->0.count() == a.count(),
{
    match a {
        Shape::S0 => {},
        Shape::S1(p) => lemma_with_one(p as nat, 1),
        Shape::S2(p, q) => lemma_with_one(p as nat, q as nat),
        Shape::S3(p, q, r) => {
            lemma_with_one(p as nat, q as nat);
            lemma_with_one(p as nat * q as nat, r as nat);
        },
        Shape::S4(p, q, r, s) => {
            lemma_with_one(p as nat, q as nat);
            lemma_with_one(p as nat * q as nat, r as nat);
            lemma_with_one(p as nat * q as nat * r as nat, s as nat);
        },
        Shape::S5(p, q, r, s, t) => {
            lemma_with_one(p as nat, q as nat);
            lemma_with_one(p as nat * q as nat, r as nat);
            lemma_with_one(p as nat * q as nat * r as nat, s as nat);
            lemma_with_one(p as nat * q as nat * r as nat * s as nat, t as nat);
        },
        _ => {},
    }
}

proof fn lemma_with_one(a: nat, b: nat)
    ensures
        1 * a == a,
        a * 1 == a,
        (a * b) * 1 == a * b,
        (a * 1) * b == a * b,
{
    assert(1 * a == a && a * 1 == a && (a * b) * 1 == a * b && (a * 1) * b == a * b)
        by (nonlinear_arith);
}

} // verus!
