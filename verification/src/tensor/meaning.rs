//! What expressions mean.
//!
//! An interpretation gives a value to every leaf and a function to every operation. Whoever
//! evaluates expressions has one, and which numbers are drawn at random and which elements a
//! dropout keeps is part of it. Laws that no rounding breaks hold in all of them; others hold in
//! those that compute exactly.

use vstd::prelude::*;

use crate::tensor::index;
use crate::tensor::ops::{Leaf, Op1, Op2, Op3};
use crate::tensor::shape;
use crate::tensor::shape::Shape;
use crate::tensor::term;
use crate::tensor::term::Term;

verus! {

/// Values for the leaves of expressions, and functions for their operations.
#[verifier::reject_recursive_types(V)]
pub struct Interpretation<V> {
    pub leaf: spec_fn(Leaf) -> V,
    pub one: spec_fn(Op1, V) -> V,
    pub two: spec_fn(Op2, V, V) -> V,
    pub three: spec_fn(Op3, V, V, V) -> V,
}

impl<V> Interpretation<V> {
    /// The value of an expression.
    pub open spec fn value(self, t: Term) -> V
        decreases t,
    {
        match t {
            Term::Zero(leaf) => (self.leaf)(leaf),
            Term::One(op, a) => (self.one)(op, self.value(*a)),
            Term::Two(op, a, b) => (self.two)(op, self.value(*a), self.value(*b)),
            Term::Three(op, a, b, c) => (self.three)(
                op,
                self.value(*a),
                self.value(*b),
                self.value(*c),
            ),
        }
    }

    /// Whether two expressions have the same type and the same value.
    pub open spec fn alike(self, a: Term, b: Term) -> bool {
        term::typ(a) == term::typ(b) && self.value(a) == self.value(b)
    }

    /// Whether moving elements is all that the operations do that are said to do only that:
    /// expressions of one type have the same value where all their elements come from the same
    /// places.
    pub open spec fn moves(self) -> bool {
        forall|a: Term, b: Term|
            term::typ(a) is Some && term::typ(a) == term::typ(b) && #[trigger] same_origins(a, b)
                ==> self.value(a) == self.value(b)
    }
}

/// Whether all elements of two expressions come from the same places.
pub open spec fn same_origins(a: Term, b: Term) -> bool {
    forall|p: int|
        0 <= p < a.shape().count() ==> #[trigger] index::origin(a, p) == index::origin(b, p)
}

/// An operation on expressions that are alike.
pub broadcast proof fn alike_one<V>(i: Interpretation<V>, a: Term, b: Term, op: Op1)
    requires
        i.alike(a, b),
    ensures
        #[trigger] i.alike(a.one(op), b.one(op)),
{
    term::typ_one(a, op);
    term::typ_one(b, op);
}

/// An operation on pairs of expressions that are alike.
pub broadcast proof fn alike_two<V>(
    i: Interpretation<V>,
    a: Term,
    b: Term,
    c: Term,
    d: Term,
    op: Op2,
)
    requires
        i.alike(a, b),
        i.alike(c, d),
    ensures
        #[trigger] i.alike(a.two(c, op), b.two(d, op)),
{
    term::typ_two(a, c, op);
    term::typ_two(b, d, op);
}

/// An operation on triples of expressions that are alike.
pub broadcast proof fn alike_three<V>(
    i: Interpretation<V>,
    a: Term,
    b: Term,
    c: Term,
    d: Term,
    e: Term,
    f: Term,
    op: Op3,
)
    requires
        i.alike(a, b),
        i.alike(c, d),
        i.alike(e, f),
    ensures
        #[trigger] i.alike(a.three(c, e, op), b.three(d, f, op)),
{
    term::typ_three(a, c, e, op);
    term::typ_three(b, d, f, op);
}

/// Operations on expressions that are alike give expressions that are alike.
pub broadcast group congruence {
    alike_one,
    alike_two,
    alike_three,
}

/// A position is made of the numbers it comes apart into.
proof fn lemma_apart(n: int, inn: int, p: int)
    requires
        n > 0,
        inn > 0,
    ensures
        index::place(
            n,
            inn,
            index::outer_of(n, inn, p),
            index::entry_of(n, inn, p),
            index::rest_of(inn, p),
        ) == p,
        0 <= index::entry_of(n, inn, p) < n,
        0 <= index::rest_of(inn, p) < inn,
{
    vstd::arithmetic::div_mod::lemma_fundamental_div_mod(p, inn);
    vstd::arithmetic::div_mod::lemma_fundamental_div_mod(p / inn, n);
    let q = p / inn;
    assert((q / n) * n == n * (q / n)) by (nonlinear_arith);
    assert(q * inn == inn * q) by (nonlinear_arith);
}

/// The shapes of two tensors of three dimensions, one behind the other along the channels, and of
/// the parts that they make up.
proof fn lemma_joined_types(a: Term, b: Term)
    requires
        term::typ(a.concat(b, 1)) is Some,
        a.shape() is S3,
    ensures
        ({
            let joined = a.concat(b, 1);
            let na = a.shape()->S3_1;
            let nb = b.shape()->S3_1;
            &&& term::typ(a) is Some && term::typ(b) is Some
            &&& b.shape() == Shape::S3(a.shape()->S3_0, nb, a.shape()->S3_2)
            &&& na + nb <= usize::MAX
            &&& joined.shape() == Shape::S3(
                a.shape()->S3_0,
                (na + nb) as usize,
                a.shape()->S3_2,
            )
            &&& term::typ(joined.narrow(1, 0, na)) == term::typ(a)
            &&& term::typ(joined.narrow(1, na, nb)) == term::typ(b)
        }),
{
    broadcast use crate::tensor::term::typing_rules;

    term::lemma_typ_fits(&a);
    term::lemma_typ_fits(&b);
}

/// Of two tensors, one behind the other along the channels, both can be had back.
pub proof fn lemma_parts_of_joined<V>(i: Interpretation<V>, a: Term, b: Term)
    requires
        i.moves(),
        term::typ(a.concat(b, 1)) is Some,
        a.shape() is S3,
    ensures
        i.alike(a.concat(b, 1).narrow(1, 0, a.shape()->S3_1), a),
        i.alike(a.concat(b, 1).narrow(1, a.shape()->S3_1, b.shape()->S3_1), b),
{
    let joined = a.concat(b, 1);
    let na = a.shape()->S3_1;
    let nb = b.shape()->S3_1;
    let inn = a.shape()->S3_2 as int;
    lemma_joined_types(a, b);
    let first = joined.narrow(1, 0, na);
    assert forall|p: int| 0 <= p < first.shape().count() implies #[trigger] index::origin(first, p)
        == index::origin(a, p) by {
        lemma_not_empty(a.shape(), p);
        lemma_apart(na as int, inn, p);
        let o = index::outer_of(na as int, inn, p);
        let k = index::entry_of(na as int, inn, p);
        let r = index::rest_of(inn, p);
        index::lemma_origin_narrow(joined, 1, 0, na, o, k, r);
        index::lemma_origin_concat(a, b, 1, o, k, r);
    }
    assert(same_origins(first, a));
    let second = joined.narrow(1, na, nb);
    assert forall|p: int| 0 <= p < second.shape().count() implies #[trigger] index::origin(
        second,
        p,
    ) == index::origin(b, p) by {
        lemma_not_empty(b.shape(), p);
        lemma_apart(nb as int, inn, p);
        let o = index::outer_of(nb as int, inn, p);
        let k = index::entry_of(nb as int, inn, p);
        let r = index::rest_of(inn, p);
        index::lemma_origin_narrow(joined, 1, na, nb, o, k, r);
        index::lemma_origin_concat(a, b, 1, o, na + k, r);
    }
    assert(same_origins(second, b));
}

/// Where there is a position, no dimension is empty.
proof fn lemma_not_empty(shape: Shape, p: int)
    requires
        shape is S3,
        0 <= p < shape.count(),
    ensures
        shape->S3_0 > 0,
        shape->S3_1 > 0,
        shape->S3_2 > 0,
{
    let (a, b, c) = (shape->S3_0 as int, shape->S3_1 as int, shape->S3_2 as int);
    assert(a > 0 && b > 0 && c > 0) by (nonlinear_arith)
        requires
            a * b * c > 0,
            a >= 0,
            b >= 0,
            c >= 0,
    ;
}

/// The two halves of the channels, one behind the other, are all of them.
pub proof fn lemma_joined_parts<V>(i: Interpretation<V>, x: Term, half: usize)
    requires
        i.moves(),
        term::typ(x) is Some,
        x.shape() is S3,
        x.shape()->S3_1 == 2 * half,
    ensures
        i.alike(x.narrow(1, 0, half).concat(x.narrow(1, half, half), 1), x),
{
    let a = x.narrow(1, 0, half);
    let b = x.narrow(1, half, half);
    let joined = a.concat(b, 1);
    lemma_halves_types(x, half);
    let n = 2 * half;
    let inn = x.shape()->S3_2 as int;
    assert forall|p: int| 0 <= p < joined.shape().count() implies #[trigger] index::origin(joined, p)
        == index::origin(x, p) by {
        lemma_not_empty(x.shape(), p);
        lemma_apart(n, inn, p);
        let o = index::outer_of(n, inn, p);
        let k = index::entry_of(n, inn, p);
        let r = index::rest_of(inn, p);
        index::lemma_origin_concat(a, b, 1, o, k, r);
        if k < half {
            index::lemma_origin_narrow(x, 1, 0, half, o, k, r);
        } else {
            index::lemma_origin_narrow(x, 1, half, half, o, k - half, r);
        }
    }
    assert(same_origins(joined, x));
}

proof fn lemma_halves_types(x: Term, half: usize)
    requires
        term::typ(x) is Some,
        x.shape() is S3,
        x.shape()->S3_1 == 2 * half,
    ensures
        x.narrow(1, 0, half).shape() == Shape::S3(x.shape()->S3_0, half, x.shape()->S3_2),
        x.narrow(1, half, half).shape() == Shape::S3(x.shape()->S3_0, half, x.shape()->S3_2),
        term::typ(x.narrow(1, 0, half)) is Some,
        term::typ(x.narrow(1, half, half)) is Some,
        term::typ(x.narrow(1, 0, half).concat(x.narrow(1, half, half), 1)) == term::typ(x),
{
    broadcast use crate::tensor::term::typing_rules;

    term::lemma_typ_fits(&x);
    lemma_half_volume(x.shape()->S3_0, half, x.shape()->S3_2);
}

/// Half of the channels take no more room than all of them.
proof fn lemma_half_volume(a: usize, half: usize, c: usize)
    requires
        2 * half <= usize::MAX,
        Shape::S3(a, (2 * half) as usize, c).spec_fits(),
    ensures
        Shape::S3(a, half, c).spec_fits(),
{
    let (p, q, r, s) = (
        shape::at_least_one(a) as int,
        shape::at_least_one(half) as int,
        shape::at_least_one((2 * half) as usize) as int,
        shape::at_least_one(c) as int,
    );
    assert(p * q * s <= p * r * s) by (nonlinear_arith)
        requires
            p >= 0,
            s >= 0,
            0 <= q <= r,
    ;
}

/// Reversing the channels twice changes nothing.
pub proof fn lemma_reversed_twice<V>(i: Interpretation<V>, x: Term)
    requires
        i.moves(),
        term::typ(x.reverse(1)) is Some,
        x.shape() is S3,
    ensures
        i.alike(x.reverse(1).reverse(1), x),
{
    let twice = x.reverse(1).reverse(1);
    lemma_reversed_types(x);
    let n = x.shape()->S3_1 as int;
    let inn = x.shape()->S3_2 as int;
    assert forall|p: int| 0 <= p < twice.shape().count() implies #[trigger] index::origin(twice, p)
        == index::origin(x, p) by {
        lemma_not_empty(x.shape(), p);
        lemma_apart(n, inn, p);
        index::lemma_reverse_twice(
            x,
            1,
            index::outer_of(n, inn, p),
            index::entry_of(n, inn, p),
            index::rest_of(inn, p),
        );
    }
    assert(same_origins(twice, x));
}

proof fn lemma_reversed_types(x: Term)
    requires
        term::typ(x.reverse(1)) is Some,
    ensures
        term::typ(x.reverse(1)) == term::typ(x),
        term::typ(x.reverse(1).reverse(1)) == term::typ(x),
{
    broadcast use crate::tensor::term::typing_rules;

}

} // verus!
