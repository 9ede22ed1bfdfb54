//! Where the pieces of a spline meet, and what lies beyond its ends.

use vstd::prelude::*;

use crate::model::lines;
use crate::model::numbers;
use crate::model::numbers::Numbers;
use crate::model::spline;
use crate::model::spline::Spline;
use crate::model::spline_laws;
use crate::model::spline_laws::{curve_of, shares, suits, sum, Exact};
use crate::tensor::index;
use crate::tensor::ops::{Op1, Op2};
use crate::tensor::scalar;
use crate::tensor::scalar::{Real, Scalar, ONE_BITS};
use crate::tensor::shape::Shape;
use crate::tensor::term;
use crate::tensor::term::Term;
use crate::tensor::typing::{Comparison, DType, Unary};

verus! {

/// The pieces of a spline meet, along the first axis, where the shares that come of the widths say,
/// and along the second where those that come of the heights say. Its slopes there are the softplus
/// of the given ones, plus the least slope.
pub proof fn lemma_knots(
    e: Exact,
    widths: Term,
    heights: Term,
    slopes: Term,
    tail: Real,
    least_width: Real,
    least_height: Real,
    least_slope: Real,
    x: Term,
    reverse: bool,
)
    requires
        suits(e, widths, heights, slopes, tail, least_width, least_height, least_slope),
        term::typ(
            Spline::of(
                widths,
                heights,
                slopes,
                tail,
                least_width,
                least_height,
                least_slope,
            ).output(x, reverse),
        ) is Some,
    ensures
        ({
            let c = curve_of(
                e,
                Spline::of(
                    widths,
                    heights,
                    slopes,
                    tail,
                    least_width,
                    least_height,
                    least_slope,
                ),
            );
            let b = (e.scalar)(Scalar::Value(tail));
            let n = lines::last_len(widths);
            &&& c.w.len() == n + 1
            &&& c.h.len() == n + 1
            &&& c.d.len() == n + 1
            &&& forall|k: int|
                0 <= k <= n ==> #[trigger] c.w[k] == 2real * (b * sum(
                    shares(e, widths, n, least_width).take(k),
                )) - b
            &&& forall|k: int|
                0 <= k <= n ==> #[trigger] c.h[k] == 2real * (b * sum(
                    shares(e, heights, n, least_height).take(k),
                )) - b
            &&& forall|k: int|
                0 <= k <= n ==> #[trigger] c.d[k] == e.line(slopes.softplus())[k] + (e.scalar)(
                    Scalar::Value(least_slope),
                )
        }),
{
    broadcast use {crate::tensor::term::strictness, crate::model::lines::strict_rules};

    let s = Spline::of(widths, heights, slopes, tail, least_width, least_height, least_slope);
    let n = s.num_bins;
    spline_laws::lemma_curve(
        e,
        widths,
        heights,
        slopes,
        tail,
        least_width,
        least_height,
        least_slope,
        x,
        reverse,
    );
    assert(s.bins(x, reverse).defined());
    assert(term::typ(s.cumwidths) is Some);
    assert(term::typ(s.cumheights) is Some);
    spline_laws::lemma_edges(e, widths, n, tail, least_width);
    spline_laws::lemma_edges(e, heights, n, tail, least_height);
    let p = e.line(slopes.softplus());
    let l = (e.scalar)(Scalar::Value(least_slope));
    let d = e.line(s.slopes);
    assert(d =~= Seq::new(p.len(), |k: int| p[k] * 1real + l));
    assert forall|k: int| 0 <= k <= n implies #[trigger] d[k] == p[k] + l by {
        let y = p[k];
        assert(y * 1real == y) by (nonlinear_arith);
    }
}

/// A number of a line with one number before and one behind it.
proof fn lemma_framed(i: Numbers, x: Term, value: Scalar, q: int, k: int)
    requires
        term::typ(lines::padded_last(x, 1, 1, value)) is Some,
        x.shape() is S4,
        x.dtype().spec_is_float(),
        0 <= k < x.shape()->S4_3 + 2,
    ensures
        x.shape()->S4_3 + 2 <= usize::MAX,
        lines::padded_last(x, 1, 1, value).shape() == Shape::S4(
            x.shape()->S4_0,
            x.shape()->S4_1,
            x.shape()->S4_2,
            (x.shape()->S4_3 + 2) as usize,
        ),
        i.values(lines::padded_last(x, 1, 1, value))(q * (x.shape()->S4_3 + 2) + k) == if k == 0
            || k == x.shape()->S4_3 + 1 {
            (i.scalar)(value)
        } else {
            i.values(x)(q * x.shape()->S4_3 + (k - 1))
        },
{
    broadcast use crate::tensor::term::strictness;

    reveal(lines::padded_last);
    reveal(lines::constant_last);
    let n = x.shape()->S4_3;
    let one = lines::constant_last(x, 1, value);
    let front = one.concat(x, 3);
    let y = front.concat(one, 3);
    assert(lines::last_axis(x) == 3);
    assert(y == lines::padded_last(x, 1, 1, value));
    let (a, b, c) = (x.shape()->S4_0, x.shape()->S4_1, x.shape()->S4_2);
    assert(term::typ(front) is Some && term::typ(one) is Some && term::typ(x) is Some);
    let full = Term::full(value, DType::F32, Shape::S4(a, b, c, 1));
    assert(one == full.cast(x.dtype()));
    assert(one.shape() == Shape::S4(a, b, c, 1)) by {
        broadcast use crate::tensor::term::typing_rules;

    }
    index::lemma_concat_shape(one, x, 3);
    index::lemma_concat_shape(front, one, 3);
    assert(front.shape() == Shape::S4(a, b, c, (n + 1) as usize));
    assert(y.shape() == Shape::S4(a, b, c, (n + 2) as usize));
    assert(forall|p: int| #[trigger] i.values(one)(p) == (i.scalar)(value)) by {
        broadcast use crate::model::numbers::number_rules;

    }
    numbers::values_two(i, front, one, Op2::Concat(3));
    index::lemma_place(n + 2, 1, q, k, 0);
    if k < n + 1 {
        numbers::values_two(i, one, x, Op2::Concat(3));
        index::lemma_place(n + 1, 1, q, k, 0);
    }
}

/// A spline that goes on as the identity has at both ends the slope that the given number stands
/// for, and at the other edges the softplus of the given slopes, each plus the least slope.
pub proof fn lemma_end_slopes(
    i: Numbers,
    widths: Term,
    heights: Term,
    slopes: Term,
    tail: Real,
    least: Real,
    q: int,
    k: int,
)
    requires
        i.reckons(),
        term::typ(
            spline::joined_spline(widths, heights, slopes, tail, least, least, least).slopes,
        ) is Some,
        slopes.shape() is S4,
        slopes.dtype().spec_is_float(),
        0 <= k < slopes.shape()->S4_3 + 2,
    ensures
        ({
            let n = slopes.shape()->S4_3 as int;
            let s = spline::joined_spline(widths, heights, slopes, tail, least, least, least);
            i.values(s.slopes)(q * (n + 2) + k) == (i.function)(
                Unary::Softplus,
                if k == 0 || k == n + 1 {
                    (i.scalar)(Scalar::SoftplusInverse(least))
                } else {
                    i.values(slopes)(q * n + (k - 1))
                },
            ) + (i.scalar)(Scalar::Value(least))
        }),
{
    broadcast use crate::tensor::term::strictness;

    let end = Scalar::SoftplusInverse(least);
    let framed = lines::padded_last(slopes, 1, 1, end);
    let raised = framed.softplus();
    let s = spline::joined_spline(widths, heights, slopes, tail, least, least, least);
    assert(s.slopes == raised.shift(Scalar::Value(least)));
    assert(term::typ(framed) is Some);
    lemma_framed(i, slopes, end, q, k);
    let p = q * (slopes.shape()->S4_3 + 2) + k;
    numbers::values_one(i, framed, Op1::Apply(Unary::Softplus));
    numbers::values_one(
        i,
        raised,
        Op1::Affine(scalar::scalar(ONE_BITS), Scalar::Value(least)),
    );
    let y = i.values(raised)(p);
    assert(y * 1real == y) by (nonlinear_arith);
}

/// The ends join the identity smoothly: where the softplus undoes its inverse, the slope there is
/// one.
pub proof fn lemma_joins_smoothly(
    i: Numbers,
    widths: Term,
    heights: Term,
    slopes: Term,
    tail: Real,
    least: Real,
    q: int,
)
    requires
        i.reckons(),
        term::typ(
            spline::joined_spline(widths, heights, slopes, tail, least, least, least).slopes,
        ) is Some,
        slopes.shape() is S4,
        slopes.dtype().spec_is_float(),
        (i.function)(Unary::Softplus, (i.scalar)(Scalar::SoftplusInverse(least))) == 1real
            - (i.scalar)(Scalar::Value(least)),
    ensures
        ({
            let n = slopes.shape()->S4_3 as int;
            let s = spline::joined_spline(widths, heights, slopes, tail, least, least, least);
            &&& i.values(s.slopes)(q * (n + 2)) == 1real
            &&& i.values(s.slopes)(q * (n + 2) + n + 1) == 1real
        }),
{
    let n = slopes.shape()->S4_3 as int;
    lemma_end_slopes(i, widths, heights, slopes, tail, least, q, 0);
    lemma_end_slopes(i, widths, heights, slopes, tail, least, q, n + 1);
    assert(q * (n + 2) + 0 == q * (n + 2));
    assert(q * (n + 2) + (n + 1) == q * (n + 2) + n + 1);
}

/// Between the ends of its interval the extended spline, or its inverse, gives what the spline
/// gives, and beyond them it gives every number back.
pub proof fn lemma_extended(i: Numbers, s: Spline, x: Term, reverse: bool, p: int)
    requires
        i.reckons(),
        (i.scalar)(Scalar::Negated(s.tail)) == -(i.scalar)(Scalar::Value(s.tail)),
        term::typ(s.extended(x, reverse)) is Some,
        x.dtype().spec_is_float(),
    ensures
        ({
            let b = (i.scalar)(Scalar::Value(s.tail));
            let v = i.values(x)(p);
            i.values(s.extended(x, reverse))(p) == if -b <= v <= b {
                i.values(s.output(x, reverse))(p)
            } else {
                v
            }
        }),
{
    broadcast use crate::tensor::term::strictness;

    reveal(Spline::extended);
    let inside = spline::inside_mask(x, s.tail);
    let out = s.output(x, reverse);
    let b = (i.scalar)(Scalar::Value(s.tail));
    let v = i.values(x)(p);
    let w = i.values(out)(p);
    lemma_inside(i, x, s.tail, p);
    let m = i.values(inside)(p);
    let kept = x.mul(inside.one_minus());
    let changed = out.mul(inside);
    assert(s.extended(x, reverse) == kept.add(changed));
    assert(i.values(kept.add(changed))(p) == v * (m * -1real + 1real) + w * m) by {
        broadcast use crate::model::numbers::number_rules;

    }
    if m == 1real {
        assert(v * (1real * -1real + 1real) + w * 1real == w) by (nonlinear_arith);
    } else {
        assert(v * (0real * -1real + 1real) + w * 0real == v) by (nonlinear_arith);
    }
}

proof fn lemma_inside(i: Numbers, x: Term, tail: Real, p: int)
    requires
        (i.scalar)(Scalar::Negated(tail)) == -(i.scalar)(Scalar::Value(tail)),
        x.dtype().spec_is_float(),
    ensures
        ({
            let b = (i.scalar)(Scalar::Value(tail));
            let v = i.values(x)(p);
            i.values(spline::inside_mask(x, tail))(p) == if -b <= v <= b {
                1real
            } else {
                0real
            }
        }),
{
    let low = Term::full(Scalar::Negated(tail), DType::F32, x.shape());
    let high = Term::full(Scalar::Value(tail), DType::F32, x.shape());
    let above = x.compare(low, Comparison::Ge);
    let below = x.compare(high, Comparison::Le);
    let both = above.mul(below);
    assert(spline::inside_mask(x, tail) == both.cast(x.dtype()));
    let v = i.values(x)(p);
    let b = (i.scalar)(Scalar::Value(tail));
    assert(i.values(both.cast(x.dtype()))(p) == numbers::compared(Comparison::Ge, v, -b)
        * numbers::compared(Comparison::Le, v, b)) by {
        broadcast use crate::model::numbers::number_rules;

    }
    assert(0real * 0real == 0real && 0real * 1real == 0real && 1real * 0real == 0real && 1real
        * 1real == 1real) by (nonlinear_arith);
}

} // verus!
