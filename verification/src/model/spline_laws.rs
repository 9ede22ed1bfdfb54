//! What the splines do, where arithmetic is exact.
//!
//! A spline takes every place of a tensor by itself. At one place, a tensor with a dimension for
//! the bins holds a line of numbers, and any other a single number. Here they are real numbers.

use vstd::prelude::*;

use crate::model::alike;
use crate::model::curve;
use crate::model::curve::Curve;
use crate::model::inverse;
use crate::model::lines;
use crate::model::lines_laws;
use crate::model::rational;
use crate::model::rational::Piece;
use crate::model::spline;
use crate::model::spline::{BinTerms, Spline};
use crate::tensor::index;
use crate::tensor::ops::{Leaf, Op1, Op2};
use crate::tensor::scalar;
use crate::tensor::scalar::{
    Real, Scalar, FOUR_BITS, INFINITY_BITS, MINUS_ONE_BITS, ONE_BITS, TWO_BITS, ZERO_BITS,
};
use crate::tensor::shape::Shape;
use crate::tensor::term;
use crate::tensor::term::Term;
use crate::tensor::typing::{Binary, Comparison, DType, Unary};

verus! {

/// The numbers at one place, as far as expressions do not spell them out.
pub struct Exact {
    pub scalar: spec_fn(Scalar) -> real,
    pub root: spec_fn(real) -> real,
    pub log: spec_fn(real) -> real,
    pub given_element: spec_fn(Term) -> real,
    pub given_line: spec_fn(Term) -> Seq<real>,
}

/// The sum of a line.
pub open spec fn sum(s: Seq<real>) -> real
    decreases s.len(),
{
    if s.len() == 0 {
        0real
    } else {
        sum(s.drop_last()) + s.last()
    }
}

/// Whether a number is the given whole number.
pub open spec fn is_whole(r: real, k: int) -> bool {
    k as real == r
}

/// The whole number that a number is.
pub open spec fn whole(r: real) -> int {
    choose|k: int| is_whole(r, k)
}

/// Two numbers under an operation.
pub open spec fn combined(f: Binary, a: real, b: real) -> real {
    match f {
        Binary::Add => a + b,
        Binary::Sub => a - b,
        Binary::Mul => a * b,
        Binary::Div => a / b,
        Binary::Maximum => if a >= b {
            a
        } else {
            b
        },
        Binary::Minimum => if a <= b {
            a
        } else {
            b
        },
    }
}

impl Exact {
    /// A number, moved into a range whose upper end may be missing.
    pub open spec fn clamped(self, x: real, low: Scalar, high: Scalar) -> real {
        let y = if x < (self.scalar)(low) {
            (self.scalar)(low)
        } else {
            x
        };
        if high != scalar::scalar(INFINITY_BITS) && y > (self.scalar)(high) {
            (self.scalar)(high)
        } else {
            y
        }
    }

    /// The number that an expression holds.
    pub open spec fn element(self, t: Term) -> real
        decreases t,
    {
        match t {
            Term::One(Op1::Affine(f, s), a) => self.element(*a) * (self.scalar)(f) + (self.scalar)(
                s,
            ),
            Term::One(Op1::Clamp(low, high), a) => self.clamped(self.element(*a), low, high),
            Term::One(Op1::Apply(Unary::Neg), a) => -self.element(*a),
            Term::One(Op1::Apply(Unary::Sqr), a) => self.element(*a) * self.element(*a),
            Term::One(Op1::Apply(Unary::Sqrt), a) => (self.root)(self.element(*a)),
            Term::One(Op1::Apply(Unary::Log), a) => (self.log)(self.element(*a)),
            Term::One(Op1::Cast(_), a) => self.element(*a),
            Term::One(Op1::SumLast, a) => sum(self.line(*a)),
            Term::One(Op1::Squeeze(dim), a) => if dim == lines::last_axis(*a) {
                self.line(*a)[0]
            } else {
                (self.given_element)(t)
            },
            Term::Two(Op2::Zip(f), a, b) => combined(f, self.element(*a), self.element(*b)),
            _ => (self.given_element)(t),
        }
    }

    /// The line of numbers that an expression holds.
    pub open spec fn line(self, t: Term) -> Seq<real>
        decreases t,
    {
        match t {
            Term::Zero(Leaf::Fill(s, ty)) => Seq::new(
                ty.shape.spec_dim(ty.shape.spec_rank() - 1) as nat,
                |k: int| (self.scalar)(s),
            ),
            Term::One(Op1::Affine(f, s), a) => {
                let inner = self.line(*a);
                Seq::new(
                    inner.len(),
                    |k: int| inner[k] * (self.scalar)(f) + (self.scalar)(s),
                )
            },
            Term::One(Op1::Cast(_), a) => self.line(*a),
            Term::One(Op1::Unsqueeze(dim), a) => if dim == a.shape().spec_rank() {
                seq![self.element(*a)]
            } else {
                (self.given_line)(t)
            },
            Term::One(Op1::Narrow(dim, start, len), a) => if dim == lines::last_axis(t) {
                self.line(*a).subrange(start as int, start + len)
            } else {
                (self.given_line)(t)
            },
            Term::One(Op1::Cumsum(dim), a) => if dim == lines::last_axis(t) {
                let inner = self.line(*a);
                Seq::new(inner.len(), |k: int| sum(inner.take(k + 1)))
            } else {
                (self.given_line)(t)
            },
            Term::Two(Op2::Zip(f), a, b) => {
                let (x, y) = (self.line(*a), self.line(*b));
                Seq::new(x.len(), |k: int| combined(f, x[k], y[k]))
            },
            Term::Two(Op2::Concat(dim), a, b) => if dim == lines::last_axis(t) {
                self.line(*a) + self.line(*b)
            } else {
                (self.given_line)(t)
            },
            Term::Two(Op2::BroadcastCompare(Comparison::Ge), a, b) => {
                let (x, y) = (self.line(*a), self.line(*b));
                Seq::new(
                    y.len(),
                    |k: int|
                        if x[0] >= y[k] {
                            1real
                        } else {
                            0real
                        },
                )
            },
            Term::Two(Op2::GatherLast, a, b) => {
                let (x, y) = (self.line(*a), self.line(*b));
                Seq::new(y.len(), |k: int| x[whole(y[k])])
            },
            _ => (self.given_line)(t),
        }
    }

    /// Whether scalars and functions are what their names say, the softplus of a line is positive,
    /// and the softmax of a line that is not empty is positive and has the sum one.
    pub open spec fn sound(self) -> bool {
        &&& (self.scalar)(scalar::scalar(ZERO_BITS)) == 0real
        &&& (self.scalar)(scalar::scalar(ONE_BITS)) == 1real
        &&& (self.scalar)(scalar::scalar(MINUS_ONE_BITS)) == -1real
        &&& (self.scalar)(scalar::scalar(TWO_BITS)) == 2real
        &&& (self.scalar)(scalar::scalar(FOUR_BITS)) == 4real
        &&& (self.scalar)(
            Scalar::Value(Real { bits: crate::model::spline::MILLIONTH_BITS }),
        ) > 0real
        &&& forall|r: Real| #[trigger]
            (self.scalar)(Scalar::Negated(r)) == -(self.scalar)(Scalar::Value(r))
        &&& forall|r: Real| #[trigger]
            (self.scalar)(Scalar::Span(r)) == 2real * (self.scalar)(Scalar::Value(r))
        &&& forall|n: usize| #[trigger]
            (self.scalar)(Scalar::LastIndex(n)) == n as real - 1real
        &&& forall|r: Real, n: usize| #[trigger]
            (self.scalar)(Scalar::Remainder(r, n)) == 1real - (self.scalar)(Scalar::Value(r)) * (
            n as real)
        &&& forall|x: real|
            x >= 0real ==> #[trigger] (self.root)(x) >= 0real && (self.root)(x) * (self.root)(x)
                == x
        &&& forall|a: Term|
            term::typ(a.softmax()) is Some && lines::last_len(a) > 0 ==> #[trigger] proportions(
                self.line(a.softmax()),
                lines::last_len(a),
            )
        &&& forall|a: Term|
            term::typ(a.softplus()) is Some ==> #[trigger] positive(
                self.line(a.softplus()),
                lines::last_len(a),
            )
    }
}

/// The numbers that scalars stand for, from the numbers that patterns stand for.
pub open spec fn scalars(number: spec_fn(Real) -> real) -> spec_fn(Scalar) -> real {
    |s: Scalar|
        match s {
            Scalar::Value(r) => number(r),
            Scalar::Negated(r) => -number(r),
            Scalar::Span(r) => 2real * number(r),
            Scalar::LastIndex(n) => n as real - 1real,
            Scalar::Remainder(r, n) => 1real - number(r) * (n as real),
            _ => 0real,
        }
}

/// Equal parts of one.
pub open spec fn equal_parts(n: usize) -> Seq<real> {
    Seq::new(n as nat, |k: int| 1real / (n as real))
}

/// Lines of softmaxes and softpluses, and empty ones else.
pub open spec fn plain_lines() -> spec_fn(Term) -> Seq<real> {
    |t: Term|
        match t {
            Term::One(Op1::Softmax, a) => equal_parts(lines::last_len(*a)),
            Term::One(Op1::Apply(Unary::Softplus), a) => Seq::new(
                lines::last_len(*a) as nat,
                |k: int| 1real,
            ),
            _ => Seq::empty(),
        }
}

proof fn lemma_sum_equal(s: Seq<real>, x: real)
    requires
        forall|k: int| 0 <= k < s.len() ==> #[trigger] s[k] == x,
    ensures
        sum(s) == x * (s.len() as real),
    decreases s.len(),
{
    if s.len() > 0 {
        let p = s.drop_last();
        assert forall|k: int| 0 <= k < p.len() implies #[trigger] p[k] == x by {
            assert(p[k] == s[k]);
        }
        lemma_sum_equal(p, x);
        let n = p.len() as real;
        assert(x * (n + 1real) == x * n + x) by (nonlinear_arith);
    } else {
        assert(x * 0real == 0real) by (nonlinear_arith);
    }
}

/// There are such numbers: any square root, and any numbers for the patterns that have a name,
/// are part of some.
pub proof fn lemma_sound(number: spec_fn(Real) -> real, root: spec_fn(real) -> real)
    requires
        curve::is_root(root),
        number(Real { bits: ZERO_BITS }) == 0real,
        number(Real { bits: ONE_BITS }) == 1real,
        number(Real { bits: MINUS_ONE_BITS }) == -1real,
        number(Real { bits: TWO_BITS }) == 2real,
        number(Real { bits: FOUR_BITS }) == 4real,
        number(Real { bits: spline::MILLIONTH_BITS }) > 0real,
    ensures
        (Exact {
            scalar: scalars(number),
            root,
            log: |x: real| x,
            given_element: |t: Term| 0real,
            given_line: plain_lines(),
        }).sound(),
{
    let e = Exact {
        scalar: scalars(number),
        root,
        log: |x: real| x,
        given_element: |t: Term| 0real,
        given_line: plain_lines(),
    };
    assert forall|a: Term|
        term::typ(a.softmax()) is Some && lines::last_len(a) > 0 implies #[trigger] proportions(
        e.line(a.softmax()),
        lines::last_len(a),
    ) by {
        let n = lines::last_len(a);
        let x = 1real / (n as real);
        let s = equal_parts(n);
        assert(e.line(a.softmax()) == s);
        assert(x > 0real && x * (n as real) == 1real) by (nonlinear_arith)
            requires
                x == 1real / (n as real),
                n as real > 0real,
        ;
        lemma_sum_equal(s, x);
    }
}

/// Whether a line is one of positive numbers, of the given length.
pub open spec fn positive(s: Seq<real>, n: usize) -> bool {
    s.len() == n && forall|k: int| 0 <= k < s.len() ==> #[trigger] s[k] > 0real
}

/// Whether a line is one of positive numbers with the sum one, of the given length.
pub open spec fn proportions(s: Seq<real>, n: usize) -> bool {
    positive(s, n) && sum(s) == 1real
}

proof fn lemma_sum_take(s: Seq<real>, i: int, j: int)
    requires
        forall|k: int| 0 <= k < s.len() ==> #[trigger] s[k] > 0real,
        0 <= i < j <= s.len(),
    ensures
        sum(s.take(i)) < sum(s.take(j)),
    decreases j,
{
    assert(s.take(j).drop_last() =~= s.take(j - 1));
    assert(s.take(j).last() == s[j - 1]);
    if i < j - 1 {
        lemma_sum_take(s, i, j - 1);
    }
}

/// The sum of numbers that are all stretched and shifted alike.
proof fn lemma_sum_affine(s: Seq<real>, v: Seq<real>, f: real, c: real)
    requires
        v.len() == s.len(),
        forall|k: int| 0 <= k < s.len() ==> #[trigger] v[k] == s[k] * f + c,
    ensures
        sum(v) == sum(s) * f + c * (s.len() as real),
    decreases s.len(),
{
    if s.len() > 0 {
        let (p, q) = (s.drop_last(), v.drop_last());
        lemma_sum_affine(p, q, f, c);
        let (a, b, n) = (sum(p), s.last(), p.len() as real);
        assert(v.last() == b * f + c);
        assert((a + b) * f + c * (n + 1real) == (a * f + c * n) + (b * f + c)) by (nonlinear_arith);
    } else {
        assert(0real * f + c * 0real == 0real) by (nonlinear_arith);
    }
}

proof fn lemma_units(a: real, b: real)
    ensures
        (a * b + 0real) * 1real == a * b,
        a * 1real == a,
        a * 2real + 0real == 2real * a,
        a * 4real + 0real == 4real * a,
        a * (-1real) + 1real == 1real - a,
        a * (2real * b) == 2real * (b * a),
{
    assert((a * b + 0real) * 1real == a * b) by (nonlinear_arith);
    assert(a * 1real == a) by (nonlinear_arith);
    assert(a * 2real + 0real == 2real * a) by (nonlinear_arith);
    assert(a * 4real + 0real == 4real * a) by (nonlinear_arith);
    assert(a * (-1real) + 1real == 1real - a) by (nonlinear_arith);
    assert(a * (2real * b) == 2real * (b * a)) by (nonlinear_arith);
}

/// The line of a tensor of constants.
proof fn lemma_constant_line(e: Exact, x: Term, n: usize, value: Scalar)
    requires
        term::typ(lines::constant_last(x, n, value)) is Some,
    ensures
        e.line(lines::constant_last(x, n, value)) =~= Seq::new(n as nat, |k: int| (e.scalar)(value)),
{
    broadcast use crate::tensor::term::strictness;

    reveal(lines::constant_last);
    reveal_with_fuel(Exact::line, 2);
    index::lemma_with_dim(x.shape(), x.shape().spec_rank() - 1, n, n);
}

/// The shapes of the parts of an overwritten tensor.
proof fn lemma_axes(x: Term, start: usize, len: usize)
    requires
        term::typ(x.narrow(lines::last_axis(x), start, len)) is Some,
        x.shape().spec_rank() > 0,
    ensures
        term::typ(x) is Some,
        lines::last_axis(x.narrow(lines::last_axis(x), start, len)) == lines::last_axis(x),
        lines::last_len(x.narrow(lines::last_axis(x), start, len)) == len,
        start + len <= lines::last_len(x),
{
    broadcast use crate::tensor::term::strictness;

    let dim = lines::last_axis(x);
    index::lemma_narrow_shape(x, dim, start, len);
    index::lemma_with_dim(x.shape(), dim as int, len, len);
}

proof fn lemma_concat_axis(a: Term, b: Term, dim: usize)
    requires
        term::typ(a.concat(b, dim)) is Some,
        dim == lines::last_axis(a),
        a.shape().spec_rank() > 0,
    ensures
        lines::last_axis(a.concat(b, dim)) == dim,
        term::typ(a) is Some,
        term::typ(b) is Some,
{
    broadcast use crate::tensor::term::strictness;

    index::lemma_concat_shape(a, b, dim);
    let total = (a.shape().spec_dim(dim as int) + b.shape().spec_dim(dim as int)) as usize;
    index::lemma_with_dim(a.shape(), dim as int, total, total);
}

/// The line of a tensor in which the entries from `start` on are overwritten by one entry.
proof fn lemma_overwritten_line(e: Exact, x: Term, start: usize, fill: Term)
    requires
        term::typ(lines::overwritten(x, lines::last_axis(x), start, fill)) is Some,
        x.shape().spec_rank() > 0,
        fill.shape().spec_rank() == x.shape().spec_rank(),
        lines::last_len(fill) == 1,
        start < lines::last_len(x),
        e.line(x).len() == lines::last_len(x),
        e.line(fill).len() == 1,
    ensures
        e.line(lines::overwritten(x, lines::last_axis(x), start, fill)) =~= e.line(x).update(
            start as int,
            e.line(fill)[0],
        ),
        term::typ(x) is Some,
{
    broadcast use crate::tensor::term::strictness;

    reveal(lines::overwritten);
    let dim = lines::last_axis(x);
    let total = lines::last_len(x);
    let head = x.narrow(dim, 0, start);
    let rest = (total - (start + 1)) as usize;
    let tail = x.narrow(dim, (start + 1) as usize, rest);
    let front = if start > 0 {
        head.concat(fill, dim)
    } else {
        fill
    };
    if start + 1 < total {
        assert(term::typ(tail) is Some);
        lemma_axes(x, (start + 1) as usize, rest);
    }
    if start > 0 {
        assert(term::typ(head) is Some);
        lemma_axes(x, 0, start);
        lemma_concat_axis(head, fill, dim);
        assert(e.line(head) =~= e.line(x).subrange(0, start as int));
        assert(e.line(front) =~= e.line(head) + e.line(fill));
        index::lemma_concat_shape(head, fill, dim);
        index::lemma_narrow_shape(x, dim, 0, start);
        index::lemma_with_dim(x.shape(), dim as int, start, start);
        index::lemma_with_dim(
            head.shape(),
            dim as int,
            (head.shape().spec_dim(dim as int) + fill.shape().spec_dim(dim as int)) as usize,
            0,
        );
    }
    if start + 1 < total {
        lemma_concat_axis(front, tail, dim);
        assert(e.line(tail) =~= e.line(x).subrange(start + 1, total as int));
    }
}

proof fn lemma_set_line(e: Exact, x: Term, idx: usize, value: Scalar)
    requires
        term::typ(lines::with_last(x, idx, value)) is Some,
        x.shape().spec_rank() > 0,
        idx < lines::last_len(x),
        e.line(x).len() == lines::last_len(x),
    ensures
        term::typ(x) is Some,
        lines::with_last(x, idx, value).shape() == x.shape(),
        e.line(lines::with_last(x, idx, value)) =~= e.line(x).update(
            idx as int,
            (e.scalar)(value),
        ),
{
    broadcast use crate::model::lines::strict_rules;

    lines_laws::lemma_set(x, idx, value, 0, 0);
    reveal(lines::with_last);
    let fill = lines::constant_last(x, 1, value);
    assert(term::typ(fill) is Some) by {
        reveal(lines::overwritten);
        broadcast use crate::tensor::term::strictness;

    }
    lemma_constant_line(e, x, 1, value);
    lines_laws::lemma_constant_shape(x, 1, value);
    index::lemma_with_dim(x.shape(), x.shape().spec_rank() - 1, 1, 1);
    lemma_overwritten_line(e, x, idx, fill);
}

/// The line of sizes that have the proportions of a softmax: positive, with the sum one.
proof fn lemma_sizes_line(e: Exact, raw: Term, n: usize, least: Real)
    requires
        e.sound(),
        n == lines::last_len(raw),
        n >= 1,
        (e.scalar)(Scalar::Value(least)) > 0real,
        (e.scalar)(Scalar::Value(least)) * (n as real) < 1real,
        term::typ(
            raw.softmax().scale(Scalar::Remainder(least, n)).shift(Scalar::Value(least)),
        ) is Some,
    ensures
        ({
            let v = e.line(
                raw.softmax().scale(Scalar::Remainder(least, n)).shift(Scalar::Value(least)),
            );
            proportions(v, n) && v == shares(e, raw, n, least)
        }),
{
    broadcast use crate::tensor::term::strictness;

    let s = e.line(raw.softmax());
    assert(proportions(s, n));
    let rem = Scalar::Remainder(least, n);
    let scaled = raw.softmax().scale(rem);
    let t = scaled.shift(Scalar::Value(least));
    let u = e.line(scaled);
    let v = e.line(t);
    let f = (e.scalar)(rem);
    let l = (e.scalar)(Scalar::Value(least));
    assert(u =~= Seq::new(n as nat, |k: int| s[k] * f + 0real));
    assert(v =~= Seq::new(n as nat, |k: int| u[k] * 1real + l));
    assert forall|k: int| 0 <= k < n implies #[trigger] v[k] == s[k] * f + l && v[k] > 0real by {
        lemma_units(s[k], f);
        rational::lemma_positive(s[k], f);
    }
    lemma_sum_affine(s, v, f, l);
    assert(1real * f == f) by (nonlinear_arith);
    let parts = shares(e, raw, n, least);
    assert forall|k: int| 0 <= k < n implies v[k] == #[trigger] parts[k] by {
        let x = s[k];
        assert(x * f == f * x) by (nonlinear_arith);
        assert(v[k] == s[k] * f + l);
    }
    assert(v =~= parts);
}

/// The shares of an interval that bins have: the least share, and of what is then left the part
/// that the softmax says.
pub open spec fn shares(e: Exact, raw: Term, n: usize, least: Real) -> Seq<real> {
    let l = (e.scalar)(Scalar::Value(least));
    Seq::new(n as nat, |k: int| l + (1real - l * (n as real)) * e.line(raw.softmax())[k])
}

/// The edges rise from `-tail` to `tail`, and each lies as far in the interval as the shares of the
/// bins before it say.
pub proof fn lemma_edges(e: Exact, raw: Term, n: usize, tail: Real, least: Real)
    requires
        e.sound(),
        n == lines::last_len(raw),
        n >= 1,
        (e.scalar)(Scalar::Value(tail)) > 0real,
        (e.scalar)(Scalar::Value(least)) > 0real,
        (e.scalar)(Scalar::Value(least)) * (n as real) < 1real,
        term::typ(spline::edges(raw, n, tail, least)) is Some,
    ensures
        ({
            let w = e.line(spline::edges(raw, n, tail, least));
            let b = (e.scalar)(Scalar::Value(tail));
            &&& w.len() == n + 1
            &&& lines::last_len(spline::edges(raw, n, tail, least)) == n + 1
            &&& spline::edges(raw, n, tail, least).shape().spec_rank() > 0
            &&& curve::rising(w)
            &&& w[0] == -b
            &&& w[n as int] == b
            &&& forall|k: int|
                0 <= k <= n ==> #[trigger] w[k] == 2real * (b * sum(
                    shares(e, raw, n, least).take(k),
                )) - b
        }),
{
    broadcast use {crate::tensor::term::strictness, crate::model::lines::strict_rules};

    reveal(spline::edges);
    let b = (e.scalar)(Scalar::Value(tail));
    let zero = scalar::scalar(ZERO_BITS);
    let sizes = raw.softmax().scale(Scalar::Remainder(least, n)).shift(Scalar::Value(least));
    let sums = lines::cumsum_last(sizes);
    let padded = lines::padded_last(sums, 1, 0, zero);
    let scaled = padded.scale(Scalar::Span(tail));
    let spread = scaled.shift(Scalar::Negated(tail));
    let first = lines::with_last(spread, 0, Scalar::Negated(tail));
    assert(spline::edges(raw, n, tail, least) == lines::with_last(first, n, Scalar::Value(tail)));
    lemma_spread_types(raw, n, tail, least);
    lemma_sizes_line(e, raw, n, least);
    let v = e.line(sizes);
    let c = e.line(sums);
    reveal(lines::cumsum_last);
    assert(c =~= Seq::new(n as nat, |k: int| sum(v.take(k + 1))));
    let front = lines::constant_last(sums, 1, zero);
    reveal(lines::padded_last);
    assert(padded == front.concat(sums, lines::last_axis(sums)));
    lemma_constant_line(e, sums, 1, zero);
    let u = e.line(padded);
    assert(u =~= e.line(front) + c);
    assert forall|k: int| 0 <= k <= n implies #[trigger] u[k] == sum(v.take(k)) by {
        if k > 0 {
            assert(u[k] == c[k - 1]);
        }
    }
    let g = e.line(scaled);
    let z = e.line(spread);
    let span = (e.scalar)(Scalar::Span(tail));
    assert(g =~= Seq::new(u.len(), |k: int| u[k] * span + 0real));
    assert(z =~= Seq::new(u.len(), |k: int| g[k] * 1real + (-b)));
    assert forall|k: int| 0 <= k <= n implies #[trigger] z[k] == 2real * (b * u[k]) - b by {
        lemma_units(u[k], span);
        lemma_units(u[k], b);
    }
    assert(v.take(n as int) =~= v);
    assert(v.take(0) =~= Seq::<real>::empty());
    assert(b * 0real == 0real && b * 1real == b) by (nonlinear_arith);
    assert(z[0] == -b && z[n as int] == b);
    lemma_set_line(e, spread, 0, Scalar::Negated(tail));
    lemma_set_line(e, first, n, Scalar::Value(tail));
    let w = e.line(spline::edges(raw, n, tail, least));
    assert(w =~= z);
    assert forall|i: int, j: int| 0 <= i < j < w.len() implies #[trigger] w[i] < #[trigger] w[j] by {
        lemma_sum_take(v, i, j);
        rational::lemma_positive(b, u[j] - u[i]);
        rational::lemma_distributes(b, u[j], u[i]);
    }
    assert forall|k: int| 0 <= k <= n implies #[trigger] w[k] == 2real * (b * sum(
        shares(e, raw, n, least).take(k),
    )) - b by {
        assert(u[k] == sum(v.take(k)));
        assert(w[k] == z[k]);
    }
}

proof fn lemma_spread_types(raw: Term, n: usize, tail: Real, least: Real)
    requires
        n == lines::last_len(raw),
        n >= 1,
        term::typ(spline::edges(raw, n, tail, least)) is Some,
    ensures
        ({
            let sizes = raw.softmax().scale(Scalar::Remainder(least, n)).shift(
                Scalar::Value(least),
            );
            let sums = lines::cumsum_last(sizes);
            let padded = lines::padded_last(sums, 1, 0, scalar::scalar(ZERO_BITS));
            let spread = padded.scale(Scalar::Span(tail)).shift(Scalar::Negated(tail));
            &&& term::typ(sizes) is Some
            &&& sizes.shape().spec_rank() > 0
            &&& lines::last_axis(sums) == lines::last_axis(sizes)
            &&& lines::last_axis(padded) == lines::last_axis(sums)
            &&& spread.shape().spec_rank() > 0
            &&& lines::last_len(spread) == n + 1
        }),
{
    broadcast use {
        crate::tensor::term::typing_rules,
        crate::model::lines::strict_rules,
    };

    reveal(spline::edges);
    let sizes = raw.softmax().scale(Scalar::Remainder(least, n)).shift(Scalar::Value(least));
    let sums = lines::cumsum_last(sizes);
    let padded = lines::padded_last(sums, 1, 0, scalar::scalar(ZERO_BITS));
    let spread = padded.scale(Scalar::Span(tail)).shift(Scalar::Negated(tail));
    assert(term::typ(spread) is Some);
    assert(term::typ(sizes) is Some);
    assert(sizes.shape() == raw.shape());
    reveal(lines::cumsum_last);
    assert(sums.shape() == sizes.shape());
    lines_laws::lemma_padded(sums, 1, 0, scalar::scalar(ZERO_BITS), 0, 0);
    index::lemma_with_dim(sums.shape(), sums.shape().spec_rank() - 1, (n + 1) as usize, 0);
    assert(spread.shape() == padded.shape());
}

/// The line of a part of the last dimension.
proof fn lemma_slice_line(e: Exact, x: Term, start: usize, len: usize)
    requires
        term::typ(lines::slice_last(x, start, len)) is Some,
        x.shape().spec_rank() > 0,
        e.line(x).len() == lines::last_len(x),
    ensures
        term::typ(x) is Some,
        start + len <= lines::last_len(x),
        e.line(lines::slice_last(x, start, len)) =~= e.line(x).subrange(start as int, start + len),
        lines::slice_last(x, start, len).shape().spec_rank() > 0,
        lines::last_len(lines::slice_last(x, start, len)) == len,
{
    reveal(lines::slice_last);
    lemma_axes(x, start, len);
    let dim = lines::last_axis(x);
    index::lemma_narrow_shape(x, dim, start, len);
    index::lemma_with_dim(x.shape(), dim as int, len, len);
}

/// The sizes of bins are the differences of their edges.
proof fn lemma_sizes(e: Exact, cum: Term, n: usize)
    requires
        term::typ(spline::sizes(cum, n)) is Some,
        cum.shape().spec_rank() > 0,
        lines::last_len(cum) == n + 1,
        e.line(cum).len() == n + 1,
    ensures
        e.line(spline::sizes(cum, n)) =~= Seq::new(
            n as nat,
            |k: int| e.line(cum)[k + 1] - e.line(cum)[k],
        ),
{
    broadcast use crate::tensor::term::strictness;

    reveal(spline::sizes);
    let (a, b) = (lines::slice_last(cum, 1, n), lines::slice_last(cum, 0, n));
    lemma_slice_line(e, cum, 1, n);
    lemma_slice_line(e, cum, 0, n);
    let w = e.line(cum);
    let t = e.line(a.sub(b));
    assert(t =~= Seq::new(e.line(a).len(), |k: int| e.line(a)[k] - e.line(b)[k]));
    assert forall|k: int| 0 <= k < n implies #[trigger] t[k] == w[k + 1] - w[k] by {
        assert(e.line(a)[k] == w[k + 1]);
        assert(e.line(b)[k] == w[k]);
    }
}

proof fn lemma_bumped_line(e: Exact, x: Term)
    requires
        e.sound(),
        term::typ(lines::bumped(x, Real { bits: spline::MILLIONTH_BITS })) is Some,
        x.shape().spec_rank() > 0,
        e.line(x).len() == lines::last_len(x),
        lines::last_len(x) > 0,
    ensures
        ({
            let eps = Real { bits: spline::MILLIONTH_BITS };
            let end = lines::last_len(x) - 1;
            e.line(lines::bumped(x, eps)) =~= e.line(x).update(
                end,
                e.line(x)[end] + (e.scalar)(Scalar::Value(eps)),
            )
        }),
{
    broadcast use {crate::tensor::term::strictness, crate::model::lines::strict_rules};

    let eps = Real { bits: spline::MILLIONTH_BITS };
    reveal(lines::bumped);
    let end = (lines::last_len(x) - 1) as usize;
    let dim = lines::last_axis(x);
    let last = x.narrow(dim, end, 1);
    let fill = last.shift(Scalar::Value(eps));
    assert(term::typ(fill) is Some);
    lines_laws::lemma_shifted_shape(last, eps);
    lemma_axes(x, end, 1);
    index::lemma_narrow_shape(x, dim, end, 1);
    index::lemma_with_dim(x.shape(), dim as int, 1, 1);
    assert(e.line(last) =~= e.line(x).subrange(end as int, end + 1));
    let v = e.line(fill);
    assert(v =~= Seq::new(1, |k: int| e.line(last)[k] * 1real + (e.scalar)(Scalar::Value(eps))));
    lemma_units(e.line(x)[end as int], 0real);
    assert(v[0] == e.line(x)[end as int] + (e.scalar)(Scalar::Value(eps)));
    lemma_overwritten_line(e, x, end, fill);
}

/// The sum of flags of which the first ones are set.
proof fn lemma_sum_flags(s: Seq<real>, b: int)
    requires
        0 <= b <= s.len(),
        forall|k: int|
            0 <= k < s.len() ==> #[trigger] s[k] == if k < b {
                1real
            } else {
                0real
            },
    ensures
        sum(s) == b as real,
    decreases s.len(),
{
    if s.len() > 0 {
        let p = s.drop_last();
        if b == s.len() {
            lemma_sum_flags(p, b - 1);
        } else {
            lemma_sum_flags(p, b);
        }
    }
}

/// The number of the bin.
proof fn lemma_index(e: Exact, inputs: Term, along: Term, n: usize)
    requires
        e.sound(),
        n >= 1,
        term::typ(spline::bin_index(inputs, along, n)) is Some,
        along.shape().spec_rank() > 0,
        lines::last_len(along) == n + 1,
        e.line(along).len() == n + 1,
        curve::rising(e.line(along)),
        e.line(along)[0] <= e.element(inputs) <= e.line(along)[n as int],
    ensures
        e.line(spline::bin_index(inputs, along, n)) =~= seq![
            curve::bin(e.line(along), e.element(inputs)) as real,
        ],
{
    broadcast use {crate::tensor::term::strictness, crate::model::lines::strict_rules};

    reveal(spline::bin_index);
    let eps = Real { bits: spline::MILLIONTH_BITS };
    let (w, x) = (e.line(along), e.element(inputs));
    let wide = inputs.unsqueeze(inputs.shape().spec_rank() as usize);
    let bumped = lines::bumped(along, eps);
    let compared = wide.broadcast_compare(bumped, Comparison::Ge);
    let flags = compared.cast(DType::F32);
    let reached = flags.sum_last();
    let shifted = reached.shift(scalar::scalar(MINUS_ONE_BITS));
    let index = shifted.clamp(scalar::scalar(ZERO_BITS), Scalar::LastIndex(n)).cast(DType::U32);
    assert(spline::bin_index(inputs, along, n) == index.unsqueeze(
        index.shape().spec_rank() as usize,
    ));
    lemma_ranks(inputs, index);
    lemma_bumped_line(e, along);
    assert(e.line(wide) =~= seq![x]);
    let f = e.line(compared);
    let locations = e.line(bumped);
    assert(f =~= Seq::new(
        locations.len(),
        |k: int|
            if x >= locations[k] {
                1real
            } else {
                0real
            },
    ));
    assert(e.line(flags) =~= f);
    let b = curve::bin(w, x);
    curve::lemma_bin(w, x);
    assert forall|k: int| 0 <= k < f.len() implies #[trigger] f[k] == if k < b + 1 {
        1real
    } else {
        0real
    } by {
        if k < b {
            assert(w[k] < w[b]);
        }
        if b + 1 < k {
            assert(w[b + 1] < w[k]);
        }
        if k < n {
            assert(locations[k] == w[k]);
        } else {
            assert(locations[k] == w[n as int] + (e.scalar)(Scalar::Value(eps)));
        }
    }
    lemma_sum_flags(f, b + 1);
    assert(e.element(reached) == (b + 1) as real);
    lemma_units((b + 1) as real, 0real);
    assert(e.element(shifted) == e.element(reached) * 1real + (-1real));
    assert(e.element(shifted) == b as real);
    let held = shifted.clamp(scalar::scalar(ZERO_BITS), Scalar::LastIndex(n));
    assert(e.element(held) == e.clamped(
        e.element(shifted),
        scalar::scalar(ZERO_BITS),
        Scalar::LastIndex(n),
    ));
    assert(e.element(held) == b as real);
    assert(e.element(index) == b as real);
}

proof fn lemma_ranks(a: Term, b: Term)
    requires
        term::typ(a) is Some,
        term::typ(b) is Some,
    ensures
        (a.shape().spec_rank() as usize) as nat == a.shape().spec_rank(),
        (b.shape().spec_rank() as usize) as nat == b.shape().spec_rank(),
{
}

/// What is picked from a line.
proof fn lemma_picked(e: Exact, t: Term, idx: Term, k: int)
    requires
        term::typ(lines::picked(t, idx)) is Some,
        e.line(idx) =~= seq![k as real],
    ensures
        e.element(lines::picked(t, idx)) == e.line(t)[k],
{
    reveal(lines::picked);
    let gathered = t.gather_last(idx);
    let g = e.line(gathered);
    let (x, y) = (e.line(t), e.line(idx));
    assert(g =~= Seq::new(1, |j: int| x[whole(y[j])]));
    assert(is_whole(k as real, k));
    assert(whole(k as real) == k);
}

/// The curve that a spline is at one place.
pub open spec fn curve_of(e: Exact, s: Spline) -> Curve {
    Curve { w: e.line(s.cumwidths), h: e.line(s.cumheights), d: e.line(s.slopes) }
}

/// Whether the parts of a bin are those of bin `k` of a curve.
pub open spec fn holds(e: Exact, bins: BinTerms, c: Curve, k: int) -> bool {
    &&& e.element(bins.left) == c.w[k]
    &&& e.element(bins.width) == c.width(k)
    &&& e.element(bins.bottom) == c.h[k]
    &&& e.element(bins.height) == c.height(k)
    &&& e.element(bins.delta) == c.height(k) / c.width(k)
    &&& e.element(bins.slope) == c.d[k]
    &&& e.element(bins.next_slope) == c.d[k + 1]
}

/// Whether the numbers that a spline is made of suit it: there are bins, the least sizes are
/// positive and leave room, and there is a slope for every edge.
pub open spec fn suits(
    e: Exact,
    widths: Term,
    heights: Term,
    slopes: Term,
    tail: Real,
    least_width: Real,
    least_height: Real,
    least_slope: Real,
) -> bool {
    let n = lines::last_len(widths);
    &&& e.sound()
    &&& n >= 1
    &&& lines::last_len(heights) == n
    &&& lines::last_len(slopes) == n + 1
    &&& tail.bits != INFINITY_BITS
    &&& (e.scalar)(Scalar::Value(tail)) > 0real
    &&& (e.scalar)(Scalar::Value(least_width)) > 0real
    &&& (e.scalar)(Scalar::Value(least_width)) * (n as real) < 1real
    &&& (e.scalar)(Scalar::Value(least_height)) > 0real
    &&& (e.scalar)(Scalar::Value(least_height)) * (n as real) < 1real
    &&& (e.scalar)(Scalar::Value(least_slope)) > 0real
}

/// A spline that can be run at all is a curve from one end of its interval to the other.
pub proof fn lemma_curve(
    e: Exact,
    widths: Term,
    heights: Term,
    slopes: Term,
    tail: Real,
    least_width: Real,
    least_height: Real,
    least_slope: Real,
    x: Term,
    reverse: bool,
)
    requires
        suits(e, widths, heights, slopes, tail, least_width, least_height, least_slope),
        term::typ(
            Spline::of(
                widths,
                heights,
                slopes,
                tail,
                least_width,
                least_height,
                least_slope,
            ).output(x, reverse),
        ) is Some,
    ensures
        ({
            let s = Spline::of(
                widths,
                heights,
                slopes,
                tail,
                least_width,
                least_height,
                least_slope,
            );
            let c = curve_of(e, s);
            let b = (e.scalar)(Scalar::Value(tail));
            let n = s.num_bins as int;
            &&& c.valid()
            &&& c.w.len() == n + 1
            &&& c.w[0] == -b && c.w[n] == b
            &&& c.h[0] == -b && c.h[n] == b
            &&& s.cumwidths.shape().spec_rank() > 0 && lines::last_len(s.cumwidths) == n + 1
            &&& s.cumheights.shape().spec_rank() > 0 && lines::last_len(s.cumheights) == n + 1
            &&& s.slopes.shape().spec_rank() > 0 && lines::last_len(s.slopes) == n + 1
            &&& s.bins(x, reverse).defined()
        }),
{
    broadcast use {crate::tensor::term::strictness, crate::model::lines::strict_rules};

    let s = Spline::of(widths, heights, slopes, tail, least_width, least_height, least_slope);
    let n = s.num_bins;
    assert(s.bins(x, reverse).defined());
    assert(term::typ(s.cumwidths) is Some);
    assert(term::typ(s.cumheights) is Some);
    assert(term::typ(s.slopes) is Some);
    lemma_edges(e, widths, n, tail, least_width);
    lemma_edges(e, heights, n, tail, least_height);
    let l = Scalar::Value(least_slope);
    let p = e.line(slopes.softplus());
    let d = e.line(s.slopes);
    assert(positive(p, lines::last_len(slopes)));
    assert(d =~= Seq::new(p.len(), |k: int| p[k] * 1real + (e.scalar)(l)));
    assert forall|k: int| 0 <= k < d.len() implies #[trigger] d[k] > 0real by {
        lemma_units(p[k], 0real);
        assert(p[k] > 0real);
    }
    lemma_slopes_type(slopes, least_slope);
}

proof fn lemma_slopes_type(slopes: Term, least: Real)
    requires
        term::typ(slopes.softplus().shift(Scalar::Value(least))) is Some,
        lines::last_len(slopes) > 0,
    ensures
        slopes.softplus().shift(Scalar::Value(least)).shape() == slopes.shape(),
        slopes.shape().spec_rank() > 0,
{
    broadcast use crate::tensor::term::typing_rules;

}

/// The bins of a spline are those of its curve.
proof fn lemma_bins(e: Exact, s: Spline, c: Curve, idx: Term, k: int)
    requires
        c == curve_of(e, s),
        c.valid(),
        s.num_bins + 1 == c.w.len(),
        s.cumwidths.shape().spec_rank() > 0 && lines::last_len(s.cumwidths) == s.num_bins + 1,
        s.cumheights.shape().spec_rank() > 0 && lines::last_len(s.cumheights) == s.num_bins + 1,
        s.slopes.shape().spec_rank() > 0 && lines::last_len(s.slopes) == s.num_bins + 1,
        BinTerms::at(idx, s.cumwidths, s.cumheights, s.slopes, s.num_bins).defined(),
        e.line(idx) =~= seq![k as real],
        0 <= k < s.num_bins,
    ensures
        holds(
            e,
            BinTerms::at(idx, s.cumwidths, s.cumheights, s.slopes, s.num_bins),
            c,
            k,
        ),
{
    broadcast use {crate::tensor::term::strictness, crate::model::lines::strict_rules};

    let n = s.num_bins;
    let widths = spline::sizes(s.cumwidths, n);
    let heights = spline::sizes(s.cumheights, n);
    lemma_sizes(e, s.cumwidths, n);
    lemma_sizes(e, s.cumheights, n);
    lemma_picked(e, s.cumwidths, idx, k);
    lemma_picked(e, widths, idx, k);
    lemma_picked(e, s.cumheights, idx, k);
    lemma_picked(e, heights, idx, k);
    let ratio = heights.div(widths);
    let (p, q) = (e.line(heights), e.line(widths));
    assert(e.line(ratio) =~= Seq::new(p.len(), |j: int| p[j] / q[j]));
    lemma_picked(e, ratio, idx, k);
    lemma_picked(e, s.slopes, idx, k);
    let later = lines::slice_last(s.slopes, 1, n);
    lemma_slice_line(e, s.slopes, 1, n);
    lemma_picked(e, later, idx, k);
    assert(e.line(later)[k] == c.d[k + 1]);
}

/// The place in a bin, and what depends on it.
proof fn lemma_theta_parts(e: Exact, bins: BinTerms, p: Piece, theta: Term)
    requires
        e.sound(),
        e.element(bins.delta) == p.delta,
        e.element(bins.slope) == p.slope,
        e.element(bins.next_slope) == p.next_slope,
    ensures
        e.element(BinTerms::bow(theta)) == e.element(theta) * (1real - e.element(theta)),
        e.element(bins.bend()) == p.bend(),
        e.element(bins.denominator(theta)) == p.denominator(e.element(theta)),
        e.element(theta.one_minus()) == 1real - e.element(theta),
{
    let t = e.element(theta);
    lemma_units(t, 0real);
    let rest = theta.one_minus();
    assert(e.element(rest) == t * (-1real) + 1real);
    assert(e.element(BinTerms::bow(theta)) == t * e.element(rest));
    let twice = bins.delta.scale(scalar::scalar(TWO_BITS));
    assert(e.element(twice) == p.delta * 2real + 0real);
    let both = bins.slope.add(bins.next_slope);
    assert(e.element(both) == p.slope + p.next_slope);
    assert(e.element(bins.bend()) == e.element(both) - e.element(twice));
    let bent = bins.bend().mul(BinTerms::bow(theta));
    assert(e.element(bent) == p.bend() * (t * (1real - t)));
    assert(e.element(bins.denominator(theta)) == p.delta + e.element(bent));
}

/// What a piece gives, as an expression.
proof fn lemma_value(e: Exact, bins: BinTerms, c: Curve, k: int, x: Term)
    requires
        e.sound(),
        holds(e, bins, c, k),
    ensures
        e.element(bins.theta(x)) == c.place(k, e.element(x)),
        c.piece(k).denominator(c.place(k, e.element(x))) > 0real ==> e.element(bins.value(x))
            == c.in_bin(k, e.element(x)),
{
    let p = c.piece(k);
    let theta = bins.theta(x);
    let off = x.sub(bins.left);
    assert(e.element(off) == e.element(x) - c.w[k]);
    assert(e.element(theta) == e.element(off) / e.element(bins.width));
    let t = c.place(k, e.element(x));
    lemma_theta_parts(e, bins, p, theta);
    let square = bins.delta.mul(theta.sqr());
    assert(e.element(theta.sqr()) == t * t);
    assert(e.element(square) == p.delta * (t * t));
    let bowed = bins.slope.mul(BinTerms::bow(theta));
    assert(e.element(bowed) == p.slope * (t * (1real - t)));
    let inner = square.add(bowed);
    assert(e.element(inner) == p.numerator(t));
    let above = bins.height.mul(inner);
    assert(e.element(above) == c.height(k) * p.numerator(t));
    let ratio = above.div(bins.denominator(theta));
    assert(e.element(ratio) == (c.height(k) * p.numerator(t)) / p.denominator(t));
    assert(e.element(bins.value(x)) == c.h[k] + e.element(ratio));
    let (h, n, d) = (c.height(k), p.numerator(t), p.denominator(t));
    if d > 0real {
        assert((h * n) / d == h * (n / d)) by (nonlinear_arith)
            requires
                d > 0real,
        ;
    }
}

/// What the inverse of a piece gives, as an expression.
proof fn lemma_preimage(e: Exact, bins: BinTerms, c: Curve, k: int, y: Term)
    requires
        e.sound(),
        holds(e, bins, c, k),
        ({
            let (a, b, f) = rational::coefficients(
                c.piece(k),
                c.height(k),
                e.element(y) - c.h[k],
            );
            b * b - 4real * (a * f) >= 0real
        }),
    ensures
        e.element(bins.root(y)) == c.root_in(k, e.element(y), e.root),
        e.element(bins.preimage(y)) == c.root_in(k, e.element(y), e.root) * c.width(k) + c.w[k],
{
    let p = c.piece(k);
    lemma_theta_parts(e, bins, p, y);
    let r = e.element(y) - c.h[k];
    let h = c.height(k);
    let (ca, cb, cc) = rational::coefficients(p, h, r);
    let rise = y.sub(bins.bottom);
    assert(e.element(rise) == r);
    let bent = rise.mul(bins.bend());
    assert(e.element(bent) == r * p.bend());
    let lean = bins.delta.sub(bins.slope);
    assert(e.element(lean) == p.delta - p.slope);
    assert(e.element(bins.height.mul(lean)) == h * (p.delta - p.slope));
    let a = bins.height.mul(lean).add(bent);
    assert(e.element(a) == ca);
    assert(e.element(bins.height.mul(bins.slope)) == h * p.slope);
    let b = bins.height.mul(bins.slope).sub(bent);
    assert(e.element(b) == cb);
    assert(e.element(bins.delta.mul(rise)) == p.delta * r);
    let f = bins.delta.mul(rise).neg();
    assert(e.element(f) == cc);
    assert(e.element(b.sqr()) == cb * cb);
    assert(e.element(a.mul(f)) == ca * cc);
    let four = a.mul(f).scale(scalar::scalar(FOUR_BITS));
    assert(e.element(four) == (ca * cc) * 4real + 0real);
    lemma_units(ca * cc, 0real);
    let inner = b.sqr().sub(four);
    assert(e.element(inner) == cb * cb - 4real * (ca * cc));
    let zero = scalar::scalar(ZERO_BITS);
    let open = scalar::scalar(INFINITY_BITS);
    let held = inner.clamp(zero, open);
    assert(e.element(held) == e.clamped(e.element(inner), zero, open));
    assert(e.element(held) == e.element(inner));
    assert(e.element(held.sqrt()) == (e.root)(e.element(held)));
    assert(e.element(b.neg()) == -cb);
    let below = b.neg().sub(held.sqrt());
    assert(e.element(below) == -cb - (e.root)(e.element(held)));
    let twice = f.scale(scalar::scalar(TWO_BITS));
    assert(e.element(twice) == cc * 2real + 0real);
    lemma_units(cc, 0real);
    assert(bins.root(y) == twice.div(below));
    assert(e.element(bins.root(y)) == e.element(twice) / e.element(below));
    let wide = bins.root(y).mul(bins.width);
    assert(e.element(wide) == e.element(bins.root(y)) * c.width(k));
    assert(e.element(bins.preimage(y)) == e.element(wide) + e.element(bins.left));
}

/// The logarithm of the derivative of a piece at a place.
pub open spec fn log_slope_at(e: Exact, p: Piece, t: real) -> real {
    (e.log)(
        (p.delta * p.delta) * (p.next_slope * (t * t) + ((p.delta * (t * (1real - t))) * 2real
            + 0real) + p.slope * ((1real - t) * (1real - t))),
    ) - ((e.log)(p.denominator(t)) * 2real + 0real)
}

proof fn lemma_log_slope_of(e: Exact, bins: BinTerms, c: Curve, k: int, theta: Term)
    requires
        e.sound(),
        holds(e, bins, c, k),
    ensures
        e.element(bins.log_slope(theta)) == log_slope_at(e, c.piece(k), e.element(theta)),
{
    let p = c.piece(k);
    let t = e.element(theta);
    lemma_theta_parts(e, bins, p, theta);
    let two = scalar::scalar(TWO_BITS);
    assert(e.element(theta.sqr()) == t * t);
    let first = bins.next_slope.mul(theta.sqr());
    assert(e.element(first) == p.next_slope * (t * t));
    let bow = bins.delta.mul(BinTerms::bow(theta));
    assert(e.element(bow) == p.delta * (t * (1real - t)));
    assert(e.element(bow.scale(two)) == e.element(bow) * 2real + 0real);
    let rest = theta.one_minus().sqr();
    assert(e.element(rest) == (1real - t) * (1real - t));
    let last = bins.slope.mul(rest);
    assert(e.element(last) == p.slope * ((1real - t) * (1real - t)));
    assert(e.element(first.add(bow.scale(two))) == e.element(first) + e.element(bow.scale(two)));
    let inner = first.add(bow.scale(two)).add(last);
    assert(e.element(inner) == e.element(first.add(bow.scale(two))) + e.element(last));
    assert(e.element(bins.delta.sqr()) == p.delta * p.delta);
    let numerator = bins.delta.sqr().mul(inner);
    assert(e.element(numerator) == (p.delta * p.delta) * e.element(inner));
    assert(e.element(numerator.log()) == (e.log)(e.element(numerator)));
    let below = bins.denominator(theta).log();
    assert(e.element(below) == (e.log)(p.denominator(t)));
    assert(e.element(below.scale(two)) == e.element(below) * 2real + 0real);
    assert(e.element(bins.log_slope(theta)) == e.element(numerator.log()) - e.element(
        below.scale(two),
    ));
}

/// A number, moved into the interval between `-b` and `b`.
pub open spec fn moved(x: real, b: real) -> real {
    if x < -b {
        -b
    } else if x > b {
        b
    } else {
        x
    }
}

/// What a spline gives at one place: the height of its curve there, or where the curve is as high.
pub proof fn lemma_output(
    e: Exact,
    widths: Term,
    heights: Term,
    slopes: Term,
    tail: Real,
    least_width: Real,
    least_height: Real,
    least_slope: Real,
    x: Term,
    reverse: bool,
)
    requires
        suits(e, widths, heights, slopes, tail, least_width, least_height, least_slope),
        term::typ(
            Spline::of(
                widths,
                heights,
                slopes,
                tail,
                least_width,
                least_height,
                least_slope,
            ).output(x, reverse),
        ) is Some,
    ensures
        ({
            let s = Spline::of(
                widths,
                heights,
                slopes,
                tail,
                least_width,
                least_height,
                least_slope,
            );
            let c = curve_of(e, s);
            let z = moved(e.element(x), (e.scalar)(Scalar::Value(tail)));
            let k = curve::bin(
                if reverse {
                    c.h
                } else {
                    c.w
                },
                z,
            );
            &&& e.element(s.inside(x)) == z
            &&& e.element(s.output(x, reverse)) == if reverse {
                c.back(z, e.root)
            } else {
                c.at(z)
            }
            &&& e.element(s.log_det(x, reverse)) == if reverse {
                -log_slope_at(e, c.piece(k), c.root_in(k, z, e.root))
            } else {
                log_slope_at(e, c.piece(k), c.place(k, z))
            }
        }),
{
    let s = Spline::of(widths, heights, slopes, tail, least_width, least_height, least_slope);
    let c = curve_of(e, s);
    let n = s.num_bins;
    let b = (e.scalar)(Scalar::Value(tail));
    lemma_curve(
        e,
        widths,
        heights,
        slopes,
        tail,
        least_width,
        least_height,
        least_slope,
        x,
        reverse,
    );
    let inside = s.inside(x);
    assert(e.element(inside) == e.clamped(
        e.element(x),
        Scalar::Negated(tail),
        Scalar::Value(tail),
    ));
    let z = e.element(inside);
    let along = if reverse {
        s.cumheights
    } else {
        s.cumwidths
    };
    let idx = spline::bin_index(inside, along, n);
    let bins = s.bins(x, reverse);
    assert(term::typ(idx) is Some) by {
        broadcast use crate::model::lines::strict_rules;

        assert(term::typ(bins.left) is Some);
    }
    lemma_index(e, inside, along, n);
    curve::lemma_bin(e.line(along), z);
    let k = curve::bin(e.line(along), z);
    lemma_bins(e, s, c, idx, k);
    if reverse {
        curve::lemma_root_in(c, k, z, e.root);
        lemma_preimage(e, bins, c, k, inside);
        lemma_log_slope_of(e, bins, c, k, bins.root(inside));
        let slope = bins.log_slope(bins.root(inside));
        assert(e.element(slope.neg()) == -e.element(slope));
    } else {
        curve::lemma_in_bin(c, k, z);
        curve::lemma_piece(c, k);
        rational::lemma_denominator(c.piece(k), c.place(k, z));
        lemma_value(e, bins, c, k, inside);
        lemma_log_slope_of(e, bins, c, k, bins.theta(inside));
    }
}

/// Where a piece can be evaluated, everything has the type of the place.
proof fn lemma_value_types(bins: BinTerms, z: Term)
    requires
        term::typ(bins.value(z)) is Some,
    ensures
        term::typ(bins.value(z)) == term::typ(z),
        of_type(bins, z),
{
    broadcast use crate::tensor::term::typing_rules;

    let theta = bins.theta(z);
    assert(term::typ(theta) == term::typ(z) && term::typ(bins.left) == term::typ(z) && term::typ(
        bins.width,
    ) == term::typ(z));
    assert(term::typ(BinTerms::bow(theta)) == term::typ(z));
    assert(term::typ(bins.bend()) == term::typ(z));
}

/// Whether all parts of a bin have the type of a tensor of floating-point numbers.
spec fn of_type(bins: BinTerms, z: Term) -> bool {
    &&& term::typ(z) is Some
    &&& z.dtype().spec_is_float()
    &&& term::typ(bins.left) == term::typ(z)
    &&& term::typ(bins.width) == term::typ(z)
    &&& term::typ(bins.bottom) == term::typ(z)
    &&& term::typ(bins.height) == term::typ(z)
    &&& term::typ(bins.delta) == term::typ(z)
    &&& term::typ(bins.slope) == term::typ(z)
    &&& term::typ(bins.next_slope) == term::typ(z)
}

/// Where everything has the type of the place, the inverse of a piece can be evaluated.
proof fn lemma_preimage_type(bins: BinTerms, z: Term)
    requires
        of_type(bins, z),
    ensures
        term::typ(bins.preimage(z)) == term::typ(z),
{
    broadcast use crate::tensor::term::typing_rules;

    let two = scalar::scalar(TWO_BITS);
    assert(term::typ(bins.bend()) == term::typ(z));
    let rise = z.sub(bins.bottom);
    let bent = rise.mul(bins.bend());
    assert(term::typ(bent) == term::typ(z));
    let a = bins.height.mul(bins.delta.sub(bins.slope)).add(bent);
    let b = bins.height.mul(bins.slope).sub(bent);
    let c = bins.delta.mul(rise).neg();
    assert(term::typ(a) == term::typ(z) && term::typ(b) == term::typ(z) && term::typ(c)
        == term::typ(z));
    let inner = b.sqr().sub(a.mul(c).scale(scalar::scalar(FOUR_BITS))).clamp(
        scalar::scalar(ZERO_BITS),
        scalar::scalar(INFINITY_BITS),
    );
    assert(term::typ(inner) == term::typ(z));
    assert(bins.root(z) == c.scale(two).div(b.neg().sub(inner.sqrt())));
    assert(term::typ(bins.root(z)) == term::typ(z));
}

/// Edges between which there are bins of the same type are themselves of the same type.
proof fn lemma_edges_types(a: Term, b: Term, n: usize)
    requires
        a.shape().spec_rank() > 0,
        b.shape().spec_rank() > 0,
        lines::last_len(a) == n + 1,
        lines::last_len(b) == n + 1,
        term::typ(spline::sizes(a, n).div(spline::sizes(b, n))) is Some,
    ensures
        term::typ(a) == term::typ(b),
{
    broadcast use crate::tensor::term::typing_rules;

    reveal(spline::sizes);
    reveal(lines::slice_last);
    let (p, q) = (lines::slice_last(a, 1, n), lines::slice_last(b, 1, n));
    assert(term::typ(p) == term::typ(q) && term::typ(p) is Some);
    match a.shape() {
        Shape::S0 => {},
        Shape::S1(_) => {
            assert(p.shape() is S1);
        },
        Shape::S2(_, _) => {
            assert(p.shape() is S2);
        },
        Shape::S3(_, _, _) => {
            assert(p.shape() is S3);
        },
        Shape::S4(_, _, _, _) => {
            assert(p.shape() is S4);
        },
        Shape::S5(_, _, _, _, _) => {
            assert(p.shape() is S5);
        },
        Shape::S6(_, _, _, _, _, _) => {
            assert(p.shape() is S6);
        },
    }
}

/// What a spline gives has the type of its input, and the spline can be run on it in reverse.
proof fn lemma_reverse_typed(
    e: Exact,
    widths: Term,
    heights: Term,
    slopes: Term,
    tail: Real,
    least_width: Real,
    least_height: Real,
    least_slope: Real,
    x: Term,
)
    requires
        suits(e, widths, heights, slopes, tail, least_width, least_height, least_slope),
        term::typ(
            Spline::of(
                widths,
                heights,
                slopes,
                tail,
                least_width,
                least_height,
                least_slope,
            ).output(x, false),
        ) is Some,
    ensures
        ({
            let s = Spline::of(
                widths,
                heights,
                slopes,
                tail,
                least_width,
                least_height,
                least_slope,
            );
            let y = s.output(x, false);
            &&& term::typ(y) == term::typ(x)
            &&& term::typ(s.output(y, true)) == term::typ(x)
        }),
{
    let s = Spline::of(widths, heights, slopes, tail, least_width, least_height, least_slope);
    let y = s.output(x, false);
    let n = s.num_bins;
    lemma_curve(
        e,
        widths,
        heights,
        slopes,
        tail,
        least_width,
        least_height,
        least_slope,
        x,
        false,
    );
    let bins = s.bins(x, false);
    let again = s.bins(y, true);
    lemma_value_types(bins, s.inside(x));
    lemma_inside_type(s, x);
    lemma_inside_type(s, y);
    let (w, h) = (spline::sizes(s.cumwidths, n), spline::sizes(s.cumheights, n));
    let (idx, other) = (
        spline::bin_index(s.inside(x), s.cumwidths, n),
        spline::bin_index(s.inside(y), s.cumheights, n),
    );
    assert(term::typ(h.div(w)) is Some) by {
        broadcast use crate::model::lines::strict_rules;

        assert(bins.delta == lines::picked(h.div(w), idx));
    }
    lemma_edges_types(s.cumheights, s.cumwidths, n);
    let types = inverse::nothing();
    alike::lemma_index_alike(types, s.inside(x), s.inside(y), s.cumwidths, s.cumheights, n);
    alike::lemma_picked_alike(types, s.cumwidths, s.cumwidths, idx, other);
    alike::lemma_picked_alike(types, s.cumheights, s.cumheights, idx, other);
    alike::lemma_picked_alike(types, w, w, idx, other);
    alike::lemma_picked_alike(types, h, h, idx, other);
    alike::lemma_picked_alike(types, h.div(w), h.div(w), idx, other);
    alike::lemma_picked_alike(types, s.slopes, s.slopes, idx, other);
    let rest = lines::slice_last(s.slopes, 1, (lines::last_len(s.slopes) - 1) as usize);
    alike::lemma_picked_alike(types, rest, rest, idx, other);
    assert(of_type(again, s.inside(y)));
    lemma_preimage_type(again, s.inside(y));
    assert(again.defined());
}

proof fn lemma_inside_type(s: Spline, x: Term)
    requires
        term::typ(x) is Some ==> x.dtype().spec_is_float() || term::typ(s.inside(x)) is Some,
    ensures
        term::typ(s.inside(x)) == term::typ(x),
{
    broadcast use crate::tensor::term::typing_rules;

}

/// Run in reverse, a spline undoes what it did, and negates the logarithm of the derivative.
pub proof fn lemma_spline_undone(
    e: Exact,
    widths: Term,
    heights: Term,
    slopes: Term,
    tail: Real,
    least_width: Real,
    least_height: Real,
    least_slope: Real,
    x: Term,
)
    requires
        suits(e, widths, heights, slopes, tail, least_width, least_height, least_slope),
        ({
            let s = Spline::of(
                widths,
                heights,
                slopes,
                tail,
                least_width,
                least_height,
                least_slope,
            );
            term::typ(s.output(x, false)) is Some
        }),
        -(e.scalar)(Scalar::Value(tail)) <= e.element(x) <= (e.scalar)(Scalar::Value(tail)),
    ensures
        ({
            let s = Spline::of(
                widths,
                heights,
                slopes,
                tail,
                least_width,
                least_height,
                least_slope,
            );
            let y = s.output(x, false);
            &&& term::typ(s.output(y, true)) == term::typ(x)
            &&& e.element(s.output(y, true)) == e.element(x)
            &&& e.element(s.log_det(y, true)) == -e.element(s.log_det(x, false))
        }),
{
    let s = Spline::of(widths, heights, slopes, tail, least_width, least_height, least_slope);
    let y = s.output(x, false);
    let c = curve_of(e, s);
    lemma_curve(
        e,
        widths,
        heights,
        slopes,
        tail,
        least_width,
        least_height,
        least_slope,
        x,
        false,
    );
    lemma_reverse_typed(
        e,
        widths,
        heights,
        slopes,
        tail,
        least_width,
        least_height,
        least_slope,
        x,
    );
    lemma_output(
        e,
        widths,
        heights,
        slopes,
        tail,
        least_width,
        least_height,
        least_slope,
        x,
        false,
    );
    lemma_output(
        e,
        widths,
        heights,
        slopes,
        tail,
        least_width,
        least_height,
        least_slope,
        y,
        true,
    );
    curve::lemma_range(c, e.element(x));
    curve::lemma_undone(c, e.element(x), e.root);
}

/// A spline, and its inverse, keep to the interval, map its ends and what lies beyond them to its
/// ends, and do not fall.
pub proof fn lemma_spline_rises(
    e: Exact,
    widths: Term,
    heights: Term,
    slopes: Term,
    tail: Real,
    least_width: Real,
    least_height: Real,
    least_slope: Real,
    x: Term,
    y: Term,
    reverse: bool,
)
    requires
        suits(e, widths, heights, slopes, tail, least_width, least_height, least_slope),
        ({
            let s = Spline::of(
                widths,
                heights,
                slopes,
                tail,
                least_width,
                least_height,
                least_slope,
            );
            term::typ(s.output(x, reverse)) is Some && term::typ(s.output(y, reverse)) is Some
        }),
    ensures
        ({
            let s = Spline::of(
                widths,
                heights,
                slopes,
                tail,
                least_width,
                least_height,
                least_slope,
            );
            let b = (e.scalar)(Scalar::Value(tail));
            &&& -b <= e.element(s.output(x, reverse)) <= b
            &&& e.element(x) <= -b ==> e.element(s.output(x, reverse)) == -b
            &&& e.element(x) >= b ==> e.element(s.output(x, reverse)) == b
            &&& e.element(x) <= e.element(y) ==> e.element(s.output(x, reverse)) <= e.element(
                s.output(y, reverse),
            )
        }),
{
    let s = Spline::of(widths, heights, slopes, tail, least_width, least_height, least_slope);
    let c = curve_of(e, s);
    let b = (e.scalar)(Scalar::Value(tail));
    lemma_curve(
        e,
        widths,
        heights,
        slopes,
        tail,
        least_width,
        least_height,
        least_slope,
        x,
        reverse,
    );
    lemma_output(
        e,
        widths,
        heights,
        slopes,
        tail,
        least_width,
        least_height,
        least_slope,
        x,
        reverse,
    );
    lemma_output(
        e,
        widths,
        heights,
        slopes,
        tail,
        least_width,
        least_height,
        least_slope,
        y,
        reverse,
    );
    let (u, v) = (moved(e.element(x), b), moved(e.element(y), b));
    if reverse {
        curve::lemma_reached(c, u, e.root);
        curve::lemma_range(c, -b);
        curve::lemma_range(c, b);
        curve::lemma_undone(c, -b, e.root);
        curve::lemma_undone(c, b, e.root);
        if u < v {
            curve::lemma_inverse_rises(c, u, v, e.root);
        }
    } else {
        curve::lemma_range(c, u);
        if u < v {
            curve::lemma_curve_rises(c, u, v);
        }
    }
}

} // verus!
