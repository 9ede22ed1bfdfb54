//! Tensors of real numbers.
//!
//! Expressions are computed without rounding. The numbers of what a checkpoint holds, of what is
//! handed in and of what is drawn at random are given, and so are those of the few operations that
//! have no exact counterpart here.

use vstd::prelude::*;

use crate::model::lines;
use crate::model::positions;
use crate::model::spline_laws;
use crate::tensor::index;
use crate::tensor::ops::{Leaf, Op1, Op2, Op3};
use crate::tensor::places;
use crate::tensor::scalar;
use crate::tensor::scalar::{Scalar, INFINITY_BITS, ZERO_BITS};
use crate::tensor::shape::Shape;
use crate::tensor::term;
use crate::tensor::term::Term;
use crate::tensor::typing::{Comparison, ConvConfig, ConvTransposeConfig, Unary};

verus! {

broadcast use crate::tensor::term::strictness;

/// The exponential, the other functions that are applied to single numbers, the numbers that
/// scalars stand for, and the numbers of the tensors that expressions do not spell out, by position
/// in row-major order.
pub struct Numbers {
    pub exponential: spec_fn(real) -> real,
    pub function: spec_fn(Unary, real) -> real,
    pub scalar: spec_fn(Scalar) -> real,
    pub given: spec_fn(Term) -> spec_fn(int) -> real,
}

/// The least whole number that is not below a number.
pub open spec fn ceiling(x: real) -> int {
    -((-x).floor())
}

/// Element `j` of row `r` of matrix `s` of a stack of matrices.
pub open spec fn element(
    v: spec_fn(int) -> real,
    rows: int,
    columns: int,
    s: int,
    r: int,
    j: int,
) -> real {
    v(positions::at3(rows, columns, s, r, j))
}

/// Whether there is such an element.
pub open spec fn within(
    stack: int,
    rows: int,
    columns: int,
    s: int,
    r: int,
    j: int,
) -> bool {
    0 <= s < stack && 0 <= r < rows && 0 <= j < columns
}

/// Whether a tensor is a stack of matrices.
pub open spec fn is_stack(x: Term, stack: int, rows: int, columns: int) -> bool {
    &&& term::typ(x) is Some
    &&& x.shape() is S3
    &&& x.shape()->S3_0 == stack
    &&& x.shape()->S3_1 == rows
    &&& x.shape()->S3_2 == columns
}

/// The exponentials of a row.
pub open spec fn exponentials(
    e: spec_fn(real) -> real,
    v: spec_fn(int) -> real,
    rows: int,
    columns: int,
    s: int,
    r: int,
) -> Seq<real> {
    Seq::new(columns as nat, |k: int| e(element(v, rows, columns, s, r, k)))
}

/// The products of the elements of a row and a column.
pub open spec fn products(
    v: spec_fn(int) -> real,
    w: spec_fn(int) -> real,
    rows: int,
    inner: int,
    columns: int,
    s: int,
    r: int,
    j: int,
) -> Seq<real> {
    Seq::new(
        inner as nat,
        |k: int| element(v, rows, inner, s, r, k) * element(w, inner, columns, s, k, j),
    )
}

/// The products of the elements of a row and of a row of a matrix.
pub open spec fn row_products(
    v: spec_fn(int) -> real,
    w: spec_fn(int) -> real,
    rows: int,
    inner: int,
    s: int,
    r: int,
    c: int,
) -> Seq<real> {
    Seq::new(inner as nat, |k: int| element(v, rows, inner, s, r, k) * w(c * inner + k))
}

/// Element `d` of row `c` of matrix `b` of stack `a`.
pub open spec fn inner_element(
    v: spec_fn(int) -> real,
    matrices: int,
    rows: int,
    columns: int,
    a: int,
    b: int,
    c: int,
    d: int,
) -> real {
    v(positions::at3(rows, columns, a * matrices + b, c, d))
}

/// Whether a tensor holds rows of matrices.
pub open spec fn splits(x: Term, rows: int, matrices: int, columns: int) -> bool {
    &&& term::typ(x) is Some
    &&& x.shape() is S4
    &&& x.shape()->S4_1 == rows
    &&& x.shape()->S4_2 == matrices
    &&& x.shape()->S4_3 == columns
}

/// Whether a mask can be added to scores by head.
pub open spec fn masks(a: Term, b: Term, heads: int, len: int) -> bool {
    &&& term::typ(a.broadcast_add(b)) is Some
    &&& a.shape() is S4
    &&& a.shape()->S4_1 == heads
    &&& a.shape()->S4_2 == len
    &&& a.shape()->S4_3 == len
    &&& b.shape() is S4
    &&& b.shape()->S4_0 == a.shape()->S4_0
    &&& b.shape()->S4_1 == 1
    &&& b.shape()->S4_2 == len
    &&& b.shape()->S4_3 == len
}

/// The exponentials of the line of the last dimension in which a position lies.
pub open spec fn line_exponentials(
    e: spec_fn(real) -> real,
    v: spec_fn(int) -> real,
    columns: int,
    p: int,
) -> Seq<real> {
    Seq::new(columns as nat, |k: int| e(v((p / columns) * columns + k)))
}

/// The products of a line and of a row of a matrix.
pub open spec fn line_products(
    v: spec_fn(int) -> real,
    w: spec_fn(int) -> real,
    inner: int,
    q: int,
    c: int,
) -> Seq<real> {
    Seq::new(inner as nat, |k: int| v(q * inner + k) * w(c * inner + k))
}

/// Line `q` of numbers that lie in lines of `n`.
pub open spec fn line(v: spec_fn(int) -> real, n: int, q: int) -> Seq<real> {
    Seq::new(n as nat, |k: int| v(q * n + k))
}

/// The mean of a line.
pub open spec fn mean(s: Seq<real>) -> real {
    spline_laws::sum(s) / (s.len() as real)
}

/// The mean square of the distances from the mean.
pub open spec fn variance(s: Seq<real>) -> real {
    mean(Seq::new(s.len(), |k: int| (s[k] - mean(s)) * (s[k] - mean(s))))
}

/// Element `q` of line `row`, and zero beside the line.
pub open spec fn line_at(v: spec_fn(int) -> real, len: int, row: int, q: int) -> real {
    if 0 <= q < len {
        v(row * len + q)
    } else {
        0real
    }
}

/// The products of the elements under a kernel of `kernel` places, where the first lies at `start`
/// and each of the others `dilation` places behind the one before it.
pub open spec fn taps(
    v: spec_fn(int) -> real,
    w: spec_fn(int) -> real,
    len: int,
    kernel: int,
    dilation: int,
    row: int,
    first: int,
    start: int,
) -> Seq<real> {
    Seq::new(
        kernel as nat,
        |j: int| line_at(v, len, row, start + j * dilation) * w(first + j),
    )
}

/// The sums of those products for every channel that a kernel looks at.
pub open spec fn channel_taps(
    v: spec_fn(int) -> real,
    w: spec_fn(int) -> real,
    len: int,
    inner: int,
    kernel: int,
    dilation: int,
    row: int,
    o: int,
    start: int,
) -> Seq<real> {
    Seq::new(
        inner as nat,
        |c: int|
            spline_laws::sum(
                taps(v, w, len, kernel, dilation, row + c, (o * inner + c) * kernel, start),
            ),
    )
}

/// What a kernel for output channel `o`, in a stack with `channels` lines of length `len` for every
/// sequence, gives for sequence `b` at place `t`. The output channels come in groups of `share`,
/// and those of a group look at `inner` channels of their own.
pub open spec fn convolved(
    v: spec_fn(int) -> real,
    w: spec_fn(int) -> real,
    channels: int,
    len: int,
    inner: int,
    kernel: int,
    share: int,
    c: ConvConfig,
    b: int,
    o: int,
    t: int,
) -> real {
    spline_laws::sum(
        channel_taps(
            v,
            w,
            len,
            inner,
            kernel,
            c.dilation as int,
            b * channels + (o / share) * inner,
            o,
            t * c.stride - c.padding,
        ),
    )
}

/// The products of element `l` of a line with the places of a transposed kernel that bring it to
/// place `t`.
pub open spec fn brought(
    v: spec_fn(int) -> real,
    w: spec_fn(int) -> real,
    len: int,
    kernel: int,
    c: ConvTransposeConfig,
    row: int,
    first: int,
    l: int,
    t: int,
) -> Seq<real> {
    Seq::new(
        kernel as nat,
        |j: int|
            if l * c.stride + j * c.dilation == t + c.padding {
                v(row * len + l) * w(first + j)
            } else {
                0real
            },
    )
}

/// What every element of a line brings to place `t`.
pub open spec fn brought_by_line(
    v: spec_fn(int) -> real,
    w: spec_fn(int) -> real,
    len: int,
    kernel: int,
    c: ConvTransposeConfig,
    row: int,
    first: int,
    t: int,
) -> Seq<real> {
    Seq::new(
        len as nat,
        |l: int| spline_laws::sum(brought(v, w, len, kernel, c, row, first, l, t)),
    )
}

/// What a transposed kernel gives for sequence `b` in output channel `o` at place `t`.
pub open spec fn spread_out(
    v: spec_fn(int) -> real,
    w: spec_fn(int) -> real,
    channels: int,
    len: int,
    outer: int,
    kernel: int,
    c: ConvTransposeConfig,
    b: int,
    o: int,
    t: int,
) -> real {
    spline_laws::sum(
        Seq::new(
            channels as nat,
            |k: int|
                spline_laws::sum(
                    brought_by_line(
                        v,
                        w,
                        len,
                        kernel,
                        c,
                        b * channels + k,
                        (k * outer + o) * kernel,
                        t,
                    ),
                ),
        ),
    )
}

/// One where a comparison holds, else zero.
pub open spec fn compared(f: Comparison, a: real, b: real) -> real {
    let holds = match f {
        Comparison::Ge => a >= b,
        Comparison::Le => a <= b,
        Comparison::Ne => a != b,
    };
    if holds {
        1real
    } else {
        0real
    }
}

impl Numbers {
    /// A function of a single number.
    pub open spec fn applied(self, f: Unary, x: real) -> real {
        match f {
            Unary::Neg => -x,
            Unary::Exp => (self.exponential)(x),
            Unary::Sqr => x * x,
            Unary::Recip => 1real / x,
            Unary::Relu => if x >= 0real {
                x
            } else {
                0real
            },
            Unary::Silu => x / (1real + (self.exponential)(-x)),
            Unary::Ceil => ceiling(x) as real,
            _ => (self.function)(f, x),
        }
    }

    /// A number, moved into a range whose upper end may be missing.
    pub open spec fn clamped(self, x: real, low: Scalar, high: Scalar) -> real {
        let y = if x < (self.scalar)(low) {
            (self.scalar)(low)
        } else {
            x
        };
        if high != scalar::scalar(INFINITY_BITS) && y > (self.scalar)(high) {
            (self.scalar)(high)
        } else {
            y
        }
    }

    /// The numbers of a tensor that no operation produces.
    pub open spec fn values_0(self, leaf: Leaf) -> spec_fn(int) -> real {
        match leaf {
            Leaf::Fill(s, _) => |p: int| (self.scalar)(s),
            _ => (self.given)(Term::leaf(leaf)),
        }
    }

    /// The numbers of an operation on a tensor that holds the numbers `v`.
    pub open spec fn values_1(
        self,
        op: Op1,
        a: Term,
        v: spec_fn(int) -> real,
    ) -> spec_fn(int) -> real {
        match op {
            Op1::Apply(f) => |p: int| self.applied(f, v(p)),
            Op1::Affine(f, s) => |p: int| v(p) * (self.scalar)(f) + (self.scalar)(s),
            Op1::Clamp(low, high) => |p: int| self.clamped(v(p), low, high),
            Op1::Dropout(_) => (self.given)(a.one(op)),
            Op1::Cast(dtype) => if dtype.spec_is_float() {
                v
            } else {
                (self.given)(a.one(op))
            },
            Op1::CompareScalar(f, s) => |p: int| compared(f, v(p), (self.scalar)(s)),
            Op1::Softmax => {
                let n = lines::last_len(a) as int;
                |p: int|
                    (self.exponential)(v(p)) / spline_laws::sum(
                        line_exponentials(self.exponential, v, n, p),
                    )
            },
            Op1::Cumsum(dim) => {
                let inn = index::inner(a.shape(), dim as int);
                let n = a.shape().spec_dim(dim as int) as int;
                |p: int|
                    spline_laws::sum(
                        Seq::new(
                            (index::entry_of(n, inn, p) + 1) as nat,
                            |k: int|
                                v(
                                    index::place(
                                        n,
                                        inn,
                                        index::outer_of(n, inn, p),
                                        k,
                                        index::rest_of(inn, p),
                                    ),
                                ),
                        ),
                    )
            },
            Op1::SumLast => {
                let n = lines::last_len(a) as int;
                |p: int| spline_laws::sum(line(v, n, p))
            },
            Op1::SumInner(_) => match a.shape() {
                Shape::S3(_, rows, columns) => |p: int|
                    spline_laws::sum(line(v, rows * columns, p)),
                _ => (self.given)(a.one(op)),
            },
            Op1::Reshape(_) => v,
            Op1::Contiguous => v,
            Op1::Unsqueeze(_) => v,
            Op1::Squeeze(_) => v,
            Op1::Transpose(i, j) => {
                let turned = places::exchanged_shape(a.shape(), i as int, j as int);
                |p: int|
                    v(
                        index::position(
                            a.shape(),
                            places::exchanged(
                                places::coordinates(turned, p),
                                i as int,
                                j as int,
                            ),
                        ),
                    )
            },
            Op1::Narrow(dim, start, len) => {
                let inn = index::inner(a.shape(), dim as int);
                let n = a.shape().spec_dim(dim as int) as int;
                |p: int|
                    v(
                        index::place(
                            n,
                            inn,
                            index::outer_of(len as int, inn, p),
                            start + index::entry_of(len as int, inn, p),
                            index::rest_of(inn, p),
                        ),
                    )
            },
            Op1::Reverse(dim) => {
                let inn = index::inner(a.shape(), dim as int);
                let n = a.shape().spec_dim(dim as int) as int;
                |p: int|
                    v(
                        index::place(
                            n,
                            inn,
                            index::outer_of(n, inn, p),
                            n - 1 - index::entry_of(n, inn, p),
                            index::rest_of(inn, p),
                        ),
                    )
            },
            Op1::Expand(shape) => |p: int| v(places::repeated(a.shape(), shape, p)),
        }
    }

    /// The numbers of an operation on two tensors that hold the numbers `v` and `w`.
    pub open spec fn values_2(
        self,
        op: Op2,
        a: Term,
        b: Term,
        v: spec_fn(int) -> real,
        w: spec_fn(int) -> real,
    ) -> spec_fn(int) -> real {
        match op {
            Op2::Zip(f) => |p: int| spline_laws::combined(f, v(p), w(p)),
            Op2::Broadcast(f) => {
                let joint = a.shape().spec_broadcast(b.shape())->0;
                |p: int|
                    spline_laws::combined(
                        f,
                        v(places::repeated(a.shape(), joint, p)),
                        w(places::repeated(b.shape(), joint, p)),
                    )
            },
            Op2::Compare(f) => |p: int| compared(f, v(p), w(p)),
            Op2::BroadcastCompare(f) => {
                let joint = a.shape().spec_broadcast(b.shape())->0;
                |p: int|
                    compared(
                        f,
                        v(places::repeated(a.shape(), joint, p)),
                        w(places::repeated(b.shape(), joint, p)),
                    )
            },
            Op2::Matmul => match (a.shape(), b.shape()) {
                (Shape::S3(_, rows, inner), Shape::S3(_, _, columns)) => |p: int|
                    spline_laws::sum(
                        products(
                            v,
                            w,
                            rows as int,
                            inner as int,
                            columns as int,
                            index::outer_of(rows as int, columns as int, p),
                            index::entry_of(rows as int, columns as int, p),
                            index::rest_of(columns as int, p),
                        ),
                    ),
                _ => (self.given)(a.two(b, op)),
            },
            Op2::Linear => match b.shape() {
                Shape::S2(outer, inner) => |p: int|
                    spline_laws::sum(
                        line_products(
                            v,
                            w,
                            inner as int,
                            p / (outer as int),
                            p % (outer as int),
                        ),
                    ),
                _ => (self.given)(a.two(b, op)),
            },
            Op2::Concat(dim) => {
                let inn = index::inner(a.shape(), dim as int);
                let na = a.shape().spec_dim(dim as int) as int;
                let nb = b.shape().spec_dim(dim as int) as int;
                |p: int|
                    {
                        let o = index::outer_of(na + nb, inn, p);
                        let k = index::entry_of(na + nb, inn, p);
                        if k < na {
                            v(index::place(na, inn, o, k, index::rest_of(inn, p)))
                        } else {
                            w(index::place(nb, inn, o, k - na, index::rest_of(inn, p)))
                        }
                    }
            },
            Op2::GatherLast => {
                let n = lines::last_len(a) as int;
                let m = lines::last_len(b) as int;
                |p: int| v((p / m) * n + w(p).floor())
            },
            Op2::Conv1d(c) => match (a.shape(), b.shape()) {
                (Shape::S3(_, channels, len), Shape::S3(outer, inner, kernel)) => {
                    let places = a.two(b, op).shape()->S3_2 as int;
                    |p: int|
                        convolved(
                            v,
                            w,
                            channels as int,
                            len as int,
                            inner as int,
                            kernel as int,
                            (outer as int) / (c.groups as int),
                            c,
                            index::outer_of(outer as int, places, p),
                            index::entry_of(outer as int, places, p),
                            index::rest_of(places, p),
                        )
                },
                _ => (self.given)(a.two(b, op)),
            },
            Op2::ConvTranspose1d(c) => match (a.shape(), b.shape()) {
                (Shape::S3(_, channels, len), Shape::S3(_, outer, kernel)) => {
                    let places = a.two(b, op).shape()->S3_2 as int;
                    |p: int|
                        spread_out(
                            v,
                            w,
                            channels as int,
                            len as int,
                            outer as int,
                            kernel as int,
                            c,
                            index::outer_of(outer as int, places, p),
                            index::entry_of(outer as int, places, p),
                            index::rest_of(places, p),
                        )
                },
                _ => (self.given)(a.two(b, op)),
            },
            Op2::Embedding => {
                let n = lines::last_len(a) as int;
                |p: int| v(w(p / n).floor() * n + p % n)
            },
        }
    }

    /// The numbers of an operation on three tensors that hold the numbers `u`, `v` and `w`.
    pub open spec fn values_3(
        self,
        op: Op3,
        a: Term,
        u: spec_fn(int) -> real,
        v: spec_fn(int) -> real,
        w: spec_fn(int) -> real,
    ) -> spec_fn(int) -> real {
        match op {
            Op3::Select => |p: int|
                if u(p) != 0real {
                    v(p)
                } else {
                    w(p)
                },
            Op3::LayerNorm(eps) => {
                let n = lines::last_len(a) as int;
                |p: int|
                    {
                        let s = line(u, n, p / n);
                        (u(p) - mean(s)) / (self.function)(
                            Unary::Sqrt,
                            variance(s) + (self.scalar)(Scalar::Value(eps)),
                        ) * v(p % n) + w(p % n)
                    }
            },
        }
    }

    /// The numbers of an expression, by position in row-major order.
    #[verifier::opaque]
    pub open spec fn values(self, t: Term) -> spec_fn(int) -> real
        decreases t,
    {
        match t {
            Term::Zero(leaf) => self.values_0(leaf),
            Term::One(op, a) => self.values_1(op, *a, self.values(*a)),
            Term::Two(op, a, b) => self.values_2(op, *a, *b, self.values(*a), self.values(*b)),
            Term::Three(op, a, b, c) => self.values_3(
                op,
                *a,
                self.values(*a),
                self.values(*b),
                self.values(*c),
            ),
        }
    }
}

pub broadcast proof fn values_leaf(i: Numbers, leaf: Leaf)
    ensures
        #[trigger] i.values(Term::leaf(leaf)) == i.values_0(leaf),
{
    reveal(Numbers::values);
}

pub broadcast proof fn values_one(i: Numbers, a: Term, op: Op1)
    ensures
        #[trigger] i.values(a.one(op)) == i.values_1(op, a, i.values(a)),
{
    reveal(Numbers::values);
}

pub broadcast proof fn values_two(i: Numbers, a: Term, b: Term, op: Op2)
    ensures
        #[trigger] i.values(a.two(b, op)) == i.values_2(op, a, b, i.values(a), i.values(b)),
{
    reveal(Numbers::values);
}

pub broadcast proof fn values_three(i: Numbers, a: Term, b: Term, c: Term, op: Op3)
    ensures
        #[trigger] i.values(a.three(b, c, op)) == i.values_3(
            op,
            a,
            i.values(a),
            i.values(b),
            i.values(c),
        ),
{
    reveal(Numbers::values);
}

/// The numbers of every form of expression from those of its operands.
pub broadcast group number_rules {
    values_leaf,
    values_one,
    values_two,
    values_three,
}

/// Where an operation that moves elements takes the one at a position from, in its first operand.
spec fn taken_from(t: Term, p: int) -> int {
    match t {
        Term::One(Op1::Narrow(dim, start, len), a) => {
            let inn = index::inner(a.shape(), dim as int);
            index::place(
                a.shape().spec_dim(dim as int) as int,
                inn,
                index::outer_of(len as int, inn, p),
                start + index::entry_of(len as int, inn, p),
                index::rest_of(inn, p),
            )
        },
        Term::One(Op1::Reverse(dim), a) => {
            let inn = index::inner(a.shape(), dim as int);
            let n = a.shape().spec_dim(dim as int) as int;
            index::place(
                n,
                inn,
                index::outer_of(n, inn, p),
                n - 1 - index::entry_of(n, inn, p),
                index::rest_of(inn, p),
            )
        },
        Term::Two(Op2::Concat(dim), a, b) => {
            let inn = index::inner(a.shape(), dim as int);
            let na = a.shape().spec_dim(dim as int) as int;
            let n = na + b.shape().spec_dim(dim as int);
            index::place(
                na,
                inn,
                index::outer_of(n, inn, p),
                index::entry_of(n, inn, p),
                index::rest_of(inn, p),
            )
        },
        _ => p,
    }
}

/// Where an element of the second of two joined tensors is taken from.
spec fn taken_from_second(t: Term, p: int) -> int {
    match t {
        Term::Two(Op2::Concat(dim), a, b) => {
            let inn = index::inner(a.shape(), dim as int);
            let na = a.shape().spec_dim(dim as int) as int;
            let nb = b.shape().spec_dim(dim as int) as int;
            index::place(
                nb,
                inn,
                index::outer_of(na + nb, inn, p),
                index::entry_of(na + nb, inn, p) - na,
                index::rest_of(inn, p),
            )
        },
        _ => p,
    }
}

/// An element has the number of the element that it is moved from.
pub proof fn lemma_moved(i: Numbers, t: &Term, p: int)
    ensures
        i.values(*t)(p) == i.values(index::origin(*t, p).0)(index::origin(*t, p).1),
    decreases *t,
{
    reveal(Numbers::values);
    match t {
        Term::One(Op1::Reshape(_), a) => lemma_moved(i, a, p),
        Term::One(Op1::Contiguous, a) => lemma_moved(i, a, p),
        Term::One(Op1::Unsqueeze(_), a) => lemma_moved(i, a, p),
        Term::One(Op1::Squeeze(_), a) => lemma_moved(i, a, p),
        Term::One(Op1::Narrow(_, _, _), a) => lemma_moved(i, a, taken_from(*t, p)),
        Term::One(Op1::Reverse(_), a) => lemma_moved(i, a, taken_from(*t, p)),
        Term::Two(Op2::Concat(_), a, b) => {
            lemma_moved(i, a, taken_from(*t, p));
            lemma_moved(i, b, taken_from_second(*t, p));
        },
        _ => {},
    }
}

/// The numbers of zeros.
pub proof fn lemma_zero(i: Numbers, t: Term, p: int)
    requires
        positions::is_zero(t),
    ensures
        i.values(t)(p) == (i.scalar)(scalar::scalar(ZERO_BITS)),
{
    reveal(Numbers::values);
}

/// A tensor times a number, plus the number that zero stands for.
pub proof fn lemma_scaled(i: Numbers, x: Term, factor: Scalar, p: int)
    ensures
        i.values(x.scale(factor))(p) == i.values(x)(p) * (i.scalar)(factor) + (i.scalar)(
            scalar::scalar(ZERO_BITS),
        ),
{
    broadcast use number_rules;

}

/// The sum of two tensors.
pub proof fn lemma_sum(i: Numbers, a: Term, b: Term, p: int)
    ensures
        i.values(a.add(b))(p) == i.values(a)(p) + i.values(b)(p),
{
    broadcast use number_rules;

}

/// Rows and columns exchanged.
pub proof fn lemma_transposed(
    i: Numbers,
    x: Term,
    stack: int,
    rows: int,
    columns: int,
    s: int,
    r: int,
    j: int,
)
    requires
        is_stack(x, stack, rows, columns),
        within(stack, rows, columns, s, r, j),
    ensures
        element(i.values(x.transpose(1, 2)), columns, rows, s, j, r) == element(
            i.values(x),
            rows,
            columns,
            s,
            r,
            j,
        ),
{
    broadcast use number_rules;

    let turned = places::exchanged_shape(x.shape(), 1, 2);
    places::lemma_coordinates_3(turned, s, j, r);
    let at = seq![s, j, r];
    assert(places::exchanged(at, 1, 2) =~= seq![s, r, j]);
}

/// Rows and matrices exchanged.
pub proof fn lemma_exchanged(
    i: Numbers,
    x: Term,
    rows: int,
    matrices: int,
    columns: int,
    a: int,
    b: int,
    c: int,
    d: int,
)
    requires
        splits(x, rows, matrices, columns),
        within(matrices, rows, columns, b, c, d),
    ensures
        inner_element(i.values(x.transpose(1, 2)), matrices, rows, columns, a, b, c, d)
            == inner_element(i.values(x), rows, matrices, columns, a, c, b, d),
{
    broadcast use number_rules;

    let turned = places::exchanged_shape(x.shape(), 1, 2);
    places::lemma_coordinates_4(turned, a, b, c, d);
    let at = seq![a, b, c, d];
    assert(places::exchanged(at, 1, 2) =~= seq![a, c, b, d]);
}

/// A number for every column added to every row.
pub proof fn lemma_bias(
    i: Numbers,
    a: Term,
    b: Term,
    stack: int,
    rows: int,
    columns: int,
    s: int,
    r: int,
    j: int,
)
    requires
        is_stack(a, stack, rows, columns),
        b.shape() is S1,
        b.shape()->S1_0 == columns,
        within(stack, rows, columns, s, r, j),
    ensures
        element(i.values(a.broadcast_add(b)), rows, columns, s, r, j) == element(
            i.values(a),
            rows,
            columns,
            s,
            r,
            j,
        ) + i.values(b)(j),
{
    broadcast use number_rules;

    let joint = a.shape().spec_broadcast(b.shape())->0;
    assert(joint == a.shape());
    places::lemma_repeated_3(a.shape(), joint, s, r, j);
    places::lemma_repeated_3(b.shape(), joint, s, r, j);
}

/// A mask added to the scores of every head.
pub proof fn lemma_mask(
    i: Numbers,
    a: Term,
    b: Term,
    heads: int,
    len: int,
    s: int,
    r: int,
    j: int,
)
    requires
        masks(a, b, heads, len),
        within(a.shape()->S4_0 * heads, len, len, s, r, j),
    ensures
        element(i.values(a.broadcast_add(b)), len, len, s, r, j) == element(
            i.values(a),
            len,
            len,
            s,
            r,
            j,
        ) + element(i.values(b), len, len, s / heads, r, j),
{
    broadcast use number_rules;

    let joint = a.shape().spec_broadcast(b.shape())->0;
    assert(joint == a.shape());
    let batch = a.shape()->S4_0 as int;
    assert(heads > 0) by (nonlinear_arith)
        requires
            0 <= s < batch * heads,
            heads >= 0,
    ;
    vstd::arithmetic::div_mod::lemma_fundamental_div_mod(s, heads);
    let (x, y) = (s / heads, s % heads);
    assert(heads * x == x * heads) by (nonlinear_arith);
    assert(0 <= x < batch) by (nonlinear_arith)
        requires
            0 <= x * heads + y < batch * heads,
            0 <= y < heads,
    ;
    places::lemma_repeated_4(a.shape(), joint, x, y, r, j);
    places::lemma_repeated_4(b.shape(), joint, x, y, r, j);
}

/// Products of matrices.
pub proof fn lemma_product(
    i: Numbers,
    a: Term,
    b: Term,
    stack: int,
    rows: int,
    inner: int,
    columns: int,
    s: int,
    r: int,
    j: int,
)
    requires
        is_stack(a, stack, rows, inner),
        is_stack(b, stack, inner, columns),
        within(stack, rows, columns, s, r, j),
    ensures
        element(i.values(a.matmul(b)), rows, columns, s, r, j) == spline_laws::sum(
            products(i.values(a), i.values(b), rows, inner, columns, s, r, j),
        ),
{
    broadcast use number_rules;

    index::lemma_place(rows, columns, s, r, j);
}

/// Products of rows with the rows of a matrix.
pub proof fn lemma_linear(
    i: Numbers,
    a: Term,
    b: Term,
    stack: int,
    rows: int,
    inner: int,
    columns: int,
    s: int,
    r: int,
    c: int,
)
    requires
        is_stack(a, stack, rows, inner),
        b.shape() is S2,
        b.shape()->S2_0 == columns,
        b.shape()->S2_1 == inner,
        within(stack, rows, columns, s, r, c),
    ensures
        element(i.values(a.linear(b)), rows, columns, s, r, c) == spline_laws::sum(
            row_products(i.values(a), i.values(b), rows, inner, s, r, c),
        ),
{
    broadcast use number_rules;

    let q = s * rows + r;
    vstd::arithmetic::div_mod::lemma_fundamental_div_mod_converse(q * columns + c, columns, q, c);
    assert(line_products(i.values(a), i.values(b), inner, q, c) =~= row_products(
        i.values(a),
        i.values(b),
        rows,
        inner,
        s,
        r,
        c,
    ));
}

/// The softmax of a row.
pub proof fn lemma_softmax(
    i: Numbers,
    x: Term,
    stack: int,
    rows: int,
    columns: int,
    s: int,
    r: int,
    j: int,
)
    requires
        is_stack(x, stack, rows, columns),
        within(stack, rows, columns, s, r, j),
    ensures
        element(i.values(x.softmax()), rows, columns, s, r, j) == (i.exponential)(
            element(i.values(x), rows, columns, s, r, j),
        ) / spline_laws::sum(exponentials(i.exponential, i.values(x), rows, columns, s, r)),
{
    broadcast use number_rules;

    let q = s * rows + r;
    let p = q * columns + j;
    vstd::arithmetic::div_mod::lemma_fundamental_div_mod_converse(p, columns, q, j);
    assert(line_exponentials(i.exponential, i.values(x), columns, p) =~= exponentials(
        i.exponential,
        i.values(x),
        rows,
        columns,
        s,
        r,
    ));
}

} // verus!
