//! What the layers do to single numbers, where arithmetic is exact.

use vstd::prelude::*;

use crate::model::channels;
use crate::model::channels::holds;
use crate::model::numbers;
use crate::model::numbers::Numbers;
use crate::model::positions;
use crate::model::separable;
use crate::model::spline_laws;
use crate::nn;
use crate::nn::{Conv1d, ConvTranspose1d, Embedding, LayerNorm, Linear, ScopeView};
use crate::tensor::index;
use crate::tensor::ops::{Op1, Op2, Op3};
use crate::tensor::scalar::{Real, Scalar};
use crate::tensor::shape::Shape;
use crate::tensor::term;
use crate::tensor::term::Term;
use crate::tensor::typing;
use crate::tensor::typing::{Binary, ConvConfig, Unary};

verus! {

broadcast use crate::tensor::term::strictness;

/// The bias of an output channel, zero where there is none.
pub open spec fn bias_of(i: Numbers, bias: Option<Term>, o: int) -> real {
    match bias {
        Some(b) => i.values(b)(o),
        None => 0real,
    }
}

/// The bias of a convolution.
pub open spec fn conv_bias(conv: Conv1d) -> Option<Term> {
    match conv.bias {
        Some(b) => Some(b@),
        None => None,
    }
}

/// The types in a convolution with a bias for every channel.
proof fn lemma_conv_types(conv: Conv1d, x: Term)
    requires
        term::typ(conv.output(x)) is Some,
        conv.weight@.shape() is S3,
        conv.bias is Some ==> conv.bias->0@.shape() == Shape::S1(conv.weight@.shape()->S3_0),
    ensures
        ({
            let y = x.conv1d(conv.weight@, conv.config);
            &&& term::typ(x) is Some
            &&& x.shape() is S3
            &&& x.shape()->S3_1 == conv.weight@.shape()->S3_1 * conv.config.groups
            &&& conv.config.groups >= 1
            &&& term::typ(y) is Some
            &&& term::typ(conv.output(x)) == term::typ(y)
            &&& y.shape() == Shape::S3(
                x.shape()->S3_0,
                conv.weight@.shape()->S3_0,
                typing::conv_length(
                    x.shape()->S3_2,
                    conv.weight@.shape()->S3_2,
                    conv.config,
                ) as usize,
            )
            &&& conv.weight@.shape()->S3_2 >= 1
            &&& conv.bias is Some ==> {
                let spread = nn::per_channel(conv.bias->0@);
                term::typ(spread) is Some && spread.shape() == Shape::S3(
                    1,
                    conv.weight@.shape()->S3_0,
                    1,
                )
            }
        }),
{
    broadcast use crate::tensor::term::typing_rules;

}

/// A convolution gives at every place the sum over the channels and the places of its kernel, plus
/// the bias of the channel.
pub proof fn lemma_conv(i: Numbers, conv: Conv1d, x: Term, b: int, o: int, t: int)
    requires
        holds(conv.output(x), b, o, t),
        conv.weight@.shape() is S3,
        conv.bias is Some ==> conv.bias->0@.shape() == Shape::S1(conv.weight@.shape()->S3_0),
    ensures
        x.shape() is S3,
        i.at(conv.output(x), b, o, t) == numbers::convolved(
            i.values(x),
            i.values(conv.weight@),
            x.shape()->S3_1 as int,
            x.shape()->S3_2 as int,
            conv.weight@.shape()->S3_1 as int,
            conv.weight@.shape()->S3_2 as int,
            (conv.weight@.shape()->S3_0 as int) / (conv.config.groups as int),
            conv.config,
            b,
            o,
            t,
        ) + bias_of(i, conv_bias(conv), o),
{
    let w = conv.weight@;
    let y = x.conv1d(w, conv.config);
    lemma_conv_types(conv, x);
    assert(i.at(y, b, o, t) == numbers::convolved(
        i.values(x),
        i.values(w),
        x.shape()->S3_1 as int,
        x.shape()->S3_2 as int,
        w.shape()->S3_1 as int,
        w.shape()->S3_2 as int,
        (w.shape()->S3_0 as int) / (conv.config.groups as int),
        conv.config,
        b,
        o,
        t,
    )) by {
        numbers::values_two(i, x, w, Op2::Conv1d(conv.config));
        index::lemma_place(w.shape()->S3_0 as int, y.shape()->S3_2 as int, b, o, t);
    }
    match conv.bias {
        Some(bias) => {
            lemma_channel_bias(i, y, bias@, b, o, t);
        },
        None => {},
    }
}

/// A bias for every channel.
proof fn lemma_channel_bias(i: Numbers, y: Term, bias: Term, b: int, o: int, t: int)
    requires
        holds(y, b, o, t),
        bias.shape() == Shape::S1(y.shape()->S3_1),
        term::typ(y.broadcast_add(nn::per_channel(bias))) is Some,
        nn::per_channel(bias).shape() == Shape::S3(1, y.shape()->S3_1, 1),
    ensures
        i.at(y.broadcast_add(nn::per_channel(bias)), b, o, t) == i.at(y, b, o, t) + i.values(bias)(
            o,
        ),
{
    let spread = nn::per_channel(bias);
    channels::lemma_spread(i, y, spread, Binary::Add, b, o, t);
    channels::lemma_only(spread.shape()->S3_1, y.shape()->S3_1, o);
    assert(i.values(spread) == i.values(bias)) by {
        broadcast use crate::model::numbers::number_rules;

    }
    let n = y.shape()->S3_1 as int;
    assert(positions::at3(n, 1, 0, o, 0) == o);
}

/// The products that a kernel of length one adds up: the channels at a place with the weights of an
/// output channel.
pub open spec fn weighted(
    i: Numbers,
    x: Term,
    w: spec_fn(int) -> real,
    inner: int,
    b: int,
    o: int,
    t: int,
) -> Seq<real> {
    Seq::new(inner as nat, |c: int| i.at(x, b, c, t) * w(o * inner + c))
}

/// A convolution with a kernel of length one mixes the channels of every place: with the weights
/// and the bias that the checkpoint calls `weight` and `bias`.
pub proof fn lemma_pointwise(
    i: Numbers,
    conv: Conv1d,
    vb: ScopeView,
    inner: usize,
    outer: usize,
    x: Term,
    b: int,
    o: int,
    t: int,
)
    requires
        conv.loaded(vb, inner, outer, 1, nn::plain_conv()),
        term::typ(conv.output(x)) is Some,
    ensures
        x.shape() is S3,
        x.shape()->S3_1 == inner,
        conv.output(x).shape() == Shape::S3(x.shape()->S3_0, outer, x.shape()->S3_2),
        holds(conv.output(x), b, o, t) ==> i.at(conv.output(x), b, o, t) == spline_laws::sum(
            weighted(
                i,
                x,
                i.values(vb.tensor("weight"@, Shape::S3(outer, inner, 1))),
                inner as int,
                b,
                o,
                t,
            ),
        ) + i.values(vb.tensor("bias"@, Shape::S1(outer)))(o),
{
    let w = conv.weight@;
    assert(w.shape() == Shape::S3(outer, inner, 1) && conv.bias->0@.shape() == Shape::S1(outer)
        && conv.output(x).shape() == Shape::S3(x.shape()->S3_0, outer, x.shape()->S3_2)
        && x.shape() is S3 && x.shape()->S3_1 == inner) by {
        broadcast use crate::tensor::term::typing_rules;

    }
    if holds(conv.output(x), b, o, t) {
        lemma_conv(i, conv, x, b, o, t);
        let (v, u) = (i.values(x), i.values(w));
        let (n, len) = (inner as int, x.shape()->S3_2 as int);
        let row = b * n;
        let s = numbers::channel_taps(v, u, len, n, 1, 1, row, o, t);
        let r = weighted(i, x, u, n, b, o, t);
        assert(o / (outer as int) == 0) by {
            vstd::arithmetic::div_mod::lemma_basic_div(o, outer as int);
        }
        assert forall|c: int| 0 <= c < s.len() implies #[trigger] s[c] == r[c] by {
            let f = numbers::taps(v, u, len, 1, 1, row + c, (o * n + c) * 1, t);
            channels::lemma_single(f, 0);
            assert((o * n + c) * 1 + 0 == o * n + c);
            assert(t + 0 * 1 == t);
            assert(f[0] == numbers::line_at(v, len, row + c, t) * u(o * n + c));
        }
        channels::lemma_same_sum(s, r);
        assert((outer as int) / 1 == outer);
        assert(0 * n == 0);
        assert(t * 1 - 0 == t);
    }
}

/// What a kernel gives for an output channel at a place, where it is moved one place at a time over
/// `inner` lines of length `len`: the sum over the lines and over the places of the kernel, of
/// which the first lies `padding` places before the place and each of the others `dilation` places
/// behind the one before it. Beside a line there are zeros.
pub open spec fn kernel_sum(
    f: spec_fn(int, int) -> real,
    inner: int,
    len: int,
    w: spec_fn(int) -> real,
    kernel: int,
    dilation: int,
    padding: int,
    o: int,
    t: int,
) -> real {
    spline_laws::sum(
        Seq::new(
            inner as nat,
            |c: int|
                spline_laws::sum(
                    kernel_line(f, len, w, kernel, dilation, padding, c, o * inner + c, t),
                ),
        ),
    )
}

/// The products of a kernel with line `c`, where `q` is the number of the line's share of the
/// kernel.
pub open spec fn kernel_line(
    f: spec_fn(int, int) -> real,
    len: int,
    w: spec_fn(int) -> real,
    kernel: int,
    dilation: int,
    padding: int,
    c: int,
    q: int,
    t: int,
) -> Seq<real> {
    Seq::new(
        kernel as nat,
        |j: int|
            {
                let s = t + j * dilation - padding;
                if 0 <= s < len {
                    f(c, s) * w(q * kernel + j)
                } else {
                    0real
                }
            },
    )
}

/// The numbers of a sequence, by channel and place.
pub open spec fn sequence(i: Numbers, x: Term, b: int) -> spec_fn(int, int) -> real {
    |c: int, t: int| i.at(x, b, c, t)
}

/// Kernels over the same numbers give the same.
pub proof fn lemma_same_kernel_sum(
    f: spec_fn(int, int) -> real,
    g: spec_fn(int, int) -> real,
    inner: int,
    len: int,
    w: spec_fn(int) -> real,
    kernel: int,
    dilation: int,
    padding: int,
    o: int,
    t: int,
)
    requires
        inner >= 0,
        forall|c: int, s: int| 0 <= c < inner && 0 <= s < len ==> #[trigger] f(c, s) == g(c, s),
    ensures
        kernel_sum(f, inner, len, w, kernel, dilation, padding, o, t) == kernel_sum(
            g,
            inner,
            len,
            w,
            kernel,
            dilation,
            padding,
            o,
            t,
        ),
{
    let r = Seq::new(
        inner as nat,
        |c: int|
            spline_laws::sum(
                kernel_line(f, len, w, kernel, dilation, padding, c, o * inner + c, t),
            ),
    );
    let s = Seq::new(
        inner as nat,
        |c: int|
            spline_laws::sum(
                kernel_line(g, len, w, kernel, dilation, padding, c, o * inner + c, t),
            ),
    );
    assert forall|c: int| 0 <= c < r.len() implies #[trigger] r[c] == s[c] by {
        let (k, l) = (
            kernel_line(f, len, w, kernel, dilation, padding, c, o * inner + c, t),
            kernel_line(g, len, w, kernel, dilation, padding, c, o * inner + c, t),
        );
        assert forall|j: int| 0 <= j < k.len() implies #[trigger] k[j] == l[j] by {
            let q = t + j * dilation - padding;
            if 0 <= q < len {
                assert(f(c, q) == g(c, q));
            }
        }
        assert(k =~= l);
    }
    channels::lemma_same_sum(r, s);
}

/// A kernel of zeros gives zero.
pub proof fn lemma_zero_kernel(
    f: spec_fn(int, int) -> real,
    inner: int,
    len: int,
    w: spec_fn(int) -> real,
    kernel: int,
    dilation: int,
    padding: int,
    o: int,
    t: int,
)
    requires
        inner >= 0,
        forall|p: int| #[trigger] w(p) == 0real,
    ensures
        kernel_sum(f, inner, len, w, kernel, dilation, padding, o, t) == 0real,
{
    let r = Seq::new(
        inner as nat,
        |c: int|
            spline_laws::sum(
                kernel_line(f, len, w, kernel, dilation, padding, c, o * inner + c, t),
            ),
    );
    assert forall|c: int| 0 <= c < r.len() implies #[trigger] r[c] == 0real by {
        let k = kernel_line(f, len, w, kernel, dilation, padding, c, o * inner + c, t);
        assert forall|j: int| 0 <= j < k.len() implies #[trigger] k[j] == 0real by {
            let q = t + j * dilation - padding;
            let x = f(c, q);
            assert(w((o * inner + c) * kernel + j) == 0real);
            assert(x * 0real == 0real) by (nonlinear_arith);
        }
        channels::lemma_zero_sum(k);
    }
    channels::lemma_zero_sum(r);
}

/// A convolution that moves one place at a time over all channels.
pub proof fn lemma_whole_conv(i: Numbers, conv: Conv1d, x: Term, b: int, o: int, t: int)
    requires
        holds(conv.output(x), b, o, t),
        conv.weight@.shape() is S3,
        conv.bias is Some ==> conv.bias->0@.shape() == Shape::S1(conv.weight@.shape()->S3_0),
        conv.config.stride == 1,
        conv.config.groups == 1,
    ensures
        x.shape() is S3,
        x.shape()->S3_1 == conv.weight@.shape()->S3_1,
        i.at(conv.output(x), b, o, t) == kernel_sum(
            sequence(i, x, b),
            x.shape()->S3_1 as int,
            x.shape()->S3_2 as int,
            i.values(conv.weight@),
            conv.weight@.shape()->S3_2 as int,
            conv.config.dilation as int,
            conv.config.padding as int,
            o,
            t,
        ) + bias_of(i, conv_bias(conv), o),
{
    lemma_conv_types(conv, x);
    lemma_conv(i, conv, x, b, o, t);
    let w = conv.weight@;
    let (v, u) = (i.values(x), i.values(w));
    let (n, len, kernel) = (
        x.shape()->S3_1 as int,
        x.shape()->S3_2 as int,
        w.shape()->S3_2 as int,
    );
    let (dilation, padding) = (conv.config.dilation as int, conv.config.padding as int);
    assert(n == w.shape()->S3_1);
    let outer = w.shape()->S3_0 as int;
    assert(o / outer == 0) by {
        vstd::arithmetic::div_mod::lemma_basic_div(o, outer);
    }
    assert(outer / 1 == outer);
    assert(0 * n == 0);
    assert(t * 1 == t);
    let row = b * n;
    let s = numbers::channel_taps(v, u, len, n, kernel, dilation, row, o, t - padding);
    let f = sequence(i, x, b);
    let r = Seq::new(
        n as nat,
        |c: int|
            spline_laws::sum(
                kernel_line(f, len, u, kernel, dilation, padding, c, o * n + c, t),
            ),
    );
    assert forall|c: int| 0 <= c < s.len() implies #[trigger] s[c] == r[c] by {
        let g = numbers::taps(v, u, len, kernel, dilation, row + c, (o * n + c) * kernel, t - padding);
        let h = kernel_line(f, len, u, kernel, dilation, padding, c, o * n + c, t);
        assert forall|j: int| 0 <= j < g.len() implies #[trigger] g[j] == h[j] by {
            let at = t - padding + j * dilation;
            let y = u((o * n + c) * kernel + j);
            if !(0 <= at < len) {
                assert(0real * y == 0real) by (nonlinear_arith);
            }
        }
        assert(g =~= h);
    }
    channels::lemma_same_sum(s, r);
}

/// A transposed convolution gives at every place what the places of its kernel bring there, plus
/// the bias of the channel.
pub proof fn lemma_transposed_conv(i: Numbers, up: ConvTranspose1d, x: Term, b: int, o: int, t: int)
    requires
        holds(up.output(x), b, o, t),
        up.weight@.shape() is S3,
        up.bias@.shape() == Shape::S1(up.weight@.shape()->S3_1),
    ensures
        x.shape() is S3,
        x.shape()->S3_1 == up.weight@.shape()->S3_0,
        i.at(up.output(x), b, o, t) == numbers::spread_out(
            i.values(x),
            i.values(up.weight@),
            x.shape()->S3_1 as int,
            x.shape()->S3_2 as int,
            up.weight@.shape()->S3_1 as int,
            up.weight@.shape()->S3_2 as int,
            up.config,
            b,
            o,
            t,
        ) + i.values(up.bias@)(o),
{
    let w = up.weight@;
    let y = x.conv_transpose1d(w, up.config);
    assert(x.shape() is S3 && x.shape()->S3_1 == w.shape()->S3_0 && term::typ(y) is Some
        && y.shape() is S3 && y.shape()->S3_1 == w.shape()->S3_1 && y.shape()->S3_0
        == x.shape()->S3_0 && term::typ(up.output(x)) == term::typ(y) && nn::per_channel(
        up.bias@,
    ).shape() == Shape::S3(1, y.shape()->S3_1, 1)) by {
        broadcast use crate::tensor::term::typing_rules;

    }
    numbers::values_two(i, x, w, Op2::ConvTranspose1d(up.config));
    index::lemma_place(w.shape()->S3_1 as int, y.shape()->S3_2 as int, b, o, t);
    lemma_channel_bias(i, y, up.bias@, b, o, t);
}

/// What a transposed kernel brings to a place: of every line and every place in it, the number
/// times each place of the kernel that brings it there.
pub open spec fn spread_sum(
    f: spec_fn(int, int) -> real,
    inner: int,
    len: int,
    w: spec_fn(int) -> real,
    outer: int,
    kernel: int,
    stride: int,
    padding: int,
    o: int,
    t: int,
) -> real {
    spline_laws::sum(
        Seq::new(
            inner as nat,
            |c: int|
                spline_laws::sum(
                    Seq::new(
                        len as nat,
                        |l: int|
                            spline_laws::sum(
                                Seq::new(
                                    kernel as nat,
                                    |j: int|
                                        if l * stride + j == t + padding {
                                            f(c, l) * w((c * outer + o) * kernel + j)
                                        } else {
                                            0real
                                        },
                                ),
                            ),
                    ),
                ),
        ),
    )
}

/// A transposed convolution without dilation.
pub proof fn lemma_spread_sum(i: Numbers, up: ConvTranspose1d, x: Term, b: int, o: int, t: int)
    requires
        holds(up.output(x), b, o, t),
        up.weight@.shape() is S3,
        up.bias@.shape() == Shape::S1(up.weight@.shape()->S3_1),
        up.config.dilation == 1,
    ensures
        x.shape() is S3,
        x.shape()->S3_1 == up.weight@.shape()->S3_0,
        i.at(up.output(x), b, o, t) == spread_sum(
            sequence(i, x, b),
            x.shape()->S3_1 as int,
            x.shape()->S3_2 as int,
            i.values(up.weight@),
            up.weight@.shape()->S3_1 as int,
            up.weight@.shape()->S3_2 as int,
            up.config.stride as int,
            up.config.padding as int,
            o,
            t,
        ) + i.values(up.bias@)(o),
{
    lemma_transposed_conv(i, up, x, b, o, t);
    let w = up.weight@;
    let (v, u) = (i.values(x), i.values(w));
    let (n, len) = (x.shape()->S3_1 as int, x.shape()->S3_2 as int);
    let (outer, kernel) = (w.shape()->S3_1 as int, w.shape()->S3_2 as int);
    let (stride, padding) = (up.config.stride as int, up.config.padding as int);
    let f = sequence(i, x, b);
    let r = Seq::new(
        n as nat,
        |k: int|
            spline_laws::sum(
                numbers::brought_by_line(
                    v,
                    u,
                    len,
                    kernel,
                    up.config,
                    b * n + k,
                    (k * outer + o) * kernel,
                    t,
                ),
            ),
    );
    let s = Seq::new(
        n as nat,
        |c: int|
            spline_laws::sum(
                Seq::new(
                    len as nat,
                    |l: int|
                        spline_laws::sum(
                            Seq::new(
                                kernel as nat,
                                |j: int|
                                    if l * stride + j == t + padding {
                                        f(c, l) * u((c * outer + o) * kernel + j)
                                    } else {
                                        0real
                                    },
                            ),
                        ),
                ),
            ),
    );
    assert forall|c: int| 0 <= c < r.len() implies #[trigger] r[c] == s[c] by {
        let first = (c * outer + o) * kernel;
        let g = numbers::brought_by_line(v, u, len, kernel, up.config, b * n + c, first, t);
        let h = Seq::new(
            len as nat,
            |l: int|
                spline_laws::sum(
                    Seq::new(
                        kernel as nat,
                        |j: int|
                            if l * stride + j == t + padding {
                                f(c, l) * u((c * outer + o) * kernel + j)
                            } else {
                                0real
                            },
                    ),
                ),
        );
        assert forall|l: int| 0 <= l < g.len() implies #[trigger] g[l] == h[l] by {
            let d = numbers::brought(v, u, len, kernel, up.config, b * n + c, first, l, t);
            let e = Seq::new(
                kernel as nat,
                |j: int|
                    if l * stride + j == t + padding {
                        f(c, l) * u((c * outer + o) * kernel + j)
                    } else {
                        0real
                    },
            );
            assert(d =~= e);
        }
        assert(g =~= h);
    }
    channels::lemma_same_sum(r, s);
}

/// The squares of the numbers of a row of a kernel.
pub open spec fn squares(v: spec_fn(int) -> real, n: int, r: int) -> Seq<real> {
    Seq::new(n as nat, |k: int| v(r * n + k) * v(r * n + k))
}

/// Under weight normalization a kernel has, in every row, the direction that the checkpoint holds,
/// divided by its own length and multiplied by the length that the checkpoint holds. Both have one
/// of two pairs of names.
pub proof fn lemma_normalized_weight(
    i: Numbers,
    vb: ScopeView,
    rows: usize,
    columns: usize,
    kernel: usize,
    r: int,
    c: int,
    j: int,
)
    requires
        term::typ(nn::normalized_weight(vb, rows, columns, kernel)) is Some,
        0 <= r < rows,
        0 <= c < columns,
        0 <= j < kernel,
    ensures
        ({
            let older = vb.contains("weight_g"@) && vb.contains("weight_v"@);
            let g = i.values(
                vb.tensor(
                    if older {
                        "weight_g"@
                    } else {
                        "parametrizations.weight.original0"@
                    },
                    Shape::S3(rows, 1, 1),
                ),
            );
            let v = i.values(
                vb.tensor(
                    if older {
                        "weight_v"@
                    } else {
                        "parametrizations.weight.original1"@
                    },
                    Shape::S3(rows, columns, kernel),
                ),
            );
            let w = nn::normalized_weight(vb, rows, columns, kernel);
            let p = positions::at3(columns as int, kernel as int, r, c, j);
            &&& w.shape() == Shape::S3(rows, columns, kernel)
            &&& i.values(w)(p) == v(p) / (i.function)(
                Unary::Sqrt,
                spline_laws::sum(squares(v, columns * kernel, r)),
            ) * g(r)
        }),
{
    let g = vb.tensor(nn::length_name(vb), Shape::S3(rows, 1, 1));
    let v = vb.tensor(nn::direction_name(vb), Shape::S3(rows, columns, kernel));
    let squared = v.sqr();
    let total = squared.sum_inner(true);
    let root = total.sqrt();
    let unit = v.broadcast_div(root);
    let w = nn::normalized_weight(vb, rows, columns, kernel);
    assert(w == unit.broadcast_mul(g));
    assert(v.shape() == Shape::S3(rows, columns, kernel) && squared.shape() == v.shape()
        && total.shape() == Shape::S3(rows, 1, 1) && root.shape() == Shape::S3(rows, 1, 1)
        && g.shape() == Shape::S3(rows, 1, 1) && unit.shape() == v.shape() && term::typ(
        unit,
    ) is Some && term::typ(v) is Some && w.shape() == v.shape()) by {
        broadcast use crate::tensor::term::typing_rules;

    }
    channels::lemma_spread(i, unit, g, Binary::Mul, r, c, j);
    channels::lemma_only(g.shape()->S3_0, unit.shape()->S3_0, r);
    channels::lemma_spread(i, v, root, Binary::Div, r, c, j);
    channels::lemma_only(root.shape()->S3_0, v.shape()->S3_0, r);
    assert(positions::at3(1, 1, r, 0, 0) == r);
    let n = columns * kernel;
    assert(i.values(root)(r) == (i.function)(
        Unary::Sqrt,
        spline_laws::sum(numbers::line(i.values(squared), n, r)),
    )) by {
        numbers::values_one(i, total, Op1::Apply(Unary::Sqrt));
        numbers::values_one(i, squared, Op1::SumInner(true));
    }
    numbers::values_one(i, v, Op1::Apply(Unary::Sqr));
    assert(numbers::line(i.values(squared), n, r) =~= squares(i.values(v), n, r));
}

/// A convolution that moves one place at a time over all channels, whose kernel the checkpoint
/// holds under weight normalization.
pub proof fn lemma_normalized_conv(
    i: Numbers,
    conv: Conv1d,
    vb: ScopeView,
    inner: usize,
    outer: usize,
    kernel: usize,
    config: ConvConfig,
    x: Term,
)
    requires
        nn::weight_norm_conv1d_loaded(conv, vb, inner, outer, kernel, config, true),
        config.stride == 1,
        config.groups == 1,
        term::typ(conv.output(x)) is Some,
    ensures
        x.shape() is S3,
        x.shape()->S3_1 == inner,
        conv.output(x).shape() is S3,
        conv.output(x).shape()->S3_0 == x.shape()->S3_0,
        conv.output(x).shape()->S3_1 == outer,
        forall|b: int, o: int, t: int| #[trigger]
            holds(conv.output(x), b, o, t) ==> i.at(conv.output(x), b, o, t) == kernel_sum(
                sequence(i, x, b),
                inner as int,
                x.shape()->S3_2 as int,
                i.values(nn::normalized_weight(vb, outer, inner, kernel)),
                kernel as int,
                config.dilation as int,
                config.padding as int,
                o,
                t,
            ) + i.values(vb.tensor("bias"@, Shape::S1(outer)))(o),
{
    let w = conv.weight@;
    assert(term::typ(w) is Some);
    assert(w.shape() == Shape::S3(outer, inner, kernel) && conv.bias->0@.shape() == Shape::S1(
        outer,
    )) by {
        broadcast use crate::tensor::term::typing_rules;

    }
    lemma_conv_types(conv, x);
    assert forall|b: int, o: int, t: int| #[trigger] holds(conv.output(x), b, o, t) implies i.at(
        conv.output(x),
        b,
        o,
        t,
    ) == kernel_sum(
        sequence(i, x, b),
        inner as int,
        x.shape()->S3_2 as int,
        i.values(nn::normalized_weight(vb, outer, inner, kernel)),
        kernel as int,
        config.dilation as int,
        config.padding as int,
        o,
        t,
    ) + i.values(vb.tensor("bias"@, Shape::S1(outer)))(o) by {
        lemma_whole_conv(i, conv, x, b, o, t);
    }
}

/// A convolution with a kernel of length one, whose weights the checkpoint holds under weight
/// normalization.
pub proof fn lemma_normalized_pointwise(
    i: Numbers,
    conv: Conv1d,
    vb: ScopeView,
    inner: usize,
    outer: usize,
    x: Term,
)
    requires
        nn::weight_norm_conv1d_loaded(conv, vb, inner, outer, 1, nn::plain_conv(), true),
        term::typ(conv.output(x)) is Some,
    ensures
        x.shape() is S3,
        x.shape()->S3_1 == inner,
        conv.output(x).shape() == Shape::S3(x.shape()->S3_0, outer, x.shape()->S3_2),
        forall|b: int, o: int, t: int| #[trigger]
            holds(conv.output(x), b, o, t) ==> i.at(conv.output(x), b, o, t) == spline_laws::sum(
                weighted(
                    i,
                    x,
                    i.values(nn::normalized_weight(vb, outer, inner, 1)),
                    inner as int,
                    b,
                    o,
                    t,
                ),
            ) + i.values(vb.tensor("bias"@, Shape::S1(outer)))(o),
{
    lemma_normalized_conv(i, conv, vb, inner, outer, 1, nn::plain_conv(), x);
    assert(conv.output(x).shape() == Shape::S3(x.shape()->S3_0, outer, x.shape()->S3_2)) by {
        broadcast use crate::tensor::term::typing_rules;

        assert(term::typ(conv.weight@) is Some);
        assert(conv.weight@.shape() == Shape::S3(outer, inner, 1));
    }
    let w = i.values(nn::normalized_weight(vb, outer, inner, 1));
    assert forall|b: int, o: int, t: int| #[trigger] holds(conv.output(x), b, o, t) implies i.at(
        conv.output(x),
        b,
        o,
        t,
    ) == spline_laws::sum(weighted(i, x, w, inner as int, b, o, t)) + i.values(
        vb.tensor("bias"@, Shape::S1(outer)),
    )(o) by {
        lemma_kernel_of_one(i, x, w, inner as int, b, o, t);
    }
}

/// A kernel of length one.
proof fn lemma_kernel_of_one(
    i: Numbers,
    x: Term,
    w: spec_fn(int) -> real,
    inner: int,
    b: int,
    o: int,
    t: int,
)
    requires
        0 <= t < x.shape()->S3_2,
        inner >= 0,
    ensures
        kernel_sum(sequence(i, x, b), inner, x.shape()->S3_2 as int, w, 1, 1, 0, o, t)
            == spline_laws::sum(weighted(i, x, w, inner, b, o, t)),
{
    let f = sequence(i, x, b);
    let len = x.shape()->S3_2 as int;
    let r = Seq::new(
        inner as nat,
        |c: int| spline_laws::sum(kernel_line(f, len, w, 1, 1, 0, c, o * inner + c, t)),
    );
    let s = weighted(i, x, w, inner, b, o, t);
    assert forall|c: int| 0 <= c < r.len() implies #[trigger] r[c] == s[c] by {
        let q = o * inner + c;
        let k = kernel_line(f, len, w, 1, 1, 0, c, q, t);
        channels::lemma_single(k, 0);
        assert(q * 1 + 0 == q);
        assert(t + 0 * 1 - 0 == t);
    }
    channels::lemma_same_sum(r, s);
}

/// A dense layer gives for every row and every output the sum over the row, weighted with the
/// weights of that output, plus its bias.
pub proof fn lemma_dense(
    i: Numbers,
    layer: Linear,
    vb: ScopeView,
    inner: usize,
    outer: usize,
    bias: bool,
    x: Term,
    b: int,
    n: int,
    o: int,
)
    requires
        layer.loaded(vb, inner, outer, bias),
        term::typ(layer.output(x)) is Some,
        x.shape() is S3,
    ensures
        x.shape()->S3_2 == inner,
        layer.output(x).shape() == Shape::S3(x.shape()->S3_0, x.shape()->S3_1, outer),
        holds(layer.output(x), b, n, o) ==> i.at(layer.output(x), b, n, o) == spline_laws::sum(
            Seq::new(
                inner as nat,
                |k: int|
                    i.at(x, b, n, k) * i.values(
                        vb.tensor("weight"@, Shape::S2(outer, inner)),
                    )(o * inner + k),
            ),
        ) + if bias {
            i.values(vb.tensor("bias"@, Shape::S1(outer)))(o)
        } else {
            0real
        },
{
    let w = layer.weight@;
    let y = x.linear(w);
    assert(term::typ(y) is Some && w.shape() == Shape::S2(outer, inner) && x.shape()->S3_2 == inner
        && y.shape() == Shape::S3(x.shape()->S3_0, x.shape()->S3_1, outer) && term::typ(
        layer.output(x),
    ) == term::typ(y) && (layer.bias matches Some(t) ==> t@.shape() == Shape::S1(outer))) by {
        broadcast use crate::tensor::term::typing_rules;

    }
    if holds(layer.output(x), b, n, o) {
        let (batch, rows, m) = (
            x.shape()->S3_0 as int,
            x.shape()->S3_1 as int,
            inner as int,
        );
        numbers::lemma_linear(i, x, w, batch, rows, m, outer as int, b, n, o);
        let f = numbers::row_products(i.values(x), i.values(w), rows, m, b, n, o);
        let g = Seq::new(
            inner as nat,
            |k: int|
                i.at(x, b, n, k) * i.values(vb.tensor("weight"@, Shape::S2(outer, inner)))(
                    o * inner + k,
                ),
        );
        assert(f =~= g);
        match layer.bias {
            Some(t) => numbers::lemma_bias(i, y, t@, batch, rows, outer as int, b, n, o),
            None => {},
        }
    }
}

/// The numbers of a row.
pub open spec fn row(i: Numbers, x: Term, b: int, n: int) -> Seq<real> {
    Seq::new(x.shape()->S3_2 as nat, |k: int| i.at(x, b, n, k))
}

/// A normalization brings every row to mean zero and variance one, where the number that is added
/// to the variance does not matter, and then stretches and shifts every column as the checkpoint
/// says.
pub proof fn lemma_normalized(
    i: Numbers,
    norm: LayerNorm,
    vb: ScopeView,
    size: usize,
    eps: Real,
    x: Term,
    b: int,
    n: int,
    c: int,
)
    requires
        norm.loaded(vb, size, eps),
        term::typ(norm.output(x)) is Some,
        x.shape() is S3,
        holds(x, b, n, c),
    ensures
        term::typ(norm.output(x)) == term::typ(x),
        x.shape()->S3_2 == size,
        i.at(norm.output(x), b, n, c) == (i.at(x, b, n, c) - numbers::mean(row(i, x, b, n)))
            / (i.function)(
            Unary::Sqrt,
            numbers::variance(row(i, x, b, n)) + (i.scalar)(Scalar::Value(eps)),
        ) * i.values(vb.tensor("weight"@, Shape::S1(size)))(c) + i.values(
            vb.tensor("bias"@, Shape::S1(size)),
        )(c),
{
    assert(term::typ(norm.output(x)) == term::typ(x) && x.shape()->S3_2 == size) by {
        broadcast use crate::tensor::term::typing_rules;

    }
    numbers::values_three(i, x, norm.weight@, norm.bias@, Op3::LayerNorm(norm.eps));
    let q = b * x.shape()->S3_1 + n;
    let m = x.shape()->S3_2 as int;
    vstd::arithmetic::div_mod::lemma_fundamental_div_mod_converse(q * m + c, m, q, c);
    assert(numbers::line(i.values(x), m, q) =~= row(i, x, b, n));
}

/// The numbers of the channels at a place.
pub open spec fn column(i: Numbers, x: Term, b: int, t: int) -> Seq<real> {
    Seq::new(x.shape()->S3_1 as nat, |k: int| i.at(x, b, k, t))
}

/// A normalization over the channels.
pub proof fn lemma_normalized_channels(
    i: Numbers,
    norm: LayerNorm,
    vb: ScopeView,
    size: usize,
    eps: Real,
    x: Term,
    b: int,
    c: int,
    t: int,
)
    requires
        norm.loaded(vb, size, eps),
        term::typ(separable::normalized_channels(norm, x)) is Some,
        x.shape() is S3,
        holds(x, b, c, t),
    ensures
        term::typ(separable::normalized_channels(norm, x)) == term::typ(x),
        x.shape()->S3_1 == size,
        i.at(separable::normalized_channels(norm, x), b, c, t) == (i.at(x, b, c, t)
            - numbers::mean(column(i, x, b, t))) / (i.function)(
            Unary::Sqrt,
            numbers::variance(column(i, x, b, t)) + (i.scalar)(Scalar::Value(eps)),
        ) * i.values(vb.tensor("weight"@, Shape::S1(size)))(c) + i.values(
            vb.tensor("bias"@, Shape::S1(size)),
        )(c),
{
    let turned = x.transpose(1, 2);
    let y = norm.output(turned);
    channels::lemma_turned(i, x, b, c, t);
    lemma_normalized(i, norm, vb, size, eps, turned, b, t, c);
    assert(holds(y, b, t, c));
    channels::lemma_turned(i, y, b, t, c);
    assert(term::typ(y.transpose(1, 2)) == term::typ(x)) by {
        broadcast use crate::tensor::term::typing_rules;

        term::lemma_typ_fits(&x);
    }
    let (r, s) = (row(i, turned, b, t), column(i, x, b, t));
    assert forall|k: int| 0 <= k < r.len() implies r[k] == s[k] by {
        channels::lemma_turned(i, x, b, k, t);
    }
    assert(r =~= s);
}

/// Every token has the row of the table that its identifier names.
pub proof fn lemma_embedded(
    i: Numbers,
    layer: Embedding,
    tokens: usize,
    size: usize,
    vb: ScopeView,
    ids: Term,
    b: int,
    n: int,
    c: int,
)
    requires
        layer.table@ == vb.tensor("weight"@, Shape::S2(tokens, size)),
        term::typ(layer.output(ids)) is Some,
        ids.shape() is S2,
        0 <= b < ids.shape()->S2_0,
        0 <= n < ids.shape()->S2_1,
        0 <= c < size,
    ensures
        layer.output(ids).shape() == Shape::S3(ids.shape()->S2_0, ids.shape()->S2_1, size),
        i.at(layer.output(ids), b, n, c) == i.values(vb.tensor("weight"@, Shape::S2(tokens, size)))(
            i.values(ids)(b * ids.shape()->S2_1 + n).floor() * size + c,
        ),
{
    let table = layer.table@;
    assert(table.shape() == Shape::S2(tokens, size) && layer.output(ids).shape() == Shape::S3(
        ids.shape()->S2_0,
        ids.shape()->S2_1,
        size,
    )) by {
        broadcast use crate::tensor::term::typing_rules;

    }
    numbers::values_two(i, table, ids, Op2::Embedding);
    let q = b * ids.shape()->S2_1 + n;
    vstd::arithmetic::div_mod::lemma_fundamental_div_mod_converse(
        q * (size as int) + c,
        size as int,
        q,
        c,
    );
}

} // verus!
