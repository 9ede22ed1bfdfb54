//! What the encoder of the text computes, where arithmetic is exact.

use vstd::prelude::*;

use crate::config::VitsConfig;
use crate::model::attention::VitsAttention;
use crate::model::channels;
use crate::model::channels::holds;
use crate::model::layer_laws;
use crate::model::layer_laws::{kernel_line, kernel_sum, sequence};
use crate::model::lengths;
use crate::model::numbers;
use crate::model::numbers::Numbers;
use crate::model::positions;
use crate::model::shapes;
use crate::model::spline_laws;
use crate::model::text_encoder;
use crate::model::text_encoder::{
    VitsEncoder, VitsEncoderLayer, VitsFeedForward, VitsTextEncoder,
};
use crate::nn;
use crate::nn::{Conv1d, LayerNorm, ScopeView};
use crate::tensor::index;
use crate::tensor::ops::{Op1, Op3};
use crate::tensor::places;
use crate::tensor::scalar;
use crate::tensor::scalar::{Real, Scalar, LEAST_SINGLE_BITS, ZERO_BITS};
use crate::tensor::shape::Shape;
use crate::tensor::term;
use crate::tensor::term::Term;
use crate::tensor::typing::{Binary, Comparison, DType, Unary};

verus! {

broadcast use {
    crate::tensor::term::strictness,
    crate::model::attention::strict_attention,
};

/// Zeros before and behind every line.
proof fn lemma_padded(i: Numbers, x: Term, left: usize, right: usize, b: int, c: int, s: int)
    requires
        (i.scalar)(scalar::scalar(ZERO_BITS)) == 0real,
        term::typ(text_encoder::zero_padded(x, left, right)) is Some,
        x.shape() is S3,
        0 <= b < x.shape()->S3_0,
        0 <= c < x.shape()->S3_1,
        0 <= s < left + x.shape()->S3_2 + right,
    ensures
        i.at(text_encoder::zero_padded(x, left, right), b, c, s) == if left <= s < left
            + x.shape()->S3_2 {
            i.at(x, b, c, s - left)
        } else {
            0real
        },
{
    let y = text_encoder::zero_padded(x, left, right);
    let (batch, channels, len) = (x.shape()->S3_0, x.shape()->S3_1, x.shape()->S3_2);
    let before = Term::zeros(x.dtype(), Shape::S3(batch, channels, left));
    let front = if left > 0 {
        before.concat(x, 2)
    } else {
        x
    };
    let behind = Term::zeros(x.dtype(), Shape::S3(batch, channels, right));
    lemma_padded_shape(x, left, right);
    assert(y == if right > 0 {
        front.concat(behind, 2)
    } else {
        front
    });
    assert(before.shape() == Shape::S3(batch, channels, left) || left == 0) by {
        broadcast use crate::tensor::term::typing_rules;

    }
    assert(behind.shape() == Shape::S3(batch, channels, right) || right == 0) by {
        broadcast use crate::tensor::term::typing_rules;

    }
    assert(i.values(before)(0) == 0real && forall|p: int| #[trigger] i.values(before)(p) == 0real
        && forall|p: int| #[trigger] i.values(behind)(p) == 0real) by {
        broadcast use crate::model::numbers::number_rules;

    }
    if right > 0 {
        lemma_joined_lines(i, front, behind, b, c, s);
    }
    if left > 0 && s < left + len {
        lemma_joined_lines(i, before, x, b, c, s);
    }
}

proof fn lemma_padded_shape(x: Term, left: usize, right: usize)
    requires
        term::typ(text_encoder::zero_padded(x, left, right)) is Some,
        x.shape() is S3,
    ensures
        ({
            let (batch, channels, len) = (x.shape()->S3_0, x.shape()->S3_1, x.shape()->S3_2);
            let before = Term::zeros(x.dtype(), Shape::S3(batch, channels, left));
            let front = if left > 0 {
                before.concat(x, 2)
            } else {
                x
            };
            let behind = Term::zeros(x.dtype(), Shape::S3(batch, channels, right));
            &&& term::typ(x) is Some
            &&& left + len + right <= usize::MAX
            &&& text_encoder::zero_padded(x, left, right) == if right > 0 {
                front.concat(behind, 2)
            } else {
                front
            }
            &&& term::typ(front) is Some
            &&& front.shape() == Shape::S3(batch, channels, (left + len) as usize)
            &&& text_encoder::zero_padded(x, left, right).shape() == Shape::S3(
                batch,
                channels,
                (left + len + right) as usize,
            )
        }),
{
    broadcast use crate::tensor::term::typing_rules;

}

/// Lines of two tensors, one behind the other.
proof fn lemma_joined_lines(i: Numbers, x: Term, y: Term, b: int, c: int, s: int)
    requires
        term::typ(x.concat(y, 2)) is Some,
        x.shape() is S3,
        y.shape() is S3,
        0 <= s < x.shape()->S3_2 + y.shape()->S3_2,
    ensures
        i.at(x.concat(y, 2), b, c, s) == if s < x.shape()->S3_2 {
            i.at(x, b, c, s)
        } else {
            i.at(y, b, c, s - x.shape()->S3_2)
        },
{
    broadcast use crate::model::numbers::number_rules;

    index::lemma_concat_shape(x, y, 2);
    let q = b * x.shape()->S3_1 + c;
    let n = x.shape()->S3_2 + y.shape()->S3_2;
    index::lemma_place(n, 1, q, s, 0);
}

/// A kernel over lines with zeros around them.
proof fn lemma_padded_kernel(
    i: Numbers,
    x: Term,
    left: usize,
    right: usize,
    w: spec_fn(int) -> real,
    kernel: int,
    b: int,
    o: int,
    t: int,
)
    requires
        (i.scalar)(scalar::scalar(ZERO_BITS)) == 0real,
        term::typ(text_encoder::zero_padded(x, left, right)) is Some,
        x.shape() is S3,
        0 <= b < x.shape()->S3_0,
        kernel >= 0,
        0 <= t,
        t + kernel <= left + x.shape()->S3_2 + right,
    ensures
        kernel_sum(
            sequence(i, text_encoder::zero_padded(x, left, right), b),
            x.shape()->S3_1 as int,
            left + x.shape()->S3_2 + right,
            w,
            kernel,
            1,
            0,
            o,
            t,
        ) == kernel_sum(
            sequence(i, x, b),
            x.shape()->S3_1 as int,
            x.shape()->S3_2 as int,
            w,
            kernel,
            1,
            left as int,
            o,
            t,
        ),
{
    let y = text_encoder::zero_padded(x, left, right);
    let (inner, len) = (x.shape()->S3_1 as int, x.shape()->S3_2 as int);
    let wide = left + len + right;
    let (f, g) = (sequence(i, y, b), sequence(i, x, b));
    let r = Seq::new(
        inner as nat,
        |c: int| spline_laws::sum(kernel_line(f, wide, w, kernel, 1, 0, c, o * inner + c, t)),
    );
    let s = Seq::new(
        inner as nat,
        |c: int|
            spline_laws::sum(
                kernel_line(g, len, w, kernel, 1, left as int, c, o * inner + c, t),
            ),
    );
    assert forall|c: int| 0 <= c < r.len() implies #[trigger] r[c] == s[c] by {
        let (k, l) = (
            kernel_line(f, wide, w, kernel, 1, 0, c, o * inner + c, t),
            kernel_line(g, len, w, kernel, 1, left as int, c, o * inner + c, t),
        );
        assert forall|j: int| 0 <= j < k.len() implies #[trigger] k[j] == l[j] by {
            let at = t + j * 1 - 0;
            assert(at == t + j);
            assert(t + j * 1 - left == t + j - left);
            lemma_padded(i, x, left, right, b, c, t + j);
            let z = w((o * inner + c) * kernel + j);
            assert(0real * z == 0real) by (nonlinear_arith);
        }
        assert(k =~= l);
    }
    channels::lemma_same_sum(r, s);
}

/// A function of a single number, by its name in the configuration.
pub open spec fn activation(i: Numbers, name: Seq<char>, x: real) -> real {
    if name == "relu"@ {
        if x >= 0real {
            x
        } else {
            0real
        }
    } else if name == "gelu"@ {
        (i.function)(Unary::GeluErf, x)
    } else if name == "tanh"@ {
        (i.function)(Unary::Tanh, x)
    } else {
        x / (1real + (i.exponential)(-x))
    }
}

/// The nonlinear function is the one that the configuration names, of which there are four.
pub proof fn lemma_activated(
    i: Numbers,
    m: VitsFeedForward,
    config: VitsConfig,
    vb: ScopeView,
    x: Term,
    b: int,
    c: int,
    t: int,
)
    requires
        m.loaded(config, vb),
        term::typ(m.activated(x)) is Some,
        x.shape() is S3,
    ensures
        term::typ(m.activated(x)) == term::typ(x),
        config.hidden_act@ == "relu"@ || config.hidden_act@ == "gelu"@ || config.hidden_act@
            == "tanh"@ || config.hidden_act@ == "silu"@,
        i.at(m.activated(x), b, c, t) == activation(i, config.hidden_act@, i.at(x, b, c, t)),
{
    let name = config.hidden_act@;
    if name == "relu"@ {
        channels::lemma_applied(i, x, Unary::Relu, b, c, t);
    } else if name == "gelu"@ {
        channels::lemma_applied(i, x, Unary::GeluErf, b, c, t);
    } else if name == "tanh"@ {
        channels::lemma_applied(i, x, Unary::Tanh, b, c, t);
    } else if name == "silu"@ {
        channels::lemma_applied(i, x, Unary::Silu, b, c, t);
    } else {
        assert(m.activated(x) == Term::undefined());
    }
}

/// What the first convolution of a feed-forward layer gives, under the nonlinear function: a kernel
/// whose middle lies at the place, over the masked numbers, with the weights that the checkpoint
/// calls `conv_1`.
pub open spec fn fed(
    i: Numbers,
    config: VitsConfig,
    vb: ScopeView,
    x: Term,
    mask: Term,
    b: int,
) -> spec_fn(int, int) -> real {
    let kernel = config.ffn_kernel_size;
    let scope = vb.pp("conv_1"@);
    |o: int, t: int|
        activation(
            i,
            config.hidden_act@,
            kernel_sum(
                |c: int, s: int| i.at(x, b, s, c) * i.at(mask, b, s, 0),
                config.hidden_size as int,
                x.shape()->S3_1 as int,
                i.values(
                    scope.tensor(
                        "weight"@,
                        Shape::S3(config.ffn_dim, config.hidden_size, kernel),
                    ),
                ),
                kernel as int,
                1,
                (kernel - 1) / 2,
                o,
                t,
            ) + i.values(scope.tensor("bias"@, Shape::S1(config.ffn_dim)))(o),
        )
}

/// What a feed-forward layer gives: a kernel whose middle lies at the place, over the masked output
/// of the first convolution, with the weights that the checkpoint calls `conv_2`, under the mask.
pub open spec fn fed_forward(
    i: Numbers,
    config: VitsConfig,
    vb: ScopeView,
    x: Term,
    mask: Term,
    b: int,
    n: int,
    c: int,
) -> real {
    let kernel = config.ffn_kernel_size;
    let scope = vb.pp("conv_2"@);
    (kernel_sum(
        |o: int, s: int| fed(i, config, vb, x, mask, b)(o, s) * i.at(mask, b, s, 0),
        config.ffn_dim as int,
        x.shape()->S3_1 as int,
        i.values(
            scope.tensor("weight"@, Shape::S3(config.hidden_size, config.ffn_dim, kernel)),
        ),
        kernel as int,
        1,
        (kernel - 1) / 2,
        c,
        n,
    ) + i.values(scope.tensor("bias"@, Shape::S1(config.hidden_size)))(c)) * i.at(mask, b, n, 0)
}

/// A convolution over padded lines, with the weights that the checkpoint holds.
proof fn lemma_conv_of_padded(
    i: Numbers,
    conv: Conv1d,
    vb: ScopeView,
    inner: usize,
    outer: usize,
    kernel: usize,
    x: Term,
    left: usize,
    right: usize,
    b: int,
    o: int,
    t: int,
)
    requires
        (i.scalar)(scalar::scalar(ZERO_BITS)) == 0real,
        conv.loaded(vb, inner, outer, kernel, nn::plain_conv()),
        left + right == kernel - 1,
        x.shape() is S3,
        term::typ(conv.output(text_encoder::zero_padded(x, left, right))) is Some,
        0 <= b < x.shape()->S3_0,
        0 <= o < outer,
        0 <= t < x.shape()->S3_2,
    ensures
        x.shape()->S3_1 == inner,
        conv.output(text_encoder::zero_padded(x, left, right)).shape() == Shape::S3(
            x.shape()->S3_0,
            outer,
            x.shape()->S3_2,
        ),
        i.at(conv.output(text_encoder::zero_padded(x, left, right)), b, o, t) == kernel_sum(
            sequence(i, x, b),
            inner as int,
            x.shape()->S3_2 as int,
            i.values(vb.tensor("weight"@, Shape::S3(outer, inner, kernel))),
            kernel as int,
            1,
            left as int,
            o,
            t,
        ) + i.values(vb.tensor("bias"@, Shape::S1(outer)))(o),
{
    let y = text_encoder::zero_padded(x, left, right);
    lemma_conv_of_padded_shape(conv, vb, inner, outer, kernel, x, left, right);
    lengths::lemma_tensor_shape(vb, "weight"@, Shape::S3(outer, inner, kernel));
    assert(conv.bias->0@.shape() == Shape::S1(outer)) by {
        broadcast use crate::tensor::term::typing_rules;

    }
    assert(holds(conv.output(y), b, o, t));
    layer_laws::lemma_whole_conv(i, conv, y, b, o, t);
    lemma_padded_shape(x, left, right);
    let w = i.values(vb.tensor("weight"@, Shape::S3(outer, inner, kernel)));
    lemma_padded_kernel(i, x, left, right, w, kernel as int, b, o, t);
}

proof fn lemma_conv_of_padded_shape(
    conv: Conv1d,
    vb: ScopeView,
    inner: usize,
    outer: usize,
    kernel: usize,
    x: Term,
    left: usize,
    right: usize,
)
    requires
        conv.loaded(vb, inner, outer, kernel, nn::plain_conv()),
        left + right == kernel - 1,
        x.shape() is S3,
        term::typ(conv.output(text_encoder::zero_padded(x, left, right))) is Some,
    ensures
        x.shape()->S3_1 == inner,
        conv.output(text_encoder::zero_padded(x, left, right)).shape() == Shape::S3(
            x.shape()->S3_0,
            outer,
            x.shape()->S3_2,
        ),
{
    let y = text_encoder::zero_padded(x, left, right);
    assert(term::typ(y) is Some);
    lemma_padded_shape(x, left, right);
    lengths::lemma_tensor_shape(vb, "weight"@, Shape::S3(outer, inner, kernel));
    assert(conv.bias->0@.shape() == Shape::S1(outer)) by {
        broadcast use crate::tensor::term::typing_rules;

    }
    lengths::lemma_conv_shape(conv, y, outer, inner, kernel);
    assert(y.shape()->S3_1 == inner) by {
        broadcast use crate::tensor::term::typing_rules;

    }
    let n = y.shape()->S3_2 + 2 * 0 - 1 * (kernel - 1) - 1;
    assert(n / 1 == n);
    assert(1 * (kernel - 1) == kernel - 1);
}

/// A feed-forward layer is two convolutions with the nonlinear function between them, where every
/// place that does not count is zero.
pub proof fn lemma_feed_forward(
    i: Numbers,
    m: VitsFeedForward,
    config: VitsConfig,
    vb: ScopeView,
    x: Term,
    mask: Term,
    b: int,
    n: int,
    c: int,
)
    requires
        (i.scalar)(scalar::scalar(ZERO_BITS)) == 0real,
        m.loaded(config, vb),
        config.ffn_kernel_size >= 1,
        term::typ(m.output(x, mask)) is Some,
        x.shape() is S3,
        mask.shape() == Shape::S3(x.shape()->S3_0, x.shape()->S3_1, 1),
        holds(x, b, n, c),
    ensures
        x.shape()->S3_2 == config.hidden_size,
        m.output(x, mask).shape() == x.shape(),
        i.at(m.output(x, mask), b, n, c) == fed_forward(i, config, vb, x, mask, b, n, c),
{
    reveal(VitsFeedForward::output);
    let (batch, len) = (x.shape()->S3_0, x.shape()->S3_1);
    let kernel = config.ffn_kernel_size;
    let (left, right) = (m.pad_left, m.pad_right);
    let (size, wide) = (config.hidden_size, config.ffn_dim);
    let turned = mask.transpose(1, 2).contiguous();
    let lines = x.transpose(1, 2).contiguous();
    let masked = lines.broadcast_mul(turned);
    let first = m.conv_1.output(text_encoder::zero_padded(masked, left, right));
    let active = m.activated(first);
    let inner = active.broadcast_mul(turned);
    let second = m.conv_2.output(text_encoder::zero_padded(inner, left, right));
    let hidden = second.broadcast_mul(turned);
    assert(m.output(x, mask) == hidden.transpose(1, 2).contiguous());
    assert(term::typ(hidden) is Some);
    assert(term::typ(second) is Some && term::typ(turned) is Some);
    assert(term::typ(text_encoder::zero_padded(inner, left, right)) is Some);
    assert(term::typ(inner) is Some) by {
        broadcast use crate::tensor::term::typing_rules;

    }
    assert(term::typ(active) is Some);
    assert(term::typ(first) is Some);
    assert(term::typ(text_encoder::zero_padded(masked, left, right)) is Some);
    assert(term::typ(masked) is Some) by {
        broadcast use crate::tensor::term::typing_rules;

    }
    assert(term::typ(lines) is Some);
    shapes::lemma_turned(mask);
    shapes::lemma_turned(x);
    shapes::lemma_masked(lines, turned, batch, len);
    assert(left + right == kernel - 1);
    assert(left == (kernel - 1) / 2);
    lemma_conv_of_padded_shape(
        m.conv_1,
        vb.pp("conv_1"@),
        size,
        wide,
        kernel,
        masked,
        left,
        right,
    );
    lemma_activated(i, m, config, vb, first, b, 0, 0);
    shapes::lemma_masked(active, turned, batch, len);
    lemma_conv_of_padded_shape(
        m.conv_2,
        vb.pp("conv_2"@),
        wide,
        size,
        kernel,
        inner,
        left,
        right,
    );
    shapes::lemma_masked(second, turned, batch, len);
    shapes::lemma_turned(hidden);
    assert(holds(hidden, b, c, n));
    channels::lemma_turned(i, hidden, b, c, n);
    channels::lemma_masked(i, second, turned, b, c, n);
    assert forall|s: int| 0 <= s < len implies #[trigger] i.at(turned, b, 0, s) == i.at(
        mask,
        b,
        s,
        0,
    ) by {
        channels::lemma_turned(i, mask, b, s, 0);
    }
    lemma_conv_of_padded(
        i,
        m.conv_2,
        vb.pp("conv_2"@),
        wide,
        size,
        kernel,
        inner,
        left,
        right,
        b,
        c,
        n,
    );
    let w1 = i.values(vb.pp("conv_1"@).tensor("weight"@, Shape::S3(wide, size, kernel)));
    let w2 = i.values(vb.pp("conv_2"@).tensor("weight"@, Shape::S3(size, wide, kernel)));
    let h = fed(i, config, vb, x, mask, b);
    let g = |o: int, s: int| h(o, s) * i.at(mask, b, s, 0);
    let f = sequence(i, inner, b);
    let e = |k: int, q: int| i.at(x, b, q, k) * i.at(mask, b, q, 0);
    let d = sequence(i, masked, b);
    assert forall|k: int, q: int| 0 <= k < size && 0 <= q < len implies #[trigger] d(k, q) == e(
        k,
        q,
    ) by {
        assert(holds(lines, b, k, q));
        channels::lemma_masked(i, lines, turned, b, k, q);
        channels::lemma_turned(i, x, b, q, k);
        assert(i.at(turned, b, 0, q) == i.at(mask, b, q, 0));
    }
    assert forall|o: int, s: int| 0 <= o < wide && 0 <= s < len implies #[trigger] f(o, s) == g(
        o,
        s,
    ) by {
        assert(holds(active, b, o, s));
        channels::lemma_masked(i, active, turned, b, o, s);
        assert(i.at(turned, b, 0, s) == i.at(mask, b, s, 0));
        lemma_activated(i, m, config, vb, first, b, o, s);
        lemma_conv_of_padded(
            i,
            m.conv_1,
            vb.pp("conv_1"@),
            size,
            wide,
            kernel,
            masked,
            left,
            right,
            b,
            o,
            s,
        );
        layer_laws::lemma_same_kernel_sum(
            d,
            e,
            size as int,
            len as int,
            w1,
            kernel as int,
            1,
            left as int,
            o,
            s,
        );
    }
    layer_laws::lemma_same_kernel_sum(
        f,
        g,
        wide as int,
        len as int,
        w2,
        kernel as int,
        1,
        left as int,
        c,
        n,
    );
}

/// What is added to the score of two places: nothing where the mask of the second is one, and the
/// least number elsewhere.
pub proof fn lemma_additive_mask(i: Numbers, mask: Term, b: int, r: int, j: int)
    requires
        i.reckons(),
        term::typ(text_encoder::additive_mask(mask)) is Some,
        mask.shape() is S2,
        0 <= b < mask.shape()->S2_0,
        0 <= r < mask.shape()->S2_1,
        0 <= j < mask.shape()->S2_1,
    ensures
        ({
            let len = mask.shape()->S2_1 as int;
            &&& text_encoder::additive_mask(mask).shape() == Shape::S4(
                mask.shape()->S2_0,
                1,
                mask.shape()->S2_1,
                mask.shape()->S2_1,
            )
            &&& numbers::element(i.values(text_encoder::additive_mask(mask)), len, len, b, r, j)
                == if i.values(mask)(b * len + j) == 1real {
                0real
            } else {
                (i.scalar)(Scalar::Value(Real { bits: 0xC7EF_FFFF_E000_0000 }))
            }
        }),
{
    let (batch, len) = (mask.shape()->S2_0, mask.shape()->S2_1);
    let low = Shape::S4(batch, 1, 1, len);
    let square = Shape::S4(batch, 1, len, len);
    let reshaped = mask.reshape(low);
    let cast = reshaped.cast(DType::F32);
    let inverted = cast.one_minus();
    let masked = inverted.compare_scalar(Comparison::Ne, scalar::scalar(ZERO_BITS));
    let least = Term::full(scalar::scalar(LEAST_SINGLE_BITS), DType::F32, inverted.shape());
    let zeros = inverted.zeros_like();
    let chosen = masked.select(least, zeros);
    assert(text_encoder::additive_mask(mask) == chosen.expand(square));
    assert(chosen.shape() == low && chosen.expand(square).shape() == square && term::typ(
        inverted,
    ) is Some) by {
        broadcast use crate::tensor::term::typing_rules;

    }
    let ln = len as int;
    let p = positions::at3(ln, ln, b, r, j);
    assert(p == ((b * 1 + 0) * ln + r) * ln + j);
    numbers::values_one(i, chosen, Op1::Expand(square));
    places::lemma_repeated_4(low, square, b, 0, r, j);
    channels::lemma_only(batch, batch, b);
    channels::lemma_only(len, len, j);
    let q = ((b * 1 + 0) * 1 + 0) * ln + j;
    assert(q == b * ln + j);
    let x = i.values(mask)(q);
    assert(i.values(inverted)(q) == x * -1real + 1real && i.values(least)(q) == (i.scalar)(
        scalar::scalar(LEAST_SINGLE_BITS),
    ) && i.values(zeros)(q) == 0real && i.values(masked)(q) == numbers::compared(
        Comparison::Ne,
        i.values(inverted)(q),
        0real,
    )) by {
        broadcast use crate::model::numbers::number_rules;

    }
    assert(x * -1real + 1real == 1real - x) by (nonlinear_arith);
    numbers::values_three(i, masked, least, zeros, Op3::Select);
}

/// A number of a row, brought to mean zero and variance one as far as the number that is added to
/// the variance does not matter, then stretched and shifted as the checkpoint says.
pub open spec fn normal(
    i: Numbers,
    vb: ScopeView,
    size: usize,
    eps: Real,
    x: Term,
    b: int,
    n: int,
    c: int,
) -> real {
    let s = layer_laws::row(i, x, b, n);
    (i.at(x, b, n, c) - numbers::mean(s)) / (i.function)(
        Unary::Sqrt,
        numbers::variance(s) + (i.scalar)(Scalar::Value(eps)),
    ) * i.values(vb.tensor("weight"@, Shape::S1(size)))(c) + i.values(
        vb.tensor("bias"@, Shape::S1(size)),
    )(c)
}

/// Whether `y` is `x` plus something, normalized with the weights that the checkpoint holds under a
/// name.
pub open spec fn adds_and_normalizes(
    i: Numbers,
    config: VitsConfig,
    vb: ScopeView,
    x: Term,
    added: spec_fn(int, int, int) -> real,
    y: Term,
) -> bool {
    exists|sum: Term|
        {
            &&& #[trigger] adds(i, x, added, sum)
            &&& term::typ(y) == term::typ(x)
            &&& forall|b: int, n: int, c: int| #[trigger]
                holds(x, b, n, c) ==> i.at(y, b, n, c) == normal(
                    i,
                    vb,
                    config.hidden_size,
                    config.layer_norm_eps,
                    sum,
                    b,
                    n,
                    c,
                )
        }
}

/// Whether `sum` is `x` plus something.
pub open spec fn adds(
    i: Numbers,
    x: Term,
    added: spec_fn(int, int, int) -> real,
    sum: Term,
) -> bool {
    &&& term::typ(sum) == term::typ(x)
    &&& forall|b: int, n: int, c: int| #[trigger]
        holds(x, b, n, c) ==> i.at(sum, b, n, c) == i.at(x, b, n, c) + added(b, n, c)
}

proof fn lemma_adds_and_normalizes(
    i: Numbers,
    norm: LayerNorm,
    config: VitsConfig,
    vb: ScopeView,
    x: Term,
    other: Term,
    added: spec_fn(int, int, int) -> real,
)
    requires
        norm.loaded(vb, config.hidden_size, config.layer_norm_eps),
        term::typ(norm.output(x.add(other))) is Some,
        x.shape() is S3,
        forall|b: int, n: int, c: int|
            holds(x, b, n, c) ==> #[trigger] added(b, n, c) == i.at(other, b, n, c),
    ensures
        adds_and_normalizes(i, config, vb, x, added, norm.output(x.add(other))),
        term::typ(norm.output(x.add(other))) == term::typ(x),
{
    let sum = x.add(other);
    let y = norm.output(sum);
    assert(term::typ(sum) is Some);
    assert(term::typ(sum) == term::typ(x) && term::typ(y) == term::typ(sum)) by {
        broadcast use crate::tensor::term::typing_rules;

    }
    assert forall|b: int, n: int, c: int| #[trigger] holds(x, b, n, c) implies i.at(sum, b, n, c)
        == i.at(x, b, n, c) + added(b, n, c) by {
        channels::lemma_zip(i, x, other, Binary::Add, b, n, c);
    }
    assert(adds(i, x, added, sum));
    assert forall|b: int, n: int, c: int| #[trigger] holds(x, b, n, c) implies i.at(y, b, n, c)
        == normal(i, vb, config.hidden_size, config.layer_norm_eps, sum, b, n, c) by {
        assert(holds(sum, b, n, c));
        layer_laws::lemma_normalized(
            i,
            norm,
            vb,
            config.hidden_size,
            config.layer_norm_eps,
            sum,
            b,
            n,
            c,
        );
    }
}

/// The numbers of a tensor, by coordinates.
pub open spec fn numbers_of(i: Numbers, x: Term) -> spec_fn(int, int, int) -> real {
    |b: int, n: int, c: int| i.at(x, b, n, c)
}

/// What a feed-forward layer gives, by coordinates.
pub open spec fn fed_forward_of(
    i: Numbers,
    config: VitsConfig,
    vb: ScopeView,
    x: Term,
    mask: Term,
) -> spec_fn(int, int, int) -> real {
    |b: int, n: int, c: int| fed_forward(i, config, vb, x, mask, b, n, c)
}

/// Whether a layer of the encoder has made of `x` what `y` is: attention is added and the sum
/// normalized, then the feed-forward layer is added and the sum normalized.
pub open spec fn layer_makes(
    i: Numbers,
    attention: VitsAttention,
    config: VitsConfig,
    vb: ScopeView,
    x: Term,
    mask: Term,
    attention_mask: Option<Term>,
    y: Term,
) -> bool {
    exists|attended: Term|
        {
            &&& #[trigger] adds_and_normalizes(
                i,
                config,
                vb.pp("layer_norm"@),
                x,
                numbers_of(i, attention.output(x, attention_mask)),
                attended,
            )
            &&& adds_and_normalizes(
                i,
                config,
                vb.pp("final_layer_norm"@),
                attended,
                fed_forward_of(i, config, vb.pp("feed_forward"@), attended, mask),
                y,
            )
        }
}

/// A layer of the encoder.
pub proof fn lemma_encoder_layer(
    i: Numbers,
    layer: VitsEncoderLayer,
    config: VitsConfig,
    vb: ScopeView,
    x: Term,
    mask: Term,
    attention_mask: Option<Term>,
)
    requires
        (i.scalar)(scalar::scalar(ZERO_BITS)) == 0real,
        layer.loaded(config, vb),
        config.ffn_kernel_size >= 1,
        term::typ(layer.output(x, mask, attention_mask)) is Some,
        x.shape() is S3,
        mask.shape() == Shape::S3(x.shape()->S3_0, x.shape()->S3_1, 1),
    ensures
        term::typ(layer.output(x, mask, attention_mask)) == term::typ(x),
        layer_makes(
            i,
            layer.attention,
            config,
            vb,
            x,
            mask,
            attention_mask,
            layer.output(x, mask, attention_mask),
        ),
{
    reveal(VitsEncoderLayer::output);
    let seen = layer.attention.output(x, attention_mask);
    let attended = layer.layer_norm.output(x.add(seen));
    let fed = layer.feed_forward.output(attended, mask);
    assert(term::typ(attended.add(fed)) is Some);
    assert(term::typ(attended) is Some && term::typ(fed) is Some);
    lemma_adds_and_normalizes(
        i,
        layer.layer_norm,
        config,
        vb.pp("layer_norm"@),
        x,
        seen,
        numbers_of(i, seen),
    );
    let added = fed_forward_of(i, config, vb.pp("feed_forward"@), attended, mask);
    assert forall|b: int, n: int, c: int| holds(attended, b, n, c) implies #[trigger] added(b, n, c)
        == i.at(fed, b, n, c) by {
        lemma_feed_forward(
            i,
            layer.feed_forward,
            config,
            vb.pp("feed_forward"@),
            attended,
            mask,
            b,
            n,
            c,
        );
    }
    lemma_adds_and_normalizes(
        i,
        layer.final_layer_norm,
        config,
        vb.pp("final_layer_norm"@),
        attended,
        fed,
        added,
    );
}

/// The layers of the encoder from number `from` on.
proof fn lemma_layers_from(
    i: Numbers,
    encoder: VitsEncoder,
    config: VitsConfig,
    vb: ScopeView,
    from: nat,
    x: Term,
    mask: Term,
    attention_mask: Option<Term>,
) -> (chain: Seq<Term>)
    requires
        (i.scalar)(scalar::scalar(ZERO_BITS)) == 0real,
        encoder.loaded(config, vb),
        config.ffn_kernel_size >= 1,
        from <= encoder.layers@.len(),
        term::typ(encoder.output_from(from, x, mask, attention_mask)) is Some,
        x.shape() is S3,
        mask.shape() == Shape::S3(x.shape()->S3_0, x.shape()->S3_1, 1),
    ensures
        chain.len() == encoder.layers@.len() - from + 1,
        chain.first() == x,
        term::typ(chain.last()) == term::typ(x),
        encoder.output_from(from, x, mask, attention_mask) == chain.last().broadcast_mul(mask),
        forall|k: int|
            from <= k < encoder.layers@.len() ==> layer_makes(
                i,
                (#[trigger] encoder.layers@[k]).attention,
                config,
                vb.item("layers"@, k as nat),
                chain[k - from],
                mask,
                attention_mask,
                chain[k - from + 1],
            ),
    decreases encoder.layers@.len() - from,
{
    if from < encoder.layers@.len() {
        let layer = encoder.layers@[from as int];
        let y = layer.output(x, mask, attention_mask);
        if term::typ(y) is None {
            encoder.lemma_undefined(from + 1, y, mask, attention_mask);
        }
        let scope = vb.item("layers"@, from);
        lemma_encoder_layer(i, layer, config, scope, x, mask, attention_mask);
        let rest = lemma_layers_from(
            i,
            encoder,
            config,
            vb,
            from + 1,
            y,
            mask,
            attention_mask,
        );
        let chain = seq![x] + rest;
        assert(chain.last() == rest.last());
        assert forall|k: int| from <= k < encoder.layers@.len() implies layer_makes(
            i,
            (#[trigger] encoder.layers@[k]).attention,
            config,
            vb.item("layers"@, k as nat),
            chain[k - from],
            mask,
            attention_mask,
            chain[k - from + 1],
        ) by {
            assert(chain[k - from + 1] == rest[k - from]);
            if k == from {
                assert(rest[0] == y && chain[0] == x);
            } else {
                assert(chain[k - from] == rest[k - (from + 1)]);
                assert(rest[k - (from + 1) + 1] == rest[k - from]);
            }
        }
        chain
    } else {
        seq![x]
    }
}

/// What the layers of the encoder are told to look at: what is added to the scores for the mask, if
/// there is one.
pub open spec fn additive(attention_mask: Option<Term>) -> Option<Term> {
    match attention_mask {
        Some(a) => Some(text_encoder::additive_mask(a)),
        None => None,
    }
}

/// The encoder looks up the row that the checkpoint calls `embed_tokens` for every token, times the
/// square root of the hidden size, goes through its layers one after the other, and gives what the
/// last one gives, under the mask.
pub proof fn lemma_hidden(
    i: Numbers,
    encoder: VitsTextEncoder,
    config: VitsConfig,
    vb: ScopeView,
    ids: Term,
    mask: Term,
    attention_mask: Option<Term>,
) -> (chain: Seq<Term>)
    requires
        i.reckons(),
        encoder.loaded(config, vb),
        config.ffn_kernel_size >= 1,
        term::typ(encoder.hidden(ids, mask, attention_mask)) is Some,
        ids.shape() is S2,
        mask.shape() == Shape::S3(ids.shape()->S2_0, ids.shape()->S2_1, 1),
    ensures
        ({
            let (batch, len) = (ids.shape()->S2_0, ids.shape()->S2_1);
            let shape = Shape::S3(batch, len, config.hidden_size);
            let table = i.values(
                vb.pp("embed_tokens"@).tensor(
                    "weight"@,
                    Shape::S2(config.vocab_size, config.hidden_size),
                ),
            );
            &&& chain.len() == config.num_hidden_layers + 1
            &&& term::typ(chain.first()) is Some
            &&& chain.first().shape() == shape
            &&& term::typ(chain.last()) == term::typ(chain.first())
            &&& encoder.hidden(ids, mask, attention_mask).shape() == shape
            &&& forall|b: int, n: int, c: int| #[trigger]
                holds(chain.first(), b, n, c) ==> i.at(chain.first(), b, n, c) == table(
                    i.values(ids)(b * len + n).floor() * config.hidden_size + c,
                ) * (i.scalar)(Scalar::Sqrt(config.hidden_size)) * i.at(mask, b, n, 0) && i.at(
                    encoder.hidden(ids, mask, attention_mask),
                    b,
                    n,
                    c,
                ) == i.at(chain.last(), b, n, c) * i.at(mask, b, n, 0)
            &&& forall|k: int|
                0 <= k < config.num_hidden_layers ==> layer_makes(
                    i,
                    (#[trigger] encoder.encoder.layers@[k]).attention,
                    config,
                    vb.pp("encoder"@).item("layers"@, k as nat),
                    chain[k],
                    mask,
                    additive(attention_mask),
                    chain[k + 1],
                )
        }),
{
    reveal(VitsEncoder::output);
    let (batch, len) = (ids.shape()->S2_0, ids.shape()->S2_1);
    let size = config.hidden_size;
    let rows = encoder.embed_tokens.output(ids);
    let embedded = rows.scale(Scalar::Sqrt(size));
    let start = embedded.broadcast_mul(mask);
    let hidden = encoder.hidden(ids, mask, attention_mask);
    let told = additive(attention_mask);
    if let Some(a) = attention_mask {
        if term::typ(text_encoder::additive_mask(a)) is None {
            assert(hidden == Term::undefined());
        }
    }
    assert(hidden == encoder.encoder.output_from(0, start, mask, told));
    if term::typ(start) is None {
        encoder.encoder.lemma_undefined(0, start, mask, told);
    }
    assert(term::typ(embedded) is Some);
    shapes::lemma_embedded(encoder, vb.pp("embed_tokens"@), config.vocab_size, ids);
    shapes::lemma_masked_places(embedded, mask, batch, len, size);
    let chain = lemma_layers_from(
        i,
        encoder.encoder,
        config,
        vb.pp("encoder"@),
        0,
        start,
        mask,
        told,
    );
    assert(hidden.shape() == start.shape()) by {
        shapes::lemma_masked_places(chain.last(), mask, batch, len, size);
    }
    let table = vb.pp("embed_tokens"@).tensor("weight"@, Shape::S2(config.vocab_size, size));
    assert forall|b: int, n: int, c: int| #[trigger] holds(chain.first(), b, n, c) implies i.at(
        chain.first(),
        b,
        n,
        c,
    ) == i.values(table)(i.values(ids)(b * len + n).floor() * size + c) * (i.scalar)(
        Scalar::Sqrt(size),
    ) * i.at(mask, b, n, 0) && i.at(hidden, b, n, c) == i.at(chain.last(), b, n, c) * i.at(
        mask,
        b,
        n,
        0,
    ) by {
        channels::lemma_masked_places(i, embedded, mask, b, n, c);
        layer_laws::lemma_embedded(
            i,
            encoder.embed_tokens,
            config.vocab_size,
            size,
            vb.pp("embed_tokens"@),
            ids,
            b,
            n,
            c,
        );
        channels::lemma_scaled(i, rows, Scalar::Sqrt(size), b, n, c);
        channels::lemma_masked_places(i, chain.last(), mask, b, n, c);
    }
    chain
}

} // verus!
