//! What the flows compute that durations are drawn with, where arithmetic is exact.

use vstd::prelude::*;

use crate::config::VitsConfig;
use crate::model::channels;
use crate::model::channels::holds;
use crate::model::coupling_laws::mixture;
use crate::model::flows::{VitsConvFlow, VitsElementwiseAffine};
use crate::model::layer_laws;
use crate::model::lengths;
use crate::model::numbers;
use crate::model::numbers::Numbers;
use crate::model::positions;
use crate::model::separable::VitsDilatedDepthSeparableConv;
use crate::model::shapes;
use crate::model::spline;
use crate::model::spline::Spline;
use crate::model::spline_laws;
use crate::nn::ScopeView;
use crate::tensor::index;
use crate::tensor::ops::{Op1, Op2};
use crate::tensor::places;
use crate::tensor::scalar::{Real, Scalar};
use crate::tensor::shape::Shape;
use crate::tensor::term;
use crate::tensor::term::Term;
use crate::tensor::typing::{Binary, Unary};

verus! {

broadcast use {crate::tensor::term::strictness, crate::model::separable::strict_separable};

/// A number for every channel, combined with all numbers of the channel.
proof fn lemma_by_channel(i: Numbers, x: Term, y: Term, f: Binary, b: int, c: int, t: int)
    requires
        term::typ(x.broadcast(y, f)) is Some,
        y.shape() is S2,
        y.shape()->S2_1 == 1,
        y.shape()->S2_0 == 1 || y.shape()->S2_0 == x.shape()->S3_1,
        holds(x, b, c, t),
    ensures
        term::typ(x.broadcast(y, f)) == term::typ(x),
        i.at(x.broadcast(y, f), b, c, t) == spline_laws::combined(
            f,
            i.at(x, b, c, t),
            i.values(y)(places::along(y.shape()->S2_0, c)),
        ),
{
    let joint = x.shape().spec_broadcast(y.shape())->0;
    assert(joint == x.shape() && term::typ(x.broadcast(y, f)) == term::typ(x)) by {
        broadcast use crate::tensor::term::typing_rules;

        term::lemma_typ_fits(&x);
    }
    numbers::values_two(i, x, y, Op2::Broadcast(f));
    places::lemma_repeated_3(x.shape(), joint, b, c, t);
    places::lemma_repeated_3(y.shape(), joint, b, c, t);
    channels::lemma_only(x.shape()->S3_0, x.shape()->S3_0, b);
    channels::lemma_only(x.shape()->S3_1, x.shape()->S3_1, c);
    channels::lemma_only(x.shape()->S3_2, x.shape()->S3_2, t);
    let k = places::along(y.shape()->S2_0, c);
    assert(k * 1 + 0 == k);
}

/// The same, with the number for the channel first.
proof fn lemma_channel_by(i: Numbers, y: Term, x: Term, f: Binary, b: int, c: int, t: int)
    requires
        term::typ(y.broadcast(x, f)) is Some,
        y.shape() is S2,
        y.shape()->S2_1 == 1,
        y.shape()->S2_0 == 1 || y.shape()->S2_0 == x.shape()->S3_1,
        holds(x, b, c, t),
    ensures
        term::typ(y.broadcast(x, f)) == term::typ(x),
        i.at(y.broadcast(x, f), b, c, t) == spline_laws::combined(
            f,
            i.values(y)(places::along(y.shape()->S2_0, c)),
            i.at(x, b, c, t),
        ),
{
    let joint = y.shape().spec_broadcast(x.shape())->0;
    assert(joint == x.shape() && term::typ(y.broadcast(x, f)) == term::typ(x)) by {
        broadcast use crate::tensor::term::typing_rules;

        term::lemma_typ_fits(&x);
    }
    numbers::values_two(i, y, x, Op2::Broadcast(f));
    places::lemma_repeated_3(x.shape(), joint, b, c, t);
    places::lemma_repeated_3(y.shape(), joint, b, c, t);
    channels::lemma_only(x.shape()->S3_0, x.shape()->S3_0, b);
    channels::lemma_only(x.shape()->S3_1, x.shape()->S3_1, c);
    channels::lemma_only(x.shape()->S3_2, x.shape()->S3_2, t);
    let k = places::along(y.shape()->S2_0, c);
    assert(k * 1 + 0 == k);
}

/// Whether the flow that stretches and shifts has made of `x` what `y` is: forwards every number is
/// multiplied by the exponential of what the checkpoint calls `log_scale` for its channel and
/// `translate` is added; backwards `translate` is taken away and the rest divided by that
/// exponential, by way of the exponential of the opposite number.
pub open spec fn stretches_and_shifts(
    i: Numbers,
    config: VitsConfig,
    vb: ScopeView,
    x: Term,
    mask: Term,
    reverse: bool,
    y: Term,
) -> bool {
    let n = config.depth_separable_channels;
    let translate = i.values(vb.tensor("translate"@, Shape::S2(n, 1)));
    let log_scale = i.values(vb.tensor("log_scale"@, Shape::S2(n, 1)));
    &&& term::typ(y) == term::typ(x)
    &&& forall|b: int, c: int, t: int| #[trigger]
        holds(x, b, c, t) ==> {
            let k = places::along(n, c);
            i.at(y, b, c, t) == if reverse {
                (i.at(x, b, c, t) - translate(k)) * (i.exponential)(-log_scale(k)) * i.at(
                    mask,
                    b,
                    0,
                    t,
                )
            } else {
                (translate(k) + (i.exponential)(log_scale(k)) * i.at(x, b, c, t)) * i.at(
                    mask,
                    b,
                    0,
                    t,
                )
            }
        }
}

/// The flow that stretches and shifts.
pub proof fn lemma_affine(
    i: Numbers,
    flow: VitsElementwiseAffine,
    config: VitsConfig,
    vb: ScopeView,
    x: Term,
    mask: Term,
    reverse: bool,
)
    requires
        flow.loaded(config, vb),
        term::typ(flow.output(x, mask, reverse)) is Some,
        x.shape() is S3,
        config.depth_separable_channels == 1 || config.depth_separable_channels
            == x.shape()->S3_1,
        mask.shape() == Shape::S3(x.shape()->S3_0, 1, x.shape()->S3_2),
    ensures
        stretches_and_shifts(i, config, vb, x, mask, reverse, flow.output(x, mask, reverse)),
{
    let n = config.depth_separable_channels;
    let (translate, log_scale) = (flow.translate@, flow.log_scale@);
    let y = flow.output(x, mask, reverse);
    assert(term::typ(translate) is Some && term::typ(log_scale) is Some) by {
        if reverse {
            assert(y == x.broadcast_sub(translate).broadcast_mul(
                log_scale.neg().exp(),
            ).broadcast_mul(mask));
        } else {
            assert(y == translate.broadcast_add(
                log_scale.exp().broadcast_mul(x),
            ).broadcast_mul(mask));
        }
    }
    lengths::lemma_tensor_shape(vb, "translate"@, Shape::S2(n, 1));
    lengths::lemma_tensor_shape(vb, "log_scale"@, Shape::S2(n, 1));
    lemma_affine_types(translate, log_scale, n, x, mask, reverse);
    assert forall|b: int, c: int, t: int| #[trigger] holds(x, b, c, t) implies {
        let k = places::along(n, c);
        i.at(y, b, c, t) == if reverse {
            (i.at(x, b, c, t) - i.values(translate)(k)) * (i.exponential)(-i.values(log_scale)(k))
                * i.at(mask, b, 0, t)
        } else {
            (i.values(translate)(k) + (i.exponential)(i.values(log_scale)(k)) * i.at(x, b, c, t))
                * i.at(mask, b, 0, t)
        }
    } by {
        if reverse {
            let factor = log_scale.neg().exp();
            let shifted = x.broadcast_sub(translate);
            let shrunk = shifted.broadcast_mul(factor);
            lemma_by_channel(i, x, translate, Binary::Sub, b, c, t);
            assert(i.values(factor) == i.values_1(
                Op1::Apply(Unary::Exp),
                log_scale.neg(),
                i.values_1(Op1::Apply(Unary::Neg), log_scale, i.values(log_scale)),
            )) by {
                broadcast use crate::model::numbers::number_rules;

            }
            assert(holds(shifted, b, c, t));
            lemma_by_channel(i, shifted, factor, Binary::Mul, b, c, t);
            assert(holds(shrunk, b, c, t));
            channels::lemma_masked(i, shrunk, mask, b, c, t);
        } else {
            let factor = log_scale.exp();
            let stretched = factor.broadcast_mul(x);
            let shifted = translate.broadcast_add(stretched);
            assert(i.values(factor) == i.values_1(
                Op1::Apply(Unary::Exp),
                log_scale,
                i.values(log_scale),
            )) by {
                broadcast use crate::model::numbers::number_rules;

            }
            lemma_channel_by(i, factor, x, Binary::Mul, b, c, t);
            assert(holds(stretched, b, c, t));
            lemma_channel_by(i, translate, stretched, Binary::Add, b, c, t);
            assert(holds(shifted, b, c, t));
            channels::lemma_masked(i, shifted, mask, b, c, t);
        }
    }
}

proof fn lemma_affine_types(
    translate: Term,
    log_scale: Term,
    n: usize,
    x: Term,
    mask: Term,
    reverse: bool,
)
    requires
        reverse ==> term::typ(
            x.broadcast_sub(translate).broadcast_mul(log_scale.neg().exp()).broadcast_mul(mask),
        ) is Some,
        !reverse ==> term::typ(
            translate.broadcast_add(log_scale.exp().broadcast_mul(x)).broadcast_mul(mask),
        ) is Some,
        term::typ(translate) is Some ==> translate.shape() == Shape::S2(n, 1),
        term::typ(log_scale) is Some ==> log_scale.shape() == Shape::S2(n, 1),
        x.shape() is S3,
        n == 1 || n == x.shape()->S3_1,
        mask.shape() == Shape::S3(x.shape()->S3_0, 1, x.shape()->S3_2),
    ensures
        term::typ(translate) is Some,
        term::typ(log_scale) is Some,
        term::typ(x) is Some,
        log_scale.neg().exp().shape() == Shape::S2(n, 1),
        log_scale.exp().shape() == Shape::S2(n, 1),
        reverse ==> {
            let shifted = x.broadcast_sub(translate);
            &&& term::typ(shifted) == term::typ(x)
            &&& term::typ(shifted.broadcast_mul(log_scale.neg().exp())) == term::typ(x)
            &&& term::typ(
                shifted.broadcast_mul(log_scale.neg().exp()).broadcast_mul(mask),
            ) == term::typ(x)
        },
        !reverse ==> {
            let stretched = log_scale.exp().broadcast_mul(x);
            &&& term::typ(stretched) == term::typ(x)
            &&& term::typ(translate.broadcast_add(stretched)) == term::typ(x)
            &&& term::typ(translate.broadcast_add(stretched).broadcast_mul(mask)) == term::typ(x)
        },
{
    broadcast use crate::tensor::term::typing_rules;

    assert(term::typ(x) is Some);
    term::lemma_typ_fits(&x);
}

/// The summands of the logarithm of the determinant of the flow that stretches and shifts.
pub open spec fn scales(
    i: Numbers,
    config: VitsConfig,
    vb: ScopeView,
    mask: Term,
    b: int,
) -> Seq<real> {
    let n = config.depth_separable_channels;
    let len = mask.shape()->S3_2;
    let log_scale = i.values(vb.tensor("log_scale"@, Shape::S2(n, 1)));
    Seq::new(
        (n * len) as nat,
        |q: int| log_scale(q / (len as int)) * i.at(mask, b, 0, q % (len as int)),
    )
}

/// Forwards, the logarithm of the determinant of the flow that stretches and shifts is for every
/// sequence the sum of `log_scale` over the channels and the places that the mask counts. Backwards
/// there is none.
pub proof fn lemma_affine_determinant(
    i: Numbers,
    flow: VitsElementwiseAffine,
    config: VitsConfig,
    vb: ScopeView,
    mask: Term,
    b: int,
)
    requires
        flow.loaded(config, vb),
        term::typ(flow.log_determinant(mask, false)->0) is Some,
        mask.shape() is S3,
        mask.shape()->S3_1 == 1,
        0 <= b < mask.shape()->S3_0,
    ensures
        flow.log_determinant(mask, true) is None,
        flow.log_determinant(mask, false) is Some,
        flow.log_determinant(mask, false)->0.shape() == Shape::S1(mask.shape()->S3_0),
        i.values(flow.log_determinant(mask, false)->0)(b) == spline_laws::sum(
            scales(i, config, vb, mask, b),
        ),
{
    let n = config.depth_separable_channels;
    let (batch, len) = (mask.shape()->S3_0, mask.shape()->S3_2);
    let log_scale = flow.log_scale@;
    let counted = log_scale.broadcast_mul(mask);
    let total = counted.sum_inner(false);
    let joint = Shape::S3(batch, n, len);
    lengths::lemma_tensor_shape(vb, "log_scale"@, Shape::S2(n, 1));
    assert(counted.shape() == joint && log_scale.shape().spec_broadcast(mask.shape()) == Some(joint)
        && total.shape() == Shape::S1(batch)) by {
        broadcast use crate::tensor::term::typing_rules;

    }
    numbers::values_one(i, counted, Op1::SumInner(false));
    let m = n * len;
    let r = numbers::line(i.values(counted), m, b);
    let s = scales(i, config, vb, mask, b);
    assert(m >= 0) by (nonlinear_arith)
        requires
            m == n * len,
            n >= 0,
            len >= 0,
    ;
    assert forall|q: int| 0 <= q < r.len() implies #[trigger] r[q] == s[q] by {
        let l = len as int;
        assert(l > 0) by (nonlinear_arith)
            requires
                0 <= q < n * l,
                l >= 0,
        ;
        vstd::arithmetic::div_mod::lemma_fundamental_div_mod(q, l);
        let (c, t) = (q / l, q % l);
        assert(0 <= c < n) by (nonlinear_arith)
            requires
                0 <= q < n * l,
                q == l * c + t,
                0 <= t < l,
        ;
        assert(b * m + q == (b * n + c) * l + t) by (nonlinear_arith)
            requires
                m == n * l,
                q == l * c + t,
        ;
        numbers::values_two(i, log_scale, mask, Op2::Broadcast(Binary::Mul));
        places::lemma_repeated_3(log_scale.shape(), joint, b, c, t);
        places::lemma_repeated_3(mask.shape(), joint, b, c, t);
        channels::lemma_only(batch, batch, b);
        channels::lemma_only(len, len, t);
        channels::lemma_only(n, n, c);
        assert(c * 1 + 0 == c);
    }
    channels::lemma_same_sum(r, s);
}

/// What a flow with splines finds on its way: the first convolution, the separable layers, the
/// numbers that describe the splines, their three parts, and the second half of the channels.
pub struct Described {
    pub pre: Term,
    pub hidden: Term,
    pub numbers: Term,
    pub widths: Term,
    pub heights: Term,
    pub slopes: Term,
    pub second: Term,
}

/// Half of the channels.
pub open spec fn half_of(config: VitsConfig) -> usize {
    (config.depth_separable_channels / 2) as usize
}

/// The number of numbers that describe a spline.
pub open spec fn share_of(config: VitsConfig) -> int {
    3 * config.duration_predictor_flow_bins - 1
}

/// Whether the splines are described by a mixture of what the separable layers make of the first
/// half of the channels. The weights have the names `conv_pre`, `conv_dds` and `conv_proj`.
pub open spec fn describes(
    i: Numbers,
    config: VitsConfig,
    vb: ScopeView,
    stack: VitsDilatedDepthSeparableConv,
    x: Term,
    mask: Term,
    cond: Option<Term>,
    d: Described,
) -> bool {
    let (batch, len) = (x.shape()->S3_0, x.shape()->S3_2);
    let outer = (half_of(config) * share_of(config)) as usize;
    &&& stack.loaded(config, Real { bits: 0 }, vb.pp("conv_dds"@))
    &&& term::typ(d.pre) is Some
    &&& d.pre.shape() == Shape::S3(batch, config.hidden_size, len)
    &&& forall|b: int, o: int, t: int| #[trigger]
        holds(d.pre, b, o, t) ==> i.at(d.pre, b, o, t) == mixture(
            i,
            vb.pp("conv_pre"@),
            half_of(config),
            config.hidden_size,
            x,
            b,
            o,
            t,
        )
    &&& d.hidden == stack.output(d.pre, mask, cond)
    &&& term::typ(d.numbers) is Some
    &&& d.numbers.shape() == Shape::S3(batch, outer, len)
    &&& forall|b: int, o: int, t: int| #[trigger]
        holds(d.numbers, b, o, t) ==> i.at(d.numbers, b, o, t) == mixture(
            i,
            vb.pp("conv_proj"@),
            config.hidden_size,
            outer,
            d.hidden,
            b,
            o,
            t,
        ) * i.at(mask, b, 0, t)
}

/// The number with the given coordinates of what describes the splines: number `k` for channel `c`
/// at a place.
pub open spec fn part_at(
    i: Numbers,
    config: VitsConfig,
    x: Term,
    part: Term,
    count: int,
    b: int,
    c: int,
    t: int,
    k: int,
) -> real {
    i.values(part)(
        positions::at3(x.shape()->S3_2 as int, count, b * half_of(config) + c, t, k),
    )
}

/// Whether the numbers that describe the splines are taken apart: for every channel the first are
/// the widths and those behind them the heights, as many of each as there are bins, divided by the
/// square root of the hidden size; the rest are the slopes.
pub open spec fn takes_apart(i: Numbers, config: VitsConfig, x: Term, d: Described) -> bool {
    let (batch, len) = (x.shape()->S3_0, x.shape()->S3_2);
    let bins = config.duration_predictor_flow_bins;
    let root = (i.scalar)(Scalar::Sqrt(config.hidden_size));
    &&& d.widths.shape() == Shape::S4(batch, half_of(config), len, bins)
    &&& d.heights.shape() == Shape::S4(batch, half_of(config), len, bins)
    &&& d.slopes.shape() == Shape::S4(batch, half_of(config), len, (bins - 1) as usize)
    &&& forall|b: int, c: int, t: int, k: int|
        holds(d.second, b, c, t) && 0 <= k < bins ==> #[trigger] part_at(
            i,
            config,
            x,
            d.widths,
            bins as int,
            b,
            c,
            t,
            k,
        ) == i.at(d.numbers, b, c * share_of(config) + k, t) / root
    &&& forall|b: int, c: int, t: int, k: int|
        holds(d.second, b, c, t) && 0 <= k < bins ==> #[trigger] part_at(
            i,
            config,
            x,
            d.heights,
            bins as int,
            b,
            c,
            t,
            k,
        ) == i.at(d.numbers, b, c * share_of(config) + bins + k, t) / root
    &&& forall|b: int, c: int, t: int, k: int|
        holds(d.second, b, c, t) && 0 <= k < bins - 1 ==> #[trigger] part_at(
            i,
            config,
            x,
            d.slopes,
            bins - 1,
            b,
            c,
            t,
            k,
        ) == i.at(d.numbers, b, c * share_of(config) + 2 * bins + k, t)
}

/// The splines that three tensors describe: between the tail bound and its opposite, and with a
/// least width, height and slope of a thousandth.
pub open spec fn spline_of(config: VitsConfig, d: Described) -> Spline {
    let least = Real { bits: 0x3F50_624D_D2F1_A9FC };
    spline::joined_spline(
        d.widths,
        d.heights,
        d.slopes,
        config.duration_predictor_tail_bound,
        least,
        least,
        least,
    )
}

/// Whether `y` holds the first half of the channels of `x` as they are, and of the second half what
/// the splines, or their inverses, give for it, all under the mask.
pub open spec fn bends_second_half(
    i: Numbers,
    config: VitsConfig,
    x: Term,
    mask: Term,
    reverse: bool,
    d: Described,
    y: Term,
) -> bool {
    let half = half_of(config);
    let bent = spline_of(config, d).extended(d.second, reverse);
    &&& term::typ(d.second) is Some
    &&& d.second.shape() == Shape::S3(x.shape()->S3_0, half, x.shape()->S3_2)
    &&& forall|b: int, c: int, t: int| #[trigger]
        holds(d.second, b, c, t) ==> i.at(d.second, b, c, t) == i.at(x, b, half + c, t)
    &&& term::typ(bent) == term::typ(d.second)
    &&& term::typ(y) is Some
    &&& y.shape() == Shape::S3(x.shape()->S3_0, (2 * half) as usize, x.shape()->S3_2)
    &&& forall|b: int, c: int, t: int| #[trigger]
        holds(y, b, c, t) ==> i.at(y, b, c, t) == if c < half {
            i.at(x, b, c, t) * i.at(mask, b, 0, t)
        } else {
            i.at(bent, b, c - half, t) * i.at(mask, b, 0, t)
        }
}

/// Whether a flow with splines, or its inverse, has made of `x` what `y` is.
pub open spec fn bends(
    i: Numbers,
    config: VitsConfig,
    vb: ScopeView,
    stack: VitsDilatedDepthSeparableConv,
    x: Term,
    mask: Term,
    cond: Option<Term>,
    reverse: bool,
    y: Term,
) -> bool {
    exists|d: Described|
        {
            &&& #[trigger] describes(i, config, vb, stack, x, mask, cond, d)
            &&& takes_apart(i, config, x, d)
            &&& bends_second_half(i, config, x, mask, reverse, d, y)
        }
}

/// The terms that a flow with splines goes through.
spec fn described_by(
    flow: VitsConvFlow,
    x: Term,
    mask: Term,
    cond: Option<Term>,
) -> Described {
    let first = x.narrow(1, 0, flow.half_channels);
    let pre = flow.conv_pre.output(first);
    let hidden = flow.conv_dds.output(pre, mask, cond);
    let numbers = flow.conv_proj.output(hidden).broadcast_mul(mask);
    let sorted = flow.sorted(first, numbers);
    let b = flow.num_bins;
    Described {
        pre,
        hidden,
        numbers,
        widths: sorted.narrow(3, 0, b).scale(Scalar::OverSqrt(flow.filter_channels)),
        heights: sorted.narrow(3, b, b).scale(Scalar::OverSqrt(flow.filter_channels)),
        slopes: sorted.narrow(3, (2 * b) as usize, (b - 1) as usize),
        second: x.narrow(1, flow.half_channels, flow.half_channels),
    }
}

/// The types on the way through a flow with splines.
proof fn lemma_described_types(
    flow: VitsConvFlow,
    config: VitsConfig,
    vb: ScopeView,
    x: Term,
    mask: Term,
    cond: Option<Term>,
    reverse: bool,
)
    requires
        flow.loaded(config, vb),
        VitsConvFlow::failure(config, vb) is None,
        term::typ(flow.output(x, mask, cond, reverse)) is Some,
        x.shape() is S3,
        mask.shape() == Shape::S3(x.shape()->S3_0, 1, x.shape()->S3_2),
    ensures
        ({
            let d = described_by(flow, x, mask, cond);
            let half = half_of(config);
            let (batch, len) = (x.shape()->S3_0, x.shape()->S3_2);
            let bins = config.duration_predictor_flow_bins;
            let first = x.narrow(1, 0, half);
            let projected = flow.conv_proj.output(d.hidden);
            let outer = (half * share_of(config)) as usize;
            &&& outer == half * share_of(config)
            &&& bins >= 1
            &&& 3 * bins <= usize::MAX
            &&& term::typ(x) is Some
            &&& 2 * half <= x.shape()->S3_1
            &&& half >= 1
            &&& batch >= 1
            &&& len >= 1
            &&& term::typ(first) is Some
            &&& first.shape() == Shape::S3(batch, half, len)
            &&& term::typ(d.second) is Some
            &&& d.second.shape() == Shape::S3(batch, half, len)
            &&& term::typ(d.pre) is Some
            &&& d.pre.shape() == Shape::S3(batch, config.hidden_size, len)
            &&& term::typ(d.hidden) is Some
            &&& term::typ(projected) is Some
            &&& projected.shape() == Shape::S3(batch, outer, len)
            &&& term::typ(d.numbers) is Some
            &&& d.numbers.shape() == Shape::S3(batch, outer, len)
            &&& term::typ(flow.sorted(first, d.numbers)) is Some
            &&& term::typ(d.widths) is Some
            &&& term::typ(d.heights) is Some
            &&& term::typ(d.slopes) is Some
            &&& flow.spline_for(x, mask, cond) == spline_of(config, d)
            &&& term::typ(spline_of(config, d).extended(d.second, reverse)) == term::typ(d.second)
        }),
{
    reveal(VitsConvFlow::output);
    let d = described_by(flow, x, mask, cond);
    let half = half_of(config);
    let (batch, len) = (x.shape()->S3_0, x.shape()->S3_2);
    let first = x.narrow(1, 0, half);
    assert(half == flow.half_channels);
    let sorted = flow.sorted(first, d.numbers);
    let bent = flow.spline_for(x, mask, cond).extended(d.second, reverse);
    assert(flow.output(x, mask, cond, reverse) == first.concat(bent, 1).broadcast_mul(mask));
    assert(term::typ(bent) is Some);
    assert(flow.spline_for(x, mask, cond) == flow.spline(sorted));
    flow.lemma_spline_parts(sorted, d.second, reverse);
    spline::lemma_extended_type(flow.spline(sorted), d.second, reverse);
    index::lemma_narrow_shape(x, 1, 0, half);
    assert(term::typ(d.second) is Some);
    index::lemma_narrow_shape(x, 1, half, half);
    assert(first.shape() == Shape::S3(batch, half, len));
    assert(sorted != Term::undefined());
    assert(first.shape().count() != 0);
    assert(batch >= 1 && half >= 1 && len >= 1) by (nonlinear_arith)
        requires
            batch as nat * half as nat * len as nat != 0,
            batch >= 0,
            half >= 0,
            len >= 0,
    ;
    assert(term::typ(d.numbers) is Some);
    let outer = (half * share_of(config)) as usize;
    assert(VitsConvFlow::in_range(config));
    assert(0 <= half * share_of(config)) by (nonlinear_arith)
        requires
            half >= 0,
            share_of(config) >= 0,
    ;
    let projected = flow.conv_proj.output(d.hidden);
    assert(term::typ(projected) is Some);
    assert(term::typ(d.hidden) is Some);
    assert(term::typ(d.pre) is Some);
    shapes::lemma_pointwise(flow.conv_pre, vb.pp("conv_pre"@), half, config.hidden_size, first);
    assert(term::typ(d.hidden) == term::typ(d.pre)) by {
        lemma_stack_type(flow.conv_dds, d.pre, mask, cond);
    }
    shapes::lemma_pointwise(
        flow.conv_proj,
        vb.pp("conv_proj"@),
        config.hidden_size,
        outer,
        d.hidden,
    );
    shapes::lemma_masked(projected, mask, batch, len);
}

/// The separable layers keep the type.
pub(crate) proof fn lemma_stack_type(
    stack: VitsDilatedDepthSeparableConv,
    x: Term,
    mask: Term,
    cond: Option<Term>,
)
    requires
        term::typ(stack.output(x, mask, cond)) is Some,
        x.shape() is S3,
        mask.shape() == Shape::S3(x.shape()->S3_0, 1, x.shape()->S3_2),
    ensures
        term::typ(stack.output(x, mask, cond)) == term::typ(x),
{
    reveal(VitsDilatedDepthSeparableConv::output);
    let start = match cond {
        Some(a) => x.add(a),
        None => x,
    };
    assert(stack.output(x, mask, cond) == stack.output_from(0, start, mask));
    shapes::lemma_separable_from(stack, 0, start, mask, x.shape()->S3_0, x.shape()->S3_2);
    if let Some(a) = cond {
        assert(term::typ(x.add(a)) == term::typ(x)) by {
            broadcast use crate::tensor::term::typing_rules;

        }
    }
    lemma_stack_type_from(stack, 0, start, mask);
}

proof fn lemma_stack_type_from(
    stack: VitsDilatedDepthSeparableConv,
    from: nat,
    x: Term,
    mask: Term,
)
    requires
        term::typ(stack.output_from(from, x, mask)) is Some,
        x.shape() is S3,
        mask.shape() == Shape::S3(x.shape()->S3_0, 1, x.shape()->S3_2),
    ensures
        term::typ(x) is Some,
        term::typ(stack.output_from(from, x, mask)) == term::typ(x),
    decreases stack.layers@.len() - from,
{
    if from < stack.layers@.len() {
        let change = stack.layers@[from as int].change(x, mask, stack.dropout_p);
        shapes::lemma_separable_from(
            stack,
            from + 1,
            x.add(change),
            mask,
            x.shape()->S3_0,
            x.shape()->S3_2,
        );
        assert(term::typ(x.add(change)) == term::typ(x)) by {
            broadcast use crate::tensor::term::typing_rules;

        }
        lemma_stack_type_from(stack, from + 1, x.add(change), mask);
    } else {
        assert(term::typ(x.broadcast_mul(mask)) == term::typ(x)) by {
            broadcast use crate::tensor::term::typing_rules;

        }
    }
}

/// The numbers that describe the splines, sorted so that those for one element lie in one line.
proof fn lemma_sorted(
    i: Numbers,
    flow: VitsConvFlow,
    first: Term,
    hidden: Term,
    share: int,
    b: int,
    c: int,
    t: int,
    k: int,
)
    requires
        term::typ(flow.sorted(first, hidden)) is Some,
        holds(first, b, c, t),
        first.shape()->S3_1 == flow.half_channels,
        hidden.shape() is S3,
        hidden.shape()->S3_0 == first.shape()->S3_0,
        hidden.shape()->S3_1 == flow.half_channels * share,
        hidden.shape()->S3_2 == first.shape()->S3_2,
        0 <= k < share,
        share <= usize::MAX,
    ensures
        flow.sorted(first, hidden).shape() == Shape::S4(
            first.shape()->S3_0,
            flow.half_channels,
            first.shape()->S3_2,
            share as usize,
        ),
        i.values(flow.sorted(first, hidden))(
            positions::at3(first.shape()->S3_2 as int, share, b * flow.half_channels + c, t, k),
        ) == i.at(hidden, b, c * share + k, t),
{
    let (batch, half, len) = (first.shape()->S3_0, flow.half_channels, first.shape()->S3_2);
    let total = hidden.shape().count() as int;
    let one = first.shape().count() as int;
    assert(one > 0) by (nonlinear_arith)
        requires
            one == batch as nat * half as nat * len as nat,
            batch > 0,
            half > 0,
            len > 0,
    ;
    assert(total == one * share) by (nonlinear_arith)
        requires
            one == batch as nat * half as nat * len as nat,
            total == batch as nat * hidden.shape()->S3_1 as nat * len as nat,
            hidden.shape()->S3_1 == half * share,
    ;
    assert(total / one == share) by {
        vstd::arithmetic::div_mod::lemma_div_multiples_vanish(share, one);
    }
    let split = Shape::S4(batch, half, share as usize, len);
    let reshaped = hidden.reshape(split);
    let turned = reshaped.transpose(2, 3);
    assert(flow.sorted(first, hidden) == turned.contiguous());
    assert(reshaped.shape() == split && turned.shape() == Shape::S4(
        batch,
        half,
        len,
        share as usize,
    ) && turned.contiguous().shape() == turned.shape()) by {
        broadcast use crate::tensor::term::typing_rules;

    }
    assert(i.values(turned.contiguous()) == i.values(turned) && i.values(reshaped) == i.values(
        hidden,
    )) by {
        broadcast use crate::model::numbers::number_rules;

    }
    numbers::values_one(i, reshaped, Op1::Transpose(2, 3));
    let to = places::exchanged_shape(split, 2, 3);
    assert(to == turned.shape());
    places::lemma_coordinates_4(to, b, c, t, k);
    let at = seq![b, c, t, k];
    assert(places::exchanged(at, 2, 3) =~= seq![b, c, k, t]);
    let (h, m, l) = (half as int, share, len as int);
    assert((b * h + c) * m + k == b * (h * m) + (c * m + k)) by (nonlinear_arith);
}

/// A part of the lines of a tensor of four dimensions.
proof fn lemma_line_part(
    i: Numbers,
    x: Term,
    start: usize,
    count: usize,
    q: int,
    k: int,
)
    requires
        term::typ(x.narrow(3, start, count)) is Some,
        x.shape() is S4,
        0 <= k < count,
    ensures
        start + count <= x.shape()->S4_3,
        x.narrow(3, start, count).shape() == Shape::S4(
            x.shape()->S4_0,
            x.shape()->S4_1,
            x.shape()->S4_2,
            count,
        ),
        i.values(x.narrow(3, start, count))(q * count + k) == i.values(x)(
            q * x.shape()->S4_3 + (start + k),
        ),
{
    broadcast use crate::model::numbers::number_rules;

    index::lemma_narrow_shape(x, 3, start, count);
    index::lemma_place(count as int, 1, q, k, 0);
}

proof fn lemma_divided(i: Numbers, x: Term, n: usize, p: int)
    requires
        i.reckons(),
        term::typ(x.scale(Scalar::OverSqrt(n))) is Some,
        n >= 1,
    ensures
        term::typ(x.scale(Scalar::OverSqrt(n))) == term::typ(x),
        i.values(x.scale(Scalar::OverSqrt(n)))(p) == i.values(x)(p) / (i.scalar)(Scalar::Sqrt(n)),
{
    channels::lemma_scaled_type(x, Scalar::OverSqrt(n));
    numbers::lemma_scaled(i, x, Scalar::OverSqrt(n), p);
    let v = i.values(x)(p);
    let r = (i.scalar)(Scalar::Sqrt(n));
    assert((i.scalar)(Scalar::OverSqrt(n)) == 1real / r);
    assert(r * r == n as real);
    assert(r != 0real) by (nonlinear_arith)
        requires
            r * r == n as real,
            n >= 1,
    ;
    assert(v * (1real / r) == v / r) by (nonlinear_arith)
        requires
            r != 0real,
    ;
}

/// The parts of the sorted numbers.
proof fn lemma_parts(
    i: Numbers,
    flow: VitsConvFlow,
    config: VitsConfig,
    vb: ScopeView,
    x: Term,
    mask: Term,
    cond: Option<Term>,
    reverse: bool,
)
    requires
        i.reckons(),
        flow.loaded(config, vb),
        VitsConvFlow::failure(config, vb) is None,
        config.hidden_size >= 1,
        term::typ(flow.output(x, mask, cond, reverse)) is Some,
        x.shape() is S3,
        mask.shape() == Shape::S3(x.shape()->S3_0, 1, x.shape()->S3_2),
    ensures
        takes_apart(i, config, x, described_by(flow, x, mask, cond)),
{
    lemma_described_types(flow, config, vb, x, mask, cond, reverse);
    let d = described_by(flow, x, mask, cond);
    let half = half_of(config);
    let (batch, len) = (x.shape()->S3_0, x.shape()->S3_2);
    let bins = config.duration_predictor_flow_bins;
    let share = share_of(config);
    let first = x.narrow(1, 0, half);
    let sorted = flow.sorted(first, d.numbers);
    let n = config.hidden_size;
    assert(holds(first, 0, 0, 0));
    lemma_sorted(i, flow, first, d.numbers, share, 0, 0, 0, 0);
    let (w, h) = (sorted.narrow(3, 0, bins), sorted.narrow(3, bins, bins));
    index::lemma_narrow_shape(sorted, 3, 0, bins);
    index::lemma_narrow_shape(sorted, 3, bins, bins);
    index::lemma_narrow_shape(sorted, 3, (2 * bins) as usize, (bins - 1) as usize);
    channels::lemma_scaled_type(w, Scalar::OverSqrt(n));
    channels::lemma_scaled_type(h, Scalar::OverSqrt(n));
    let root = (i.scalar)(Scalar::Sqrt(n));
    assert forall|b: int, c: int, t: int, k: int|
        holds(d.second, b, c, t) && 0 <= k < bins implies #[trigger] part_at(
        i,
        config,
        x,
        d.widths,
        bins as int,
        b,
        c,
        t,
        k,
    ) == i.at(d.numbers, b, c * share + k, t) / root by {
        let q = (b * half + c) * len + t;
        lemma_divided(i, w, n, q * bins + k);
        lemma_line_part(i, sorted, 0, bins, q, k);
        lemma_sorted(i, flow, first, d.numbers, share, b, c, t, k);
    }
    assert forall|b: int, c: int, t: int, k: int|
        holds(d.second, b, c, t) && 0 <= k < bins implies #[trigger] part_at(
        i,
        config,
        x,
        d.heights,
        bins as int,
        b,
        c,
        t,
        k,
    ) == i.at(d.numbers, b, c * share + bins + k, t) / root by {
        let q = (b * half + c) * len + t;
        lemma_divided(i, h, n, q * bins + k);
        lemma_line_part(i, sorted, bins, bins, q, k);
        lemma_sorted(i, flow, first, d.numbers, share, b, c, t, bins + k);
        assert(c * share + (bins + k) == c * share + bins + k);
    }
    assert forall|b: int, c: int, t: int, k: int|
        holds(d.second, b, c, t) && 0 <= k < bins - 1 implies #[trigger] part_at(
        i,
        config,
        x,
        d.slopes,
        bins - 1,
        b,
        c,
        t,
        k,
    ) == i.at(d.numbers, b, c * share + 2 * bins + k, t) by {
        let q = (b * half + c) * len + t;
        lemma_line_part(i, sorted, (2 * bins) as usize, (bins - 1) as usize, q, k);
        lemma_sorted(i, flow, first, d.numbers, share, b, c, t, 2 * bins + k);
        assert(c * share + (2 * bins + k) == c * share + 2 * bins + k);
    }
}

/// A flow with splines passes the first half of the channels on, and sends the second half through
/// splines that it computes from the first.
pub proof fn lemma_bends(
    i: Numbers,
    flow: VitsConvFlow,
    config: VitsConfig,
    vb: ScopeView,
    x: Term,
    mask: Term,
    cond: Option<Term>,
    reverse: bool,
)
    requires
        i.reckons(),
        flow.loaded(config, vb),
        VitsConvFlow::failure(config, vb) is None,
        config.hidden_size >= 1,
        term::typ(flow.output(x, mask, cond, reverse)) is Some,
        x.shape() is S3,
        mask.shape() == Shape::S3(x.shape()->S3_0, 1, x.shape()->S3_2),
    ensures
        bends(
            i,
            config,
            vb,
            flow.conv_dds,
            x,
            mask,
            cond,
            reverse,
            flow.output(x, mask, cond, reverse),
        ),
        half_of(config) >= 1,
        2 * half_of(config) <= x.shape()->S3_1,
        flow.output(x, mask, cond, reverse).shape() == Shape::S3(
            x.shape()->S3_0,
            (2 * half_of(config)) as usize,
            x.shape()->S3_2,
        ),
{
    lemma_described_types(flow, config, vb, x, mask, cond, reverse);
    lemma_parts(i, flow, config, vb, x, mask, cond, reverse);
    let d = described_by(flow, x, mask, cond);
    let half = half_of(config);
    let (batch, len) = (x.shape()->S3_0, x.shape()->S3_2);
    let first = x.narrow(1, 0, half);
    let outer = (half * share_of(config)) as usize;
    let projected = flow.conv_proj.output(d.hidden);
    assert forall|b: int, o: int, t: int| #[trigger] holds(d.pre, b, o, t) implies i.at(
        d.pre,
        b,
        o,
        t,
    ) == mixture(i, vb.pp("conv_pre"@), half, config.hidden_size, x, b, o, t) by {
        let scope = vb.pp("conv_pre"@);
        layer_laws::lemma_pointwise(
            i,
            flow.conv_pre,
            scope,
            half,
            config.hidden_size,
            first,
            b,
            o,
            t,
        );
        let w = i.values(scope.tensor("weight"@, Shape::S3(config.hidden_size, half, 1)));
        let r = layer_laws::weighted(i, first, w, half as int, b, o, t);
        let s = layer_laws::weighted(i, x, w, half as int, b, o, t);
        assert forall|c: int| 0 <= c < r.len() implies #[trigger] r[c] == s[c] by {
            channels::lemma_part(i, x, 0, half, b, c, t);
        }
        channels::lemma_same_sum(r, s);
    }
    assert forall|b: int, o: int, t: int| #[trigger] holds(d.numbers, b, o, t) implies i.at(
        d.numbers,
        b,
        o,
        t,
    ) == mixture(i, vb.pp("conv_proj"@), config.hidden_size, outer, d.hidden, b, o, t) * i.at(
        mask,
        b,
        0,
        t,
    ) by {
        assert(holds(projected, b, o, t));
        layer_laws::lemma_pointwise(
            i,
            flow.conv_proj,
            vb.pp("conv_proj"@),
            config.hidden_size,
            outer,
            d.hidden,
            b,
            o,
            t,
        );
        channels::lemma_masked(i, projected, mask, b, o, t);
    }
    assert(describes(i, config, vb, flow.conv_dds, x, mask, cond, d));
    lemma_bent(i, flow, config, vb, x, mask, cond, reverse);
}

proof fn lemma_bent(
    i: Numbers,
    flow: VitsConvFlow,
    config: VitsConfig,
    vb: ScopeView,
    x: Term,
    mask: Term,
    cond: Option<Term>,
    reverse: bool,
)
    requires
        flow.loaded(config, vb),
        VitsConvFlow::failure(config, vb) is None,
        term::typ(flow.output(x, mask, cond, reverse)) is Some,
        x.shape() is S3,
        mask.shape() == Shape::S3(x.shape()->S3_0, 1, x.shape()->S3_2),
    ensures
        bends_second_half(
            i,
            config,
            x,
            mask,
            reverse,
            described_by(flow, x, mask, cond),
            flow.output(x, mask, cond, reverse),
        ),
{
    reveal(VitsConvFlow::output);
    lemma_described_types(flow, config, vb, x, mask, cond, reverse);
    let d = described_by(flow, x, mask, cond);
    let half = half_of(config);
    let (batch, len) = (x.shape()->S3_0, x.shape()->S3_2);
    let first = x.narrow(1, 0, half);
    let bent = spline_of(config, d).extended(d.second, reverse);
    let joined = first.concat(bent, 1);
    let y = flow.output(x, mask, cond, reverse);
    assert(y == joined.broadcast_mul(mask));
    index::lemma_concat_shape(first, bent, 1);
    let wide = Shape::S3(batch, (2 * half) as usize, len);
    assert(bent.shape() == Shape::S3(batch, half, len));
    assert(joined.shape() == wide);
    shapes::lemma_masked(joined, mask, batch, len);
    assert forall|b: int, c: int, t: int| #[trigger] holds(d.second, b, c, t) implies i.at(
        d.second,
        b,
        c,
        t,
    ) == i.at(x, b, half + c, t) by {
        channels::lemma_part(i, x, half, half, b, c, t);
    }
    assert forall|b: int, c: int, t: int| #[trigger] holds(y, b, c, t) implies i.at(y, b, c, t)
        == if c < half {
        i.at(x, b, c, t) * i.at(mask, b, 0, t)
    } else {
        i.at(bent, b, c - half, t) * i.at(mask, b, 0, t)
    } by {
        assert(holds(joined, b, c, t));
        channels::lemma_masked(i, joined, mask, b, c, t);
        channels::lemma_joined(i, first, bent, b, c, t);
        if c < half {
            channels::lemma_part(i, x, 0, half, b, c, t);
        }
    }
}

/// The numbers of a tensor under a mask of one channel, for one sequence after the other.
pub open spec fn masked_numbers(i: Numbers, x: Term, mask: Term, b: int) -> Seq<real> {
    let len = x.shape()->S3_2 as int;
    Seq::new(
        (x.shape()->S3_1 * len) as nat,
        |q: int| i.at(x, b, q / len, q % len) * i.at(mask, b, 0, q % len),
    )
}

/// Forwards, the logarithm of the determinant of a flow with splines is for every sequence the sum
/// of the logarithms of the slopes at the numbers of the second half, over the places that the mask
/// counts. Backwards there is none.
pub proof fn lemma_bent_determinant(
    i: Numbers,
    flow: VitsConvFlow,
    config: VitsConfig,
    vb: ScopeView,
    x: Term,
    mask: Term,
    cond: Option<Term>,
    b: int,
) -> (d: Described)
    requires
        i.reckons(),
        flow.loaded(config, vb),
        VitsConvFlow::failure(config, vb) is None,
        config.hidden_size >= 1,
        term::typ(flow.output(x, mask, cond, false)) is Some,
        x.shape() is S3,
        mask.shape() == Shape::S3(x.shape()->S3_0, 1, x.shape()->S3_2),
        0 <= b < x.shape()->S3_0,
    ensures
        takes_apart(i, config, x, d),
        bends_second_half(i, config, x, mask, false, d, flow.output(x, mask, cond, false)),
        flow.log_determinant(x, mask, cond, true) is None,
        flow.log_determinant(x, mask, cond, false) is Some,
        term::typ(flow.log_determinant(x, mask, cond, false)->0) is Some ==> i.values(
            flow.log_determinant(x, mask, cond, false)->0,
        )(b) == spline_laws::sum(
            masked_numbers(i, spline_of(config, d).extended_log_det(d.second, false), mask, b),
        ),
{
    reveal(VitsConvFlow::log_determinant);
    let d = described_by(flow, x, mask, cond);
    lemma_described_types(flow, config, vb, x, mask, cond, false);
    lemma_parts(i, flow, config, vb, x, mask, cond, false);
    lemma_bent(i, flow, config, vb, x, mask, cond, false);
    let logs = spline_of(config, d).extended_log_det(d.second, false);
    let total = logs.broadcast_mul(mask).sum_inner(false);
    assert(flow.log_determinant(x, mask, cond, false) == Some(total));
    spline::lemma_extended_type(spline_of(config, d), d.second, false);
    if term::typ(total) is Some {
        lemma_masked_total(i, logs, mask, b);
    }
    d
}

proof fn lemma_masked_total(i: Numbers, x: Term, mask: Term, b: int)
    requires
        term::typ(x.broadcast_mul(mask).sum_inner(false)) is Some,
        x.shape() is S3,
        mask.shape() == Shape::S3(x.shape()->S3_0, 1, x.shape()->S3_2),
        0 <= b < x.shape()->S3_0,
    ensures
        i.values(x.broadcast_mul(mask).sum_inner(false))(b) == spline_laws::sum(
            masked_numbers(i, x, mask, b),
        ),
{
    let masked = x.broadcast_mul(mask);
    assert(term::typ(masked) is Some && term::typ(x) is Some);
    shapes::lemma_masked(x, mask, x.shape()->S3_0, x.shape()->S3_2);
    numbers::values_one(i, masked, Op1::SumInner(false));
    let (n, l) = (x.shape()->S3_1 as int, x.shape()->S3_2 as int);
    let m = n * l;
    assert(m >= 0) by (nonlinear_arith)
        requires
            m == n * l,
            n >= 0,
            l >= 0,
    ;
    let r = numbers::line(i.values(masked), m, b);
    let s = masked_numbers(i, x, mask, b);
    assert forall|q: int| 0 <= q < r.len() implies #[trigger] r[q] == s[q] by {
        assert(l > 0) by (nonlinear_arith)
            requires
                0 <= q < n * l,
                l >= 0,
        ;
        vstd::arithmetic::div_mod::lemma_fundamental_div_mod(q, l);
        let (c, t) = (q / l, q % l);
        assert(0 <= c < n) by (nonlinear_arith)
            requires
                0 <= q < n * l,
                q == l * c + t,
                0 <= t < l,
        ;
        assert(b * m + q == (b * n + c) * l + t) by (nonlinear_arith)
            requires
                m == n * l,
                q == l * c + t,
        ;
        assert(holds(x, b, c, t));
        channels::lemma_masked(i, x, mask, b, c, t);
    }
    channels::lemma_same_sum(r, s);
}

} // verus!
