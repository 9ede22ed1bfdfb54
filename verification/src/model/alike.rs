//! What depends on the values of its inputs alone: for inputs that are alike, what the parts of
//! the model give is alike.

use vstd::prelude::*;

use crate::model::duration_predictor;
use crate::model::duration_predictor::{Flow, VitsStochasticDurationPredictor};
use crate::model::flows::{VitsConvFlow, VitsElementwiseAffine, LEAST_BITS};
use crate::model::hifigan;
use crate::model::hifigan::{HifiGanResidualBlock, VitsHifiGan, HUNDREDTH_BITS};
use crate::model::inverse;
use crate::model::lines;
use crate::model::separable;
use crate::model::separable::{SeparableLayer, VitsDilatedDepthSeparableConv};
use crate::model::spline;
use crate::model::spline::{BinTerms, Spline, MILLIONTH_BITS};
use crate::nn;
use crate::nn::{Conv1d, LayerNorm};
use crate::tensor::expr::Tensor;
use crate::tensor::meaning::Interpretation;
use crate::tensor::ops::Noise;
use crate::tensor::scalar;
use crate::tensor::scalar::{
    Real, Scalar, FOUR_BITS, INFINITY_BITS, MINUS_ONE_BITS, TWO_BITS, ZERO_BITS,
};
use crate::tensor::shape::Shape;
use crate::tensor::term::Term;
use crate::tensor::typing::{Comparison, DType};

verus! {

/// Whether two optional expressions are alike.
pub open spec fn both_alike<V>(i: Interpretation<V>, a: Option<Term>, b: Option<Term>) -> bool {
    match (a, b) {
        (Some(x), Some(y)) => i.alike(x, y),
        (None, None) => true,
        _ => false,
    }
}

/// Whether two optional tensors are alike.
pub open spec fn tensors_alike<V>(
    i: Interpretation<V>,
    a: Option<Tensor>,
    b: Option<Tensor>,
) -> bool {
    match (a, b) {
        (Some(x), Some(y)) => i.alike(x@, y@),
        (None, None) => true,
        _ => false,
    }
}

/// Whether two convolutions have weights that are alike.
pub open spec fn convs_alike<V>(i: Interpretation<V>, c: Conv1d, d: Conv1d) -> bool {
    &&& c.config == d.config
    &&& i.alike(c.weight@, d.weight@)
    &&& tensors_alike(i, c.bias, d.bias)
}

/// Whether two normalizations have weights that are alike.
pub open spec fn norms_alike<V>(i: Interpretation<V>, c: LayerNorm, d: LayerNorm) -> bool {
    &&& c.eps == d.eps
    &&& i.alike(c.weight@, d.weight@)
    &&& i.alike(c.bias@, d.bias@)
}

/// Whether two layers have weights that are alike.
pub open spec fn layers_alike<V>(
    i: Interpretation<V>,
    c: SeparableLayer,
    d: SeparableLayer,
) -> bool {
    &&& convs_alike(i, c.conv_dilated, d.conv_dilated)
    &&& convs_alike(i, c.conv_pointwise, d.conv_pointwise)
    &&& norms_alike(i, c.norm_1, d.norm_1)
    &&& norms_alike(i, c.norm_2, d.norm_2)
}

/// Whether two stacks of layers have weights that are alike.
pub open spec fn stacks_alike<V>(
    i: Interpretation<V>,
    c: VitsDilatedDepthSeparableConv,
    d: VitsDilatedDepthSeparableConv,
) -> bool {
    &&& c.dropout_p == d.dropout_p
    &&& c.layers@.len() == d.layers@.len()
    &&& forall|n: int|
        0 <= n < c.layers@.len() ==> layers_alike(i, #[trigger] c.layers@[n], d.layers@[n])
}

/// Whether two flows have weights that are alike.
pub open spec fn flows_alike<V>(i: Interpretation<V>, c: Flow, d: Flow) -> bool {
    match (c, d) {
        (Flow::Affine(f), Flow::Affine(g)) => {
            &&& i.alike(f.translate@, g.translate@)
            &&& i.alike(f.log_scale@, g.log_scale@)
        },
        (Flow::Conv(f), Flow::Conv(g)) => {
            &&& f.filter_channels == g.filter_channels
            &&& f.half_channels == g.half_channels
            &&& f.num_bins == g.num_bins
            &&& f.tail_bound == g.tail_bound
            &&& convs_alike(i, f.conv_pre, g.conv_pre)
            &&& stacks_alike(i, f.conv_dds, g.conv_dds)
            &&& convs_alike(i, f.conv_proj, g.conv_proj)
        },
        _ => false,
    }
}

/// Whether two predictors have weights that are alike, but for the flow that has no turn.
pub open spec fn predictors_alike<V>(
    i: Interpretation<V>,
    c: VitsStochasticDurationPredictor,
    d: VitsStochasticDurationPredictor,
) -> bool {
    &&& convs_alike(i, c.conv_pre, d.conv_pre)
    &&& stacks_alike(i, c.conv_dds, d.conv_dds)
    &&& convs_alike(i, c.conv_proj, d.conv_proj)
    &&& match (c.cond, d.cond) {
        (Some(f), Some(g)) => convs_alike(i, f, g),
        (None, None) => true,
        _ => false,
    }
    &&& c.flows@.len() == d.flows@.len()
    &&& forall|n: int|
        0 <= n < c.flows@.len() && n != 1 ==> flows_alike(i, #[trigger] c.flows@[n], d.flows@[n])
}

proof fn lemma_convs_alike<V>(i: Interpretation<V>, c: Conv1d, d: Conv1d, a: Term, b: Term)
    requires
        convs_alike(i, c, d),
        i.alike(a, b),
    ensures
        i.alike(c.output(a), d.output(b)),
{
    broadcast use crate::tensor::meaning::congruence;

    let (p, q) = (a.conv1d(c.weight@, c.config), b.conv1d(d.weight@, d.config));
    assert(i.alike(p, q));
    match (c.bias, d.bias) {
        (Some(x), Some(y)) => {
            assert(i.alike(nn::per_channel(x@), nn::per_channel(y@)));
        },
        _ => {},
    }
}

pub(crate) proof fn lemma_norm_alike<V>(
    i: Interpretation<V>,
    norm: LayerNorm,
    norm_again: LayerNorm,
    a: Term,
    b: Term,
)
    requires
        norms_alike(i, norm, norm_again),
        i.alike(a, b),
    ensures
        i.alike(norm.output(a), norm_again.output(b)),
{
    broadcast use crate::tensor::meaning::congruence;

}

proof fn lemma_normalized_alike<V>(
    i: Interpretation<V>,
    norm: LayerNorm,
    norm_again: LayerNorm,
    a: Term,
    b: Term,
)
    requires
        norms_alike(i, norm, norm_again),
        i.alike(a, b),
    ensures
        i.alike(
            separable::normalized_channels(norm, a).gelu_erf(),
            separable::normalized_channels(norm_again, b).gelu_erf(),
        ),
{
    broadcast use crate::tensor::meaning::congruence;

    let (p, q) = (a.transpose(1, 2), b.transpose(1, 2));
    assert(i.alike(p, q));
    lemma_norm_alike(i, norm, norm_again, p, q);
    assert(i.alike(norm.output(p).transpose(1, 2), norm_again.output(q).transpose(1, 2)));
}

proof fn lemma_change_alike<V>(
    i: Interpretation<V>,
    layer: SeparableLayer,
    layer_again: SeparableLayer,
    a: Term,
    b: Term,
    mask: Term,
    mask_again: Term,
    dropout: Real,
)
    requires
        layers_alike(i, layer, layer_again),
        i.alike(a, b),
        i.alike(mask, mask_again),
    ensures
        i.alike(layer.change(a, mask, dropout), layer_again.change(b, mask_again, dropout)),
{
    broadcast use crate::tensor::meaning::congruence;

    let (p, q) = (a.broadcast_mul(mask), b.broadcast_mul(mask_again));
    assert(i.alike(p, q));
    lemma_convs_alike(i, layer.conv_dilated, layer_again.conv_dilated, p, q);
    let (p, q) = (layer.conv_dilated.output(p), layer_again.conv_dilated.output(q));
    lemma_normalized_alike(i, layer.norm_1, layer_again.norm_1, p, q);
    let (p, q) = (
        separable::normalized_channels(layer.norm_1, p).gelu_erf(),
        separable::normalized_channels(layer_again.norm_1, q).gelu_erf(),
    );
    lemma_convs_alike(i, layer.conv_pointwise, layer_again.conv_pointwise, p, q);
    let (p, q) = (layer.conv_pointwise.output(p), layer_again.conv_pointwise.output(q));
    lemma_normalized_alike(i, layer.norm_2, layer_again.norm_2, p, q);
    assert(i.alike(
        nn::dropped(separable::normalized_channels(layer.norm_2, p).gelu_erf(), dropout),
        nn::dropped(separable::normalized_channels(layer_again.norm_2, q).gelu_erf(), dropout),
    ));
}

proof fn lemma_separable_alike_from<V>(
    i: Interpretation<V>,
    m: VitsDilatedDepthSeparableConv,
    m_again: VitsDilatedDepthSeparableConv,
    n: nat,
    a: Term,
    b: Term,
    mask: Term,
    mask_again: Term,
)
    requires
        stacks_alike(i, m, m_again),
        i.alike(a, b),
        i.alike(mask, mask_again),
    ensures
        i.alike(m.output_from(n, a, mask), m_again.output_from(n, b, mask_again)),
    decreases m.layers@.len() - n,
{
    broadcast use crate::tensor::meaning::congruence;

    if n < m.layers@.len() {
        let layer = m.layers@[n as int];
        let layer_again = m_again.layers@[n as int];
        lemma_change_alike(i, layer, layer_again, a, b, mask, mask_again, m.dropout_p);
        let (p, q) = (
            a.add(layer.change(a, mask, m.dropout_p)),
            b.add(layer_again.change(b, mask_again, m.dropout_p)),
        );
        assert(i.alike(p, q));
        lemma_separable_alike_from(i, m, m_again, n + 1, p, q, mask, mask_again);
    }
}

proof fn lemma_separable_alike<V>(
    i: Interpretation<V>,
    m: VitsDilatedDepthSeparableConv,
    m_again: VitsDilatedDepthSeparableConv,
    a: Term,
    b: Term,
    mask: Term,
    mask_again: Term,
    cond: Option<Term>,
    cond_again: Option<Term>,
)
    requires
        stacks_alike(i, m, m_again),
        i.alike(a, b),
        i.alike(mask, mask_again),
        both_alike(i, cond, cond_again),
    ensures
        i.alike(m.output(a, mask, cond), m_again.output(b, mask_again, cond_again)),
{
    broadcast use crate::tensor::meaning::congruence;

    reveal(VitsDilatedDepthSeparableConv::output);
    match (cond, cond_again) {
        (Some(c), Some(d)) => {
            assert(i.alike(a.add(c), b.add(d)));
            lemma_separable_alike_from(i, m, m_again, 0, a.add(c), b.add(d), mask, mask_again);
        },
        _ => {
            lemma_separable_alike_from(i, m, m_again, 0, a, b, mask, mask_again);
        },
    }
}

proof fn lemma_constant_alike<V>(i: Interpretation<V>, a: Term, b: Term, n: usize, value: Scalar)
    requires
        i.alike(a, b),
    ensures
        i.alike(lines::constant_last(a, n, value), lines::constant_last(b, n, value)),
{
    broadcast use crate::tensor::meaning::congruence;

    reveal(lines::constant_last);
}

proof fn lemma_padded_alike<V>(
    i: Interpretation<V>,
    a: Term,
    b: Term,
    left: usize,
    right: usize,
    value: Scalar,
)
    requires
        i.alike(a, b),
    ensures
        i.alike(
            lines::padded_last(a, left, right, value),
            lines::padded_last(b, left, right, value),
        ),
{
    broadcast use crate::tensor::meaning::congruence;

    reveal(lines::padded_last);
    lemma_constant_alike(i, a, b, left, value);
    lemma_constant_alike(i, a, b, right, value);
    let axis = lines::last_axis(a);
    assert(i.alike(
        lines::constant_last(a, left, value).concat(a, axis),
        lines::constant_last(b, left, value).concat(b, axis),
    ));
}

proof fn lemma_overwritten_alike<V>(
    i: Interpretation<V>,
    a: Term,
    b: Term,
    dim: usize,
    start: usize,
    fill: Term,
    fill_again: Term,
)
    requires
        i.alike(a, b),
        i.alike(fill, fill_again),
    ensures
        i.alike(
            lines::overwritten(a, dim, start, fill),
            lines::overwritten(b, dim, start, fill_again),
        ),
{
    broadcast use crate::tensor::meaning::congruence;

    reveal(lines::overwritten);
    let len = fill.shape().spec_dim(dim as int);
    let total = a.shape().spec_dim(dim as int);
    let from = (start + len) as usize;
    let rest = (total - (start + len)) as usize;
    assert(i.alike(a.narrow(dim, 0, start), b.narrow(dim, 0, start)));
    assert(i.alike(
        a.narrow(dim, 0, start).concat(fill, dim),
        b.narrow(dim, 0, start).concat(fill_again, dim),
    ));
    assert(i.alike(a.narrow(dim, from, rest), b.narrow(dim, from, rest)));
}

proof fn lemma_edges_alike<V>(
    i: Interpretation<V>,
    a: Term,
    b: Term,
    num_bins: usize,
    tail: Real,
    least: Real,
)
    requires
        i.alike(a, b),
    ensures
        i.alike(spline::edges(a, num_bins, tail, least), spline::edges(b, num_bins, tail, least)),
{
    broadcast use crate::tensor::meaning::congruence;

    reveal(spline::edges);
    reveal(lines::cumsum_last);
    let (r, s) = (Scalar::Remainder(least, num_bins), Scalar::Value(least));
    assert(i.alike(a.softmax(), b.softmax()));
    assert(i.alike(a.softmax().scale(r), b.softmax().scale(r)));
    let (p, q) = (a.softmax().scale(r).shift(s), b.softmax().scale(r).shift(s));
    assert(i.alike(p, q));
    let (p, q) = (lines::cumsum_last(p), lines::cumsum_last(q));
    assert(i.alike(p, q));
    let zero = scalar::scalar(ZERO_BITS);
    lemma_padded_alike(i, p, q, 1, 0, zero);
    let (p, q) = (lines::padded_last(p, 1, 0, zero), lines::padded_last(q, 1, 0, zero));
    assert(i.alike(p.scale(Scalar::Span(tail)), q.scale(Scalar::Span(tail))));
    let (p, q) = (
        p.scale(Scalar::Span(tail)).shift(Scalar::Negated(tail)),
        q.scale(Scalar::Span(tail)).shift(Scalar::Negated(tail)),
    );
    assert(i.alike(p, q));
    lemma_set_alike(i, p, q, 0, Scalar::Negated(tail));
    lemma_set_alike(
        i,
        lines::with_last(p, 0, Scalar::Negated(tail)),
        lines::with_last(q, 0, Scalar::Negated(tail)),
        num_bins,
        Scalar::Value(tail),
    );
}

proof fn lemma_set_alike<V>(i: Interpretation<V>, a: Term, b: Term, idx: usize, value: Scalar)
    requires
        i.alike(a, b),
    ensures
        i.alike(lines::with_last(a, idx, value), lines::with_last(b, idx, value)),
{
    reveal(lines::with_last);
    lemma_constant_alike(i, a, b, 1, value);
    lemma_overwritten_alike(
        i,
        a,
        b,
        lines::last_axis(a),
        idx,
        lines::constant_last(a, 1, value),
        lines::constant_last(b, 1, value),
    );
}

proof fn lemma_bumped_alike<V>(i: Interpretation<V>, a: Term, b: Term, eps: Real)
    requires
        i.alike(a, b),
    ensures
        i.alike(lines::bumped(a, eps), lines::bumped(b, eps)),
{
    broadcast use crate::tensor::meaning::congruence;

    reveal(lines::bumped);
    let end = (lines::last_len(a) - 1) as usize;
    let axis = lines::last_axis(a);
    let (p, q) = (a.narrow(axis, end, 1), b.narrow(axis, end, 1));
    assert(i.alike(p, q));
    assert(i.alike(p.shift(Scalar::Value(eps)), q.shift(Scalar::Value(eps))));
    lemma_overwritten_alike(
        i,
        a,
        b,
        axis,
        end,
        p.shift(Scalar::Value(eps)),
        q.shift(Scalar::Value(eps)),
    );
}

pub(crate) proof fn lemma_index_alike<V>(
    i: Interpretation<V>,
    a: Term,
    b: Term,
    edges: Term,
    edges_again: Term,
    num_bins: usize,
)
    requires
        i.alike(a, b),
        i.alike(edges, edges_again),
    ensures
        i.alike(
            spline::bin_index(a, edges, num_bins),
            spline::bin_index(b, edges_again, num_bins),
        ),
{
    broadcast use crate::tensor::meaning::congruence;

    reveal(spline::bin_index);
    let eps = Real { bits: MILLIONTH_BITS };
    lemma_bumped_alike(i, edges, edges_again, eps);
    let n = a.shape().spec_rank() as usize;
    assert(i.alike(a.unsqueeze(n), b.unsqueeze(n)));
    let (p, q) = (
        a.unsqueeze(n).broadcast_compare(lines::bumped(edges, eps), Comparison::Ge),
        b.unsqueeze(n).broadcast_compare(lines::bumped(edges_again, eps), Comparison::Ge),
    );
    assert(i.alike(p, q));
    assert(i.alike(p.cast(DType::F32), q.cast(DType::F32)));
    let (p, q) = (p.cast(DType::F32).sum_last(), q.cast(DType::F32).sum_last());
    assert(i.alike(p, q));
    let s = scalar::scalar(MINUS_ONE_BITS);
    assert(i.alike(p.shift(s), q.shift(s)));
    let (low, high) = (scalar::scalar(ZERO_BITS), Scalar::LastIndex(num_bins));
    assert(i.alike(p.shift(s).clamp(low, high), q.shift(s).clamp(low, high)));
    let (p, q) = (
        p.shift(s).clamp(low, high).cast(DType::U32),
        q.shift(s).clamp(low, high).cast(DType::U32),
    );
    assert(i.alike(p, q));
    let n = p.shape().spec_rank() as usize;
    assert(i.alike(p.unsqueeze(n), q.unsqueeze(n)));
}

pub(crate) proof fn lemma_picked_alike<V>(
    i: Interpretation<V>,
    a: Term,
    b: Term,
    idx: Term,
    idx_again: Term,
)
    requires
        i.alike(a, b),
        i.alike(idx, idx_again),
    ensures
        i.alike(lines::picked(a, idx), lines::picked(b, idx_again)),
{
    broadcast use crate::tensor::meaning::congruence;

    reveal(lines::picked);
    assert(i.alike(a.gather_last(idx), b.gather_last(idx_again)));
}

/// Whether the expressions of two splines are alike.
pub open spec fn splines_alike<V>(i: Interpretation<V>, s: Spline, t: Spline) -> bool {
    &&& s.num_bins == t.num_bins
    &&& s.tail == t.tail
    &&& i.alike(s.cumwidths, t.cumwidths)
    &&& i.alike(s.cumheights, t.cumheights)
    &&& i.alike(s.slopes, t.slopes)
}

/// Whether the expressions of two bins are alike.
pub open spec fn bins_alike<V>(i: Interpretation<V>, s: BinTerms, t: BinTerms) -> bool {
    &&& i.alike(s.left, t.left)
    &&& i.alike(s.width, t.width)
    &&& i.alike(s.bottom, t.bottom)
    &&& i.alike(s.height, t.height)
    &&& i.alike(s.delta, t.delta)
    &&& i.alike(s.slope, t.slope)
    &&& i.alike(s.next_slope, t.next_slope)
}

proof fn lemma_sizes_alike<V>(i: Interpretation<V>, a: Term, b: Term, num_bins: usize)
    requires
        i.alike(a, b),
    ensures
        i.alike(spline::sizes(a, num_bins), spline::sizes(b, num_bins)),
{
    broadcast use crate::tensor::meaning::congruence;

    reveal(spline::sizes);
    reveal(lines::slice_last);
    assert(i.alike(lines::slice_last(a, 1, num_bins), lines::slice_last(b, 1, num_bins)));
    assert(i.alike(lines::slice_last(a, 0, num_bins), lines::slice_last(b, 0, num_bins)));
}

proof fn lemma_bins_alike<V>(
    i: Interpretation<V>,
    s: Spline,
    t: Spline,
    a: Term,
    b: Term,
    reverse: bool,
)
    requires
        splines_alike(i, s, t),
        i.alike(a, b),
    ensures
        bins_alike(i, s.bins(a, reverse), t.bins(b, reverse)),
        i.alike(s.inside(a), t.inside(b)),
{
    broadcast use crate::tensor::meaning::congruence;

    reveal(lines::slice_last);
    assert(i.alike(s.inside(a), t.inside(b)));
    let n = s.num_bins;
    let (p, q) = if reverse {
        (s.cumheights, t.cumheights)
    } else {
        (s.cumwidths, t.cumwidths)
    };
    lemma_index_alike(i, s.inside(a), t.inside(b), p, q, n);
    let (x, y) = (spline::bin_index(s.inside(a), p, n), spline::bin_index(t.inside(b), q, n));
    lemma_sizes_alike(i, s.cumwidths, t.cumwidths, n);
    lemma_sizes_alike(i, s.cumheights, t.cumheights, n);
    let (w, v) = (spline::sizes(s.cumwidths, n), spline::sizes(t.cumwidths, n));
    let (h, g) = (spline::sizes(s.cumheights, n), spline::sizes(t.cumheights, n));
    lemma_picked_alike(i, s.cumwidths, t.cumwidths, x, y);
    lemma_picked_alike(i, s.cumheights, t.cumheights, x, y);
    lemma_picked_alike(i, w, v, x, y);
    lemma_picked_alike(i, h, g, x, y);
    assert(i.alike(h.div(w), g.div(v)));
    lemma_picked_alike(i, h.div(w), g.div(v), x, y);
    lemma_picked_alike(i, s.slopes, t.slopes, x, y);
    let rest = (lines::last_len(s.slopes) - 1) as usize;
    assert(i.alike(lines::slice_last(s.slopes, 1, rest), lines::slice_last(t.slopes, 1, rest)));
    lemma_picked_alike(
        i,
        lines::slice_last(s.slopes, 1, rest),
        lines::slice_last(t.slopes, 1, rest),
        x,
        y,
    );
}

proof fn lemma_bend_alike<V>(i: Interpretation<V>, s: BinTerms, t: BinTerms)
    requires
        bins_alike(i, s, t),
    ensures
        i.alike(s.bend(), t.bend()),
{
    broadcast use crate::tensor::meaning::congruence;

    let two = scalar::scalar(TWO_BITS);
    assert(i.alike(s.slope.add(s.next_slope), t.slope.add(t.next_slope)));
    assert(i.alike(s.delta.scale(two), t.delta.scale(two)));
}

proof fn lemma_preimage_alike<V>(i: Interpretation<V>, s: BinTerms, t: BinTerms, a: Term, b: Term)
    requires
        bins_alike(i, s, t),
        i.alike(a, b),
    ensures
        i.alike(s.preimage(a), t.preimage(b)),
{
    broadcast use crate::tensor::meaning::congruence;

    lemma_bend_alike(i, s, t);
    let two = scalar::scalar(TWO_BITS);
    let four = scalar::scalar(FOUR_BITS);
    let zero = scalar::scalar(ZERO_BITS);
    let open = scalar::scalar(INFINITY_BITS);
    let (rise_a, rise_b) = (a.sub(s.bottom), b.sub(t.bottom));
    assert(i.alike(rise_a, rise_b));
    let (bent_a, bent_b) = (rise_a.mul(s.bend()), rise_b.mul(t.bend()));
    assert(i.alike(bent_a, bent_b));
    assert(i.alike(s.delta.sub(s.slope), t.delta.sub(t.slope)));
    assert(i.alike(
        s.height.mul(s.delta.sub(s.slope)),
        t.height.mul(t.delta.sub(t.slope)),
    ));
    let (a1, a2) = (
        s.height.mul(s.delta.sub(s.slope)).add(bent_a),
        t.height.mul(t.delta.sub(t.slope)).add(bent_b),
    );
    assert(i.alike(a1, a2));
    assert(i.alike(s.height.mul(s.slope), t.height.mul(t.slope)));
    let (b1, b2) = (s.height.mul(s.slope).sub(bent_a), t.height.mul(t.slope).sub(bent_b));
    assert(i.alike(b1, b2));
    assert(i.alike(s.delta.mul(rise_a), t.delta.mul(rise_b)));
    let (c1, c2) = (s.delta.mul(rise_a).neg(), t.delta.mul(rise_b).neg());
    assert(i.alike(c1, c2));
    assert(i.alike(b1.sqr(), b2.sqr()));
    assert(i.alike(a1.mul(c1), a2.mul(c2)));
    assert(i.alike(a1.mul(c1).scale(four), a2.mul(c2).scale(four)));
    let (d1, d2) = (b1.sqr().sub(a1.mul(c1).scale(four)), b2.sqr().sub(a2.mul(c2).scale(four)));
    assert(i.alike(d1, d2));
    assert(i.alike(d1.clamp(zero, open), d2.clamp(zero, open)));
    assert(i.alike(d1.clamp(zero, open).sqrt(), d2.clamp(zero, open).sqrt()));
    assert(i.alike(b1.neg(), b2.neg()));
    assert(i.alike(
        b1.neg().sub(d1.clamp(zero, open).sqrt()),
        b2.neg().sub(d2.clamp(zero, open).sqrt()),
    ));
    assert(i.alike(c1.scale(two), c2.scale(two)));
    assert(i.alike(s.root(a), t.root(b)));
    assert(i.alike(s.root(a).mul(s.width), t.root(b).mul(t.width)));
}

proof fn lemma_inside_alike<V>(i: Interpretation<V>, a: Term, b: Term, tail: Real)
    requires
        i.alike(a, b),
    ensures
        i.alike(spline::inside_mask(a, tail), spline::inside_mask(b, tail)),
{
    broadcast use crate::tensor::meaning::congruence;

    let low = Term::full(Scalar::Negated(tail), DType::F32, a.shape());
    let high = Term::full(Scalar::Value(tail), DType::F32, a.shape());
    let (p, q) = (a.compare(low, Comparison::Ge), b.compare(low, Comparison::Ge));
    let (r, s) = (a.compare(high, Comparison::Le), b.compare(high, Comparison::Le));
    assert(i.alike(p, q));
    assert(i.alike(r, s));
    assert(i.alike(p.mul(r), q.mul(s)));
}

/// For splines and inputs that are alike, the preimages are.
proof fn lemma_extended_alike<V>(i: Interpretation<V>, s: Spline, t: Spline, a: Term, b: Term)
    requires
        splines_alike(i, s, t),
        i.alike(a, b),
    ensures
        i.alike(s.extended(a, true), t.extended(b, true)),
{
    broadcast use crate::tensor::meaning::congruence;

    reveal(Spline::extended);
    lemma_inside_alike(i, a, b, s.tail);
    lemma_bins_alike(i, s, t, a, b, true);
    lemma_preimage_alike(i, s.bins(a, true), t.bins(b, true), s.inside(a), t.inside(b));
    let (p, q) = (spline::inside_mask(a, s.tail), spline::inside_mask(b, t.tail));
    assert(i.alike(s.output(a, true), t.output(b, true)));
    assert(i.alike(s.output(a, true).mul(p), t.output(b, true).mul(q)));
    assert(i.alike(p.one_minus(), q.one_minus()));
    assert(i.alike(a.mul(p.one_minus()), b.mul(q.one_minus())));
}

proof fn lemma_spline_alike<V>(
    i: Interpretation<V>,
    m: VitsConvFlow,
    m_again: VitsConvFlow,
    a: Term,
    b: Term,
)
    requires
        flows_alike(i, Flow::Conv(m), Flow::Conv(m_again)),
        i.alike(a, b),
    ensures
        splines_alike(i, m.spline(a), m_again.spline(b)),
{
    broadcast use crate::tensor::meaning::congruence;

    let n = m.num_bins;
    if n != 0 && 2 * n <= usize::MAX {
        let f = Scalar::OverSqrt(m.filter_channels);
        let least = Real { bits: LEAST_BITS };
        assert(i.alike(a.narrow(3, 0, n), b.narrow(3, 0, n)));
        assert(i.alike(a.narrow(3, n, n), b.narrow(3, n, n)));
        let (w, v) = (a.narrow(3, 0, n).scale(f), b.narrow(3, 0, n).scale(f));
        let (h, g) = (a.narrow(3, n, n).scale(f), b.narrow(3, n, n).scale(f));
        assert(i.alike(w, v));
        assert(i.alike(h, g));
        let (p, q) = (
            a.narrow(3, (2 * n) as usize, (n - 1) as usize),
            b.narrow(3, (2 * n) as usize, (n - 1) as usize),
        );
        assert(i.alike(p, q));
        let end = Scalar::SoftplusInverse(least);
        lemma_padded_alike(i, p, q, 1, 1, end);
        let (p, q) = (lines::padded_last(p, 1, 1, end), lines::padded_last(q, 1, 1, end));
        assert(i.alike(p.softplus(), q.softplus()));
        assert(i.alike(
            p.softplus().shift(Scalar::Value(least)),
            q.softplus().shift(Scalar::Value(least)),
        ));
        let bins = lines::last_len(w);
        lemma_edges_alike(i, w, v, bins, m.tail_bound, least);
        lemma_edges_alike(i, h, g, bins, m.tail_bound, least);
    }
}

proof fn lemma_conv_flow_alike<V>(
    i: Interpretation<V>,
    m: VitsConvFlow,
    m_again: VitsConvFlow,
    a: Term,
    b: Term,
    mask: Term,
    mask_again: Term,
    cond: Option<Term>,
    cond_again: Option<Term>,
)
    requires
        flows_alike(i, Flow::Conv(m), Flow::Conv(m_again)),
        i.alike(a, b),
        i.alike(mask, mask_again),
        both_alike(i, cond, cond_again),
    ensures
        i.alike(m.output(a, mask, cond, true), m_again.output(b, mask_again, cond_again, true)),
{
    broadcast use crate::tensor::meaning::congruence;

    reveal(VitsConvFlow::output);
    let h = m.half_channels;
    let (p, q) = (a.narrow(1, 0, h), b.narrow(1, 0, h));
    assert(i.alike(p, q));
    lemma_convs_alike(i, m.conv_pre, m_again.conv_pre, p, q);
    lemma_separable_alike(
        i,
        m.conv_dds,
        m_again.conv_dds,
        m.conv_pre.output(p),
        m_again.conv_pre.output(q),
        mask,
        mask_again,
        cond,
        cond_again,
    );
    let (r, s) = (
        m.conv_dds.output(m.conv_pre.output(p), mask, cond),
        m_again.conv_dds.output(m_again.conv_pre.output(q), mask_again, cond_again),
    );
    lemma_convs_alike(i, m.conv_proj, m_again.conv_proj, r, s);
    let (r, s) = (m.described(p, mask, cond), m_again.described(q, mask_again, cond_again));
    assert(i.alike(r, s));
    match p.shape() {
        Shape::S3(batch, _, length) => {
            let shape = Shape::S4(
                batch,
                h,
                (r.shape().count() / p.shape().count()) as usize,
                length,
            );
            assert(i.alike(r.reshape(shape), s.reshape(shape)));
            assert(i.alike(r.reshape(shape).transpose(2, 3), s.reshape(shape).transpose(2, 3)));
        },
        _ => {},
    }
    assert(i.alike(m.sorted(p, r), m_again.sorted(q, s)));
    lemma_spline_alike(i, m, m_again, m.sorted(p, r), m_again.sorted(q, s));
    let (x, y) = (a.narrow(1, h, h), b.narrow(1, h, h));
    assert(i.alike(x, y));
    let (u, v) = (m.spline_for(a, mask, cond), m_again.spline_for(b, mask_again, cond_again));
    lemma_extended_alike(i, u, v, x, y);
    assert(i.alike(p.concat(u.extended(x, true), 1), q.concat(v.extended(y, true), 1)));
}

proof fn lemma_affine_alike<V>(
    i: Interpretation<V>,
    m: VitsElementwiseAffine,
    m_again: VitsElementwiseAffine,
    a: Term,
    b: Term,
    mask: Term,
    mask_again: Term,
)
    requires
        flows_alike(i, Flow::Affine(m), Flow::Affine(m_again)),
        i.alike(a, b),
        i.alike(mask, mask_again),
    ensures
        i.alike(m.output(a, mask, true), m_again.output(b, mask_again, true)),
{
    broadcast use crate::tensor::meaning::congruence;

    let (p, q) = (a.broadcast_sub(m.translate@), b.broadcast_sub(m_again.translate@));
    assert(i.alike(p, q));
    assert(i.alike(m.log_scale@.neg(), m_again.log_scale@.neg()));
    let (s, t) = (m.log_scale@.neg().exp(), m_again.log_scale@.neg().exp());
    assert(i.alike(s, t));
    assert(i.alike(p.broadcast_mul(s), q.broadcast_mul(t)));
}

proof fn lemma_flows_alike<V>(
    i: Interpretation<V>,
    m: VitsStochasticDurationPredictor,
    m_again: VitsStochasticDurationPredictor,
    order: Seq<usize>,
    n: int,
    a: Term,
    b: Term,
    mask: Term,
    mask_again: Term,
    told: Term,
    told_again: Term,
)
    requires
        predictors_alike(i, m, m_again),
        forall|k: int|
            0 <= k < order.len() ==> #[trigger] order[k] < m.flows@.len() && order[k] != 1,
        i.alike(a, b),
        i.alike(mask, mask_again),
        i.alike(told, told_again),
    ensures
        i.alike(
            m.run_from(order, n, a, mask, told),
            m_again.run_from(order, n, b, mask_again, told_again),
        ),
    decreases order.len() - n,
{
    broadcast use crate::tensor::meaning::congruence;

    if 0 <= n < order.len() {
        let flow = m.flows@[order[n] as int];
        let flow_again = m_again.flows@[order[n] as int];
        assert(flows_alike(i, flow, flow_again));
        let (p, q) = (a.reverse(1), b.reverse(1));
        assert(i.alike(p, q));
        match (flow, flow_again) {
            (Flow::Affine(f), Flow::Affine(g)) => {
                lemma_affine_alike(i, f, g, p, q, mask, mask_again);
            },
            (Flow::Conv(f), Flow::Conv(g)) => {
                lemma_conv_flow_alike(
                    i,
                    f,
                    g,
                    p,
                    q,
                    mask,
                    mask_again,
                    Some(told),
                    Some(told_again),
                );
            },
            _ => {},
        }
        lemma_flows_alike(
            i,
            m,
            m_again,
            order,
            n + 1,
            flow.output(p, mask, Some(told), true),
            flow_again.output(q, mask_again, Some(told_again), true),
            mask,
            mask_again,
            told,
            told_again,
        );
    }
}

/// For weights, inputs and masks that are alike, the logarithms of the durations are. The weights
/// of the second flow do not count.
pub proof fn lemma_predictors_alike<V>(
    i: Interpretation<V>,
    m: VitsStochasticDurationPredictor,
    m_again: VitsStochasticDurationPredictor,
    a: Term,
    b: Term,
    mask: Term,
    mask_again: Term,
    cond: Option<Term>,
    noise_scale: Real,
)
    requires
        predictors_alike(i, m, m_again),
        i.alike(a, b),
        i.alike(mask, mask_again),
    ensures
        i.alike(
            m.output(a, mask, cond, noise_scale),
            m_again.output(b, mask_again, cond, noise_scale),
        ),
{
    broadcast use crate::tensor::meaning::congruence;

    reveal(VitsStochasticDurationPredictor::output);
    lemma_convs_alike(i, m.conv_pre, m_again.conv_pre, a, b);
    let (p, q) = (m.conv_pre.output(a), m_again.conv_pre.output(b));
    let (p, q) = match (cond, m.cond, m_again.cond) {
        (Some(gc), Some(f), Some(g)) => (p.add(f.output(gc)), q.add(g.output(gc))),
        _ => (p, q),
    };
    assert(i.alike(p, q)) by {
        match (cond, m.cond, m_again.cond) {
            (Some(gc), Some(f), Some(g)) => {
                lemma_convs_alike(i, f, g, gc, gc);
            },
            _ => {},
        }
    }
    lemma_separable_alike(i, m.conv_dds, m_again.conv_dds, p, q, mask, mask_again, None, None);
    let (p, q) = (
        m.conv_dds.output(p, mask, None),
        m_again.conv_dds.output(q, mask_again, None),
    );
    lemma_convs_alike(i, m.conv_proj, m_again.conv_proj, p, q);
    let (told, told_again) = (
        m.conditioning(a, mask, cond),
        m_again.conditioning(b, mask_again, cond),
    );
    assert(i.alike(told, told_again));
    match told.shape() {
        Shape::S3(batch, _, len) => {
            let latents = Term::randn(Noise::Durations, Shape::S3(batch, 2, len)).scale(
                Scalar::Value(noise_scale),
            );
            let order = duration_predictor::backward_order(m.flows@.len());
            if m.flows@.len() >= 2 {
                assert(m.flows.len() == m.flows@.len());
                assert forall|k: int| 0 <= k < order.len() implies #[trigger] order[k]
                    < m.flows@.len() && order[k] != 1 by {
                    duration_predictor::lemma_backward_order(m.flows@.len(), order[k]);
                    assert(order.contains(order[k]));
                }
                lemma_flows_alike(
                    i,
                    m,
                    m_again,
                    order,
                    0,
                    latents,
                    latents,
                    mask,
                    mask_again,
                    told,
                    told_again,
                );
            }
        },
        _ => {},
    }
}

proof fn lemma_leaky_alike<V>(i: Interpretation<V>, a: Term, b: Term, slope: Real)
    requires
        i.alike(a, b),
    ensures
        i.alike(hifigan::leaky(a, slope), hifigan::leaky(b, slope)),
{
    broadcast use crate::tensor::meaning::congruence;

    let zeros = a.zeros_like();
    assert(b.zeros_like() == zeros);
    assert(i.alike(a.maximum(zeros), b.maximum(zeros)));
    assert(i.alike(a.minimum(zeros), b.minimum(zeros)));
    let s = Scalar::Value(slope);
    assert(i.alike(a.minimum(zeros).scale(s), b.minimum(zeros).scale(s)));
}

proof fn lemma_residual_alike<V>(
    i: Interpretation<V>,
    block: HifiGanResidualBlock,
    n: nat,
    a: Term,
    b: Term,
)
    requires
        i.alike(a, b),
    ensures
        i.alike(block.output_from(n, a), block.output_from(n, b)),
    decreases block.convs@.len() - n,
{
    broadcast use crate::tensor::meaning::congruence;

    if n < block.convs@.len() {
        let pair = block.convs@[n as int];
        let slope = block.leaky_relu_slope;
        lemma_leaky_alike(i, a, b, slope);
        let (p, q) = (hifigan::leaky(a, slope), hifigan::leaky(b, slope));
        inverse::lemma_conv_alike(i, pair.conv1, p, q);
        let (p, q) = (pair.conv1.output(p), pair.conv1.output(q));
        lemma_leaky_alike(i, p, q, slope);
        let (p, q) = (hifigan::leaky(p, slope), hifigan::leaky(q, slope));
        inverse::lemma_conv_alike(i, pair.conv2, p, q);
        assert(i.alike(block.step(n, a), block.step(n, b)));
        lemma_residual_alike(i, block, n + 1, block.step(n, a), block.step(n, b));
    }
}

proof fn lemma_sums_alike<V>(
    i: Interpretation<V>,
    m: VitsHifiGan,
    n: nat,
    j: nat,
    sum: Term,
    sum_again: Term,
    a: Term,
    b: Term,
)
    requires
        i.alike(a, b),
        i.alike(sum, sum_again),
    ensures
        i.alike(m.sum_from(n, j, sum, a), m.sum_from(n, j, sum_again, b)),
    decreases m.resblocks@[n as int]@.len() - j,
{
    broadcast use crate::tensor::meaning::congruence;

    if j < m.resblocks@[n as int]@.len() {
        let block = m.resblocks@[n as int]@[j as int];
        reveal(HifiGanResidualBlock::output);
        lemma_residual_alike(i, block, 0, a, b);
        let (p, q) = (sum.add(block.output(a)), sum_again.add(block.output(b)));
        assert(i.alike(p, q));
        lemma_sums_alike(i, m, n, j + 1, p, q, a, b);
    }
}

proof fn lemma_stages_alike<V>(i: Interpretation<V>, m: VitsHifiGan, n: nat, a: Term, b: Term)
    requires
        i.alike(a, b),
    ensures
        i.alike(m.output_from(n, a), m.output_from(n, b)),
    decreases m.num_upsamples - n,
{
    broadcast use crate::tensor::meaning::congruence;

    if n < m.num_upsamples {
        if m.stage_complete(n) {
            lemma_leaky_alike(i, a, b, m.leaky_relu_slope);
            let (p, q) = (
                hifigan::leaky(a, m.leaky_relu_slope),
                hifigan::leaky(b, m.leaky_relu_slope),
            );
            let up = m.upsampler@[n as int];
            assert(i.alike(
                p.conv_transpose1d(up.weight@, up.config),
                q.conv_transpose1d(up.weight@, up.config),
            ));
            let (p, q) = (up.output(p), up.output(q));
            assert(i.alike(p, q));
            reveal(HifiGanResidualBlock::output);
            let block = m.resblocks@[n as int]@[0];
            lemma_residual_alike(i, block, 0, p, q);
            lemma_sums_alike(i, m, n, 1, block.output(p), block.output(q), p, q);
        }
        assert(i.alike(m.stage(n, a), m.stage(n, b)));
        lemma_stages_alike(i, m, n + 1, m.stage(n, a), m.stage(n, b));
    } else {
        let slope = Real { bits: HUNDREDTH_BITS };
        lemma_leaky_alike(i, a, b, slope);
        inverse::lemma_conv_alike(
            i,
            m.conv_post,
            hifigan::leaky(a, slope),
            hifigan::leaky(b, slope),
        );
    }
}

/// For latent frames that are alike, the sounds are.
pub proof fn lemma_decoder_alike<V>(i: Interpretation<V>, m: VitsHifiGan, a: Term, b: Term)
    requires
        i.alike(a, b),
    ensures
        i.alike(m.output(a, None), m.output(b, None)),
{
    reveal(VitsHifiGan::output);
    inverse::lemma_conv_alike(i, m.conv_pre, a, b);
    lemma_stages_alike(i, m, 0, m.first(a, None), m.first(b, None));
}

} // verus!
