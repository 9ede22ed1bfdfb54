//! That the inverses of the flows undo them.
//!
//! Rounding keeps them from doing so to the last bit, so this holds where arithmetic is exact.

use vstd::prelude::*;

use crate::config::VitsConfig;
use crate::model::coupling::{VitsResidualCouplingBlock, VitsResidualCouplingLayer};
use crate::model::flows::VitsElementwiseAffine;
use crate::model::wavenet::VitsWaveNet;
use crate::nn;
use crate::nn::{Conv1d, ScopeView};
use crate::tensor::meaning;
use crate::tensor::meaning::Interpretation;
use crate::tensor::ops::{Leaf, Op1, Op2, Op3};
use crate::tensor::shape::Shape;
use crate::tensor::term;
use crate::tensor::term::Term;

verus! {

/// Whether a mask of one channel can be applied to a tensor without changing its type.
pub open spec fn fits(a: Term, mask: Term) -> bool {
    &&& term::typ(a) is Some && a.shape() is S3
    &&& mask.shape() is S3 && mask.shape()->S3_1 == 1
    &&& term::typ(a.broadcast_mul(mask)) == term::typ(a)
}

/// Whether a convolution has a kernel of length one, so that it takes every place by itself.
pub open spec fn pointwise(conv: Conv1d) -> bool {
    &&& conv.config == nn::plain_conv()
    &&& conv.weight@.shape() is S3 && conv.weight@.shape()->S3_2 == 1
}

/// Whether sums, differences and products are exact, and a mask is one of zeros and ones for all
/// channels together, so that it makes no difference whether it is applied before an operation that
/// takes every place by itself too.
pub open spec fn exact<V>(i: Interpretation<V>, mask: Term) -> bool {
    &&& forall|a: Term, b: Term|
        term::typ(a.add(b)) is Some ==> #[trigger] i.value(a.add(b).sub(a)) == i.value(b)
    &&& forall|a: Term, b: Term|
        term::typ(a) is Some && term::typ(a) == term::typ(b) ==> #[trigger] i.value(
            a.mul(b.zeros_like().exp()),
        ) == i.value(a)
    &&& forall|a: Term, b: Term|
        term::typ(a) is Some && term::typ(a) == term::typ(b) ==> #[trigger] i.value(
            a.mul(b.zeros_like().neg().exp()),
        ) == i.value(a)
    &&& forall|a: Term|
        term::typ(a.broadcast_mul(mask)) is Some ==> #[trigger] i.value(
            a.broadcast_mul(mask).broadcast_mul(mask),
        ) == i.value(a.broadcast_mul(mask))
    &&& forall|a: Term, b: Term|
        fits(a, mask) && fits(b, mask) && term::typ(a) == term::typ(b) ==> #[trigger] i.value(
            a.add(b).broadcast_mul(mask),
        ) == i.value(a.broadcast_mul(mask).add(b.broadcast_mul(mask)))
    &&& forall|a: Term, b: Term|
        fits(a, mask) && fits(b, mask) && term::typ(a) == term::typ(b) ==> #[trigger] i.value(
            a.sub(b).broadcast_mul(mask),
        ) == i.value(a.broadcast_mul(mask).sub(b.broadcast_mul(mask)))
    &&& forall|conv: Conv1d, a: Term|
        pointwise(conv) && fits(a, mask) && term::typ(conv.output(a)) is Some ==> #[trigger] i.value(
            conv.output(a).broadcast_mul(mask),
        ) == i.value(conv.output(a.broadcast_mul(mask)).broadcast_mul(mask))
    &&& forall|a: Term, start: usize, len: usize|
        fits(a, mask) && term::typ(a.narrow(1, start, len)) is Some ==> #[trigger] i.value(
            a.narrow(1, start, len).broadcast_mul(mask),
        ) == i.value(a.broadcast_mul(mask).narrow(1, start, len))
    &&& forall|a: Term, b: Term|
        fits(a, mask) && fits(b, mask) && term::typ(a.concat(b, 1)) is Some ==> #[trigger] i.value(
            a.concat(b, 1).broadcast_mul(mask),
        ) == i.value(a.broadcast_mul(mask).concat(b.broadcast_mul(mask), 1))
    &&& forall|a: Term|
        fits(a, mask) && term::typ(a.reverse(1)) is Some ==> #[trigger] i.value(
            a.reverse(1).broadcast_mul(mask),
        ) == i.value(a.broadcast_mul(mask).reverse(1))
}

/// Whether a tensor is zero where the mask is.
pub open spec fn masked<V>(i: Interpretation<V>, x: Term, mask: Term) -> bool {
    i.alike(x.broadcast_mul(mask), x)
}

pub(crate) proof fn lemma_conv_alike<V>(i: Interpretation<V>, conv: Conv1d, a: Term, b: Term)
    requires
        i.alike(a, b),
    ensures
        i.alike(conv.output(a), conv.output(b)),
{
    broadcast use crate::tensor::meaning::congruence;

}

proof fn lemma_acts_alike<V>(
    i: Interpretation<V>,
    net: VitsWaveNet,
    n: nat,
    a: Term,
    b: Term,
    cond: Option<Term>,
)
    requires
        i.alike(a, b),
    ensures
        i.alike(net.split_acts(n, a, cond), net.split_acts(n, b, cond)),
{
    broadcast use crate::tensor::meaning::congruence;

    let layer = net.layers@[n as int];
    let (p, q) = (layer.in_layer.output(a), layer.in_layer.output(b));
    lemma_conv_alike(i, layer.in_layer, a, b);
    assert(net.share(n, cond, p) == net.share(n, cond, q));
    let (s, t) = (p.add(net.share(n, cond, p)), q.add(net.share(n, cond, q)));
    assert(i.alike(s, t));
    let c = net.hidden_size;
    let (f, g) = (
        crate::model::wavenet::gate(p, net.share(n, cond, p), c),
        crate::model::wavenet::gate(q, net.share(n, cond, q), c),
    );
    let rest = (s.shape().spec_dim(1) - c) as usize;
    assert(i.alike(s.narrow(1, 0, c), t.narrow(1, 0, c)));
    assert(i.alike(s.narrow(1, c, rest), t.narrow(1, c, rest)));
    assert(i.alike(f, g));
    let d = net.dropout_p;
    assert(i.alike(nn::dropped(f, d), nn::dropped(g, d)));
    lemma_conv_alike(i, layer.res_skip_layer, nn::dropped(f, d), nn::dropped(g, d));
}

proof fn lemma_wavenet_alike_from<V>(
    i: Interpretation<V>,
    net: VitsWaveNet,
    n: nat,
    a: Term,
    b: Term,
    sum_a: Term,
    sum_b: Term,
    mask: Term,
    cond: Option<Term>,
)
    requires
        i.alike(a, b),
        i.alike(sum_a, sum_b),
    ensures
        i.alike(
            net.output_from(n, a, sum_a, mask, cond),
            net.output_from(n, b, sum_b, mask, cond),
        ),
    decreases net.layers@.len() - n,
{
    broadcast use crate::tensor::meaning::congruence;

    if n < net.layers@.len() {
        let (p, q) = (net.split_acts(n, a, cond), net.split_acts(n, b, cond));
        lemma_acts_alike(i, net, n, a, b, cond);
        let h = net.hidden_size;
        let rest = (p.shape().spec_dim(1) - h) as usize;
        if n + 1 < net.layers@.len() {
            assert(i.alike(p.narrow(1, 0, h), q.narrow(1, 0, h)));
            assert(i.alike(p.narrow(1, h, rest), q.narrow(1, h, rest)));
            assert(i.alike(a.add(p.narrow(1, 0, h)), b.add(q.narrow(1, 0, h))));
            lemma_wavenet_alike_from(
                i,
                net,
                n + 1,
                a.add(p.narrow(1, 0, h)).broadcast_mul(mask),
                b.add(q.narrow(1, 0, h)).broadcast_mul(mask),
                sum_a.add(p.narrow(1, h, rest)),
                sum_b.add(q.narrow(1, h, rest)),
                mask,
                cond,
            );
        } else {
            lemma_wavenet_alike_from(
                i,
                net,
                n + 1,
                a,
                b,
                sum_a.add(p),
                sum_b.add(q),
                mask,
                cond,
            );
        }
    }
}

/// For inputs that are alike behind the first convolution, the shifts are.
proof fn lemma_mean_alike_behind<V>(
    i: Interpretation<V>,
    layer: VitsResidualCouplingLayer,
    a: Term,
    b: Term,
    mask: Term,
    cond: Option<Term>,
)
    requires
        i.alike(
            layer.conv_pre.output(a).broadcast_mul(mask),
            layer.conv_pre.output(b).broadcast_mul(mask),
        ),
    ensures
        i.alike(layer.mean(a, mask, cond), layer.mean(b, mask, cond)),
{
    broadcast use crate::tensor::meaning::congruence;

    reveal(VitsWaveNet::output);
    let net = layer.wavenet;
    let (p, q) = (
        layer.conv_pre.output(a).broadcast_mul(mask),
        layer.conv_pre.output(b).broadcast_mul(mask),
    );
    assert(p.zeros_like() == q.zeros_like());
    let told = match (cond, net.cond_layer) {
        (Some(c), Some(l)) => Some(l.output(c)),
        _ => None,
    };
    lemma_wavenet_alike_from(i, net, 0, p, q, p.zeros_like(), q.zeros_like(), mask, told);
    assert(i.alike(net.output(p, mask, cond), net.output(q, mask, cond)));
    lemma_conv_alike(i, layer.conv_post, net.output(p, mask, cond), net.output(q, mask, cond));
}

/// For inputs that are alike, the shifts are.
proof fn lemma_mean_alike<V>(
    i: Interpretation<V>,
    layer: VitsResidualCouplingLayer,
    a: Term,
    b: Term,
    mask: Term,
    cond: Option<Term>,
)
    requires
        i.alike(a, b),
    ensures
        i.alike(layer.mean(a, mask, cond), layer.mean(b, mask, cond)),
{
    broadcast use crate::tensor::meaning::congruence;

    lemma_conv_alike(i, layer.conv_pre, a, b);
    lemma_mean_alike_behind(i, layer, a, b, mask, cond);
}

proof fn lemma_shift_types(m: Term, s: Term, mask: Term)
    requires
        fits(m, mask),
        fits(s, mask),
        term::typ(m) == term::typ(s),
        term::typ(s.mul(m.zeros_like().exp())) is Some,
    ensures
        ({
            let shifted = m.add(s.mul(m.zeros_like().exp())).broadcast_mul(mask);
            let back = shifted.sub(m).mul(m.zeros_like().neg().exp());
            &&& term::typ(s.mul(m.zeros_like().exp())) == term::typ(s)
            &&& term::typ(m.add(s)) == term::typ(s)
            &&& term::typ(m.add(s.mul(m.zeros_like().exp()))) == term::typ(s)
            &&& term::typ(shifted) == term::typ(s)
            &&& term::typ(m.add(s.broadcast_mul(mask))) == term::typ(s)
            &&& term::typ(shifted.sub(m)) == term::typ(s)
            &&& term::typ(back) == term::typ(s)
            &&& term::typ(back.broadcast_mul(mask)) == term::typ(s)
        }),
{
    broadcast use crate::tensor::term::typing_rules;

    term::lemma_typ_fits(&s);
}

/// A shift under a mask, taken back under the mask.
proof fn lemma_shifted_back<V>(i: Interpretation<V>, m: Term, s: Term, mask: Term)
    requires
        exact(i, mask),
        masked(i, m, mask),
        fits(m, mask),
        fits(s, mask),
        term::typ(m) == term::typ(s),
        term::typ(s.mul(m.zeros_like().exp())) is Some,
    ensures
        ({
            let shifted = m.add(s.mul(m.zeros_like().exp())).broadcast_mul(mask);
            let back = shifted.sub(m).mul(m.zeros_like().neg().exp()).broadcast_mul(mask);
            &&& fits(shifted, mask)
            &&& masked(i, shifted, mask)
            &&& i.alike(back, s.broadcast_mul(mask))
        }),
{
    broadcast use crate::tensor::meaning::congruence;

    lemma_shift_types(m, s, mask);
    let kept = s.mul(m.zeros_like().exp());
    let sum = m.add(kept);
    let shifted = sum.broadcast_mul(mask);
    assert(i.alike(kept, s));
    assert(i.alike(sum, m.add(s)));
    lemma_fits_alike(sum, m, mask);
    assert(i.alike(shifted, m.add(s).broadcast_mul(mask)));
    assert(i.value(m.add(s).broadcast_mul(mask)) == i.value(
        m.broadcast_mul(mask).add(s.broadcast_mul(mask)),
    ));
    assert(i.alike(
        m.broadcast_mul(mask).add(s.broadcast_mul(mask)),
        m.add(s.broadcast_mul(mask)),
    ));
    assert(i.alike(shifted, m.add(s.broadcast_mul(mask))));
    let plain = m.add(s.broadcast_mul(mask)).sub(m);
    assert(i.alike(shifted.sub(m), plain));
    assert(i.value(plain) == i.value(s.broadcast_mul(mask)));
    let back = shifted.sub(m).mul(m.zeros_like().neg().exp());
    assert(i.value(back) == i.value(shifted.sub(m)));
    assert(i.alike(back, s.broadcast_mul(mask)));
    assert(i.alike(back.broadcast_mul(mask), s.broadcast_mul(mask).broadcast_mul(mask)));
    lemma_fits_alike(shifted, m, mask);
    assert(i.value(shifted.broadcast_mul(mask)) == i.value(shifted));
}

/// A mask fits all tensors of a type or none.
proof fn lemma_fits_alike(a: Term, b: Term, mask: Term)
    requires
        fits(b, mask),
        term::typ(a) == term::typ(b),
    ensures
        fits(a, mask),
        term::typ(a.broadcast_mul(mask)) == term::typ(b.broadcast_mul(mask)),
{
    broadcast use crate::tensor::term::typing_rules;

}

/// The types in a coupling layer.
proof fn lemma_layer_types(
    layer: VitsResidualCouplingLayer,
    x: Term,
    mask: Term,
    cond: Option<Term>,
)
    requires
        term::typ(layer.output(x, mask, cond, false)) is Some,
        x.shape() is S3,
        x.shape()->S3_1 == 2 * layer.half_channels,
        fits(x, mask),
    ensures
        ({
            let half = layer.half_channels;
            let first = x.narrow(1, 0, half);
            let second = x.narrow(1, half, half);
            let mean = layer.mean(first, mask, cond);
            let shape = Shape::S3(x.shape()->S3_0, half, x.shape()->S3_2);
            &&& fits(first, mask) && first.shape() == shape
            &&& fits(second, mask) && second.shape() == shape
            &&& fits(mean, mask)
            &&& term::typ(second) == term::typ(first)
            &&& term::typ(mean) == term::typ(first)
            &&& term::typ(second.mul(mean.zeros_like().exp())) is Some
            &&& layer.output(x, mask, cond, false).shape() == x.shape()
            &&& term::typ(layer.output(x, mask, cond, false)) == term::typ(x)
        }),
{
    broadcast use crate::tensor::term::strictness;

    let half = layer.half_channels;
    let first = x.narrow(1, 0, half);
    let second = x.narrow(1, half, half);
    let mean = layer.mean(first, mask, cond);
    let scaled = second.mul(mean.zeros_like().exp());
    let changed = mean.add(scaled).broadcast_mul(mask);
    assert(layer.output(x, mask, cond, false) == first.concat(changed, 1));
    lemma_half_types(x, mask, half);
    lemma_sum_types(mean, second);
    lemma_fits_alike(mean, second, mask);
    lemma_fits_alike(mean.add(scaled), second, mask);
    lemma_join_types(x, changed, half);
}

proof fn lemma_half_types(x: Term, mask: Term, half: usize)
    requires
        fits(x, mask),
        x.shape()->S3_1 == 2 * half,
        term::typ(x.narrow(1, 0, half)) is Some,
        term::typ(x.narrow(1, half, half)) is Some,
    ensures
        ({
            let shape = Shape::S3(x.shape()->S3_0, half, x.shape()->S3_2);
            &&& fits(x.narrow(1, 0, half), mask) && x.narrow(1, 0, half).shape() == shape
            &&& fits(x.narrow(1, half, half), mask) && x.narrow(1, half, half).shape() == shape
            &&& term::typ(x.narrow(1, half, half)) == term::typ(x.narrow(1, 0, half))
        }),
{
    broadcast use crate::tensor::term::typing_rules;

}

proof fn lemma_sum_types(mean: Term, second: Term)
    requires
        term::typ(mean.add(second.mul(mean.zeros_like().exp()))) is Some,
    ensures
        term::typ(mean) == term::typ(second),
        term::typ(mean.add(second.mul(mean.zeros_like().exp()))) == term::typ(second),
        term::typ(second.mul(mean.zeros_like().exp())) is Some,
{
    broadcast use crate::tensor::term::typing_rules;

}

proof fn lemma_join_types(x: Term, changed: Term, half: usize)
    requires
        term::typ(x.narrow(1, 0, half).concat(changed, 1)) is Some,
        x.shape() is S3,
        x.shape()->S3_1 == 2 * half,
        term::typ(changed) == term::typ(x.narrow(1, half, half)),
    ensures
        term::typ(x.narrow(1, 0, half).concat(changed, 1)) == term::typ(x),
{
    broadcast use crate::tensor::term::typing_rules;

}

/// What the inverse of a coupling layer makes of its output: the first half as it was, and the
/// second half under the mask.
proof fn lemma_layer_back<V>(
    i: Interpretation<V>,
    layer: VitsResidualCouplingLayer,
    x: Term,
    mask: Term,
    cond: Option<Term>,
)
    requires
        i.moves(),
        exact(i, mask),
        fits(x, mask),
        x.shape()->S3_1 == 2 * layer.half_channels,
        term::typ(layer.output(x, mask, cond, false)) is Some,
    ensures
        ({
            let half = layer.half_channels;
            let first = x.narrow(1, 0, half);
            let second = x.narrow(1, half, half);
            let y = layer.output(x, mask, cond, false);
            &&& i.alike(
                layer.output(y, mask, cond, true),
                first.concat(second.broadcast_mul(mask), 1),
            )
            &&& term::typ(y) == term::typ(x)
            &&& fits(first, mask)
            &&& fits(second, mask)
            &&& term::typ(first.concat(second.broadcast_mul(mask), 1)) == term::typ(x)
        }),
{
    broadcast use crate::tensor::meaning::congruence;

    lemma_layer_types(layer, x, mask, cond);
    let half = layer.half_channels;
    let first = x.narrow(1, 0, half);
    let second = x.narrow(1, half, half);
    let mean = layer.mean(first, mask, cond);
    let shifted = mean.add(second.mul(mean.zeros_like().exp())).broadcast_mul(mask);
    let y = layer.output(x, mask, cond, false);
    assert(y == first.concat(shifted, 1));
    lemma_mean_masked(i, layer, first, mask, cond);
    lemma_shifted_back(i, mean, second, mask);
    lemma_shift_types(mean, second, mask);

    // The parts of the output are the first half and the shifted second one.
    meaning::lemma_parts_of_joined(i, first, shifted);
    let first_again = y.narrow(1, 0, half);
    let second_again = y.narrow(1, half, half);
    assert(i.alike(first_again, first));
    assert(i.alike(second_again, shifted));
    lemma_mean_alike(i, layer, first_again, first, mask, cond);
    let mean_again = layer.mean(first_again, mask, cond);
    assert(mean_again.zeros_like() == mean.zeros_like());
    let back = shifted.sub(mean).mul(mean.zeros_like().neg().exp()).broadcast_mul(mask);
    let back_again = second_again.sub(mean_again).mul(
        mean_again.zeros_like().neg().exp(),
    ).broadcast_mul(mask);
    assert(i.alike(second_again.sub(mean_again), shifted.sub(mean)));
    assert(i.alike(
        second_again.sub(mean_again).mul(mean_again.zeros_like().neg().exp()),
        shifted.sub(mean).mul(mean.zeros_like().neg().exp()),
    ));
    assert(i.alike(back_again, back));
    assert(i.alike(back_again, second.broadcast_mul(mask)));
    let z = layer.output(y, mask, cond, true);
    assert(z == first_again.concat(back_again, 1));
    assert(i.alike(z, first.concat(second.broadcast_mul(mask), 1)));
    assert(nothing().alike(shifted, second.broadcast_mul(mask)));
    assert(nothing().alike(y, first.concat(second.broadcast_mul(mask), 1)));
}

/// The inverse of a coupling layer undoes it, for an input that is zero where the mask is; and the
/// output is zero there too.
pub proof fn lemma_layer_inverse<V>(
    i: Interpretation<V>,
    layer: VitsResidualCouplingLayer,
    x: Term,
    mask: Term,
    cond: Option<Term>,
)
    requires
        i.moves(),
        exact(i, mask),
        masked(i, x, mask),
        fits(x, mask),
        x.shape()->S3_1 == 2 * layer.half_channels,
        term::typ(layer.output(x, mask, cond, false)) is Some,
    ensures
        i.alike(
            layer.output(layer.output(x, mask, cond, false), mask, cond, true),
            x,
        ),
        term::typ(layer.output(x, mask, cond, false)) == term::typ(x),
        masked(i, layer.output(x, mask, cond, false), mask),
{
    broadcast use crate::tensor::meaning::congruence;

    lemma_layer_types(layer, x, mask, cond);
    lemma_layer_back(i, layer, x, mask, cond);
    let half = layer.half_channels;
    let first = x.narrow(1, 0, half);
    let second = x.narrow(1, half, half);
    let mean = layer.mean(first, mask, cond);
    let shifted = mean.add(second.mul(mean.zeros_like().exp())).broadcast_mul(mask);
    let y = layer.output(x, mask, cond, false);
    assert(y == first.concat(shifted, 1));
    lemma_mean_masked(i, layer, first, mask, cond);
    lemma_shifted_back(i, mean, second, mask);

    // Both halves of the input are zero where the mask is.
    assert(i.alike(x.broadcast_mul(mask).narrow(1, half, half), second));
    assert(i.alike(x.broadcast_mul(mask).narrow(1, 0, half), first));
    assert(i.alike(second.broadcast_mul(mask), second));
    assert(i.alike(first.broadcast_mul(mask), first));
    assert(i.alike(first.concat(second.broadcast_mul(mask), 1), first.concat(second, 1)));
    meaning::lemma_joined_parts(i, x, half);

    assert(i.value(y.broadcast_mul(mask)) == i.value(
        first.broadcast_mul(mask).concat(shifted.broadcast_mul(mask), 1),
    ));
    assert(i.alike(first.broadcast_mul(mask).concat(shifted.broadcast_mul(mask), 1), y));
    lemma_fits_alike(y, x, mask);
}

/// The shift is zero where the mask is.
proof fn lemma_mean_masked<V>(
    i: Interpretation<V>,
    layer: VitsResidualCouplingLayer,
    first: Term,
    mask: Term,
    cond: Option<Term>,
)
    requires
        exact(i, mask),
        fits(layer.mean(first, mask, cond), mask),
    ensures
        masked(i, layer.mean(first, mask, cond), mask),
{
}

/// For inputs that are alike, what a layer gives is.
proof fn lemma_layer_alike<V>(
    i: Interpretation<V>,
    layer: VitsResidualCouplingLayer,
    a: Term,
    b: Term,
    mask: Term,
    cond: Option<Term>,
)
    requires
        i.alike(a, b),
    ensures
        i.alike(layer.output(a, mask, cond, true), layer.output(b, mask, cond, true)),
{
    broadcast use crate::tensor::meaning::congruence;

    let half = layer.half_channels;
    let (p, q) = (a.narrow(1, 0, half), b.narrow(1, 0, half));
    let (s, t) = (a.narrow(1, half, half), b.narrow(1, half, half));
    assert(i.alike(p, q));
    assert(i.alike(s, t));
    lemma_mean_alike(i, layer, p, q, mask, cond);
    let (m, n) = (layer.mean(p, mask, cond), layer.mean(q, mask, cond));
    assert(m.zeros_like() == n.zeros_like());
    let (u, v) = (s.sub(m), t.sub(n));
    assert(i.alike(u, v));
    assert(i.alike(
        u.mul(m.zeros_like().neg().exp()),
        v.mul(n.zeros_like().neg().exp()),
    ));
}

/// For inputs that are alike, what the inverses of the first layers give is.
pub(crate) proof fn lemma_backwards_alike<V>(
    i: Interpretation<V>,
    block: VitsResidualCouplingBlock,
    n: nat,
    a: Term,
    b: Term,
    mask: Term,
    cond: Option<Term>,
)
    requires
        i.alike(a, b),
        n <= block.flows@.len(),
    ensures
        i.alike(block.backwards_from(n, a, mask, cond), block.backwards_from(n, b, mask, cond)),
    decreases n,
{
    broadcast use crate::tensor::meaning::congruence;

    if n > 0 {
        let layer = block.flows@[n - 1];
        assert(i.alike(a.reverse(1), b.reverse(1)));
        lemma_layer_alike(i, layer, a.reverse(1), b.reverse(1), mask, cond);
        lemma_backwards_alike(
            i,
            block,
            (n - 1) as nat,
            layer.output(a.reverse(1), mask, cond, true),
            layer.output(b.reverse(1), mask, cond, true),
            mask,
            cond,
        );
    }
}

proof fn lemma_reversed_type(x: Term)
    requires
        term::typ(x.reverse(1)) is Some,
    ensures
        term::typ(x.reverse(1)) == term::typ(x),
{
    broadcast use crate::tensor::term::typing_rules;

}

/// Layers from number `n` on and then all inverses: what is left are the inverses of the layers
/// before.
proof fn lemma_there_and_back<V>(
    i: Interpretation<V>,
    block: VitsResidualCouplingBlock,
    n: nat,
    x: Term,
    mask: Term,
    cond: Option<Term>,
)
    requires
        i.moves(),
        exact(i, mask),
        masked(i, x, mask),
        fits(x, mask),
        n <= block.flows@.len(),
        forall|k: int|
            0 <= k < block.flows@.len() ==> x.shape()->S3_1 == 2 * (
            #[trigger] block.flows@[k]).half_channels,
        term::typ(block.forwards_from(n, x, mask, cond)) is Some,
    ensures
        i.alike(
            block.backwards_from(
                block.flows@.len(),
                block.forwards_from(n, x, mask, cond),
                mask,
                cond,
            ),
            block.backwards_from(n, x, mask, cond),
        ),
    decreases block.flows@.len() - n,
{
    broadcast use crate::tensor::meaning::congruence;

    if n < block.flows@.len() {
        let layer = block.flows@[n as int];
        let y = layer.output(x, mask, cond, false);
        let next = y.reverse(1);
        assert(term::typ(next) is Some) by {
            if term::typ(next) is None {
                block.lemma_undefined_forwards(n + 1, next, mask, cond);
            }
        }
        lemma_reversed_type(y);
        lemma_layer_inverse(i, layer, x, mask, cond);
        lemma_fits_alike(y, x, mask);
        lemma_fits_alike(next, x, mask);
        assert(i.alike(y.broadcast_mul(mask).reverse(1), y.reverse(1)));
        assert(i.value(next.broadcast_mul(mask)) == i.value(next));
        lemma_there_and_back(i, block, n + 1, next, mask, cond);

        meaning::lemma_reversed_twice(i, y);
        lemma_layer_alike(i, layer, next.reverse(1), y, mask, cond);
        let undone = layer.output(next.reverse(1), mask, cond, true);
        assert(i.alike(undone, x));
        lemma_backwards_alike(i, block, n, undone, x, mask, cond);
    }
}

/// The inverse of the coupling block undoes it, for an input that is zero where the mask is.
pub proof fn lemma_block_inverse<V>(
    i: Interpretation<V>,
    block: VitsResidualCouplingBlock,
    x: Term,
    mask: Term,
    cond: Option<Term>,
)
    requires
        i.moves(),
        exact(i, mask),
        masked(i, x, mask),
        fits(x, mask),
        forall|k: int|
            0 <= k < block.flows@.len() ==> x.shape()->S3_1 == 2 * (
            #[trigger] block.flows@[k]).half_channels,
        term::typ(block.output(x, mask, cond, false)) is Some,
    ensures
        i.alike(block.output(block.output(x, mask, cond, false), mask, cond, true), x),
{
    lemma_there_and_back(i, block, 0, x, mask, cond);
}

/// Whether two tensors of one type are the same where the mask is not zero.
pub open spec fn agree<V>(i: Interpretation<V>, a: Term, b: Term, mask: Term) -> bool {
    term::typ(a) == term::typ(b) && i.alike(a.broadcast_mul(mask), b.broadcast_mul(mask))
}

/// The types in the inverse of a coupling layer.
proof fn lemma_layer_types_back(
    layer: VitsResidualCouplingLayer,
    x: Term,
    mask: Term,
    cond: Option<Term>,
)
    requires
        term::typ(layer.output(x, mask, cond, true)) is Some,
        x.shape()->S3_1 == 2 * layer.half_channels,
        fits(x, mask),
    ensures
        ({
            let half = layer.half_channels;
            let first = x.narrow(1, 0, half);
            let second = x.narrow(1, half, half);
            let mean = layer.mean(first, mask, cond);
            let back = second.sub(mean).mul(mean.zeros_like().neg().exp());
            &&& fits(first, mask)
            &&& fits(second, mask)
            &&& fits(mean, mask)
            &&& fits(second.sub(mean), mask)
            &&& fits(back.broadcast_mul(mask), mask)
            &&& term::typ(second) == term::typ(first)
            &&& term::typ(mean) == term::typ(first)
            &&& term::typ(second.sub(mean)) == term::typ(first)
            &&& term::typ(back) == term::typ(first)
            &&& term::typ(layer.conv_pre.output(first)) is Some
            &&& term::typ(layer.output(x, mask, cond, true)) == term::typ(x)
        }),
{
    broadcast use {crate::tensor::term::strictness, crate::model::wavenet::strict_wavenet};

    let half = layer.half_channels;
    let first = x.narrow(1, 0, half);
    let second = x.narrow(1, half, half);
    let mean = layer.mean(first, mask, cond);
    let back = second.sub(mean).mul(mean.zeros_like().neg().exp());
    assert(layer.output(x, mask, cond, true) == first.concat(back.broadcast_mul(mask), 1));
    lemma_half_types(x, mask, half);
    lemma_difference_types(mean, second);
    lemma_fits_alike(mean, second, mask);
    lemma_fits_alike(second.sub(mean), second, mask);
    lemma_fits_alike(back, second, mask);
    lemma_fits_alike(back.broadcast_mul(mask), second, mask);
    lemma_join_types(x, back.broadcast_mul(mask), half);
}

proof fn lemma_difference_types(mean: Term, second: Term)
    requires
        term::typ(second.sub(mean).mul(mean.zeros_like().neg().exp())) is Some,
    ensures
        term::typ(mean) == term::typ(second),
        term::typ(second.sub(mean)) == term::typ(second),
        term::typ(second.sub(mean).mul(mean.zeros_like().neg().exp())) == term::typ(second),
{
    broadcast use crate::tensor::term::typing_rules;

}

/// A part of tensors that agree: what is left of it under the mask.
proof fn lemma_part_agrees<V>(
    i: Interpretation<V>,
    a: Term,
    b: Term,
    mask: Term,
    start: usize,
    len: usize,
)
    requires
        exact(i, mask),
        agree(i, a, b, mask),
        fits(a, mask),
        fits(a.narrow(1, start, len), mask),
    ensures
        agree(i, a.narrow(1, start, len), b.narrow(1, start, len), mask),
        fits(b.narrow(1, start, len), mask),
{
    broadcast use crate::tensor::meaning::congruence;

    let types = nothing();
    assert(types.alike(a, b));
    let (p, q) = (a.narrow(1, start, len), b.narrow(1, start, len));
    assert(types.alike(p, q));
    lemma_fits_alike(b, a, mask);
    lemma_fits_alike(q, p, mask);
    assert(i.alike(
        a.broadcast_mul(mask).narrow(1, start, len),
        b.broadcast_mul(mask).narrow(1, start, len),
    ));
    assert(i.value(p.broadcast_mul(mask)) == i.value(a.broadcast_mul(mask).narrow(1, start, len)));
    assert(i.value(q.broadcast_mul(mask)) == i.value(b.broadcast_mul(mask).narrow(1, start, len)));
}

/// The interpretation with a single value, in which expressions of one type are alike.
pub open spec fn nothing() -> Interpretation<()> {
    Interpretation {
        leaf: |leaf: Leaf| (),
        one: |op: Op1, a: ()| (),
        two: |op: Op2, a: (), b: ()| (),
        three: |op: Op3, a: (), b: (), c: ()| (),
    }
}

/// For inputs that agree, what the inverse of a layer gives agrees.
proof fn lemma_layer_agrees<V>(
    i: Interpretation<V>,
    layer: VitsResidualCouplingLayer,
    a: Term,
    b: Term,
    mask: Term,
    cond: Option<Term>,
)
    requires
        exact(i, mask),
        agree(i, a, b, mask),
        fits(a, mask),
        a.shape()->S3_1 == 2 * layer.half_channels,
        pointwise(layer.conv_pre),
        term::typ(layer.output(a, mask, cond, true)) is Some,
    ensures
        agree(i, layer.output(a, mask, cond, true), layer.output(b, mask, cond, true), mask),
        term::typ(layer.output(a, mask, cond, true)) == term::typ(a),
        fits(layer.output(a, mask, cond, true), mask),
{
    broadcast use crate::tensor::meaning::congruence;

    let half = layer.half_channels;
    lemma_layer_alike(nothing(), layer, a, b, mask, cond);
    lemma_fits_alike(b, a, mask);
    lemma_layer_types_back(layer, a, mask, cond);
    lemma_layer_types_back(layer, b, mask, cond);
    let (p, q) = (a.narrow(1, 0, half), b.narrow(1, 0, half));
    let (s, t) = (a.narrow(1, half, half), b.narrow(1, half, half));
    lemma_part_agrees(i, a, b, mask, 0, half);
    lemma_part_agrees(i, a, b, mask, half, half);

    // The shifts depend on what is left of the first halves under the mask.
    lemma_conv_alike(i, layer.conv_pre, p.broadcast_mul(mask), q.broadcast_mul(mask));
    lemma_conv_alike(nothing(), layer.conv_pre, p, q);
    let (f, g) = (layer.conv_pre.output(p), layer.conv_pre.output(q));
    assert(i.alike(
        layer.conv_pre.output(p.broadcast_mul(mask)).broadcast_mul(mask),
        layer.conv_pre.output(q.broadcast_mul(mask)).broadcast_mul(mask),
    ));
    assert(nothing().alike(f.broadcast_mul(mask), g.broadcast_mul(mask)));
    assert(i.alike(f.broadcast_mul(mask), g.broadcast_mul(mask)));
    lemma_mean_alike_behind(i, layer, p, q, mask, cond);
    let (m, n) = (layer.mean(p, mask, cond), layer.mean(q, mask, cond));

    lemma_back_agrees(i, s, t, m, n, mask);
    let u = s.sub(m).mul(m.zeros_like().neg().exp()).broadcast_mul(mask);
    let v = t.sub(n).mul(n.zeros_like().neg().exp()).broadcast_mul(mask);
    assert(i.alike(u.broadcast_mul(mask), v.broadcast_mul(mask)));
    assert(i.alike(
        p.broadcast_mul(mask).concat(u.broadcast_mul(mask), 1),
        q.broadcast_mul(mask).concat(v.broadcast_mul(mask), 1),
    ));
    let (y, z) = (p.concat(u, 1), q.concat(v, 1));
    assert(y == layer.output(a, mask, cond, true));
    assert(z == layer.output(b, mask, cond, true));
    assert(i.value(y.broadcast_mul(mask)) == i.value(
        p.broadcast_mul(mask).concat(u.broadcast_mul(mask), 1),
    ));
    assert(i.value(z.broadcast_mul(mask)) == i.value(
        q.broadcast_mul(mask).concat(v.broadcast_mul(mask), 1),
    ));
    lemma_fits_alike(y, a, mask);
    lemma_fits_alike(z, a, mask);
}

/// A shift taken back under the mask depends on what is left under the mask.
proof fn lemma_back_agrees<V>(
    i: Interpretation<V>,
    s: Term,
    t: Term,
    m: Term,
    n: Term,
    mask: Term,
)
    requires
        exact(i, mask),
        agree(i, s, t, mask),
        i.alike(m, n),
        fits(s, mask),
        fits(m, mask),
        fits(s.sub(m), mask),
        term::typ(m) == term::typ(s),
        term::typ(s.sub(m)) == term::typ(s),
        term::typ(s.sub(m).mul(m.zeros_like().neg().exp())) == term::typ(s),
    ensures
        i.alike(
            s.sub(m).mul(m.zeros_like().neg().exp()).broadcast_mul(mask),
            t.sub(n).mul(n.zeros_like().neg().exp()).broadcast_mul(mask),
        ),
{
    broadcast use crate::tensor::meaning::congruence;

    let types = nothing();
    assert(types.alike(s, t));
    assert(types.alike(m, n));
    assert(m.zeros_like() == n.zeros_like());
    let (d, e) = (s.sub(m), t.sub(n));
    assert(types.alike(d, e));
    let shrink = m.zeros_like().neg().exp();
    assert(types.alike(d.mul(shrink), e.mul(shrink)));
    assert(types.alike(d.mul(shrink).broadcast_mul(mask), e.mul(shrink).broadcast_mul(mask)));
    lemma_fits_alike(t, s, mask);
    lemma_fits_alike(n, m, mask);
    lemma_fits_alike(e, d, mask);
    assert(i.alike(d.mul(shrink), d));
    assert(i.value(e.mul(n.zeros_like().neg().exp())) == i.value(e));
    assert(i.alike(e.mul(shrink), e));
    assert(i.alike(d.mul(shrink).broadcast_mul(mask), d.broadcast_mul(mask)));
    assert(i.alike(e.mul(shrink).broadcast_mul(mask), e.broadcast_mul(mask)));
    assert(i.alike(m.broadcast_mul(mask), n.broadcast_mul(mask)));
    assert(i.alike(
        s.broadcast_mul(mask).sub(m.broadcast_mul(mask)),
        t.broadcast_mul(mask).sub(n.broadcast_mul(mask)),
    ));
    assert(i.value(d.broadcast_mul(mask)) == i.value(
        s.broadcast_mul(mask).sub(m.broadcast_mul(mask)),
    ));
    assert(i.value(e.broadcast_mul(mask)) == i.value(
        t.broadcast_mul(mask).sub(n.broadcast_mul(mask)),
    ));
}

/// For inputs that agree, what the inverses of the first layers give agrees.
proof fn lemma_backwards_agree<V>(
    i: Interpretation<V>,
    block: VitsResidualCouplingBlock,
    n: nat,
    a: Term,
    b: Term,
    mask: Term,
    cond: Option<Term>,
)
    requires
        exact(i, mask),
        agree(i, a, b, mask),
        fits(a, mask),
        n <= block.flows@.len(),
        halves(block, a),
        term::typ(block.backwards_from(n, a, mask, cond)) is Some,
    ensures
        agree(
            i,
            block.backwards_from(n, a, mask, cond),
            block.backwards_from(n, b, mask, cond),
            mask,
        ),
    decreases n,
{
    broadcast use {crate::tensor::meaning::congruence, crate::tensor::term::strictness};

    if n > 0 {
        let layer = block.flows@[n - 1];
        let (p, q) = (a.reverse(1), b.reverse(1));
        let y = layer.output(p, mask, cond, true);
        assert(term::typ(y) is Some) by {
            if term::typ(y) is None {
                block.lemma_undefined_backwards((n - 1) as nat, y, mask, cond);
            }
        }
        assert(term::typ(p.narrow(1, 0, layer.half_channels)) is Some);
        lemma_reversed_type(a);
        assert(nothing().alike(a, b));
        assert(nothing().alike(p, q));
        lemma_fits_alike(p, a, mask);
        lemma_fits_alike(b, a, mask);
        lemma_fits_alike(q, a, mask);
        assert(i.alike(a.broadcast_mul(mask).reverse(1), b.broadcast_mul(mask).reverse(1)));
        assert(i.value(p.broadcast_mul(mask)) == i.value(a.broadcast_mul(mask).reverse(1)));
        assert(i.value(q.broadcast_mul(mask)) == i.value(b.broadcast_mul(mask).reverse(1)));
        lemma_layer_agrees(i, layer, p, q, mask, cond);
        lemma_backwards_agree(
            i,
            block,
            (n - 1) as nat,
            y,
            layer.output(q, mask, cond, true),
            mask,
            cond,
        );
    }
}

/// Whether every layer of a block takes half of the channels of a tensor, and begins with a
/// convolution that takes every place by itself.
pub open spec fn halves(block: VitsResidualCouplingBlock, x: Term) -> bool {
    forall|k: int|
        0 <= k < block.flows@.len() ==> {
            &&& x.shape()->S3_1 == 2 * (#[trigger] block.flows@[k]).half_channels
            &&& pointwise(block.flows@[k].conv_pre)
        }
}

/// Layers from number `n` on and then all inverses: what is left under the mask are the inverses
/// of the layers before.
proof fn lemma_there_and_back_agree<V>(
    i: Interpretation<V>,
    block: VitsResidualCouplingBlock,
    n: nat,
    x: Term,
    mask: Term,
    cond: Option<Term>,
)
    requires
        i.moves(),
        exact(i, mask),
        fits(x, mask),
        n <= block.flows@.len(),
        halves(block, x),
        term::typ(block.forwards_from(n, x, mask, cond)) is Some,
        term::typ(block.backwards_from(n, x, mask, cond)) is Some,
    ensures
        agree(
            i,
            block.backwards_from(
                block.flows@.len(),
                block.forwards_from(n, x, mask, cond),
                mask,
                cond,
            ),
            block.backwards_from(n, x, mask, cond),
            mask,
        ),
    decreases block.flows@.len() - n,
{
    broadcast use crate::tensor::meaning::congruence;

    if n < block.flows@.len() {
        let layer = block.flows@[n as int];
        let y = layer.output(x, mask, cond, false);
        let next = y.reverse(1);
        assert(term::typ(next) is Some) by {
            if term::typ(next) is None {
                block.lemma_undefined_forwards(n + 1, next, mask, cond);
            }
        }
        lemma_reversed_type(y);
        lemma_layer_back(i, layer, x, mask, cond);
        lemma_fits_alike(y, x, mask);
        lemma_fits_alike(next, x, mask);
        meaning::lemma_reversed_twice(i, y);
        lemma_layer_alike(i, layer, next.reverse(1), y, mask, cond);
        let undone = layer.output(next.reverse(1), mask, cond, true);
        let half = layer.half_channels;
        let first = x.narrow(1, 0, half);
        let second = x.narrow(1, half, half);
        let under = second.broadcast_mul(mask);
        assert(i.alike(undone, first.concat(under, 1)));

        // Under the mask, that is the input.
        lemma_fits_alike(under, second, mask);
        let z = first.concat(under, 1);
        lemma_fits_alike(z, x, mask);
        lemma_fits_alike(undone, x, mask);
        meaning::lemma_joined_parts(i, x, half);
        let joined = first.concat(second, 1);
        lemma_fits_alike(joined, x, mask);
        assert(i.value(z.broadcast_mul(mask)) == i.value(
            first.broadcast_mul(mask).concat(under.broadcast_mul(mask), 1),
        ));
        assert(i.value(joined.broadcast_mul(mask)) == i.value(
            first.broadcast_mul(mask).concat(second.broadcast_mul(mask), 1),
        ));
        assert(i.alike(under.broadcast_mul(mask), under));
        assert(i.alike(
            first.broadcast_mul(mask).concat(under.broadcast_mul(mask), 1),
            first.broadcast_mul(mask).concat(second.broadcast_mul(mask), 1),
        ));
        assert(i.alike(joined.broadcast_mul(mask), x.broadcast_mul(mask)));
        assert(i.alike(undone.broadcast_mul(mask), z.broadcast_mul(mask)));
        assert(agree(i, undone, x, mask));

        lemma_backwards_alike(nothing(), block, n, undone, x, mask, cond);
        lemma_there_and_back_agree(i, block, n + 1, next, mask, cond);
        lemma_backwards_agree(i, block, n, undone, x, mask, cond);
    }
}

proof fn lemma_built_block(
    config: VitsConfig,
    vb: ScopeView,
    block: VitsResidualCouplingBlock,
    k: nat,
    from: nat,
)
    requires
        block.loaded(config, vb),
        VitsResidualCouplingBlock::failure_from(config, vb, from) is None,
        from <= k < block.flows@.len(),
    ensures
        pointwise(block.flows@[k as int].conv_pre),
        block.flows@[k as int].half_channels == config.flow_size / 2,
    decreases k - from,
{
    broadcast use crate::tensor::term::typing_rules;

    if from < k {
        lemma_built_block(config, vb, block, k, from + 1);
    } else {
        assert(block.flows@[k as int].loaded(config, vb.item("flows"@, k)));
        assert(VitsResidualCouplingLayer::failure(config, vb.item("flows"@, k)) is None);
    }
}

/// The inverse of the coupling block undoes it: where the mask is not zero, every input comes back.
pub proof fn lemma_block_undone<V>(
    i: Interpretation<V>,
    block: VitsResidualCouplingBlock,
    config: VitsConfig,
    vb: ScopeView,
    x: Term,
    mask: Term,
    cond: Option<Term>,
)
    requires
        i.moves(),
        exact(i, mask),
        block.loaded(config, vb),
        VitsResidualCouplingBlock::failure(config, vb) is None,
        config.flow_size % 2 == 0,
        fits(x, mask),
        x.shape()->S3_1 == config.flow_size,
        term::typ(block.output(x, mask, cond, false)) is Some,
    ensures
        ({
            let z = block.output(block.output(x, mask, cond, false), mask, cond, true);
            &&& term::typ(z) == term::typ(x)
            &&& i.alike(z.broadcast_mul(mask), x.broadcast_mul(mask))
        }),
{
    assert forall|k: int| 0 <= k < block.flows@.len() implies {
        &&& x.shape()->S3_1 == 2 * (#[trigger] block.flows@[k]).half_channels
        &&& pointwise(block.flows@[k].conv_pre)
    } by {
        lemma_built_block(config, vb, block, k as nat, 0);
    }
    lemma_there_and_back_agree(i, block, 0, x, mask, cond);
}

/// Whether shifting and stretching channels is exact, and a mask that is applied afterwards need
/// not be applied before.
pub open spec fn exact_affine<V>(
    i: Interpretation<V>,
    translate: Term,
    log_scale: Term,
    mask: Term,
) -> bool {
    &&& forall|a: Term|
        term::typ(a) is Some && term::typ(translate.broadcast_add(a)) == term::typ(a)
            ==> #[trigger] i.value(translate.broadcast_add(a).broadcast_sub(translate)) == i.value(a)
    &&& forall|a: Term|
        term::typ(a) is Some && term::typ(log_scale.exp().broadcast_mul(a)) == term::typ(a)
            ==> #[trigger] i.value(
            log_scale.exp().broadcast_mul(a).broadcast_mul(log_scale.neg().exp()),
        ) == i.value(a)
    &&& forall|a: Term|
        fits(a, mask) ==> #[trigger] i.value(
            a.broadcast_mul(mask).broadcast_sub(translate).broadcast_mul(
                log_scale.neg().exp(),
            ).broadcast_mul(mask),
        ) == i.value(
            a.broadcast_sub(translate).broadcast_mul(log_scale.neg().exp()).broadcast_mul(mask),
        )
}

proof fn lemma_affine_types(t: Term, l: Term, x: Term, mask: Term)
    requires
        term::typ(t.broadcast_add(l.exp().broadcast_mul(x)).broadcast_mul(mask)) is Some,
        fits(x, mask),
        t.shape() == Shape::S2(x.shape()->S3_1, 1),
        l.shape() == Shape::S2(x.shape()->S3_1, 1),
    ensures
        ({
            let stretched = l.exp().broadcast_mul(x);
            let shifted = t.broadcast_add(stretched);
            &&& term::typ(stretched) == term::typ(x)
            &&& term::typ(shifted) == term::typ(x)
            &&& fits(shifted, mask)
            &&& term::typ(shifted.broadcast_sub(t)) == term::typ(x)
            &&& term::typ(stretched.broadcast_mul(l.neg().exp())) == term::typ(x)
            &&& term::typ(
                shifted.broadcast_mul(mask).broadcast_sub(t).broadcast_mul(
                    l.neg().exp(),
                ).broadcast_mul(mask),
            ) == term::typ(x)
        }),
{
    broadcast use crate::tensor::term::typing_rules;

    term::lemma_typ_fits(&x);
}

/// The inverse of the flow that stretches and shifts undoes it, up to the mask.
pub proof fn lemma_affine_inverse<V>(
    i: Interpretation<V>,
    flow: VitsElementwiseAffine,
    x: Term,
    mask: Term,
)
    requires
        exact_affine(i, flow.translate@, flow.log_scale@, mask),
        fits(x, mask),
        flow.translate@.shape() == Shape::S2(x.shape()->S3_1, 1),
        flow.log_scale@.shape() == Shape::S2(x.shape()->S3_1, 1),
        term::typ(flow.output(x, mask, false)) is Some,
    ensures
        i.alike(flow.output(flow.output(x, mask, false), mask, true), x.broadcast_mul(mask)),
{
    broadcast use crate::tensor::meaning::congruence;

    let (t, l) = (flow.translate@, flow.log_scale@);
    let stretched = l.exp().broadcast_mul(x);
    let shifted = t.broadcast_add(stretched);
    let shrink = l.neg().exp();
    lemma_affine_types(t, l, x, mask);
    assert(i.alike(shifted.broadcast_sub(t), stretched));
    assert(i.alike(
        shifted.broadcast_sub(t).broadcast_mul(shrink),
        stretched.broadcast_mul(shrink),
    ));
    assert(i.alike(shifted.broadcast_sub(t).broadcast_mul(shrink), x));
    assert(i.alike(
        shifted.broadcast_sub(t).broadcast_mul(shrink).broadcast_mul(mask),
        x.broadcast_mul(mask),
    ));
}

} // verus!
