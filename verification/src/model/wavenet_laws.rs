//! What the gated convolutions compute, where arithmetic is exact.

use vstd::prelude::*;

use crate::config::VitsConfig;
use crate::model::channels;
use crate::model::channels::holds;
use crate::model::layer_laws;
use crate::model::layer_laws::{kernel_sum, sequence, weighted};
use crate::model::numbers::Numbers;
use crate::model::spline_laws;
use crate::model::wavenet;
use crate::model::wavenet::VitsWaveNet;
use crate::nn;
use crate::nn::ScopeView;
use crate::tensor::scalar;
use crate::tensor::scalar::{Real, ONE_BITS};
use crate::tensor::shape::Shape;
use crate::tensor::term;
use crate::tensor::term::Term;
use crate::tensor::typing::{Binary, Unary};

verus! {

broadcast use crate::tensor::term::strictness;

/// The logistic function.
pub open spec fn logistic(i: Numbers, x: real) -> real {
    1real / (1real + (i.exponential)(-x))
}

/// Of two halves of channels, gating gives for every channel of the first the hyperbolic tangent of
/// the sum there, times the logistic function of the sum in the same channel of the second.
pub proof fn lemma_gate(i: Numbers, x: Term, y: Term, n: usize, b: int, c: int, t: int)
    requires
        i.reckons(),
        x.shape() is S3,
        holds(wavenet::gate(x, y, n), b, c, t),
    ensures
        term::typ(x) is Some,
        term::typ(x) == term::typ(y),
        x.shape()->S3_1 == 2 * n,
        wavenet::gate(x, y, n).shape() == Shape::S3(x.shape()->S3_0, n, x.shape()->S3_2),
        i.at(wavenet::gate(x, y, n), b, c, t) == (i.function)(
            Unary::Tanh,
            i.at(x, b, c, t) + i.at(y, b, c, t),
        ) * logistic(i, i.at(x, b, n + c, t) + i.at(y, b, n + c, t)),
{
    let act = x.add(y);
    let rest = (act.shape().spec_dim(1) - n) as usize;
    let (first, second) = (act.narrow(1, 0, n), act.narrow(1, n, rest));
    let tanh = first.tanh();
    let (neg, one) = (second.neg(), scalar::scalar(ONE_BITS));
    let exp = neg.exp();
    let shifted = exp.shift(one);
    let recip = shifted.recip();
    assert(wavenet::gate(x, y, n) == tanh.mul(recip));
    lemma_gate_shape(x, y, n);
    assert(term::typ(act) is Some);
    channels::lemma_zip(i, x, y, Binary::Add, b, c, t);
    lemma_gate_types(act, n);
    channels::lemma_part(i, act, 0, n, b, c, t);
    channels::lemma_part(i, act, n, rest, b, c, t);
    channels::lemma_zip(i, x, y, Binary::Add, b, n + c, t);
    channels::lemma_applied(i, first, Unary::Tanh, b, c, t);
    channels::lemma_applied(i, second, Unary::Neg, b, c, t);
    channels::lemma_applied(i, neg, Unary::Exp, b, c, t);
    channels::lemma_applied(i, shifted, Unary::Recip, b, c, t);
    channels::lemma_zip(i, tanh, recip, Binary::Mul, b, c, t);
    let z = i.at(exp, b, c, t);
    assert(i.at(shifted, b, c, t) == z * 1real + 1real) by {
        broadcast use crate::model::numbers::number_rules;

    }
    assert(z * 1real + 1real == 1real + z) by (nonlinear_arith);
}

proof fn lemma_gate_types(act: Term, n: usize)
    requires
        act.shape() is S3,
        ({
            let rest = (act.shape().spec_dim(1) - n) as usize;
            term::typ(
                act.narrow(1, 0, n).tanh().mul(
                    act.narrow(1, n, rest).neg().exp().shift(
                        scalar::scalar(ONE_BITS),
                    ).recip(),
                ),
            ) is Some
        }),
    ensures
        ({
            let rest = (act.shape().spec_dim(1) - n) as usize;
            let (first, second) = (act.narrow(1, 0, n), act.narrow(1, n, rest));
            let shifted = second.neg().exp().shift(scalar::scalar(ONE_BITS));
            &&& rest == n
            &&& act.shape()->S3_1 == 2 * n
            &&& term::typ(first) is Some && term::typ(second) is Some
            &&& first.shape() == Shape::S3(act.shape()->S3_0, n, act.shape()->S3_2)
            &&& term::typ(second) == term::typ(first)
            &&& term::typ(first.tanh()) == term::typ(first)
            &&& term::typ(second.neg()) == term::typ(first)
            &&& term::typ(second.neg().exp()) == term::typ(first)
            &&& term::typ(shifted) == term::typ(first)
            &&& term::typ(shifted.recip()) == term::typ(first)
        }),
{
    broadcast use crate::tensor::term::typing_rules;

}

/// What a gated convolution sees of its input and of the conditioning: for output channel `o` of
/// layer `k` the convolution with the weights that the checkpoint calls `in_layers`, dilated by as
/// many powers of the rate as layers lie before it, and the layer's share of the conditioning.
pub open spec fn seen(
    i: Numbers,
    config: VitsConfig,
    vb: ScopeView,
    k: nat,
    x: Term,
    cond: Option<Term>,
    b: int,
    o: int,
    t: int,
) -> real {
    let h = config.hidden_size;
    let kernel = config.wavenet_kernel_size;
    let dilation = vstd::arithmetic::power::pow(config.wavenet_dilation_rate as int, k);
    let scope = vb.item("in_layers"@, k);
    kernel_sum(
        sequence(i, x, b),
        h as int,
        x.shape()->S3_2 as int,
        i.values(nn::normalized_weight(scope, (2 * h) as usize, h, kernel)),
        kernel as int,
        dilation,
        (kernel * dilation - dilation) / 2,
        o,
        t,
    ) + i.values(scope.tensor("bias"@, Shape::S1((2 * h) as usize)))(o) + match cond {
        Some(c) => i.at(c, b, k * (2 * h) + o, t),
        None => 0real,
    }
}

/// Whether `acts` is what layer `k` lets through of `x`.
pub open spec fn lets_through(
    i: Numbers,
    config: VitsConfig,
    vb: ScopeView,
    k: nat,
    x: Term,
    cond: Option<Term>,
    acts: Term,
) -> bool {
    let h = config.hidden_size;
    &&& term::typ(acts) is Some
    &&& acts.shape() == Shape::S3(x.shape()->S3_0, h, x.shape()->S3_2)
    &&& forall|b: int, c: int, t: int| #[trigger]
        holds(acts, b, c, t) ==> i.at(acts, b, c, t) == (i.function)(
            Unary::Tanh,
            seen(i, config, vb, k, x, cond, b, c, t),
        ) * logistic(i, seen(i, config, vb, k, x, cond, b, h + c, t))
}

/// Whether `split` is what layer `k` makes of what it let through: a mixture of the channels with
/// the weights that the checkpoint calls `res_skip_layers`.
pub open spec fn mixes(
    i: Numbers,
    config: VitsConfig,
    num_layers: usize,
    vb: ScopeView,
    k: nat,
    kept: Term,
    split: Term,
) -> bool {
    let h = config.hidden_size;
    let outer = if k + 1 < num_layers {
        (2 * h) as usize
    } else {
        h
    };
    let scope = vb.item("res_skip_layers"@, k);
    &&& term::typ(split) is Some
    &&& split.shape() == Shape::S3(kept.shape()->S3_0, outer, kept.shape()->S3_2)
    &&& forall|b: int, o: int, t: int| #[trigger]
        holds(split, b, o, t) ==> i.at(split, b, o, t) == spline_laws::sum(
            weighted(
                i,
                kept,
                i.values(nn::normalized_weight(scope, outer, h, 1)),
                h as int,
                b,
                o,
                t,
            ),
        ) + i.values(scope.tensor("bias"@, Shape::S1(outer)))(o)
}

/// Without dropout nothing is dropped.
pub proof fn lemma_nothing_dropped(x: Term, rate: Real)
    requires
        rate.bits == 0,
    ensures
        nn::dropped(x, rate) == x,
{
}

/// A layer of gated convolutions.
proof fn lemma_layer(
    i: Numbers,
    net: VitsWaveNet,
    config: VitsConfig,
    num_layers: usize,
    vb: ScopeView,
    k: nat,
    x: Term,
    cond: Option<Term>,
) -> (acts: Term)
    requires
        i.reckons(),
        VitsWaveNet::layer_failure(config, num_layers, vb, k) is None,
        net.loaded(config, num_layers, vb),
        k < num_layers,
        term::typ(net.split_acts(k, x, cond)) is Some,
        net.split_acts(k, x, cond).shape() is S3,
        net.split_acts(k, x, cond).shape()->S3_2 == x.shape()->S3_2,
        x.shape() is S3,
    ensures
        lets_through(i, config, vb, k, x, cond, acts),
        mixes(
            i,
            config,
            num_layers,
            vb,
            k,
            nn::dropped(acts, config.wavenet_dropout),
            net.split_acts(k, x, cond),
        ),
        term::typ(nn::dropped(acts, config.wavenet_dropout)) == term::typ(acts),
{
    let h = config.hidden_size;
    let layer = net.layers@[k as int];
    assert(VitsWaveNet::layer_loaded(net.layers@[k as int], config, num_layers, vb, k));
    let hidden = layer.in_layer.output(x);
    let share = net.share(k, cond, hidden);
    let acts = wavenet::gate(hidden, share, h);
    let kept = nn::dropped(acts, config.wavenet_dropout);
    let split = net.split_acts(k, x, cond);
    let outer = VitsWaveNet::channels(config, num_layers, k);
    assert(split == layer.res_skip_layer.output(kept));
    assert(term::typ(kept) is Some);
    assert(term::typ(acts) is Some && term::typ(kept) == term::typ(acts)) by {
        broadcast use crate::tensor::term::typing_rules;

    }
    layer_laws::lemma_normalized_pointwise(
        i,
        layer.res_skip_layer,
        vb.item("res_skip_layers"@, k),
        h,
        outer,
        kept,
    );
    let kernel = config.wavenet_kernel_size;
    let dilation = VitsWaveNet::dilation(config, k);
    let cfg = wavenet::kept_length(kernel, dilation, 1);
    assert(term::typ(hidden) is Some);
    let outer_in = (2 * h) as usize;
    let scope = vb.item("in_layers"@, k);
    layer_laws::lemma_normalized_conv(
        i,
        layer.in_layer,
        scope,
        h,
        outer_in,
        kernel,
        cfg,
        x,
    );
    assert(0 <= (kernel * dilation - dilation) / 2 <= usize::MAX);
    assert(cfg.padding == (kernel * dilation - dilation) / 2);
    assert(cfg.dilation == dilation);
    lemma_gate_shape(hidden, share, h);
    assert forall|b: int, c: int, t: int| #[trigger] holds(acts, b, c, t) implies i.at(
        acts,
        b,
        c,
        t,
    ) == (i.function)(Unary::Tanh, seen(i, config, vb, k, x, cond, b, c, t)) * logistic(
        i,
        seen(i, config, vb, k, x, cond, b, h + c, t),
    ) by {
        lemma_gate(i, hidden, share, h, b, c, t);
        assert(holds(hidden, b, c, t) && holds(hidden, b, h + c, t));
        lemma_share(i, net, k, cond, hidden, b, c, t);
        lemma_share(i, net, k, cond, hidden, b, h + c, t);
    }
    acts
}

proof fn lemma_gate_shape(x: Term, y: Term, n: usize)
    requires
        term::typ(wavenet::gate(x, y, n)) is Some,
        x.shape() is S3,
    ensures
        term::typ(x) is Some,
        term::typ(y) == term::typ(x),
        x.shape()->S3_1 == 2 * n,
        wavenet::gate(x, y, n).shape() == Shape::S3(x.shape()->S3_0, n, x.shape()->S3_2),
{
    let act = x.add(y);
    assert(term::typ(act) is Some);
    assert(term::typ(act) == term::typ(x) && term::typ(y) == term::typ(x)) by {
        broadcast use crate::tensor::term::typing_rules;

    }
    lemma_gate_types(act, n);
    assert(wavenet::gate(x, y, n).shape() == Shape::S3(x.shape()->S3_0, n, x.shape()->S3_2)) by {
        broadcast use crate::tensor::term::typing_rules;

    }
}

/// What a layer sees of the conditioning.
proof fn lemma_share(
    i: Numbers,
    net: VitsWaveNet,
    k: nat,
    cond: Option<Term>,
    like: Term,
    b: int,
    o: int,
    t: int,
)
    requires
        i.reckons(),
        term::typ(net.share(k, cond, like)) is Some,
        term::typ(net.share(k, cond, like)) == term::typ(like),
        like.shape()->S3_1 == 2 * net.hidden_size,
        holds(like, b, o, t),
    ensures
        i.at(net.share(k, cond, like), b, o, t) == match cond {
            Some(c) => i.at(c, b, k * (2 * net.hidden_size) + o, t),
            None => 0real,
        },
{
    match cond {
        Some(c) => {
            let h = net.hidden_size;
            if !(k * (2 * h) <= usize::MAX && 2 * h <= usize::MAX) {
                assert(net.share(k, cond, like) == Term::undefined());
            }
            let (start, len) = ((k * (2 * h)) as usize, (2 * h) as usize);
            let y = c.narrow(1, start, len);
            assert(c.shape() is S3 && y.shape() == Shape::S3(
                c.shape()->S3_0,
                len,
                c.shape()->S3_2,
            )) by {
                broadcast use crate::tensor::term::typing_rules;

            }
            channels::lemma_part(i, c, start, len, b, o, t);
        },
        None => {
            channels::lemma_zeros(i, like, b, o, t);
        },
    }
}

/// Whether layer `k` has made of its input `x` and of the sum `before` of what came out so far what
/// goes into the next layer and the sum `after`: the first channels of what the layer makes go on
/// with the input, under the mask, the others come out; from the last layer all come out.
pub open spec fn layer_makes(
    i: Numbers,
    config: VitsConfig,
    num_layers: usize,
    vb: ScopeView,
    k: nat,
    mask: Term,
    cond: Option<Term>,
    x: Term,
    before: Term,
    next: Term,
    after: Term,
) -> bool {
    exists|acts: Term, split: Term|
        {
            let h = config.hidden_size;
            &&& #[trigger] lets_through(i, config, vb, k, x, cond, acts)
            &&& #[trigger] mixes(
                i,
                config,
                num_layers,
                vb,
                k,
                nn::dropped(acts, config.wavenet_dropout),
                split,
            )
            &&& term::typ(after) == term::typ(x)
            &&& forall|b: int, c: int, t: int| #[trigger]
                holds(x, b, c, t) ==> i.at(after, b, c, t) == i.at(before, b, c, t) + i.at(
                    split,
                    b,
                    if k + 1 < num_layers {
                        h + c
                    } else {
                        c
                    },
                    t,
                )
            &&& k + 1 < num_layers ==> term::typ(next) == term::typ(x) && forall|
                b: int,
                c: int,
                t: int,
            | #[trigger]
                holds(x, b, c, t) ==> i.at(next, b, c, t) == (i.at(x, b, c, t) + i.at(
                    split,
                    b,
                    c,
                    t,
                )) * i.at(mask, b, 0, t)
        }
}

/// The steps of a stack of gated convolutions: what goes into each layer, and the sum of what came
/// out before it.
pub struct Steps {
    pub inputs: Seq<Term>,
    pub sums: Seq<Term>,
}

/// Whether the layer that is number `k`, and the first of which is number `from`, has made of its
/// input and of the sum before it what the steps say.
pub open spec fn made(
    i: Numbers,
    config: VitsConfig,
    num_layers: usize,
    vb: ScopeView,
    mask: Term,
    cond: Option<Term>,
    r: Steps,
    from: int,
    k: int,
) -> bool {
    layer_makes(
        i,
        config,
        num_layers,
        vb,
        k as nat,
        mask,
        cond,
        r.inputs[k - from],
        r.sums[k - from],
        r.inputs[k - from + 1],
        r.sums[k - from + 1],
    )
}

proof fn lemma_layers_from(
    i: Numbers,
    net: VitsWaveNet,
    config: VitsConfig,
    num_layers: usize,
    vb: ScopeView,
    from: nat,
    x: Term,
    sum: Term,
    mask: Term,
    cond: Option<Term>,
) -> (r: Steps)
    requires
        i.reckons(),
        VitsWaveNet::layers_failure(config, num_layers, vb, from) is None,
        net.loaded(config, num_layers, vb),
        from <= num_layers,
        term::typ(net.output_from(from, x, sum, mask, cond)) is Some,
        x.shape() is S3,
        term::typ(sum) == term::typ(x),
        mask.shape() == Shape::S3(x.shape()->S3_0, 1, x.shape()->S3_2),
    ensures
        r.inputs.len() == num_layers - from + 1,
        r.sums.len() == num_layers - from + 1,
        r.inputs.first() == x,
        r.sums.first() == sum,
        term::typ(r.sums.last()) == term::typ(x),
        net.output_from(from, x, sum, mask, cond) == r.sums.last().broadcast_mul(mask),
        forall|k: int|
            from <= k < num_layers ==> #[trigger] made(
                i,
                config,
                num_layers,
                vb,
                mask,
                cond,
                r,
                from as int,
                k,
            ),
    decreases num_layers - from,
{
    if from < num_layers {
        let h = net.hidden_size;
        let split = net.split_acts(from, x, cond);
        let last = from + 1 >= num_layers;
        let rest_len = (split.shape().spec_dim(1) - h) as usize;
        let next = if last {
            x
        } else {
            x.add(split.narrow(1, 0, h)).broadcast_mul(mask)
        };
        let after = if last {
            sum.add(split)
        } else {
            sum.add(split.narrow(1, h, rest_len))
        };
        assert(net.output_from(from, x, sum, mask, cond) == net.output_from(
            from + 1,
            next,
            after,
            mask,
            cond,
        ));
        if term::typ(after) is None || (!last && term::typ(next) is None) {
            net.lemma_undefined(from + 1, next, after, mask, cond);
        }
        lemma_step_types(split, x, sum, mask, h, last);
        let acts = lemma_layer(i, net, config, num_layers, vb, from, x, cond);
        let rest = lemma_layers_from(
            i,
            net,
            config,
            num_layers,
            vb,
            from + 1,
            next,
            after,
            mask,
            cond,
        );
        let r = Steps { inputs: seq![x] + rest.inputs, sums: seq![sum] + rest.sums };
        assert(r.sums.last() == rest.sums.last());
        assert forall|b: int, c: int, t: int| #[trigger] holds(x, b, c, t) implies i.at(
            after,
            b,
            c,
            t,
        ) == i.at(sum, b, c, t) + i.at(
            split,
            b,
            if from + 1 < num_layers {
                h + c
            } else {
                c
            },
            t,
        ) by {
            if last {
                channels::lemma_zip(i, sum, split, Binary::Add, b, c, t);
            } else {
                channels::lemma_zip(i, sum, split.narrow(1, h, rest_len), Binary::Add, b, c, t);
                channels::lemma_part(i, split, h, rest_len, b, c, t);
            }
        }
        if !last {
            assert forall|b: int, c: int, t: int| #[trigger] holds(x, b, c, t) implies i.at(
                next,
                b,
                c,
                t,
            ) == (i.at(x, b, c, t) + i.at(split, b, c, t)) * i.at(mask, b, 0, t) by {
                let going = split.narrow(1, 0, h);
                channels::lemma_zip(i, x, going, Binary::Add, b, c, t);
                channels::lemma_part(i, split, 0, h, b, c, t);
                channels::lemma_masked(i, x.add(going), mask, b, c, t);
            }
        }
        assert(layer_makes(
            i,
            config,
            num_layers,
            vb,
            from,
            mask,
            cond,
            x,
            sum,
            next,
            after,
        ));
        assert forall|k: int| from <= k < num_layers implies #[trigger] made(
            i,
            config,
            num_layers,
            vb,
            mask,
            cond,
            r,
            from as int,
            k,
        ) by {
            assert(r.inputs[k - from + 1] == rest.inputs[k - from]);
            assert(r.sums[k - from + 1] == rest.sums[k - from]);
            if k > from {
                assert(r.inputs[k - from] == rest.inputs[k - (from + 1)]);
                assert(r.sums[k - from] == rest.sums[k - (from + 1)]);
                assert(made(i, config, num_layers, vb, mask, cond, rest, (from + 1) as int, k));
            }
        }
        r
    } else {
        Steps { inputs: seq![x], sums: seq![sum] }
    }
}

proof fn lemma_step_types(split: Term, x: Term, sum: Term, mask: Term, h: usize, last: bool)
    requires
        x.shape() is S3,
        term::typ(sum) == term::typ(x),
        mask.shape() == Shape::S3(x.shape()->S3_0, 1, x.shape()->S3_2),
        last ==> term::typ(sum.add(split)) is Some,
        !last ==> term::typ(
            sum.add(split.narrow(1, h, (split.shape().spec_dim(1) - h) as usize)),
        ) is Some && term::typ(x.add(split.narrow(1, 0, h)).broadcast_mul(mask)) is Some,
    ensures
        term::typ(split) is Some,
        split.shape() is S3,
        split.shape()->S3_2 == x.shape()->S3_2,
        last ==> term::typ(sum.add(split)) == term::typ(x),
        !last ==> x.shape()->S3_1 == h && split.shape()->S3_1 == 2 * h,
        !last ==> term::typ(
            sum.add(split.narrow(1, h, (split.shape().spec_dim(1) - h) as usize)),
        ) == term::typ(x) && term::typ(x.add(split.narrow(1, 0, h)).broadcast_mul(mask))
            == term::typ(x),
{
    broadcast use crate::tensor::term::typing_rules;

}

/// The layers keep the type of their input.
proof fn lemma_type_from(
    net: VitsWaveNet,
    from: nat,
    x: Term,
    sum: Term,
    mask: Term,
    cond: Option<Term>,
)
    requires
        from <= net.layers@.len(),
        term::typ(net.output_from(from, x, sum, mask, cond)) is Some,
        x.shape() is S3,
        term::typ(sum) == term::typ(x),
        mask.shape() == Shape::S3(x.shape()->S3_0, 1, x.shape()->S3_2),
    ensures
        term::typ(net.output_from(from, x, sum, mask, cond)) == term::typ(x),
    decreases net.layers@.len() - from,
{
    if from < net.layers@.len() {
        let h = net.hidden_size;
        let split = net.split_acts(from, x, cond);
        let last = from + 1 >= net.layers@.len();
        let next = if last {
            x
        } else {
            x.add(split.narrow(1, 0, h)).broadcast_mul(mask)
        };
        let after = if last {
            sum.add(split)
        } else {
            sum.add(split.narrow(1, h, (split.shape().spec_dim(1) - h) as usize))
        };
        assert(net.output_from(from, x, sum, mask, cond) == net.output_from(
            from + 1,
            next,
            after,
            mask,
            cond,
        ));
        if term::typ(after) is None || (!last && term::typ(next) is None) {
            net.lemma_undefined(from + 1, next, after, mask, cond);
        }
        lemma_step_types(split, x, sum, mask, h, last);
        lemma_type_from(net, from + 1, next, after, mask, cond);
    } else {
        broadcast use crate::tensor::term::typing_rules;

    }
}

/// A stack of gated convolutions keeps the type of its input.
pub proof fn lemma_wavenet_type(net: VitsWaveNet, x: Term, mask: Term, cond: Option<Term>)
    requires
        term::typ(net.output(x, mask, cond)) is Some,
        term::typ(x) is Some,
        x.shape() is S3,
        mask.shape() == Shape::S3(x.shape()->S3_0, 1, x.shape()->S3_2),
    ensures
        term::typ(net.output(x, mask, cond)) == term::typ(x),
{
    reveal(VitsWaveNet::output);
    let zeros = x.zeros_like();
    assert(term::typ(zeros) == term::typ(x)) by {
        broadcast use crate::tensor::term::typing_rules;

        term::lemma_typ_fits(&x);
    }
    lemma_type_from(net, 0, x, zeros, mask, told(net, cond));
}

/// What the layers see of the conditioning: a mixture of its channels with the weights that the
/// checkpoint calls `cond_layer`, if there is one.
pub open spec fn told(net: VitsWaveNet, cond: Option<Term>) -> Option<Term> {
    match (cond, net.cond_layer) {
        (Some(c), Some(layer)) => Some(layer.output(c)),
        _ => None,
    }
}

/// A stack of gated convolutions goes through its layers one after the other, from the input and a
/// sum of zeros on, and gives the last sum under the mask.
pub proof fn lemma_wavenet(
    i: Numbers,
    net: VitsWaveNet,
    config: VitsConfig,
    num_layers: usize,
    vb: ScopeView,
    x: Term,
    mask: Term,
    cond: Option<Term>,
) -> (r: Steps)
    requires
        i.reckons(),
        VitsWaveNet::failure(config, num_layers, vb) is None,
        net.loaded(config, num_layers, vb),
        term::typ(net.output(x, mask, cond)) is Some,
        term::typ(x) is Some,
        x.shape() is S3,
        mask.shape() == Shape::S3(x.shape()->S3_0, 1, x.shape()->S3_2),
    ensures
        r.inputs.len() == num_layers + 1,
        r.sums.len() == num_layers + 1,
        r.inputs.first() == x,
        term::typ(net.output(x, mask, cond)) == term::typ(x),
        forall|b: int, c: int, t: int| #[trigger]
            holds(x, b, c, t) ==> i.at(r.sums.first(), b, c, t) == 0real && i.at(
                net.output(x, mask, cond),
                b,
                c,
                t,
            ) == i.at(r.sums.last(), b, c, t) * i.at(mask, b, 0, t),
        forall|k: int|
            0 <= k < num_layers ==> #[trigger] made(
                i,
                config,
                num_layers,
                vb,
                mask,
                told(net, cond),
                r,
                0,
                k,
            ),
{
    reveal(VitsWaveNet::output);
    let zeros = x.zeros_like();
    assert(term::typ(zeros) == term::typ(x)) by {
        broadcast use crate::tensor::term::typing_rules;

        term::lemma_typ_fits(&x);
    }
    let out = net.output(x, mask, cond);
    assert(out == net.output_from(0, x, zeros, mask, told(net, cond)));
    let r = lemma_layers_from(
        i,
        net,
        config,
        num_layers,
        vb,
        0,
        x,
        zeros,
        mask,
        told(net, cond),
    );
    assert(term::typ(out) == term::typ(x)) by {
        broadcast use crate::tensor::term::typing_rules;

    }
    assert forall|b: int, c: int, t: int| #[trigger] holds(x, b, c, t) implies i.at(
        r.sums.first(),
        b,
        c,
        t,
    ) == 0real && i.at(out, b, c, t) == i.at(r.sums.last(), b, c, t) * i.at(mask, b, 0, t) by {
        channels::lemma_zeros(i, x, b, c, t);
        channels::lemma_masked(i, r.sums.last(), mask, b, c, t);
    }
    r
}

/// What the layers see of the conditioning is a mixture of its channels, with as many outputs for
/// every layer as there are in twice the hidden size, and with the weights that the checkpoint
/// calls `cond_layer`. Without conditioning they see nothing.
pub proof fn lemma_told(
    i: Numbers,
    net: VitsWaveNet,
    config: VitsConfig,
    num_layers: usize,
    vb: ScopeView,
    cond: Term,
    b: int,
    o: int,
    t: int,
)
    requires
        net.loaded(config, num_layers, vb),
        config.speaker_embedding_size != 0,
        told(net, Some(cond)) is Some,
        holds(told(net, Some(cond))->0, b, o, t),
        2 * config.hidden_size * num_layers <= usize::MAX,
    ensures
        told(net, None) is None,
        ({
            let scope = vb.pp("cond_layer"@);
            let inner = config.speaker_embedding_size;
            let outer = (2 * config.hidden_size * num_layers) as usize;
            i.at(told(net, Some(cond))->0, b, o, t) == spline_laws::sum(
                weighted(
                    i,
                    cond,
                    i.values(scope.tensor("weight"@, Shape::S3(outer, inner, 1))),
                    inner as int,
                    b,
                    o,
                    t,
                ),
            ) + i.values(scope.tensor("bias"@, Shape::S1(outer)))(o)
        }),
{
    let layer = net.cond_layer->0;
    let outer = (2 * config.hidden_size * num_layers) as usize;
    layer_laws::lemma_pointwise(
        i,
        layer,
        vb.pp("cond_layer"@),
        config.speaker_embedding_size,
        outer,
        cond,
        b,
        o,
        t,
    );
}

} // verus!
