//! How durations are drawn, where arithmetic is exact.

use vstd::prelude::*;

use crate::config::VitsConfig;
use crate::model::channels;
use crate::model::channels::holds;
use crate::model::coupling_laws;
use crate::model::coupling_laws::{mixture, turned_over};
use crate::model::duration_predictor;
use crate::model::duration_predictor::{Flow, VitsStochasticDurationPredictor};
use crate::model::flow_laws;
use crate::model::flows::{VitsConvFlow, VitsElementwiseAffine};
use crate::model::layer_laws;
use crate::model::lengths;
use crate::model::numbers::Numbers;
use crate::model::separable::VitsDilatedDepthSeparableConv;
use crate::model::shapes;
use crate::nn::ScopeView;
use crate::tensor::ops::Noise;
use crate::tensor::scalar::{Real, Scalar};
use crate::tensor::shape::Shape;
use crate::tensor::term;
use crate::tensor::term::Term;
use crate::tensor::typing::Binary;

verus! {

broadcast use {
    crate::tensor::term::strictness,
    crate::model::separable::strict_separable,
    crate::model::flows::strict_conv_flow,
};

/// What the speaker brings to a place: nothing where no speaker is given, and else a mixture of its
/// numbers with the weights under the name `cond`.
pub open spec fn spoken(
    i: Numbers,
    config: VitsConfig,
    vb: ScopeView,
    cond: Option<Term>,
    b: int,
    o: int,
    t: int,
) -> real {
    match cond {
        Some(s) => if config.speaker_embedding_size != 0 {
            mixture(
                i,
                vb.pp("cond"@),
                config.speaker_embedding_size,
                config.hidden_size,
                s,
                b,
                o,
                t,
            )
        } else {
            0real
        },
        None => 0real,
    }
}

/// The flows are told a mixture, under the mask, of what the separable layers make of a mixture of
/// the input, to which the speaker's is added. The weights have the names `conv_pre`, `conv_dds`
/// and `conv_proj`.
pub proof fn lemma_conditioning(
    i: Numbers,
    predictor: VitsStochasticDurationPredictor,
    config: VitsConfig,
    vb: ScopeView,
    x: Term,
    mask: Term,
    cond: Option<Term>,
) -> (start: Term)
    requires
        predictor.loaded(config, vb),
        term::typ(predictor.conditioning(x, mask, cond)) is Some,
        x.shape() is S3,
        mask.shape() == Shape::S3(x.shape()->S3_0, 1, x.shape()->S3_2),
    ensures
        ({
            let h = config.hidden_size;
            let told = predictor.conditioning(x, mask, cond);
            let wide = Shape::S3(x.shape()->S3_0, h, x.shape()->S3_2);
            let hidden = predictor.conv_dds.output(start, mask, None);
            &&& predictor.conv_dds.loaded(
                config,
                config.duration_predictor_dropout,
                vb.pp("conv_dds"@),
            )
            &&& term::typ(start) is Some
            &&& start.shape() == wide
            &&& term::typ(hidden) is Some
            &&& forall|b: int, o: int, t: int| #[trigger]
                holds(start, b, o, t) ==> i.at(start, b, o, t) == mixture(
                    i,
                    vb.pp("conv_pre"@),
                    h,
                    h,
                    x,
                    b,
                    o,
                    t,
                ) + spoken(i, config, vb, cond, b, o, t)
            &&& told.shape() == wide
            &&& forall|b: int, o: int, t: int| #[trigger]
                holds(told, b, o, t) ==> i.at(told, b, o, t) == mixture(
                    i,
                    vb.pp("conv_proj"@),
                    h,
                    h,
                    hidden,
                    b,
                    o,
                    t,
                ) * i.at(mask, b, 0, t)
        }),
{
    let h = config.hidden_size;
    let (batch, len) = (x.shape()->S3_0, x.shape()->S3_2);
    let told = predictor.conditioning(x, mask, cond);
    let pre = predictor.conv_pre.output(x);
    let start = match (cond, predictor.cond) {
        (Some(gc), Some(c)) => pre.add(c.output(gc)),
        _ => pre,
    };
    let hidden = predictor.conv_dds.output(start, mask, None);
    let projected = predictor.conv_proj.output(hidden);
    assert(told == projected.broadcast_mul(mask));
    assert(term::typ(projected) is Some);
    assert(term::typ(hidden) is Some);
    assert(term::typ(start) is Some);
    assert(term::typ(pre) is Some);
    shapes::lemma_pointwise(predictor.conv_pre, vb.pp("conv_pre"@), h, h, x);
    match (cond, predictor.cond) {
        (Some(gc), Some(c)) => channels::lemma_zip(i, pre, c.output(gc), Binary::Add, 0, 0, 0),
        _ => {},
    }
    flow_laws::lemma_stack_type(predictor.conv_dds, start, mask, None);
    shapes::lemma_pointwise(predictor.conv_proj, vb.pp("conv_proj"@), h, h, hidden);
    shapes::lemma_masked(projected, mask, batch, len);
    assert forall|b: int, o: int, t: int| #[trigger] holds(start, b, o, t) implies i.at(
        start,
        b,
        o,
        t,
    ) == mixture(i, vb.pp("conv_pre"@), h, h, x, b, o, t) + spoken(
        i,
        config,
        vb,
        cond,
        b,
        o,
        t,
    ) by {
        layer_laws::lemma_pointwise(i, predictor.conv_pre, vb.pp("conv_pre"@), h, h, x, b, o, t);
        match (cond, predictor.cond) {
            (Some(gc), Some(c)) => {
                channels::lemma_zip(i, pre, c.output(gc), Binary::Add, b, o, t);
                layer_laws::lemma_pointwise(
                    i,
                    c,
                    vb.pp("cond"@),
                    config.speaker_embedding_size,
                    h,
                    gc,
                    b,
                    o,
                    t,
                );
            },
            _ => {},
        }
    }
    assert forall|b: int, o: int, t: int| #[trigger] holds(told, b, o, t) implies i.at(
        told,
        b,
        o,
        t,
    ) == mixture(i, vb.pp("conv_proj"@), h, h, hidden, b, o, t) * i.at(mask, b, 0, t) by {
        assert(holds(projected, b, o, t));
        layer_laws::lemma_pointwise(
            i,
            predictor.conv_proj,
            vb.pp("conv_proj"@),
            h,
            h,
            hidden,
            b,
            o,
            t,
        );
        channels::lemma_masked(i, projected, mask, b, o, t);
    }
    start
}

/// Whether the inverse of flow `n` has made of `x` what `y` is, behind a reversal of the channels.
/// Flow 0 stretches and shifts, the others bend with splines.
pub open spec fn undoes(
    i: Numbers,
    config: VitsConfig,
    vb: ScopeView,
    n: nat,
    mask: Term,
    told: Term,
    x: Term,
    y: Term,
) -> bool {
    let scope = vb.item("flows"@, n);
    exists|u: Term, stack: VitsDilatedDepthSeparableConv|
        {
            &&& #[trigger] turned_over(i, x, u)
            &&& #[trigger] flow_undone(i, config, scope, stack, n, u, mask, told, y)
        }
}

/// Whether the inverse of a flow of either form has made of `x` what `y` is.
pub open spec fn flow_undone(
    i: Numbers,
    config: VitsConfig,
    vb: ScopeView,
    stack: VitsDilatedDepthSeparableConv,
    n: nat,
    x: Term,
    mask: Term,
    told: Term,
    y: Term,
) -> bool {
    if n == 0 {
        flow_laws::stretches_and_shifts(i, config, vb, x, mask, true, y)
    } else {
        flow_laws::bends(i, config, vb, stack, x, mask, Some(told), true, y)
    }
}

/// The flow whose turn it is at step `k` on the way back: the last one first, without flow 1, and
/// flow 0 at the end.
pub open spec fn turn(config: VitsConfig, k: int) -> nat {
    if k < config.duration_predictor_num_flows - 1 {
        (config.duration_predictor_num_flows - k) as nat
    } else {
        0
    }
}

/// Whether the chain goes through step `k`, where it begins with step `from`.
pub open spec fn went(
    i: Numbers,
    config: VitsConfig,
    vb: ScopeView,
    mask: Term,
    told: Term,
    chain: Seq<Term>,
    from: int,
    k: int,
) -> bool {
    undoes(
        i,
        config,
        vb,
        turn(config, k),
        mask,
        told,
        chain[k - from],
        chain[k - from + 1],
    )
}

/// Every flow with splines could be built.
proof fn lemma_flow_built(config: VitsConfig, vb: ScopeView, from: nat, n: nat)
    requires
        VitsStochasticDurationPredictor::flows_failure(config, vb, from) is None,
        from < n <= config.duration_predictor_num_flows,
    ensures
        VitsConvFlow::failure(config, vb.item("flows"@, n)) is None,
    decreases n - from,
{
    if from + 1 < n {
        lemma_flow_built(config, vb, from + 1, n);
    }
}

proof fn lemma_affine_channels(
    flow: VitsElementwiseAffine,
    config: VitsConfig,
    vb: ScopeView,
    x: Term,
    mask: Term,
)
    requires
        flow.loaded(config, vb),
        term::typ(flow.output(x, mask, true)) is Some,
        x.shape() is S3,
        x.shape()->S3_1 == 2,
    ensures
        config.depth_separable_channels == 1 || config.depth_separable_channels == 2,
{
    assert(term::typ(x.broadcast_sub(flow.translate@)) is Some);
    assert(term::typ(flow.translate@) is Some);
    lengths::lemma_tensor_shape(vb, "translate"@, Shape::S2(config.depth_separable_channels, 1));
    assert(config.depth_separable_channels == 1 || config.depth_separable_channels == 2) by {
        broadcast use crate::tensor::term::typing_rules;

    }
}

/// The steps from number `from` on.
proof fn lemma_steps(
    i: Numbers,
    predictor: VitsStochasticDurationPredictor,
    config: VitsConfig,
    vb: ScopeView,
    from: int,
    x: Term,
    mask: Term,
    told: Term,
) -> (chain: Seq<Term>)
    requires
        i.reckons(),
        predictor.loaded(config, vb),
        VitsStochasticDurationPredictor::failure(config, vb) is None,
        config.hidden_size >= 1,
        config.duration_predictor_num_flows >= 1,
        0 <= from <= config.duration_predictor_num_flows,
        term::typ(
            predictor.run_from(
                duration_predictor::backward_order(predictor.flows@.len()),
                from,
                x,
                mask,
                told,
            ),
        ) is Some,
        x.shape() is S3,
        x.shape()->S3_1 == 2,
        mask.shape() == Shape::S3(x.shape()->S3_0, 1, x.shape()->S3_2),
    ensures
        chain.len() == config.duration_predictor_num_flows - from + 1,
        chain.first() == x,
        chain.last() == predictor.run_from(
            duration_predictor::backward_order(predictor.flows@.len()),
            from,
            x,
            mask,
            told,
        ),
        chain.last().shape() == x.shape(),
        forall|k: int|
            from <= k < config.duration_predictor_num_flows ==> #[trigger] went(
                i,
                config,
                vb,
                mask,
                told,
                chain,
                from,
                k,
            ),
    decreases config.duration_predictor_num_flows - from,
{
    let order = duration_predictor::backward_order(predictor.flows@.len());
    let count = config.duration_predictor_num_flows;
    assert(order.len() == count);
    if from < count {
        let n = turn(config, from);
        assert(order[from] == n);
        let flow = predictor.flows@[n as int];
        assert(VitsStochasticDurationPredictor::flow_loaded(
            predictor.flows@[n as int],
            config,
            vb,
            n,
        ));
        let u = x.reverse(1);
        let y = flow.output(u, mask, Some(told), true);
        if term::typ(y) is None {
            predictor.lemma_undefined(order, from + 1, y, mask, told);
        }
        assert(term::typ(y) is Some);
        let scope = vb.item("flows"@, n);
        assert(term::typ(u) is Some) by {
            match flow {
                Flow::Affine(f) => {
                    assert(y == f.output(u, mask, true));
                    assert(term::typ(u.broadcast_sub(f.translate@)) is Some);
                },
                Flow::Conv(f) => {
                    assert(y == f.output(u, mask, Some(told), true));
                },
            }
        }
        coupling_laws::lemma_turned_over(i, x);
        assert(u.shape() == x.shape());
        match flow {
            Flow::Affine(f) => {
                lemma_affine_channels(f, config, scope, u, mask);
                flow_laws::lemma_affine(i, f, config, scope, u, mask, true);
                assert(flow_undone(
                    i,
                    config,
                    scope,
                    predictor.conv_dds,
                    n,
                    u,
                    mask,
                    told,
                    y,
                ));
            },
            Flow::Conv(f) => {
                lemma_flow_built(config, vb, 0, n);
                flow_laws::lemma_bends(i, f, config, scope, u, mask, Some(told), true);
                assert(flow_undone(i, config, scope, f.conv_dds, n, u, mask, told, y));
            },
        }
        assert(undoes(i, config, vb, n, mask, told, x, y));
        assert(y.shape() == x.shape());
        let rest = lemma_steps(i, predictor, config, vb, from + 1, y, mask, told);
        let chain = seq![x] + rest;
        assert(chain.last() == rest.last());
        assert forall|k: int| from <= k < count implies #[trigger] went(
            i,
            config,
            vb,
            mask,
            told,
            chain,
            from,
            k,
        ) by {
            assert(chain[k - from + 1] == rest[k - from]);
            if k == from {
                assert(rest[0] == y && chain[0] == x);
            } else {
                assert(went(i, config, vb, mask, told, rest, from + 1, k));
                assert(chain[k - from] == rest[k - (from + 1)]);
            }
        }
        chain
    } else {
        seq![x]
    }
}

/// The logarithms of the durations are the first of two channels of noise, multiplied by the noise
/// scale and sent backwards through the flows.
pub proof fn lemma_predicted(
    i: Numbers,
    predictor: VitsStochasticDurationPredictor,
    config: VitsConfig,
    vb: ScopeView,
    x: Term,
    mask: Term,
    cond: Option<Term>,
    noise_scale: Real,
) -> (chain: Seq<Term>)
    requires
        i.reckons(),
        predictor.loaded(config, vb),
        VitsStochasticDurationPredictor::failure(config, vb) is None,
        config.hidden_size >= 1,
        term::typ(predictor.output(x, mask, cond, noise_scale)) is Some,
        x.shape() is S3,
        mask.shape() == Shape::S3(x.shape()->S3_0, 1, x.shape()->S3_2),
    ensures
        ({
            let (batch, len) = (x.shape()->S3_0, x.shape()->S3_2);
            let noise = Term::randn(Noise::Durations, Shape::S3(batch, 2, len));
            let told = predictor.conditioning(x, mask, cond);
            let logs = predictor.output(x, mask, cond, noise_scale);
            &&& term::typ(told) is Some
            &&& chain.len() == config.duration_predictor_num_flows + 1
            &&& chain.first().shape() == Shape::S3(batch, 2, len)
            &&& chain.last().shape() == Shape::S3(batch, 2, len)
            &&& logs.shape() == Shape::S3(batch, 1, len)
            &&& forall|b: int, c: int, t: int| #[trigger]
                holds(chain.first(), b, c, t) ==> i.at(chain.first(), b, c, t) == i.at(
                    noise,
                    b,
                    c,
                    t,
                ) * (i.scalar)(Scalar::Value(noise_scale))
            &&& forall|k: int|
                0 <= k < config.duration_predictor_num_flows ==> #[trigger] went(
                    i,
                    config,
                    vb,
                    mask,
                    told,
                    chain,
                    0,
                    k,
                )
            &&& forall|b: int, t: int|
                0 <= b < batch && 0 <= t < len ==> #[trigger] i.at(logs, b, 0, t) == i.at(
                    chain.last(),
                    b,
                    0,
                    t,
                )
        }),
{
    reveal(VitsStochasticDurationPredictor::output);
    let (batch, len) = (x.shape()->S3_0, x.shape()->S3_2);
    let noise = Term::randn(Noise::Durations, Shape::S3(batch, 2, len));
    let told = predictor.conditioning(x, mask, cond);
    let logs = predictor.output(x, mask, cond, noise_scale);
    assert(term::typ(told) is Some);
    lemma_conditioning(i, predictor, config, vb, x, mask, cond);
    let start = noise.scale(Scalar::Value(noise_scale));
    let order = duration_predictor::backward_order(predictor.flows@.len());
    let end = predictor.run_from(order, 0, start, mask, told);
    assert(logs == end.narrow(1, 0, 1));
    assert(term::typ(end) is Some);
    if term::typ(start) is None {
        predictor.lemma_undefined(order, 0, start, mask, told);
    }
    assert(start.shape() == Shape::S3(batch, 2, len)) by {
        broadcast use crate::tensor::term::typing_rules;

    }
    let chain = lemma_steps(i, predictor, config, vb, 0, start, mask, told);
    assert forall|b: int, c: int, t: int| #[trigger] holds(chain.first(), b, c, t) implies i.at(
        chain.first(),
        b,
        c,
        t,
    ) == i.at(noise, b, c, t) * (i.scalar)(Scalar::Value(noise_scale)) by {
        assert(noise.shape() == Shape::S3(batch, 2, len)) by {
            broadcast use crate::tensor::term::typing_rules;

        }
        channels::lemma_scaled(i, noise, Scalar::Value(noise_scale), b, c, t);
    }
    shapes::lemma_first_channel(end, batch, len);
    assert forall|b: int, t: int| 0 <= b < batch && 0 <= t < len implies #[trigger] i.at(
        logs,
        b,
        0,
        t,
    ) == i.at(chain.last(), b, 0, t) by {
        channels::lemma_part(i, end, 0, 1, b, 0, t);
    }
    chain
}

} // verus!
