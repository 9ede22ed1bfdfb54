//! Which names of the checkpoint the parts of the model stand under, and which settings they have.

use vstd::prelude::*;

use crate::config::VitsConfig;
use crate::model::channels;
use crate::model::channels::holds;
use crate::model::coupling::VitsResidualCouplingBlock;
use crate::model::duration_predictor::VitsStochasticDurationPredictor;
use crate::model::hifigan::VitsHifiGan;
use crate::model::numbers::Numbers;
use crate::model::text_encoder::VitsTextEncoder;
use crate::model::vits;
use crate::model::vits::VitsModel;
use crate::nn::ScopeView;
use crate::tensor::ops::Noise;
use crate::tensor::scalar;
use crate::tensor::scalar::{Scalar, ZERO_BITS};
use crate::tensor::term;
use crate::tensor::term::Term;
use crate::tensor::typing::{Binary, Unary};

verus! {

broadcast use crate::tensor::term::strictness;

/// The parts of the model stand under their own names, and it speaks and draws as its configuration
/// says.
pub proof fn lemma_model_parts(m: VitsModel, config: VitsConfig, vb: ScopeView)
    requires
        m.loaded(config, vb),
    ensures
        m.text_encoder.loaded(config, vb.pp("text_encoder"@)),
        m.flow.loaded(config, vb.pp("flow"@)),
        m.decoder.loaded(config, vb.pp("decoder"@)),
        m.duration_predictor.loaded(config, vb.pp("duration_predictor"@)),
        m.samples_per_frame() == vits::product(config.upsample_rates@),
        m.speaking_rate == config.speaking_rate,
        m.noise_scale == config.noise_scale,
        m.noise_scale_duration == config.noise_scale_duration,
{
}

/// The model draws around the means with the noise scale of its configuration.
pub proof fn lemma_own_noise(
    i: Numbers,
    m: VitsModel,
    config: VitsConfig,
    vb: ScopeView,
    means: Term,
    logs: Term,
    b: int,
    c: int,
    t: int,
)
    requires
        (i.scalar)(scalar::scalar(ZERO_BITS)) == 0real,
        m.loaded(config, vb),
        term::typ(m.latents(means, logs)) is Some,
        holds(means, b, c, t),
    ensures
        i.at(m.latents(means, logs), b, c, t) == i.at(means, b, c, t) + i.at(
            Term::randn(Noise::Latents, means.shape()),
            b,
            c,
            t,
        ) * (i.exponential)(i.at(logs, b, c, t)) * (i.scalar)(Scalar::Value(config.noise_scale)),
{
    let noise = Term::randn(Noise::Latents, means.shape());
    let widths = logs.exp();
    let spread = noise.mul(widths);
    let scaled = spread.scale(Scalar::Value(config.noise_scale));
    assert(m.latents(means, logs) == means.add(scaled));
    assert(term::typ(scaled) is Some && term::typ(spread) is Some && term::typ(widths) is Some);
    assert(term::typ(noise) is Some);
    assert(noise.shape() == means.shape()) by {
        broadcast use crate::tensor::term::typing_rules;

    }
    channels::lemma_zip(i, noise, widths, Binary::Mul, b, c, t);
    assert(logs.shape() == means.shape()) by {
        broadcast use crate::tensor::term::typing_rules;

    }
    channels::lemma_applied(i, logs, Unary::Exp, b, c, t);
    channels::lemma_scaled(i, spread, Scalar::Value(config.noise_scale), b, c, t);
    channels::lemma_zip(i, means, scaled, Binary::Add, b, c, t);
}

/// The attention of layer `k` of the encoder stands under the name of the layer.
pub proof fn lemma_attention_name(
    encoder: VitsTextEncoder,
    config: VitsConfig,
    vb: ScopeView,
    k: int,
)
    requires
        encoder.loaded(config, vb),
        0 <= k < config.num_hidden_layers,
    ensures
        encoder.encoder.layers@.len() == config.num_hidden_layers,
        encoder.encoder.layers@[k].attention.loaded(
            config,
            vb.pp("encoder"@).item("layers"@, k as nat).pp("attention"@),
        ),
{
    assert(encoder.encoder.layers@[k].loaded(
        config,
        vb.pp("encoder"@).item("layers"@, k as nat),
    ));
}

/// The gated convolutions of layer `k` of the coupling block stand under the name of the layer.
pub proof fn lemma_wavenet_name(
    block: VitsResidualCouplingBlock,
    config: VitsConfig,
    vb: ScopeView,
    k: int,
)
    requires
        block.loaded(config, vb),
        0 <= k < config.prior_encoder_num_flows,
    ensures
        block.flows@.len() == config.prior_encoder_num_flows,
        block.flows@[k].wavenet.loaded(
            config,
            config.prior_encoder_num_wavenet_layers,
            vb.item("flows"@, k as nat).pp("wavenet"@),
        ),
{
    assert(block.flows@[k].loaded(config, vb.item("flows"@, k as nat)));
}

/// Residual block `j` of stage `k` of the decoder stands under its number among all blocks, counted
/// stage by stage. It has the kernel and the dilations that the configuration gives for its place
/// in the stage.
pub proof fn lemma_block_name(
    decoder: VitsHifiGan,
    config: VitsConfig,
    vb: ScopeView,
    k: int,
    j: int,
)
    requires
        decoder.loaded(config, vb),
        0 <= k < config.upsample_rates@.len(),
        0 <= j < config.resblock_kernel_sizes@.len(),
        j < config.resblock_dilation_sizes@.len(),
    ensures
        decoder.resblocks@.len() == config.upsample_rates@.len(),
        j < decoder.resblocks@[k]@.len() <= config.resblock_kernel_sizes@.len(),
        decoder.resblocks@[k]@.len() <= config.resblock_dilation_sizes@.len(),
        decoder.resblocks@[k]@[j].loaded(
            VitsHifiGan::channels(config, (k + 1) as nat),
            config.resblock_kernel_sizes@[j],
            config.resblock_dilation_sizes@[j]@,
            config.leaky_relu_slope,
            vb.item("resblocks"@, (k * config.resblock_kernel_sizes@.len() + j) as nat),
        ),
{
    let blocks = decoder.resblocks@[k]@;
    assert(VitsHifiGan::stage_loaded(decoder.resblocks@[k]@, config, vb, k as nat));
    assert(k as nat + 1 == (k + 1) as nat);
    let n = config.resblock_kernel_sizes@.len();
    assert(k * n >= 0) by (nonlinear_arith)
        requires
            k >= 0,
            n >= 0,
    ;
    assert(blocks[j].loaded(
        VitsHifiGan::channels(config, k as nat + 1),
        config.resblock_kernel_sizes@[j],
        config.resblock_dilation_sizes@[j]@,
        config.leaky_relu_slope,
        vb.item("resblocks"@, VitsHifiGan::block_number(config, k as nat, j as nat)),
    ));
}

/// The flows of the duration predictor stand under their numbers: first one that stretches and
/// shifts, then those with splines.
pub proof fn lemma_flow_name(
    predictor: VitsStochasticDurationPredictor,
    config: VitsConfig,
    vb: ScopeView,
    k: int,
)
    requires
        predictor.loaded(config, vb),
        0 <= k <= config.duration_predictor_num_flows,
    ensures
        predictor.flows@.len() == config.duration_predictor_num_flows + 1,
        k == 0 ==> predictor.flows@[k] is Affine && predictor.flows@[k]->Affine_0.loaded(
            config,
            vb.item("flows"@, 0),
        ),
        k > 0 ==> predictor.flows@[k] is Conv && predictor.flows@[k]->Conv_0.loaded(
            config,
            vb.item("flows"@, k as nat),
        ),
{
    assert(VitsStochasticDurationPredictor::flow_loaded(
        predictor.flows@[k],
        config,
        vb,
        k as nat,
    ));
}

} // verus!
