//! The shapes of what the parts of the model give.

use vstd::prelude::*;

use crate::config::VitsConfig;
use crate::model::duration_predictor;
use crate::model::duration_predictor::{Flow, VitsStochasticDurationPredictor};
use crate::model::flows::{VitsConvFlow, VitsElementwiseAffine};
use crate::model::hifigan::VitsHifiGan;
use crate::model::lengths;
use crate::model::separable::VitsDilatedDepthSeparableConv;
use crate::model::text_encoder::{VitsEncoder, VitsEncoderLayer, VitsTextEncoder};
use crate::model::vits::{DurationTerms, VitsModel};
use crate::nn;
use crate::nn::{Conv1d, LayerNorm, ScopeView};
use crate::tensor::ops::Noise;
use crate::tensor::scalar::{Real, Scalar};
use crate::tensor::shape::Shape;
use crate::tensor::term;
use crate::tensor::term::Term;

verus! {

/// Whether a tensor holds sequences of a length, whatever the number of channels.
pub open spec fn sequences(x: Term, batch: usize, len: usize) -> bool {
    x.shape() is S3 && x.shape()->S3_0 == batch && x.shape()->S3_2 == len
}

/// A convolution with a kernel of length one changes the channels only.
pub(crate) proof fn lemma_pointwise(conv: Conv1d, vb: ScopeView, inner: usize, outer: usize, x: Term)
    requires
        conv.loaded(vb, inner, outer, 1, nn::plain_conv()),
        term::typ(conv.output(x)) is Some,
    ensures
        term::typ(x) is Some,
        x.shape() is S3,
        conv.output(x).shape() == Shape::S3(x.shape()->S3_0, outer, x.shape()->S3_2),
{
    broadcast use crate::tensor::term::typing_rules;

}

/// A mask of one channel does not change the shape.
pub(crate) proof fn lemma_masked(x: Term, mask: Term, batch: usize, len: usize)
    requires
        term::typ(x.broadcast_mul(mask)) is Some,
        mask.shape() == Shape::S3(batch, 1, len),
    ensures
        term::typ(x) is Some,
        sequences(x, batch, len) ==> x.broadcast_mul(mask).shape() == x.shape(),
{
    broadcast use crate::tensor::term::typing_rules;

}

/// The separable layers keep the shape of their input.
pub(crate) proof fn lemma_separable_from(
    stack: VitsDilatedDepthSeparableConv,
    i: nat,
    x: Term,
    mask: Term,
    batch: usize,
    len: usize,
)
    requires
        term::typ(stack.output_from(i, x, mask)) is Some,
        mask.shape() == Shape::S3(batch, 1, len),
    ensures
        term::typ(x) is Some,
        sequences(x, batch, len) ==> stack.output_from(i, x, mask).shape() == x.shape(),
    decreases stack.layers@.len() - i,
{
    if i < stack.layers@.len() {
        let change = stack.layers@[i as int].change(x, mask, stack.dropout_p);
        lemma_separable_from(stack, i + 1, x.add(change), mask, batch, len);
        lemma_sum(x, change);
    } else {
        lemma_masked(x, mask, batch, len);
    }
}

pub(crate) proof fn lemma_sum(a: Term, b: Term)
    requires
        term::typ(a.add(b)) is Some,
    ensures
        term::typ(a) is Some,
        a.add(b).shape() == a.shape(),
{
    broadcast use crate::tensor::term::typing_rules;

}

/// What the flows are told has the shape of the input.
pub(crate) proof fn lemma_told(
    predictor: VitsStochasticDurationPredictor,
    config: VitsConfig,
    vb: ScopeView,
    x: Term,
    mask: Term,
    cond: Option<Term>,
    batch: usize,
    len: usize,
)
    requires
        predictor.loaded(config, vb),
        term::typ(predictor.conditioning(x, mask, cond)) is Some,
        mask.shape() == Shape::S3(batch, 1, len),
        sequences(x, batch, len),
    ensures
        sequences(predictor.conditioning(x, mask, cond), batch, len),
{
    reveal(VitsDilatedDepthSeparableConv::output);
    let h = config.hidden_size;
    let pre = predictor.conv_pre.output(x);
    let given = match (cond, predictor.cond) {
        (Some(gc), Some(c)) => pre.add(c.output(gc)),
        _ => pre,
    };
    let stacked = predictor.conv_dds.output(given, mask, None);
    let projected = predictor.conv_proj.output(stacked);
    lemma_masked(projected, mask, batch, len);
    lemma_pointwise(predictor.conv_proj, vb.pp("conv_proj"@), h, h, stacked);
    lemma_separable_from(predictor.conv_dds, 0, given, mask, batch, len);
    if cond is Some && predictor.cond is Some {
        lemma_sum(pre, predictor.cond->0.output(cond->0));
    }
    lemma_pointwise(predictor.conv_pre, vb.pp("conv_pre"@), h, h, x);
}

/// A flow with splines keeps the number of sequences and their length.
pub(crate) proof fn lemma_conv_flow(
    flow: VitsConvFlow,
    x: Term,
    mask: Term,
    cond: Option<Term>,
    reverse: bool,
    batch: usize,
    len: usize,
)
    requires
        term::typ(flow.output(x, mask, cond, reverse)) is Some,
        mask.shape() == Shape::S3(batch, 1, len),
    ensures
        term::typ(x) is Some,
        sequences(x, batch, len) ==> sequences(flow.output(x, mask, cond, reverse), batch, len),
{
    reveal(VitsConvFlow::output);
    let first = x.narrow(1, 0, flow.half_channels);
    let second = flow.spline_for(x, mask, cond).extended(
        x.narrow(1, flow.half_channels, flow.half_channels),
        reverse,
    );
    lemma_masked(first.concat(second, 1), mask, batch, len);
    lemma_joined(x, second, flow.half_channels);
}

proof fn lemma_joined(x: Term, y: Term, half: usize)
    requires
        term::typ(x.narrow(1, 0, half).concat(y, 1)) is Some,
    ensures
        term::typ(x) is Some,
        x.shape() is S3 ==> {
            let joined = x.narrow(1, 0, half).concat(y, 1).shape();
            joined is S3 && joined->S3_0 == x.shape()->S3_0 && joined->S3_2 == x.shape()->S3_2
        },
{
    broadcast use crate::tensor::term::typing_rules;

}

/// A flow that stretches and shifts keeps the number of sequences and their length, backwards.
pub(crate) proof fn lemma_affine_flow(
    flow: VitsElementwiseAffine,
    config: VitsConfig,
    vb: ScopeView,
    x: Term,
    mask: Term,
    batch: usize,
    len: usize,
)
    requires
        flow.loaded(config, vb),
        term::typ(flow.output(x, mask, true)) is Some,
        mask.shape() == Shape::S3(batch, 1, len),
    ensures
        term::typ(x) is Some,
        sequences(x, batch, len) ==> sequences(flow.output(x, mask, true), batch, len),
{
    broadcast use crate::tensor::term::strictness;

    let shifted = x.broadcast_sub(flow.translate@);
    let scale = flow.log_scale@.neg().exp();
    lemma_masked(shifted.broadcast_mul(scale), mask, batch, len);
    let shape = Shape::S2(config.depth_separable_channels, 1);
    lengths::lemma_tensor_shape(vb, "translate"@, shape);
    lengths::lemma_tensor_shape(vb, "log_scale"@, shape);
    lemma_stretched_and_shifted(x, flow.translate@, flow.log_scale@, batch, len);
}

proof fn lemma_stretched_and_shifted(x: Term, a: Term, s: Term, batch: usize, len: usize)
    requires
        term::typ(x.broadcast_sub(a).broadcast_mul(s.neg().exp())) is Some,
        a.shape() is S2 && a.shape()->S2_1 == 1,
        s.shape() is S2 && s.shape()->S2_1 == 1,
    ensures
        term::typ(x) is Some,
        sequences(x, batch, len) ==> sequences(
            x.broadcast_sub(a).broadcast_mul(s.neg().exp()),
            batch,
            len,
        ),
{
    broadcast use crate::tensor::term::typing_rules;

}

pub(crate) proof fn lemma_reversed(x: Term)
    requires
        term::typ(x.reverse(1)) is Some,
    ensures
        term::typ(x) is Some,
        x.reverse(1).shape() == x.shape(),
{
    broadcast use crate::tensor::term::typing_rules;

}

/// The flows keep the number of sequences and their length.
pub(crate) proof fn lemma_run(
    predictor: VitsStochasticDurationPredictor,
    config: VitsConfig,
    vb: ScopeView,
    order: Seq<usize>,
    i: int,
    latents: Term,
    mask: Term,
    told: Term,
    batch: usize,
    len: usize,
)
    requires
        predictor.loaded(config, vb),
        forall|k: int| 0 <= k < order.len() ==> #[trigger] order[k] < predictor.flows@.len(),
        0 <= i <= order.len(),
        term::typ(predictor.run_from(order, i, latents, mask, told)) is Some,
        mask.shape() == Shape::S3(batch, 1, len),
    ensures
        term::typ(latents) is Some,
        sequences(latents, batch, len) ==> sequences(
            predictor.run_from(order, i, latents, mask, told),
            batch,
            len,
        ),
    decreases order.len() - i,
{
    if i < order.len() {
        let flow = predictor.flows@[order[i] as int];
        let x = latents.reverse(1);
        let next = flow.output(x, mask, Some(told), true);
        lemma_run(predictor, config, vb, order, i + 1, next, mask, told, batch, len);
        match flow {
            Flow::Conv(f) => lemma_conv_flow(f, x, mask, Some(told), true, batch, len),
            Flow::Affine(f) => lemma_affine_flow(
                f,
                config,
                vb.item("flows"@, order[i] as nat),
                x,
                mask,
                batch,
                len,
            ),
        }
        lemma_reversed(latents);
    }
}

pub(crate) proof fn lemma_noise(batch: usize, channels: usize, len: usize, scale: Scalar)
    requires
        term::typ(
            Term::randn(Noise::Durations, Shape::S3(batch, channels, len)).scale(scale),
        ) is Some,
    ensures
        sequences(
            Term::randn(Noise::Durations, Shape::S3(batch, channels, len)).scale(scale),
            batch,
            len,
        ),
{
    broadcast use crate::tensor::term::typing_rules;

}

pub(crate) proof fn lemma_first_channel(x: Term, batch: usize, len: usize)
    requires
        term::typ(x.narrow(1, 0, 1)) is Some,
    ensures
        term::typ(x) is Some,
        sequences(x, batch, len) ==> x.narrow(1, 0, 1).shape() == Shape::S3(batch, 1, len),
{
    broadcast use crate::tensor::term::typing_rules;

}

/// The predictor gives one number for every place of every sequence.
pub proof fn lemma_predicted_shape(
    predictor: VitsStochasticDurationPredictor,
    config: VitsConfig,
    vb: ScopeView,
    x: Term,
    mask: Term,
    cond: Option<Term>,
    noise_scale: Real,
    batch: usize,
    len: usize,
)
    requires
        predictor.loaded(config, vb),
        term::typ(predictor.output(x, mask, cond, noise_scale)) is Some,
        mask.shape() == Shape::S3(batch, 1, len),
        sequences(x, batch, len),
    ensures
        predictor.output(x, mask, cond, noise_scale).shape() == Shape::S3(batch, 1, len),
{
    broadcast use crate::tensor::term::strictness;

    reveal(VitsStochasticDurationPredictor::output);
    let told = predictor.conditioning(x, mask, cond);
    lemma_told(predictor, config, vb, x, mask, cond, batch, len);
    let order = duration_predictor::backward_order(predictor.flows@.len());
    let noise = Term::randn(Noise::Durations, Shape::S3(batch, 2, len)).scale(
        Scalar::Value(noise_scale),
    );
    let end = predictor.run_from(order, 0, noise, mask, told);
    lemma_first_channel(end, batch, len);
    lemma_run(predictor, config, vb, order, 0, noise, mask, told, batch, len);
    lemma_noise(batch, 2, len, Scalar::Value(noise_scale));
}

/// A normalization keeps the shape.
pub(crate) proof fn lemma_normalized(norm: LayerNorm, x: Term)
    requires
        term::typ(norm.output(x)) is Some,
    ensures
        term::typ(x) is Some,
        norm.output(x).shape() == x.shape(),
{
    broadcast use crate::tensor::term::typing_rules;

}

/// A layer of the encoder keeps the shape of its input.
pub(crate) proof fn lemma_encoder_layer(
    layer: VitsEncoderLayer,
    x: Term,
    mask: Term,
    attention_mask: Option<Term>,
)
    requires
        term::typ(layer.output(x, mask, attention_mask)) is Some,
    ensures
        term::typ(x) is Some,
        layer.output(x, mask, attention_mask).shape() == x.shape(),
{
    reveal(VitsEncoderLayer::output);
    let seen = layer.attention.output(x, attention_mask);
    let attended = layer.layer_norm.output(x.add(seen));
    let fed = layer.feed_forward.output(attended, mask);
    lemma_normalized(layer.final_layer_norm, attended.add(fed));
    lemma_sum(attended, fed);
    lemma_normalized(layer.layer_norm, x.add(seen));
    lemma_sum(x, seen);
}

/// A mask of one number for every place does not change the shape.
pub(crate) proof fn lemma_masked_places(x: Term, mask: Term, batch: usize, len: usize, size: usize)
    requires
        term::typ(x.broadcast_mul(mask)) is Some,
        mask.shape() == Shape::S3(batch, len, 1),
    ensures
        term::typ(x) is Some,
        x.shape() == Shape::S3(batch, len, size) ==> x.broadcast_mul(mask).shape() == x.shape(),
{
    broadcast use crate::tensor::term::typing_rules;

}

/// The layers of the encoder keep the shape of their input.
pub(crate) proof fn lemma_encoder_from(
    encoder: VitsEncoder,
    i: nat,
    x: Term,
    mask: Term,
    attention_mask: Option<Term>,
    batch: usize,
    len: usize,
    size: usize,
)
    requires
        term::typ(encoder.output_from(i, x, mask, attention_mask)) is Some,
        mask.shape() == Shape::S3(batch, len, 1),
    ensures
        term::typ(x) is Some,
        x.shape() == Shape::S3(batch, len, size) ==> encoder.output_from(
            i,
            x,
            mask,
            attention_mask,
        ).shape() == x.shape(),
    decreases encoder.layers@.len() - i,
{
    if i < encoder.layers@.len() {
        let y = encoder.layers@[i as int].output(x, mask, attention_mask);
        lemma_encoder_from(encoder, i + 1, y, mask, attention_mask, batch, len, size);
        lemma_encoder_layer(encoder.layers@[i as int], x, mask, attention_mask);
    } else {
        lemma_masked_places(x, mask, batch, len, size);
    }
}

pub(crate) proof fn lemma_embedded(encoder: VitsTextEncoder, vb: ScopeView, tokens: usize, ids: Term)
    requires
        encoder.embed_tokens.table@ == vb.tensor("weight"@, Shape::S2(tokens, encoder.hidden_size)),
        term::typ(
            encoder.embed_tokens.output(ids).scale(Scalar::Sqrt(encoder.hidden_size)),
        ) is Some,
        ids.shape() is S2,
    ensures
        encoder.embed_tokens.output(ids).scale(Scalar::Sqrt(encoder.hidden_size)).shape()
            == Shape::S3(ids.shape()->S2_0, ids.shape()->S2_1, encoder.hidden_size),
{
    broadcast use crate::tensor::term::typing_rules;

}

/// The encoder finds as many numbers for every place as the hidden size says.
pub proof fn lemma_hidden_shape(
    encoder: VitsTextEncoder,
    config: VitsConfig,
    vb: ScopeView,
    ids: Term,
    mask: Term,
    attention_mask: Option<Term>,
    batch: usize,
    len: usize,
)
    requires
        encoder.loaded(config, vb),
        term::typ(encoder.hidden(ids, mask, attention_mask)) is Some,
        ids.shape() == Shape::S2(batch, len),
        mask.shape() == Shape::S3(batch, len, 1),
    ensures
        encoder.hidden(ids, mask, attention_mask).shape() == Shape::S3(
            batch,
            len,
            config.hidden_size,
        ),
{
    broadcast use crate::tensor::term::strictness;

    reveal(VitsEncoder::output);
    let size = config.hidden_size;
    let embedded = encoder.embed_tokens.output(ids).scale(Scalar::Sqrt(size));
    let additive = match attention_mask {
        Some(a) => Some(crate::model::text_encoder::additive_mask(a)),
        None => None,
    };
    let masked = embedded.broadcast_mul(mask);
    lemma_encoder_from(encoder.encoder, 0, masked, mask, additive, batch, len, size);
    lemma_masked_places(embedded, mask, batch, len, size);
    lemma_embedded(encoder, vb.pp("embed_tokens"@), config.vocab_size, ids);
}

pub(crate) proof fn lemma_turned(x: Term)
    requires
        term::typ(x.transpose(1, 2).contiguous()) is Some,
    ensures
        term::typ(x) is Some,
        x.shape() is S3 ==> x.transpose(1, 2).contiguous().shape() == Shape::S3(
            x.shape()->S3_0,
            x.shape()->S3_2,
            x.shape()->S3_1,
        ),
{
    broadcast use crate::tensor::term::typing_rules;

}

proof fn lemma_half(x: Term, start: usize, size: usize)
    requires
        term::typ(x.narrow(2, start, size)) is Some,
    ensures
        term::typ(x) is Some,
        x.shape() is S3 ==> x.narrow(2, start, size).shape() == Shape::S3(
            x.shape()->S3_0,
            x.shape()->S3_1,
            size,
        ),
{
    broadcast use crate::tensor::term::typing_rules;

}

/// Means and logarithms of variances are as many for every place as the flow size says.
pub proof fn lemma_prior_shape(
    encoder: VitsTextEncoder,
    config: VitsConfig,
    vb: ScopeView,
    hidden: Term,
    mask: Term,
    batch: usize,
    len: usize,
)
    requires
        encoder.loaded(config, vb),
        term::typ(encoder.means(hidden, mask)) is Some,
        term::typ(encoder.log_variances(hidden, mask)) is Some,
        hidden.shape() == Shape::S3(batch, len, config.hidden_size),
        mask.shape() == Shape::S3(batch, len, 1),
    ensures
        encoder.means(hidden, mask).shape() == Shape::S3(batch, len, config.flow_size),
        encoder.log_variances(hidden, mask).shape() == Shape::S3(batch, len, config.flow_size),
{
    let turned = hidden.transpose(1, 2).contiguous();
    let projected = encoder.project.output(turned);
    let back = projected.transpose(1, 2).contiguous();
    let outer = (2 * config.flow_size) as usize;
    lemma_half(encoder.stats(hidden, mask), 0, config.flow_size);
    lemma_half(encoder.stats(hidden, mask), config.flow_size, config.flow_size);
    lemma_masked_places(back, mask, batch, len, outer);
    lemma_turned(projected);
    lemma_pointwise(encoder.project, vb.pp("project"@), config.hidden_size, outer, turned);
    lemma_turned(hidden);
}

pub(crate) proof fn lemma_padding_mask(ids: Term, attention_mask: Option<Term>, batch: usize, len: usize)
    requires
        term::typ(VitsModel::padding_mask(ids, attention_mask)) is Some,
        ids.shape() == Shape::S2(batch, len),
        attention_mask matches Some(m) ==> m.shape() == Shape::S2(batch, len),
    ensures
        VitsModel::padding_mask(ids, attention_mask).shape() == Shape::S3(batch, len, 1),
{
    broadcast use crate::tensor::term::typing_rules;

}

pub(crate) proof fn lemma_counted(x: Term, mask: Term, rate: Real, batch: usize, len: usize)
    requires
        term::typ(x.exp().broadcast_mul(mask).scale(Scalar::Reciprocal(rate)).ceil()) is Some,
        x.shape() == Shape::S3(batch, 1, len),
        mask.shape() == Shape::S3(batch, 1, len),
    ensures
        x.exp().broadcast_mul(mask).scale(Scalar::Reciprocal(rate)).ceil().shape() == Shape::S3(
            batch,
            1,
            len,
        ),
{
    broadcast use crate::tensor::term::typing_rules;

}

proof fn lemma_sums_and_ends(duration: Term, batch: usize, len: usize)
    requires
        term::typ(duration.sum_inner(false)) is Some,
        term::typ(duration.reshape(Shape::S2(batch, len)).cumsum(1)) is Some,
        duration.shape() == Shape::S3(batch, 1, len),
    ensures
        duration.sum_inner(false).shape() == Shape::S1(batch),
        duration.reshape(Shape::S2(batch, len)).cumsum(1).shape() == Shape::S2(batch, len),
{
    broadcast use crate::tensor::term::typing_rules;

}

/// The shapes of what the first step finds for sequences of a length.
pub proof fn lemma_duration_shapes(
    model: VitsModel,
    config: VitsConfig,
    vb: ScopeView,
    ids: Term,
    attention_mask: Option<Term>,
    speaking_rate: Option<Real>,
    batch: usize,
    len: usize,
)
    requires
        model.loaded(config, vb),
        model.durations(ids, attention_mask, speaking_rate).defined(),
        ids.shape() == Shape::S2(batch, len),
        attention_mask matches Some(m) ==> m.shape() == Shape::S2(batch, len),
    ensures
        ({
            let found = model.durations(ids, attention_mask, speaking_rate);
            &&& found.mask.shape() == Shape::S3(batch, 1, len)
            &&& found.means.shape() == Shape::S3(batch, len, config.flow_size)
            &&& found.log_variances.shape() == Shape::S3(batch, len, config.flow_size)
            &&& found.duration.shape() == Shape::S3(batch, 1, len)
            &&& found.sums.shape() == Shape::S1(batch)
            &&& found.ends.shape() == Shape::S2(batch, len)
        }),
{
    broadcast use {
        crate::tensor::term::strictness,
        crate::model::duration_predictor::strict_predictor,
    };

    let found = model.durations(ids, attention_mask, speaking_rate);
    let encoder = model.text_encoder;
    let padding_mask = VitsModel::padding_mask(ids, attention_mask);
    let hidden = encoder.hidden(ids, padding_mask, attention_mask);
    let rate = match speaking_rate {
        Some(r) => r,
        None => model.speaking_rate,
    };
    let turned = hidden.transpose(1, 2).contiguous();
    let scale = model.noise_scale_duration;
    let logs = model.duration_predictor.output(turned, found.mask, None, scale);
    assert(found.duration == logs.exp().broadcast_mul(found.mask).scale(
        Scalar::Reciprocal(rate),
    ).ceil());

    lemma_padding_mask(ids, attention_mask, batch, len);
    lemma_turned(padding_mask);
    lemma_hidden_shape(
        encoder,
        config,
        vb.pp("text_encoder"@),
        ids,
        padding_mask,
        attention_mask,
        batch,
        len,
    );
    lemma_prior_shape(
        encoder,
        config,
        vb.pp("text_encoder"@),
        hidden,
        padding_mask,
        batch,
        len,
    );
    lemma_turned(hidden);
    lemma_predicted_shape(
        model.duration_predictor,
        config,
        vb.pp("duration_predictor"@),
        turned,
        found.mask,
        None,
        scale,
        batch,
        len,
    );
    lemma_counted(logs, found.mask, rate, batch, len);
    lemma_sums_and_ends(found.duration, batch, len);
}

proof fn lemma_decoded(decoder: VitsHifiGan, config: VitsConfig, vb: ScopeView, x: Term)
    requires
        decoder.loaded(config, vb),
        term::typ(decoder.conv_pre.output(x)) is Some,
    ensures
        x.shape() is S3,
        x.shape()->S3_1 == config.flow_size,
{
    broadcast use crate::tensor::term::typing_rules;

}

/// The latent frames that the sound is made of: as many numbers for each as the flow size says.
pub proof fn lemma_spectrogram_shape(
    model: VitsModel,
    config: VitsConfig,
    vb: ScopeView,
    d: DurationTerms,
    batch: usize,
    len: usize,
    frames: usize,
)
    requires
        model.loaded(config, vb),
        term::typ(model.waveform(d, batch, len, frames)) is Some,
        d.mask.shape() == Shape::S3(batch, 1, len),
    ensures
        model.spectrogram(d, batch, len, frames).shape() == Shape::S3(
            batch,
            config.flow_size,
            frames,
        ),
{
    broadcast use {
        crate::tensor::term::strictness,
        crate::model::coupling::strict_coupling,
        crate::model::hifigan::strict_decoder,
    };

    let spectrogram = model.spectrogram(d, batch, len, frames);
    lengths::lemma_spectrogram_frames(model, d, batch, len, frames);
    reveal(VitsHifiGan::output);
    let first = model.decoder.first(spectrogram, None);
    assert(term::typ(first) is Some) by {
        if term::typ(first) is None {
            model.decoder.lemma_undefined(0, first);
        }
    }
    lemma_decoded(model.decoder, config, vb.pp("decoder"@), spectrogram);
}

} // verus!
