//! How long the sound is.

use vstd::prelude::*;

use crate::config::VitsConfig;
use crate::model::alignment;
use crate::model::coupling::{VitsResidualCouplingBlock, VitsResidualCouplingLayer};
use crate::model::hifigan;
use crate::model::hifigan::{HifiGanResidualBlock, VitsHifiGan};
use crate::model::vits;
use crate::model::vits::{DurationTerms, VitsModel};
use crate::nn;
use crate::nn::{Conv1d, ConvTranspose1d, ScopeView};
use crate::tensor::index;
use crate::tensor::ops::Noise;
use crate::tensor::scalar::{Real, Scalar};
use crate::tensor::shape::Shape;
use crate::tensor::term;
use crate::tensor::term::Term;
use crate::tensor::typing;
use crate::tensor::typing::ConvTransposeConfig;

verus! {

pub(crate) proof fn lemma_conv_shape(conv: Conv1d, x: Term, out: usize, inner: usize, kernel: usize)
    requires
        term::typ(conv.output(x)) is Some,
        conv.weight@.shape() == Shape::S3(out, inner, kernel),
        conv.bias is Some ==> conv.bias->0@.shape() == Shape::S1(out),
    ensures
        ({
            &&& x.shape() is S3
            &&& conv.output(x).shape() == Shape::S3(
                x.shape()->S3_0,
                out,
                typing::conv_length(x.shape()->S3_2, kernel, conv.config) as usize,
            )
            &&& typing::conv_length(x.shape()->S3_2, kernel, conv.config) <= usize::MAX
        }),
{
    broadcast use crate::tensor::term::typing_rules;

}

pub(crate) proof fn lemma_up_shape(up: ConvTranspose1d, x: Term, out: usize, inner: usize, kernel: usize)
    requires
        term::typ(up.output(x)) is Some,
        up.weight@.shape() == Shape::S3(inner, out, kernel),
        up.bias@.shape() == Shape::S1(out),
    ensures
        ({
            &&& x.shape() is S3
            &&& up.output(x).shape() == Shape::S3(
                x.shape()->S3_0,
                out,
                typing::conv_transpose_length(x.shape()->S3_2, kernel, up.config) as usize,
            )
            &&& 0 <= typing::conv_transpose_length(x.shape()->S3_2, kernel, up.config)
                <= usize::MAX
            &&& x.shape()->S3_2 >= 1
        }),
{
    broadcast use crate::tensor::term::typing_rules;

}

pub(crate) proof fn lemma_leaky_type(x: Term, slope: Real)
    requires
        term::typ(hifigan::leaky(x, slope)) is Some,
    ensures
        term::typ(hifigan::leaky(x, slope)) == term::typ(x),
{
    broadcast use crate::tensor::term::typing_rules;

}

pub(crate) proof fn lemma_normalized_shape(vb: ScopeView, rows: usize, columns: usize, kernel: usize)
    requires
        term::typ(nn::normalized_weight(vb, rows, columns, kernel)) is Some,
    ensures
        nn::normalized_weight(vb, rows, columns, kernel).shape() == Shape::S3(
            rows,
            columns,
            kernel,
        ),
{
    broadcast use crate::tensor::term::typing_rules;

}

pub(crate) proof fn lemma_tensor_shape(vb: ScopeView, name: Seq<char>, shape: Shape)
    requires
        term::typ(vb.tensor(name, shape)) is Some,
    ensures
        vb.tensor(name, shape).shape() == shape,
{
    broadcast use crate::tensor::term::typing_rules;

}

/// A residual block keeps the type of its input.
pub(crate) proof fn lemma_block_type(block: HifiGanResidualBlock, i: nat, x: Term)
    requires
        term::typ(block.output_from(i, x)) is Some,
    ensures
        term::typ(block.output_from(i, x)) == term::typ(x),
    decreases block.convs@.len() - i,
{
    if i < block.convs@.len() {
        let y = block.step(i, x);
        lemma_block_type(block, i + 1, y);
        lemma_sum_type(y, x);
    }
}

proof fn lemma_sum_type(y: Term, x: Term)
    requires
        term::typ(y) is Some,
        exists|a: Term| y == #[trigger] a.add(x),
    ensures
        term::typ(y) == term::typ(x),
{
    broadcast use crate::tensor::term::typing_rules;

}

/// A sum has the type of its first summand.
pub(crate) proof fn lemma_blocks_sum_type(decoder: VitsHifiGan, i: nat, j: nat, sum: Term, x: Term)
    requires
        term::typ(decoder.sum_from(i, j, sum, x)) is Some,
    ensures
        term::typ(decoder.sum_from(i, j, sum, x)) == term::typ(sum),
    decreases decoder.resblocks@[i as int]@.len() - j,
{
    if j < decoder.resblocks@[i as int]@.len() {
        let next = sum.add(decoder.resblocks@[i as int]@[j as int].output(x));
        lemma_blocks_sum_type(decoder, i, j + 1, next, x);
        lemma_first_summand_type(sum, decoder.resblocks@[i as int]@[j as int].output(x));
    }
}

pub(crate) proof fn lemma_first_summand_type(a: Term, b: Term)
    requires
        term::typ(a.add(b)) is Some,
    ensures
        term::typ(a.add(b)) == term::typ(a),
{
    broadcast use crate::tensor::term::typing_rules;

}

proof fn lemma_scale_type(a: Term, decoder: VitsHifiGan)
    requires
        term::typ(a.scale(Scalar::OverCount(decoder.num_kernels))) is Some,
    ensures
        term::typ(a.scale(Scalar::OverCount(decoder.num_kernels))) == term::typ(a),
{
    broadcast use crate::tensor::term::typing_rules;

}

/// The blocks of a stage keep the type of their input.
pub(crate) proof fn lemma_blocks_mean_type(decoder: VitsHifiGan, i: nat, x: Term)
    requires
        term::typ(decoder.blocks_mean(i, x)) is Some,
    ensures
        term::typ(decoder.blocks_mean(i, x)) == term::typ(x),
{
    broadcast use crate::tensor::term::strictness;

    let first = decoder.resblocks@[i as int]@[0];
    let sum = decoder.sum_from(i, 1, first.output(x), x);
    lemma_scale_type(sum, decoder);
    lemma_blocks_sum_type(decoder, i, 1, first.output(x), x);
    reveal(HifiGanResidualBlock::output);
    lemma_block_type(first, 0, x);
}

/// Whether the transposed convolution of stage `i` stretches every line by the rate of the stage,
/// neither more nor less.
pub open spec fn exact_rate(config: VitsConfig, i: int) -> bool {
    (config.upsample_kernel_sizes@[i] - config.upsample_rates@[i]) % 2 == 0
        && config.upsample_rates@[i] <= config.upsample_kernel_sizes@[i]
}

proof fn lemma_stretched(len: usize, rate: usize, kernel: usize)
    requires
        len >= 1,
        rate <= kernel,
        kernel >= 1,
        (kernel - rate) % 2 == 0,
    ensures
        typing::conv_transpose_length(
            len,
            kernel,
            (ConvTransposeConfig {
                padding: ((kernel - rate) / 2) as usize,
                output_padding: 0,
                stride: rate,
                dilation: 1,
            }),
        ) == len * rate,
{
    assert((len - 1) * rate == len * rate - rate) by (nonlinear_arith);
}

/// A stage stretches every line by its rate.
proof fn lemma_stage_shape(
    decoder: VitsHifiGan,
    config: VitsConfig,
    vb: ScopeView,
    i: nat,
    x: Term,
)
    requires
        decoder.loaded(config, vb),
        term::typ(decoder.stage(i, x)) is Some,
        i < config.upsample_rates@.len(),
        exact_rate(config, i as int),
    ensures
        x.shape() is S3,
        decoder.stage(i, x).shape() == Shape::S3(
            x.shape()->S3_0,
            VitsHifiGan::channels(config, i + 1),
            (x.shape()->S3_2 * config.upsample_rates@[i as int]) as usize,
        ),
        x.shape()->S3_2 * config.upsample_rates@[i as int] <= usize::MAX,
{
    broadcast use crate::tensor::term::strictness;

    if !decoder.stage_complete(i) {
        assert(decoder.stage(i, x) == Term::undefined());
    }
    let y = hifigan::leaky(x, decoder.leaky_relu_slope);
    let up = decoder.upsampler@[i as int];
    lemma_blocks_mean_type(decoder, i, up.output(y));
    let scope = vb.item("upsampler"@, i);
    let inner = VitsHifiGan::channels(config, i);
    let out = VitsHifiGan::channels(config, i + 1);
    let kernel = config.upsample_kernel_sizes@[i as int];
    assert(VitsHifiGan::up_loaded(decoder.upsampler@[i as int], config, vb, i));
    lemma_normalized_shape(scope, inner, out, kernel);
    lemma_tensor_shape(scope, "bias"@, Shape::S1(out));
    lemma_up_shape(up, y, out, inner, kernel);
    lemma_leaky_type(x, decoder.leaky_relu_slope);
    lemma_kernel_positive(up, y, out, inner, kernel);
    lemma_stretched(y.shape()->S3_2, config.upsample_rates@[i as int], kernel);
}

proof fn lemma_kernel_positive(
    up: ConvTranspose1d,
    x: Term,
    out: usize,
    inner: usize,
    kernel: usize,
)
    requires
        term::typ(up.output(x)) is Some,
        up.weight@.shape() == Shape::S3(inner, out, kernel),
    ensures
        kernel >= 1,
{
    broadcast use crate::tensor::term::typing_rules;

}

/// The product of the numbers from place `i` on.
pub open spec fn product_from(v: Seq<usize>, i: int) -> int
    decreases v.len() - i,
{
    if i < 0 || i >= v.len() {
        1
    } else {
        v[i] * product_from(v, i + 1)
    }
}

proof fn lemma_product(v: Seq<usize>, i: int)
    requires
        0 <= i <= v.len(),
    ensures
        vits::product(v) == vits::product(v.take(i)) * product_from(v, i),
    decreases v.len() - i,
{
    if i < v.len() {
        lemma_product(v, i + 1);
        assert(v.take(i + 1).drop_last() =~= v.take(i));
        let a = vits::product(v.take(i));
        let b = product_from(v, i + 1);
        assert(vits::product(v.take(i + 1)) == a * v[i]);
        assert((a * v[i]) * b == a * (v[i] * b)) by (nonlinear_arith);
    } else {
        assert(v.take(i) =~= v);
    }
}

proof fn lemma_last_shape(decoder: VitsHifiGan, config: VitsConfig, vb: ScopeView, x: Term)
    requires
        decoder.loaded(config, vb),
        term::typ(decoder.output_from(decoder.num_upsamples as nat, x)) is Some,
    ensures
        x.shape() is S3,
        decoder.output_from(decoder.num_upsamples as nat, x).shape() == Shape::S3(
            x.shape()->S3_0,
            1,
            x.shape()->S3_2,
        ),
{
    broadcast use crate::tensor::term::strictness;

    let y = hifigan::leaky(x, Real { bits: hifigan::HUNDREDTH_BITS });
    let z = decoder.conv_post.output(y);
    let channels = VitsHifiGan::post_shape(config)->S3_1;
    lemma_tensor_shape(vb.pp("conv_post"@), "weight"@, VitsHifiGan::post_shape(config));
    lemma_conv_shape(decoder.conv_post, y, 1, channels, 7);
    lemma_leaky_type(x, Real { bits: hifigan::HUNDREDTH_BITS });
    lemma_tanh_type(z);
}

pub(crate) proof fn lemma_tanh_type(x: Term)
    requires
        term::typ(x.tanh()) is Some,
    ensures
        term::typ(x.tanh()) == term::typ(x),
{
    broadcast use crate::tensor::term::typing_rules;

}

/// The stages from number `i` on stretch every line by the product of their rates.
proof fn lemma_stages_shape(
    decoder: VitsHifiGan,
    config: VitsConfig,
    vb: ScopeView,
    i: nat,
    x: Term,
)
    requires
        decoder.loaded(config, vb),
        i <= decoder.num_upsamples,
        term::typ(decoder.output_from(i, x)) is Some,
        forall|k: int| 0 <= k < config.upsample_rates@.len() ==> #[trigger] exact_rate(config, k),
    ensures
        x.shape() is S3,
        decoder.output_from(i, x).shape() is S3,
        decoder.output_from(i, x).shape()->S3_0 == x.shape()->S3_0,
        decoder.output_from(i, x).shape()->S3_1 == 1,
        decoder.output_from(i, x).shape()->S3_2 == x.shape()->S3_2 * product_from(
            config.upsample_rates@,
            i as int,
        ),
    decreases decoder.num_upsamples - i,
{
    if i < decoder.num_upsamples {
        let y = decoder.stage(i, x);
        lemma_stages_shape(decoder, config, vb, i + 1, y);
        assert(term::typ(y) is Some) by {
            if term::typ(y) is None {
                decoder.lemma_undefined(i + 1, y);
            }
        }
        assert(exact_rate(config, i as int));
        lemma_stage_shape(decoder, config, vb, i, x);
        let len = x.shape()->S3_2 as int;
        let rate = config.upsample_rates@[i as int] as int;
        let rest = product_from(config.upsample_rates@, i as int + 1);
        assert((len * rate) * rest == len * (rate * rest)) by (nonlinear_arith);
    } else {
        lemma_last_shape(decoder, config, vb, x);
        assert(x.shape()->S3_2 * 1 == x.shape()->S3_2);
    }
}

/// The decoder makes of every frame as many samples as the product of its rates, where every
/// kernel exceeds its rate by an even number.
pub proof fn lemma_decoder_length(
    decoder: VitsHifiGan,
    config: VitsConfig,
    vb: ScopeView,
    x: Term,
    cond: Option<Term>,
)
    requires
        decoder.loaded(config, vb),
        term::typ(decoder.output(x, cond)) is Some,
        forall|k: int| 0 <= k < config.upsample_rates@.len() ==> #[trigger] exact_rate(config, k),
    ensures
        x.shape() is S3,
        decoder.output(x, cond).shape() is S3,
        decoder.output(x, cond).shape()->S3_0 == x.shape()->S3_0,
        decoder.output(x, cond).shape()->S3_1 == 1,
        decoder.output(x, cond).shape()->S3_2 == x.shape()->S3_2 * vits::product(
            config.upsample_rates@,
        ),
{
    broadcast use crate::tensor::term::strictness;

    reveal(VitsHifiGan::output);
    let first = decoder.first(x, cond);
    assert(term::typ(first) is Some) by {
        if term::typ(first) is None {
            decoder.lemma_undefined(0, first);
        }
    }
    lemma_stages_shape(decoder, config, vb, 0, first);
    let scope = vb.pp("conv_pre"@);
    let channels = config.upsample_initial_channel;
    lemma_tensor_shape(scope, "weight"@, Shape::S3(channels, config.flow_size, 7));
    lemma_tensor_shape(scope, "bias"@, Shape::S1(channels));
    lemma_conv_shape(decoder.conv_pre, x, channels, config.flow_size, 7);
    if cond is Some && decoder.cond is Some {
        lemma_first_summand_type(
            decoder.conv_pre.output(x),
            decoder.cond->0.output(cond->0),
        );
    }
    lemma_product(config.upsample_rates@, 0);
    let all = product_from(config.upsample_rates@, 0);
    assert(vits::product(config.upsample_rates@.take(0)) == 1);
    assert(1 * all == all) by (nonlinear_arith);
    assert(first.shape()->S3_2 == x.shape()->S3_2);
}

/// A coupling layer keeps the number of sequences and their length.
proof fn lemma_coupling_shape(
    layer: VitsResidualCouplingLayer,
    x: Term,
    mask: Term,
    cond: Option<Term>,
    reverse: bool,
)
    requires
        term::typ(layer.output(x, mask, cond, reverse)) is Some,
    ensures
        x.shape() is S3,
        layer.output(x, mask, cond, reverse).shape() is S3,
        layer.output(x, mask, cond, reverse).shape()->S3_0 == x.shape()->S3_0,
        layer.output(x, mask, cond, reverse).shape()->S3_2 == x.shape()->S3_2,
{
    broadcast use {
        crate::tensor::term::strictness,
        crate::model::wavenet::strict_wavenet,
    };

    let half = layer.half_channels;
    let first = x.narrow(1, 0, half);
    let second = x.narrow(1, half, half);
    let mean = layer.mean(first, mask, cond);
    let changed = if reverse {
        second.sub(mean).mul(mean.zeros_like().neg().exp()).broadcast_mul(mask)
    } else {
        mean.add(second.mul(mean.zeros_like().exp())).broadcast_mul(mask)
    };
    assert(layer.output(x, mask, cond, reverse) == first.concat(changed, 1));
    index::lemma_concat_shape(first, changed, 1);
    index::lemma_narrow_shape(x, 1, 0, half);
    nn::lemma_conv_type(layer.conv_pre, first);
}

/// The inverses of the layers below number `i` keep the number of sequences and their length.
pub(crate) proof fn lemma_backwards_shape(
    block: VitsResidualCouplingBlock,
    i: nat,
    x: Term,
    mask: Term,
    cond: Option<Term>,
)
    requires
        i <= block.flows@.len(),
        term::typ(block.backwards_from(i, x, mask, cond)) is Some,
        x.shape() is S3,
    ensures
        block.backwards_from(i, x, mask, cond).shape() is S3,
        block.backwards_from(i, x, mask, cond).shape()->S3_0 == x.shape()->S3_0,
        block.backwards_from(i, x, mask, cond).shape()->S3_2 == x.shape()->S3_2,
    decreases i,
{
    if i > 0 {
        let layer = block.flows@[i - 1];
        let y = layer.output(x.reverse(1), mask, cond, true);
        assert(term::typ(y) is Some) by {
            if term::typ(y) is None {
                block.lemma_undefined_backwards((i - 1) as nat, y, mask, cond);
            }
        }
        lemma_coupling_shape(layer, x.reverse(1), mask, cond, true);
        lemma_reverse_type(layer, x, mask, cond);
        lemma_backwards_shape(block, (i - 1) as nat, y, mask, cond);
    }
}

proof fn lemma_reverse_type(
    layer: VitsResidualCouplingLayer,
    x: Term,
    mask: Term,
    cond: Option<Term>,
)
    requires
        term::typ(layer.output(x.reverse(1), mask, cond, true)) is Some,
    ensures
        x.reverse(1).shape() == x.shape(),
{
    broadcast use crate::tensor::term::strictness;

    let first = x.reverse(1).narrow(1, 0, layer.half_channels);
    assert(term::typ(first) is Some);
    lemma_reversed_shape(x);
}

proof fn lemma_reversed_shape(x: Term)
    requires
        term::typ(x.reverse(1)) is Some,
    ensures
        x.reverse(1).shape() == x.shape(),
{
    broadcast use crate::tensor::term::typing_rules;

}

pub(crate) proof fn lemma_attention_shape(mask: Term, batch: usize, len: usize, frames: usize)
    requires
        term::typ(VitsModel::attention(mask, batch, len, frames)) is Some,
        mask.shape() == Shape::S3(batch, 1, len),
    ensures
        VitsModel::attention(mask, batch, len, frames).shape() == Shape::S3(batch, frames, len),
{
    broadcast use crate::tensor::term::typing_rules;

}

pub(crate) proof fn lemma_spread_shape(attention: Term, x: Term, batch: usize, len: usize, frames: usize)
    requires
        term::typ(VitsModel::spread(attention, x)) is Some,
        attention.shape() == Shape::S3(batch, frames, len),
    ensures
        VitsModel::spread(attention, x).shape() is S3,
        VitsModel::spread(attention, x).shape()->S3_0 == batch,
        VitsModel::spread(attention, x).shape()->S3_2 == frames,
{
    broadcast use crate::tensor::term::typing_rules;

}

pub(crate) proof fn lemma_masked_shape(z: Term, batch: usize, frames: usize)
    requires
        term::typ(z.broadcast_mul(VitsModel::output_mask(batch, frames))) is Some,
        z.shape() is S3,
        z.shape()->S3_0 == batch,
        z.shape()->S3_2 == frames,
    ensures
        z.broadcast_mul(VitsModel::output_mask(batch, frames)).shape() == z.shape(),
{
    broadcast use crate::tensor::term::typing_rules;

}

proof fn lemma_squeeze_shape(x: Term, n: usize, len: usize)
    requires
        term::typ(x.squeeze(1)) is Some,
        x.shape() == Shape::S3(n, 1, len),
    ensures
        x.squeeze(1).shape() == Shape::S2(n, len),
{
    broadcast use crate::tensor::term::typing_rules;

}

/// The latent frames are as many for every sequence as were asked for.
pub(crate) proof fn lemma_spectrogram_frames(
    model: VitsModel,
    d: DurationTerms,
    batch: usize,
    len: usize,
    frames: usize,
)
    requires
        term::typ(model.spectrogram(d, batch, len, frames)) is Some,
        d.mask.shape() == Shape::S3(batch, 1, len),
    ensures
        model.spectrogram(d, batch, len, frames).shape() is S3,
        model.spectrogram(d, batch, len, frames).shape()->S3_0 == batch,
        model.spectrogram(d, batch, len, frames).shape()->S3_2 == frames,
{
    broadcast use {crate::tensor::term::strictness, crate::model::coupling::strict_coupling};

    let attention = VitsModel::attention(d.mask, batch, len, frames);
    let means = VitsModel::spread(attention, d.means);
    let latents = model.latents(means, VitsModel::spread(attention, d.log_variances));
    let mask = VitsModel::output_mask(batch, frames);
    let z = model.flow.output(latents, mask, None, true);
    assert(model.spectrogram(d, batch, len, frames) == z.broadcast_mul(mask));
    lemma_attention_shape(d.mask, batch, len, frames);
    lemma_spread_shape(attention, d.means, batch, len, frames);
    lemma_first_summand_type(
        means,
        Term::randn(Noise::Latents, means.shape()).mul(
            VitsModel::spread(attention, d.log_variances).exp(),
        ).scale(Scalar::Value(model.noise_scale)),
    );
    lemma_backwards_shape(model.flow, model.flow.flows@.len(), latents, mask, None);
    lemma_masked_shape(z, batch, frames);
}

/// The sound is as long as the frames of the longest sequence say: for every frame as many samples
/// as the product of the rates, where every kernel exceeds its rate by an even number.
pub proof fn lemma_waveform_length(
    model: VitsModel,
    config: VitsConfig,
    vb: ScopeView,
    d: DurationTerms,
    batch: usize,
    len: usize,
    frames: usize,
)
    requires
        model.loaded(config, vb),
        term::typ(model.waveform(d, batch, len, frames)) is Some,
        d.mask.shape() == Shape::S3(batch, 1, len),
        forall|k: int| 0 <= k < config.upsample_rates@.len() ==> #[trigger] exact_rate(config, k),
    ensures
        model.waveform(d, batch, len, frames).shape() is S2,
        model.waveform(d, batch, len, frames).shape()->S2_0 == batch,
        model.waveform(d, batch, len, frames).shape()->S2_1 == frames * model.samples_per_frame(),
{
    broadcast use {
        crate::tensor::term::strictness,
        crate::model::coupling::strict_coupling,
        crate::model::hifigan::strict_decoder,
    };

    let spectrogram = model.spectrogram(d, batch, len, frames);
    lemma_spectrogram_frames(model, d, batch, len, frames);
    lemma_decoder_length(model.decoder, config, vb.pp("decoder"@), spectrogram, None);
    let sound = model.decoder.output(spectrogram, None);
    lemma_squeeze_shape(sound, batch, sound.shape()->S3_2);
}

/// No sequence has more samples than the sound, and one of them has as many.
pub proof fn lemma_sequence_lengths(
    model: VitsModel,
    config: VitsConfig,
    vb: ScopeView,
    d: DurationTerms,
    batch: usize,
    len: usize,
    sums: Seq<i64>,
)
    requires
        model.loaded(config, vb),
        sums.len() == batch,
        alignment::longest(sums) <= usize::MAX,
        term::typ(model.waveform(d, batch, len, alignment::longest(sums) as usize)) is Some,
        d.mask.shape() == Shape::S3(batch, 1, len),
        forall|k: int| 0 <= k < config.upsample_rates@.len() ==> #[trigger] exact_rate(config, k),
    ensures
        ({
            let sound = model.waveform(d, batch, len, alignment::longest(sums) as usize);
            let samples = sound.shape()->S2_1;
            &&& forall|b: int|
                0 <= b < batch ==> #[trigger] alignment::frames(sums[b]) * model.samples_per_frame()
                    <= samples
            &&& batch > 0 ==> exists|b: int|
                0 <= b < batch && #[trigger] alignment::frames(sums[b])
                    * model.samples_per_frame() == samples
        }),
{
    alignment::lemma_longest(sums);
    let frames = alignment::longest(sums);
    lemma_longest_not_negative(sums);
    lemma_waveform_length(model, config, vb, d, batch, len, frames as usize);
    let factor = model.samples_per_frame();
    let sound = model.waveform(d, batch, len, frames as usize);
    lemma_product_not_negative(model.upsample_rates@);
    assert forall|b: int| 0 <= b < batch implies #[trigger] alignment::frames(sums[b]) * factor
        <= sound.shape()->S2_1 by {
        let own = alignment::frames(sums[b]) as int;
        assert(own * factor <= frames * factor) by (nonlinear_arith)
            requires
                own <= frames,
                factor >= 0,
        ;
    }
    if batch > 0 {
        let b = choose|b: int| 0 <= b < batch && #[trigger] alignment::frames(sums[b]) == frames;
        assert(alignment::frames(sums[b]) * factor == sound.shape()->S2_1);
    }
}

proof fn lemma_longest_not_negative(sums: Seq<i64>)
    ensures
        alignment::longest(sums) >= 0,
    decreases sums.len(),
{
    if sums.len() > 0 {
        lemma_longest_not_negative(sums.drop_last());
    }
}

proof fn lemma_product_not_negative(v: Seq<usize>)
    ensures
        vits::product(v) >= 0,
    decreases v.len(),
{
    if v.len() > 0 {
        lemma_product_not_negative(v.drop_last());
        let rest = vits::product(v.drop_last());
        assert(rest * v.last() >= 0) by (nonlinear_arith)
            requires
                rest >= 0,
        ;
    }
}

} // verus!
