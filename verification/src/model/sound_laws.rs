//! What the sound is made of, where arithmetic is exact.

use vstd::prelude::*;

use crate::config::VitsConfig;
use crate::model::channels;
use crate::model::channels::holds;
use crate::model::coupling_laws;
use crate::model::decoder_laws;
use crate::model::hifigan;
use crate::model::hifigan::VitsHifiGan;
use crate::model::lengths;
use crate::model::numbers;
use crate::model::numbers::Numbers;
use crate::model::shapes;
use crate::model::vits::{DurationTerms, VitsModel};
use crate::nn::ScopeView;
use crate::tensor::ops::{Noise, Op1, Slot};
use crate::tensor::scalar::{Real, Scalar};
use crate::tensor::shape::Shape;
use crate::tensor::term;
use crate::tensor::term::Term;
use crate::tensor::typing::DType;

verus! {

broadcast use {
    crate::tensor::term::strictness,
    crate::model::coupling::strict_coupling,
    crate::model::hifigan::strict_decoder,
};

/// The samples of a sequence are the one channel that the decoder, with the weights under the name
/// `decoder`, gives for the spectrogram.
pub proof fn lemma_samples(
    i: Numbers,
    m: VitsModel,
    config: VitsConfig,
    vb: ScopeView,
    d: DurationTerms,
    batch: usize,
    len: usize,
    frames: usize,
) -> (samples: usize)
    requires
        i.reckons(),
        m.loaded(config, vb),
        VitsModel::failure(config, vb) is None,
        term::typ(m.waveform(d, batch, len, frames)) is Some,
    ensures
        ({
            let sound = m.decoder.output(m.spectrogram(d, batch, len, frames), None);
            let waveform = m.waveform(d, batch, len, frames);
            &&& m.decoder.loaded(config, vb.pp("decoder"@))
            &&& term::typ(sound) is Some
            &&& sound.shape() is S3
            &&& samples == sound.shape()->S3_2
            &&& sound.shape()->S3_1 == 1
            &&& waveform.shape() == Shape::S2(sound.shape()->S3_0, samples)
            &&& forall|b: int, s: int|
                0 <= b < sound.shape()->S3_0 && 0 <= s < samples ==> i.values(waveform)(
                    b * samples + s,
                ) == #[trigger] i.at(sound, b, 0, s)
        }),
{
    let sound = m.decoder.output(m.spectrogram(d, batch, len, frames), None);
    assert(m.waveform(d, batch, len, frames) == sound.squeeze(1));
    assert(term::typ(sound) is Some);
    let spectrogram = m.spectrogram(d, batch, len, frames);
    let scope = vb.pp("decoder"@);
    let chain = decoder_laws::lemma_decoder(i, m.decoder, config, scope, spectrogram, None);
    lemma_one_channel(m.decoder, config, scope, chain.last());
    lemma_only_channel(i, sound);
    sound.shape()->S3_2
}

proof fn lemma_one_channel(decoder: VitsHifiGan, config: VitsConfig, vb: ScopeView, x: Term)
    requires
        decoder.loaded(config, vb),
        term::typ(decoder.output_from(config.upsample_rates@.len(), x)) is Some,
    ensures
        decoder.output_from(config.upsample_rates@.len(), x).shape() is S3,
        decoder.output_from(config.upsample_rates@.len(), x).shape()->S3_1 == 1,
{
    let n = config.upsample_rates@.len();
    let y = decoder.conv_post.output(hifigan::leaky(x, Real { bits: 0x3F84_7AE1_47AE_147B }));
    assert(decoder.output_from(n, x) == y.tanh());
    lengths::lemma_tanh_type(y);
    let inner = VitsHifiGan::channels(config, n);
    lengths::lemma_tensor_shape(vb.pp("conv_post"@), "weight"@, Shape::S3(1, inner, 7));
    assert(y.shape() is S3 && y.shape()->S3_1 == 1) by {
        broadcast use crate::tensor::term::typing_rules;

    }
}

proof fn lemma_only_channel(i: Numbers, x: Term)
    requires
        term::typ(x.squeeze(1)) is Some,
        x.shape() is S3,
        x.shape()->S3_1 == 1,
    ensures
        term::typ(x) is Some,
        x.squeeze(1).shape() == Shape::S2(x.shape()->S3_0, x.shape()->S3_2),
        forall|b: int, s: int|
            0 <= b < x.shape()->S3_0 && 0 <= s < x.shape()->S3_2 ==> i.values(x.squeeze(1))(
                b * x.shape()->S3_2 + s,
            ) == #[trigger] i.at(x, b, 0, s),
{
    assert(x.squeeze(1).shape() == Shape::S2(x.shape()->S3_0, x.shape()->S3_2)) by {
        broadcast use crate::tensor::term::typing_rules;

    }
    numbers::values_one(i, x, Op1::Squeeze(1));
    let n = x.shape()->S3_2 as int;
    assert forall|b: int, s: int| 0 <= b < x.shape()->S3_0 && 0 <= s < n implies i.values(
        x.squeeze(1),
    )(b * n + s) == #[trigger] i.at(x, b, 0, s) by {
        assert((b * 1 + 0) * n + s == b * n + s);
    }
}

/// The spectrogram is what the inverse of the coupling block, with the weights under the name
/// `flow`, makes of the drawn frames, under the mask of the frames that count.
pub proof fn lemma_spectrogram(
    i: Numbers,
    m: VitsModel,
    config: VitsConfig,
    vb: ScopeView,
    d: DurationTerms,
    batch: usize,
    len: usize,
    frames: usize,
) -> (chain: Seq<Term>)
    requires
        i.reckons(),
        (i.exponential)(0real) == 1real,
        m.loaded(config, vb),
        term::typ(m.spectrogram(d, batch, len, frames)) is Some,
        d.mask.shape() == Shape::S3(batch, 1, len),
    ensures
        ({
            let mask = Term::input(Slot::OutputMask, DType::F32, Shape::S3(batch, 1, frames));
            let attention = VitsModel::attention(d.mask, batch, len, frames);
            let spectrogram = m.spectrogram(d, batch, len, frames);
            &&& chain.first() == m.latents(
                VitsModel::spread(attention, d.means),
                VitsModel::spread(attention, d.log_variances),
            )
            &&& coupling_laws::runs_backwards(
                i,
                m.flow,
                config,
                vb.pp("flow"@),
                mask,
                None,
                chain,
            )
            &&& forall|b: int, c: int, t: int| #[trigger]
                holds(spectrogram, b, c, t) ==> i.at(
                    spectrogram,
                    b,
                    c,
                    t,
                ) == i.at(chain.last(), b, c, t) * i.at(mask, b, 0, t)
        }),
{
    let mask = VitsModel::output_mask(batch, frames);
    let attention = VitsModel::attention(d.mask, batch, len, frames);
    let means = VitsModel::spread(attention, d.means);
    let logs = VitsModel::spread(attention, d.log_variances);
    let z = m.latents(means, logs);
    let flowed = m.flow.output(z, mask, None, true);
    let spectrogram = m.spectrogram(d, batch, len, frames);
    assert(spectrogram == flowed.broadcast_mul(mask));
    assert(term::typ(z) is Some);
    assert(term::typ(means) is Some);
    assert(term::typ(mask) is Some);
    assert(mask.shape() == Shape::S3(batch, 1, frames)) by {
        broadcast use crate::tensor::term::typing_rules;

    }
    assert(term::typ(attention) is Some);
    lengths::lemma_attention_shape(d.mask, batch, len, frames);
    lengths::lemma_spread_shape(attention, d.means, batch, len, frames);
    lengths::lemma_first_summand_type(
        means,
        Term::randn(Noise::Latents, means.shape()).mul(logs.exp()).scale(
            Scalar::Value(m.noise_scale),
        ),
    );
    assert(z.shape() == means.shape());
    lengths::lemma_backwards_shape(m.flow, m.flow.flows@.len(), z, mask, None);
    shapes::lemma_masked(flowed, mask, batch, frames);
    let chain = coupling_laws::lemma_block_backwards(
        i,
        m.flow,
        config,
        vb.pp("flow"@),
        z,
        mask,
        None,
    );
    assert forall|b: int, c: int, t: int| #[trigger] holds(spectrogram, b, c, t) implies i.at(
        spectrogram,
        b,
        c,
        t,
    ) == i.at(chain.last(), b, c, t) * i.at(mask, b, 0, t) by {
        channels::lemma_masked(i, flowed, mask, b, c, t);
    }
    chain
}

} // verus!
