//! The whole model: from token identifiers to sound.
//!
//! The number of output frames is itself computed from the text, so the model runs in two steps.
//! [`VitsModel::forward`] gives the expressions for the durations. Once two of them have been
//! evaluated, [`VitsModel::complete`] lays the frames out and gives the expression for the sound.

use vstd::prelude::*;

use crate::config::VitsConfig;
use crate::model::alignment;
use crate::model::alignment::{Alignment, AlignmentError};
use crate::model::coupling::VitsResidualCouplingBlock;
use crate::model::duration_predictor::VitsStochasticDurationPredictor;
use crate::model::hifigan::VitsHifiGan;
use crate::model::positions;
use crate::model::text_encoder::VitsTextEncoder;
use crate::nn;
use crate::nn::{LoadError, Scope, ScopeView};
use crate::tensor::expr;
use crate::tensor::expr::{Tensor, TensorError};
use crate::tensor::index;
use crate::tensor::ops::{Noise, Slot};
use crate::tensor::scalar;
use crate::tensor::scalar::{Real, Scalar, ONE_BITS};
use crate::tensor::shape::Shape;
use crate::tensor::term;
use crate::tensor::term::Term;
use crate::tensor::typing::DType;

verus! {

broadcast use {
    crate::tensor::term::strictness,
    crate::model::text_encoder::strict_encoder,
    crate::model::duration_predictor::strict_predictor,
    crate::model::coupling::strict_coupling,
    crate::model::hifigan::strict_decoder,
};

/// What the model gives.
#[derive(Debug)]
pub struct VitsModelOutput {
    /// Of shape batch, samples.
    pub waveform: Tensor,
    /// For every sequence the number of its samples.
    pub sequence_lengths: Vec<i64>,
    /// Of shape batch, flow size, frames.
    pub spectrogram: Tensor,
}

/// Why the sound cannot be computed.
#[derive(Clone, Copy, PartialEq, Eq, Structural, Debug)]
pub enum SynthesisError {
    /// The frames cannot be laid out.
    Alignment(AlignmentError),
    /// The shapes of some tensors do not fit together.
    Tensor(TensorError),
    /// A number of samples is out of range.
    SampleCount,
}

/// What the first step finds, as expressions.
pub struct DurationTerms {
    /// One for every token that counts: of shape batch, 1, length.
    pub mask: Term,
    /// Of shape batch, length, flow size.
    pub means: Term,
    /// Of shape batch, length, flow size.
    pub log_variances: Term,
    /// The number of frames of every token: of shape batch, 1, length.
    pub duration: Term,
    /// The number of frames of every sequence: of shape batch.
    pub sums: Term,
    /// The frame at which every token ends: of shape batch, length.
    pub ends: Term,
}

impl DurationTerms {
    /// Whether every part has a type.
    pub open spec fn defined(self) -> bool {
        &&& term::typ(self.mask) is Some
        &&& term::typ(self.means) is Some
        &&& term::typ(self.log_variances) is Some
        &&& term::typ(self.duration) is Some
        &&& term::typ(self.sums) is Some
        &&& term::typ(self.ends) is Some
    }
}

/// What the first step finds.
#[derive(Debug)]
pub struct Durations {
    pub batch_size: usize,
    pub seq_len: usize,
    pub mask: Tensor,
    pub means: Tensor,
    pub log_variances: Tensor,
    pub duration: Tensor,
    pub sums: Tensor,
    pub ends: Tensor,
}

impl View for Durations {
    type V = DurationTerms;

    open spec fn view(&self) -> DurationTerms {
        DurationTerms {
            mask: self.mask@,
            means: self.means@,
            log_variances: self.log_variances@,
            duration: self.duration@,
            sums: self.sums@,
            ends: self.ends@,
        }
    }
}

/// The model.
#[derive(Debug)]
pub struct VitsModel {
    pub text_encoder: VitsTextEncoder,
    pub flow: VitsResidualCouplingBlock,
    pub decoder: VitsHifiGan,
    pub duration_predictor: VitsStochasticDurationPredictor,
    pub upsample_rates: Vec<usize>,
    pub speaking_rate: Real,
    pub noise_scale: Real,
    pub noise_scale_duration: Real,
}

impl VitsModel {
    /// Why the model cannot be built, if so.
    pub open spec fn failure(config: VitsConfig, vb: ScopeView) -> Option<LoadError> {
        if !config.use_stochastic_duration_prediction {
            Some(LoadError::DurationPredictor)
        } else if config.num_speakers > 1 {
            Some(LoadError::Speakers)
        } else {
            nn::either(
                VitsTextEncoder::failure(config, vb.pp("text_encoder"@)),
                nn::either(
                    VitsResidualCouplingBlock::failure(config, vb.pp("flow"@)),
                    nn::either(
                        VitsHifiGan::failure(config, vb.pp("decoder"@)),
                        VitsStochasticDurationPredictor::failure(
                            config,
                            vb.pp("duration_predictor"@),
                        ),
                    ),
                ),
            )
        }
    }

    /// Whether this is the model that the checkpoint holds.
    pub open spec fn loaded(self, config: VitsConfig, vb: ScopeView) -> bool {
        &&& self.text_encoder.loaded(config, vb.pp("text_encoder"@))
        &&& self.flow.loaded(config, vb.pp("flow"@))
        &&& self.decoder.loaded(config, vb.pp("decoder"@))
        &&& self.duration_predictor.loaded(config, vb.pp("duration_predictor"@))
        &&& self.upsample_rates@ == config.upsample_rates@
        &&& self.speaking_rate == config.speaking_rate
        &&& self.noise_scale == config.noise_scale
        &&& self.noise_scale_duration == config.noise_scale_duration
    }

    /// The model for a configuration, which has to be for one speaker and for durations that are
    /// drawn at random.
    pub fn new(config: &VitsConfig, vb: &Scope) -> (r: Result<VitsModel, LoadError>)
        ensures
            match r {
                Ok(m) => VitsModel::failure(*config, vb@) is None && m.loaded(*config, vb@),
                Err(e) => VitsModel::failure(*config, vb@) == Some(e),
            },
    {
        if !config.use_stochastic_duration_prediction {
            return Err(LoadError::DurationPredictor);
        }
        if config.num_speakers > 1 {
            return Err(LoadError::Speakers);
        }
        let text_encoder = VitsTextEncoder::new(config, &vb.pp("text_encoder"))?;
        let flow = VitsResidualCouplingBlock::new(config, &vb.pp("flow"))?;
        let decoder = VitsHifiGan::new(config, &vb.pp("decoder"))?;
        let duration_predictor = VitsStochasticDurationPredictor::new(
            config,
            &vb.pp("duration_predictor"),
        )?;
        Ok(
            VitsModel {
                text_encoder,
                flow,
                decoder,
                duration_predictor,
                upsample_rates: config.upsample_rates.clone(),
                speaking_rate: config.speaking_rate,
                noise_scale: config.noise_scale,
                noise_scale_duration: config.noise_scale_duration,
            },
        )
    }

    /// One for every token that counts, of shape batch, length, 1: all, if there is no mask.
    pub open spec fn padding_mask(ids: Term, attention_mask: Option<Term>) -> Term {
        match attention_mask {
            Some(m) => m.cast(DType::F32).unsqueeze(2),
            None => match ids.shape() {
                Shape::S2(batch, len) => Term::full(
                    scalar::scalar(ONE_BITS),
                    DType::F32,
                    Shape::S3(batch, len, 1),
                ),
                _ => Term::undefined(),
            },
        }
    }

    /// The number of frames of every token.
    pub open spec fn duration(self, hidden: Term, mask: Term, rate: Real) -> Term {
        self.duration_predictor.output(
            hidden.transpose(1, 2).contiguous(),
            mask,
            None,
            self.noise_scale_duration,
        ).exp().broadcast_mul(mask).scale(Scalar::Reciprocal(rate)).ceil()
    }

    /// What the first step finds.
    pub open spec fn durations(
        self,
        ids: Term,
        attention_mask: Option<Term>,
        speaking_rate: Option<Real>,
    ) -> DurationTerms {
        let padding_mask = VitsModel::padding_mask(ids, attention_mask);
        let hidden = self.text_encoder.hidden(ids, padding_mask, attention_mask);
        let mask = padding_mask.transpose(1, 2).contiguous();
        let rate = match speaking_rate {
            Some(r) => r,
            None => self.speaking_rate,
        };
        let duration = self.duration(hidden, mask, rate);
        DurationTerms {
            mask,
            means: self.text_encoder.means(hidden, padding_mask),
            log_variances: self.text_encoder.log_variances(hidden, padding_mask),
            duration,
            sums: duration.sum_inner(false),
            ends: match ids.shape() {
                Shape::S2(batch, len) => duration.reshape(Shape::S2(batch, len)).cumsum(1),
                _ => Term::undefined(),
            },
        }
    }

    /// The first step, for token identifiers of shape batch, length. The mask, if there is one, has
    /// the same shape. A speaking rate takes the place of the one of the configuration.
    pub fn forward(
        &self,
        input_ids: &Tensor,
        attention_mask: Option<&Tensor>,
        speaking_rate: Option<Real>,
    ) -> (r: Result<Durations, TensorError>)
        ensures
            ({
                let found = self.durations(
                    input_ids@,
                    expr::viewed(attention_mask),
                    speaking_rate,
                );
                match r {
                    Ok(d) => {
                        &&& d@ == found
                        &&& found.defined()
                        &&& input_ids@.shape() == Shape::S2(d.batch_size, d.seq_len)
                    },
                    Err(_) => !found.defined(),
                }
            }),
    {
        let (batch_size, seq_len) = input_ids.dims2()?;

        let padding_mask = match attention_mask {
            Some(mask) => mask.cast(DType::F32)?.unsqueeze(2)?,
            None => Tensor::full(
                scalar::value_of(ONE_BITS),
                DType::F32,
                Shape::S3(batch_size, seq_len, 1),
            )?,
        };

        let encoded = self.text_encoder.forward(input_ids, &padding_mask, attention_mask)?;
        let hidden_states = encoded.last_hidden_state.transpose(1, 2)?.contiguous()?;
        let mask = padding_mask.transpose(1, 2)?.contiguous()?;

        let log_duration = self.duration_predictor.forward(
            &hidden_states,
            &mask,
            None,
            self.noise_scale_duration,
        )?;

        let rate = match speaking_rate {
            Some(r) => r,
            None => self.speaking_rate,
        };
        let duration = log_duration.exp()?.broadcast_mul(&mask)?.scale(
            Scalar::Reciprocal(rate),
        )?.ceil()?;
        let sums = duration.sum_inner(false)?;
        let ends = duration.reshape(Shape::S2(batch_size, seq_len))?.cumsum(1)?;
        Ok(
            Durations {
                batch_size,
                seq_len,
                mask,
                means: encoded.prior_means,
                log_variances: encoded.prior_log_variances,
                duration,
                sums,
                ends,
            },
        )
    }

    /// One for every frame of a sequence: of shape batch, 1, frames.
    pub open spec fn output_mask(batch: usize, frames: usize) -> Term {
        Term::input(Slot::OutputMask, DType::F32, Shape::S3(batch, 1, frames))
    }

    /// One for every frame before a token's end: of shape batch, length, frames.
    pub open spec fn valid_frames(batch: usize, len: usize, frames: usize) -> Term {
        Term::input(Slot::ValidFrames, DType::F32, Shape::S3(batch, len, frames))
    }

    /// One where a frame belongs to a token: of shape batch, frames, length.
    pub open spec fn attention(mask: Term, batch: usize, len: usize, frames: usize) -> Term {
        let valid = VitsModel::valid_frames(batch, len, frames);
        let pairs = mask.unsqueeze(2).broadcast_mul(
            VitsModel::output_mask(batch, frames).unsqueeze(3),
        );
        valid.sub(shifted_down(valid)).unsqueeze(1).transpose(2, 3).contiguous().broadcast_mul(
            pairs,
        ).squeeze(1)
    }

    /// What every frame has from its token.
    pub open spec fn spread(attention: Term, x: Term) -> Term {
        attention.matmul(x).transpose(1, 2).contiguous()
    }

    /// Draws around the means of the prior.
    pub open spec fn latents(self, means: Term, log_variances: Term) -> Term {
        means.add(
            Term::randn(Noise::Latents, means.shape()).mul(log_variances.exp()).scale(
                Scalar::Value(self.noise_scale),
            ),
        )
    }

    /// The latent frames that the sound is made of.
    pub open spec fn spectrogram(
        self,
        d: DurationTerms,
        batch: usize,
        len: usize,
        frames: usize,
    ) -> Term {
        let attention = VitsModel::attention(d.mask, batch, len, frames);
        let latents = self.latents(
            VitsModel::spread(attention, d.means),
            VitsModel::spread(attention, d.log_variances),
        );
        let mask = VitsModel::output_mask(batch, frames);
        self.flow.output(latents, mask, None, true).broadcast_mul(mask)
    }

    /// The sound.
    pub open spec fn waveform(
        self,
        d: DurationTerms,
        batch: usize,
        len: usize,
        frames: usize,
    ) -> Term {
        self.decoder.output(self.spectrogram(d, batch, len, frames), None).squeeze(1)
    }

    fn attend(mask: &Tensor, batch: usize, len: usize, frames: usize) -> (r: Result<
        Tensor,
        TensorError,
    >)
        ensures
            expr::gives(r, VitsModel::attention(mask@, batch, len, frames)),
    {
        let output_padding_mask = Tensor::input(
            Slot::OutputMask,
            DType::F32,
            Shape::S3(batch, 1, frames),
        )?;
        let attn_mask = mask.unsqueeze(2)?.broadcast_mul(&output_padding_mask.unsqueeze(3)?)?;
        let valid_indices = Tensor::input(
            Slot::ValidFrames,
            DType::F32,
            Shape::S3(batch, len, frames),
        )?;
        let shifted = shift_dim1_down_by_one(&valid_indices)?;
        let padded_indices = valid_indices.sub(&shifted)?;
        let attn = padded_indices.unsqueeze(1)?.transpose(2, 3)?.contiguous()?.broadcast_mul(
            &attn_mask,
        )?;
        attn.squeeze(1)
    }

    fn decode(&self, d: &Durations, frames: usize) -> (r: Result<(Tensor, Tensor), TensorError>)
        ensures
            expr::gives_both(
                r,
                self.waveform(d@, d.batch_size, d.seq_len, frames),
                self.spectrogram(d@, d.batch_size, d.seq_len, frames),
            ),
    {
        let attn = VitsModel::attend(&d.mask, d.batch_size, d.seq_len, frames)?;
        let prior_means = attn.matmul(&d.means)?.transpose(1, 2)?.contiguous()?;
        let prior_log_variances = attn.matmul(&d.log_variances)?.transpose(1, 2)?.contiguous()?;

        let noise = Tensor::randn(Noise::Latents, prior_means.shape())?;
        let prior_latents = prior_means.add(
            &noise.mul(&prior_log_variances.exp()?)?.scale(Scalar::Value(self.noise_scale))?,
        )?;

        let output_padding_mask = Tensor::input(
            Slot::OutputMask,
            DType::F32,
            Shape::S3(d.batch_size, 1, frames),
        )?;
        let latents = self.flow.forward(&prior_latents, &output_padding_mask, None, true)?;
        let spectrogram = latents.broadcast_mul(&output_padding_mask)?;
        let waveform = self.decoder.forward(&spectrogram, None)?.squeeze(1)?;
        Ok((waveform, spectrogram))
    }

    /// The number of samples of every frame.
    pub open spec fn samples_per_frame(self) -> int {
        product(self.upsample_rates@)
    }

    /// Whether the numbers of samples are in range.
    pub open spec fn countable(self, sums: Seq<i64>) -> bool {
        &&& forall|k: int|
            0 <= k <= self.upsample_rates@.len() ==> #[trigger] product(self.upsample_rates@.take(k))
                <= i64::MAX
        &&& forall|b: int|
            0 <= b < sums.len() ==> #[trigger] alignment::frames(sums[b]) * self.samples_per_frame()
                <= i64::MAX
    }

    /// The second step: the sound for the given values of the sums of the durations, rounded
    /// toward zero, and of the ends of the tokens, rounded up. The layout holds what has to be
    /// handed in for the mask of the output and for the frames before each end when the sound is
    /// evaluated.
    pub fn complete(&self, d: &Durations, sums: &Vec<i64>, ends: &Vec<i64>) -> (r: Result<
        (VitsModelOutput, Alignment),
        SynthesisError,
    >)
        ensures
            ({
                let frames = alignment::longest(sums@) as usize;
                let waveform = self.waveform(d@, d.batch_size, d.seq_len, frames);
                let spectrogram = self.spectrogram(d@, d.batch_size, d.seq_len, frames);
                let counted = sums@.len() == d.batch_size && ends@.len() == d.batch_size
                    * d.seq_len;
                let addressable = alignment::addressable(
                    d.batch_size as int,
                    d.seq_len as int,
                    sums@,
                );
                let typed = term::typ(waveform) is Some;
                match r {
                    Ok((o, a)) => {
                        &&& counted && addressable && typed && self.countable(sums@)
                        &&& a.lays_out(d.batch_size as int, d.seq_len as int, sums@, ends@)
                        &&& o.waveform@ == waveform
                        &&& o.spectrogram@ == spectrogram
                        &&& o.sequence_lengths@.len() == sums@.len()
                        &&& forall|b: int|
                            0 <= b < sums@.len() ==> #[trigger] o.sequence_lengths@[b]
                                == alignment::frames(sums@[b]) * self.samples_per_frame()
                    },
                    Err(SynthesisError::Alignment(AlignmentError::Count)) => !counted,
                    Err(SynthesisError::Alignment(AlignmentError::Size)) => counted
                        && !addressable,
                    Err(SynthesisError::Tensor(_)) => counted && addressable && !typed,
                    Err(SynthesisError::SampleCount) => counted && addressable && typed
                        && !self.countable(sums@),
                }
            }),
    {
        let layout = match alignment::align(d.batch_size, d.seq_len, sums, ends) {
            Ok(a) => a,
            Err(e) => return Err(SynthesisError::Alignment(e)),
        };
        let (waveform, spectrogram) = match self.decode(d, layout.max_length) {
            Ok(x) => x,
            Err(e) => return Err(SynthesisError::Tensor(e)),
        };
        let sequence_lengths = match self.sample_counts(&layout.lengths, Ghost(sums@)) {
            Some(v) => v,
            None => return Err(SynthesisError::SampleCount),
        };
        Ok((VitsModelOutput { waveform, sequence_lengths, spectrogram }, layout))
    }

    fn sample_counts(&self, lengths: &Vec<i64>, Ghost(sums): Ghost<Seq<i64>>) -> (r: Option<
        Vec<i64>,
    >)
        requires
            lengths@ == sums.map_values(|s: i64| alignment::frames(s)),
        ensures
            match r {
                Some(v) => {
                    &&& self.countable(sums)
                    &&& v@.len() == sums.len()
                    &&& forall|b: int|
                        0 <= b < sums.len() ==> #[trigger] v@[b] == alignment::frames(sums[b])
                            * self.samples_per_frame()
                },
                None => !self.countable(sums),
            },
    {
        let factor: i64 = match checked_product(&self.upsample_rates) {
            Some(n) => n,
            None => return None,
        };
        let mut counts: Vec<i64> = Vec::new();
        let mut b: usize = 0;
        while b < lengths.len()
            invariant
                b <= lengths@.len(),
                lengths@ == sums.map_values(|s: i64| alignment::frames(s)),
                factor == self.samples_per_frame(),
                factor >= 0,
                counts@.len() == b,
                forall|k: int|
                    0 <= k < b ==> #[trigger] counts@[k] == alignment::frames(sums[k]) * factor,
            decreases lengths@.len() - b,
        {
            assert(lengths@[b as int] == alignment::frames(sums[b as int]));
            assert(lengths@[b as int] * factor >= 0) by (nonlinear_arith)
                requires
                    lengths@[b as int] >= 1,
                    factor >= 0,
            ;
            match lengths[b].checked_mul(factor) {
                Some(n) => counts.push(n),
                None => return None,
            }
            b = b + 1;
        }
        proof {
            assert forall|k: int| 0 <= k < sums.len() implies #[trigger] alignment::frames(sums[k])
                * self.samples_per_frame() <= i64::MAX by {
                assert(counts@[k] == alignment::frames(sums[k]) * factor);
            }
        }
        Some(counts)
    }
}

/// The product of a list of numbers.
pub open spec fn product(v: Seq<usize>) -> int
    decreases v.len(),
{
    if v.len() == 0 {
        1
    } else {
        product(v.drop_last()) * v.last()
    }
}

/// The product of a list of numbers, if it and those of all its beginnings are in range.
fn checked_product(v: &Vec<usize>) -> (r: Option<i64>)
    ensures
        match r {
            Some(n) => n == product(v@) && n >= 0 && forall|k: int|
                0 <= k <= v@.len() ==> #[trigger] product(v@.take(k)) <= i64::MAX,
            None => exists|k: int|
                0 <= k <= v@.len() && #[trigger] product(v@.take(k)) > i64::MAX,
        },
{
    let mut p: i64 = 1;
    let mut i: usize = 0;
    while i < v.len()
        invariant
            i <= v@.len(),
            p == product(v@.take(i as int)),
            p >= 0,
            forall|k: int| 0 <= k <= i ==> #[trigger] product(v@.take(k)) <= i64::MAX,
        decreases v@.len() - i,
    {
        proof {
            assert(v@.take(i + 1).drop_last() =~= v@.take(i as int));
            assert(product(v@.take(i + 1)) == p * v@[i as int]);
            assert(p * v@[i as int] >= 0) by (nonlinear_arith)
                requires
                    p >= 0,
                    v@[i as int] >= 0,
            ;
        }
        let wide: u128 = p as u128;
        let rate: u128 = v[i] as u128;
        assert(wide * rate <= 0x7FFF_FFFF_FFFF_FFFF * 0xFFFF_FFFF_FFFF_FFFF) by (nonlinear_arith)
            requires
                wide <= 0x7FFF_FFFF_FFFF_FFFF,
                rate <= 0xFFFF_FFFF_FFFF_FFFF,
        ;
        let next: u128 = wide * rate;
        if next > i64::MAX as u128 {
            return None;
        }
        p = next as i64;
        i = i + 1;
    }
    assert(v@.take(i as int) =~= v@);
    Some(p)
}

/// A tensor of three dimensions with its rows moved down by one: zeros first, the last row gone.
pub open spec fn shifted_down(x: Term) -> Term {
    match x.shape() {
        Shape::S3(batch, rows, columns) => if rows == 0 {
            Term::undefined()
        } else {
            Term::zeros(x.dtype(), Shape::S3(batch, 1, columns)).concat(
                x.narrow(1, 0, (rows - 1) as usize),
                1,
            )
        },
        _ => Term::undefined(),
    }
}

/// A tensor of three dimensions with its rows moved down by one: zeros first, the last row gone.
pub fn shift_dim1_down_by_one(x: &Tensor) -> (r: Result<Tensor, TensorError>)
    ensures
        expr::gives(r, shifted_down(x@)),
{
    let (batch, dim1, dim2) = x.dims3()?;
    if dim1 == 0 {
        return Err(TensorError::Mismatch);
    }
    let zero_row = Tensor::zeros(x.dtype(), Shape::S3(batch, 1, dim2))?;
    let truncated = x.narrow(1, 0, dim1 - 1)?;
    zero_row.concat(&truncated, 1)
}

/// Moved down by one, row `i` is row `i - 1`, and the first row is zero.
pub proof fn lemma_shifted_down(x: Term, b: int, i: int, t: int)
    requires
        term::typ(shifted_down(x)) is Some,
        x.shape() is S3,
        0 <= b < x.shape()->S3_0,
        0 <= i < x.shape()->S3_1,
        0 <= t < x.shape()->S3_2,
    ensures
        ({
            let rows = x.shape()->S3_1 as int;
            let columns = x.shape()->S3_2 as int;
            let found = index::origin(
                shifted_down(x),
                positions::at3(rows, columns, b, i, t),
            );
            if i == 0 {
                positions::is_zero(found.0)
            } else {
                found == index::origin(x, positions::at3(rows, columns, b, i - 1, t))
            }
        }),
{
    broadcast use crate::tensor::term::typing_rules;

    let rows = x.shape()->S3_1;
    let columns = x.shape()->S3_2;
    let zeros = Term::zeros(x.dtype(), Shape::S3(x.shape()->S3_0, 1, columns));
    let kept = x.narrow(1, 0, (rows - 1) as usize);
    index::lemma_origin_concat(zeros, kept, 1, b, i, t);
    if i > 0 {
        index::lemma_origin_narrow(x, 1, 0, (rows - 1) as usize, b, i - 1, t);
    }
}

/// Without a speaking rate the model speaks at the one of its configuration.
pub proof fn lemma_own_rate(
    m: VitsModel,
    config: VitsConfig,
    vb: ScopeView,
    ids: Term,
    mask: Option<Term>,
)
    requires
        m.loaded(config, vb),
    ensures
        m.durations(ids, mask, None) == m.durations(ids, mask, Some(config.speaking_rate)),
{
}

/// A model can be built only for one speaker and for durations that are drawn at random.
pub proof fn lemma_supported(config: VitsConfig, vb: ScopeView)
    ensures
        VitsModel::failure(config, vb) is None ==> config.use_stochastic_duration_prediction
            && config.num_speakers <= 1,
        !config.use_stochastic_duration_prediction ==> VitsModel::failure(config, vb) == Some(
            LoadError::DurationPredictor,
        ),
        config.use_stochastic_duration_prediction && config.num_speakers > 1 ==> VitsModel::failure(
            config,
            vb,
        ) == Some(LoadError::Speakers),
{
}

} // verus!
