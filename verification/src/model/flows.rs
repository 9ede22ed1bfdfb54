//! The flows that durations are drawn with.

use vstd::prelude::*;

use crate::config::VitsConfig;
use crate::model::separable::VitsDilatedDepthSeparableConv;
use crate::model::spline;
use crate::model::spline::Spline;
use crate::nn;
use crate::nn::{Conv1d, LoadError, Scope, ScopeView};
use crate::tensor::expr;
use crate::tensor::expr::{Tensor, TensorError};
use crate::tensor::scalar::{Real, Scalar, ZERO_BITS};
use crate::tensor::shape::Shape;
use crate::tensor::term;
use crate::tensor::term::Term;

verus! {

broadcast use {crate::tensor::term::strictness, crate::model::separable::strict_separable};

/// The pattern of 1e-3, the least size of a bin and the least slope at its edges.
pub const LEAST_BITS: u64 = 0x3F50_624D_D2F1_A9FC;

/// A flow that sends half of the channels through splines that it computes from the other half.
#[derive(Debug)]
pub struct VitsConvFlow {
    pub filter_channels: usize,
    pub half_channels: usize,
    pub num_bins: usize,
    pub tail_bound: Real,
    pub conv_pre: Conv1d,
    pub conv_dds: VitsDilatedDepthSeparableConv,
    pub conv_proj: Conv1d,
}

impl VitsConvFlow {
    /// Half of the channels.
    pub open spec fn half(config: VitsConfig) -> usize {
        (config.depth_separable_channels / 2) as usize
    }

    /// The number of channels that describe the splines.
    pub open spec fn spline_channels(config: VitsConfig) -> int {
        VitsConvFlow::half(config) * (3 * config.duration_predictor_flow_bins - 1)
    }

    /// Whether the sizes can be computed with.
    pub open spec fn in_range(config: VitsConfig) -> bool {
        &&& 0 < config.duration_predictor_flow_bins
        &&& 3 * config.duration_predictor_flow_bins <= usize::MAX
        &&& VitsConvFlow::spline_channels(config) <= usize::MAX
    }

    /// Why the flow cannot be built, if so.
    pub open spec fn failure(config: VitsConfig, vb: ScopeView) -> Option<LoadError> {
        nn::either(
            nn::oversize(VitsConvFlow::in_range(config)),
            nn::either(
                nn::missing(
                    Conv1d::loadable(
                        vb.pp("conv_pre"@),
                        VitsConvFlow::half(config),
                        config.hidden_size,
                        1,
                    ),
                ),
                nn::either(
                    VitsDilatedDepthSeparableConv::failure(config, vb.pp("conv_dds"@)),
                    nn::missing(
                        Conv1d::loadable(
                            vb.pp("conv_proj"@),
                            config.hidden_size,
                            VitsConvFlow::spline_channels(config) as usize,
                            1,
                        ),
                    ),
                ),
            ),
        )
    }

    /// Whether this is the flow that the checkpoint holds.
    pub open spec fn loaded(self, config: VitsConfig, vb: ScopeView) -> bool {
        &&& self.filter_channels == config.hidden_size
        &&& self.half_channels == VitsConvFlow::half(config)
        &&& self.num_bins == config.duration_predictor_flow_bins
        &&& self.tail_bound == config.duration_predictor_tail_bound
        &&& self.conv_pre.loaded(
            vb.pp("conv_pre"@),
            VitsConvFlow::half(config),
            config.hidden_size,
            1,
            nn::plain_conv(),
        )
        &&& self.conv_dds.loaded(config, Real { bits: ZERO_BITS }, vb.pp("conv_dds"@))
        &&& self.conv_proj.loaded(
            vb.pp("conv_proj"@),
            config.hidden_size,
            VitsConvFlow::spline_channels(config) as usize,
            1,
            nn::plain_conv(),
        )
    }

    /// The flow for a configuration.
    pub fn new(config: &VitsConfig, vb: &Scope) -> (r: Result<VitsConvFlow, LoadError>)
        ensures
            match r {
                Ok(m) => VitsConvFlow::failure(*config, vb@) is None && m.loaded(*config, vb@),
                Err(e) => VitsConvFlow::failure(*config, vb@) == Some(e),
            },
    {
        let filter_channels = config.hidden_size;
        let half_channels: usize = config.depth_separable_channels / 2;
        let num_bins = config.duration_predictor_flow_bins;
        let tail_bound = config.duration_predictor_tail_bound;
        if num_bins == 0 || num_bins > usize::MAX / 3 {
            return Err(LoadError::Size);
        }
        let spline_channels: usize = match half_channels.checked_mul(num_bins * 3 - 1) {
            Some(n) => n,
            None => return Err(LoadError::Size),
        };

        let conv_pre = Conv1d::new(
            &vb.pp("conv_pre"),
            half_channels,
            filter_channels,
            1,
            nn::plain_conv_config(),
        )?;
        let conv_dds = VitsDilatedDepthSeparableConv::new(
            config,
            Real { bits: ZERO_BITS },
            &vb.pp("conv_dds"),
        )?;
        let conv_proj = Conv1d::new(
            &vb.pp("conv_proj"),
            filter_channels,
            spline_channels,
            1,
            nn::plain_conv_config(),
        )?;

        Ok(
            VitsConvFlow {
                filter_channels,
                half_channels,
                num_bins,
                tail_bound,
                conv_pre,
                conv_dds,
                conv_proj,
            },
        )
    }

    /// The numbers that describe the splines, from the first half of the channels.
    pub open spec fn described(self, first: Term, mask: Term, cond: Option<Term>) -> Term {
        self.conv_proj.output(
            self.conv_dds.output(self.conv_pre.output(first), mask, cond),
        ).broadcast_mul(mask)
    }

    /// The same numbers, with those for one element in one line.
    pub open spec fn sorted(self, first: Term, hidden: Term) -> Term {
        match first.shape() {
            Shape::S3(batch, _, length) => if first.shape().count() == 0 {
                Term::undefined()
            } else {
                hidden.reshape(
                    Shape::S4(
                        batch,
                        self.half_channels,
                        (hidden.shape().count() / first.shape().count()) as usize,
                        length,
                    ),
                ).transpose(2, 3).contiguous()
            },
            _ => Term::undefined(),
        }
    }

    /// The spline for every element, from the numbers that describe it.
    pub open spec fn spline(self, sorted: Term) -> Spline {
        let b = self.num_bins;
        if b == 0 || 2 * b > usize::MAX {
            spline::joined_spline(
                Term::undefined(),
                Term::undefined(),
                Term::undefined(),
                self.tail_bound,
                Real { bits: LEAST_BITS },
                Real { bits: LEAST_BITS },
                Real { bits: LEAST_BITS },
            )
        } else {
            spline::joined_spline(
                sorted.narrow(3, 0, b).scale(Scalar::OverSqrt(self.filter_channels)),
                sorted.narrow(3, b, b).scale(Scalar::OverSqrt(self.filter_channels)),
                sorted.narrow(3, (2 * b) as usize, (b - 1) as usize),
                self.tail_bound,
                Real { bits: LEAST_BITS },
                Real { bits: LEAST_BITS },
                Real { bits: LEAST_BITS },
            )
        }
    }

    /// The splines that the first half of the channels gives.
    pub open spec fn spline_for(self, x: Term, mask: Term, cond: Option<Term>) -> Spline {
        let first = x.narrow(1, 0, self.half_channels);
        self.spline(self.sorted(first, self.described(first, mask, cond)))
    }

    /// What the flow, or its inverse, gives.
    #[verifier::opaque]
    pub open spec fn output(self, x: Term, mask: Term, cond: Option<Term>, reverse: bool) -> Term {
        let second = x.narrow(1, self.half_channels, self.half_channels);
        x.narrow(1, 0, self.half_channels).concat(
            self.spline_for(x, mask, cond).extended(second, reverse),
            1,
        ).broadcast_mul(mask)
    }

    /// The logarithm of the determinant, which is only computed forwards.
    #[verifier::opaque]
    pub open spec fn log_determinant(
        self,
        x: Term,
        mask: Term,
        cond: Option<Term>,
        reverse: bool,
    ) -> Option<Term> {
        if reverse {
            None
        } else {
            let second = x.narrow(1, self.half_channels, self.half_channels);
            Some(
                self.spline_for(x, mask, cond).extended_log_det(second, reverse).broadcast_mul(
                    mask,
                ).sum_inner(false),
            )
        }
    }

    pub(crate) proof fn lemma_spline_parts(self, sorted: Term, x: Term, reverse: bool)
        ensures
            term::typ(self.spline(sorted).extended(x, reverse)) is Some ==> {
                &&& term::typ(sorted) is Some
                &&& self.num_bins > 0
                &&& 2 * self.num_bins <= usize::MAX
                &&& term::typ(
                    sorted.narrow(3, 0, self.num_bins).scale(
                        Scalar::OverSqrt(self.filter_channels),
                    ),
                ) is Some
                &&& term::typ(
                    sorted.narrow(3, self.num_bins, self.num_bins).scale(
                        Scalar::OverSqrt(self.filter_channels),
                    ),
                ) is Some
                &&& term::typ(
                    sorted.narrow(
                        3,
                        (2 * self.num_bins) as usize,
                        (self.num_bins - 1) as usize,
                    ),
                ) is Some
            },
    {
        let b = self.num_bins;
        let least = Real { bits: LEAST_BITS };
        if b == 0 || 2 * b > usize::MAX {
            spline::lemma_extended_parts(
                Term::undefined(),
                Term::undefined(),
                Term::undefined(),
                self.tail_bound,
                least,
                least,
                least,
                x,
                reverse,
            );
        } else {
            spline::lemma_extended_parts(
                sorted.narrow(3, 0, b).scale(Scalar::OverSqrt(self.filter_channels)),
                sorted.narrow(3, b, b).scale(Scalar::OverSqrt(self.filter_channels)),
                sorted.narrow(3, (2 * b) as usize, (b - 1) as usize),
                self.tail_bound,
                least,
                least,
                least,
                x,
                reverse,
            );
        }
    }

    fn sort(&self, first_half: &Tensor, hidden_states: &Tensor) -> (r: Result<Tensor, TensorError>)
        ensures
            expr::gives(r, self.sorted(first_half@, hidden_states@)),
    {
        let (batch_size, _, length) = first_half.dims3()?;
        let elements: usize = first_half.shape().element_count();
        if elements == 0 {
            return Err(TensorError::Mismatch);
        }
        let last_dim: usize = hidden_states.shape().element_count() / elements;
        hidden_states.reshape(
            Shape::S4(batch_size, self.half_channels, last_dim, length),
        )?.transpose(2, 3)?.contiguous()
    }

    fn apply_spline(&self, sorted: &Tensor, second_half: &Tensor, reverse: bool) -> (r: Result<
        (Tensor, Tensor),
        TensorError,
    >)
        ensures
            expr::gives_both(
                r,
                self.spline(sorted@).extended(second_half@, reverse),
                self.spline(sorted@).extended_log_det(second_half@, reverse),
            ),
    {
        proof {
            self.lemma_spline_parts(sorted@, second_half@, reverse);
        }
        if self.num_bins == 0 || self.num_bins > usize::MAX / 2 {
            return Err(TensorError::Mismatch);
        }
        let scale = Scalar::OverSqrt(self.filter_channels);
        let least = Real { bits: LEAST_BITS };
        let unnormalized_widths = sorted.narrow(3, 0, self.num_bins)?.scale(scale)?;
        let unnormalized_heights = sorted.narrow(3, self.num_bins, self.num_bins)?.scale(scale)?;
        let unnormalized_derivatives = sorted.narrow(3, 2 * self.num_bins, self.num_bins - 1)?;
        spline::unconstrained_rational_quadratic_spline(
            second_half,
            &unnormalized_widths,
            &unnormalized_heights,
            &unnormalized_derivatives,
            reverse,
            self.tail_bound,
            least,
            least,
            least,
        )
    }

    /// The flow, or its inverse, at `inputs`, and forwards the logarithm of the determinant.
    pub fn forward(
        &self,
        inputs: &Tensor,
        padding_mask: &Tensor,
        global_conditioning: Option<&Tensor>,
        reverse: bool,
    ) -> (r: Result<(Tensor, Option<Tensor>), TensorError>)
        ensures
            expr::gives_with(
                r,
                self.output(
                    inputs@,
                    padding_mask@,
                    expr::viewed(global_conditioning),
                    reverse,
                ),
                self.log_determinant(
                    inputs@,
                    padding_mask@,
                    expr::viewed(global_conditioning),
                    reverse,
                ),
            ),
    {
        proof {
            reveal(VitsConvFlow::output);
            reveal(VitsConvFlow::log_determinant);
            let second = inputs@.narrow(1, self.half_channels, self.half_channels);
            let first = inputs@.narrow(1, 0, self.half_channels);
            let cond = expr::viewed(global_conditioning);
            let spline = self.spline_for(inputs@, padding_mask@, cond);
            self.lemma_spline_parts(
                self.sorted(first, self.described(first, padding_mask@, cond)),
                second,
                reverse,
            );
            if term::typ(spline.extended(second, reverse)) is Some {
                spline::lemma_extended_type(spline, second, reverse);
            }
        }
        let first_half = inputs.narrow(1, 0, self.half_channels)?;
        let second_half = inputs.narrow(1, self.half_channels, self.half_channels)?;

        let hidden_states = self.conv_pre.forward(&first_half)?;
        let hidden_states = self.conv_dds.forward(
            &hidden_states,
            padding_mask,
            global_conditioning,
        )?;
        let hidden_states = self.conv_proj.forward(&hidden_states)?.broadcast_mul(padding_mask)?;
        let hidden_states = self.sort(&first_half, &hidden_states)?;

        let (second_half_out, log_abs_det) = self.apply_spline(
            &hidden_states,
            &second_half,
            reverse,
        )?;

        let outputs = first_half.concat(&second_half_out, 1)?.broadcast_mul(padding_mask)?;
        if !reverse {
            let log_determinant = log_abs_det.broadcast_mul(padding_mask)?.sum_inner(false)?;
            Ok((outputs, Some(log_determinant)))
        } else {
            Ok((outputs, None))
        }
    }
}

/// A flow that stretches and shifts every channel.
#[derive(Debug)]
pub struct VitsElementwiseAffine {
    pub translate: Tensor,
    pub log_scale: Tensor,
}

impl VitsElementwiseAffine {
    /// Whether the checkpoint holds such a flow.
    pub open spec fn loadable(config: VitsConfig, vb: ScopeView) -> bool {
        let shape = Shape::S2(config.depth_separable_channels, 1);
        vb.has("translate"@, shape) && vb.has("log_scale"@, shape)
    }

    /// Whether this is the flow that the checkpoint holds.
    pub open spec fn loaded(self, config: VitsConfig, vb: ScopeView) -> bool {
        let shape = Shape::S2(config.depth_separable_channels, 1);
        &&& self.translate@ == vb.tensor("translate"@, shape)
        &&& self.log_scale@ == vb.tensor("log_scale"@, shape)
    }

    /// The flow for a configuration.
    pub fn new(config: &VitsConfig, vb: &Scope) -> (r: Result<VitsElementwiseAffine, LoadError>)
        ensures
            match r {
                Ok(m) => VitsElementwiseAffine::loadable(*config, vb@) && m.loaded(*config, vb@),
                Err(e) => !VitsElementwiseAffine::loadable(*config, vb@) && e
                    == LoadError::Checkpoint,
            },
    {
        let shape = Shape::S2(config.depth_separable_channels, 1);
        let translate = vb.get(shape, "translate")?;
        let log_scale = vb.get(shape, "log_scale")?;
        Ok(VitsElementwiseAffine { translate, log_scale })
    }

    /// What the flow, or its inverse, gives.
    pub open spec fn output(self, x: Term, mask: Term, reverse: bool) -> Term {
        if reverse {
            x.broadcast_sub(self.translate@).broadcast_mul(
                self.log_scale@.neg().exp(),
            ).broadcast_mul(mask)
        } else {
            self.translate@.broadcast_add(
                self.log_scale@.exp().broadcast_mul(x),
            ).broadcast_mul(mask)
        }
    }

    /// The logarithm of the determinant, which is only computed forwards.
    pub open spec fn log_determinant(self, mask: Term, reverse: bool) -> Option<Term> {
        if reverse {
            None
        } else {
            Some(self.log_scale@.broadcast_mul(mask).sum_inner(false))
        }
    }

    /// The flow, or its inverse, at `inputs`, and forwards the logarithm of the determinant.
    pub fn forward(&self, inputs: &Tensor, padding_mask: &Tensor, reverse: bool) -> (r: Result<
        (Tensor, Option<Tensor>),
        TensorError,
    >)
        ensures
            expr::gives_with(
                r,
                self.output(inputs@, padding_mask@, reverse),
                self.log_determinant(padding_mask@, reverse),
            ),
    {
        if !reverse {
            let outputs = self.translate.broadcast_add(
                &self.log_scale.exp()?.broadcast_mul(inputs)?,
            )?.broadcast_mul(padding_mask)?;
            let log_determinant = self.log_scale.broadcast_mul(padding_mask)?.sum_inner(false)?;
            Ok((outputs, Some(log_determinant)))
        } else {
            let outputs = inputs.broadcast_sub(&self.translate)?.broadcast_mul(
                &self.log_scale.neg()?.exp()?,
            )?.broadcast_mul(padding_mask)?;
            Ok((outputs, None))
        }
    }
}

/// The output depends on the input and the mask.
pub broadcast proof fn strict_conv_flow(
    flow: VitsConvFlow,
    x: Term,
    mask: Term,
    cond: Option<Term>,
    reverse: bool,
)
    ensures
        (#[trigger] term::typ(flow.output(x, mask, cond, reverse))) is Some ==> term::typ(x) is Some
            && term::typ(mask) is Some,
{
    reveal(VitsConvFlow::output);
}

} // verus!
