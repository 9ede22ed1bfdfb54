//! A stack of dilated convolutions that treat every channel apart, each followed by one that mixes
//! the channels.

use vstd::prelude::*;

use crate::config::VitsConfig;
use crate::model::wavenet;
use crate::nn;
use crate::nn::{Conv1d, LayerNorm, LoadError, Scope, ScopeView};
use crate::tensor::expr;
use crate::tensor::expr::{Tensor, TensorError};
use crate::tensor::scalar::Real;
use crate::tensor::term;
use crate::tensor::term::Term;

verus! {

broadcast use crate::tensor::term::strictness;

/// A dilated convolution for every channel, then one across the channels, each normalized.
#[derive(Debug)]
pub struct SeparableLayer {
    pub conv_dilated: Conv1d,
    pub conv_pointwise: Conv1d,
    pub norm_1: LayerNorm,
    pub norm_2: LayerNorm,
}

impl SeparableLayer {
    /// The dilation of layer `i`.
    pub open spec fn dilation(config: VitsConfig, i: nat) -> int {
        vstd::arithmetic::power::pow(config.duration_predictor_kernel_size as int, i)
    }

    /// Why layer `i` cannot be built, if so.
    pub open spec fn failure(config: VitsConfig, vb: ScopeView, i: nat) -> Option<LoadError> {
        let c = config.hidden_size;
        let kernel = config.duration_predictor_kernel_size;
        nn::either(
            nn::oversize(
                wavenet::kept_length_in_range(kernel, SeparableLayer::dilation(config, i)),
            ),
            nn::missing(
                {
                    &&& Conv1d::loadable(vb.item("convs_dilated"@, i), 1, c, kernel)
                    &&& Conv1d::loadable(vb.item("convs_pointwise"@, i), c, c, 1)
                    &&& LayerNorm::loadable(vb.item("norms_1"@, i), c)
                    &&& LayerNorm::loadable(vb.item("norms_2"@, i), c)
                },
            ),
        )
    }

    /// Whether this is the layer that the checkpoint holds as number `i`.
    pub open spec fn loaded(self, config: VitsConfig, vb: ScopeView, i: nat) -> bool {
        let c = config.hidden_size;
        let kernel = config.duration_predictor_kernel_size;
        &&& self.conv_dilated.loaded(
            vb.item("convs_dilated"@, i),
            1,
            c,
            kernel,
            wavenet::kept_length(kernel, SeparableLayer::dilation(config, i), c),
        )
        &&& self.conv_pointwise.loaded(
            vb.item("convs_pointwise"@, i),
            c,
            c,
            1,
            nn::plain_conv(),
        )
        &&& self.norm_1.loaded(vb.item("norms_1"@, i), c, config.layer_norm_eps)
        &&& self.norm_2.loaded(vb.item("norms_2"@, i), c, config.layer_norm_eps)
    }

    fn new(config: &VitsConfig, vb: &Scope, i: usize) -> (r: Result<SeparableLayer, LoadError>)
        ensures
            match r {
                Ok(m) => SeparableLayer::failure(*config, vb@, i as nat) is None && m.loaded(
                    *config,
                    vb@,
                    i as nat,
                ),
                Err(e) => SeparableLayer::failure(*config, vb@, i as nat) == Some(e),
            },
    {
        let kernel_size = config.duration_predictor_kernel_size;
        let channels = config.hidden_size;
        let dilated_cfg = match wavenet::power(kernel_size, i) {
            Some(dilation) => match wavenet::kept_length_config(kernel_size, dilation, channels) {
                Some(c) => c,
                None => return Err(LoadError::Size),
            },
            None => return Err(LoadError::Size),
        };
        let conv_dilated = Conv1d::new(
            &vb.item("convs_dilated", i),
            1,
            channels,
            kernel_size,
            dilated_cfg,
        )?;
        let conv_pointwise = Conv1d::new(
            &vb.item("convs_pointwise", i),
            channels,
            channels,
            1,
            nn::plain_conv_config(),
        )?;
        let norm_1 = LayerNorm::new(&vb.item("norms_1", i), channels, config.layer_norm_eps)?;
        let norm_2 = LayerNorm::new(&vb.item("norms_2", i), channels, config.layer_norm_eps)?;
        Ok(SeparableLayer { conv_dilated, conv_pointwise, norm_1, norm_2 })
    }

    /// What the layer adds to `x`.
    pub open spec fn change(self, x: Term, mask: Term, dropout: Real) -> Term {
        let spread = normalized_channels(
            self.norm_1,
            self.conv_dilated.output(x.broadcast_mul(mask)),
        ).gelu_erf();
        let mixed = normalized_channels(
            self.norm_2,
            self.conv_pointwise.output(spread),
        ).gelu_erf();
        nn::dropped(mixed, dropout)
    }

    fn forward(&self, x: &Tensor, padding_mask: &Tensor, dropout: Real) -> (r: Result<
        Tensor,
        TensorError,
    >)
        ensures
            expr::gives(r, self.change(x@, padding_mask@, dropout)),
    {
        let masked = x.broadcast_mul(padding_mask)?;
        let hidden_states = self.conv_dilated.forward(&masked)?;
        let hidden_states = normalize_channels(&self.norm_1, &hidden_states)?;
        let hidden_states = hidden_states.gelu_erf()?;
        let hidden_states = self.conv_pointwise.forward(&hidden_states)?;
        let hidden_states = normalize_channels(&self.norm_2, &hidden_states)?;
        let hidden_states = hidden_states.gelu_erf()?;
        nn::drop_out(hidden_states, dropout)
    }
}

/// A normalization over the channels, which are dimension 1 of three.
pub open spec fn normalized_channels(norm: LayerNorm, x: Term) -> Term {
    norm.output(x.transpose(1, 2)).transpose(1, 2)
}

fn normalize_channels(norm: &LayerNorm, x: &Tensor) -> (r: Result<Tensor, TensorError>)
    ensures
        expr::gives(r, normalized_channels(*norm, x@)),
{
    norm.forward(&x.transpose(1, 2)?)?.transpose(1, 2)
}

/// The stack of layers.
#[derive(Debug)]
pub struct VitsDilatedDepthSeparableConv {
    pub dropout_p: Real,
    pub layers: Vec<SeparableLayer>,
}

impl VitsDilatedDepthSeparableConv {
    /// Why the layers from number `i` on cannot be built, if so.
    pub open spec fn failure_from(config: VitsConfig, vb: ScopeView, i: nat) -> Option<LoadError>
        decreases config.depth_separable_num_layers - i,
    {
        if i >= config.depth_separable_num_layers {
            None
        } else {
            nn::either(
                SeparableLayer::failure(config, vb, i),
                VitsDilatedDepthSeparableConv::failure_from(config, vb, i + 1),
            )
        }
    }

    /// Why the stack cannot be built, if so.
    pub open spec fn failure(config: VitsConfig, vb: ScopeView) -> Option<LoadError> {
        VitsDilatedDepthSeparableConv::failure_from(config, vb, 0)
    }

    /// Whether this is the stack that the checkpoint holds.
    pub open spec fn loaded(self, config: VitsConfig, dropout_rate: Real, vb: ScopeView) -> bool {
        &&& self.dropout_p == dropout_rate
        &&& self.layers@.len() == config.depth_separable_num_layers
        &&& forall|i: int|
            0 <= i < self.layers@.len() ==> (#[trigger] self.layers@[i]).loaded(
                config,
                vb,
                i as nat,
            )
    }

    /// The stack for a configuration.
    pub fn new(config: &VitsConfig, dropout_rate: Real, vb: &Scope) -> (r: Result<
        VitsDilatedDepthSeparableConv,
        LoadError,
    >)
        ensures
            match r {
                Ok(m) => VitsDilatedDepthSeparableConv::failure(*config, vb@) is None && m.loaded(
                    *config,
                    dropout_rate,
                    vb@,
                ),
                Err(e) => VitsDilatedDepthSeparableConv::failure(*config, vb@) == Some(e),
            },
    {
        let mut layers: Vec<SeparableLayer> = Vec::new();
        let mut i: usize = 0;
        while i < config.depth_separable_num_layers
            invariant
                i <= config.depth_separable_num_layers,
                layers@.len() == i,
                VitsDilatedDepthSeparableConv::failure(*config, vb@)
                    == VitsDilatedDepthSeparableConv::failure_from(*config, vb@, i as nat),
                forall|k: int|
                    0 <= k < i ==> (#[trigger] layers@[k]).loaded(*config, vb@, k as nat),
            decreases config.depth_separable_num_layers - i,
        {
            layers.push(SeparableLayer::new(config, vb, i)?);
            i = i + 1;
        }
        Ok(VitsDilatedDepthSeparableConv { dropout_p: dropout_rate, layers })
    }

    /// The layers from number `i` on.
    pub open spec fn output_from(self, i: nat, x: Term, mask: Term) -> Term
        decreases self.layers@.len() - i,
    {
        if i >= self.layers@.len() {
            x.broadcast_mul(mask)
        } else {
            self.output_from(
                i + 1,
                x.add(self.layers@[i as int].change(x, mask, self.dropout_p)),
                mask,
            )
        }
    }

    /// What the stack gives.
    #[verifier::opaque]
    pub open spec fn output(self, x: Term, mask: Term, cond: Option<Term>) -> Term {
        match cond {
            Some(c) => self.output_from(0, x.add(c), mask),
            None => self.output_from(0, x, mask),
        }
    }

    proof fn lemma_undefined(self, i: nat, x: Term, mask: Term)
        requires
            term::typ(x) is None || term::typ(mask) is None,
        ensures
            term::typ(self.output_from(i, x, mask)) is None,
        decreases self.layers@.len() - i,
    {
        if i < self.layers@.len() {
            self.lemma_undefined(
                i + 1,
                x.add(self.layers@[i as int].change(x, mask, self.dropout_p)),
                mask,
            );
        }
    }

    /// The stack applied to `inputs`, with the conditioning added. Where the mask is zero, the
    /// output is.
    pub fn forward(
        &self,
        inputs: &Tensor,
        padding_mask: &Tensor,
        global_conditioning: Option<&Tensor>,
    ) -> (r: Result<Tensor, TensorError>)
        ensures
            expr::gives(
                r,
                self.output(inputs@, padding_mask@, expr::viewed(global_conditioning)),
            ),
    {
        let ghost total = self.output(inputs@, padding_mask@, expr::viewed(global_conditioning));
        proof {
            reveal(VitsDilatedDepthSeparableConv::output);
            if let Some(gc) = global_conditioning {
                if term::typ(inputs@.add(gc@)) is None {
                    self.lemma_undefined(0, inputs@.add(gc@), padding_mask@);
                }
            }
        }
        let mut x = if let Some(gc) = global_conditioning {
            inputs.add(gc)?
        } else {
            inputs.clone()
        };

        let mut i: usize = 0;
        while i < self.layers.len()
            invariant
                i <= self.layers@.len(),
                total == self.output_from(i as nat, x@, padding_mask@),
                total == self.output(inputs@, padding_mask@, expr::viewed(global_conditioning)),
            decreases self.layers@.len() - i,
        {
            proof {
                let next = x@.add(
                    self.layers@[i as int].change(x@, padding_mask@, self.dropout_p),
                );
                if term::typ(next) is None {
                    self.lemma_undefined((i + 1) as nat, next, padding_mask@);
                }
            }
            let hidden_states = self.layers[i].forward(&x, padding_mask, self.dropout_p)?;
            x = x.add(&hidden_states)?;
            i = i + 1;
        }

        x.broadcast_mul(padding_mask)
    }
}

/// The output depends on the input and the mask.
pub broadcast proof fn strict_separable(
    conv: VitsDilatedDepthSeparableConv,
    x: Term,
    mask: Term,
    cond: Option<Term>,
)
    ensures
        (#[trigger] term::typ(conv.output(x, mask, cond))) is Some ==> term::typ(x) is Some
            && term::typ(mask) is Some,
{
    reveal(VitsDilatedDepthSeparableConv::output);
    if term::typ(x) is None || term::typ(mask) is None {
        match cond {
            Some(c) => conv.lemma_undefined(0, x.add(c), mask),
            None => conv.lemma_undefined(0, x, mask),
        }
    }
}

} // verus!
