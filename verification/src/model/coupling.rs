//! Flows that shift one half of the channels by a function of the other half.

use vstd::prelude::*;

use crate::config::VitsConfig;
use crate::model::positions;
use crate::model::tensor_ext;
use crate::model::wavenet::VitsWaveNet;
use crate::nn;
use crate::nn::{Conv1d, LoadError, Scope, ScopeView};
use crate::tensor::expr;
use crate::tensor::expr::{Tensor, TensorError};
use crate::tensor::index;
use crate::tensor::shape::Shape;
use crate::tensor::term;
use crate::tensor::term::Term;

verus! {

broadcast use {crate::tensor::term::strictness, crate::model::wavenet::strict_wavenet};

/// A flow that shifts half of the channels by what it computes from the other half.
#[derive(Debug)]
pub struct VitsResidualCouplingLayer {
    pub half_channels: usize,
    pub conv_pre: Conv1d,
    pub wavenet: VitsWaveNet,
    pub conv_post: Conv1d,
}

impl VitsResidualCouplingLayer {
    /// Why the layer cannot be built, if so.
    pub open spec fn failure(config: VitsConfig, vb: ScopeView) -> Option<LoadError> {
        let half = (config.flow_size / 2) as usize;
        nn::either(
            nn::missing(Conv1d::loadable(vb.pp("conv_pre"@), half, config.hidden_size, 1)),
            nn::either(
                VitsWaveNet::failure(
                    config,
                    config.prior_encoder_num_wavenet_layers,
                    vb.pp("wavenet"@),
                ),
                nn::missing(Conv1d::loadable(vb.pp("conv_post"@), config.hidden_size, half, 1)),
            ),
        )
    }

    /// Whether this is the layer that the checkpoint holds.
    pub open spec fn loaded(self, config: VitsConfig, vb: ScopeView) -> bool {
        let half = (config.flow_size / 2) as usize;
        &&& self.half_channels == half
        &&& self.conv_pre.loaded(
            vb.pp("conv_pre"@),
            half,
            config.hidden_size,
            1,
            nn::plain_conv(),
        )
        &&& self.wavenet.loaded(
            config,
            config.prior_encoder_num_wavenet_layers,
            vb.pp("wavenet"@),
        )
        &&& self.conv_post.loaded(
            vb.pp("conv_post"@),
            config.hidden_size,
            half,
            1,
            nn::plain_conv(),
        )
    }

    /// The layer for a configuration.
    pub fn new(config: &VitsConfig, vb: &Scope) -> (r: Result<VitsResidualCouplingLayer, LoadError>)
        ensures
            match r {
                Ok(m) => VitsResidualCouplingLayer::failure(*config, vb@) is None && m.loaded(
                    *config,
                    vb@,
                ),
                Err(e) => VitsResidualCouplingLayer::failure(*config, vb@) == Some(e),
            },
    {
        let half_channels: usize = config.flow_size / 2;
        let conv_pre = Conv1d::new(
            &vb.pp("conv_pre"),
            half_channels,
            config.hidden_size,
            1,
            nn::plain_conv_config(),
        )?;
        let wavenet = VitsWaveNet::new(
            config,
            config.prior_encoder_num_wavenet_layers,
            &vb.pp("wavenet"),
        )?;
        let conv_post = Conv1d::new(
            &vb.pp("conv_post"),
            config.hidden_size,
            half_channels,
            1,
            nn::plain_conv_config(),
        )?;
        Ok(VitsResidualCouplingLayer { half_channels, conv_pre, wavenet, conv_post })
    }

    /// What the second half of the channels is shifted by; it depends on the first half alone.
    pub open spec fn mean(self, first: Term, mask: Term, cond: Option<Term>) -> Term {
        self.conv_post.output(
            self.wavenet.output(
                self.conv_pre.output(first).broadcast_mul(mask),
                mask,
                cond,
            ),
        ).broadcast_mul(mask)
    }

    /// What the flow, or its inverse, gives.
    pub open spec fn output(self, x: Term, mask: Term, cond: Option<Term>, reverse: bool) -> Term {
        let first = x.narrow(1, 0, self.half_channels);
        let second = x.narrow(1, self.half_channels, self.half_channels);
        let mean = self.mean(first, mask, cond);
        let log_stddev = mean.zeros_like();
        if reverse {
            first.concat(
                second.sub(mean).mul(log_stddev.neg().exp()).broadcast_mul(mask),
                1,
            )
        } else {
            first.concat(mean.add(second.mul(log_stddev.exp())).broadcast_mul(mask), 1)
        }
    }

    /// The logarithm of the determinant, which is only computed forwards.
    pub open spec fn log_determinant(
        self,
        x: Term,
        mask: Term,
        cond: Option<Term>,
        reverse: bool,
    ) -> Option<Term> {
        if reverse {
            None
        } else {
            let first = x.narrow(1, 0, self.half_channels);
            Some(self.mean(first, mask, cond).zeros_like().sum_inner(false))
        }
    }

    proof fn lemma_determinant(self, x: Term, mask: Term, cond: Option<Term>)
        ensures
            term::typ(self.output(x, mask, cond, false)) is Some ==> term::typ(
                self.log_determinant(x, mask, cond, false)->0,
            ) is Some,
    {
        let first = x.narrow(1, 0, self.half_channels);
        let second = x.narrow(1, self.half_channels, self.half_channels);
        let mean = self.mean(first, mask, cond);
        let scaled = second.mul(mean.zeros_like().exp());
        if term::typ(self.output(x, mask, cond, false)) is Some {
            nn::lemma_conv_type(self.conv_pre, first);
            assert(term::typ(mean.add(scaled)) is Some);
            broadcast use crate::tensor::term::typing_rules;

        }
    }

    /// The layer, or its inverse, at `inputs`, and forwards the logarithm of the determinant.
    pub fn forward(
        &self,
        inputs: &Tensor,
        padding_mask: &Tensor,
        global_conditioning: Option<&Tensor>,
        reverse: bool,
    ) -> (r: Result<(Tensor, Option<Tensor>), TensorError>)
        ensures
            expr::gives_with(
                r,
                self.output(
                    inputs@,
                    padding_mask@,
                    expr::viewed(global_conditioning),
                    reverse,
                ),
                self.log_determinant(
                    inputs@,
                    padding_mask@,
                    expr::viewed(global_conditioning),
                    reverse,
                ),
            ),
            r is Err ==> term::typ(
                self.output(
                    inputs@,
                    padding_mask@,
                    expr::viewed(global_conditioning),
                    reverse,
                ),
            ) is None,
    {
        proof {
            self.lemma_determinant(inputs@, padding_mask@, expr::viewed(global_conditioning));
        }
        let first_half = inputs.narrow(1, 0, self.half_channels)?;
        let second_half = inputs.narrow(1, self.half_channels, self.half_channels)?;

        let hidden_states = self.conv_pre.forward(&first_half)?.broadcast_mul(padding_mask)?;
        let hidden_states = self.wavenet.forward(
            &hidden_states,
            padding_mask,
            global_conditioning,
        )?;
        let mean = self.conv_post.forward(&hidden_states)?.broadcast_mul(padding_mask)?;
        let log_stddev = mean.zeros_like()?;

        if !reverse {
            let shifted = mean.add(&second_half.mul(&log_stddev.exp()?)?)?.broadcast_mul(
                padding_mask,
            )?;
            let outputs = first_half.concat(&shifted, 1)?;
            let log_determinant = log_stddev.sum_inner(false)?;
            Ok((outputs, Some(log_determinant)))
        } else {
            let shifted = second_half.sub(&mean)?.mul(&log_stddev.neg()?.exp()?)?.broadcast_mul(
                padding_mask,
            )?;
            let outputs = first_half.concat(&shifted, 1)?;
            Ok((outputs, None))
        }
    }
}

/// Coupling layers, with the channels put in reverse order between them.
#[derive(Debug)]
pub struct VitsResidualCouplingBlock {
    pub flows: Vec<VitsResidualCouplingLayer>,
}

impl VitsResidualCouplingBlock {
    /// Why the layers from number `i` on cannot be built, if so.
    pub open spec fn failure_from(config: VitsConfig, vb: ScopeView, i: nat) -> Option<LoadError>
        decreases config.prior_encoder_num_flows - i,
    {
        if i >= config.prior_encoder_num_flows {
            None
        } else {
            nn::either(
                VitsResidualCouplingLayer::failure(config, vb.item("flows"@, i)),
                VitsResidualCouplingBlock::failure_from(config, vb, i + 1),
            )
        }
    }

    /// Why the block cannot be built, if so.
    pub open spec fn failure(config: VitsConfig, vb: ScopeView) -> Option<LoadError> {
        VitsResidualCouplingBlock::failure_from(config, vb, 0)
    }

    /// Whether this is the block that the checkpoint holds.
    pub open spec fn loaded(self, config: VitsConfig, vb: ScopeView) -> bool {
        &&& self.flows@.len() == config.prior_encoder_num_flows
        &&& forall|i: int|
            0 <= i < self.flows@.len() ==> (#[trigger] self.flows@[i]).loaded(
                config,
                vb.item("flows"@, i as nat),
            )
    }

    /// The block for a configuration.
    pub fn new(config: &VitsConfig, vb: &Scope) -> (r: Result<VitsResidualCouplingBlock, LoadError>)
        ensures
            match r {
                Ok(m) => VitsResidualCouplingBlock::failure(*config, vb@) is None && m.loaded(
                    *config,
                    vb@,
                ),
                Err(e) => VitsResidualCouplingBlock::failure(*config, vb@) == Some(e),
            },
    {
        let mut flows: Vec<VitsResidualCouplingLayer> = Vec::new();
        let mut i: usize = 0;
        while i < config.prior_encoder_num_flows
            invariant
                i <= config.prior_encoder_num_flows,
                flows@.len() == i,
                VitsResidualCouplingBlock::failure(*config, vb@)
                    == VitsResidualCouplingBlock::failure_from(*config, vb@, i as nat),
                forall|k: int|
                    0 <= k < i ==> (#[trigger] flows@[k]).loaded(
                        *config,
                        vb@.item("flows"@, k as nat),
                    ),
            decreases config.prior_encoder_num_flows - i,
        {
            flows.push(VitsResidualCouplingLayer::new(config, &vb.item("flows", i))?);
            i = i + 1;
        }
        Ok(VitsResidualCouplingBlock { flows })
    }

    /// The layers from number `i` on, each followed by a reversal of the channels.
    pub open spec fn forwards_from(self, i: nat, x: Term, mask: Term, cond: Option<Term>) -> Term
        decreases self.flows@.len() - i,
    {
        if i >= self.flows@.len() {
            x
        } else {
            self.forwards_from(
                i + 1,
                self.flows@[i as int].output(x, mask, cond, false).reverse(1),
                mask,
                cond,
            )
        }
    }

    /// The inverses of the layers below number `i`, last one first, each after a reversal of the
    /// channels.
    pub open spec fn backwards_from(self, i: nat, x: Term, mask: Term, cond: Option<Term>) -> Term
        decreases i,
    {
        if i == 0 {
            x
        } else {
            self.backwards_from(
                (i - 1) as nat,
                self.flows@[i - 1].output(x.reverse(1), mask, cond, true),
                mask,
                cond,
            )
        }
    }

    /// What the flow, or its inverse, gives.
    pub open spec fn output(self, x: Term, mask: Term, cond: Option<Term>, reverse: bool) -> Term {
        if reverse {
            self.backwards_from(self.flows@.len(), x, mask, cond)
        } else {
            self.forwards_from(0, x, mask, cond)
        }
    }

    /// Without an input, the block has no output.
    pub proof fn lemma_undefined_forwards(self, i: nat, x: Term, mask: Term, cond: Option<Term>)
        requires
            term::typ(x) is None,
        ensures
            term::typ(self.forwards_from(i, x, mask, cond)) is None,
        decreases self.flows@.len() - i,
    {
        if i < self.flows@.len() {
            self.lemma_undefined_forwards(
                i + 1,
                self.flows@[i as int].output(x, mask, cond, false).reverse(1),
                mask,
                cond,
            );
        }
    }

    /// Without an input, the inverse has no output.
    pub proof fn lemma_undefined_backwards(self, i: nat, x: Term, mask: Term, cond: Option<Term>)
        requires
            term::typ(x) is None,
        ensures
            term::typ(self.backwards_from(i, x, mask, cond)) is None,
        decreases i,
    {
        if i > 0 {
            self.lemma_undefined_backwards(
                (i - 1) as nat,
                self.flows@[i - 1].output(x.reverse(1), mask, cond, true),
                mask,
                cond,
            );
        }
    }

    /// The block, or its inverse, at `inputs`.
    pub fn forward(
        &self,
        inputs: &Tensor,
        padding_mask: &Tensor,
        global_conditioning: Option<&Tensor>,
        reverse: bool,
    ) -> (r: Result<Tensor, TensorError>)
        ensures
            expr::gives(
                r,
                self.output(
                    inputs@,
                    padding_mask@,
                    expr::viewed(global_conditioning),
                    reverse,
                ),
            ),
    {
        let ghost mask = padding_mask@;
        let ghost cond = expr::viewed(global_conditioning);
        let mut x = inputs.clone();
        let _ = x.ty();
        if !reverse {
            let mut i: usize = 0;
            while i < self.flows.len()
                invariant
                    !reverse,
                    i <= self.flows@.len(),
                    mask == padding_mask@,
                    cond == expr::viewed(global_conditioning),
                    term::typ(x@) is Some,
                    self.forwards_from(0, inputs@, mask, cond) == self.forwards_from(
                        i as nat,
                        x@,
                        mask,
                        cond,
                    ),
                decreases self.flows@.len() - i,
            {
                proof {
                    let next = self.flows@[i as int].output(x@, mask, cond, false).reverse(1);
                    if term::typ(next) is None {
                        self.lemma_undefined_forwards((i + 1) as nat, next, mask, cond);
                    }
                }
                let (out, _) = self.flows[i].forward(&x, padding_mask, global_conditioning, false)?;
                x = tensor_ext::flip_channels(&out)?;
                i = i + 1;
            }
        } else {
            let mut i: usize = self.flows.len();
            while i > 0
                invariant
                    reverse,
                    i <= self.flows@.len(),
                    mask == padding_mask@,
                    cond == expr::viewed(global_conditioning),
                    term::typ(x@) is Some,
                    self.backwards_from(self.flows@.len(), inputs@, mask, cond)
                        == self.backwards_from(i as nat, x@, mask, cond),
                decreases i,
            {
                proof {
                    let next = self.flows@[i - 1].output(x@.reverse(1), mask, cond, true);
                    if term::typ(next) is None {
                        self.lemma_undefined_backwards((i - 1) as nat, next, mask, cond);
                    }
                }
                let flipped = tensor_ext::flip_channels(&x)?;
                let (out, _) = self.flows[i - 1].forward(
                    &flipped,
                    padding_mask,
                    global_conditioning,
                    true,
                )?;
                x = out;
                i = i - 1;
            }
        }
        Ok(x)
    }
}

/// The output depends on the input.
pub broadcast proof fn strict_coupling(
    block: VitsResidualCouplingBlock,
    x: Term,
    mask: Term,
    cond: Option<Term>,
    reverse: bool,
)
    ensures
        (#[trigger] term::typ(block.output(x, mask, cond, reverse))) is Some ==> term::typ(
            x,
        ) is Some,
{
    if term::typ(x) is None {
        block.lemma_undefined_forwards(0, x, mask, cond);
        block.lemma_undefined_backwards(block.flows@.len(), x, mask, cond);
    }
}

/// A coupling layer passes the first half of the channels on as they are, in both directions.
pub proof fn lemma_first_half_kept(
    layer: VitsResidualCouplingLayer,
    x: Term,
    mask: Term,
    cond: Option<Term>,
    reverse: bool,
    b: int,
    c: int,
    t: int,
)
    requires
        term::typ(layer.output(x, mask, cond, reverse)) is Some,
        x.shape() is S3,
        x.shape()->S3_1 == 2 * layer.half_channels,
        mask.shape() == Shape::S3(x.shape()->S3_0, 1, x.shape()->S3_2),
        0 <= b < x.shape()->S3_0,
        0 <= c < layer.half_channels,
        0 <= t < x.shape()->S3_2,
    ensures
        ({
            let p = positions::at3(x.shape()->S3_1 as int, x.shape()->S3_2 as int, b, c, t);
            &&& layer.output(x, mask, cond, reverse).shape() == x.shape()
            &&& index::origin(layer.output(x, mask, cond, reverse), p) == index::origin(x, p)
        }),
{
    let half = layer.half_channels;
    let first = x.narrow(1, 0, half);
    let second = x.narrow(1, half, half);
    let mean = layer.mean(first, mask, cond);
    let changed = if reverse {
        second.sub(mean).mul(mean.zeros_like().neg().exp())
    } else {
        mean.add(second.mul(mean.zeros_like().exp()))
    };
    assert(layer.output(x, mask, cond, reverse) == first.concat(changed.broadcast_mul(mask), 1));
    lemma_changed_type(second, mean, reverse);
    lemma_half_shapes(x, half, changed, mask);
    index::lemma_origin_concat(first, changed.broadcast_mul(mask), 1, b, c, t);
    index::lemma_origin_narrow(x, 1, 0, half, b, c, t);
}

proof fn lemma_changed_type(second: Term, mean: Term, reverse: bool)
    ensures
        ({
            let changed = if reverse {
                second.sub(mean).mul(mean.zeros_like().neg().exp())
            } else {
                mean.add(second.mul(mean.zeros_like().exp()))
            };
            term::typ(changed) is Some ==> changed.shape() == second.shape()
        }),
{
    broadcast use crate::tensor::term::typing_rules;

}

proof fn lemma_half_shapes(x: Term, half: usize, changed: Term, mask: Term)
    requires
        x.shape() is S3,
        x.shape()->S3_1 == 2 * half,
        mask.shape() == Shape::S3(x.shape()->S3_0, 1, x.shape()->S3_2),
        term::typ(x.narrow(1, 0, half).concat(changed.broadcast_mul(mask), 1)) is Some,
        term::typ(changed) is Some ==> changed.shape() == x.narrow(1, half, half).shape(),
        term::typ(x.narrow(1, half, half)) is Some,
    ensures
        x.narrow(1, 0, half).shape() == Shape::S3(x.shape()->S3_0, half, x.shape()->S3_2),
        changed.broadcast_mul(mask).shape() == x.narrow(1, 0, half).shape(),
        x.narrow(1, 0, half).concat(changed.broadcast_mul(mask), 1).shape() == x.shape(),
{
    broadcast use crate::tensor::term::typing_rules;

}

} // verus!
