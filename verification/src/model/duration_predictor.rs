//! Durations drawn at random.

use vstd::prelude::*;

use crate::config::VitsConfig;
use crate::model::flows::{VitsConvFlow, VitsElementwiseAffine};
use crate::model::separable::VitsDilatedDepthSeparableConv;
use crate::model::tensor_ext;
use crate::nn;
use crate::nn::{Conv1d, LoadError, Scope, ScopeView};
use crate::tensor::expr;
use crate::tensor::expr::{Tensor, TensorError};
use crate::tensor::ops::Noise;
use crate::tensor::scalar::{Real, Scalar};
use crate::tensor::shape::Shape;
use crate::tensor::term;
use crate::tensor::term::Term;

verus! {

broadcast use {
    crate::tensor::term::strictness,
    crate::model::separable::strict_separable,
    crate::model::flows::strict_conv_flow,
};

/// A flow of either kind.
#[derive(Debug)]
pub enum Flow {
    Affine(VitsElementwiseAffine),
    Conv(VitsConvFlow),
}

impl Flow {
    /// What the flow, or its inverse, gives.
    pub open spec fn output(self, x: Term, mask: Term, cond: Option<Term>, reverse: bool) -> Term {
        match self {
            Flow::Affine(f) => f.output(x, mask, reverse),
            Flow::Conv(f) => f.output(x, mask, cond, reverse),
        }
    }

    /// The logarithm of the determinant, which is only computed forwards.
    pub open spec fn log_determinant(
        self,
        x: Term,
        mask: Term,
        cond: Option<Term>,
        reverse: bool,
    ) -> Option<Term> {
        match self {
            Flow::Affine(f) => f.log_determinant(mask, reverse),
            Flow::Conv(f) => f.log_determinant(x, mask, cond, reverse),
        }
    }

    /// The flow, or its inverse, at `inputs`.
    pub fn forward(
        &self,
        inputs: &Tensor,
        padding_mask: &Tensor,
        global_conditioning: Option<&Tensor>,
        reverse: bool,
    ) -> (r: Result<Tensor, TensorError>)
        ensures
            ({
                let cond = expr::viewed(global_conditioning);
                let out = self.output(inputs@, padding_mask@, cond, reverse);
                let det = self.log_determinant(inputs@, padding_mask@, cond, reverse);
                match r {
                    Ok(x) => x@ == out && term::typ(out) is Some && (det is Some ==> term::typ(
                        det->0,
                    ) is Some),
                    Err(_) => term::typ(out) is None || (det is Some && term::typ(det->0) is None),
                }
            }),
            reverse ==> expr::gives(
                r,
                self.output(
                    inputs@,
                    padding_mask@,
                    expr::viewed(global_conditioning),
                    reverse,
                ),
            ),
    {
        proof {
            reveal(VitsConvFlow::log_determinant);
        }
        match self {
            Flow::Affine(f) => {
                let (out, _) = f.forward(inputs, padding_mask, reverse)?;
                Ok(out)
            },
            Flow::Conv(f) => {
                let (out, _) = f.forward(inputs, padding_mask, global_conditioning, reverse)?;
                Ok(out)
            },
        }
    }
}

/// The order in which `count` flows are run backwards: last one first, without the second one.
pub open spec fn backward_order(count: nat) -> Seq<usize> {
    Seq::new(
        (count - 1) as nat,
        |i: int|
            if i < count - 2 {
                (count - 1 - i) as usize
            } else {
                0
            },
    )
}

/// The order in which at least two flows are run backwards.
pub fn flow_order(count: usize) -> (r: Vec<usize>)
    requires
        count >= 2,
    ensures
        r@ == backward_order(count as nat),
{
    let mut ordered: Vec<usize> = Vec::new();
    let mut i: usize = count;
    while i > 2
        invariant
            2 <= i <= count,
            ordered@.len() == count - i,
            forall|k: int| 0 <= k < count - i ==> ordered@[k] == count - 1 - k,
        decreases i,
    {
        i = i - 1;
        ordered.push(i);
    }
    ordered.push(0);
    assert(ordered@ =~= backward_order(count as nat));
    ordered
}

/// Run backwards, every flow but the second has its turn, once.
pub proof fn lemma_backward_order(count: nat, flow: usize)
    requires
        2 <= count <= usize::MAX,
    ensures
        backward_order(count).contains(flow) <==> flow < count && flow != 1,
        backward_order(count).no_duplicates(),
{
    let order = backward_order(count);
    if flow < count && flow != 1 {
        if flow == 0 {
            assert(order[count - 2] == flow);
        } else {
            assert(order[count - 1 - flow] == flow);
        }
    }
}

/// Draws durations: noise, run backwards through flows that depend on the text.
#[derive(Debug)]
pub struct VitsStochasticDurationPredictor {
    pub conv_pre: Conv1d,
    pub conv_proj: Conv1d,
    pub conv_dds: VitsDilatedDepthSeparableConv,
    pub cond: Option<Conv1d>,
    pub flows: Vec<Flow>,
}

impl VitsStochasticDurationPredictor {
    /// Why the flows behind number `i` cannot be built, if so.
    pub open spec fn flows_failure(config: VitsConfig, vb: ScopeView, i: nat) -> Option<LoadError>
        decreases config.duration_predictor_num_flows - i,
    {
        if i >= config.duration_predictor_num_flows {
            None
        } else {
            nn::either(
                VitsConvFlow::failure(config, vb.item("flows"@, i + 1)),
                VitsStochasticDurationPredictor::flows_failure(config, vb, i + 1),
            )
        }
    }

    /// Why the conditioning cannot be built, if so.
    pub open spec fn cond_failure(config: VitsConfig, vb: ScopeView) -> Option<LoadError> {
        nn::missing(
            config.speaker_embedding_size == 0 || Conv1d::loadable(
                vb.pp("cond"@),
                config.speaker_embedding_size,
                config.hidden_size,
                1,
            ),
        )
    }

    /// Why the predictor cannot be built, if so.
    pub open spec fn failure(config: VitsConfig, vb: ScopeView) -> Option<LoadError> {
        let h = config.hidden_size;
        nn::either(
            nn::missing(
                Conv1d::loadable(vb.pp("conv_pre"@), h, h, 1) && Conv1d::loadable(
                    vb.pp("conv_proj"@),
                    h,
                    h,
                    1,
                ),
            ),
            nn::either(
                VitsDilatedDepthSeparableConv::failure(config, vb.pp("conv_dds"@)),
                nn::either(
                    VitsStochasticDurationPredictor::cond_failure(config, vb),
                    nn::either(
                        nn::missing(
                            VitsElementwiseAffine::loadable(config, vb.item("flows"@, 0)),
                        ),
                        nn::either(
                            nn::oversize(config.duration_predictor_num_flows < usize::MAX),
                            VitsStochasticDurationPredictor::flows_failure(config, vb, 0),
                        ),
                    ),
                ),
            ),
        )
    }

    /// Whether a flow is the one that the checkpoint holds as number `i`.
    pub open spec fn flow_loaded(flow: Flow, config: VitsConfig, vb: ScopeView, i: nat) -> bool {
        match flow {
            Flow::Affine(f) => i == 0 && f.loaded(config, vb.item("flows"@, i)),
            Flow::Conv(f) => i > 0 && f.loaded(config, vb.item("flows"@, i)),
        }
    }

    /// Whether this is the predictor that the checkpoint holds.
    pub open spec fn loaded(self, config: VitsConfig, vb: ScopeView) -> bool {
        let h = config.hidden_size;
        &&& self.conv_pre.loaded(vb.pp("conv_pre"@), h, h, 1, nn::plain_conv())
        &&& self.conv_proj.loaded(vb.pp("conv_proj"@), h, h, 1, nn::plain_conv())
        &&& self.conv_dds.loaded(config, config.duration_predictor_dropout, vb.pp("conv_dds"@))
        &&& match self.cond {
            Some(c) => config.speaker_embedding_size != 0 && c.loaded(
                vb.pp("cond"@),
                config.speaker_embedding_size,
                h,
                1,
                nn::plain_conv(),
            ),
            None => config.speaker_embedding_size == 0,
        }
        &&& self.flows@.len() == config.duration_predictor_num_flows + 1
        &&& forall|i: int|
            0 <= i < self.flows@.len() ==> VitsStochasticDurationPredictor::flow_loaded(
                #[trigger] self.flows@[i],
                config,
                vb,
                i as nat,
            )
    }

    /// The predictor for a configuration.
    pub fn new(config: &VitsConfig, vb: &Scope) -> (r: Result<
        VitsStochasticDurationPredictor,
        LoadError,
    >)
        ensures
            match r {
                Ok(m) => VitsStochasticDurationPredictor::failure(*config, vb@) is None
                    && m.loaded(*config, vb@),
                Err(e) => VitsStochasticDurationPredictor::failure(*config, vb@) == Some(e),
            },
    {
        let embed_dim = config.speaker_embedding_size;
        let filter_channels = config.hidden_size;
        let plain = nn::plain_conv_config();

        let conv_pre = Conv1d::new(
            &vb.pp("conv_pre"),
            filter_channels,
            filter_channels,
            1,
            plain,
        )?;
        let conv_proj = Conv1d::new(
            &vb.pp("conv_proj"),
            filter_channels,
            filter_channels,
            1,
            plain,
        )?;
        let conv_dds = VitsDilatedDepthSeparableConv::new(
            config,
            config.duration_predictor_dropout,
            &vb.pp("conv_dds"),
        )?;

        let cond = if embed_dim != 0 {
            Some(Conv1d::new(&vb.pp("cond"), embed_dim, filter_channels, 1, plain)?)
        } else {
            None
        };

        let mut flows: Vec<Flow> = Vec::new();
        flows.push(Flow::Affine(VitsElementwiseAffine::new(config, &vb.item("flows", 0))?));
        if config.duration_predictor_num_flows == usize::MAX {
            return Err(LoadError::Size);
        }
        let mut i: usize = 0;
        while i < config.duration_predictor_num_flows
            invariant
                i <= config.duration_predictor_num_flows < usize::MAX,
                flows@.len() == i + 1,
                VitsStochasticDurationPredictor::failure(*config, vb@)
                    == VitsStochasticDurationPredictor::flows_failure(*config, vb@, i as nat),
                forall|k: int|
                    0 <= k <= i ==> VitsStochasticDurationPredictor::flow_loaded(
                        #[trigger] flows@[k],
                        *config,
                        vb@,
                        k as nat,
                    ),
            decreases config.duration_predictor_num_flows - i,
        {
            flows.push(Flow::Conv(VitsConvFlow::new(config, &vb.item("flows", i + 1))?));
            i = i + 1;
        }

        Ok(VitsStochasticDurationPredictor { conv_pre, conv_proj, conv_dds, cond, flows })
    }

    /// What the flows are told of the text.
    pub open spec fn conditioning(self, x: Term, mask: Term, cond: Option<Term>) -> Term {
        let pre = self.conv_pre.output(x);
        let told = match (cond, self.cond) {
            (Some(gc), Some(c)) => pre.add(c.output(gc)),
            _ => pre,
        };
        self.conv_proj.output(self.conv_dds.output(told, mask, None)).broadcast_mul(mask)
    }

    /// The flows in the given order from place `i` on, each run backwards after a reversal of the
    /// channels.
    pub open spec fn run_from(
        self,
        order: Seq<usize>,
        i: int,
        latents: Term,
        mask: Term,
        told: Term,
    ) -> Term
        decreases order.len() - i,
    {
        if i < 0 || i >= order.len() {
            latents
        } else {
            self.run_from(
                order,
                i + 1,
                self.flows@[order[i] as int].output(latents.reverse(1), mask, Some(told), true),
                mask,
                told,
            )
        }
    }

    /// The logarithms of the durations.
    #[verifier::opaque]
    pub open spec fn output(
        self,
        x: Term,
        mask: Term,
        cond: Option<Term>,
        noise_scale: Real,
    ) -> Term {
        let told = self.conditioning(x, mask, cond);
        match told.shape() {
            Shape::S3(batch, _, seq_len) => if self.flows@.len() < 2 || term::typ(told) is None {
                Term::undefined()
            } else {
                self.run_from(
                    backward_order(self.flows@.len()),
                    0,
                    Term::randn(Noise::Durations, Shape::S3(batch, 2, seq_len)).scale(
                        Scalar::Value(noise_scale),
                    ),
                    mask,
                    told,
                ).narrow(1, 0, 1)
            },
            _ => Term::undefined(),
        }
    }

    pub(crate) proof fn lemma_undefined(
        self,
        order: Seq<usize>,
        i: int,
        latents: Term,
        mask: Term,
        told: Term,
    )
        requires
            term::typ(latents) is None,
        ensures
            term::typ(self.run_from(order, i, latents, mask, told)) is None,
        decreases order.len() - i,
    {
        if 0 <= i < order.len() {
            self.lemma_undefined(
                order,
                i + 1,
                self.flows@[order[i] as int].output(latents.reverse(1), mask, Some(told), true),
                mask,
                told,
            );
        }
    }

    fn condition(
        &self,
        inputs: &Tensor,
        padding_mask: &Tensor,
        global_conditioning: Option<&Tensor>,
    ) -> (r: Result<Tensor, TensorError>)
        ensures
            expr::gives(
                r,
                self.conditioning(inputs@, padding_mask@, expr::viewed(global_conditioning)),
            ),
    {
        let x = self.conv_pre.forward(inputs)?;
        let x = match (global_conditioning, &self.cond) {
            (Some(gc), Some(cond)) => x.add(&cond.forward(gc)?)?,
            _ => x,
        };
        let x = self.conv_dds.forward(&x, padding_mask, None)?;
        self.conv_proj.forward(&x)?.broadcast_mul(padding_mask)
    }

    /// The logarithms of the durations, of shape batch, 1, length.
    pub fn forward(
        &self,
        inputs: &Tensor,
        padding_mask: &Tensor,
        global_conditioning: Option<&Tensor>,
        noise_scale: Real,
    ) -> (r: Result<Tensor, TensorError>)
        ensures
            expr::gives(
                r,
                self.output(
                    inputs@,
                    padding_mask@,
                    expr::viewed(global_conditioning),
                    noise_scale,
                ),
            ),
    {
        proof {
            reveal(VitsStochasticDurationPredictor::output);
        }
        let told = self.condition(inputs, padding_mask, global_conditioning)?;
        if self.flows.len() < 2 {
            return Err(TensorError::Mismatch);
        }
        let ordered = flow_order(self.flows.len());

        let (batch, _, seq_len) = told.dims3()?;
        let ghost noise = Term::randn(Noise::Durations, Shape::S3(batch, 2, seq_len)).scale(
            Scalar::Value(noise_scale),
        );
        let ghost total = self.run_from(ordered@, 0, noise, padding_mask@, told@);
        proof {
            if term::typ(noise) is None {
                self.lemma_undefined(ordered@, 0, noise, padding_mask@, told@);
            }
        }
        let mut latents = Tensor::randn(Noise::Durations, Shape::S3(batch, 2, seq_len))?.scale(
            Scalar::Value(noise_scale),
        )?;

        let mut i: usize = 0;
        while i < ordered.len()
            invariant
                i <= ordered@.len(),
                self.flows@.len() >= 2,
                ordered@ == backward_order(self.flows@.len()),
                total == self.run_from(ordered@, i as int, latents@, padding_mask@, told@),
                term::typ(total) is None ==> term::typ(
                    self.output(
                        inputs@,
                        padding_mask@,
                        expr::viewed(global_conditioning),
                        noise_scale,
                    ),
                ) is None,
            decreases ordered@.len() - i,
        {
            let k = ordered[i];
            assert(k < self.flows@.len());
            let flow = &self.flows[k];
            proof {
                let next = flow.output(latents@.reverse(1), padding_mask@, Some(told@), true);
                if term::typ(next) is None {
                    self.lemma_undefined(ordered@, i + 1, next, padding_mask@, told@);
                }
            }
            let flipped = tensor_ext::flip_channels(&latents)?;
            latents = flow.forward(&flipped, padding_mask, Some(&told), true)?;
            i = i + 1;
        }

        latents.narrow(1, 0, 1)
    }
}

/// The output depends on the input and the mask.
pub broadcast proof fn strict_predictor(
    predictor: VitsStochasticDurationPredictor,
    x: Term,
    mask: Term,
    cond: Option<Term>,
    noise_scale: Real,
)
    ensures
        (#[trigger] term::typ(predictor.output(x, mask, cond, noise_scale))) is Some ==> term::typ(
            x,
        ) is Some && term::typ(mask) is Some,
{
    reveal(VitsStochasticDurationPredictor::output);
}

} // verus!
