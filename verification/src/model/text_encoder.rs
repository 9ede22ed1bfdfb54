//! The encoder of the text.

use vstd::prelude::*;

use crate::config::VitsConfig;
use crate::model::attention::VitsAttention;
use crate::nn;
use crate::nn::{Conv1d, Embedding, LayerNorm, LoadError, Scope, ScopeView};
use crate::tensor::expr;
use crate::tensor::expr::{Tensor, TensorError};
use crate::tensor::scalar;
use crate::tensor::scalar::{Scalar, LEAST_SINGLE_BITS, ZERO_BITS};
use crate::tensor::shape::Shape;
use crate::tensor::term;
use crate::tensor::term::Term;
use crate::tensor::typing::{Comparison, DType};
use crate::text;

verus! {

broadcast use {crate::tensor::term::strictness, crate::model::attention::strict_attention};

/// Two convolutions with a nonlinear function between them.
#[derive(Debug)]
pub struct VitsFeedForward {
    pub conv_1: Conv1d,
    pub conv_2: Conv1d,
    pub pad_left: usize,
    pub pad_right: usize,
    pub hidden_act: String,
}

impl VitsFeedForward {
    /// Whether the checkpoint holds such a layer.
    pub open spec fn loadable(config: VitsConfig, vb: ScopeView) -> bool {
        let k = config.ffn_kernel_size;
        &&& Conv1d::loadable(vb.pp("conv_1"@), config.hidden_size, config.ffn_dim, k)
        &&& Conv1d::loadable(vb.pp("conv_2"@), config.ffn_dim, config.hidden_size, k)
    }

    /// Whether this is the layer that the checkpoint holds.
    pub open spec fn loaded(self, config: VitsConfig, vb: ScopeView) -> bool {
        let k = config.ffn_kernel_size;
        &&& self.conv_1.loaded(
            vb.pp("conv_1"@),
            config.hidden_size,
            config.ffn_dim,
            k,
            nn::plain_conv(),
        )
        &&& self.conv_2.loaded(
            vb.pp("conv_2"@),
            config.ffn_dim,
            config.hidden_size,
            k,
            nn::plain_conv(),
        )
        &&& self.pad_left == if k > 1 {
            (k - 1) / 2
        } else {
            0
        }
        &&& self.pad_right == if k > 1 {
            k as int / 2
        } else {
            0
        }
        &&& self.hidden_act@ == config.hidden_act@
    }

    /// The layer for a configuration.
    pub fn new(config: &VitsConfig, vb: &Scope) -> (r: Result<VitsFeedForward, LoadError>)
        ensures
            match r {
                Ok(m) => VitsFeedForward::loadable(*config, vb@) && m.loaded(*config, vb@),
                Err(e) => !VitsFeedForward::loadable(*config, vb@) && e == LoadError::Checkpoint,
            },
    {
        let conv_1 = Conv1d::new(
            &vb.pp("conv_1"),
            config.hidden_size,
            config.ffn_dim,
            config.ffn_kernel_size,
            nn::plain_conv_config(),
        )?;
        let conv_2 = Conv1d::new(
            &vb.pp("conv_2"),
            config.ffn_dim,
            config.hidden_size,
            config.ffn_kernel_size,
            nn::plain_conv_config(),
        )?;
        let (pad_left, pad_right): (usize, usize) = if config.ffn_kernel_size > 1 {
            ((config.ffn_kernel_size - 1) / 2, config.ffn_kernel_size / 2)
        } else {
            (0, 0)
        };
        Ok(
            VitsFeedForward {
                conv_1,
                conv_2,
                pad_left,
                pad_right,
                hidden_act: config.hidden_act.clone(),
            },
        )
    }

    /// The nonlinear function that the configuration names; none for a name that is not known.
    pub open spec fn activated(self, x: Term) -> Term {
        if self.hidden_act@ == "relu"@ {
            x.relu()
        } else if self.hidden_act@ == "gelu"@ {
            x.gelu_erf()
        } else if self.hidden_act@ == "tanh"@ {
            x.tanh()
        } else if self.hidden_act@ == "silu"@ {
            x.silu()
        } else {
            Term::undefined()
        }
    }

    /// The nonlinear function that the configuration names.
    pub fn act(&self, x: &Tensor) -> (r: Result<Tensor, TensorError>)
        ensures
            expr::gives(r, self.activated(x@)),
    {
        if text::same(&self.hidden_act, "relu") {
            x.relu()
        } else if text::same(&self.hidden_act, "gelu") {
            x.gelu_erf()
        } else if text::same(&self.hidden_act, "tanh") {
            x.tanh()
        } else if text::same(&self.hidden_act, "silu") {
            x.silu()
        } else {
            Err(TensorError::Mismatch)
        }
    }

    /// What the layer gives.
    #[verifier::opaque]
    pub open spec fn output(self, x: Term, mask: Term) -> Term {
        let turned = mask.transpose(1, 2).contiguous();
        let masked = x.transpose(1, 2).contiguous().broadcast_mul(turned);
        let inner = self.activated(
            self.conv_1.output(zero_padded(masked, self.pad_left, self.pad_right)),
        ).broadcast_mul(turned);
        self.conv_2.output(zero_padded(inner, self.pad_left, self.pad_right)).broadcast_mul(
            turned,
        ).transpose(1, 2).contiguous()
    }

    /// The layer applied to `hidden_states`, of shape batch, length, hidden size. The mask has the
    /// shape batch, length, 1.
    pub fn forward(&self, hidden_states: &Tensor, padding_mask: &Tensor) -> (r: Result<
        Tensor,
        TensorError,
    >)
        ensures
            expr::gives(r, self.output(hidden_states@, padding_mask@)),
    {
        proof {
            reveal(VitsFeedForward::output);
        }
        let x = hidden_states.transpose(1, 2)?.contiguous()?;
        let turned = padding_mask.transpose(1, 2)?.contiguous()?;

        let x = x.broadcast_mul(&turned)?;
        let x = pad_last_dim(&x, self.pad_left, self.pad_right)?;

        let x = self.conv_1.forward(&x)?;
        let x = self.act(&x)?;

        let x = x.broadcast_mul(&turned)?;
        let x = pad_last_dim(&x, self.pad_left, self.pad_right)?;

        let x = self.conv_2.forward(&x)?;
        let x = x.broadcast_mul(&turned)?;

        x.transpose(1, 2)?.contiguous()
    }
}

/// A tensor with zeros before and behind the entries of the last dimension.
pub open spec fn zero_padded(x: Term, left: usize, right: usize) -> Term {
    if left == 0 && right == 0 {
        x
    } else if x.shape().spec_rank() == 0 {
        Term::undefined()
    } else {
        let last = x.shape().spec_rank() - 1;
        let front = if left > 0 {
            Term::zeros(x.dtype(), x.shape().spec_with_dim(last, left)).concat(x, last as usize)
        } else {
            x
        };
        if right > 0 {
            front.concat(
                Term::zeros(x.dtype(), x.shape().spec_with_dim(last, right)),
                last as usize,
            )
        } else {
            front
        }
    }
}

/// A tensor with zeros before and behind the entries of the last dimension.
pub fn pad_last_dim(x: &Tensor, left: usize, right: usize) -> (r: Result<Tensor, TensorError>)
    ensures
        expr::gives(r, zero_padded(x@, left, right)),
{
    let shape = x.shape();
    if left == 0 && right == 0 {
        return Ok(x.clone());
    }
    if shape.rank() == 0 {
        return Err(TensorError::Mismatch);
    }
    let dim: usize = shape.rank() - 1;
    let front = if left > 0 {
        Tensor::zeros(x.dtype(), shape.with_dim(dim, left))?.concat(x, dim)?
    } else {
        x.clone()
    };
    if right > 0 {
        front.concat(&Tensor::zeros(x.dtype(), shape.with_dim(dim, right))?, dim)
    } else {
        Ok(front)
    }
}

/// Attention and convolutions, each added to its input and normalized.
#[derive(Debug)]
pub struct VitsEncoderLayer {
    pub attention: VitsAttention,
    pub layer_norm: LayerNorm,
    pub feed_forward: VitsFeedForward,
    pub final_layer_norm: LayerNorm,
}

impl VitsEncoderLayer {
    /// Why the layer cannot be built, if so.
    pub open spec fn failure(config: VitsConfig, vb: ScopeView) -> Option<LoadError> {
        nn::either(
            VitsAttention::failure(config, vb.pp("attention"@)),
            nn::missing(
                {
                    &&& LayerNorm::loadable(vb.pp("layer_norm"@), config.hidden_size)
                    &&& VitsFeedForward::loadable(config, vb.pp("feed_forward"@))
                    &&& LayerNorm::loadable(vb.pp("final_layer_norm"@), config.hidden_size)
                },
            ),
        )
    }

    /// Whether this is the layer that the checkpoint holds.
    pub open spec fn loaded(self, config: VitsConfig, vb: ScopeView) -> bool {
        &&& self.attention.loaded(config, vb.pp("attention"@))
        &&& self.layer_norm.loaded(
            vb.pp("layer_norm"@),
            config.hidden_size,
            config.layer_norm_eps,
        )
        &&& self.feed_forward.loaded(config, vb.pp("feed_forward"@))
        &&& self.final_layer_norm.loaded(
            vb.pp("final_layer_norm"@),
            config.hidden_size,
            config.layer_norm_eps,
        )
    }

    /// The layer for a configuration.
    pub fn new(config: &VitsConfig, vb: &Scope) -> (r: Result<VitsEncoderLayer, LoadError>)
        ensures
            match r {
                Ok(m) => VitsEncoderLayer::failure(*config, vb@) is None && m.loaded(*config, vb@),
                Err(e) => VitsEncoderLayer::failure(*config, vb@) == Some(e),
            },
    {
        let attention = VitsAttention::new(config, &vb.pp("attention"))?;
        let layer_norm = LayerNorm::new(
            &vb.pp("layer_norm"),
            config.hidden_size,
            config.layer_norm_eps,
        )?;
        let feed_forward = VitsFeedForward::new(config, &vb.pp("feed_forward"))?;
        let final_layer_norm = LayerNorm::new(
            &vb.pp("final_layer_norm"),
            config.hidden_size,
            config.layer_norm_eps,
        )?;
        Ok(VitsEncoderLayer { attention, layer_norm, feed_forward, final_layer_norm })
    }

    /// What the layer gives.
    #[verifier::opaque]
    pub open spec fn output(self, x: Term, mask: Term, attention_mask: Option<Term>) -> Term {
        let attended = self.layer_norm.output(x.add(self.attention.output(x, attention_mask)));
        self.final_layer_norm.output(attended.add(self.feed_forward.output(attended, mask)))
    }

    /// The layer applied to `hidden_states`.
    pub fn forward(
        &self,
        hidden_states: &Tensor,
        padding_mask: &Tensor,
        attention_mask: Option<&Tensor>,
    ) -> (r: Result<Tensor, TensorError>)
        ensures
            expr::gives(
                r,
                self.output(hidden_states@, padding_mask@, expr::viewed(attention_mask)),
            ),
    {
        proof {
            reveal(VitsEncoderLayer::output);
        }
        let attended = self.attention.forward(hidden_states, attention_mask)?;
        let residual = self.layer_norm.forward(&hidden_states.add(&attended)?)?;

        let fed = self.feed_forward.forward(&residual, padding_mask)?;
        self.final_layer_norm.forward(&residual.add(&fed)?)
    }
}

/// A stack of encoder layers.
#[derive(Debug)]
pub struct VitsEncoder {
    pub layers: Vec<VitsEncoderLayer>,
}

impl VitsEncoder {
    /// Why the layers from number `i` on cannot be built, if so.
    pub open spec fn failure_from(config: VitsConfig, vb: ScopeView, i: nat) -> Option<LoadError>
        decreases config.num_hidden_layers - i,
    {
        if i >= config.num_hidden_layers {
            None
        } else {
            nn::either(
                VitsEncoderLayer::failure(config, vb.item("layers"@, i)),
                VitsEncoder::failure_from(config, vb, i + 1),
            )
        }
    }

    /// Why the stack cannot be built, if so.
    pub open spec fn failure(config: VitsConfig, vb: ScopeView) -> Option<LoadError> {
        VitsEncoder::failure_from(config, vb, 0)
    }

    /// Whether this is the stack that the checkpoint holds.
    pub open spec fn loaded(self, config: VitsConfig, vb: ScopeView) -> bool {
        &&& self.layers@.len() == config.num_hidden_layers
        &&& forall|i: int|
            0 <= i < self.layers@.len() ==> (#[trigger] self.layers@[i]).loaded(
                config,
                vb.item("layers"@, i as nat),
            )
    }

    /// The stack for a configuration.
    pub fn new(config: &VitsConfig, vb: &Scope) -> (r: Result<VitsEncoder, LoadError>)
        ensures
            match r {
                Ok(m) => VitsEncoder::failure(*config, vb@) is None && m.loaded(*config, vb@),
                Err(e) => VitsEncoder::failure(*config, vb@) == Some(e),
            },
    {
        let mut layers: Vec<VitsEncoderLayer> = Vec::new();
        let mut i: usize = 0;
        while i < config.num_hidden_layers
            invariant
                i <= config.num_hidden_layers,
                layers@.len() == i,
                VitsEncoder::failure(*config, vb@) == VitsEncoder::failure_from(
                    *config,
                    vb@,
                    i as nat,
                ),
                forall|k: int|
                    0 <= k < i ==> (#[trigger] layers@[k]).loaded(
                        *config,
                        vb@.item("layers"@, k as nat),
                    ),
            decreases config.num_hidden_layers - i,
        {
            layers.push(VitsEncoderLayer::new(config, &vb.item("layers", i))?);
            i = i + 1;
        }
        Ok(VitsEncoder { layers })
    }

    /// The layers from number `i` on.
    pub open spec fn output_from(
        self,
        i: nat,
        x: Term,
        mask: Term,
        attention_mask: Option<Term>,
    ) -> Term
        decreases self.layers@.len() - i,
    {
        if i >= self.layers@.len() {
            x.broadcast_mul(mask)
        } else {
            self.output_from(
                i + 1,
                self.layers@[i as int].output(x, mask, attention_mask),
                mask,
                attention_mask,
            )
        }
    }

    /// What the stack gives.
    #[verifier::opaque]
    pub open spec fn output(self, x: Term, mask: Term, attention_mask: Option<Term>) -> Term {
        self.output_from(0, x.broadcast_mul(mask), mask, attention_mask)
    }

    pub(crate) proof fn lemma_undefined(
        self,
        i: nat,
        x: Term,
        mask: Term,
        attention_mask: Option<Term>,
    )
        requires
            term::typ(x) is None,
        ensures
            term::typ(self.output_from(i, x, mask, attention_mask)) is None,
        decreases self.layers@.len() - i,
    {
        reveal(VitsEncoderLayer::output);
        if i < self.layers@.len() {
            self.lemma_undefined(
                i + 1,
                self.layers@[i as int].output(x, mask, attention_mask),
                mask,
                attention_mask,
            );
        }
    }

    /// The stack applied to `hidden_states`, of shape batch, length, hidden size. The masks have
    /// the shapes batch, length, 1 and batch, 1, length, length.
    pub fn forward(
        &self,
        hidden_states: &Tensor,
        padding_mask: &Tensor,
        attention_mask: Option<&Tensor>,
    ) -> (r: Result<Tensor, TensorError>)
        ensures
            expr::gives(
                r,
                self.output(hidden_states@, padding_mask@, expr::viewed(attention_mask)),
            ),
    {
        let ghost mask = padding_mask@;
        let ghost scores = expr::viewed(attention_mask);
        let ghost total = self.output(hidden_states@, mask, scores);
        proof {
            reveal(VitsEncoder::output);
            let start = hidden_states@.broadcast_mul(mask);
            if term::typ(start) is None {
                self.lemma_undefined(0, start, mask, scores);
            }
        }
        let mut x = hidden_states.broadcast_mul(padding_mask)?;
        let mut i: usize = 0;
        while i < self.layers.len()
            invariant
                i <= self.layers@.len(),
                mask == padding_mask@,
                scores == expr::viewed(attention_mask),
                total == self.output_from(i as nat, x@, mask, scores),
                total == self.output(hidden_states@, mask, scores),
            decreases self.layers@.len() - i,
        {
            proof {
                let next = self.layers@[i as int].output(x@, mask, scores);
                if term::typ(next) is None {
                    self.lemma_undefined((i + 1) as nat, next, mask, scores);
                }
            }
            x = self.layers[i].forward(&x, padding_mask, attention_mask)?;
            i = i + 1;
        }
        x.broadcast_mul(padding_mask)
    }
}

/// The output depends on the input and the mask.
pub broadcast proof fn strict_encoder(
    encoder: VitsEncoder,
    x: Term,
    mask: Term,
    attention_mask: Option<Term>,
)
    ensures
        (#[trigger] term::typ(encoder.output(x, mask, attention_mask))) is Some ==> term::typ(
            x,
        ) is Some && term::typ(mask) is Some,
{
    reveal(VitsEncoder::output);
    if term::typ(x) is None || term::typ(mask) is None {
        encoder.lemma_undefined(0, x.broadcast_mul(mask), mask, attention_mask);
    }
}

/// What is added to the scores of every pair of places: zero where the second place counts, and
/// the least number where it is padding.
pub open spec fn additive_mask(mask: Term) -> Term {
    match mask.shape() {
        Shape::S2(batch, len) => {
            let inverted = mask.reshape(Shape::S4(batch, 1, 1, len)).cast(DType::F32).one_minus();
            inverted.compare_scalar(Comparison::Ne, scalar::scalar(ZERO_BITS)).select(
                Term::full(
                    scalar::scalar(LEAST_SINGLE_BITS),
                    DType::F32,
                    inverted.shape(),
                ),
                inverted.zeros_like(),
            ).expand(Shape::S4(batch, 1, len, len))
        },
        _ => Term::undefined(),
    }
}

/// The mask for attention in both directions, of shape batch, 1, length, length, from the mask of
/// the places that count, of shape batch, length; none if there is none.
pub fn build_bidirectional_mask(attention_mask: Option<&Tensor>) -> (r: Result<
    Option<Tensor>,
    TensorError,
>)
    ensures
        match (attention_mask, r) {
            (None, Ok(m)) => m is None,
            (None, Err(_)) => false,
            (Some(a), Ok(m)) => m is Some && expr::gives(Ok(m->0), additive_mask(a@)),
            (Some(a), Err(e)) => expr::gives(Err(e), additive_mask(a@)),
        },
{
    match attention_mask {
        None => Ok(None),
        Some(mask) => {
            let (batch_size, seq_len) = mask.dims2()?;
            let expanded = mask.reshape(Shape::S4(batch_size, 1, 1, seq_len))?.cast(DType::F32)?;
            let inverted = expanded.one_minus()?;
            let neg_inf = Tensor::full(
                scalar::value_of(LEAST_SINGLE_BITS),
                DType::F32,
                inverted.shape(),
            )?;
            let zeros = inverted.zeros_like()?;
            let is_masked = inverted.compare_scalar(Comparison::Ne, scalar::value_of(ZERO_BITS))?;
            let additive = is_masked.select(&neg_inf, &zeros)?;
            let additive = additive.expand(Shape::S4(batch_size, 1, seq_len, seq_len))?;
            Ok(Some(additive))
        },
    }
}

/// The mask for a mask of two dimensions exists if it can be addressed, and is square.
pub proof fn lemma_additive_mask_type(mask: Term)
    requires
        term::typ(mask) is Some,
        mask.shape() is S2,
    ensures
        ({
            let batch = mask.shape()->S2_0;
            let len = mask.shape()->S2_1;
            let square = Shape::S4(batch, 1, len, len);
            &&& term::typ(additive_mask(mask)) is Some <==> square.spec_fits()
            &&& square.spec_fits() ==> {
                &&& additive_mask(mask).shape() == square
                &&& additive_mask(mask).dtype() == DType::F32
            }
        }),
{
    broadcast use crate::tensor::term::typing_rules;

    let batch = mask.shape()->S2_0;
    let len = mask.shape()->S2_1;
    term::lemma_typ_fits(&mask);
    assert(Shape::S4(batch, 1, 1, len).count() == mask.shape().count());
    assert(Shape::S4(batch, 1, 1, len).volume() == mask.shape().volume());
}

/// The encoder of the text, and the projection of what it finds to the parameters of the prior.
#[derive(Debug)]
pub struct VitsTextEncoder {
    pub embed_tokens: Embedding,
    pub encoder: VitsEncoder,
    pub project: Conv1d,
    pub hidden_size: usize,
    pub flow_size: usize,
}

/// What the encoder finds.
#[derive(Debug)]
pub struct VitsTextEncoderOutput {
    /// Of shape batch, length, hidden size.
    pub last_hidden_state: Tensor,
    /// Of shape batch, length, flow size.
    pub prior_means: Tensor,
    /// Of shape batch, length, flow size.
    pub prior_log_variances: Tensor,
}

impl VitsTextEncoder {
    /// Why the encoder cannot be built, if so.
    pub open spec fn failure(config: VitsConfig, vb: ScopeView) -> Option<LoadError> {
        nn::either(
            nn::missing(
                vb.pp("embed_tokens"@).has(
                    "weight"@,
                    Shape::S2(config.vocab_size, config.hidden_size),
                ),
            ),
            nn::either(
                VitsEncoder::failure(config, vb.pp("encoder"@)),
                nn::either(
                    nn::oversize(2 * config.flow_size <= usize::MAX),
                    nn::missing(
                        Conv1d::loadable(
                            vb.pp("project"@),
                            config.hidden_size,
                            (2 * config.flow_size) as usize,
                            1,
                        ),
                    ),
                ),
            ),
        )
    }

    /// Whether this is the encoder that the checkpoint holds.
    pub open spec fn loaded(self, config: VitsConfig, vb: ScopeView) -> bool {
        &&& self.embed_tokens.table@ == vb.pp("embed_tokens"@).tensor(
            "weight"@,
            Shape::S2(config.vocab_size, config.hidden_size),
        )
        &&& self.encoder.loaded(config, vb.pp("encoder"@))
        &&& self.project.loaded(
            vb.pp("project"@),
            config.hidden_size,
            (2 * config.flow_size) as usize,
            1,
            nn::plain_conv(),
        )
        &&& self.hidden_size == config.hidden_size
        &&& self.flow_size == config.flow_size
    }

    /// The encoder for a configuration.
    pub fn new(config: &VitsConfig, vb: &Scope) -> (r: Result<VitsTextEncoder, LoadError>)
        ensures
            match r {
                Ok(m) => VitsTextEncoder::failure(*config, vb@) is None && m.loaded(*config, vb@),
                Err(e) => VitsTextEncoder::failure(*config, vb@) == Some(e),
            },
    {
        let embed_tokens = Embedding::new(
            &vb.pp("embed_tokens"),
            config.vocab_size,
            config.hidden_size,
        )?;
        let encoder = VitsEncoder::new(config, &vb.pp("encoder"))?;
        if config.flow_size > usize::MAX / 2 {
            return Err(LoadError::Size);
        }
        let project = Conv1d::new(
            &vb.pp("project"),
            config.hidden_size,
            config.flow_size * 2,
            1,
            nn::plain_conv_config(),
        )?;
        Ok(
            VitsTextEncoder {
                embed_tokens,
                encoder,
                project,
                hidden_size: config.hidden_size,
                flow_size: config.flow_size,
            },
        )
    }

    /// What the encoder finds at every place.
    pub open spec fn hidden(self, ids: Term, mask: Term, attention_mask: Option<Term>) -> Term {
        let embedded = self.embed_tokens.output(ids).scale(Scalar::Sqrt(self.hidden_size));
        match attention_mask {
            Some(a) => if term::typ(additive_mask(a)) is None {
                Term::undefined()
            } else {
                self.encoder.output(embedded, mask, Some(additive_mask(a)))
            },
            None => self.encoder.output(embedded, mask, None),
        }
    }

    /// Means and logarithms of variances, side by side.
    pub open spec fn stats(self, hidden: Term, mask: Term) -> Term {
        self.project.output(hidden.transpose(1, 2).contiguous()).transpose(
            1,
            2,
        ).contiguous().broadcast_mul(mask)
    }

    /// The means of the prior.
    pub open spec fn means(self, hidden: Term, mask: Term) -> Term {
        self.stats(hidden, mask).narrow(2, 0, self.flow_size)
    }

    /// The logarithms of the variances of the prior.
    pub open spec fn log_variances(self, hidden: Term, mask: Term) -> Term {
        self.stats(hidden, mask).narrow(2, self.flow_size, self.flow_size)
    }

    /// The encoder applied to token identifiers, of shape batch, length. The mask of the places
    /// that count has the shape batch, length, 1; the attention mask, if there is one, the shape
    /// batch, length.
    pub fn forward(
        &self,
        input_ids: &Tensor,
        padding_mask: &Tensor,
        attention_mask: Option<&Tensor>,
    ) -> (r: Result<VitsTextEncoderOutput, TensorError>)
        ensures
            ({
                let hidden = self.hidden(input_ids@, padding_mask@, expr::viewed(attention_mask));
                let means = self.means(hidden, padding_mask@);
                let log_variances = self.log_variances(hidden, padding_mask@);
                match r {
                    Ok(o) => {
                        &&& o.last_hidden_state@ == hidden
                        &&& o.prior_means@ == means && term::typ(means) is Some
                        &&& o.prior_log_variances@ == log_variances && term::typ(
                            log_variances,
                        ) is Some
                    },
                    Err(_) => term::typ(means) is None || term::typ(log_variances) is None,
                }
            }),
    {
        broadcast use strict_encoder;

        let embedded = self.embed_tokens.forward(input_ids)?;
        let hidden_states = embedded.scale(Scalar::Sqrt(self.hidden_size))?;

        let bidirectional_mask = build_bidirectional_mask(attention_mask)?;
        let last_hidden_state = self.encoder.forward(
            &hidden_states,
            padding_mask,
            bidirectional_mask.as_ref(),
        )?;

        let stats = self.project.forward(
            &last_hidden_state.transpose(1, 2)?.contiguous()?,
        )?.transpose(1, 2)?.contiguous()?.broadcast_mul(padding_mask)?;

        let prior_means = stats.narrow(2, 0, self.flow_size)?;
        let prior_log_variances = stats.narrow(2, self.flow_size, self.flow_size)?;

        Ok(VitsTextEncoderOutput { last_hidden_state, prior_means, prior_log_variances })
    }
}

} // verus!
