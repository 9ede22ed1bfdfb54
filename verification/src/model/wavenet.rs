//! A stack of gated convolutions with growing dilation.

use vstd::prelude::*;

use crate::config::VitsConfig;
use crate::nn;
use crate::nn::{Conv1d, LoadError, Scope, ScopeView};
use crate::tensor::expr;
use crate::tensor::expr::{Tensor, TensorError};
use crate::tensor::scalar;
use crate::tensor::scalar::{Real, ONE_BITS};
use crate::tensor::term;
use crate::tensor::term::Term;
use crate::tensor::typing::ConvConfig;

verus! {

broadcast use crate::tensor::term::typing_rules;

/// The hyperbolic tangent of the first channels of a sum times the logistic function of the rest.
pub open spec fn gate(a: Term, b: Term, num_channels: usize) -> Term {
    let act = a.add(b);
    let rest = (act.shape().spec_dim(1) - num_channels) as usize;
    act.narrow(1, 0, num_channels).tanh().mul(
        act.narrow(1, num_channels, rest).neg().exp().shift(scalar::scalar(ONE_BITS)).recip(),
    )
}

/// The hyperbolic tangent of the first channels of a sum times the logistic function of the rest.
pub fn fused_add_tanh_sigmoid_multiply(
    input_a: &Tensor,
    input_b: &Tensor,
    num_channels: usize,
) -> (r: Result<Tensor, TensorError>)
    ensures
        expr::gives(r, gate(input_a@, input_b@, num_channels)),
{
    let in_act = input_a.add(input_b)?;
    let t_act = in_act.narrow(1, 0, num_channels)?.tanh()?;
    let rest: usize = in_act.shape().dim(1) - num_channels;
    let s_act_input = in_act.narrow(1, num_channels, rest)?;
    let s_act = s_act_input.neg()?.exp()?.shift(scalar::value_of(ONE_BITS))?.recip()?;
    t_act.mul(&s_act)
}

/// Whether a convolution with this kernel and dilation, padded so that it keeps the length of a
/// line, can be described.
pub open spec fn kept_length_in_range(kernel: usize, dilation: int) -> bool {
    0 <= dilation <= usize::MAX && dilation <= kernel * dilation <= usize::MAX
}

/// A convolution that keeps the length of a line (for an odd kernel).
pub open spec fn kept_length(kernel: usize, dilation: int, groups: usize) -> ConvConfig {
    ConvConfig {
        padding: ((kernel * dilation - dilation) / 2) as usize,
        stride: 1,
        dilation: dilation as usize,
        groups,
    }
}

/// A convolution that keeps the length of a line, if it can be described.
pub fn kept_length_config(kernel: usize, dilation: usize, groups: usize) -> (r: Option<ConvConfig>)
    ensures
        match r {
            Some(c) => kept_length_in_range(kernel, dilation as int) && c == kept_length(
                kernel,
                dilation as int,
                groups,
            ),
            None => !kept_length_in_range(kernel, dilation as int),
        },
{
    match kernel.checked_mul(dilation) {
        Some(n) => if dilation <= n {
            Some(ConvConfig { padding: (n - dilation) / 2, stride: 1, dilation, groups })
        } else {
            None
        },
        None => None,
    }
}

/// A power, if it is in range.
pub fn power(base: usize, exponent: usize) -> (r: Option<usize>)
    ensures
        match r {
            Some(p) => p == vstd::arithmetic::power::pow(base as int, exponent as nat),
            None => vstd::arithmetic::power::pow(base as int, exponent as nat) > usize::MAX,
        },
{
    let mut p: usize = 1;
    let mut i: usize = 0;
    proof {
        vstd::arithmetic::power::lemma_pow0(base as int);
    }
    while i < exponent
        invariant
            i <= exponent,
            p == vstd::arithmetic::power::pow(base as int, i as nat),
        decreases exponent - i,
    {
        proof {
            vstd::arithmetic::power::lemma_pow_adds(base as int, i as nat, 1);
            vstd::arithmetic::power::lemma_pow1(base as int);
        }
        match p.checked_mul(base) {
            Some(q) => {
                p = q;
            },
            None => {
                assert(base > 0) by (nonlinear_arith)
                    requires
                        p * base > usize::MAX,
                ;
                proof {
                    vstd::arithmetic::power::lemma_pow_increases(base as nat, (i + 1) as nat, exponent as nat);
                }
                return None;
            },
        }
        i = i + 1;
    }
    Some(p)
}

/// A gated convolution, and the one that parts its result into what goes on and what comes out.
#[derive(Debug)]
pub struct WaveNetLayer {
    pub in_layer: Conv1d,
    pub res_skip_layer: Conv1d,
}

/// A stack of gated convolutions.
#[derive(Debug)]
pub struct VitsWaveNet {
    pub hidden_size: usize,
    pub layers: Vec<WaveNetLayer>,
    pub cond_layer: Option<Conv1d>,
    pub dropout_p: Real,
}

impl VitsWaveNet {
    /// The dilation of layer `i`.
    pub open spec fn dilation(config: VitsConfig, i: nat) -> int {
        vstd::arithmetic::power::pow(config.wavenet_dilation_rate as int, i)
    }

    /// The number of channels that layer `i` puts out: the last one has nothing to pass on.
    pub open spec fn channels(config: VitsConfig, num_layers: usize, i: nat) -> usize {
        if i + 1 < num_layers {
            (2 * config.hidden_size) as usize
        } else {
            config.hidden_size
        }
    }

    /// Why layer `i` cannot be built, if so.
    pub open spec fn layer_failure(
        config: VitsConfig,
        num_layers: usize,
        vb: ScopeView,
        i: nat,
    ) -> Option<LoadError> {
        let h = config.hidden_size;
        nn::either(
            nn::oversize(
                2 * h <= usize::MAX && kept_length_in_range(
                    config.wavenet_kernel_size,
                    VitsWaveNet::dilation(config, i),
                ),
            ),
            nn::missing(
                nn::weight_norm_conv1d_loadable(
                    vb.item("in_layers"@, i),
                    h,
                    (2 * h) as usize,
                    config.wavenet_kernel_size,
                    true,
                ) && nn::weight_norm_conv1d_loadable(
                    vb.item("res_skip_layers"@, i),
                    h,
                    VitsWaveNet::channels(config, num_layers, i),
                    1,
                    true,
                ),
            ),
        )
    }

    /// Whether a layer is the one that the checkpoint holds as number `i`.
    pub open spec fn layer_loaded(
        layer: WaveNetLayer,
        config: VitsConfig,
        num_layers: usize,
        vb: ScopeView,
        i: nat,
    ) -> bool {
        let h = config.hidden_size;
        &&& nn::weight_norm_conv1d_loaded(
            layer.in_layer,
            vb.item("in_layers"@, i),
            h,
            (2 * h) as usize,
            config.wavenet_kernel_size,
            kept_length(config.wavenet_kernel_size, VitsWaveNet::dilation(config, i), 1),
            true,
        )
        &&& nn::weight_norm_conv1d_loaded(
            layer.res_skip_layer,
            vb.item("res_skip_layers"@, i),
            h,
            VitsWaveNet::channels(config, num_layers, i),
            1,
            nn::plain_conv(),
            true,
        )
    }

    /// Why the layers from number `i` on cannot be built, if so.
    pub open spec fn layers_failure(
        config: VitsConfig,
        num_layers: usize,
        vb: ScopeView,
        i: nat,
    ) -> Option<LoadError>
        decreases num_layers - i,
    {
        if i >= num_layers {
            None
        } else {
            nn::either(
                VitsWaveNet::layer_failure(config, num_layers, vb, i),
                VitsWaveNet::layers_failure(config, num_layers, vb, i + 1),
            )
        }
    }

    /// The number of channels of the conditioning.
    pub open spec fn cond_channels(config: VitsConfig, num_layers: usize) -> int {
        2 * config.hidden_size * num_layers
    }

    /// Why the stack cannot be built, if so.
    pub open spec fn failure(config: VitsConfig, num_layers: usize, vb: ScopeView) -> Option<
        LoadError,
    > {
        let n = VitsWaveNet::cond_channels(config, num_layers);
        nn::either(
            if config.speaker_embedding_size == 0 {
                None
            } else {
                nn::either(
                    nn::oversize(n <= usize::MAX),
                    nn::missing(
                        Conv1d::loadable(
                            vb.pp("cond_layer"@),
                            config.speaker_embedding_size,
                            n as usize,
                            1,
                        ),
                    ),
                )
            },
            VitsWaveNet::layers_failure(config, num_layers, vb, 0),
        )
    }

    /// Whether this is the stack that the checkpoint holds.
    pub open spec fn loaded(self, config: VitsConfig, num_layers: usize, vb: ScopeView) -> bool {
        &&& self.hidden_size == config.hidden_size
        &&& self.dropout_p == config.wavenet_dropout
        &&& self.layers@.len() == num_layers
        &&& forall|i: int|
            0 <= i < num_layers ==> VitsWaveNet::layer_loaded(
                #[trigger] self.layers@[i],
                config,
                num_layers,
                vb,
                i as nat,
            )
        &&& match self.cond_layer {
            Some(c) => config.speaker_embedding_size != 0 && c.loaded(
                vb.pp("cond_layer"@),
                config.speaker_embedding_size,
                VitsWaveNet::cond_channels(config, num_layers) as usize,
                1,
                nn::plain_conv(),
            ),
            None => config.speaker_embedding_size == 0,
        }
    }

    /// The stack of `num_layers` layers for a configuration.
    pub fn new(config: &VitsConfig, num_layers: usize, vb: &Scope) -> (r: Result<
        VitsWaveNet,
        LoadError,
    >)
        ensures
            match r {
                Ok(m) => VitsWaveNet::failure(*config, num_layers, vb@) is None && m.loaded(
                    *config,
                    num_layers,
                    vb@,
                ),
                Err(e) => VitsWaveNet::failure(*config, num_layers, vb@) == Some(e),
            },
    {
        let hidden_size = config.hidden_size;

        let cond_layer = if config.speaker_embedding_size != 0 {
            let n: usize = match cond_size(hidden_size, num_layers) {
                Some(n) => n,
                None => return Err(LoadError::Size),
            };
            Some(
                Conv1d::new(
                    &vb.pp("cond_layer"),
                    config.speaker_embedding_size,
                    n,
                    1,
                    nn::plain_conv_config(),
                )?,
            )
        } else {
            None
        };

        let mut layers: Vec<WaveNetLayer> = Vec::new();
        let mut i: usize = 0;
        while i < num_layers
            invariant
                i <= num_layers,
                layers@.len() == i,
                hidden_size == config.hidden_size,
                VitsWaveNet::failure(*config, num_layers, vb@) == VitsWaveNet::layers_failure(
                    *config,
                    num_layers,
                    vb@,
                    i as nat,
                ),
                forall|k: int|
                    0 <= k < i ==> VitsWaveNet::layer_loaded(
                        #[trigger] layers@[k],
                        *config,
                        num_layers,
                        vb@,
                        k as nat,
                    ),
            decreases num_layers - i,
        {
            if hidden_size > usize::MAX / 2 {
                return Err(LoadError::Size);
            }
            let in_cfg = match power(config.wavenet_dilation_rate, i) {
                Some(dilation) => match kept_length_config(
                    config.wavenet_kernel_size,
                    dilation,
                    1,
                ) {
                    Some(c) => c,
                    None => return Err(LoadError::Size),
                },
                None => return Err(LoadError::Size),
            };
            let in_layer = nn::load_weight_norm_conv1d(
                &vb.item("in_layers", i),
                hidden_size,
                2 * hidden_size,
                config.wavenet_kernel_size,
                in_cfg,
                true,
            )?;
            let res_skip_channels: usize = if i < num_layers - 1 {
                2 * hidden_size
            } else {
                hidden_size
            };
            let res_skip_layer = nn::load_weight_norm_conv1d(
                &vb.item("res_skip_layers", i),
                hidden_size,
                res_skip_channels,
                1,
                nn::plain_conv_config(),
                true,
            )?;
            layers.push(WaveNetLayer { in_layer, res_skip_layer });
            i = i + 1;
        }

        Ok(VitsWaveNet { hidden_size, layers, cond_layer, dropout_p: config.wavenet_dropout })
    }

    /// What layer `i` sees of the conditioning.
    pub open spec fn share(self, i: nat, cond: Option<Term>, like: Term) -> Term {
        match cond {
            Some(c) => if i * (2 * self.hidden_size) <= usize::MAX && 2 * self.hidden_size
                <= usize::MAX {
                c.narrow(
                    1,
                    (i * (2 * self.hidden_size)) as usize,
                    (2 * self.hidden_size) as usize,
                )
            } else {
                Term::undefined()
            },
            None => like.zeros_like(),
        }
    }

    /// What layer `i` makes of its input.
    pub open spec fn split_acts(self, i: nat, x: Term, cond: Option<Term>) -> Term {
        let layer = self.layers@[i as int];
        let hidden = layer.in_layer.output(x);
        let acts = gate(hidden, self.share(i, cond, hidden), self.hidden_size);
        layer.res_skip_layer.output(nn::dropped(acts, self.dropout_p))
    }

    /// The output, from what goes into layer `i` and from the sum of what came out before it.
    pub open spec fn output_from(
        self,
        i: nat,
        x: Term,
        sum: Term,
        mask: Term,
        cond: Option<Term>,
    ) -> Term
        decreases self.layers@.len() - i,
    {
        if i >= self.layers@.len() {
            sum.broadcast_mul(mask)
        } else {
            let acts = self.split_acts(i, x, cond);
            let h = self.hidden_size;
            if i + 1 < self.layers@.len() {
                self.output_from(
                    i + 1,
                    x.add(acts.narrow(1, 0, h)).broadcast_mul(mask),
                    sum.add(acts.narrow(1, h, (acts.shape().spec_dim(1) - h) as usize)),
                    mask,
                    cond,
                )
            } else {
                self.output_from(i + 1, x, sum.add(acts), mask, cond)
            }
        }
    }

    /// What the stack gives.
    #[verifier::opaque]
    pub open spec fn output(self, x: Term, mask: Term, cond: Option<Term>) -> Term {
        match (cond, self.cond_layer) {
            (Some(c), Some(layer)) => if term::typ(layer.output(c)) is Some {
                self.output_from(0, x, x.zeros_like(), mask, Some(layer.output(c)))
            } else {
                Term::undefined()
            },
            _ => self.output_from(0, x, x.zeros_like(), mask, None),
        }
    }

    pub(crate) proof fn lemma_undefined(self, i: nat, x: Term, sum: Term, mask: Term, cond: Option<Term>)
        requires
            term::typ(sum) is None || (term::typ(x) is None && i < self.layers@.len()),
        ensures
            term::typ(self.output_from(i, x, sum, mask, cond)) is None,
        decreases self.layers@.len() - i,
    {
        if i < self.layers@.len() {
            let acts = self.split_acts(i, x, cond);
            let h = self.hidden_size;
            if i + 1 < self.layers@.len() {
                self.lemma_undefined(
                    i + 1,
                    x.add(acts.narrow(1, 0, h)).broadcast_mul(mask),
                    sum.add(acts.narrow(1, h, (acts.shape().spec_dim(1) - h) as usize)),
                    mask,
                    cond,
                );
            } else {
                self.lemma_undefined(i + 1, x, sum.add(acts), mask, cond);
            }
        }
    }

    proof fn lemma_undefined_mask(self, i: nat, x: Term, sum: Term, mask: Term, cond: Option<Term>)
        requires
            term::typ(mask) is None,
        ensures
            term::typ(self.output_from(i, x, sum, mask, cond)) is None,
        decreases self.layers@.len() - i,
    {
        if i < self.layers@.len() {
            let acts = self.split_acts(i, x, cond);
            let h = self.hidden_size;
            if i + 1 < self.layers@.len() {
                self.lemma_undefined_mask(
                    i + 1,
                    x.add(acts.narrow(1, 0, h)).broadcast_mul(mask),
                    sum.add(acts.narrow(1, h, (acts.shape().spec_dim(1) - h) as usize)),
                    mask,
                    cond,
                );
            } else {
                self.lemma_undefined_mask(i + 1, x, sum.add(acts), mask, cond);
            }
        }
    }

    fn layer_share(&self, i: usize, cond: &Option<Tensor>, like: &Tensor) -> (r: Result<
        Tensor,
        TensorError,
    >)
        ensures
            expr::gives(
                r,
                self.share(
                    i as nat,
                    expr::held(*cond),
                    like@,
                ),
            ),
    {
        match cond {
            Some(c) => {
                if self.hidden_size > usize::MAX / 2 {
                    return Err(TensorError::Mismatch);
                }
                match i.checked_mul(2 * self.hidden_size) {
                    Some(offset) => c.narrow(1, offset, 2 * self.hidden_size),
                    None => Err(TensorError::Mismatch),
                }
            },
            None => like.zeros_like(),
        }
    }

    fn layer_acts(&self, i: usize, x: &Tensor, cond: &Option<Tensor>) -> (r: Result<
        Tensor,
        TensorError,
    >)
        requires
            i < self.layers@.len(),
        ensures
            expr::gives(
                r,
                self.split_acts(
                    i as nat,
                    x@,
                    expr::held(*cond),
                ),
            ),
    {
        let hidden_states = self.layers[i].in_layer.forward(x)?;
        let global_states = self.layer_share(i, cond, &hidden_states)?;
        let acts = fused_add_tanh_sigmoid_multiply(
            &hidden_states,
            &global_states,
            self.hidden_size,
        )?;
        let acts = nn::drop_out(acts, self.dropout_p)?;
        self.layers[i].res_skip_layer.forward(&acts)
    }

    /// The stack applied to `inputs`. Where the mask is zero, the output is.
    pub fn forward(
        &self,
        inputs: &Tensor,
        padding_mask: &Tensor,
        global_conditioning: Option<&Tensor>,
    ) -> (r: Result<Tensor, TensorError>)
        ensures
            expr::gives(
                r,
                self.output(inputs@, padding_mask@, expr::viewed(global_conditioning)),
            ),
    {
        proof {
            reveal(VitsWaveNet::output);
        }
        let ghost mask = padding_mask@;
        let mut x = inputs.clone();
        let mut outputs = x.zeros_like()?;

        let cond = match (global_conditioning, &self.cond_layer) {
            (Some(gc), Some(cond_layer)) => Some(cond_layer.forward(gc)?),
            _ => None,
        };
        let ghost c = expr::held(cond);
        let ghost total = self.output_from(0, x@, outputs@, mask, c);

        let n = self.layers.len();
        let mut i: usize = 0;
        while i < n
            invariant
                i <= n,
                n == self.layers@.len(),
                mask == padding_mask@,
                c == expr::held(cond),
                total == self.output_from(i as nat, x@, outputs@, mask, c),
                total == self.output(inputs@, mask, expr::viewed(global_conditioning)),
            decreases n - i,
        {
            let ghost acts = self.split_acts(i as nat, x@, c);
            let ghost h = self.hidden_size;
            let ghost last = i + 1 == n;
            let ghost next_x = x@.add(acts.narrow(1, 0, h)).broadcast_mul(mask);
            let ghost next_sum = if last {
                outputs@.add(acts)
            } else {
                outputs@.add(acts.narrow(1, h, (acts.shape().spec_dim(1) - h) as usize))
            };
            proof {
                if term::typ(next_sum) is None || (!last && term::typ(next_x) is None) {
                    self.lemma_undefined(
                        (i + 1) as nat,
                        if last {
                            x@
                        } else {
                            next_x
                        },
                        next_sum,
                        mask,
                        c,
                    );
                }
            }
            let res_skip_acts = self.layer_acts(i, &x, &cond)?;
            if i < n - 1 {
                let res_acts = res_skip_acts.narrow(1, 0, self.hidden_size)?;
                x = x.add(&res_acts)?.broadcast_mul(padding_mask)?;
                let skip = res_skip_acts.narrow(
                    1,
                    self.hidden_size,
                    res_skip_acts.shape().dim(1) - self.hidden_size,
                )?;
                outputs = outputs.add(&skip)?;
            } else {
                outputs = outputs.add(&res_skip_acts)?;
            }
            i = i + 1;
        }

        outputs.broadcast_mul(padding_mask)
    }
}

/// Twice the product of two numbers, if it is in range.
fn cond_size(hidden_size: usize, num_layers: usize) -> (r: Option<usize>)
    ensures
        match r {
            Some(n) => n == 2 * hidden_size * num_layers,
            None => 2 * hidden_size * num_layers > usize::MAX,
        },
{
    if num_layers == 0 {
        return Some(0);
    }
    match hidden_size.checked_mul(2) {
        Some(d) => d.checked_mul(num_layers),
        None => {
            assert(2 * hidden_size * num_layers > usize::MAX) by (nonlinear_arith)
                requires
                    num_layers > 0,
                    2 * hidden_size > usize::MAX,
            ;
            None
        },
    }
}

/// The output depends on the input and the mask.
pub broadcast proof fn strict_wavenet(net: VitsWaveNet, x: Term, mask: Term, cond: Option<Term>)
    ensures
        (#[trigger] term::typ(net.output(x, mask, cond))) is Some ==> term::typ(x) is Some
            && term::typ(mask) is Some,
{
    reveal(VitsWaveNet::output);
    let c = match (cond, net.cond_layer) {
        (Some(c), Some(layer)) => Some(layer.output(c)),
        _ => None,
    };
    if term::typ(x) is None {
        net.lemma_undefined(0, x, x.zeros_like(), mask, c);
    }
    if term::typ(mask) is None {
        net.lemma_undefined_mask(0, x, x.zeros_like(), mask, c);
    }
}

} // verus!
