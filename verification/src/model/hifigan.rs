//! The decoder from latent frames to sound.

use vstd::prelude::*;

use crate::config::VitsConfig;
use crate::model::wavenet;
use crate::nn;
use crate::nn::{Conv1d, ConvTranspose1d, LoadError, Scope, ScopeView};
use crate::tensor::expr;
use crate::tensor::expr::{Tensor, TensorError};
use crate::tensor::scalar::{Real, Scalar};
use crate::tensor::shape::Shape;
use crate::tensor::term;
use crate::tensor::term::Term;
use crate::tensor::typing::{ConvConfig, ConvTransposeConfig};

verus! {

broadcast use crate::tensor::term::strictness;

/// The pattern of 0.01.
pub const HUNDREDTH_BITS: u64 = 0x3F84_7AE1_47AE_147B;

/// The positive elements, and the negative ones times a slope.
pub open spec fn leaky(x: Term, slope: Real) -> Term {
    x.maximum(x.zeros_like()).add(x.minimum(x.zeros_like()).scale(Scalar::Value(slope)))
}

/// The positive elements, and the negative ones times a slope.
pub fn leaky_relu(x: &Tensor, slope: Real) -> (r: Result<Tensor, TensorError>)
    ensures
        expr::gives(r, leaky(x@, slope)),
{
    let zeros = x.zeros_like()?;
    let pos = x.maximum(&zeros)?;
    let neg = x.minimum(&zeros)?;
    pos.add(&neg.scale(Scalar::Value(slope))?)
}

/// Two convolutions, of which the first is dilated.
#[derive(Debug)]
pub struct ConvPair {
    pub conv1: Conv1d,
    pub conv2: Conv1d,
}

/// Pairs of convolutions, each added to its input.
#[derive(Debug)]
pub struct HifiGanResidualBlock {
    pub convs: Vec<ConvPair>,
    pub leaky_relu_slope: Real,
}

impl HifiGanResidualBlock {
    /// Why the pairs from number `i` on cannot be built, if so.
    pub open spec fn failure_from(
        channels: usize,
        kernel_size: usize,
        dilation: Seq<usize>,
        vb: ScopeView,
        i: nat,
    ) -> Option<LoadError>
        decreases dilation.len() - i,
    {
        if i >= dilation.len() {
            None
        } else {
            nn::either(
                nn::oversize(
                    wavenet::kept_length_in_range(kernel_size, dilation[i as int] as int)
                        && wavenet::kept_length_in_range(kernel_size, 1),
                ),
                nn::either(
                    nn::missing(
                        nn::weight_norm_conv1d_loadable(
                            vb.item("convs1"@, i),
                            channels,
                            channels,
                            kernel_size,
                            true,
                        ) && nn::weight_norm_conv1d_loadable(
                            vb.item("convs2"@, i),
                            channels,
                            channels,
                            kernel_size,
                            true,
                        ),
                    ),
                    HifiGanResidualBlock::failure_from(channels, kernel_size, dilation, vb, i + 1),
                ),
            )
        }
    }

    /// Why the block cannot be built, if so.
    pub open spec fn failure(
        channels: usize,
        kernel_size: usize,
        dilation: Seq<usize>,
        vb: ScopeView,
    ) -> Option<LoadError> {
        HifiGanResidualBlock::failure_from(channels, kernel_size, dilation, vb, 0)
    }

    /// Whether a pair is the one that the checkpoint holds as number `i`.
    pub open spec fn pair_loaded(
        pair: ConvPair,
        channels: usize,
        kernel_size: usize,
        dilation: usize,
        vb: ScopeView,
        i: nat,
    ) -> bool {
        &&& nn::weight_norm_conv1d_loaded(
            pair.conv1,
            vb.item("convs1"@, i),
            channels,
            channels,
            kernel_size,
            wavenet::kept_length(kernel_size, dilation as int, 1),
            true,
        )
        &&& nn::weight_norm_conv1d_loaded(
            pair.conv2,
            vb.item("convs2"@, i),
            channels,
            channels,
            kernel_size,
            wavenet::kept_length(kernel_size, 1, 1),
            true,
        )
    }

    /// Whether this is the block that the checkpoint holds.
    pub open spec fn loaded(
        self,
        channels: usize,
        kernel_size: usize,
        dilation: Seq<usize>,
        slope: Real,
        vb: ScopeView,
    ) -> bool {
        &&& self.leaky_relu_slope == slope
        &&& self.convs@.len() == dilation.len()
        &&& forall|i: int|
            0 <= i < self.convs@.len() ==> HifiGanResidualBlock::pair_loaded(
                #[trigger] self.convs@[i],
                channels,
                kernel_size,
                dilation[i],
                vb,
                i as nat,
            )
    }

    /// The block with one pair for every dilation.
    pub fn new(
        channels: usize,
        kernel_size: usize,
        dilation: &Vec<usize>,
        leaky_relu_slope: Real,
        vb: &Scope,
    ) -> (r: Result<HifiGanResidualBlock, LoadError>)
        ensures
            match r {
                Ok(m) => HifiGanResidualBlock::failure(
                    channels,
                    kernel_size,
                    dilation@,
                    vb@,
                ) is None && m.loaded(channels, kernel_size, dilation@, leaky_relu_slope, vb@),
                Err(e) => HifiGanResidualBlock::failure(channels, kernel_size, dilation@, vb@)
                    == Some(e),
            },
    {
        let mut convs: Vec<ConvPair> = Vec::new();
        let mut i: usize = 0;
        while i < dilation.len()
            invariant
                i <= dilation@.len(),
                convs@.len() == i,
                HifiGanResidualBlock::failure(channels, kernel_size, dilation@, vb@)
                    == HifiGanResidualBlock::failure_from(
                    channels,
                    kernel_size,
                    dilation@,
                    vb@,
                    i as nat,
                ),
                forall|k: int|
                    0 <= k < i ==> HifiGanResidualBlock::pair_loaded(
                        #[trigger] convs@[k],
                        channels,
                        kernel_size,
                        dilation@[k],
                        vb@,
                        k as nat,
                    ),
            decreases dilation@.len() - i,
        {
            let cfg1 = match wavenet::kept_length_config(kernel_size, dilation[i], 1) {
                Some(c) => c,
                None => return Err(LoadError::Size),
            };
            let cfg2 = match wavenet::kept_length_config(kernel_size, 1, 1) {
                Some(c) => c,
                None => return Err(LoadError::Size),
            };
            let conv1 = nn::load_weight_norm_conv1d(
                &vb.item("convs1", i),
                channels,
                channels,
                kernel_size,
                cfg1,
                true,
            )?;
            let conv2 = nn::load_weight_norm_conv1d(
                &vb.item("convs2", i),
                channels,
                channels,
                kernel_size,
                cfg2,
                true,
            )?;
            convs.push(ConvPair { conv1, conv2 });
            i = i + 1;
        }
        Ok(HifiGanResidualBlock { convs, leaky_relu_slope })
    }

    /// One pair of convolutions, added to its input.
    pub open spec fn step(self, i: nat, x: Term) -> Term {
        let pair = self.convs@[i as int];
        let inner = pair.conv1.output(leaky(x, self.leaky_relu_slope));
        pair.conv2.output(leaky(inner, self.leaky_relu_slope)).add(x)
    }

    /// The pairs from number `i` on.
    pub open spec fn output_from(self, i: nat, x: Term) -> Term
        decreases self.convs@.len() - i,
    {
        if i >= self.convs@.len() {
            x
        } else {
            self.output_from(i + 1, self.step(i, x))
        }
    }

    /// What the block gives.
    #[verifier::opaque]
    pub open spec fn output(self, x: Term) -> Term {
        self.output_from(0, x)
    }

    proof fn lemma_undefined(self, i: nat, x: Term)
        requires
            term::typ(x) is None,
        ensures
            term::typ(self.output_from(i, x)) is None,
        decreases self.convs@.len() - i,
    {
        if i < self.convs@.len() {
            self.lemma_undefined(i + 1, self.step(i, x));
        }
    }

    /// The block applied to `hidden_states`.
    pub fn forward(&self, hidden_states: &Tensor) -> (r: Result<Tensor, TensorError>)
        ensures
            expr::gives(r, self.output(hidden_states@)),
    {
        let mut x = hidden_states.clone();
        let _ = x.ty();
        proof {
            reveal(HifiGanResidualBlock::output);
        }
        let mut i: usize = 0;
        while i < self.convs.len()
            invariant
                i <= self.convs@.len(),
                term::typ(x@) is Some,
                self.output(hidden_states@) == self.output_from(i as nat, x@),
            decreases self.convs@.len() - i,
        {
            proof {
                if term::typ(self.step(i as nat, x@)) is None {
                    self.lemma_undefined((i + 1) as nat, self.step(i as nat, x@));
                }
            }
            let y = leaky_relu(&x, self.leaky_relu_slope)?;
            let y = self.convs[i].conv1.forward(&y)?;
            let y = leaky_relu(&y, self.leaky_relu_slope)?;
            let y = self.convs[i].conv2.forward(&y)?;
            x = y.add(&x)?;
            i = i + 1;
        }
        Ok(x)
    }
}

/// The output depends on the input.
pub broadcast proof fn strict_block(block: HifiGanResidualBlock, x: Term)
    ensures
        (#[trigger] term::typ(block.output(x))) is Some ==> term::typ(x) is Some,
{
    reveal(HifiGanResidualBlock::output);
    if term::typ(x) is None {
        block.lemma_undefined(0, x);
    }
}

/// The smaller of two lengths.
pub open spec fn shorter(a: nat, b: nat) -> nat {
    if a <= b {
        a
    } else {
        b
    }
}

/// Transposed convolutions that stretch the line of frames, each followed by the mean of several
/// residual blocks.
#[derive(Debug)]
pub struct VitsHifiGan {
    pub num_kernels: usize,
    pub num_upsamples: usize,
    pub conv_pre: Conv1d,
    pub upsampler: Vec<ConvTranspose1d>,
    pub resblocks: Vec<Vec<HifiGanResidualBlock>>,
    pub conv_post: Conv1d,
    pub cond: Option<Conv1d>,
    pub leaky_relu_slope: Real,
}

/// A kernel of seven places that keeps the length of a line.
pub open spec fn outer_conv() -> ConvConfig {
    ConvConfig { padding: 3, stride: 1, dilation: 1, groups: 1 }
}

fn outer_conv_config() -> (r: ConvConfig)
    ensures
        r == outer_conv(),
{
    ConvConfig { padding: 3, stride: 1, dilation: 1, groups: 1 }
}

impl VitsHifiGan {
    /// The number of channels after `i` stages, each of which halves it.
    pub open spec fn channels(config: VitsConfig, i: nat) -> usize {
        (config.upsample_initial_channel as int / vstd::arithmetic::power::pow(2, i)) as usize
    }

    /// Whether the number of channels after `i` stages can be computed.
    pub open spec fn halvable(i: nat) -> bool {
        vstd::arithmetic::power::pow(2, i) <= usize::MAX
    }

    /// The number of transposed convolutions.
    pub open spec fn up_count(config: VitsConfig) -> nat {
        shorter(config.upsample_rates@.len(), config.upsample_kernel_sizes@.len())
    }

    /// The number of residual blocks in a stage.
    pub open spec fn block_count(config: VitsConfig) -> nat {
        shorter(config.resblock_kernel_sizes@.len(), config.resblock_dilation_sizes@.len())
    }

    /// How the kernel of stage `i` is moved.
    pub open spec fn up_config(config: VitsConfig, i: nat) -> ConvTransposeConfig {
        let rate = config.upsample_rates@[i as int];
        let kernel = config.upsample_kernel_sizes@[i as int];
        ConvTransposeConfig {
            padding: ((kernel - rate) / 2) as usize,
            output_padding: 0,
            stride: rate,
            dilation: 1,
        }
    }

    /// Why the transposed convolutions from number `i` on cannot be built, if so.
    pub open spec fn ups_failure(config: VitsConfig, vb: ScopeView, i: nat) -> Option<LoadError>
        decreases VitsHifiGan::up_count(config) - i,
    {
        if i >= VitsHifiGan::up_count(config) {
            None
        } else {
            nn::either(
                nn::oversize(
                    VitsHifiGan::halvable(i) && VitsHifiGan::halvable(i + 1)
                        && config.upsample_rates@[i as int]
                        <= config.upsample_kernel_sizes@[i as int],
                ),
                nn::either(
                    nn::missing(
                        nn::weight_norm_conv_transpose1d_loadable(
                            vb.item("upsampler"@, i),
                            VitsHifiGan::channels(config, i),
                            VitsHifiGan::channels(config, i + 1),
                            config.upsample_kernel_sizes@[i as int],
                        ),
                    ),
                    VitsHifiGan::ups_failure(config, vb, i + 1),
                ),
            )
        }
    }

    /// The number under which the checkpoint holds block `j` of stage `i`.
    pub open spec fn block_number(config: VitsConfig, i: nat, j: nat) -> nat {
        i * config.resblock_kernel_sizes@.len() + j
    }

    /// Why the blocks of stage `i` from number `j` on cannot be built, if so.
    pub open spec fn blocks_failure(config: VitsConfig, vb: ScopeView, i: nat, j: nat) -> Option<
        LoadError,
    >
        decreases VitsHifiGan::block_count(config) - j,
    {
        if j >= VitsHifiGan::block_count(config) {
            None
        } else {
            nn::either(
                nn::oversize(VitsHifiGan::block_number(config, i, j) <= usize::MAX),
                nn::either(
                    HifiGanResidualBlock::failure(
                        VitsHifiGan::channels(config, i + 1),
                        config.resblock_kernel_sizes@[j as int],
                        config.resblock_dilation_sizes@[j as int]@,
                        vb.item("resblocks"@, VitsHifiGan::block_number(config, i, j)),
                    ),
                    VitsHifiGan::blocks_failure(config, vb, i, j + 1),
                ),
            )
        }
    }

    /// Why the blocks from stage `i` on cannot be built, if so.
    pub open spec fn stages_failure(config: VitsConfig, vb: ScopeView, i: nat) -> Option<LoadError>
        decreases config.upsample_rates@.len() - i,
    {
        if i >= config.upsample_rates@.len() {
            None
        } else {
            nn::either(
                nn::oversize(VitsHifiGan::halvable(i + 1)),
                nn::either(
                    VitsHifiGan::blocks_failure(config, vb, i, 0),
                    VitsHifiGan::stages_failure(config, vb, i + 1),
                ),
            )
        }
    }

    /// The shape of the last kernel, which mixes what is left of the channels into sound.
    pub open spec fn post_shape(config: VitsConfig) -> Shape {
        Shape::S3(1, VitsHifiGan::channels(config, config.upsample_rates@.len()), 7)
    }

    /// Why the decoder cannot be built, if so.
    pub open spec fn failure(config: VitsConfig, vb: ScopeView) -> Option<LoadError> {
        nn::either(
            nn::missing(
                Conv1d::loadable(
                    vb.pp("conv_pre"@),
                    config.flow_size,
                    config.upsample_initial_channel,
                    7,
                ),
            ),
            nn::either(
                VitsHifiGan::ups_failure(config, vb, 0),
                nn::either(
                    VitsHifiGan::stages_failure(config, vb, 0),
                    nn::missing(
                        vb.pp("conv_post"@).has("weight"@, VitsHifiGan::post_shape(config)) && (
                        config.speaker_embedding_size == 0 || Conv1d::loadable(
                            vb.pp("cond"@),
                            config.speaker_embedding_size,
                            config.upsample_initial_channel,
                            1,
                        )),
                    ),
                ),
            ),
        )
    }

    /// Whether these are the blocks that the checkpoint holds for stage `i`.
    pub open spec fn stage_loaded(
        blocks: Seq<HifiGanResidualBlock>,
        config: VitsConfig,
        vb: ScopeView,
        i: nat,
    ) -> bool {
        &&& blocks.len() == VitsHifiGan::block_count(config)
        &&& VitsHifiGan::blocks_loaded(blocks, config, vb, i)
    }

    /// Whether these are the first blocks that the checkpoint holds for stage `i`.
    pub open spec fn blocks_loaded(
        blocks: Seq<HifiGanResidualBlock>,
        config: VitsConfig,
        vb: ScopeView,
        i: nat,
    ) -> bool {
        forall|j: int|
            0 <= j < blocks.len() ==> (#[trigger] blocks[j]).loaded(
                VitsHifiGan::channels(config, i + 1),
                config.resblock_kernel_sizes@[j],
                config.resblock_dilation_sizes@[j]@,
                config.leaky_relu_slope,
                vb.item("resblocks"@, VitsHifiGan::block_number(config, i, j as nat)),
            )
    }

    /// Whether a transposed convolution is the one that the checkpoint holds as number `i`.
    pub open spec fn up_loaded(up: ConvTranspose1d, config: VitsConfig, vb: ScopeView, i: nat) -> bool {
        nn::weight_norm_conv_transpose1d_loaded(
            up,
            vb.item("upsampler"@, i),
            VitsHifiGan::channels(config, i),
            VitsHifiGan::channels(config, i + 1),
            config.upsample_kernel_sizes@[i as int],
            VitsHifiGan::up_config(config, i),
        )
    }

    /// Whether this is the decoder that the checkpoint holds.
    pub open spec fn loaded(self, config: VitsConfig, vb: ScopeView) -> bool {
        &&& self.num_kernels == config.resblock_kernel_sizes@.len()
        &&& self.num_upsamples == config.upsample_rates@.len()
        &&& self.leaky_relu_slope == config.leaky_relu_slope
        &&& self.conv_pre.loaded(
            vb.pp("conv_pre"@),
            config.flow_size,
            config.upsample_initial_channel,
            7,
            outer_conv(),
        )
        &&& self.upsampler@.len() == VitsHifiGan::up_count(config)
        &&& forall|i: int|
            0 <= i < self.upsampler@.len() ==> VitsHifiGan::up_loaded(
                #[trigger] self.upsampler@[i],
                config,
                vb,
                i as nat,
            )
        &&& self.resblocks@.len() == config.upsample_rates@.len()
        &&& forall|i: int|
            0 <= i < self.resblocks@.len() ==> VitsHifiGan::stage_loaded(
                (#[trigger] self.resblocks@[i])@,
                config,
                vb,
                i as nat,
            )
        &&& self.conv_post.weight@ == vb.pp("conv_post"@).tensor(
            "weight"@,
            VitsHifiGan::post_shape(config),
        )
        &&& self.conv_post.bias is None
        &&& self.conv_post.config == outer_conv()
        &&& match self.cond {
            Some(c) => config.speaker_embedding_size != 0 && c.loaded(
                vb.pp("cond"@),
                config.speaker_embedding_size,
                config.upsample_initial_channel,
                1,
                nn::plain_conv(),
            ),
            None => config.speaker_embedding_size == 0,
        }
    }

    fn load_upsampler(config: &VitsConfig, vb: &Scope) -> (r: Result<
        Vec<ConvTranspose1d>,
        LoadError,
    >)
        ensures
            match r {
                Ok(ups) => {
                    &&& VitsHifiGan::ups_failure(*config, vb@, 0) is None
                    &&& ups@.len() == VitsHifiGan::up_count(*config)
                    &&& forall|i: int|
                        0 <= i < ups@.len() ==> VitsHifiGan::up_loaded(
                            #[trigger] ups@[i],
                            *config,
                            vb@,
                            i as nat,
                        )
                },
                Err(e) => VitsHifiGan::ups_failure(*config, vb@, 0) == Some(e),
            },
    {
        let mut upsampler: Vec<ConvTranspose1d> = Vec::new();
        let mut i: usize = 0;
        while i < config.upsample_rates.len() && i < config.upsample_kernel_sizes.len()
            invariant
                i <= VitsHifiGan::up_count(*config),
                upsampler@.len() == i,
                VitsHifiGan::ups_failure(*config, vb@, 0) == VitsHifiGan::ups_failure(
                    *config,
                    vb@,
                    i as nat,
                ),
                forall|k: int|
                    0 <= k < i ==> VitsHifiGan::up_loaded(
                        #[trigger] upsampler@[k],
                        *config,
                        vb@,
                        k as nat,
                    ),
            decreases VitsHifiGan::up_count(*config) - i,
        {
            let upsample_rate = config.upsample_rates[i];
            let kernel_size = config.upsample_kernel_sizes[i];
            let (in_ch, out_ch): (usize, usize) = match (
                halved(config.upsample_initial_channel, i),
                halved(config.upsample_initial_channel, i + 1),
            ) {
                (Some(a), Some(b)) => (a, b),
                _ => return Err(LoadError::Size),
            };
            if kernel_size < upsample_rate {
                return Err(LoadError::Size);
            }
            let cfg = ConvTransposeConfig {
                padding: (kernel_size - upsample_rate) / 2,
                output_padding: 0,
                stride: upsample_rate,
                dilation: 1,
            };
            upsampler.push(
                nn::load_weight_norm_conv_transpose1d(
                    &vb.item("upsampler", i),
                    in_ch,
                    out_ch,
                    kernel_size,
                    cfg,
                )?,
            );
            i = i + 1;
        }
        Ok(upsampler)
    }

    fn load_stage(config: &VitsConfig, vb: &Scope, i: usize, channels: usize) -> (r: Result<
        Vec<HifiGanResidualBlock>,
        LoadError,
    >)
        requires
            channels == VitsHifiGan::channels(*config, (i + 1) as nat),
        ensures
            match r {
                Ok(blocks) => {
                    &&& VitsHifiGan::blocks_failure(*config, vb@, i as nat, 0) is None
                    &&& VitsHifiGan::stage_loaded(blocks@, *config, vb@, i as nat)
                },
                Err(e) => VitsHifiGan::blocks_failure(*config, vb@, i as nat, 0) == Some(e),
            },
    {
        let num_kernels = config.resblock_kernel_sizes.len();
        let mut blocks: Vec<HifiGanResidualBlock> = Vec::new();
        let mut j: usize = 0;
        while j < config.resblock_kernel_sizes.len() && j < config.resblock_dilation_sizes.len()
            invariant
                j <= VitsHifiGan::block_count(*config),
                num_kernels == config.resblock_kernel_sizes@.len(),
                blocks@.len() == j,
                channels == VitsHifiGan::channels(*config, (i + 1) as nat),
                VitsHifiGan::blocks_failure(*config, vb@, i as nat, 0)
                    == VitsHifiGan::blocks_failure(*config, vb@, i as nat, j as nat),
                VitsHifiGan::blocks_loaded(blocks@, *config, vb@, i as nat),
            decreases VitsHifiGan::block_count(*config) - j,
        {
            let idx: usize = match i.checked_mul(num_kernels) {
                Some(n) => match n.checked_add(j) {
                    Some(m) => m,
                    None => return Err(LoadError::Size),
                },
                None => return Err(LoadError::Size),
            };
            blocks.push(
                HifiGanResidualBlock::new(
                    channels,
                    config.resblock_kernel_sizes[j],
                    &config.resblock_dilation_sizes[j],
                    config.leaky_relu_slope,
                    &vb.item("resblocks", idx),
                )?,
            );
            j = j + 1;
        }
        Ok(blocks)
    }

    fn load_stages(config: &VitsConfig, vb: &Scope) -> (r: Result<
        Vec<Vec<HifiGanResidualBlock>>,
        LoadError,
    >)
        ensures
            match r {
                Ok(stages) => {
                    &&& VitsHifiGan::stages_failure(*config, vb@, 0) is None
                    &&& stages@.len() == config.upsample_rates@.len()
                    &&& forall|i: int|
                        0 <= i < stages@.len() ==> VitsHifiGan::stage_loaded(
                            (#[trigger] stages@[i])@,
                            *config,
                            vb@,
                            i as nat,
                        )
                    &&& VitsHifiGan::halvable(config.upsample_rates@.len())
                },
                Err(e) => VitsHifiGan::stages_failure(*config, vb@, 0) == Some(e),
            },
    {
        let mut stages: Vec<Vec<HifiGanResidualBlock>> = Vec::new();
        let mut i: usize = 0;
        proof {
            vstd::arithmetic::power::lemma_pow0(2);
        }
        while i < config.upsample_rates.len()
            invariant
                i <= config.upsample_rates@.len(),
                stages@.len() == i,
                VitsHifiGan::halvable(i as nat),
                VitsHifiGan::stages_failure(*config, vb@, 0) == VitsHifiGan::stages_failure(
                    *config,
                    vb@,
                    i as nat,
                ),
                forall|k: int|
                    0 <= k < i ==> VitsHifiGan::stage_loaded(
                        (#[trigger] stages@[k])@,
                        *config,
                        vb@,
                        k as nat,
                    ),
            decreases config.upsample_rates@.len() - i,
        {
            let channels: usize = match halved(config.upsample_initial_channel, i + 1) {
                Some(n) => n,
                None => return Err(LoadError::Size),
            };
            stages.push(VitsHifiGan::load_stage(config, vb, i, channels)?);
            i = i + 1;
        }
        Ok(stages)
    }

    /// The decoder for a configuration.
    pub fn new(config: &VitsConfig, vb: &Scope) -> (r: Result<VitsHifiGan, LoadError>)
        ensures
            match r {
                Ok(m) => VitsHifiGan::failure(*config, vb@) is None && m.loaded(*config, vb@),
                Err(e) => VitsHifiGan::failure(*config, vb@) == Some(e),
            },
    {
        let num_kernels = config.resblock_kernel_sizes.len();
        let num_upsamples = config.upsample_rates.len();

        let conv_pre = Conv1d::new(
            &vb.pp("conv_pre"),
            config.flow_size,
            config.upsample_initial_channel,
            7,
            outer_conv_config(),
        )?;
        let upsampler = VitsHifiGan::load_upsampler(config, vb)?;
        let resblocks = VitsHifiGan::load_stages(config, vb)?;

        let last_channels: usize = match halved(config.upsample_initial_channel, num_upsamples) {
            Some(n) => n,
            None => return Err(LoadError::Size),
        };
        let weight = vb.pp("conv_post").get(Shape::S3(1, last_channels, 7), "weight")?;
        let conv_post = Conv1d { weight, bias: None, config: outer_conv_config() };

        let cond = if config.speaker_embedding_size != 0 {
            Some(
                Conv1d::new(
                    &vb.pp("cond"),
                    config.speaker_embedding_size,
                    config.upsample_initial_channel,
                    1,
                    nn::plain_conv_config(),
                )?,
            )
        } else {
            None
        };

        Ok(
            VitsHifiGan {
                num_kernels,
                num_upsamples,
                conv_pre,
                upsampler,
                resblocks,
                conv_post,
                cond,
                leaky_relu_slope: config.leaky_relu_slope,
            },
        )
    }
}

impl VitsHifiGan {
    /// Whether stage `i` has its transposed convolution and as many blocks as there are kernels,
    /// of which there is one at least.
    pub open spec fn stage_complete(self, i: nat) -> bool {
        &&& i < self.upsampler@.len()
        &&& i < self.resblocks@.len()
        &&& self.resblocks@[i as int]@.len() == self.num_kernels
        &&& self.num_kernels > 0
    }

    /// A sum, with the outputs of the blocks of stage `i` from number `j` on added to it.
    pub open spec fn sum_from(self, i: nat, j: nat, sum: Term, x: Term) -> Term
        decreases self.resblocks@[i as int]@.len() - j,
    {
        if j >= self.resblocks@[i as int]@.len() {
            sum
        } else {
            self.sum_from(i, j + 1, sum.add(self.resblocks@[i as int]@[j as int].output(x)), x)
        }
    }

    /// The mean of the outputs of the blocks of stage `i`.
    pub open spec fn blocks_mean(self, i: nat, x: Term) -> Term {
        self.sum_from(i, 1, self.resblocks@[i as int]@[0].output(x), x).scale(
            Scalar::OverCount(self.num_kernels),
        )
    }

    /// What stage `i` makes of its input.
    pub open spec fn stage(self, i: nat, x: Term) -> Term {
        if self.stage_complete(i) {
            self.blocks_mean(
                i,
                self.upsampler@[i as int].output(leaky(x, self.leaky_relu_slope)),
            )
        } else {
            Term::undefined()
        }
    }

    /// The stages from number `i` on.
    pub open spec fn output_from(self, i: nat, x: Term) -> Term
        decreases self.num_upsamples - i,
    {
        if i >= self.num_upsamples {
            self.conv_post.output(leaky(x, Real { bits: HUNDREDTH_BITS })).tanh()
        } else {
            self.output_from(i + 1, self.stage(i, x))
        }
    }

    /// What goes into the first stage.
    pub open spec fn first(self, x: Term, cond: Option<Term>) -> Term {
        match (cond, self.cond) {
            (Some(gc), Some(c)) => self.conv_pre.output(x).add(c.output(gc)),
            _ => self.conv_pre.output(x),
        }
    }

    /// The sound for latent frames.
    #[verifier::opaque]
    pub open spec fn output(self, x: Term, cond: Option<Term>) -> Term {
        self.output_from(0, self.first(x, cond))
    }

    proof fn lemma_undefined_sum(self, i: nat, j: nat, sum: Term, x: Term)
        requires
            term::typ(sum) is None,
        ensures
            term::typ(self.sum_from(i, j, sum, x)) is None,
        decreases self.resblocks@[i as int]@.len() - j,
    {
        if j < self.resblocks@[i as int]@.len() {
            self.lemma_undefined_sum(
                i,
                j + 1,
                sum.add(self.resblocks@[i as int]@[j as int].output(x)),
                x,
            );
        }
    }

    proof fn lemma_undefined_stage(self, i: nat, x: Term)
        requires
            term::typ(x) is None,
        ensures
            term::typ(self.stage(i, x)) is None,
    {
        broadcast use strict_block;

        if self.stage_complete(i) {
            let up = self.upsampler@[i as int].output(leaky(x, self.leaky_relu_slope));
            self.lemma_undefined_sum(i, 1, self.resblocks@[i as int]@[0].output(up), up);
        }
    }

    /// Without an input, a stage has no output.
    pub proof fn lemma_undefined(self, i: nat, x: Term)
        requires
            term::typ(x) is None,
        ensures
            term::typ(self.output_from(i, x)) is None,
        decreases self.num_upsamples - i,
    {
        if i < self.num_upsamples {
            self.lemma_undefined_stage(i, x);
            self.lemma_undefined(i + 1, self.stage(i, x));
        }
    }

    fn mean_of_blocks(&self, i: usize, x: &Tensor) -> (r: Result<Tensor, TensorError>)
        requires
            self.stage_complete(i as nat),
        ensures
            expr::gives(r, self.blocks_mean(i as nat, x@)),
    {
        broadcast use strict_block;

        let blocks = &self.resblocks[i];
        let ghost start = blocks@[0].output(x@);
        proof {
            if term::typ(start) is None {
                self.lemma_undefined_sum(i as nat, 1, start, x@);
            }
        }
        let mut res_state = blocks[0].forward(x)?;
        let mut j: usize = 1;
        while j < blocks.len()
            invariant
                1 <= j <= blocks@.len(),
                i < self.resblocks@.len(),
                *blocks == self.resblocks@[i as int],
                self.blocks_mean(i as nat, x@) == self.sum_from(
                    i as nat,
                    j as nat,
                    res_state@,
                    x@,
                ).scale(Scalar::OverCount(self.num_kernels)),
            decreases blocks@.len() - j,
        {
            proof {
                let next = res_state@.add(blocks@[j as int].output(x@));
                if term::typ(next) is None {
                    self.lemma_undefined_sum(i as nat, (j + 1) as nat, next, x@);
                }
            }
            res_state = res_state.add(&blocks[j].forward(x)?)?;
            j = j + 1;
        }
        res_state.scale(Scalar::OverCount(self.num_kernels))
    }

    fn run_stage(&self, i: usize, x: &Tensor) -> (r: Result<Tensor, TensorError>)
        ensures
            expr::gives(r, self.stage(i as nat, x@)),
    {
        if i >= self.upsampler.len() || i >= self.resblocks.len() || self.resblocks[i].len()
            != self.num_kernels || self.num_kernels == 0 {
            return Err(TensorError::Mismatch);
        }
        proof {
            let up = self.upsampler@[i as int].output(leaky(x@, self.leaky_relu_slope));
            if term::typ(up) is None {
                broadcast use strict_block;

                self.lemma_undefined_sum(
                    i as nat,
                    1,
                    self.resblocks@[i as int]@[0].output(up),
                    up,
                );
            }
        }
        let y = leaky_relu(x, self.leaky_relu_slope)?;
        let y = self.upsampler[i].forward(&y)?;
        self.mean_of_blocks(i, &y)
    }

    fn start(&self, spectrogram: &Tensor, global_conditioning: Option<&Tensor>) -> (r: Result<
        Tensor,
        TensorError,
    >)
        ensures
            expr::gives(r, self.first(spectrogram@, expr::viewed(global_conditioning))),
    {
        let x = self.conv_pre.forward(spectrogram)?;
        match (global_conditioning, &self.cond) {
            (Some(gc), Some(cond)) => x.add(&cond.forward(gc)?),
            _ => Ok(x),
        }
    }

    /// The sound, of shape batch, 1, samples, for latent frames, of shape batch, flow size, frames.
    pub fn forward(&self, spectrogram: &Tensor, global_conditioning: Option<&Tensor>) -> (r: Result<
        Tensor,
        TensorError,
    >)
        ensures
            expr::gives(r, self.output(spectrogram@, expr::viewed(global_conditioning))),
    {
        let ghost total = self.output(spectrogram@, expr::viewed(global_conditioning));
        proof {
            reveal(VitsHifiGan::output);
            let first = self.first(spectrogram@, expr::viewed(global_conditioning));
            if term::typ(first) is None {
                self.lemma_undefined(0, first);
            }
        }
        let mut x = self.start(spectrogram, global_conditioning)?;
        let mut i: usize = 0;
        while i < self.num_upsamples
            invariant
                i <= self.num_upsamples,
                total == self.output_from(i as nat, x@),
                total == self.output(spectrogram@, expr::viewed(global_conditioning)),
            decreases self.num_upsamples - i,
        {
            proof {
                let next = self.stage(i as nat, x@);
                if term::typ(next) is None {
                    self.lemma_undefined((i + 1) as nat, next);
                }
            }
            x = self.run_stage(i, &x)?;
            i = i + 1;
        }

        let x = leaky_relu(&x, Real { bits: HUNDREDTH_BITS })?;
        let x = self.conv_post.forward(&x)?;
        x.tanh()
    }
}

/// The output depends on the input.
pub broadcast proof fn strict_decoder(decoder: VitsHifiGan, x: Term, cond: Option<Term>)
    ensures
        (#[trigger] term::typ(decoder.output(x, cond))) is Some ==> term::typ(x) is Some,
{
    reveal(VitsHifiGan::output);
    if term::typ(x) is None {
        decoder.lemma_undefined(0, decoder.first(x, cond));
    }
}

/// A number divided by a power of two, if that power is in range.
fn halved(n: usize, times: usize) -> (r: Option<usize>)
    ensures
        match r {
            Some(m) => VitsHifiGan::halvable(times as nat) && m == n as int
                / vstd::arithmetic::power::pow(2, times as nat),
            None => !VitsHifiGan::halvable(times as nat),
        },
{
    match wavenet::power(2, times) {
        Some(p) => {
            proof {
                vstd::arithmetic::power::lemma_pow_positive(2, times as nat);
            }
            Some(n / p)
        },
        None => None,
    }
}

} // verus!
