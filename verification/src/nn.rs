//! Layers, and the checkpoint that their weights come from.

use vstd::prelude::*;

use crate::tensor::expr;
use crate::tensor::expr::{Tensor, TensorError};
use crate::tensor::scalar::Real;
use crate::tensor::shape::Shape;
use crate::tensor::term;
use crate::tensor::term::Term;
use crate::tensor::typing::{ConvConfig, ConvTransposeConfig, DType};
use crate::text;

verus! {

broadcast use crate::tensor::term::typing_rules;

/// Why a model cannot be built.
#[derive(Clone, Copy, PartialEq, Eq, Structural, Debug)]
pub enum LoadError {
    /// The checkpoint has no tensor of a name and shape that the model needs.
    Checkpoint,
    /// The configuration asks for sizes that cannot be computed with.
    Size,
    /// The hidden size is not a multiple of the number of attention heads.
    Heads,
    /// The configuration asks for a duration predictor that is not stochastic.
    DurationPredictor,
    /// The configuration is for more than one speaker.
    Speakers,
}

/// The first of two reasons, if there is one.
pub open spec fn either(a: Option<LoadError>, b: Option<LoadError>) -> Option<LoadError> {
    if a is Some {
        a
    } else {
        b
    }
}

/// The reason that there is where the checkpoint does not hold what is needed.
pub open spec fn missing(held: bool) -> Option<LoadError> {
    if held {
        None
    } else {
        Some(LoadError::Checkpoint)
    }
}

/// The reason that there is where a size is out of range.
pub open spec fn oversize(in_range: bool) -> Option<LoadError> {
    if in_range {
        None
    } else {
        Some(LoadError::Size)
    }
}

/// The names and shapes of the tensors that a checkpoint holds.
#[derive(Debug)]
pub struct Checkpoint {
    pub entries: Vec<(String, Shape)>,
}

impl View for Checkpoint {
    type V = Seq<(Seq<char>, Shape)>;

    open spec fn view(&self) -> Seq<(Seq<char>, Shape)> {
        self.entries@.map_values(|e: (String, Shape)| (e.0@, e.1))
    }
}

/// The position and the shape of the first tensor called `name`, from a position on.
pub open spec fn lookup(entries: Seq<(Seq<char>, Shape)>, name: Seq<char>, from: int) -> Option<
    (int, Shape),
>
    decreases entries.len() - from,
{
    if from < 0 || from >= entries.len() {
        None
    } else if entries[from].0 == name {
        Some((from, entries[from].1))
    } else {
        lookup(entries, name, from + 1)
    }
}

/// A part of a checkpoint: for every name the position and the shape of the tensor that it stands
/// for there.
#[verifier::ext_equal]
pub struct ScopeView {
    pub find: spec_fn(Seq<char>) -> Option<(int, Shape)>,
}

/// The whole of a checkpoint.
pub open spec fn whole(entries: Seq<(Seq<char>, Shape)>) -> ScopeView {
    ScopeView { find: |name: Seq<char>| lookup(entries, name, 0) }
}

impl ScopeView {
    /// The part called `name`: the tensors whose names begin with it and a dot.
    pub open spec fn pp(self, name: Seq<char>) -> ScopeView {
        ScopeView { find: |inner: Seq<char>| (self.find)(name + "."@ + inner) }
    }

    /// The part number `i` of the list called `name`.
    pub open spec fn item(self, name: Seq<char>, i: nat) -> ScopeView {
        self.pp(name + "."@ + text::digits(i))
    }

    /// Whether there is a tensor called `name`.
    pub open spec fn contains(self, name: Seq<char>) -> bool {
        (self.find)(name) is Some
    }

    /// Whether there is a tensor called `name`, and it has the given shape.
    pub open spec fn has(self, name: Seq<char>, shape: Shape) -> bool {
        match (self.find)(name) {
            Some((_, found)) => found == shape && shape.spec_fits(),
            None => false,
        }
    }

    /// The tensor called `name`.
    pub open spec fn tensor(self, name: Seq<char>, shape: Shape) -> Term {
        Term::param(((self.find)(name)->0).0 as usize, shape)
    }
}

/// A part of a checkpoint: the tensors whose names have a beginning in common.
pub struct Scope<'a> {
    checkpoint: &'a Checkpoint,
    prefix: String,
}

impl<'a> View for Scope<'a> {
    type V = ScopeView;

    closed spec fn view(&self) -> ScopeView {
        ScopeView {
            find: |name: Seq<char>| lookup(self.checkpoint@, self.prefix@ + name, 0),
        }
    }
}

impl<'a> Scope<'a> {
    /// The whole of a checkpoint.
    pub fn root(checkpoint: &'a Checkpoint) -> (r: Scope<'a>)
        ensures
            r@ == whole(checkpoint@),
    {
        let r = Scope { checkpoint, prefix: String::new() };
        proof {
            assert forall|name: Seq<char>|
                #[trigger] (r@.find)(name) == (whole(checkpoint@).find)(name) by {
                assert(r.prefix@ + name =~= name);
            }
            assert(r@.find =~= whole(checkpoint@).find);
        }
        r
    }

    /// The part called `name`.
    pub fn pp(&self, name: &str) -> (r: Scope<'a>)
        ensures
            r@ == self@.pp(name@),
    {
        let prefix = text::join(text::join(self.prefix.as_str(), name).as_str(), ".");
        let r = Scope { checkpoint: self.checkpoint, prefix };
        proof {
            assert forall|inner: Seq<char>|
                #[trigger] (r@.find)(inner) == (self@.pp(name@).find)(inner) by {
                assert(r.prefix@ + inner =~= self.prefix@ + (name@ + "."@ + inner));
            }
            assert(r@.find =~= self@.pp(name@).find);
        }
        r
    }

    /// The part number `i` of the list called `name`.
    pub fn item(&self, name: &str, i: usize) -> (r: Scope<'a>)
        ensures
            r@ == self@.item(name@, i as nat),
    {
        let member = text::join(text::join(name, ".").as_str(), text::decimal(i).as_str());
        self.pp(member.as_str())
    }

    fn position(&self, name: &str) -> (r: Option<usize>)
        ensures
            match r {
                Some(i) => i < self.checkpoint@.len() && (self@.find)(name@) == Some(
                    (i as int, self.checkpoint@[i as int].1),
                ),
                None => (self@.find)(name@) is None,
            },
    {
        let full = text::join(self.prefix.as_str(), name);
        let n = self.checkpoint.entries.len();
        let mut i: usize = 0;
        while i < n
            invariant
                i <= n,
                n == self.checkpoint.entries.len(),
                full@ == self.prefix@ + name@,
                lookup(self.checkpoint@, full@, 0) == lookup(self.checkpoint@, full@, i as int),
            decreases n - i,
        {
            if self.checkpoint.entries[i].0 == full {
                return Some(i);
            }
            i = i + 1;
        }
        None
    }

    /// Whether there is a tensor called `name`.
    pub fn contains_tensor(&self, name: &str) -> (r: bool)
        ensures
            r == self@.contains(name@),
    {
        self.position(name).is_some()
    }

    /// The tensor called `name`, if it has the given shape.
    pub fn get(&self, shape: Shape, name: &str) -> (r: Result<Tensor, LoadError>)
        ensures
            match r {
                Ok(t) => self@.has(name@, shape) && t@ == self@.tensor(name@, shape),
                Err(e) => !self@.has(name@, shape) && e == LoadError::Checkpoint,
            },
    {
        match self.position(name) {
            Some(i) => if self.checkpoint.entries[i].1 == shape {
                match Tensor::param(i, shape) {
                    Ok(t) => Ok(t),
                    Err(_) => Err(LoadError::Checkpoint),
                }
            } else {
                Err(LoadError::Checkpoint)
            },
            None => Err(LoadError::Checkpoint),
        }
    }
}

/// A tensor under dropout, where the rate is greater than zero.
pub open spec fn dropped(x: Term, rate: Real) -> Term {
    if rate.spec_is_positive() {
        x.dropout(rate)
    } else {
        x
    }
}

/// A tensor under dropout, where the rate is greater than zero.
pub fn drop_out(x: Tensor, rate: Real) -> (r: Result<Tensor, TensorError>)
    ensures
        expr::gives(r, dropped(x@, rate)),
{
    let _ = x.ty();
    if rate.is_positive() {
        x.dropout(rate)
    } else {
        Ok(x)
    }
}

/// An affine map of the last dimension.
#[derive(Debug)]
pub struct Linear {
    pub weight: Tensor,
    pub bias: Option<Tensor>,
}

impl Linear {
    /// Whether the checkpoint holds the weights of such a layer.
    pub open spec fn loadable(vb: ScopeView, inner: usize, outer: usize, bias: bool) -> bool {
        &&& vb.has("weight"@, Shape::S2(outer, inner))
        &&& bias ==> vb.has("bias"@, Shape::S1(outer))
    }

    /// Whether this is the layer whose weights the checkpoint holds.
    pub open spec fn loaded(
        self,
        vb: ScopeView,
        inner: usize,
        outer: usize,
        bias: bool,
    ) -> bool {
        &&& self.weight@ == vb.tensor("weight"@, Shape::S2(outer, inner))
        &&& match self.bias {
            Some(b) => bias && b@ == vb.tensor("bias"@, Shape::S1(outer)),
            None => !bias,
        }
    }

    /// The layer, with or without a bias.
    pub fn new(vb: &Scope, inner: usize, outer: usize, bias: bool) -> (r: Result<Linear, LoadError>)
        ensures
            match r {
                Ok(l) => Linear::loadable(vb@, inner, outer, bias) && l.loaded(
                    vb@,
                    inner,
                    outer,
                    bias,
                ),
                Err(e) => !Linear::loadable(vb@, inner, outer, bias) && e == LoadError::Checkpoint,
            },
    {
        let weight = vb.get(Shape::S2(outer, inner), "weight")?;
        let bias = if bias {
            Some(vb.get(Shape::S1(outer), "bias")?)
        } else {
            None
        };
        Ok(Linear { weight, bias })
    }

    /// What the layer gives.
    pub open spec fn output(self, x: Term) -> Term {
        match self.bias {
            Some(b) => x.linear(self.weight@).broadcast_add(b@),
            None => x.linear(self.weight@),
        }
    }

    /// The layer applied to a tensor.
    pub fn forward(&self, x: &Tensor) -> (r: Result<Tensor, TensorError>)
        ensures
            expr::gives(r, self.output(x@)),
    {
        let y = x.linear(&self.weight)?;
        match &self.bias {
            Some(b) => y.broadcast_add(b),
            None => Ok(y),
        }
    }
}

/// A bias for every channel of a tensor whose dimension 1 holds the channels.
pub open spec fn per_channel(bias: Term) -> Term {
    bias.reshape(Shape::S3(1, bias.shape().spec_dim(0), 1))
}

fn spread_bias(bias: &Tensor) -> (r: Result<Tensor, TensorError>)
    ensures
        expr::gives(r, per_channel(bias@)),
{
    bias.reshape(Shape::S3(1, bias.shape().dim(0), 1))
}

/// A one-dimensional convolution.
#[derive(Debug)]
pub struct Conv1d {
    pub weight: Tensor,
    pub bias: Option<Tensor>,
    pub config: ConvConfig,
}

/// A kernel that moves one place at a time over a line without padding.
pub open spec fn plain_conv() -> ConvConfig {
    ConvConfig { padding: 0, stride: 1, dilation: 1, groups: 1 }
}

/// A convolution without padding, stride, dilation or groups.
pub fn plain_conv_config() -> (r: ConvConfig)
    ensures
        r == plain_conv(),
{
    ConvConfig { padding: 0, stride: 1, dilation: 1, groups: 1 }
}

impl Conv1d {
    /// Whether the checkpoint holds kernel and bias of such a convolution.
    pub open spec fn loadable(vb: ScopeView, inner: usize, outer: usize, kernel: usize) -> bool {
        &&& vb.has("weight"@, Shape::S3(outer, inner, kernel))
        &&& vb.has("bias"@, Shape::S1(outer))
    }

    /// Whether this is the convolution whose kernel and bias the checkpoint holds.
    pub open spec fn loaded(
        self,
        vb: ScopeView,
        inner: usize,
        outer: usize,
        kernel: usize,
        config: ConvConfig,
    ) -> bool {
        &&& self.weight@ == vb.tensor("weight"@, Shape::S3(outer, inner, kernel))
        &&& self.bias is Some
        &&& self.bias->0@ == vb.tensor("bias"@, Shape::S1(outer))
        &&& self.config == config
    }

    /// A convolution of one group, with a bias.
    pub fn new(
        vb: &Scope,
        inner: usize,
        outer: usize,
        kernel: usize,
        config: ConvConfig,
    ) -> (r: Result<Conv1d, LoadError>)
        ensures
            match r {
                Ok(c) => Conv1d::loadable(vb@, inner, outer, kernel) && c.loaded(
                    vb@,
                    inner,
                    outer,
                    kernel,
                    config,
                ),
                Err(e) => !Conv1d::loadable(vb@, inner, outer, kernel) && e
                    == LoadError::Checkpoint,
            },
    {
        let weight = vb.get(Shape::S3(outer, inner, kernel), "weight")?;
        let bias = vb.get(Shape::S1(outer), "bias")?;
        Ok(Conv1d { weight, bias: Some(bias), config })
    }

    /// What the layer gives.
    pub open spec fn output(self, x: Term) -> Term {
        let y = x.conv1d(self.weight@, self.config);
        match self.bias {
            Some(b) => y.broadcast_add(per_channel(b@)),
            None => y,
        }
    }

    /// The layer applied to a tensor.
    pub fn forward(&self, x: &Tensor) -> (r: Result<Tensor, TensorError>)
        ensures
            expr::gives(r, self.output(x@)),
    {
        let y = x.conv1d(&self.weight, self.config)?;
        match &self.bias {
            Some(b) => y.broadcast_add(&spread_bias(b)?),
            None => Ok(y),
        }
    }
}

/// A convolution takes and gives tensors of three dimensions.
pub proof fn lemma_conv_type(conv: Conv1d, x: Term)
    requires
        term::typ(conv.output(x)) is Some,
    ensures
        term::typ(x) is Some,
        x.shape() is S3,
        x.dtype() == DType::F32,
        conv.output(x).dtype() == DType::F32,
        conv.output(x).shape() is S3,
{
}

/// A one-dimensional transposed convolution.
#[derive(Debug)]
pub struct ConvTranspose1d {
    pub weight: Tensor,
    pub bias: Tensor,
    pub config: ConvTransposeConfig,
}

impl ConvTranspose1d {
    /// What the layer gives.
    pub open spec fn output(self, x: Term) -> Term {
        x.conv_transpose1d(self.weight@, self.config).broadcast_add(per_channel(self.bias@))
    }

    /// The layer applied to a tensor.
    pub fn forward(&self, x: &Tensor) -> (r: Result<Tensor, TensorError>)
        ensures
            expr::gives(r, self.output(x@)),
    {
        x.conv_transpose1d(&self.weight, self.config)?.broadcast_add(&spread_bias(&self.bias)?)
    }
}

/// Normalization over the last dimension.
#[derive(Debug)]
pub struct LayerNorm {
    pub weight: Tensor,
    pub bias: Tensor,
    pub eps: Real,
}

impl LayerNorm {
    /// Whether the checkpoint holds the weights of such a layer.
    pub open spec fn loadable(vb: ScopeView, size: usize) -> bool {
        vb.has("weight"@, Shape::S1(size)) && vb.has("bias"@, Shape::S1(size))
    }

    /// Whether this is the layer whose weights the checkpoint holds.
    pub open spec fn loaded(self, vb: ScopeView, size: usize, eps: Real) -> bool {
        &&& self.weight@ == vb.tensor("weight"@, Shape::S1(size))
        &&& self.bias@ == vb.tensor("bias"@, Shape::S1(size))
        &&& self.eps == eps
    }

    /// The layer.
    pub fn new(vb: &Scope, size: usize, eps: Real) -> (r: Result<LayerNorm, LoadError>)
        ensures
            match r {
                Ok(l) => LayerNorm::loadable(vb@, size) && l.loaded(vb@, size, eps),
                Err(e) => !LayerNorm::loadable(vb@, size) && e == LoadError::Checkpoint,
            },
    {
        let weight = vb.get(Shape::S1(size), "weight")?;
        let bias = vb.get(Shape::S1(size), "bias")?;
        Ok(LayerNorm { weight, bias, eps })
    }

    /// What the layer gives.
    pub open spec fn output(self, x: Term) -> Term {
        x.layer_norm(self.weight@, self.bias@, self.eps)
    }

    /// The layer applied to a tensor.
    pub fn forward(&self, x: &Tensor) -> (r: Result<Tensor, TensorError>)
        ensures
            expr::gives(r, self.output(x@)),
    {
        x.layer_norm(&self.weight, &self.bias, self.eps)
    }
}

/// A row of numbers for every token.
#[derive(Debug)]
pub struct Embedding {
    pub table: Tensor,
}

impl Embedding {
    /// The layer.
    pub fn new(vb: &Scope, tokens: usize, size: usize) -> (r: Result<Embedding, LoadError>)
        ensures
            match r {
                Ok(e) => vb@.has("weight"@, Shape::S2(tokens, size)) && e.table@ == vb@.tensor(
                    "weight"@,
                    Shape::S2(tokens, size),
                ),
                Err(e) => !vb@.has("weight"@, Shape::S2(tokens, size)) && e
                    == LoadError::Checkpoint,
            },
    {
        Ok(Embedding { table: vb.get(Shape::S2(tokens, size), "weight")? })
    }

    /// What the layer gives.
    pub open spec fn output(self, ids: Term) -> Term {
        self.table@.embedding(ids)
    }

    /// The layer applied to a tensor.
    pub fn forward(&self, ids: &Tensor) -> (r: Result<Tensor, TensorError>)
        ensures
            expr::gives(r, self.output(ids@)),
    {
        self.table.embedding(ids)
    }
}

/// The kernel that weight normalization stores as a direction for each row and its length: the
/// direction over its own length, times the length.
pub open spec fn normalized_kernel(length: Term, direction: Term) -> Term {
    direction.broadcast_div(direction.sqr().sum_inner(true).sqrt()).broadcast_mul(length)
}

/// Whether a part of the checkpoint names lengths and directions in the older of the two ways.
pub open spec fn names_by_suffix(vb: ScopeView) -> bool {
    vb.contains("weight_g"@) && vb.contains("weight_v"@)
}

/// What the lengths of the directions are called.
pub open spec fn length_name(vb: ScopeView) -> Seq<char> {
    if names_by_suffix(vb) {
        "weight_g"@
    } else {
        "parametrizations.weight.original0"@
    }
}

/// What the directions of the weights are called.
pub open spec fn direction_name(vb: ScopeView) -> Seq<char> {
    if names_by_suffix(vb) {
        "weight_v"@
    } else {
        "parametrizations.weight.original1"@
    }
}

/// Whether the checkpoint holds lengths and directions of a kernel with the given dimensions.
pub open spec fn normalized_loadable(vb: ScopeView, rows: usize, columns: usize, kernel: usize) -> bool {
    &&& vb.has(length_name(vb), Shape::S3(rows, 1, 1))
    &&& vb.has(direction_name(vb), Shape::S3(rows, columns, kernel))
}

/// The kernel that the checkpoint holds under weight normalization.
pub open spec fn normalized_weight(
    vb: ScopeView,
    rows: usize,
    columns: usize,
    kernel: usize,
) -> Term {
    normalized_kernel(
        vb.tensor(length_name(vb), Shape::S3(rows, 1, 1)),
        vb.tensor(direction_name(vb), Shape::S3(rows, columns, kernel)),
    )
}

fn load_normalized_weight(vb: &Scope, rows: usize, columns: usize, kernel: usize) -> (r: Result<
    Tensor,
    LoadError,
>)
    ensures
        match r {
            Ok(t) => normalized_loadable(vb@, rows, columns, kernel) && t@ == normalized_weight(
                vb@,
                rows,
                columns,
                kernel,
            ),
            Err(e) => !normalized_loadable(vb@, rows, columns, kernel) && e
                == LoadError::Checkpoint,
        },
{
    let shape = Shape::S3(rows, columns, kernel);
    let (g, v) = if vb.contains_tensor("weight_g") && vb.contains_tensor("weight_v") {
        (vb.get(Shape::S3(rows, 1, 1), "weight_g")?, vb.get(shape, "weight_v")?)
    } else {
        (
            vb.get(Shape::S3(rows, 1, 1), "parametrizations.weight.original0")?,
            vb.get(shape, "parametrizations.weight.original1")?,
        )
    };
    match normalize(&g, &v) {
        Ok(w) => Ok(w),
        Err(_) => Err(LoadError::Checkpoint),
    }
}

fn normalize(g: &Tensor, v: &Tensor) -> (r: Result<Tensor, TensorError>)
    ensures
        expr::gives(r, normalized_kernel(g@, v@)),
{
    let norm = v.sqr()?.sum_inner(true)?.sqrt()?;
    v.broadcast_div(&norm)?.broadcast_mul(g)
}

/// A convolution whose kernel the checkpoint holds under weight normalization, with or without a
/// bias.
pub fn load_weight_norm_conv1d(
    vb: &Scope,
    in_channels: usize,
    out_channels: usize,
    kernel_size: usize,
    config: ConvConfig,
    bias: bool,
) -> (r: Result<Conv1d, LoadError>)
    ensures
        match r {
            Ok(c) => weight_norm_conv1d_loadable(
                vb@,
                in_channels,
                out_channels,
                kernel_size,
                bias,
            ) && weight_norm_conv1d_loaded(
                c,
                vb@,
                in_channels,
                out_channels,
                kernel_size,
                config,
                bias,
            ),
            Err(e) => !weight_norm_conv1d_loadable(
                vb@,
                in_channels,
                out_channels,
                kernel_size,
                bias,
            ) && e == LoadError::Checkpoint,
        },
{
    let weight = load_normalized_weight(vb, out_channels, in_channels, kernel_size)?;
    let bias = if bias {
        Some(vb.get(Shape::S1(out_channels), "bias")?)
    } else {
        None
    };
    Ok(Conv1d { weight, bias, config })
}

/// Whether the checkpoint holds the weights of such a convolution.
pub open spec fn weight_norm_conv1d_loadable(
    vb: ScopeView,
    in_channels: usize,
    out_channels: usize,
    kernel_size: usize,
    bias: bool,
) -> bool {
    &&& normalized_loadable(vb, out_channels, in_channels, kernel_size)
    &&& bias ==> vb.has("bias"@, Shape::S1(out_channels))
}

/// Whether this is the convolution whose weights the checkpoint holds.
pub open spec fn weight_norm_conv1d_loaded(
    c: Conv1d,
    vb: ScopeView,
    in_channels: usize,
    out_channels: usize,
    kernel_size: usize,
    config: ConvConfig,
    bias: bool,
) -> bool {
    &&& c.weight@ == normalized_weight(vb, out_channels, in_channels, kernel_size)
    &&& match c.bias {
        Some(b) => bias && b@ == vb.tensor("bias"@, Shape::S1(out_channels)),
        None => !bias,
    }
    &&& c.config == config
}

/// A transposed convolution whose kernel the checkpoint holds under weight normalization.
pub fn load_weight_norm_conv_transpose1d(
    vb: &Scope,
    in_channels: usize,
    out_channels: usize,
    kernel_size: usize,
    config: ConvTransposeConfig,
) -> (r: Result<ConvTranspose1d, LoadError>)
    ensures
        match r {
            Ok(c) => weight_norm_conv_transpose1d_loadable(
                vb@,
                in_channels,
                out_channels,
                kernel_size,
            ) && weight_norm_conv_transpose1d_loaded(
                c,
                vb@,
                in_channels,
                out_channels,
                kernel_size,
                config,
            ),
            Err(e) => !weight_norm_conv_transpose1d_loadable(
                vb@,
                in_channels,
                out_channels,
                kernel_size,
            ) && e == LoadError::Checkpoint,
        },
{
    let weight = load_normalized_weight(vb, in_channels, out_channels, kernel_size)?;
    let bias = vb.get(Shape::S1(out_channels), "bias")?;
    Ok(ConvTranspose1d { weight, bias, config })
}

/// Whether the checkpoint holds the weights of such a convolution.
pub open spec fn weight_norm_conv_transpose1d_loadable(
    vb: ScopeView,
    in_channels: usize,
    out_channels: usize,
    kernel_size: usize,
) -> bool {
    &&& normalized_loadable(vb, in_channels, out_channels, kernel_size)
    &&& vb.has("bias"@, Shape::S1(out_channels))
}

/// Whether this is the convolution whose weights the checkpoint holds.
pub open spec fn weight_norm_conv_transpose1d_loaded(
    c: ConvTranspose1d,
    vb: ScopeView,
    in_channels: usize,
    out_channels: usize,
    kernel_size: usize,
    config: ConvTransposeConfig,
) -> bool {
    &&& c.weight@ == normalized_weight(vb, in_channels, out_channels, kernel_size)
    &&& c.bias@ == vb.tensor("bias"@, Shape::S1(out_channels))
    &&& c.config == config
}

/// Names of parts and of tensors are joined by dots, and numbers of list items are decimal; of the
/// tensors with the joined name the first counts.
pub proof fn lemma_full_names(
    entries: Seq<(Seq<char>, Shape)>,
    part: Seq<char>,
    i: nat,
    name: Seq<char>,
)
    ensures
        ({
            let full = part + "."@ + name;
            match (whole(entries).pp(part).find)(name) {
                Some((k, shape)) => 0 <= k < entries.len() && entries[k] == (full, shape)
                    && forall|l: int| 0 <= l < k ==> (#[trigger] entries[l]).0 != full,
                None => forall|l: int|
                    0 <= l < entries.len() ==> (#[trigger] entries[l]).0 != full,
            }
        }),
        (whole(entries).item(part, i).find)(name) == (whole(entries).find)(
            part + "."@ + text::digits(i) + "."@ + name,
        ),
{
    lemma_lookup(entries, part + "."@ + name, 0);
}

proof fn lemma_lookup(entries: Seq<(Seq<char>, Shape)>, name: Seq<char>, from: int)
    requires
        0 <= from,
    ensures
        match lookup(entries, name, from) {
            Some((k, shape)) => from <= k < entries.len() && entries[k] == (name, shape)
                && forall|l: int| from <= l < k ==> (#[trigger] entries[l]).0 != name,
            None => forall|l: int| from <= l < entries.len() ==> (#[trigger] entries[l]).0 != name,
        },
    decreases entries.len() - from,
{
    if from < entries.len() && entries[from].0 != name {
        lemma_lookup(entries, name, from + 1);
    }
}

} // verus!
