//! Attention with several heads and relative positions.

use vstd::prelude::*;

use crate::config::VitsConfig;
use crate::nn;
use crate::nn::{Linear, LoadError, Scope, ScopeView};
use crate::tensor::expr;
use crate::tensor::expr::{Tensor, TensorError};
use crate::tensor::scalar::Scalar;
use crate::tensor::shape::Shape;
use crate::tensor::term;
use crate::tensor::term::Term;

verus! {

broadcast use crate::tensor::term::typing_rules;

/// Attention over a sequence, in which a query also looks at how far a key is away, up to
/// `window_size` places.
#[derive(Debug)]
pub struct VitsAttention {
    pub embed_dim: usize,
    pub num_heads: usize,
    pub head_dim: usize,
    pub window_size: usize,
    pub k_proj: Linear,
    pub v_proj: Linear,
    pub q_proj: Linear,
    pub out_proj: Linear,
    pub emb_rel_k: Tensor,
    pub emb_rel_v: Tensor,
}

impl VitsAttention {
    /// Whether the hidden size can be divided among the heads.
    pub open spec fn divides(config: VitsConfig) -> bool {
        config.num_attention_heads > 0 && config.hidden_size % config.num_attention_heads == 0
    }

    /// The shape of a table of relative positions.
    pub open spec fn table_shape(config: VitsConfig) -> Shape {
        Shape::S3(
            1,
            (2 * config.window_size + 1) as usize,
            (config.hidden_size / config.num_attention_heads) as usize,
        )
    }

    /// Whether the checkpoint holds the weights of such a layer.
    pub open spec fn held(config: VitsConfig, vb: ScopeView) -> bool {
        let d = config.hidden_size;
        &&& Linear::loadable(vb.pp("k_proj"@), d, d, config.use_bias)
        &&& Linear::loadable(vb.pp("v_proj"@), d, d, config.use_bias)
        &&& Linear::loadable(vb.pp("q_proj"@), d, d, config.use_bias)
        &&& Linear::loadable(vb.pp("out_proj"@), d, d, config.use_bias)
        &&& vb.has("emb_rel_k"@, VitsAttention::table_shape(config))
        &&& vb.has("emb_rel_v"@, VitsAttention::table_shape(config))
    }

    /// Why the layer cannot be built, if so.
    pub open spec fn failure(config: VitsConfig, vb: ScopeView) -> Option<LoadError> {
        if !VitsAttention::divides(config) {
            Some(LoadError::Heads)
        } else {
            nn::either(
                nn::oversize(2 * config.window_size + 1 <= usize::MAX),
                nn::missing(VitsAttention::held(config, vb)),
            )
        }
    }

    /// Whether this is the layer whose weights the checkpoint holds.
    pub open spec fn loaded(self, config: VitsConfig, vb: ScopeView) -> bool {
        let d = config.hidden_size;
        &&& self.embed_dim == d
        &&& self.num_heads == config.num_attention_heads
        &&& self.head_dim == d / config.num_attention_heads
        &&& self.window_size == config.window_size
        &&& self.k_proj.loaded(vb.pp("k_proj"@), d, d, config.use_bias)
        &&& self.v_proj.loaded(vb.pp("v_proj"@), d, d, config.use_bias)
        &&& self.q_proj.loaded(vb.pp("q_proj"@), d, d, config.use_bias)
        &&& self.out_proj.loaded(vb.pp("out_proj"@), d, d, config.use_bias)
        &&& self.emb_rel_k@ == vb.tensor("emb_rel_k"@, VitsAttention::table_shape(config))
        &&& self.emb_rel_v@ == vb.tensor("emb_rel_v"@, VitsAttention::table_shape(config))
    }

    /// The layer for a configuration. The hidden size has to be a multiple of the number of heads.
    pub fn new(config: &VitsConfig, vb: &Scope) -> (r: Result<VitsAttention, LoadError>)
        ensures
            match r {
                Ok(m) => VitsAttention::failure(*config, vb@) is None && m.loaded(*config, vb@),
                Err(e) => VitsAttention::failure(*config, vb@) == Some(e),
            },
    {
        let embed_dim = config.hidden_size;
        let num_heads = config.num_attention_heads;
        let window_size = config.window_size;
        if num_heads == 0 || embed_dim % num_heads != 0 {
            return Err(LoadError::Heads);
        }
        let head_dim: usize = embed_dim / num_heads;
        if window_size > (usize::MAX - 1) / 2 {
            return Err(LoadError::Size);
        }
        let k_proj = Linear::new(&vb.pp("k_proj"), embed_dim, embed_dim, config.use_bias)?;
        let v_proj = Linear::new(&vb.pp("v_proj"), embed_dim, embed_dim, config.use_bias)?;
        let q_proj = Linear::new(&vb.pp("q_proj"), embed_dim, embed_dim, config.use_bias)?;
        let out_proj = Linear::new(&vb.pp("out_proj"), embed_dim, embed_dim, config.use_bias)?;

        let emb_rel_k = vb.get(Shape::S3(1, window_size * 2 + 1, head_dim), "emb_rel_k")?;
        let emb_rel_v = vb.get(Shape::S3(1, window_size * 2 + 1, head_dim), "emb_rel_v")?;

        Ok(
            VitsAttention {
                embed_dim,
                num_heads,
                head_dim,
                window_size,
                k_proj,
                v_proj,
                q_proj,
                out_proj,
                emb_rel_k,
                emb_rel_v,
            },
        )
    }

    /// A stack of sequences, with the heads moved in front of the places.
    pub open spec fn by_head(self, x: Term, seq_len: usize, bsz: usize) -> Term {
        x.reshape(Shape::S4(bsz, seq_len, self.num_heads, self.head_dim)).transpose(
            1,
            2,
        ).contiguous()
    }

    /// A stack of sequences, with the heads moved in front of the places.
    pub fn shape(&self, tensor: &Tensor, seq_len: usize, bsz: usize) -> (r: Result<
        Tensor,
        TensorError,
    >)
        ensures
            expr::gives(r, self.by_head(tensor@, seq_len, bsz)),
    {
        tensor.reshape(Shape::S4(bsz, seq_len, self.num_heads, self.head_dim))?.transpose(
            1,
            2,
        )?.contiguous()
    }

    /// The scores of all pairs of a query and a key, from their contents and from their distance.
    pub open spec fn scores(self, query: Term, key: Term, proj_bsz: usize, len: usize) -> Term {
        let table = self.relative_embeddings(self.emb_rel_k@, len);
        let spread = table.expand(Shape::S3(proj_bsz, table.shape().spec_dim(1), self.head_dim));
        let relative = query.matmul(spread.transpose(1, 2));
        query.matmul(key.transpose(1, 2)).add(relative_to_absolute(relative))
    }

    /// The scores with a mask added, turned into weights that sum to one.
    pub open spec fn weights(
        self,
        scores: Term,
        mask: Option<Term>,
        bsz: usize,
        proj_bsz: usize,
        len: usize,
    ) -> Term {
        match mask {
            Some(m) => scores.reshape(Shape::S4(bsz, self.num_heads, len, len)).broadcast_add(
                m,
            ).reshape(Shape::S3(proj_bsz, len, len)).softmax(),
            None => scores.softmax(),
        }
    }

    /// The values under the weights, and the positions under the weights.
    pub open spec fn mix(self, weights: Term, value: Term, proj_bsz: usize, len: usize) -> Term {
        let table = self.relative_embeddings(self.emb_rel_v@, len);
        let spread = table.expand(Shape::S3(proj_bsz, table.shape().spec_dim(1), self.head_dim));
        weights.matmul(value).add(absolute_to_relative(weights).matmul(spread))
    }

    /// The heads put side by side again and projected.
    pub open spec fn gathered(self, x: Term, bsz: usize, len: usize) -> Term {
        self.out_proj.output(
            x.reshape(Shape::S4(bsz, self.num_heads, len, self.head_dim)).transpose(1, 2).reshape(
                Shape::S3(bsz, len, self.embed_dim),
            ).contiguous(),
        )
    }

    /// What attention gives for the values at every place.
    #[verifier::opaque]
    pub open spec fn output(self, x: Term, mask: Option<Term>) -> Term {
        match x.shape() {
            Shape::S3(bsz, len, _) => if bsz * self.num_heads <= usize::MAX {
                let proj_bsz = (bsz * self.num_heads) as usize;
                let flat = Shape::S3(proj_bsz, len, self.head_dim);
                let query = self.by_head(
                    self.q_proj.output(x).scale(Scalar::InverseSqrt(self.head_dim)),
                    len,
                    bsz,
                ).reshape(flat);
                let key = self.by_head(self.k_proj.output(x), len, bsz).reshape(flat);
                let value = self.by_head(self.v_proj.output(x), len, bsz).reshape(flat);
                let weights = self.weights(
                    self.scores(query, key, proj_bsz, len),
                    mask,
                    bsz,
                    proj_bsz,
                    len,
                );
                self.gathered(self.mix(weights, value, proj_bsz, len), bsz, len)
            } else {
                Term::undefined()
            },
            _ => Term::undefined(),
        }
    }

    /// Attention over `hidden_states`, of shape batch, length, hidden size. The mask, if there is
    /// one, has the shape batch, 1, length, length; it is added to the scores.
    pub fn forward(&self, hidden_states: &Tensor, attention_mask: Option<&Tensor>) -> (r: Result<
        Tensor,
        TensorError,
    >)
        ensures
            expr::gives(r, self.output(hidden_states@, expr::viewed(attention_mask))),
    {
        proof {
            reveal(VitsAttention::output);
        }
        let (bsz, tgt_len, _) = hidden_states.dims3()?;

        let query_states = self.q_proj.forward(hidden_states)?.scale(
            Scalar::InverseSqrt(self.head_dim),
        )?;

        let key_states = self.shape(&self.k_proj.forward(hidden_states)?, tgt_len, bsz)?;
        let value_states = self.shape(&self.v_proj.forward(hidden_states)?, tgt_len, bsz)?;

        let proj_bsz: usize = match bsz.checked_mul(self.num_heads) {
            Some(n) => n,
            None => return Err(TensorError::Mismatch),
        };
        let flat = Shape::S3(proj_bsz, tgt_len, self.head_dim);
        let query_states = self.shape(&query_states, tgt_len, bsz)?.reshape(flat)?;
        let key_states = key_states.reshape(flat)?;
        let value_states = value_states.reshape(flat)?;

        let attn_weights = query_states.matmul(&key_states.transpose(1, 2)?)?;

        let key_relative_embeddings = self.get_relative_embeddings(&self.emb_rel_k, tgt_len)?;
        let key_relative_embeddings = key_relative_embeddings.expand(
            Shape::S3(proj_bsz, key_relative_embeddings.shape().dim(1), self.head_dim),
        )?;
        let relative_logits = query_states.matmul(&key_relative_embeddings.transpose(1, 2)?)?;
        let rel_pos_bias = relative_position_to_absolute_position(&relative_logits)?;
        let attn_weights = attn_weights.add(&rel_pos_bias)?;
        assert(attn_weights@ == self.scores(query_states@, key_states@, proj_bsz, tgt_len));

        let attn_weights = match attention_mask {
            Some(mask) => attn_weights.reshape(
                Shape::S4(bsz, self.num_heads, tgt_len, tgt_len),
            )?.broadcast_add(mask)?.reshape(Shape::S3(proj_bsz, tgt_len, tgt_len))?,
            None => attn_weights,
        };

        let attn_probs = attn_weights.softmax()?;

        let attn_output = attn_probs.matmul(&value_states)?;

        let value_relative_embeddings = self.get_relative_embeddings(&self.emb_rel_v, tgt_len)?;
        let relative_weights = absolute_position_to_relative_position(&attn_probs)?;
        let value_relative_embeddings = value_relative_embeddings.expand(
            Shape::S3(proj_bsz, value_relative_embeddings.shape().dim(1), self.head_dim),
        )?;
        let rel_pos_bias_v = relative_weights.matmul(&value_relative_embeddings)?;
        let attn_output = attn_output.add(&rel_pos_bias_v)?;

        let attn_output = attn_output.reshape(
            Shape::S4(bsz, self.num_heads, tgt_len, self.head_dim),
        )?.transpose(1, 2)?.reshape(Shape::S3(bsz, tgt_len, self.embed_dim))?.contiguous()?;

        self.out_proj.forward(&attn_output)
    }

    /// The rows of a table of relative positions for the distances that occur in a sequence: from
    /// one less than its length before a place to one less than its length behind it, with zeros
    /// for distances beyond the window.
    pub open spec fn relative_embeddings(self, table: Term, length: usize) -> Term {
        if length == 0 || 2 * length - 1 > usize::MAX || self.window_size == usize::MAX {
            Term::undefined()
        } else if length > self.window_size + 1 {
            let pad = (length - (self.window_size + 1)) as usize;
            pad_middle(table, pad, pad).narrow(1, 0, (2 * length - 1) as usize)
        } else {
            table.narrow(
                1,
                (self.window_size + 1 - length) as usize,
                (2 * length - 1) as usize,
            )
        }
    }

    /// The rows of a table of relative positions for the distances that occur in a sequence.
    pub fn get_relative_embeddings(&self, relative_embeddings: &Tensor, length: usize) -> (r:
        Result<Tensor, TensorError>)
        ensures
            expr::gives(r, self.relative_embeddings(relative_embeddings@, length)),
    {
        let window = self.window_size;
        if length == 0 || length - 1 > usize::MAX / 2 || window == usize::MAX {
            return Err(TensorError::Mismatch);
        }
        let pad_length: usize = length.saturating_sub(window + 1);
        let padded = if pad_length > 0 {
            pad_dim1(relative_embeddings, pad_length, pad_length)?
        } else {
            relative_embeddings.clone()
        };

        let slice_start: usize = (window + 1).saturating_sub(length);
        let slice_len: usize = (length - 1) * 2 + 1;
        padded.narrow(1, slice_start, slice_len)
    }
}

/// The output depends on the input and the mask.
pub broadcast proof fn strict_attention(attention: VitsAttention, x: Term, mask: Option<Term>)
    ensures
        (#[trigger] term::typ(attention.output(x, mask))) is Some ==> term::typ(x) is Some && (
        mask is Some ==> term::typ(mask->0) is Some),
{
    reveal(VitsAttention::output);
}

/// Scores by distance, of shape stack, length, 2 * length - 1, sorted by place: of shape stack,
/// length, length.
pub open spec fn relative_to_absolute(x: Term) -> Term {
    match x.shape() {
        Shape::S3(stack, length, _) => if length == 0 || 2 * length * length > usize::MAX {
            Term::undefined()
        } else {
            let flat = pad_last(x, 1).reshape(Shape::S2(stack, (2 * length * length) as usize));
            pad_last(flat, (length - 1) as usize).reshape(
                Shape::S3(stack, (length + 1) as usize, (2 * length - 1) as usize),
            ).narrow(1, 0, length).narrow(2, (length - 1) as usize, length)
        },
        _ => Term::undefined(),
    }
}

/// Scores by distance, sorted by place.
pub fn relative_position_to_absolute_position(x: &Tensor) -> (r: Result<Tensor, TensorError>)
    ensures
        expr::gives(r, relative_to_absolute(x@)),
{
    let (batch_heads, length, _) = x.dims3()?;
    let flat_len: usize = match flat_length(length) {
        Some(n) => n,
        None => return Err(TensorError::Mismatch),
    };

    let x = pad_last_dim_right(x, 1)?;
    let x_flat = x.reshape(Shape::S2(batch_heads, flat_len))?;
    let x_flat = pad_last_dim_right(&x_flat, length - 1)?;

    let x_final = x_flat.reshape(Shape::S3(batch_heads, length + 1, 2 * length - 1))?;
    x_final.narrow(1, 0, length)?.narrow(2, length - 1, length)
}

/// Weights by place, of shape stack, length, length, sorted by distance: of shape stack, length,
/// 2 * length - 1.
pub open spec fn absolute_to_relative(x: Term) -> Term {
    match x.shape() {
        Shape::S3(stack, length, _) => if length == 0 || 2 * length * length > usize::MAX {
            Term::undefined()
        } else {
            let flat = pad_last(x, (length - 1) as usize).reshape(
                Shape::S2(stack, (2 * length * length - length) as usize),
            );
            pad_front(flat, length).reshape(
                Shape::S3(stack, length, (2 * length) as usize),
            ).narrow(2, 1, (2 * length - 1) as usize)
        },
        _ => Term::undefined(),
    }
}

/// Weights by place, sorted by distance.
pub fn absolute_position_to_relative_position(x: &Tensor) -> (r: Result<Tensor, TensorError>)
    ensures
        expr::gives(r, absolute_to_relative(x@)),
{
    let (batch_heads, length, _) = x.dims3()?;
    let flat_len: usize = match flat_length(length) {
        Some(n) => n,
        None => return Err(TensorError::Mismatch),
    };

    let x = pad_last_dim_right(x, length - 1)?;
    let x_flat = x.reshape(Shape::S2(batch_heads, flat_len - length))?;
    let x_flat = pad_first_dim_of_flat(&x_flat, length)?;
    let x_final = x_flat.reshape(Shape::S3(batch_heads, length, 2 * length))?;
    x_final.narrow(2, 1, 2 * length - 1)
}

/// Twice the square of a length, unless the length is zero or the number is out of range.
fn flat_length(length: usize) -> (r: Option<usize>)
    ensures
        match r {
            Some(n) => length > 0 && n == 2 * length * length && length <= n && 2 * length <= n,
            None => length == 0 || 2 * length * length > usize::MAX,
        },
{
    if length == 0 || length > usize::MAX / 2 {
        assert(length > usize::MAX / 2 ==> 2 * length * length > usize::MAX) by (nonlinear_arith)
            requires
                length > usize::MAX / 2 ==> 2 * length > usize::MAX,
        ;
        return None;
    }
    assert(2 * length * length >= 2 * length) by (nonlinear_arith)
        requires
            length > 0,
    ;
    (2 * length).checked_mul(length)
}

/// A tensor of three dimensions with zeros before and behind the entries of the middle one.
pub open spec fn pad_middle(x: Term, before: usize, after: usize) -> Term {
    match x.shape() {
        Shape::S3(a, _, c) => {
            let front = if before > 0 {
                Term::zeros(x.dtype(), Shape::S3(a, before, c)).concat(x, 1)
            } else {
                x
            };
            if after > 0 {
                front.concat(Term::zeros(x.dtype(), Shape::S3(a, after, c)), 1)
            } else {
                front
            }
        },
        _ => Term::undefined(),
    }
}

/// A tensor of three dimensions with zeros before and behind the entries of the middle one.
pub fn pad_dim1(x: &Tensor, before: usize, after: usize) -> (r: Result<Tensor, TensorError>)
    ensures
        expr::gives(r, pad_middle(x@, before, after)),
{
    let (a, _, c) = x.dims3()?;
    let front = if before > 0 {
        Tensor::zeros(x.dtype(), Shape::S3(a, before, c))?.concat(x, 1)?
    } else {
        x.clone()
    };
    if after > 0 {
        front.concat(&Tensor::zeros(x.dtype(), Shape::S3(a, after, c))?, 1)
    } else {
        Ok(front)
    }
}

/// A tensor with `n` zeros behind the entries of the last dimension.
pub open spec fn pad_last(x: Term, n: usize) -> Term {
    if n == 0 {
        x
    } else if x.shape().spec_rank() == 0 {
        Term::undefined()
    } else {
        let last = x.shape().spec_rank() - 1;
        x.concat(Term::zeros(x.dtype(), x.shape().spec_with_dim(last, n)), last as usize)
    }
}

/// A tensor with `n` zeros behind the entries of the last dimension.
pub fn pad_last_dim_right(x: &Tensor, n: usize) -> (r: Result<Tensor, TensorError>)
    ensures
        expr::gives(r, pad_last(x@, n)),
{
    let shape = x.shape();
    if n == 0 {
        return Ok(x.clone());
    }
    if shape.rank() == 0 {
        return Err(TensorError::Mismatch);
    }
    let last: usize = shape.rank() - 1;
    let zeros = Tensor::zeros(x.dtype(), shape.with_dim(last, n))?;
    x.concat(&zeros, last)
}

/// A tensor of two dimensions with `n` zeros before the entries of the second.
pub open spec fn pad_front(x: Term, n: usize) -> Term {
    match x.shape() {
        Shape::S2(batch, _) => Term::zeros(x.dtype(), Shape::S2(batch, n)).concat(x, 1),
        _ => Term::undefined(),
    }
}

/// A tensor of two dimensions with `n` zeros before the entries of the second.
pub fn pad_first_dim_of_flat(x: &Tensor, n: usize) -> (r: Result<Tensor, TensorError>)
    ensures
        expr::gives(r, pad_front(x@, n)),
{
    let (batch, _) = x.dims2()?;
    let zeros = Tensor::zeros(x.dtype(), Shape::S2(batch, n))?;
    zeros.concat(x, 1)
}

} // verus!
