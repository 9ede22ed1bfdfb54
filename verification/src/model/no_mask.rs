//! Masks that mask nothing.
//!
//! A mask of ones lets every token count, as no mask does. Where the operations on constants are
//! exact, the model finds the same for both.

use vstd::prelude::*;

use crate::model::alike;
use crate::model::attention;
use crate::model::attention::VitsAttention;
use crate::model::inverse;
use crate::model::text_encoder;
use crate::model::text_encoder::{VitsEncoder, VitsEncoderLayer, VitsFeedForward, VitsTextEncoder};
use crate::model::vits;
use crate::model::vits::{DurationTerms, VitsModel};
use crate::nn::Linear;
use crate::tensor::index;
use crate::tensor::meaning;
use crate::tensor::meaning::Interpretation;
use crate::tensor::ops::Noise;
use crate::tensor::scalar;
use crate::tensor::scalar::{Real, Scalar, LEAST_SINGLE_BITS, ONE_BITS, ZERO_BITS};
use crate::tensor::shape::Shape;
use crate::tensor::term;
use crate::tensor::term::Term;
use crate::tensor::typing::{Comparison, DType};

verus! {

broadcast use crate::tensor::term::strictness;

/// One number at every place.
pub open spec fn constant(bits: u64, dtype: DType, shape: Shape) -> Term {
    Term::full(scalar::scalar(bits), dtype, shape)
}

/// Whether the operations on constants are exact: moving equal numbers about gives the same
/// number at every place, the number one stays one in every type, one less one is zero, a choice
/// by zeros is the second one, and adding zeros changes nothing.
pub open spec fn constants<V>(i: Interpretation<V>) -> bool {
    &&& forall|bits: u64, dtype: DType, from: Shape, to: Shape|
        term::typ(constant(bits, dtype, from).reshape(to)) is Some ==> i.value(
            #[trigger] constant(bits, dtype, from).reshape(to),
        ) == i.value(constant(bits, dtype, to))
    &&& forall|bits: u64, dtype: DType, from: Shape, to: Shape|
        term::typ(constant(bits, dtype, from).expand(to)) is Some ==> i.value(
            #[trigger] constant(bits, dtype, from).expand(to),
        ) == i.value(constant(bits, dtype, to))
    &&& forall|bits: u64, dtype: DType, from: Shape, dim: usize|
        term::typ(constant(bits, dtype, from).unsqueeze(dim)) is Some ==> i.value(
            #[trigger] constant(bits, dtype, from).unsqueeze(dim),
        ) == i.value(constant(bits, dtype, constant(bits, dtype, from).unsqueeze(dim).shape()))
    &&& forall|dtype: DType, to: DType, shape: Shape|
        term::typ(constant(ONE_BITS, dtype, shape).cast(to)) is Some ==> i.value(
            #[trigger] constant(ONE_BITS, dtype, shape).cast(to),
        ) == i.value(constant(ONE_BITS, to, shape))
    &&& forall|dtype: DType, shape: Shape|
        term::typ(constant(ONE_BITS, dtype, shape).one_minus()) is Some ==> i.value(
            #[trigger] constant(ONE_BITS, dtype, shape).one_minus(),
        ) == i.value(constant(ZERO_BITS, dtype, shape))
    &&& forall|dtype: DType, shape: Shape, a: Term, b: Term|
        term::typ(not_zero(constant(ZERO_BITS, dtype, shape)).select(a, b)) is Some ==> i.value(
            #[trigger] not_zero(constant(ZERO_BITS, dtype, shape)).select(a, b),
        ) == i.value(b)
    &&& forall|a: Term, dtype: DType, shape: Shape|
        term::typ(a) is Some && term::typ(a.broadcast_add(constant(ZERO_BITS, dtype, shape)))
            == term::typ(a) ==> i.value(
            #[trigger] a.broadcast_add(constant(ZERO_BITS, dtype, shape)),
        ) == i.value(a)
}

/// One where an element is not zero.
pub open spec fn not_zero(x: Term) -> Term {
    x.compare_scalar(Comparison::Ne, scalar::scalar(ZERO_BITS))
}

proof fn lemma_linear_alike<V>(i: Interpretation<V>, layer: Linear, a: Term, b: Term)
    requires
        i.alike(a, b),
    ensures
        i.alike(layer.output(a), layer.output(b)),
{
    broadcast use crate::tensor::meaning::congruence;

}

proof fn lemma_pad_last_alike<V>(i: Interpretation<V>, a: Term, b: Term, n: usize)
    requires
        i.alike(a, b),
    ensures
        i.alike(attention::pad_last(a, n), attention::pad_last(b, n)),
{
    broadcast use crate::tensor::meaning::congruence;

}

proof fn lemma_absolute_alike<V>(i: Interpretation<V>, a: Term, b: Term)
    requires
        i.alike(a, b),
    ensures
        i.alike(attention::relative_to_absolute(a), attention::relative_to_absolute(b)),
{
    broadcast use crate::tensor::meaning::congruence;

    match a.shape() {
        Shape::S3(stack, length, _) => {
            if length != 0 && 2 * length * length <= usize::MAX {
                lemma_pad_last_alike(i, a, b, 1);
                let flat = Shape::S2(stack, (2 * length * length) as usize);
                let (p, q) = (
                    attention::pad_last(a, 1).reshape(flat),
                    attention::pad_last(b, 1).reshape(flat),
                );
                assert(i.alike(p, q));
                let n = (length - 1) as usize;
                lemma_pad_last_alike(i, p, q, n);
                let square = Shape::S3(stack, (length + 1) as usize, (2 * length - 1) as usize);
                let (r, s) = (
                    attention::pad_last(p, n).reshape(square),
                    attention::pad_last(q, n).reshape(square),
                );
                assert(i.alike(r, s));
                assert(i.alike(r.narrow(1, 0, length), s.narrow(1, 0, length)));
            }
        },
        _ => {},
    }
}

proof fn lemma_relative_alike<V>(i: Interpretation<V>, a: Term, b: Term)
    requires
        i.alike(a, b),
    ensures
        i.alike(attention::absolute_to_relative(a), attention::absolute_to_relative(b)),
{
    broadcast use crate::tensor::meaning::congruence;

    match a.shape() {
        Shape::S3(stack, length, _) => {
            if length != 0 && 2 * length * length <= usize::MAX {
                let n = (length - 1) as usize;
                lemma_pad_last_alike(i, a, b, n);
                let flat = Shape::S2(stack, (2 * length * length - length) as usize);
                let (p, q) = (
                    attention::pad_last(a, n).reshape(flat),
                    attention::pad_last(b, n).reshape(flat),
                );
                assert(i.alike(p, q));
                assert(i.alike(attention::pad_front(p, length), attention::pad_front(q, length)));
                let wide = Shape::S3(stack, length, (2 * length) as usize);
                assert(i.alike(
                    attention::pad_front(p, length).reshape(wide),
                    attention::pad_front(q, length).reshape(wide),
                ));
            }
        },
        _ => {},
    }
}

pub(crate) proof fn lemma_scores_alike<V>(
    i: Interpretation<V>,
    m: VitsAttention,
    query: Term,
    query_again: Term,
    key: Term,
    key_again: Term,
    proj_bsz: usize,
    len: usize,
)
    requires
        i.alike(query, query_again),
        i.alike(key, key_again),
    ensures
        i.alike(
            m.scores(query, key, proj_bsz, len),
            m.scores(query_again, key_again, proj_bsz, len),
        ),
{
    broadcast use crate::tensor::meaning::congruence;

    let table = m.relative_embeddings(m.emb_rel_k@, len);
    let spread = table.expand(Shape::S3(proj_bsz, table.shape().spec_dim(1), m.head_dim));
    let (r, s) = (
        query.matmul(spread.transpose(1, 2)),
        query_again.matmul(spread.transpose(1, 2)),
    );
    assert(i.alike(r, s));
    lemma_absolute_alike(i, r, s);
    assert(i.alike(
        query.matmul(key.transpose(1, 2)),
        query_again.matmul(key_again.transpose(1, 2)),
    ));
}

pub(crate) proof fn lemma_mix_alike<V>(
    i: Interpretation<V>,
    m: VitsAttention,
    a: Term,
    b: Term,
    value: Term,
    value_again: Term,
    proj_bsz: usize,
    len: usize,
)
    requires
        i.alike(a, b),
        i.alike(a.matmul(value), b.matmul(value_again)),
    ensures
        i.alike(m.mix(a, value, proj_bsz, len), m.mix(b, value_again, proj_bsz, len)),
{
    broadcast use crate::tensor::meaning::congruence;

    let table = m.relative_embeddings(m.emb_rel_v@, len);
    let spread = table.expand(Shape::S3(proj_bsz, table.shape().spec_dim(1), m.head_dim));
    lemma_relative_alike(i, a, b);
    assert(i.alike(
        attention::absolute_to_relative(a).matmul(spread),
        attention::absolute_to_relative(b).matmul(spread),
    ));
}

pub(crate) proof fn lemma_gathered_alike<V>(
    i: Interpretation<V>,
    m: VitsAttention,
    a: Term,
    b: Term,
    bsz: usize,
    len: usize,
)
    requires
        i.alike(a, b),
    ensures
        i.alike(m.gathered(a, bsz, len), m.gathered(b, bsz, len)),
{
    broadcast use crate::tensor::meaning::congruence;

    let split = Shape::S4(bsz, m.num_heads, len, m.head_dim);
    let flat = Shape::S3(bsz, len, m.embed_dim);
    let (p, q) = (a.reshape(split).transpose(1, 2), b.reshape(split).transpose(1, 2));
    assert(i.alike(a.reshape(split), b.reshape(split)));
    assert(i.alike(p, q));
    assert(i.alike(p.reshape(flat), q.reshape(flat)));
    lemma_linear_alike(i, m.out_proj, p.reshape(flat).contiguous(), q.reshape(flat).contiguous());
}

/// A tensor under another shape and back is the same.
proof fn lemma_reshaped_back<V>(i: Interpretation<V>, x: Term, shape: Shape)
    requires
        i.moves(),
        term::typ(x.reshape(shape)) is Some,
        term::typ(x.reshape(shape).reshape(x.shape())) is Some,
    ensures
        i.alike(x.reshape(shape).reshape(x.shape()), x),
{
    broadcast use crate::tensor::term::typing_rules;

    let back = x.reshape(shape).reshape(x.shape());
    assert forall|p: int| 0 <= p < back.shape().count() implies #[trigger] index::origin(back, p)
        == index::origin(x, p) by {
        assert(index::origin(x.reshape(shape), p) == index::origin(x, p));
    }
    assert(meaning::same_origins(back, x));
}

/// A mask of zeros is the same as none: the weights are alike.
pub proof fn lemma_zero_mask<V>(
    i: Interpretation<V>,
    m: VitsAttention,
    scores: Term,
    mask: Term,
    bsz: usize,
    proj_bsz: usize,
    len: usize,
)
    requires
        i.moves(),
        constants(i),
        scores.shape() == Shape::S3(proj_bsz, len, len),
        i.alike(mask, constant(ZERO_BITS, DType::F32, Shape::S4(bsz, 1, len, len))),
        term::typ(m.weights(scores, Some(mask), bsz, proj_bsz, len)) is Some,
    ensures
        i.alike(
            m.weights(scores, Some(mask), bsz, proj_bsz, len),
            m.weights(scores, None, bsz, proj_bsz, len),
        ),
{
    broadcast use crate::tensor::meaning::congruence;

    let split = Shape::S4(bsz, m.num_heads, len, len);
    let zeros = constant(ZERO_BITS, DType::F32, Shape::S4(bsz, 1, len, len));
    let by_head = scores.reshape(split);
    let sum = by_head.broadcast_add(mask);
    assert(i.alike(sum, by_head.broadcast_add(zeros)));
    assert(by_head.shape() == split) by {
        broadcast use crate::tensor::term::typing_rules;

    }
    lemma_sum_with_zeros(by_head, bsz, m.num_heads, len);
    assert(i.alike(sum, by_head));
    let flat = Shape::S3(proj_bsz, len, len);
    assert(i.alike(sum.reshape(flat), by_head.reshape(flat)));
    lemma_reshaped_back(i, scores, split);
    assert(i.alike(sum.reshape(flat), scores));
}

proof fn lemma_sum_with_zeros(x: Term, bsz: usize, heads: usize, len: usize)
    requires
        x.shape() == Shape::S4(bsz, heads, len, len),
        term::typ(
            x.broadcast_add(constant(ZERO_BITS, DType::F32, Shape::S4(bsz, 1, len, len))),
        ) is Some,
    ensures
        term::typ(x.broadcast_add(constant(ZERO_BITS, DType::F32, Shape::S4(bsz, 1, len, len))))
            == term::typ(x),
{
    broadcast use crate::tensor::term::typing_rules;

}

/// Scores are square.
pub(crate) proof fn lemma_scores_shape(
    m: VitsAttention,
    query: Term,
    key: Term,
    proj_bsz: usize,
    len: usize,
)
    requires
        term::typ(m.scores(query, key, proj_bsz, len)) is Some,
        term::typ(query) is Some ==> query.shape() == Shape::S3(proj_bsz, len, m.head_dim),
        term::typ(key) is Some ==> key.shape() == Shape::S3(proj_bsz, len, m.head_dim),
    ensures
        m.scores(query, key, proj_bsz, len).shape() == Shape::S3(proj_bsz, len, len),
{
    let table = m.relative_embeddings(m.emb_rel_k@, len);
    let spread = table.expand(Shape::S3(proj_bsz, table.shape().spec_dim(1), m.head_dim));
    let relative = attention::relative_to_absolute(query.matmul(spread.transpose(1, 2)));
    let product = query.matmul(key.transpose(1, 2));
    assert(term::typ(product) is Some && term::typ(relative) is Some);
    assert(product.shape() == Shape::S3(proj_bsz, len, len) && term::typ(product.add(relative))
        == term::typ(product)) by {
        broadcast use crate::tensor::term::typing_rules;

    }
}

pub(crate) proof fn lemma_reshaped_shape(x: Term, shape: Shape)
    requires
        term::typ(x.reshape(shape)) is Some,
    ensures
        x.reshape(shape).shape() == shape,
{
    broadcast use crate::tensor::term::typing_rules;

}

proof fn lemma_by_head_alike<V>(
    i: Interpretation<V>,
    m: VitsAttention,
    a: Term,
    b: Term,
    len: usize,
    bsz: usize,
    flat: Shape,
)
    requires
        i.alike(a, b),
    ensures
        i.alike(m.by_head(a, len, bsz).reshape(flat), m.by_head(b, len, bsz).reshape(flat)),
{
    broadcast use crate::tensor::meaning::congruence;

    let split = Shape::S4(bsz, len, m.num_heads, m.head_dim);
    assert(i.alike(a.reshape(split), b.reshape(split)));
    assert(i.alike(a.reshape(split).transpose(1, 2), b.reshape(split).transpose(1, 2)));
}

/// Under a mask of zeros attention gives the same as under none.
pub proof fn lemma_attention_without_mask<V>(
    i: Interpretation<V>,
    m: VitsAttention,
    x: Term,
    y: Term,
    mask: Term,
)
    requires
        i.moves(),
        constants(i),
        i.alike(x, y),
        x.shape() is S3,
        i.alike(
            mask,
            constant(
                ZERO_BITS,
                DType::F32,
                Shape::S4(x.shape()->S3_0, 1, x.shape()->S3_1, x.shape()->S3_1),
            ),
        ),
        term::typ(m.output(x, Some(mask))) is Some,
    ensures
        i.alike(m.output(x, Some(mask)), m.output(y, None)),
{
    broadcast use crate::tensor::meaning::congruence;

    reveal(VitsAttention::output);
    let bsz = x.shape()->S3_0;
    let len = x.shape()->S3_1;
    let proj_bsz = (bsz * m.num_heads) as usize;
    let flat = Shape::S3(proj_bsz, len, m.head_dim);
    let s = Scalar::InverseSqrt(m.head_dim);
    lemma_linear_alike(i, m.q_proj, x, y);
    lemma_linear_alike(i, m.k_proj, x, y);
    lemma_linear_alike(i, m.v_proj, x, y);
    assert(i.alike(m.q_proj.output(x).scale(s), m.q_proj.output(y).scale(s)));
    lemma_by_head_alike(
        i,
        m,
        m.q_proj.output(x).scale(s),
        m.q_proj.output(y).scale(s),
        len,
        bsz,
        flat,
    );
    lemma_by_head_alike(i, m, m.k_proj.output(x), m.k_proj.output(y), len, bsz, flat);
    lemma_by_head_alike(i, m, m.v_proj.output(x), m.v_proj.output(y), len, bsz, flat);
    let (query, query_again) = (
        m.by_head(m.q_proj.output(x).scale(s), len, bsz).reshape(flat),
        m.by_head(m.q_proj.output(y).scale(s), len, bsz).reshape(flat),
    );
    let (key, key_again) = (
        m.by_head(m.k_proj.output(x), len, bsz).reshape(flat),
        m.by_head(m.k_proj.output(y), len, bsz).reshape(flat),
    );
    let (value, value_again) = (
        m.by_head(m.v_proj.output(x), len, bsz).reshape(flat),
        m.by_head(m.v_proj.output(y), len, bsz).reshape(flat),
    );
    let scores = m.scores(query, key, proj_bsz, len);
    let scores_again = m.scores(query_again, key_again, proj_bsz, len);
    lemma_scores_alike(i, m, query, query_again, key, key_again, proj_bsz, len);
    let weights = m.weights(scores, Some(mask), bsz, proj_bsz, len);
    let mixed = m.mix(weights, value, proj_bsz, len);
    assert(m.output(x, Some(mask)) == m.gathered(mixed, bsz, len));
    assert(term::typ(mixed) is Some);
    assert(term::typ(weights.matmul(value)) is Some);
    assert(term::typ(weights) is Some);
    assert(term::typ(scores) is Some);
    if term::typ(query) is Some {
        lemma_reshaped_shape(
            m.by_head(m.q_proj.output(x).scale(s), len, bsz),
            flat,
        );
    }
    if term::typ(key) is Some {
        lemma_reshaped_shape(m.by_head(m.k_proj.output(x), len, bsz), flat);
    }
    lemma_scores_shape(m, query, key, proj_bsz, len);
    lemma_zero_mask(i, m, scores, mask, bsz, proj_bsz, len);
    let weights_again = m.weights(scores_again, None, bsz, proj_bsz, len);
    assert(i.alike(scores.softmax(), scores_again.softmax()));
    assert(i.alike(weights, weights_again));
    assert(i.alike(weights.matmul(value), weights_again.matmul(value_again)));
    lemma_mix_alike(i, m, weights, weights_again, value, value_again, proj_bsz, len);
    let mixed_again = m.mix(weights_again, value_again, proj_bsz, len);
    lemma_gathered_alike(i, m, mixed, mixed_again, bsz, len);
    assert(m.output(y, None) == m.gathered(mixed_again, bsz, len));
}

proof fn lemma_padded_alike<V>(i: Interpretation<V>, a: Term, b: Term, left: usize, right: usize)
    requires
        i.alike(a, b),
    ensures
        i.alike(
            text_encoder::zero_padded(a, left, right),
            text_encoder::zero_padded(b, left, right),
        ),
{
    broadcast use crate::tensor::meaning::congruence;

    let last = a.shape().spec_rank() - 1;
    let zeros = Term::zeros(a.dtype(), a.shape().spec_with_dim(last, left));
    assert(i.alike(zeros.concat(a, last as usize), zeros.concat(b, last as usize)));
}

proof fn lemma_activated_alike<V>(i: Interpretation<V>, m: VitsFeedForward, a: Term, b: Term)
    requires
        i.alike(a, b),
    ensures
        i.alike(m.activated(a), m.activated(b)),
{
    broadcast use crate::tensor::meaning::congruence;

}

proof fn lemma_feed_forward_alike<V>(
    i: Interpretation<V>,
    m: VitsFeedForward,
    a: Term,
    b: Term,
    mask: Term,
    mask_again: Term,
)
    requires
        i.alike(a, b),
        i.alike(mask, mask_again),
    ensures
        i.alike(m.output(a, mask), m.output(b, mask_again)),
{
    broadcast use crate::tensor::meaning::congruence;

    reveal(VitsFeedForward::output);
    let (l, r) = (m.pad_left, m.pad_right);
    let (s, t) = (
        mask.transpose(1, 2).contiguous(),
        mask_again.transpose(1, 2).contiguous(),
    );
    assert(i.alike(mask.transpose(1, 2), mask_again.transpose(1, 2)));
    assert(i.alike(s, t));
    assert(i.alike(a.transpose(1, 2), b.transpose(1, 2)));
    assert(i.alike(a.transpose(1, 2).contiguous(), b.transpose(1, 2).contiguous()));
    let (p, q) = (
        a.transpose(1, 2).contiguous().broadcast_mul(s),
        b.transpose(1, 2).contiguous().broadcast_mul(t),
    );
    assert(i.alike(p, q));
    lemma_padded_alike(i, p, q, l, r);
    let (p, q) = (text_encoder::zero_padded(p, l, r), text_encoder::zero_padded(q, l, r));
    inverse::lemma_conv_alike(i, m.conv_1, p, q);
    lemma_activated_alike(i, m, m.conv_1.output(p), m.conv_1.output(q));
    let (p, q) = (
        m.activated(m.conv_1.output(p)).broadcast_mul(s),
        m.activated(m.conv_1.output(q)).broadcast_mul(t),
    );
    assert(i.alike(p, q));
    lemma_padded_alike(i, p, q, l, r);
    let (p, q) = (text_encoder::zero_padded(p, l, r), text_encoder::zero_padded(q, l, r));
    inverse::lemma_conv_alike(i, m.conv_2, p, q);
    let (p, q) = (
        m.conv_2.output(p).broadcast_mul(s),
        m.conv_2.output(q).broadcast_mul(t),
    );
    assert(i.alike(p, q));
    assert(i.alike(p.transpose(1, 2), q.transpose(1, 2)));
}

/// The shape of what an encoder layer gives.
proof fn lemma_layer_shape(m: VitsEncoderLayer, x: Term, mask: Term, attention_mask: Option<Term>)
    requires
        term::typ(m.output(x, mask, attention_mask)) is Some,
    ensures
        term::typ(x) is Some,
        term::typ(m.attention.output(x, attention_mask)) is Some,
        m.output(x, mask, attention_mask).shape() == x.shape(),
{
    reveal(VitsEncoderLayer::output);
    let sum = x.add(m.attention.output(x, attention_mask));
    let attended = m.layer_norm.output(sum);
    let change = m.feed_forward.output(attended, mask);
    assert(term::typ(attended.add(change)) is Some);
    assert(term::typ(attended) is Some && term::typ(change) is Some);
    assert(term::typ(sum) is Some);
    assert(m.output(x, mask, attention_mask).shape() == x.shape()) by {
        broadcast use crate::tensor::term::typing_rules;

        assert(sum.shape() == x.shape());
        assert(attended.shape() == x.shape());
        assert(attended.add(change).shape() == x.shape());
    }
}

proof fn lemma_layer_without_mask<V>(
    i: Interpretation<V>,
    m: VitsEncoderLayer,
    x: Term,
    y: Term,
    mask: Term,
    mask_again: Term,
    attention_mask: Term,
)
    requires
        i.moves(),
        constants(i),
        i.alike(x, y),
        i.alike(mask, mask_again),
        x.shape() is S3,
        i.alike(
            attention_mask,
            constant(
                ZERO_BITS,
                DType::F32,
                Shape::S4(x.shape()->S3_0, 1, x.shape()->S3_1, x.shape()->S3_1),
            ),
        ),
        term::typ(m.output(x, mask, Some(attention_mask))) is Some,
    ensures
        i.alike(m.output(x, mask, Some(attention_mask)), m.output(y, mask_again, None)),
{
    broadcast use crate::tensor::meaning::congruence;

    lemma_layer_shape(m, x, mask, Some(attention_mask));
    reveal(VitsEncoderLayer::output);
    lemma_attention_without_mask(i, m.attention, x, y, attention_mask);
    let (p, q) = (
        x.add(m.attention.output(x, Some(attention_mask))),
        y.add(m.attention.output(y, None)),
    );
    assert(i.alike(p, q));
    alike::lemma_norm_alike(i, m.layer_norm, m.layer_norm, p, q);
    let (p, q) = (m.layer_norm.output(p), m.layer_norm.output(q));
    lemma_feed_forward_alike(i, m.feed_forward, p, q, mask, mask_again);
    let (s, t) = (
        p.add(m.feed_forward.output(p, mask)),
        q.add(m.feed_forward.output(q, mask_again)),
    );
    assert(i.alike(s, t));
    alike::lemma_norm_alike(i, m.final_layer_norm, m.final_layer_norm, s, t);
}

proof fn lemma_layers_without_mask<V>(
    i: Interpretation<V>,
    m: VitsEncoder,
    n: nat,
    x: Term,
    y: Term,
    mask: Term,
    mask_again: Term,
    attention_mask: Term,
)
    requires
        i.moves(),
        constants(i),
        i.alike(x, y),
        i.alike(mask, mask_again),
        x.shape() is S3,
        i.alike(
            attention_mask,
            constant(
                ZERO_BITS,
                DType::F32,
                Shape::S4(x.shape()->S3_0, 1, x.shape()->S3_1, x.shape()->S3_1),
            ),
        ),
        term::typ(m.output_from(n, x, mask, Some(attention_mask))) is Some,
    ensures
        i.alike(
            m.output_from(n, x, mask, Some(attention_mask)),
            m.output_from(n, y, mask_again, None),
        ),
    decreases m.layers@.len() - n,
{
    broadcast use crate::tensor::meaning::congruence;

    if n < m.layers@.len() {
        let layer = m.layers@[n as int];
        let next = layer.output(x, mask, Some(attention_mask));
        if term::typ(next) is None {
            m.lemma_undefined(n + 1, next, mask, Some(attention_mask));
        }
        lemma_layer_shape(layer, x, mask, Some(attention_mask));
        lemma_layer_without_mask(i, layer, x, y, mask, mask_again, attention_mask);
        lemma_layers_without_mask(
            i,
            m,
            n + 1,
            next,
            layer.output(y, mask_again, None),
            mask,
            mask_again,
            attention_mask,
        );
    }
}

/// A mask of ones for the places is a constant.
proof fn lemma_padding_mask<V>(i: Interpretation<V>, ids: Term, mask: Term)
    requires
        constants(i),
        ids.shape() is S2,
        term::typ(mask) is Some,
        i.alike(mask, constant(ONE_BITS, mask.dtype(), ids.shape())),
        term::typ(VitsModel::padding_mask(ids, Some(mask))) is Some,
    ensures
        i.alike(VitsModel::padding_mask(ids, Some(mask)), VitsModel::padding_mask(ids, None)),
        VitsModel::padding_mask(ids, Some(mask)).shape() == Shape::S3(
            ids.shape()->S2_0,
            ids.shape()->S2_1,
            1,
        ),
{
    let ones = constant(ONE_BITS, mask.dtype(), ids.shape());
    let single = constant(ONE_BITS, DType::F32, ids.shape());
    let long = Shape::S3(ids.shape()->S2_0, ids.shape()->S2_1, 1);
    assert(i.alike(mask.cast(DType::F32), ones.cast(DType::F32))) by {
        broadcast use crate::tensor::meaning::congruence;

    }
    assert(term::typ(ones.cast(DType::F32)) is Some);
    assert(term::typ(ones.cast(DType::F32)) == term::typ(single)) by {
        broadcast use crate::tensor::term::typing_rules;

    }
    assert(i.alike(mask.cast(DType::F32), single));
    assert(i.alike(mask.cast(DType::F32).unsqueeze(2), single.unsqueeze(2))) by {
        broadcast use crate::tensor::meaning::congruence;

    }
    assert(single.unsqueeze(2).shape() == long && term::typ(single.unsqueeze(2)) == term::typ(
        constant(ONE_BITS, DType::F32, long),
    )) by {
        broadcast use crate::tensor::term::typing_rules;

        term::lemma_typ_fits(&single.unsqueeze(2));
    }
}

/// A mask of ones adds zeros to the scores.
pub proof fn lemma_additive_mask_of_ones<V>(i: Interpretation<V>, mask: Term)
    requires
        constants(i),
        mask.shape() is S2,
        term::typ(mask) is Some,
        i.alike(mask, constant(ONE_BITS, mask.dtype(), mask.shape())),
        term::typ(text_encoder::additive_mask(mask)) is Some,
    ensures
        i.alike(
            text_encoder::additive_mask(mask),
            constant(
                ZERO_BITS,
                DType::F32,
                Shape::S4(mask.shape()->S2_0, 1, mask.shape()->S2_1, mask.shape()->S2_1),
            ),
        ),
{
    let batch = mask.shape()->S2_0;
    let len = mask.shape()->S2_1;
    let row = Shape::S4(batch, 1, 1, len);
    let square = Shape::S4(batch, 1, len, len);
    let ones = constant(ONE_BITS, mask.dtype(), mask.shape());
    let spread = mask.reshape(row);
    let inverted = spread.cast(DType::F32).one_minus();
    let least = Term::full(scalar::scalar(LEAST_SINGLE_BITS), DType::F32, inverted.shape());
    let chosen = not_zero(inverted).select(least, inverted.zeros_like());
    assert(text_encoder::additive_mask(mask) == chosen.expand(square));
    assert(term::typ(inverted) is Some);
    let long = constant(ONE_BITS, mask.dtype(), row);
    assert(i.alike(spread, ones.reshape(row))) by {
        broadcast use crate::tensor::meaning::congruence;

    }
    assert(term::typ(ones.reshape(row)) == term::typ(long)) by {
        broadcast use crate::tensor::term::typing_rules;

        term::lemma_typ_fits(&ones.reshape(row));
    }
    assert(i.alike(spread, long));
    let single = constant(ONE_BITS, DType::F32, row);
    assert(i.alike(spread.cast(DType::F32), long.cast(DType::F32))) by {
        broadcast use crate::tensor::meaning::congruence;

    }
    assert(term::typ(long.cast(DType::F32)) == term::typ(single)) by {
        broadcast use crate::tensor::term::typing_rules;

    }
    assert(i.alike(spread.cast(DType::F32), single));
    let zero = constant(ZERO_BITS, DType::F32, row);
    assert(i.alike(inverted, single.one_minus())) by {
        broadcast use crate::tensor::meaning::congruence;

    }
    assert(term::typ(single.one_minus()) == term::typ(zero)) by {
        broadcast use crate::tensor::term::typing_rules;

    }
    assert(i.alike(inverted, zero));
    assert(inverted.shape() == row && inverted.dtype() == DType::F32) by {
        broadcast use crate::tensor::term::typing_rules;

    }
    assert(inverted.zeros_like() == zero);
    assert(i.alike(chosen, not_zero(zero).select(least, zero))) by {
        broadcast use crate::tensor::meaning::congruence;

        assert(i.alike(not_zero(inverted), not_zero(zero)));
    }
    assert(term::typ(not_zero(zero).select(least, zero)) == term::typ(zero)) by {
        broadcast use crate::tensor::term::typing_rules;

    }
    assert(i.alike(chosen, zero));
    assert(i.alike(chosen.expand(square), zero.expand(square))) by {
        broadcast use crate::tensor::meaning::congruence;

    }
    assert(term::typ(zero.expand(square)) == term::typ(constant(ZERO_BITS, DType::F32, square)))
        by {
        broadcast use crate::tensor::term::typing_rules;

        term::lemma_typ_fits(&zero.expand(square));
    }
}

/// Under a mask of ones the text encoder finds the same as under none.
pub proof fn lemma_hidden_without_mask<V>(
    i: Interpretation<V>,
    m: VitsTextEncoder,
    ids: Term,
    mask: Term,
)
    requires
        i.moves(),
        constants(i),
        ids.shape() is S2,
        term::typ(mask) is Some,
        i.alike(mask, constant(ONE_BITS, mask.dtype(), ids.shape())),
        term::typ(m.hidden(ids, VitsModel::padding_mask(ids, Some(mask)), Some(mask))) is Some,
    ensures
        i.alike(
            m.hidden(ids, VitsModel::padding_mask(ids, Some(mask)), Some(mask)),
            m.hidden(ids, VitsModel::padding_mask(ids, None), None),
        ),
{
    let (p, q) = (VitsModel::padding_mask(ids, Some(mask)), VitsModel::padding_mask(ids, None));
    assert(mask.shape() == ids.shape()) by {
        broadcast use crate::tensor::term::typing_rules;

        assert(term::typ(constant(ONE_BITS, mask.dtype(), ids.shape())) is Some);
    }
    let added = text_encoder::additive_mask(mask);
    assert(term::typ(added) is Some);
    let embedded = m.embed_tokens.output(ids).scale(Scalar::Sqrt(m.hidden_size));
    text_encoder::strict_encoder(m.encoder, embedded, p, Some(added));
    lemma_padding_mask(i, ids, mask);
    lemma_additive_mask_of_ones(i, mask);
    reveal(VitsEncoder::output);
    let (x, y) = (embedded.broadcast_mul(p), embedded.broadcast_mul(q));
    assert(i.alike(x, y)) by {
        broadcast use crate::tensor::meaning::congruence;

    }
    if term::typ(x) is None {
        m.encoder.lemma_undefined(0, x, p, Some(added));
    }
    assert(x.shape() is S3 && x.shape()->S3_0 == ids.shape()->S2_0 && x.shape()->S3_1
        == ids.shape()->S2_1) by {
        broadcast use crate::tensor::term::typing_rules;

    }
    lemma_layers_without_mask(i, m.encoder, 0, x, y, p, q, added);
}

/// Whether all that the first step finds is alike.
pub open spec fn durations_alike<V>(
    i: Interpretation<V>,
    d: DurationTerms,
    e: DurationTerms,
) -> bool {
    &&& i.alike(d.mask, e.mask)
    &&& i.alike(d.means, e.means)
    &&& i.alike(d.log_variances, e.log_variances)
    &&& i.alike(d.duration, e.duration)
    &&& i.alike(d.sums, e.sums)
    &&& i.alike(d.ends, e.ends)
}

proof fn lemma_stats_alike<V>(
    i: Interpretation<V>,
    m: VitsTextEncoder,
    a: Term,
    b: Term,
    mask: Term,
    mask_again: Term,
)
    requires
        i.alike(a, b),
        i.alike(mask, mask_again),
    ensures
        i.alike(m.means(a, mask), m.means(b, mask_again)),
        i.alike(m.log_variances(a, mask), m.log_variances(b, mask_again)),
{
    broadcast use crate::tensor::meaning::congruence;

    assert(i.alike(a.transpose(1, 2), b.transpose(1, 2)));
    let (p, q) = (a.transpose(1, 2).contiguous(), b.transpose(1, 2).contiguous());
    assert(i.alike(p, q));
    inverse::lemma_conv_alike(i, m.project, p, q);
    let (p, q) = (m.project.output(p), m.project.output(q));
    assert(i.alike(p.transpose(1, 2), q.transpose(1, 2)));
    assert(i.alike(p.transpose(1, 2).contiguous(), q.transpose(1, 2).contiguous()));
    assert(i.alike(m.stats(a, mask), m.stats(b, mask_again)));
}

/// With a mask of ones the model finds the same durations as with none.
pub proof fn lemma_durations_without_mask<V>(
    i: Interpretation<V>,
    m: VitsModel,
    ids: Term,
    mask: Term,
    rate: Option<Real>,
)
    requires
        i.moves(),
        constants(i),
        ids.shape() is S2,
        term::typ(mask) is Some,
        i.alike(mask, constant(ONE_BITS, mask.dtype(), ids.shape())),
        m.durations(ids, Some(mask), rate).defined(),
    ensures
        m.durations(ids, None, rate).defined(),
        durations_alike(i, m.durations(ids, Some(mask), rate), m.durations(ids, None, rate)),
{
    let (p, q) = (VitsModel::padding_mask(ids, Some(mask)), VitsModel::padding_mask(ids, None));
    let hidden = m.text_encoder.hidden(ids, p, Some(mask));
    let hidden_again = m.text_encoder.hidden(ids, q, None);
    let d = m.durations(ids, Some(mask), rate);
    let e = m.durations(ids, None, rate);
    assert(term::typ(m.text_encoder.stats(hidden, p)) is Some);
    assert(term::typ(p) is Some);
    assert(term::typ(hidden) is Some) by {
        let turned = hidden.transpose(1, 2).contiguous();
        assert(term::typ(m.text_encoder.project.output(turned)) is Some);
    }
    lemma_padding_mask(i, ids, mask);
    lemma_hidden_without_mask(i, m.text_encoder, ids, mask);
    lemma_stats_alike(i, m.text_encoder, hidden, hidden_again, p, q);
    lemma_duration_alike(i, m, hidden, hidden_again, p, q, ids.shape(), match rate {
        Some(r) => r,
        None => m.speaking_rate,
    });
    assert(durations_alike(i, d, e));
}

proof fn lemma_duration_alike<V>(
    i: Interpretation<V>,
    m: VitsModel,
    a: Term,
    b: Term,
    mask: Term,
    mask_again: Term,
    shape: Shape,
    rate: Real,
)
    requires
        i.alike(a, b),
        i.alike(mask, mask_again),
    ensures
        ({
            let (s, t) = (
                mask.transpose(1, 2).contiguous(),
                mask_again.transpose(1, 2).contiguous(),
            );
            let (c, d) = (m.duration(a, s, rate), m.duration(b, t, rate));
            &&& i.alike(s, t)
            &&& i.alike(c, d)
            &&& i.alike(c.sum_inner(false), d.sum_inner(false))
            &&& i.alike(c.reshape(shape).cumsum(1), d.reshape(shape).cumsum(1))
        }),
{
    broadcast use crate::tensor::meaning::congruence;

    let (s, t) = (mask.transpose(1, 2).contiguous(), mask_again.transpose(1, 2).contiguous());
    assert(i.alike(mask.transpose(1, 2), mask_again.transpose(1, 2)));
    assert(i.alike(s, t));
    assert(i.alike(a.transpose(1, 2), b.transpose(1, 2)));
    let (x, y) = (a.transpose(1, 2).contiguous(), b.transpose(1, 2).contiguous());
    assert(i.alike(x, y));
    let noise = m.noise_scale_duration;
    alike::lemma_predictors_alike(
        i,
        m.duration_predictor,
        m.duration_predictor,
        x,
        y,
        s,
        t,
        None,
        noise,
    );
    let (x, y) = (
        m.duration_predictor.output(x, s, None, noise),
        m.duration_predictor.output(y, t, None, noise),
    );
    assert(i.alike(x.exp(), y.exp()));
    let (x, y) = (x.exp().broadcast_mul(s), y.exp().broadcast_mul(t));
    assert(i.alike(x, y));
    let r = Scalar::Reciprocal(rate);
    assert(i.alike(x.scale(r), y.scale(r)));
    let (c, d) = (m.duration(a, s, rate), m.duration(b, t, rate));
    assert(i.alike(c, d));
    assert(i.alike(c.reshape(shape), d.reshape(shape)));
}

proof fn lemma_spread_alike<V>(
    i: Interpretation<V>,
    mask: Term,
    mask_again: Term,
    a: Term,
    b: Term,
    batch: usize,
    len: usize,
    frames: usize,
)
    requires
        i.alike(mask, mask_again),
        i.alike(a, b),
    ensures
        i.alike(
            VitsModel::spread(VitsModel::attention(mask, batch, len, frames), a),
            VitsModel::spread(VitsModel::attention(mask_again, batch, len, frames), b),
        ),
{
    broadcast use crate::tensor::meaning::congruence;

    let valid = VitsModel::valid_frames(batch, len, frames);
    let out = VitsModel::output_mask(batch, frames).unsqueeze(3);
    assert(i.alike(mask.unsqueeze(2), mask_again.unsqueeze(2)));
    let (p, q) = (
        mask.unsqueeze(2).broadcast_mul(out),
        mask_again.unsqueeze(2).broadcast_mul(out),
    );
    assert(i.alike(p, q));
    let own = valid.sub(vits::shifted_down(valid)).unsqueeze(1).transpose(2, 3).contiguous();
    assert(i.alike(own.broadcast_mul(p), own.broadcast_mul(q)));
    let (s, t) = (
        VitsModel::attention(mask, batch, len, frames),
        VitsModel::attention(mask_again, batch, len, frames),
    );
    assert(i.alike(s, t));
    assert(i.alike(s.matmul(a), t.matmul(b)));
    assert(i.alike(s.matmul(a).transpose(1, 2), t.matmul(b).transpose(1, 2)));
}

/// With a mask of ones the model makes the same latent frames and the same sound as with none.
pub proof fn lemma_sound_without_mask<V>(
    i: Interpretation<V>,
    m: VitsModel,
    ids: Term,
    mask: Term,
    rate: Option<Real>,
    frames: usize,
)
    requires
        i.moves(),
        constants(i),
        ids.shape() is S2,
        term::typ(mask) is Some,
        i.alike(mask, constant(ONE_BITS, mask.dtype(), ids.shape())),
        m.durations(ids, Some(mask), rate).defined(),
    ensures
        i.alike(
            m.spectrogram(
                m.durations(ids, Some(mask), rate),
                ids.shape()->S2_0,
                ids.shape()->S2_1,
                frames,
            ),
            m.spectrogram(
                m.durations(ids, None, rate),
                ids.shape()->S2_0,
                ids.shape()->S2_1,
                frames,
            ),
        ),
        i.alike(
            m.waveform(
                m.durations(ids, Some(mask), rate),
                ids.shape()->S2_0,
                ids.shape()->S2_1,
                frames,
            ),
            m.waveform(
                m.durations(ids, None, rate),
                ids.shape()->S2_0,
                ids.shape()->S2_1,
                frames,
            ),
        ),
{
    broadcast use crate::tensor::meaning::congruence;

    lemma_durations_without_mask(i, m, ids, mask, rate);
    let (batch, len) = (ids.shape()->S2_0, ids.shape()->S2_1);
    let d = m.durations(ids, Some(mask), rate);
    let e = m.durations(ids, None, rate);
    lemma_spread_alike(i, d.mask, e.mask, d.means, e.means, batch, len, frames);
    lemma_spread_alike(i, d.mask, e.mask, d.log_variances, e.log_variances, batch, len, frames);
    let (s, t) = (
        VitsModel::attention(d.mask, batch, len, frames),
        VitsModel::attention(e.mask, batch, len, frames),
    );
    let (p, q) = (VitsModel::spread(s, d.means), VitsModel::spread(t, e.means));
    let (u, v) = (VitsModel::spread(s, d.log_variances), VitsModel::spread(t, e.log_variances));
    lemma_latents_alike(i, m, p, q, u, v);
    let (x, y) = (m.latents(p, u), m.latents(q, v));
    let out = VitsModel::output_mask(batch, frames);
    inverse::lemma_backwards_alike(i, m.flow, m.flow.flows@.len(), x, y, out, None);
    let (x, y) = (m.flow.output(x, out, None, true), m.flow.output(y, out, None, true));
    assert(i.alike(x.broadcast_mul(out), y.broadcast_mul(out)));
    alike::lemma_decoder_alike(i, m.decoder, x.broadcast_mul(out), y.broadcast_mul(out));
}

proof fn lemma_latents_alike<V>(
    i: Interpretation<V>,
    m: VitsModel,
    a: Term,
    b: Term,
    c: Term,
    d: Term,
)
    requires
        i.alike(a, b),
        i.alike(c, d),
    ensures
        i.alike(m.latents(a, c), m.latents(b, d)),
{
    broadcast use crate::tensor::meaning::congruence;

    let noise = Term::randn(Noise::Latents, a.shape());
    assert(i.alike(c.exp(), d.exp()));
    assert(i.alike(noise.mul(c.exp()), noise.mul(d.exp())));
    let s = Scalar::Value(m.noise_scale);
    assert(i.alike(noise.mul(c.exp()).scale(s), noise.mul(d.exp()).scale(s)));
}

} // verus!
