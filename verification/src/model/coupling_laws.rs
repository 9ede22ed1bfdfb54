//! What the coupling layers compute, where arithmetic is exact.

use vstd::prelude::*;

use crate::config::VitsConfig;
use crate::model::channels;
use crate::model::channels::holds;
use crate::model::coupling::{VitsResidualCouplingBlock, VitsResidualCouplingLayer};
use crate::model::layer_laws;
use crate::model::layer_laws::weighted;
use crate::model::numbers::Numbers;
use crate::model::shapes;
use crate::model::spline_laws;
use crate::model::wavenet::VitsWaveNet;
use crate::model::wavenet_laws;
use crate::nn::ScopeView;
use crate::tensor::index;
use crate::tensor::shape::Shape;
use crate::tensor::term;
use crate::tensor::term::Term;
use crate::tensor::typing::{Binary, Unary};

verus! {

broadcast use {crate::tensor::term::strictness, crate::model::wavenet::strict_wavenet};

/// Output `o` at a place of a convolution with a kernel of length one: a mixture of the channels
/// with the weights and the bias that the checkpoint calls `weight` and `bias`.
pub open spec fn mixture(
    i: Numbers,
    vb: ScopeView,
    inner: usize,
    outer: usize,
    x: Term,
    b: int,
    o: int,
    t: int,
) -> real {
    spline_laws::sum(
        weighted(
            i,
            x,
            i.values(vb.tensor("weight"@, Shape::S3(outer, inner, 1))),
            inner as int,
            b,
            o,
            t,
        ),
    ) + i.values(vb.tensor("bias"@, Shape::S1(outer)))(o)
}

/// Whether `pre` is the masked mixture of the first half of the channels, with the weights that the
/// checkpoint calls `conv_pre`.
pub open spec fn looks_at_first_half(
    i: Numbers,
    config: VitsConfig,
    vb: ScopeView,
    x: Term,
    mask: Term,
    pre: Term,
) -> bool {
    let half = (config.flow_size / 2) as usize;
    &&& term::typ(pre) is Some
    &&& pre.shape() == Shape::S3(x.shape()->S3_0, config.hidden_size, x.shape()->S3_2)
    &&& forall|b: int, o: int, t: int| #[trigger]
        holds(pre, b, o, t) ==> i.at(pre, b, o, t) == mixture(
            i,
            vb.pp("conv_pre"@),
            half,
            config.hidden_size,
            x,
            b,
            o,
            t,
        ) * i.at(mask, b, 0, t)
}

/// Whether `y` is `x` with the second half of the channels shifted by a masked mixture of `hidden`,
/// with the weights that the checkpoint calls `conv_post`: forwards the mixture is added, backwards
/// it is taken away. The first half stays as it is.
pub open spec fn shifts_second_half(
    i: Numbers,
    config: VitsConfig,
    vb: ScopeView,
    hidden: Term,
    x: Term,
    mask: Term,
    reverse: bool,
    y: Term,
) -> bool {
    let half = (config.flow_size / 2) as usize;
    &&& term::typ(y) is Some
    &&& y.shape() == Shape::S3(x.shape()->S3_0, (2 * half) as usize, x.shape()->S3_2)
    &&& forall|b: int, c: int, t: int| #[trigger]
        holds(y, b, c, t) ==> {
            let m = mixture(
                i,
                vb.pp("conv_post"@),
                config.hidden_size,
                half,
                hidden,
                b,
                c - half,
                t,
            ) * i.at(mask, b, 0, t);
            i.at(y, b, c, t) == if c < half {
                i.at(x, b, c, t)
            } else if reverse {
                (i.at(x, b, c, t) - m) * i.at(mask, b, 0, t)
            } else {
                (i.at(x, b, c, t) + m) * i.at(mask, b, 0, t)
            }
        }
}

/// Whether a coupling layer, or its inverse, has made of `x` what `y` is: the shift depends on the
/// first half of the channels through the gated convolutions alone.
pub open spec fn coupled(
    i: Numbers,
    config: VitsConfig,
    vb: ScopeView,
    wavenet: VitsWaveNet,
    x: Term,
    mask: Term,
    cond: Option<Term>,
    reverse: bool,
    y: Term,
) -> bool {
    exists|pre: Term|
        {
            &&& #[trigger] looks_at_first_half(i, config, vb, x, mask, pre)
            &&& shifts_second_half(
                i,
                config,
                vb,
                wavenet.output(pre, mask, cond),
                x,
                mask,
                reverse,
                y,
            )
        }
}

proof fn lemma_half_types(
    layer: VitsResidualCouplingLayer,
    config: VitsConfig,
    vb: ScopeView,
    x: Term,
    mask: Term,
    cond: Option<Term>,
    reverse: bool,
)
    requires
        layer.loaded(config, vb),
        term::typ(layer.output(x, mask, cond, reverse)) is Some,
        mask.shape() == Shape::S3(x.shape()->S3_0, 1, x.shape()->S3_2),
        x.shape() is S3,
    ensures
        ({
            let half = layer.half_channels;
            let (first, second) = (x.narrow(1, 0, half), x.narrow(1, half, half));
            let mixed = layer.conv_pre.output(first);
            let pre = mixed.broadcast_mul(mask);
            let hidden = layer.wavenet.output(pre, mask, cond);
            let post = layer.conv_post.output(hidden);
            let mean = post.broadcast_mul(mask);
            let shape = Shape::S3(x.shape()->S3_0, half, x.shape()->S3_2);
            let wide = Shape::S3(x.shape()->S3_0, config.hidden_size, x.shape()->S3_2);
            &&& mean == layer.mean(first, mask, cond)
            &&& term::typ(mean) is Some
            &&& term::typ(pre) is Some
            &&& first.shape() == shape
            &&& second.shape() == shape
            &&& term::typ(mixed) is Some
            &&& mixed.shape() == wide
            &&& pre.shape() == wide
            &&& term::typ(post) is Some
            &&& post.shape() == shape
            &&& mean.shape() == shape
            &&& term::typ(mean) == term::typ(second)
            &&& 2 * half <= x.shape()->S3_1
        }),
{
    let half = layer.half_channels;
    let (first, second) = (x.narrow(1, 0, half), x.narrow(1, half, half));
    let mixed = layer.conv_pre.output(first);
    let pre = mixed.broadcast_mul(mask);
    let hidden = layer.wavenet.output(pre, mask, cond);
    let post = layer.conv_post.output(hidden);
    let mean = post.broadcast_mul(mask);
    assert(mean == layer.mean(first, mask, cond));
    if reverse {
        assert(term::typ(second.sub(mean)) is Some);
    } else {
        assert(term::typ(mean.add(second.mul(mean.zeros_like().exp()))) is Some);
    }
    assert(term::typ(mean) is Some && term::typ(second) is Some && term::typ(first) is Some);
    assert(term::typ(post) is Some);
    assert(term::typ(hidden) is Some);
    assert(term::typ(pre) is Some);
    assert(term::typ(mixed) is Some);
    index::lemma_narrow_shape(x, 1, 0, half);
    index::lemma_narrow_shape(x, 1, half, half);
    shapes::lemma_pointwise(
        layer.conv_pre,
        vb.pp("conv_pre"@),
        half,
        config.hidden_size,
        first,
    );
    shapes::lemma_masked(mixed, mask, x.shape()->S3_0, x.shape()->S3_2);
    wavenet_laws::lemma_wavenet_type(layer.wavenet, pre, mask, cond);
    shapes::lemma_pointwise(
        layer.conv_post,
        vb.pp("conv_post"@),
        config.hidden_size,
        half,
        hidden,
    );
    shapes::lemma_masked(post, mask, x.shape()->S3_0, x.shape()->S3_2);
    lemma_same_type(mean, second, reverse);
}

proof fn lemma_same_type(mean: Term, second: Term, reverse: bool)
    requires
        reverse ==> term::typ(second.sub(mean)) is Some,
        !reverse ==> term::typ(mean.add(second.mul(mean.zeros_like().exp()))) is Some,
    ensures
        term::typ(mean) == term::typ(second),
{
    broadcast use crate::tensor::term::typing_rules;

}

/// A coupling layer passes the first half of the channels on as they are, and shifts the second
/// half by what it computes from the first.
pub proof fn lemma_coupled(
    i: Numbers,
    layer: VitsResidualCouplingLayer,
    config: VitsConfig,
    vb: ScopeView,
    x: Term,
    mask: Term,
    cond: Option<Term>,
    reverse: bool,
)
    requires
        i.reckons(),
        (i.exponential)(0real) == 1real,
        layer.loaded(config, vb),
        term::typ(layer.output(x, mask, cond, reverse)) is Some,
        x.shape() is S3,
        mask.shape() == Shape::S3(x.shape()->S3_0, 1, x.shape()->S3_2),
    ensures
        coupled(
            i,
            config,
            vb,
            layer.wavenet,
            x,
            mask,
            cond,
            reverse,
            layer.output(x, mask, cond, reverse),
        ),
{
    let half = layer.half_channels;
    let (first, second) = (x.narrow(1, 0, half), x.narrow(1, half, half));
    let mixed = layer.conv_pre.output(first);
    let pre = mixed.broadcast_mul(mask);
    let hidden = layer.wavenet.output(pre, mask, cond);
    let post = layer.conv_post.output(hidden);
    let mean = post.broadcast_mul(mask);
    let y = layer.output(x, mask, cond, reverse);
    lemma_half_types(layer, config, vb, x, mask, cond, reverse);
    let size = config.hidden_size;
    assert forall|b: int, o: int, t: int| #[trigger] holds(pre, b, o, t) implies i.at(
        pre,
        b,
        o,
        t,
    ) == mixture(i, vb.pp("conv_pre"@), half, size, x, b, o, t) * i.at(mask, b, 0, t) by {
        assert(holds(mixed, b, o, t));
        channels::lemma_masked(i, mixed, mask, b, o, t);
        layer_laws::lemma_pointwise(
            i,
            layer.conv_pre,
            vb.pp("conv_pre"@),
            half,
            size,
            first,
            b,
            o,
            t,
        );
        let w = i.values(vb.pp("conv_pre"@).tensor("weight"@, Shape::S3(size, half, 1)));
        let (f, g) = (
            weighted(i, first, w, half as int, b, o, t),
            weighted(i, x, w, half as int, b, o, t),
        );
        assert forall|c: int| 0 <= c < f.len() implies #[trigger] f[c] == g[c] by {
            channels::lemma_part(i, x, 0, half, b, c, t);
        }
        assert(f =~= g);
    }
    assert(looks_at_first_half(i, config, vb, x, mask, pre));
    lemma_shifted_shape(layer, x, mask, cond, reverse);
    assert forall|b: int, c: int, t: int| #[trigger] holds(y, b, c, t) implies {
        let m = mixture(i, vb.pp("conv_post"@), size, half, hidden, b, c - half, t) * i.at(
            mask,
            b,
            0,
            t,
        );
        i.at(y, b, c, t) == if c < half {
            i.at(x, b, c, t)
        } else if reverse {
            (i.at(x, b, c, t) - m) * i.at(mask, b, 0, t)
        } else {
            (i.at(x, b, c, t) + m) * i.at(mask, b, 0, t)
        }
    } by {
        lemma_shifted(i, layer, x, mask, cond, reverse, b, c, t);
        if c >= half {
            assert(holds(post, b, c - half, t));
            channels::lemma_masked(i, post, mask, b, c - half, t);
            layer_laws::lemma_pointwise(
                i,
                layer.conv_post,
                vb.pp("conv_post"@),
                size,
                half,
                hidden,
                b,
                c - half,
                t,
            );
        }
    }
}

/// The second half, shifted.
spec fn changed(mean: Term, second: Term, reverse: bool) -> Term {
    if reverse {
        second.sub(mean).mul(mean.zeros_like().neg().exp())
    } else {
        mean.add(second.mul(mean.zeros_like().exp()))
    }
}

proof fn lemma_changed_type(mean: Term, second: Term, reverse: bool)
    requires
        term::typ(changed(mean, second, reverse)) is Some,
    ensures
        term::typ(changed(mean, second, reverse)) == term::typ(second),
        term::typ(mean) == term::typ(second),
        term::typ(mean.zeros_like()) == term::typ(second),
{
    broadcast use crate::tensor::term::typing_rules;

}

proof fn lemma_shifted_shape(
    layer: VitsResidualCouplingLayer,
    x: Term,
    mask: Term,
    cond: Option<Term>,
    reverse: bool,
)
    requires
        term::typ(layer.output(x, mask, cond, reverse)) is Some,
        x.shape() is S3,
        mask.shape() == Shape::S3(x.shape()->S3_0, 1, x.shape()->S3_2),
    ensures
        ({
            let half = layer.half_channels;
            let second = x.narrow(1, half, half);
            let mean = layer.mean(x.narrow(1, 0, half), mask, cond);
            let moved = changed(mean, second, reverse);
            let shape = Shape::S3(x.shape()->S3_0, half, x.shape()->S3_2);
            &&& term::typ(moved) is Some
            &&& term::typ(moved.broadcast_mul(mask)) is Some
            &&& moved.shape() == shape
            &&& second.shape() == shape
            &&& moved.broadcast_mul(mask).shape() == shape
            &&& x.narrow(1, 0, half).shape() == shape
            &&& 2 * half <= x.shape()->S3_1
            &&& layer.output(x, mask, cond, reverse).shape() == Shape::S3(
                x.shape()->S3_0,
                (2 * half) as usize,
                x.shape()->S3_2,
            )
        }),
{
    let half = layer.half_channels;
    let (first, second) = (x.narrow(1, 0, half), x.narrow(1, half, half));
    let mean = layer.mean(first, mask, cond);
    let moved = changed(mean, second, reverse);
    let y = layer.output(x, mask, cond, reverse);
    assert(y == first.concat(moved.broadcast_mul(mask), 1));
    assert(term::typ(moved.broadcast_mul(mask)) is Some && term::typ(first) is Some);
    assert(term::typ(moved) is Some);
    lemma_changed_type(mean, second, reverse);
    assert(term::typ(second) is Some);
    index::lemma_narrow_shape(x, 1, 0, half);
    index::lemma_narrow_shape(x, 1, half, half);
    shapes::lemma_masked(moved, mask, x.shape()->S3_0, x.shape()->S3_2);
    index::lemma_concat_shape(first, moved.broadcast_mul(mask), 1);
}

proof fn lemma_shifted(
    i: Numbers,
    layer: VitsResidualCouplingLayer,
    x: Term,
    mask: Term,
    cond: Option<Term>,
    reverse: bool,
    b: int,
    c: int,
    t: int,
)
    requires
        i.reckons(),
        (i.exponential)(0real) == 1real,
        holds(layer.output(x, mask, cond, reverse), b, c, t),
        x.shape() is S3,
        mask.shape() == Shape::S3(x.shape()->S3_0, 1, x.shape()->S3_2),
    ensures
        ({
            let half = layer.half_channels;
            let mean = layer.mean(x.narrow(1, 0, half), mask, cond);
            let m = i.at(mean, b, c - half, t);
            i.at(layer.output(x, mask, cond, reverse), b, c, t) == if c < half {
                i.at(x, b, c, t)
            } else if reverse {
                (i.at(x, b, c, t) - m) * i.at(mask, b, 0, t)
            } else {
                (i.at(x, b, c, t) + m) * i.at(mask, b, 0, t)
            }
        }),
{
    let half = layer.half_channels;
    let (first, second) = (x.narrow(1, 0, half), x.narrow(1, half, half));
    let mean = layer.mean(first, mask, cond);
    let zeros = mean.zeros_like();
    let moved = changed(mean, second, reverse);
    lemma_shifted_shape(layer, x, mask, cond, reverse);
    lemma_changed_type(mean, second, reverse);
    channels::lemma_joined(i, first, moved.broadcast_mul(mask), b, c, t);
    if c < half {
        channels::lemma_part(i, x, 0, half, b, c, t);
    } else {
        let k = c - half;
        assert(holds(moved, b, k, t));
        channels::lemma_masked(i, moved, mask, b, k, t);
        channels::lemma_part(i, x, half, half, b, k, t);
        channels::lemma_zeros(i, mean, b, k, t);
        let (s, m) = (i.at(second, b, k, t), i.at(mean, b, k, t));
        if reverse {
            let neg = zeros.neg();
            let diff = second.sub(mean);
            channels::lemma_applied(i, zeros, Unary::Neg, b, k, t);
            channels::lemma_applied(i, neg, Unary::Exp, b, k, t);
            channels::lemma_zip(i, second, mean, Binary::Sub, b, k, t);
            channels::lemma_zip(i, diff, neg.exp(), Binary::Mul, b, k, t);
            assert(-0real == 0real);
            assert((s - m) * 1real == s - m) by (nonlinear_arith);
        } else {
            let exp = zeros.exp();
            channels::lemma_applied(i, zeros, Unary::Exp, b, k, t);
            channels::lemma_zip(i, second, exp, Binary::Mul, b, k, t);
            channels::lemma_zip(i, mean, second.mul(exp), Binary::Add, b, k, t);
            assert(m + s * 1real == s + m) by (nonlinear_arith);
        }
    }
}

/// Whether `y` is `x` with the channels in reverse.
pub open spec fn turned_over(i: Numbers, x: Term, y: Term) -> bool {
    &&& term::typ(y) == term::typ(x)
    &&& forall|b: int, c: int, t: int| #[trigger]
        holds(x, b, c, t) ==> i.at(y, b, c, t) == i.at(x, b, x.shape()->S3_1 - 1 - c, t)
}

/// Whether layer `k` of a block has made of `x` what `y` is: forwards the channels are put in
/// reverse behind the layer, backwards before its inverse.
pub open spec fn flows(
    i: Numbers,
    block: VitsResidualCouplingBlock,
    config: VitsConfig,
    vb: ScopeView,
    mask: Term,
    cond: Option<Term>,
    reverse: bool,
    k: int,
    x: Term,
    y: Term,
) -> bool {
    let net = block.flows@[k].wavenet;
    let scope = vb.item("flows"@, k as nat);
    if reverse {
        exists|u: Term| #[trigger]
            turned_over(i, x, u) && coupled(i, config, scope, net, u, mask, cond, reverse, y)
    } else {
        exists|u: Term| #[trigger]
            turned_over(i, u, y) && coupled(i, config, scope, net, x, mask, cond, reverse, u)
    }
}

pub(crate) proof fn lemma_turned_over(i: Numbers, x: Term)
    requires
        term::typ(x.reverse(1)) is Some,
        x.shape() is S3,
    ensures
        turned_over(i, x, x.reverse(1)),
{
    shapes::lemma_reversed(x);
    assert(term::typ(x.reverse(1)) == term::typ(x)) by {
        broadcast use crate::tensor::term::typing_rules;

    }
    assert forall|b: int, c: int, t: int| #[trigger] holds(x, b, c, t) implies i.at(
        x.reverse(1),
        b,
        c,
        t,
    ) == i.at(x, b, x.shape()->S3_1 - 1 - c, t) by {
        channels::lemma_reversed(i, x, b, c, t);
    }
}

/// The inverses of the layers below number `n`.
proof fn lemma_backwards(
    i: Numbers,
    block: VitsResidualCouplingBlock,
    config: VitsConfig,
    vb: ScopeView,
    n: nat,
    x: Term,
    mask: Term,
    cond: Option<Term>,
) -> (chain: Seq<Term>)
    requires
        i.reckons(),
        (i.exponential)(0real) == 1real,
        block.loaded(config, vb),
        n <= block.flows@.len(),
        term::typ(block.backwards_from(n, x, mask, cond)) is Some,
        x.shape() is S3,
        mask.shape() == Shape::S3(x.shape()->S3_0, 1, x.shape()->S3_2),
    ensures
        chain.len() == n + 1,
        chain.first() == x,
        chain.last() == block.backwards_from(n, x, mask, cond),
        forall|k: int|
            0 <= k < n ==> #[trigger] flows(
                i,
                block,
                config,
                vb,
                mask,
                cond,
                true,
                k,
                chain[n - 1 - k],
                chain[n - k],
            ),
    decreases n,
{
    if n > 0 {
        let layer = block.flows@[n - 1];
        let u = x.reverse(1);
        let y = layer.output(u, mask, cond, true);
        if term::typ(y) is None {
            block.lemma_undefined_backwards((n - 1) as nat, y, mask, cond);
        }
        assert(term::typ(u.narrow(1, layer.half_channels, layer.half_channels)) is Some);
        assert(term::typ(u) is Some);
        lemma_turned_over(i, x);
        let scope = vb.item("flows"@, (n - 1) as nat);
        lemma_coupled(i, layer, config, scope, u, mask, cond, true);
        lemma_shifted_shape(layer, u, mask, cond, true);
        let rest = lemma_backwards(i, block, config, vb, (n - 1) as nat, y, mask, cond);
        let chain = seq![x] + rest;
        assert(chain.last() == rest.last());
        assert forall|k: int| 0 <= k < n implies #[trigger] flows(
            i,
            block,
            config,
            vb,
            mask,
            cond,
            true,
            k,
            chain[n - 1 - k],
            chain[n - k],
        ) by {
            assert(chain[n - k] == rest[n - 1 - k]);
            if k == n - 1 {
                assert(turned_over(i, x, u));
                assert(chain[0] == x && rest[0] == y);
            } else {
                let m = n - 1;
                assert(chain[n - 1 - k] == rest[m - 1 - k]);
                assert(flows(
                    i,
                    block,
                    config,
                    vb,
                    mask,
                    cond,
                    true,
                    k,
                    rest[m - 1 - k],
                    rest[m - k],
                ));
            }
        }
        chain
    } else {
        seq![x]
    }
}

/// Whether the inverses have been run one after the other, that of the last layer first.
pub open spec fn runs_backwards(
    i: Numbers,
    block: VitsResidualCouplingBlock,
    config: VitsConfig,
    vb: ScopeView,
    mask: Term,
    cond: Option<Term>,
    chain: Seq<Term>,
) -> bool {
    let n = config.prior_encoder_num_flows as int;
    &&& chain.len() == n + 1
    &&& forall|k: int|
        0 <= k < n ==> flows(
            i,
            block,
            config,
            vb,
            mask,
            cond,
            true,
            n - 1 - k,
            #[trigger] chain[k],
            chain[k + 1],
        )
}

/// Backwards, a block runs the inverses of its layers, the last one first, each behind a reversal
/// of the channels.
pub proof fn lemma_block_backwards(
    i: Numbers,
    block: VitsResidualCouplingBlock,
    config: VitsConfig,
    vb: ScopeView,
    x: Term,
    mask: Term,
    cond: Option<Term>,
) -> (chain: Seq<Term>)
    requires
        i.reckons(),
        (i.exponential)(0real) == 1real,
        block.loaded(config, vb),
        term::typ(block.output(x, mask, cond, true)) is Some,
        x.shape() is S3,
        mask.shape() == Shape::S3(x.shape()->S3_0, 1, x.shape()->S3_2),
    ensures
        chain.first() == x,
        chain.last() == block.output(x, mask, cond, true),
        runs_backwards(i, block, config, vb, mask, cond, chain),
{
    let n = block.flows@.len();
    let chain = lemma_backwards(i, block, config, vb, n, x, mask, cond);
    assert forall|k: int| 0 <= k < n implies flows(
        i,
        block,
        config,
        vb,
        mask,
        cond,
        true,
        n - 1 - k,
        #[trigger] chain[k],
        chain[k + 1],
    ) by {
        let l = n - 1 - k;
        assert(flows(i, block, config, vb, mask, cond, true, l, chain[n - 1 - l], chain[n - l]));
        assert(n - 1 - l == k && n - l == k + 1);
    }
    chain
}

/// The layers from number `from` on.
proof fn lemma_forwards(
    i: Numbers,
    block: VitsResidualCouplingBlock,
    config: VitsConfig,
    vb: ScopeView,
    from: nat,
    x: Term,
    mask: Term,
    cond: Option<Term>,
) -> (chain: Seq<Term>)
    requires
        i.reckons(),
        (i.exponential)(0real) == 1real,
        block.loaded(config, vb),
        from <= block.flows@.len(),
        term::typ(block.forwards_from(from, x, mask, cond)) is Some,
        x.shape() is S3,
        mask.shape() == Shape::S3(x.shape()->S3_0, 1, x.shape()->S3_2),
    ensures
        chain.len() == block.flows@.len() - from + 1,
        chain.first() == x,
        chain.last() == block.forwards_from(from, x, mask, cond),
        forall|k: int|
            from <= k < block.flows@.len() ==> #[trigger] flows(
                i,
                block,
                config,
                vb,
                mask,
                cond,
                false,
                k,
                chain[k - from],
                chain[k - from + 1],
            ),
    decreases block.flows@.len() - from,
{
    let n = block.flows@.len();
    if from < n {
        let layer = block.flows@[from as int];
        let u = layer.output(x, mask, cond, false);
        let y = u.reverse(1);
        if term::typ(y) is None {
            block.lemma_undefined_forwards(from + 1, y, mask, cond);
        }
        assert(term::typ(u) is Some);
        let scope = vb.item("flows"@, from);
        lemma_coupled(i, layer, config, scope, x, mask, cond, false);
        lemma_shifted_shape(layer, x, mask, cond, false);
        lemma_turned_over(i, u);
        let rest = lemma_forwards(i, block, config, vb, from + 1, y, mask, cond);
        let chain = seq![x] + rest;
        assert(chain.last() == rest.last());
        assert forall|k: int| from <= k < n implies #[trigger] flows(
            i,
            block,
            config,
            vb,
            mask,
            cond,
            false,
            k,
            chain[k - from],
            chain[k - from + 1],
        ) by {
            assert(chain[k - from + 1] == rest[k - from]);
            if k == from {
                assert(turned_over(i, u, y));
                assert(rest[0] == y && chain[0] == x);
            } else {
                assert(chain[k - from] == rest[k - (from + 1)]);
                assert(flows(
                    i,
                    block,
                    config,
                    vb,
                    mask,
                    cond,
                    false,
                    k,
                    rest[k - (from + 1)],
                    rest[k - (from + 1) + 1],
                ));
            }
        }
        chain
    } else {
        seq![x]
    }
}

/// Forwards, a block runs its layers one after the other, each before a reversal of the channels.
pub proof fn lemma_block_forwards(
    i: Numbers,
    block: VitsResidualCouplingBlock,
    config: VitsConfig,
    vb: ScopeView,
    x: Term,
    mask: Term,
    cond: Option<Term>,
) -> (chain: Seq<Term>)
    requires
        i.reckons(),
        (i.exponential)(0real) == 1real,
        block.loaded(config, vb),
        term::typ(block.output(x, mask, cond, false)) is Some,
        x.shape() is S3,
        mask.shape() == Shape::S3(x.shape()->S3_0, 1, x.shape()->S3_2),
    ensures
        chain.len() == config.prior_encoder_num_flows + 1,
        chain.first() == x,
        chain.last() == block.output(x, mask, cond, false),
        forall|k: int|
            0 <= k < config.prior_encoder_num_flows ==> flows(
                i,
                block,
                config,
                vb,
                mask,
                cond,
                false,
                k,
                #[trigger] chain[k],
                chain[k + 1],
            ),
{
    let chain = lemma_forwards(i, block, config, vb, 0, x, mask, cond);
    assert forall|k: int| 0 <= k < config.prior_encoder_num_flows implies flows(
        i,
        block,
        config,
        vb,
        mask,
        cond,
        false,
        k,
        #[trigger] chain[k],
        chain[k + 1],
    ) by {
        assert(flows(i, block, config, vb, mask, cond, false, k, chain[k - 0], chain[k - 0 + 1]));
    }
    chain
}

} // verus!
