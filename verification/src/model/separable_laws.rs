//! What the separable layers compute, where arithmetic is exact.

use vstd::prelude::*;

use crate::config::VitsConfig;
use crate::model::channels;
use crate::model::channels::holds;
use crate::model::layer_laws;
use crate::model::layer_laws::{column, kernel_line, sequence};
use crate::model::numbers;
use crate::model::numbers::Numbers;
use crate::model::separable;
use crate::model::separable::{SeparableLayer, VitsDilatedDepthSeparableConv};
use crate::model::shapes;
use crate::model::spline_laws;
use crate::model::wavenet;
use crate::nn;
use crate::nn::{Conv1d, LayerNorm, ScopeView};
use crate::tensor::scalar::{Real, Scalar};
use crate::tensor::shape::Shape;
use crate::tensor::term;
use crate::tensor::term::Term;
use crate::tensor::typing::{Binary, Unary};

verus! {

broadcast use {crate::tensor::term::strictness, crate::model::separable::strict_separable};

/// A convolution that treats every channel apart gives for a channel the sum over the places of its
/// own kernel, plus its bias.
pub proof fn lemma_channel_conv(i: Numbers, conv: Conv1d, x: Term, b: int, c: int, t: int)
    requires
        holds(conv.output(x), b, c, t),
        conv.weight@.shape() is S3,
        conv.weight@.shape()->S3_1 == 1,
        conv.bias is Some ==> conv.bias->0@.shape() == Shape::S1(conv.weight@.shape()->S3_0),
        conv.config.stride == 1,
        conv.config.groups == conv.weight@.shape()->S3_0,
        x.shape() is S3,
        x.shape()->S3_1 == conv.weight@.shape()->S3_0,
    ensures
        i.at(conv.output(x), b, c, t) == spline_laws::sum(
            kernel_line(
                sequence(i, x, b),
                x.shape()->S3_2 as int,
                i.values(conv.weight@),
                conv.weight@.shape()->S3_2 as int,
                conv.config.dilation as int,
                conv.config.padding as int,
                c,
                c,
                t,
            ),
        ) + layer_laws::bias_of(i, layer_laws::conv_bias(conv), c),
{
    assert(conv.output(x).shape()->S3_1 == conv.weight@.shape()->S3_0) by {
        broadcast use crate::tensor::term::typing_rules;

    }
    layer_laws::lemma_conv(i, conv, x, b, c, t);
    let w = conv.weight@;
    let (v, u) = (i.values(x), i.values(w));
    let (n, len, kernel) = (
        x.shape()->S3_1 as int,
        x.shape()->S3_2 as int,
        w.shape()->S3_2 as int,
    );
    let (dilation, padding) = (conv.config.dilation as int, conv.config.padding as int);
    assert(n / n == 1) by {
        vstd::arithmetic::div_mod::lemma_div_by_self(n);
    }
    assert(c / 1 == c);
    let row = b * n + c * 1;
    assert(t * 1 - padding == t - padding);
    let s = numbers::channel_taps(v, u, len, 1, kernel, dilation, row, c, t - padding);
    channels::lemma_single(s, 0);
    let g = numbers::taps(v, u, len, kernel, dilation, row + 0, (c * 1 + 0) * kernel, t - padding);
    let h = kernel_line(sequence(i, x, b), len, u, kernel, dilation, padding, c, c, t);
    assert((c * 1 + 0) * kernel == c * kernel);
    assert forall|j: int| 0 <= j < g.len() implies #[trigger] g[j] == h[j] by {
        let at = t - padding + j * dilation;
        let y = u(c * kernel + j);
        if !(0 <= at < len) {
            assert(0real * y == 0real) by (nonlinear_arith);
        }
    }
    assert(g =~= h);
    assert(s[0] == spline_laws::sum(g));
}

/// The numbers of a sequence under a mask of one channel.
pub open spec fn masked_sequence(
    i: Numbers,
    x: Term,
    mask: Term,
    b: int,
) -> spec_fn(int, int) -> real {
    |c: int, t: int| i.at(x, b, c, t) * i.at(mask, b, 0, t)
}

/// Whether `y` holds the channels of `x` under the mask, each filtered by a kernel of its own: that
/// of layer `n` under the name `convs_dilated`, dilated by as many powers of its length as layers
/// lie before it.
pub open spec fn filters(
    i: Numbers,
    config: VitsConfig,
    vb: ScopeView,
    n: nat,
    x: Term,
    mask: Term,
    y: Term,
) -> bool {
    let kernel = config.duration_predictor_kernel_size;
    let dilation = vstd::arithmetic::power::pow(kernel as int, n);
    let scope = vb.item("convs_dilated"@, n);
    &&& term::typ(y) is Some
    &&& y.shape() == x.shape()
    &&& forall|b: int, c: int, t: int| #[trigger]
        holds(y, b, c, t) ==> i.at(y, b, c, t) == spline_laws::sum(
            kernel_line(
                masked_sequence(i, x, mask, b),
                x.shape()->S3_2 as int,
                i.values(scope.tensor("weight"@, Shape::S3(config.hidden_size, 1, kernel))),
                kernel as int,
                dilation,
                (kernel * dilation - dilation) / 2,
                c,
                c,
                t,
            ),
        ) + i.values(scope.tensor("bias"@, Shape::S1(config.hidden_size)))(c)
}

/// A number of a channel, brought to mean zero and variance one over the channels of its place as
/// far as the number that is added to the variance does not matter, then stretched and shifted as
/// the checkpoint says, under the Gaussian error linear unit.
pub open spec fn raised(
    i: Numbers,
    config: VitsConfig,
    vb: ScopeView,
    x: Term,
    b: int,
    c: int,
    t: int,
) -> real {
    let s = column(i, x, b, t);
    (i.function)(
        Unary::GeluErf,
        (i.at(x, b, c, t) - numbers::mean(s)) / (i.function)(
            Unary::Sqrt,
            numbers::variance(s) + (i.scalar)(Scalar::Value(config.layer_norm_eps)),
        ) * i.values(vb.tensor("weight"@, Shape::S1(config.hidden_size)))(c) + i.values(
            vb.tensor("bias"@, Shape::S1(config.hidden_size)),
        )(c),
    )
}

/// Whether `y` mixes the channels of `x` at every place, raised with the weights of layer `n` under
/// the name `norms_1`, with the weights under the name `convs_pointwise`.
pub open spec fn mixes_channels(
    i: Numbers,
    config: VitsConfig,
    vb: ScopeView,
    n: nat,
    x: Term,
    y: Term,
) -> bool {
    let h = config.hidden_size;
    let scope = vb.item("convs_pointwise"@, n);
    &&& term::typ(y) is Some
    &&& y.shape() == x.shape()
    &&& forall|b: int, o: int, t: int| #[trigger]
        holds(y, b, o, t) ==> i.at(y, b, o, t) == spline_laws::sum(
            raised_products(i, config, vb, n, x, b, o, t),
        ) + i.values(scope.tensor("bias"@, Shape::S1(h)))(o)
}

/// The products that the mixture of the raised channels adds up.
pub open spec fn raised_products(
    i: Numbers,
    config: VitsConfig,
    vb: ScopeView,
    n: nat,
    x: Term,
    b: int,
    o: int,
    t: int,
) -> Seq<real> {
    let h = config.hidden_size;
    let w = i.values(vb.item("convs_pointwise"@, n).tensor("weight"@, Shape::S3(h, h, 1)));
    Seq::new(
        h as nat,
        |c: int| raised(i, config, vb.item("norms_1"@, n), x, b, c, t) * w(o * h + c),
    )
}

/// Whether `y` holds the raised channels of `x`, with the weights of layer `n` under the name
/// `norms_2`.
pub open spec fn raises(
    i: Numbers,
    config: VitsConfig,
    vb: ScopeView,
    n: nat,
    x: Term,
    y: Term,
) -> bool {
    &&& term::typ(y) is Some
    &&& y.shape() == x.shape()
    &&& forall|b: int, c: int, t: int| #[trigger]
        holds(y, b, c, t) ==> i.at(y, b, c, t) == raised(
            i,
            config,
            vb.item("norms_2"@, n),
            x,
            b,
            c,
            t,
        )
}

/// Whether `y` is the sum of two tensors.
pub open spec fn sums(i: Numbers, x: Term, z: Term, y: Term) -> bool {
    &&& term::typ(y) == term::typ(x)
    &&& forall|b: int, c: int, t: int| #[trigger]
        holds(y, b, c, t) ==> i.at(y, b, c, t) == i.at(x, b, c, t) + i.at(z, b, c, t)
}

/// Whether layer `n` has made of `x` what `y` is: the channels are filtered, mixed and raised, and
/// what dropout leaves of that is added.
pub open spec fn layer_makes(
    i: Numbers,
    config: VitsConfig,
    dropout: Real,
    vb: ScopeView,
    n: nat,
    x: Term,
    mask: Term,
    y: Term,
) -> bool {
    exists|filtered: Term, mixed: Term, change: Term|
        {
            &&& #[trigger] filters(i, config, vb, n, x, mask, filtered)
            &&& #[trigger] mixes_channels(i, config, vb, n, filtered, mixed)
            &&& #[trigger] raises(i, config, vb, n, mixed, change)
            &&& sums(i, x, nn::dropped(change, dropout), y)
        }
}

/// A normalization over the channels keeps the type.
proof fn lemma_channels_type(norm: LayerNorm, x: Term)
    requires
        term::typ(separable::normalized_channels(norm, x)) is Some,
        x.shape() is S3,
    ensures
        term::typ(separable::normalized_channels(norm, x)) == term::typ(x),
{
    broadcast use crate::tensor::term::typing_rules;

    term::lemma_typ_fits(&x);
}

proof fn lemma_raised_type(norm: LayerNorm, x: Term)
    requires
        term::typ(separable::normalized_channels(norm, x).gelu_erf()) is Some,
        x.shape() is S3,
    ensures
        term::typ(separable::normalized_channels(norm, x).gelu_erf()) == term::typ(x),
{
    lemma_channels_type(norm, x);
    assert(term::typ(separable::normalized_channels(norm, x).gelu_erf()) == term::typ(
        separable::normalized_channels(norm, x),
    )) by {
        broadcast use crate::tensor::term::typing_rules;

    }
}

/// The raised channels.
proof fn lemma_raised(
    i: Numbers,
    norm: LayerNorm,
    config: VitsConfig,
    vb: ScopeView,
    x: Term,
    b: int,
    c: int,
    t: int,
)
    requires
        norm.loaded(vb, config.hidden_size, config.layer_norm_eps),
        term::typ(separable::normalized_channels(norm, x).gelu_erf()) is Some,
        holds(x, b, c, t),
    ensures
        i.at(separable::normalized_channels(norm, x).gelu_erf(), b, c, t) == raised(
            i,
            config,
            vb,
            x,
            b,
            c,
            t,
        ),
{
    lemma_channels_type(norm, x);
    layer_laws::lemma_normalized_channels(
        i,
        norm,
        vb,
        config.hidden_size,
        config.layer_norm_eps,
        x,
        b,
        c,
        t,
    );
    channels::lemma_applied(i, separable::normalized_channels(norm, x), Unary::GeluErf, b, c, t);
}

/// The types in a layer.
proof fn lemma_layer_types(
    layer: SeparableLayer,
    config: VitsConfig,
    vb: ScopeView,
    n: nat,
    x: Term,
    mask: Term,
    dropout: Real,
)
    requires
        layer.loaded(config, vb, n),
        term::typ(x.add(layer.change(x, mask, dropout))) is Some,
        x.shape() is S3,
        mask.shape() == Shape::S3(x.shape()->S3_0, 1, x.shape()->S3_2),
    ensures
        ({
            let masked = x.broadcast_mul(mask);
            let filtered = layer.conv_dilated.output(masked);
            let spread = separable::normalized_channels(layer.norm_1, filtered).gelu_erf();
            let mixed = layer.conv_pointwise.output(spread);
            let change = separable::normalized_channels(layer.norm_2, mixed).gelu_erf();
            &&& layer.change(x, mask, dropout) == nn::dropped(change, dropout)
            &&& term::typ(masked) is Some
            &&& term::typ(masked) == term::typ(x)
            &&& x.shape()->S3_1 == config.hidden_size
            &&& term::typ(filtered) is Some
            &&& filtered.shape() == x.shape()
            &&& term::typ(spread) is Some
            &&& spread.shape() == x.shape()
            &&& term::typ(mixed) is Some
            &&& mixed.shape() == x.shape()
            &&& term::typ(change) is Some
            &&& change.shape() == x.shape()
            &&& term::typ(x.add(nn::dropped(change, dropout))) == term::typ(x)
        }),
{
    let h = config.hidden_size;
    let masked = x.broadcast_mul(mask);
    let filtered = layer.conv_dilated.output(masked);
    let spread = separable::normalized_channels(layer.norm_1, filtered).gelu_erf();
    let mixed = layer.conv_pointwise.output(spread);
    let change = separable::normalized_channels(layer.norm_2, mixed).gelu_erf();
    let kept = nn::dropped(change, dropout);
    assert(layer.change(x, mask, dropout) == kept);
    assert(term::typ(kept) is Some);
    assert(term::typ(change) is Some && term::typ(kept) == term::typ(change)) by {
        broadcast use crate::tensor::term::typing_rules;

    }
    assert(term::typ(mixed) is Some);
    shapes::lemma_pointwise(
        layer.conv_pointwise,
        vb.item("convs_pointwise"@, n),
        h,
        h,
        spread,
    );
    assert(term::typ(spread) is Some);
    assert(term::typ(filtered) is Some);
    lemma_filtered_type(layer.conv_dilated, vb.item("convs_dilated"@, n), config, masked);
    lemma_raised_type(layer.norm_1, filtered);
    lemma_raised_type(layer.norm_2, mixed);
    assert(term::typ(masked) is Some);
    assert(term::typ(masked) == term::typ(x)) by {
        broadcast use crate::tensor::term::typing_rules;

    }
    assert(term::typ(x.add(kept)) == term::typ(x) && kept.shape() == x.shape()) by {
        broadcast use crate::tensor::term::typing_rules;

    }
}

proof fn lemma_filtered_type(conv: Conv1d, vb: ScopeView, config: VitsConfig, x: Term)
    requires
        term::typ(conv.output(x)) is Some,
        conv.weight@ == vb.tensor(
            "weight"@,
            Shape::S3(config.hidden_size, 1, config.duration_predictor_kernel_size),
        ),
        conv.bias is Some,
        conv.bias->0@ == vb.tensor("bias"@, Shape::S1(config.hidden_size)),
        conv.config.groups == config.hidden_size,
    ensures
        x.shape() is S3,
        conv.output(x).shape() is S3,
        x.shape()->S3_1 == config.hidden_size,
        conv.output(x).shape()->S3_1 == config.hidden_size,
        conv.weight@.shape() == Shape::S3(
            config.hidden_size,
            1,
            config.duration_predictor_kernel_size,
        ),
        conv.bias->0@.shape() == Shape::S1(config.hidden_size),
{
    broadcast use crate::tensor::term::typing_rules;

}

/// A layer filters every channel, mixes the channels, and adds what comes of it.
pub proof fn lemma_separable_layer(
    i: Numbers,
    layer: SeparableLayer,
    config: VitsConfig,
    vb: ScopeView,
    n: nat,
    x: Term,
    mask: Term,
    dropout: Real,
)
    requires
        layer.loaded(config, vb, n),
        SeparableLayer::failure(config, vb, n) is None,
        term::typ(x.add(layer.change(x, mask, dropout))) is Some,
        x.shape() is S3,
        mask.shape() == Shape::S3(x.shape()->S3_0, 1, x.shape()->S3_2),
    ensures
        layer_makes(
            i,
            config,
            dropout,
            vb,
            n,
            x,
            mask,
            x.add(layer.change(x, mask, dropout)),
        ),
        term::typ(x.add(layer.change(x, mask, dropout))) == term::typ(x),
{
    lemma_layer_types(layer, config, vb, n, x, mask, dropout);
    let h = config.hidden_size;
    let masked = x.broadcast_mul(mask);
    let filtered = layer.conv_dilated.output(masked);
    let spread = separable::normalized_channels(layer.norm_1, filtered).gelu_erf();
    let mixed = layer.conv_pointwise.output(spread);
    let change = separable::normalized_channels(layer.norm_2, mixed).gelu_erf();
    let kept = nn::dropped(change, dropout);
    let y = x.add(kept);
    lemma_filters(i, layer, config, vb, n, x, mask, filtered);
    let scope = vb.item("convs_pointwise"@, n);
    assert forall|b: int, o: int, t: int| #[trigger] holds(mixed, b, o, t) implies i.at(
        mixed,
        b,
        o,
        t,
    ) == spline_laws::sum(raised_products(i, config, vb, n, filtered, b, o, t)) + i.values(
        scope.tensor("bias"@, Shape::S1(h)),
    )(o) by {
        layer_laws::lemma_pointwise(i, layer.conv_pointwise, scope, h, h, spread, b, o, t);
        let w = i.values(scope.tensor("weight"@, Shape::S3(h, h, 1)));
        let r = layer_laws::weighted(i, spread, w, h as int, b, o, t);
        let s = raised_products(i, config, vb, n, filtered, b, o, t);
        assert forall|c: int| 0 <= c < r.len() implies #[trigger] r[c] == s[c] by {
            lemma_raised(i, layer.norm_1, config, vb.item("norms_1"@, n), filtered, b, c, t);
        }
        channels::lemma_same_sum(r, s);
    }
    assert(mixes_channels(i, config, vb, n, filtered, mixed));
    assert forall|b: int, c: int, t: int| #[trigger] holds(change, b, c, t) implies i.at(
        change,
        b,
        c,
        t,
    ) == raised(i, config, vb.item("norms_2"@, n), mixed, b, c, t) by {
        lemma_raised(i, layer.norm_2, config, vb.item("norms_2"@, n), mixed, b, c, t);
    }
    assert(raises(i, config, vb, n, mixed, change));
    assert forall|b: int, c: int, t: int| #[trigger] holds(y, b, c, t) implies i.at(y, b, c, t)
        == i.at(x, b, c, t) + i.at(kept, b, c, t) by {
        channels::lemma_zip(i, x, kept, Binary::Add, b, c, t);
    }
    assert(sums(i, x, kept, y));
}

proof fn lemma_filters(
    i: Numbers,
    layer: SeparableLayer,
    config: VitsConfig,
    vb: ScopeView,
    n: nat,
    x: Term,
    mask: Term,
    filtered: Term,
)
    requires
        layer.loaded(config, vb, n),
        SeparableLayer::failure(config, vb, n) is None,
        x.shape() is S3,
        mask.shape() == Shape::S3(x.shape()->S3_0, 1, x.shape()->S3_2),
        filtered == layer.conv_dilated.output(x.broadcast_mul(mask)),
        term::typ(filtered) is Some,
        filtered.shape() == x.shape(),
        term::typ(x.broadcast_mul(mask)) == term::typ(x),
    ensures
        filters(i, config, vb, n, x, mask, filtered),
{
    let masked = x.broadcast_mul(mask);
    assert(term::typ(masked) is Some);
    let conv = layer.conv_dilated;
    let kernel = config.duration_predictor_kernel_size;
    let dilation = SeparableLayer::dilation(config, n);
    let scope = vb.item("convs_dilated"@, n);
    lemma_filtered_type(conv, scope, config, masked);
    assert(wavenet::kept_length_in_range(kernel, dilation));
    assert(0 <= (kernel * dilation - dilation) / 2 <= usize::MAX);
    assert(conv.config.padding == (kernel * dilation - dilation) / 2);
    assert(conv.config.dilation == dilation);
    let len = x.shape()->S3_2 as int;
    let w = i.values(scope.tensor("weight"@, Shape::S3(config.hidden_size, 1, kernel)));
    let padding = (kernel * dilation - dilation) / 2;
    assert forall|b: int, c: int, t: int| #[trigger] holds(filtered, b, c, t) implies i.at(
        filtered,
        b,
        c,
        t,
    ) == spline_laws::sum(
        kernel_line(
            masked_sequence(i, x, mask, b),
            len,
            w,
            kernel as int,
            dilation,
            padding,
            c,
            c,
            t,
        ),
    ) + i.values(scope.tensor("bias"@, Shape::S1(config.hidden_size)))(c) by {
        lemma_channel_conv(i, conv, masked, b, c, t);
        let g = kernel_line(
            sequence(i, masked, b),
            len,
            w,
            kernel as int,
            dilation,
            padding,
            c,
            c,
            t,
        );
        let k = kernel_line(
            masked_sequence(i, x, mask, b),
            len,
            w,
            kernel as int,
            dilation,
            padding,
            c,
            c,
            t,
        );
        assert forall|j: int| 0 <= j < g.len() implies #[trigger] g[j] == k[j] by {
            let s = t + j * dilation - padding;
            if 0 <= s < len {
                channels::lemma_masked(i, x, mask, b, c, s);
            }
        }
        assert(g =~= k);
    }
}

/// Whether the chain goes through layer `k`, where it begins with layer `from`.
pub open spec fn made(
    i: Numbers,
    config: VitsConfig,
    dropout: Real,
    vb: ScopeView,
    chain: Seq<Term>,
    mask: Term,
    from: int,
    k: int,
) -> bool {
    layer_makes(
        i,
        config,
        dropout,
        vb,
        k as nat,
        chain[k - from],
        mask,
        chain[k - from + 1],
    )
}

/// The layers from number `from` on.
proof fn lemma_layers_from(
    i: Numbers,
    stack: VitsDilatedDepthSeparableConv,
    config: VitsConfig,
    dropout: Real,
    vb: ScopeView,
    from: nat,
    x: Term,
    mask: Term,
) -> (chain: Seq<Term>)
    requires
        stack.loaded(config, dropout, vb),
        VitsDilatedDepthSeparableConv::failure_from(config, vb, from) is None,
        from <= stack.layers@.len(),
        term::typ(stack.output_from(from, x, mask)) is Some,
        x.shape() is S3,
        mask.shape() == Shape::S3(x.shape()->S3_0, 1, x.shape()->S3_2),
    ensures
        chain.len() == stack.layers@.len() - from + 1,
        chain.first() == x,
        term::typ(x) is Some,
        term::typ(chain.last()) == term::typ(x),
        stack.output_from(from, x, mask) == chain.last().broadcast_mul(mask),
        forall|k: int|
            from <= k < stack.layers@.len() ==> #[trigger] made(
                i,
                config,
                dropout,
                vb,
                chain,
                mask,
                from as int,
                k,
            ),
    decreases stack.layers@.len() - from,
{
    if from < stack.layers@.len() {
        let layer = stack.layers@[from as int];
        assert(layer.loaded(config, vb, from));
        let y = x.add(layer.change(x, mask, dropout));
        shapes::lemma_separable_from(
            stack,
            from + 1,
            y,
            mask,
            x.shape()->S3_0,
            x.shape()->S3_2,
        );
        lemma_separable_layer(i, layer, config, vb, from, x, mask, dropout);
        let rest = lemma_layers_from(i, stack, config, dropout, vb, from + 1, y, mask);
        let chain = seq![x] + rest;
        assert(chain.last() == rest.last());
        assert forall|k: int| from <= k < stack.layers@.len() implies #[trigger] made(
            i,
            config,
            dropout,
            vb,
            chain,
            mask,
            from as int,
            k,
        ) by {
            assert(chain[k - from + 1] == rest[k - from]);
            if k == from {
                assert(rest[0] == y && chain[0] == x);
            } else {
                assert(made(i, config, dropout, vb, rest, mask, from as int + 1, k));
                assert(chain[k - from] == rest[k - (from + 1)]);
            }
        }
        chain
    } else {
        shapes::lemma_masked(x, mask, x.shape()->S3_0, x.shape()->S3_2);
        seq![x]
    }
}

/// The stack adds the conditioning to its input, goes through its layers one after the other, and
/// gives what the last one gives, under the mask.
pub proof fn lemma_separable(
    i: Numbers,
    stack: VitsDilatedDepthSeparableConv,
    config: VitsConfig,
    dropout: Real,
    vb: ScopeView,
    x: Term,
    mask: Term,
    cond: Option<Term>,
) -> (chain: Seq<Term>)
    requires
        stack.loaded(config, dropout, vb),
        VitsDilatedDepthSeparableConv::failure(config, vb) is None,
        term::typ(stack.output(x, mask, cond)) is Some,
        x.shape() is S3,
        mask.shape() == Shape::S3(x.shape()->S3_0, 1, x.shape()->S3_2),
    ensures
        chain.len() == config.depth_separable_num_layers + 1,
        term::typ(x) is Some,
        term::typ(chain.first()) == term::typ(x),
        term::typ(chain.last()) == term::typ(x),
        term::typ(stack.output(x, mask, cond)) == term::typ(x),
        forall|b: int, c: int, t: int| #[trigger]
            holds(x, b, c, t) ==> i.at(chain.first(), b, c, t) == i.at(x, b, c, t) + match cond {
                Some(a) => i.at(a, b, c, t),
                None => 0real,
            } && i.at(stack.output(x, mask, cond), b, c, t) == i.at(chain.last(), b, c, t) * i.at(
                mask,
                b,
                0,
                t,
            ),
        forall|k: int|
            0 <= k < config.depth_separable_num_layers ==> #[trigger] made(
                i,
                config,
                dropout,
                vb,
                chain,
                mask,
                0,
                k,
            ),
{
    reveal(VitsDilatedDepthSeparableConv::output);
    let start = match cond {
        Some(a) => x.add(a),
        None => x,
    };
    shapes::lemma_separable_from(stack, 0, start, mask, x.shape()->S3_0, x.shape()->S3_2);
    if let Some(a) = cond {
        channels::lemma_zip(i, x, a, Binary::Add, 0, 0, 0);
    }
    assert(term::typ(start) == term::typ(x));
    let chain = lemma_layers_from(i, stack, config, dropout, vb, 0, start, mask);
    let y = stack.output(x, mask, cond);
    assert(y == chain.last().broadcast_mul(mask));
    assert(term::typ(y) == term::typ(x)) by {
        broadcast use crate::tensor::term::typing_rules;

    }
    assert forall|b: int, c: int, t: int| #[trigger] holds(x, b, c, t) implies i.at(
        chain.first(),
        b,
        c,
        t,
    ) == i.at(x, b, c, t) + match cond {
        Some(a) => i.at(a, b, c, t),
        None => 0real,
    } && i.at(y, b, c, t) == i.at(chain.last(), b, c, t) * i.at(mask, b, 0, t) by {
        if let Some(a) = cond {
            channels::lemma_zip(i, x, a, Binary::Add, b, c, t);
        }
        assert(holds(chain.last(), b, c, t));
        channels::lemma_masked(i, chain.last(), mask, b, c, t);
    }
    chain
}

} // verus!
