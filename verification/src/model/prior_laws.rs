//! What the prior is made of, where arithmetic is exact.

use vstd::prelude::*;

use crate::config::VitsConfig;
use crate::model::channels;
use crate::model::channels::holds;
use crate::model::layer_laws;
use crate::model::numbers::Numbers;
use crate::model::positions;
use crate::model::shapes;
use crate::model::spline_laws;
use crate::model::text_encoder::VitsTextEncoder;
use crate::nn::ScopeView;
use crate::tensor::index;
use crate::tensor::shape::Shape;
use crate::tensor::term;
use crate::tensor::term::Term;

verus! {

broadcast use crate::tensor::term::strictness;

/// For every place, number `k` of the means is channel `k` of the masked projection, and number `k`
/// of the logarithms of the variances is the channel that lies as many channels behind it as the
/// flow size says.
pub proof fn lemma_prior_channels(
    encoder: VitsTextEncoder,
    config: VitsConfig,
    vb: ScopeView,
    hidden: Term,
    mask: Term,
    b: int,
    n: int,
    k: int,
)
    requires
        encoder.loaded(config, vb),
        term::typ(encoder.means(hidden, mask)) is Some,
        term::typ(encoder.log_variances(hidden, mask)) is Some,
        hidden.shape() is S3,
        hidden.shape()->S3_2 == config.hidden_size,
        mask.shape() == Shape::S3(hidden.shape()->S3_0, hidden.shape()->S3_1, 1),
        0 <= b < hidden.shape()->S3_0,
        0 <= n < hidden.shape()->S3_1,
        0 <= k < config.flow_size,
    ensures
        ({
            let len = hidden.shape()->S3_1 as int;
            let size = config.flow_size as int;
            let stats = encoder.stats(hidden, mask);
            let own = positions::at3(len, size, b, n, k);
            &&& stats.shape() == Shape::S3(
                hidden.shape()->S3_0,
                hidden.shape()->S3_1,
                (2 * size) as usize,
            )
            &&& 2 * size <= usize::MAX
            &&& index::origin(encoder.means(hidden, mask), own) == index::origin(
                stats,
                positions::at3(len, 2 * size, b, n, k),
            )
            &&& index::origin(encoder.log_variances(hidden, mask), own) == index::origin(
                stats,
                positions::at3(len, 2 * size, b, n, size + k),
            )
        }),
{
    let (batch, len) = (hidden.shape()->S3_0, hidden.shape()->S3_1);
    let size = config.flow_size;
    let stats = encoder.stats(hidden, mask);
    lemma_stats_shape(encoder, config, vb, hidden, mask);
    let q = b * len + n;
    index::lemma_origin_narrow(stats, 2, 0, size, q, k, 0);
    index::lemma_origin_narrow(stats, 2, size, size, q, k, 0);
    index::lemma_narrow_shape(stats, 2, size, size);
    let m = size as int;
    assert(stats.shape()->S3_2 == 2 * m);
    assert(index::place(m, 1, q, k, 0) == positions::at3(len as int, m, b, n, k));
    assert(index::place(2 * m, 1, q, k, 0) == positions::at3(len as int, 2 * m, b, n, k));
    assert(index::place(2 * m, 1, q, m + k, 0) == positions::at3(len as int, 2 * m, b, n, m + k));
}

proof fn lemma_stats_shape(
    encoder: VitsTextEncoder,
    config: VitsConfig,
    vb: ScopeView,
    hidden: Term,
    mask: Term,
)
    requires
        encoder.loaded(config, vb),
        term::typ(encoder.stats(hidden, mask)) is Some,
        hidden.shape() is S3,
        hidden.shape()->S3_2 == config.hidden_size,
        mask.shape() == Shape::S3(hidden.shape()->S3_0, hidden.shape()->S3_1, 1),
    ensures
        ({
            let turned = hidden.transpose(1, 2).contiguous();
            let projected = encoder.project.output(turned);
            let back = projected.transpose(1, 2).contiguous();
            let outer = (2 * config.flow_size) as usize;
            let (batch, len) = (hidden.shape()->S3_0, hidden.shape()->S3_1);
            &&& term::typ(projected) is Some
            &&& turned.shape() == Shape::S3(batch, config.hidden_size, len)
            &&& projected.shape() == Shape::S3(batch, outer, len)
            &&& back.shape() == Shape::S3(batch, len, outer)
            &&& encoder.stats(hidden, mask).shape() == back.shape()
        }),
{
    let turned = hidden.transpose(1, 2).contiguous();
    let projected = encoder.project.output(turned);
    let back = projected.transpose(1, 2).contiguous();
    let outer = (2 * config.flow_size) as usize;
    let (batch, len) = (hidden.shape()->S3_0, hidden.shape()->S3_1);
    shapes::lemma_masked_places(back, mask, batch, len, outer);
    shapes::lemma_turned(projected);
    shapes::lemma_pointwise(encoder.project, vb.pp("project"@), config.hidden_size, outer, turned);
    shapes::lemma_turned(hidden);
}

/// The weighted sum of what the encoder found at a place, for a channel of the projection.
pub open spec fn projection(
    i: Numbers,
    vb: ScopeView,
    config: VitsConfig,
    hidden: Term,
    b: int,
    n: int,
    o: int,
) -> real {
    let outer = (2 * config.flow_size) as usize;
    let size = config.hidden_size;
    let scope = vb.pp("project"@);
    spline_laws::sum(
        Seq::new(
            size as nat,
            |c: int|
                i.at(hidden, b, n, c) * i.values(
                    scope.tensor("weight"@, Shape::S3(outer, size, 1)),
                )(o * size + c),
        ),
    ) + i.values(scope.tensor("bias"@, Shape::S1(outer)))(o)
}

/// A channel of the masked projection.
proof fn lemma_stats(
    i: Numbers,
    encoder: VitsTextEncoder,
    config: VitsConfig,
    vb: ScopeView,
    hidden: Term,
    mask: Term,
    b: int,
    n: int,
    o: int,
)
    requires
        encoder.loaded(config, vb),
        term::typ(encoder.stats(hidden, mask)) is Some,
        hidden.shape() is S3,
        hidden.shape()->S3_2 == config.hidden_size,
        mask.shape() == Shape::S3(hidden.shape()->S3_0, hidden.shape()->S3_1, 1),
        holds(encoder.stats(hidden, mask), b, n, o),
    ensures
        i.at(encoder.stats(hidden, mask), b, n, o) == projection(i, vb, config, hidden, b, n, o)
            * i.at(mask, b, n, 0),
{
    let turned = hidden.transpose(1, 2).contiguous();
    let projected = encoder.project.output(turned);
    let back = projected.transpose(1, 2).contiguous();
    let outer = (2 * config.flow_size) as usize;
    let size = config.hidden_size;
    lemma_stats_shape(encoder, config, vb, hidden, mask);
    assert(holds(back, b, n, o));
    channels::lemma_masked_places(i, back, mask, b, n, o);
    assert(holds(projected, b, o, n));
    channels::lemma_turned(i, projected, b, o, n);
    let scope = vb.pp("project"@);
    layer_laws::lemma_pointwise(i, encoder.project, scope, size, outer, turned, b, o, n);
    let w = i.values(scope.tensor("weight"@, Shape::S3(outer, size, 1)));
    let f = layer_laws::weighted(i, turned, w, size as int, b, o, n);
    let g = Seq::new(size as nat, |c: int| i.at(hidden, b, n, c) * w(o * size + c));
    assert forall|c: int| 0 <= c < f.len() implies #[trigger] f[c] == g[c] by {
        assert(holds(hidden, b, n, c));
        channels::lemma_turned(i, hidden, b, n, c);
    }
    channels::lemma_same_sum(f, g);
}

/// The means of the prior are, at every place, the first channels of the projection of what the
/// encoder found there, and the logarithms of the variances are those behind them, as many as the
/// flow size says of each; both are zero where the mask is.
pub proof fn lemma_prior(
    i: Numbers,
    encoder: VitsTextEncoder,
    config: VitsConfig,
    vb: ScopeView,
    hidden: Term,
    mask: Term,
    b: int,
    n: int,
    k: int,
)
    requires
        encoder.loaded(config, vb),
        term::typ(encoder.means(hidden, mask)) is Some,
        term::typ(encoder.log_variances(hidden, mask)) is Some,
        hidden.shape() is S3,
        hidden.shape()->S3_2 == config.hidden_size,
        mask.shape() == Shape::S3(hidden.shape()->S3_0, hidden.shape()->S3_1, 1),
        0 <= b < hidden.shape()->S3_0,
        0 <= n < hidden.shape()->S3_1,
        0 <= k < config.flow_size,
    ensures
        i.at(encoder.means(hidden, mask), b, n, k) == projection(i, vb, config, hidden, b, n, k)
            * i.at(mask, b, n, 0),
        i.at(encoder.log_variances(hidden, mask), b, n, k) == projection(
            i,
            vb,
            config,
            hidden,
            b,
            n,
            config.flow_size + k,
        ) * i.at(mask, b, n, 0),
{
    let size = config.flow_size;
    let stats = encoder.stats(hidden, mask);
    lemma_stats_shape(encoder, config, vb, hidden, mask);
    channels::lemma_last_part(i, stats, 0, size, b, n, k);
    channels::lemma_last_part(i, stats, size, size, b, n, k);
    assert(holds(stats, b, n, k) && holds(stats, b, n, size + k));
    lemma_stats(i, encoder, config, vb, hidden, mask, b, n, k);
    lemma_stats(i, encoder, config, vb, hidden, mask, b, n, size + k);
}

} // verus!
