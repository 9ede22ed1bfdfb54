//! How long every token sounds, where arithmetic is exact.

use vstd::prelude::*;

use crate::config::VitsConfig;
use crate::model::channels;
use crate::model::channels::holds;
use crate::model::numbers;
use crate::model::numbers::{ceiling, Numbers};
use crate::model::positions;
use crate::model::prior_laws;
use crate::model::shapes;
use crate::model::spline_laws;
use crate::model::vits::VitsModel;
use crate::nn::ScopeView;
use crate::tensor::index;
use crate::tensor::ops::Op1;
use crate::tensor::scalar;
use crate::tensor::scalar::{Real, Scalar, ONE_BITS};
use crate::tensor::shape::Shape;
use crate::tensor::term;
use crate::tensor::term::Term;
use crate::tensor::typing::Unary;

verus! {

broadcast use crate::tensor::term::strictness;

/// What the mask holds for a token: one if there is no mask.
pub open spec fn counted(i: Numbers, attention_mask: Option<Term>, len: int, b: int, n: int) -> real {
    match attention_mask {
        Some(a) => i.values(a)(b * len + n),
        None => 1real,
    }
}

/// The padding mask holds what the mask holds.
proof fn lemma_padding(
    i: Numbers,
    ids: Term,
    attention_mask: Option<Term>,
    batch: usize,
    len: usize,
    b: int,
    n: int,
)
    requires
        (i.scalar)(scalar::scalar(ONE_BITS)) == 1real,
        term::typ(VitsModel::padding_mask(ids, attention_mask).transpose(1, 2).contiguous()) is Some,
        ids.shape() == Shape::S2(batch, len),
        attention_mask matches Some(m) ==> m.shape() == Shape::S2(batch, len),
        0 <= b < batch,
        0 <= n < len,
    ensures
        ({
            let padding = VitsModel::padding_mask(ids, attention_mask);
            let mask = padding.transpose(1, 2).contiguous();
            &&& padding.shape() == Shape::S3(batch, len, 1)
            &&& mask.shape() == Shape::S3(batch, 1, len)
            &&& i.at(padding, b, n, 0) == counted(i, attention_mask, len as int, b, n)
            &&& i.at(mask, b, 0, n) == counted(i, attention_mask, len as int, b, n)
        }),
{
    let padding = VitsModel::padding_mask(ids, attention_mask);
    shapes::lemma_padding_mask(ids, attention_mask, batch, len);
    assert(positions::at3(len as int, 1, b, n, 0) == b * len + n);
    assert(i.at(padding, b, n, 0) == counted(i, attention_mask, len as int, b, n)) by {
        broadcast use crate::model::numbers::number_rules;

    }
    channels::lemma_turned(i, padding, b, n, 0);
}

/// The number of frames of a token, from the logarithm that is predicted for it.
proof fn lemma_counted(
    i: Numbers,
    logs: Term,
    mask: Term,
    rate: Real,
    batch: usize,
    len: usize,
    b: int,
    n: int,
)
    requires
        i.reckons(),
        (i.scalar)(Scalar::Value(rate)) != 0real,
        term::typ(
            logs.exp().broadcast_mul(mask).scale(Scalar::Reciprocal(rate)).ceil(),
        ) is Some,
        logs.shape() == Shape::S3(batch, 1, len),
        mask.shape() == Shape::S3(batch, 1, len),
        0 <= b < batch,
        0 <= n < len,
    ensures
        i.at(
            logs.exp().broadcast_mul(mask).scale(Scalar::Reciprocal(rate)).ceil(),
            b,
            0,
            n,
        ) == ceiling(
            i.at(mask, b, 0, n) * (i.exponential)(i.at(logs, b, 0, n)) / (i.scalar)(
                Scalar::Value(rate),
            ),
        ) as real,
{
    let lasting = logs.exp();
    let masked = lasting.broadcast_mul(mask);
    let slowed = masked.scale(Scalar::Reciprocal(rate));
    channels::lemma_applied(i, logs, Unary::Exp, b, 0, n);
    assert(holds(lasting, b, 0, n));
    channels::lemma_masked(i, lasting, mask, b, 0, n);
    channels::lemma_scaled(i, masked, Scalar::Reciprocal(rate), b, 0, n);
    channels::lemma_applied(i, slowed, Unary::Ceil, b, 0, n);
    let (e, m, r) = (
        (i.exponential)(i.at(logs, b, 0, n)),
        i.at(mask, b, 0, n),
        (i.scalar)(Scalar::Value(rate)),
    );
    lemma_slowed(e, m, r);
}

proof fn lemma_slowed(e: real, m: real, r: real)
    requires
        r != 0real,
    ensures
        (e * m) * (1real / r) == m * e / r,
{
    let x = m * e;
    assert(e * m == x) by (nonlinear_arith)
        requires
            x == m * e,
    ;
    assert(x * (1real / r) == x / r) by (nonlinear_arith)
        requires
            r != 0real,
    ;
}

/// What the first step found, by name: what the encoder found, the same with the places behind the
/// numbers for each, and the predicted logarithms.
pub struct Found {
    pub hidden: Term,
    pub turned: Term,
    pub logs: Term,
}

/// The speaking rate: the one that is asked for, else the one of the configuration.
pub open spec fn rate_of(config: VitsConfig, speaking_rate: Option<Real>) -> Real {
    match speaking_rate {
        Some(r) => r,
        None => config.speaking_rate,
    }
}

/// The frames of the first tokens of a sequence.
pub open spec fn frames_of(i: Numbers, duration: Term, b: int, tokens: int) -> Seq<real> {
    Seq::new(tokens as nat, |k: int| i.at(duration, b, 0, k))
}

/// The number of frames of a token is the least whole number that is not below the exponential of
/// the logarithm that the duration predictor gives for it, times what the mask holds for it,
/// divided by the speaking rate. The predictor sees what the encoder found, and draws with the
/// noise scale for durations. Means and logarithms of variances are projections of what the encoder
/// found. The frames of a sequence are those of its tokens together, and a token ends where those
/// up to it do.
pub proof fn lemma_durations(
    i: Numbers,
    m: VitsModel,
    config: VitsConfig,
    vb: ScopeView,
    ids: Term,
    attention_mask: Option<Term>,
    speaking_rate: Option<Real>,
    batch: usize,
    len: usize,
) -> (f: Found)
    requires
        i.reckons(),
        m.loaded(config, vb),
        m.durations(ids, attention_mask, speaking_rate).defined(),
        ids.shape() == Shape::S2(batch, len),
        attention_mask matches Some(a) ==> a.shape() == Shape::S2(batch, len),
        (i.scalar)(Scalar::Value(rate_of(config, speaking_rate))) != 0real,
    ensures
        ({
            let found = m.durations(ids, attention_mask, speaking_rate);
            &&& f.hidden == m.text_encoder.hidden(
                ids,
                VitsModel::padding_mask(ids, attention_mask),
                attention_mask,
            )
            &&& f.turned == f.hidden.transpose(1, 2).contiguous()
            &&& f.logs == m.duration_predictor.output(
                f.turned,
                found.mask,
                None,
                config.noise_scale_duration,
            )
            &&& f.hidden.shape() == Shape::S3(batch, len, config.hidden_size)
            &&& f.turned.shape() == Shape::S3(batch, config.hidden_size, len)
            &&& f.logs.shape() == Shape::S3(batch, 1, len)
            &&& forall|b: int, n: int, c: int| #[trigger]
                holds(f.hidden, b, n, c) ==> i.at(f.turned, b, c, n) == i.at(f.hidden, b, n, c)
            &&& forall|b: int, n: int|
                0 <= b < batch && 0 <= n < len ==> #[trigger] i.at(found.mask, b, 0, n) == counted(
                    i,
                    attention_mask,
                    len as int,
                    b,
                    n,
                )
            &&& forall|b: int, n: int|
                0 <= b < batch && 0 <= n < len ==> #[trigger] i.at(found.duration, b, 0, n)
                    == ceiling(
                    counted(i, attention_mask, len as int, b, n) * (i.exponential)(
                        i.at(f.logs, b, 0, n),
                    ) / (i.scalar)(Scalar::Value(rate_of(config, speaking_rate))),
                ) as real
            &&& forall|b: int, n: int, k: int|
                0 <= b < batch && 0 <= n < len && 0 <= k < config.flow_size ==> #[trigger] i.at(
                    found.means,
                    b,
                    n,
                    k,
                ) == prior_laws::projection(
                    i,
                    vb.pp("text_encoder"@),
                    config,
                    f.hidden,
                    b,
                    n,
                    k,
                ) * counted(i, attention_mask, len as int, b, n) && i.at(
                    found.log_variances,
                    b,
                    n,
                    k,
                ) == prior_laws::projection(
                    i,
                    vb.pp("text_encoder"@),
                    config,
                    f.hidden,
                    b,
                    n,
                    config.flow_size + k,
                ) * counted(i, attention_mask, len as int, b, n)
            &&& forall|b: int|
                0 <= b < batch ==> #[trigger] i.values(found.sums)(b) == spline_laws::sum(
                    frames_of(i, found.duration, b, len as int),
                )
            &&& forall|b: int, n: int|
                0 <= b < batch && 0 <= n < len ==> #[trigger] i.values(found.ends)(
                    positions::at3(1, len as int, b, 0, n),
                ) == spline_laws::sum(
                    frames_of(i, found.duration, b, n + 1),
                )
        }),
{
    broadcast use crate::model::duration_predictor::strict_predictor;

    let found = m.durations(ids, attention_mask, speaking_rate);
    let rate = rate_of(config, speaking_rate);
    let padding = VitsModel::padding_mask(ids, attention_mask);
    let encoder = m.text_encoder;
    let scope = vb.pp("text_encoder"@);
    let hidden = encoder.hidden(ids, padding, attention_mask);
    let turned = hidden.transpose(1, 2).contiguous();
    let logs = m.duration_predictor.output(turned, found.mask, None, config.noise_scale_duration);
    assert(found.duration == logs.exp().broadcast_mul(found.mask).scale(
        Scalar::Reciprocal(rate),
    ).ceil());
    shapes::lemma_duration_shapes(
        m,
        config,
        vb,
        ids,
        attention_mask,
        speaking_rate,
        batch,
        len,
    );
    shapes::lemma_padding_mask(ids, attention_mask, batch, len);
    shapes::lemma_hidden_shape(
        encoder,
        config,
        scope,
        ids,
        padding,
        attention_mask,
        batch,
        len,
    );
    shapes::lemma_turned(hidden);
    shapes::lemma_predicted_shape(
        m.duration_predictor,
        config,
        vb.pp("duration_predictor"@),
        turned,
        found.mask,
        None,
        config.noise_scale_duration,
        batch,
        len,
    );
    assert forall|b: int, n: int, c: int| #[trigger] holds(hidden, b, n, c) implies i.at(
        turned,
        b,
        c,
        n,
    ) == i.at(hidden, b, n, c) by {
        channels::lemma_turned(i, hidden, b, n, c);
    }
    assert forall|b: int, n: int| 0 <= b < batch && 0 <= n < len implies #[trigger] i.at(
        found.mask,
        b,
        0,
        n,
    ) == counted(i, attention_mask, len as int, b, n) by {
        lemma_padding(i, ids, attention_mask, batch, len, b, n);
    }
    assert forall|b: int, n: int| 0 <= b < batch && 0 <= n < len implies #[trigger] i.at(
        found.duration,
        b,
        0,
        n,
    ) == ceiling(
        counted(i, attention_mask, len as int, b, n) * (i.exponential)(i.at(logs, b, 0, n))
            / (i.scalar)(Scalar::Value(rate)),
    ) as real by {
        lemma_padding(i, ids, attention_mask, batch, len, b, n);
        lemma_counted(i, logs, found.mask, rate, batch, len, b, n);
    }
    assert forall|b: int, n: int, k: int|
        0 <= b < batch && 0 <= n < len && 0 <= k < config.flow_size implies #[trigger] i.at(
        found.means,
        b,
        n,
        k,
    ) == prior_laws::projection(i, scope, config, hidden, b, n, k) * counted(
        i,
        attention_mask,
        len as int,
        b,
        n,
    ) && i.at(found.log_variances, b, n, k) == prior_laws::projection(
        i,
        scope,
        config,
        hidden,
        b,
        n,
        config.flow_size + k,
    ) * counted(i, attention_mask, len as int, b, n) by {
        lemma_padding(i, ids, attention_mask, batch, len, b, n);
        prior_laws::lemma_prior(i, encoder, config, scope, hidden, padding, b, n, k);
    }
    assert forall|b: int| 0 <= b < batch implies #[trigger] i.values(found.sums)(b)
        == spline_laws::sum(frames_of(i, found.duration, b, len as int)) by {
        lemma_sum_of_tokens(i, found.duration, batch, len, b);
    }
    assert forall|b: int, n: int| 0 <= b < batch && 0 <= n < len implies #[trigger] i.values(
        found.ends,
    )(positions::at3(1, len as int, b, 0, n)) == spline_laws::sum(
        frames_of(i, found.duration, b, n + 1),
    ) by {
        lemma_end_of_token(i, found.duration, batch, len, b, n);
    }
    Found { hidden, turned, logs }
}

proof fn lemma_sum_of_tokens(i: Numbers, duration: Term, batch: usize, len: usize, b: int)
    requires
        duration.shape() == Shape::S3(batch, 1, len),
    ensures
        i.values(duration.sum_inner(false))(b) == spline_laws::sum(
            frames_of(i, duration, b, len as int),
        ),
{
    numbers::values_one(i, duration, Op1::SumInner(false));
    let f = numbers::line(i.values(duration), 1 * len, b);
    let g = frames_of(i, duration, b, len as int);
    assert forall|k: int| 0 <= k < f.len() implies #[trigger] f[k] == g[k] by {
        assert(b * (1 * len) + k == positions::at3(1, len as int, b, 0, k));
    }
    assert(f =~= g);
}

proof fn lemma_end_of_token(i: Numbers, duration: Term, batch: usize, len: usize, b: int, n: int)
    requires
        duration.shape() == Shape::S3(batch, 1, len),
        term::typ(duration.reshape(Shape::S2(batch, len)).cumsum(1)) is Some,
        0 <= n < len,
    ensures
        i.values(duration.reshape(Shape::S2(batch, len)).cumsum(1))(
            positions::at3(1, len as int, b, 0, n),
        ) == spline_laws::sum(frames_of(i, duration, b, n + 1)),
{
    let flat = duration.reshape(Shape::S2(batch, len));
    assert(flat.shape() == Shape::S2(batch, len)) by {
        broadcast use crate::tensor::term::typing_rules;

    }
    numbers::values_one(i, flat, Op1::Cumsum(1));
    numbers::values_one(i, duration, Op1::Reshape(Shape::S2(batch, len)));
    let p = positions::at3(1, len as int, b, 0, n);
    let m = len as int;
    index::lemma_place(m, 1, b, n, 0);
    assert(p == index::place(m, 1, b, n, 0));
    let v = i.values(flat);
    let f = Seq::new(
        (index::entry_of(m, 1, p) + 1) as nat,
        |k: int|
            v(index::place(m, 1, index::outer_of(m, 1, p), k, index::rest_of(1, p))),
    );
    let g = frames_of(i, duration, b, n + 1);
    assert forall|k: int| 0 <= k < f.len() implies #[trigger] f[k] == g[k] by {
        assert(index::place(m, 1, b, k, 0) == positions::at3(1, m, b, 0, k));
    }
    assert(f =~= g);
}

/// Every token that counts sounds, whatever is predicted for it, and no other does: where the mask
/// is one it lasts at least one frame, where the mask is zero it lasts none.
pub proof fn lemma_every_token_sounds(
    i: Numbers,
    m: VitsModel,
    config: VitsConfig,
    vb: ScopeView,
    ids: Term,
    attention_mask: Option<Term>,
    speaking_rate: Option<Real>,
    batch: usize,
    len: usize,
    b: int,
    n: int,
)
    requires
        i.reckons(),
        forall|x: real| #[trigger] (i.exponential)(x) > 0real,
        m.loaded(config, vb),
        m.durations(ids, attention_mask, speaking_rate).defined(),
        ids.shape() == Shape::S2(batch, len),
        attention_mask matches Some(a) ==> a.shape() == Shape::S2(batch, len),
        (i.scalar)(Scalar::Value(rate_of(config, speaking_rate))) > 0real,
        0 <= b < batch,
        0 <= n < len,
    ensures
        ({
            let frames = i.at(m.durations(ids, attention_mask, speaking_rate).duration, b, 0, n);
            let mask = counted(i, attention_mask, len as int, b, n);
            &&& mask == 1real ==> frames >= 1real
            &&& mask == 0real ==> frames == 0real
        }),
{
    let f = lemma_durations(
        i,
        m,
        config,
        vb,
        ids,
        attention_mask,
        speaking_rate,
        batch,
        len,
    );
    let e = (i.exponential)(i.at(f.logs, b, 0, n));
    let mask = counted(i, attention_mask, len as int, b, n);
    let r = (i.scalar)(Scalar::Value(rate_of(config, speaking_rate)));
    let found = m.durations(ids, attention_mask, speaking_rate);
    assert(i.at(found.duration, b, 0, n) == ceiling(mask * e / r) as real);
    if mask == 1real {
        assert(mask * e / r > 0real) by (nonlinear_arith)
            requires
                mask == 1real,
                e > 0real,
                r > 0real,
        ;
    }
    if mask == 0real {
        assert(mask * e / r == 0real) by (nonlinear_arith)
            requires
                mask == 0real,
                r > 0real,
        ;
    }
}

/// Who speaks faster is done no later: at a greater rate, with the same draws, no token lasts
/// longer.
pub proof fn lemma_faster(
    i: Numbers,
    m: VitsModel,
    config: VitsConfig,
    vb: ScopeView,
    ids: Term,
    attention_mask: Option<Term>,
    slow: Real,
    fast: Real,
    batch: usize,
    len: usize,
    b: int,
    n: int,
)
    requires
        i.reckons(),
        forall|x: real| #[trigger] (i.exponential)(x) > 0real,
        m.loaded(config, vb),
        m.durations(ids, attention_mask, Some(slow)).defined(),
        m.durations(ids, attention_mask, Some(fast)).defined(),
        ids.shape() == Shape::S2(batch, len),
        attention_mask matches Some(a) ==> a.shape() == Shape::S2(batch, len),
        0real < (i.scalar)(Scalar::Value(slow)) <= (i.scalar)(Scalar::Value(fast)),
        0 <= b < batch,
        0 <= n < len,
        counted(i, attention_mask, len as int, b, n) >= 0real,
    ensures
        i.at(m.durations(ids, attention_mask, Some(fast)).duration, b, 0, n) <= i.at(
            m.durations(ids, attention_mask, Some(slow)).duration,
            b,
            0,
            n,
        ),
{
    let f = lemma_durations(i, m, config, vb, ids, attention_mask, Some(slow), batch, len);
    let g = lemma_durations(i, m, config, vb, ids, attention_mask, Some(fast), batch, len);
    let (x, y) = (
        m.durations(ids, attention_mask, Some(slow)),
        m.durations(ids, attention_mask, Some(fast)),
    );
    assert(x.mask == y.mask);
    assert(f.logs == g.logs);
    let e = (i.exponential)(i.at(f.logs, b, 0, n));
    let mask = counted(i, attention_mask, len as int, b, n);
    let (r, s) = ((i.scalar)(Scalar::Value(slow)), (i.scalar)(Scalar::Value(fast)));
    assert(i.at(x.duration, b, 0, n) == ceiling(mask * e / r) as real);
    assert(i.at(y.duration, b, 0, n) == ceiling(
        mask * (i.exponential)(i.at(g.logs, b, 0, n)) / s,
    ) as real);
    let z = mask * e;
    assert(z >= 0real) by (nonlinear_arith)
        requires
            z == mask * e,
            mask >= 0real,
            e > 0real,
    ;
    assert(z / s <= z / r) by (nonlinear_arith)
        requires
            z >= 0real,
            0real < r <= s,
    ;
    assert(ceiling(z / s) <= ceiling(z / r));
}

} // verus!
