//! What the latent frames are made of, where arithmetic is exact.

use vstd::prelude::*;

use crate::model::alignment;
use crate::model::alignment::Alignment;
use crate::model::channels;
use crate::model::channels::holds;
use crate::model::lengths;
use crate::model::numbers;
use crate::model::numbers::Numbers;
use crate::model::positions;
use crate::model::spline_laws;
use crate::model::vits;
use crate::model::vits::{DurationTerms, VitsModel};
use crate::tensor::index;
use crate::tensor::ops::{Noise, Op1, Op2};
use crate::tensor::places;
use crate::tensor::scalar;
use crate::tensor::scalar::{Scalar, ZERO_BITS};
use crate::tensor::shape::Shape;
use crate::tensor::term;
use crate::tensor::term::Term;
use crate::tensor::typing::{Binary, Unary};

verus! {

broadcast use crate::tensor::term::strictness;

/// The number at a token and a frame, less that at the token before it.
proof fn lemma_difference(i: Numbers, x: Term, b: int, n: int, t: int)
    requires
        (i.scalar)(scalar::scalar(ZERO_BITS)) == 0real,
        term::typ(x.sub(vits::shifted_down(x))) is Some,
        holds(x, b, n, t),
    ensures
        term::typ(x.sub(vits::shifted_down(x))) == term::typ(x),
        i.at(x.sub(vits::shifted_down(x)), b, n, t) == i.at(x, b, n, t) - if n == 0 {
            0real
        } else {
            i.at(x, b, n - 1, t)
        },
{
    let y = vits::shifted_down(x);
    let (batch, rows, columns) = (x.shape()->S3_0, x.shape()->S3_1, x.shape()->S3_2);
    let zeros = Term::zeros(x.dtype(), Shape::S3(batch, 1, columns));
    let kept = x.narrow(1, 0, (rows - 1) as usize);
    assert(y == zeros.concat(kept, 1));
    assert(zeros.shape() == Shape::S3(batch, 1, columns) && kept.shape() == Shape::S3(
        batch,
        (rows - 1) as usize,
        columns,
    )) by {
        broadcast use crate::tensor::term::typing_rules;

    }
    channels::lemma_zip(i, x, y, Binary::Sub, b, n, t);
    channels::lemma_joined(i, zeros, kept, b, n, t);
    if n == 0 {
        assert(i.at(zeros, b, 0, t) == 0real) by {
            broadcast use crate::model::numbers::number_rules;

        }
    } else {
        channels::lemma_part(i, x, 0, (rows - 1) as usize, b, n - 1, t);
    }
}

/// The types that lead to the matrix of tokens and frames.
proof fn lemma_matrix_types(mask: Term, batch: usize, len: usize, frames: usize)
    requires
        term::typ(VitsModel::attention(mask, batch, len, frames)) is Some,
        mask.shape() == Shape::S3(batch, 1, len),
    ensures
        ({
            let valid = VitsModel::valid_frames(batch, len, frames);
            let steps = valid.sub(vits::shifted_down(valid));
            let high = steps.unsqueeze(1);
            let turned = high.transpose(2, 3).contiguous();
            let tokens = mask.unsqueeze(2);
            let sounding = VitsModel::output_mask(batch, frames).unsqueeze(3);
            let pairs = tokens.broadcast_mul(sounding);
            let product = turned.broadcast_mul(pairs);
            &&& term::typ(steps) is Some
            &&& valid.shape() == Shape::S3(batch, len, frames)
            &&& steps.shape() == Shape::S3(batch, len, frames)
            &&& high.shape() == Shape::S4(batch, 1, len, frames)
            &&& turned.shape() == Shape::S4(batch, 1, frames, len)
            &&& tokens.shape() == Shape::S4(batch, 1, 1, len)
            &&& sounding.shape() == Shape::S4(batch, 1, frames, 1)
            &&& pairs.shape() == Shape::S4(batch, 1, frames, len)
            &&& product.shape() == Shape::S4(batch, 1, frames, len)
            &&& VitsModel::attention(mask, batch, len, frames) == product.squeeze(1)
            &&& VitsModel::attention(mask, batch, len, frames).shape() == Shape::S3(
                batch,
                frames,
                len,
            )
        }),
{
    broadcast use crate::tensor::term::typing_rules;

}

/// Where a token and a frame meet, the matrix holds what the token's row of the frames before the
/// end has more than the row of the token before it, if both count.
proof fn lemma_matrix(
    i: Numbers,
    mask: Term,
    batch: usize,
    len: usize,
    frames: usize,
    b: int,
    n: int,
    t: int,
)
    requires
        (i.scalar)(scalar::scalar(ZERO_BITS)) == 0real,
        term::typ(VitsModel::attention(mask, batch, len, frames)) is Some,
        mask.shape() == Shape::S3(batch, 1, len),
        0 <= b < batch,
        0 <= n < len,
        0 <= t < frames,
    ensures
        ({
            let valid = VitsModel::valid_frames(batch, len, frames);
            i.at(VitsModel::attention(mask, batch, len, frames), b, t, n) == (i.at(valid, b, n, t)
                - if n == 0 {
                0real
            } else {
                i.at(valid, b, n - 1, t)
            }) * (i.at(mask, b, 0, n) * i.at(VitsModel::output_mask(batch, frames), b, 0, t))
        }),
{
    let valid = VitsModel::valid_frames(batch, len, frames);
    let omask = VitsModel::output_mask(batch, frames);
    let steps = valid.sub(vits::shifted_down(valid));
    let high = steps.unsqueeze(1);
    let flipped = high.transpose(2, 3);
    let turned = flipped.contiguous();
    let tokens = mask.unsqueeze(2);
    let sounding = omask.unsqueeze(3);
    let pairs = tokens.broadcast_mul(sounding);
    let product = turned.broadcast_mul(pairs);
    lemma_matrix_types(mask, batch, len, frames);
    assert(omask.shape() == Shape::S3(batch, 1, frames)) by {
        broadcast use crate::tensor::term::typing_rules;

    }
    let (fr, ln) = (frames as int, len as int);
    let p = ((b * 1 + 0) * fr + t) * ln + n;
    assert(p == positions::at3(fr, ln, b, t, n));
    let four = Shape::S4(batch, 1, frames, len);
    numbers::values_one(i, product, Op1::Squeeze(1));
    numbers::values_two(i, turned, pairs, Op2::Broadcast(Binary::Mul));
    numbers::values_two(i, tokens, sounding, Op2::Broadcast(Binary::Mul));
    numbers::values_one(i, flipped, Op1::Contiguous);
    numbers::values_one(i, high, Op1::Transpose(2, 3));
    numbers::values_one(i, steps, Op1::Unsqueeze(1));
    numbers::values_one(i, mask, Op1::Unsqueeze(2));
    numbers::values_one(i, omask, Op1::Unsqueeze(3));
    assert(turned.shape().spec_broadcast(pairs.shape())->0 == four);
    assert(tokens.shape().spec_broadcast(sounding.shape())->0 == four);
    places::lemma_repeated_4(turned.shape(), four, b, 0, t, n);
    places::lemma_repeated_4(pairs.shape(), four, b, 0, t, n);
    places::lemma_repeated_4(tokens.shape(), four, b, 0, t, n);
    places::lemma_repeated_4(sounding.shape(), four, b, 0, t, n);
    channels::lemma_only(batch, batch, b);
    channels::lemma_only(frames, frames, t);
    channels::lemma_only(len, len, n);
    assert(places::exchanged_shape(high.shape(), 2, 3) == four);
    places::lemma_coordinates_4(four, b, 0, t, n);
    let at = seq![b, 0int, t, n];
    assert(places::exchanged(at, 2, 3) =~= seq![b, 0int, n, t]);
    assert(index::position(high.shape(), seq![b, 0int, n, t]) == positions::at3(ln, fr, b, n, t));
    lemma_difference(i, valid, b, n, t);
    assert(((b * 1 + 0) * 1 + 0) * ln + n == positions::at3(1, ln, b, 0, n));
    assert(((b * 1 + 0) * fr + t) * 1 + 0 == positions::at3(1, fr, b, 0, t));
}

/// What every frame has from the tokens: a sum over them, weighted with the matrix.
proof fn lemma_spread(
    i: Numbers,
    attention: Term,
    x: Term,
    batch: usize,
    len: usize,
    frames: usize,
    b: int,
    c: int,
    t: int,
)
    requires
        term::typ(VitsModel::spread(attention, x)) is Some,
        attention.shape() == Shape::S3(batch, frames, len),
        x.shape() is S3,
        0 <= b < batch,
        0 <= c < x.shape()->S3_2,
        0 <= t < frames,
    ensures
        x.shape()->S3_0 == batch,
        x.shape()->S3_1 == len,
        VitsModel::spread(attention, x).shape() == Shape::S3(batch, x.shape()->S3_2, frames),
        i.at(VitsModel::spread(attention, x), b, c, t) == spline_laws::sum(
            Seq::new(len as nat, |n: int| i.at(attention, b, t, n) * i.at(x, b, n, c)),
        ),
{
    let product = attention.matmul(x);
    assert(product.shape() == Shape::S3(batch, frames, x.shape()->S3_2) && x.shape()->S3_0 == batch
        && x.shape()->S3_1 == len) by {
        broadcast use crate::tensor::term::typing_rules;

    }
    channels::lemma_turned(i, product, b, t, c);
    let width = x.shape()->S3_2 as int;
    numbers::lemma_product(
        i,
        attention,
        x,
        batch as int,
        frames as int,
        len as int,
        width,
        b,
        t,
        c,
    );
    let f = numbers::products(
        i.values(attention),
        i.values(x),
        frames as int,
        len as int,
        width,
        b,
        t,
        c,
    );
    let g = Seq::new(len as nat, |n: int| i.at(attention, b, t, n) * i.at(x, b, n, c));
    assert(f =~= g);
}

/// One where something holds, else zero.
pub open spec fn flag(holds: bool) -> real {
    if holds {
        1real
    } else {
        0real
    }
}

/// Whether the numbers that are handed in are those of a layout: one for every frame that counts,
/// and one for every token and every frame before the token's end.
pub open spec fn handed_in(
    i: Numbers,
    a: Alignment,
    batch: usize,
    len: usize,
    frames: usize,
) -> bool {
    &&& forall|b: int, t: int|
        0 <= b < batch && 0 <= t < frames ==> #[trigger] i.at(
            VitsModel::output_mask(batch, frames),
            b,
            0,
            t,
        ) == flag(a.counts(b, t))
    &&& forall|b: int, n: int, t: int|
        0 <= b < batch && 0 <= n < len && 0 <= t < frames ==> #[trigger] i.at(
            VitsModel::valid_frames(batch, len, frames),
            b,
            n,
            t,
        ) == flag(a.before_end(len as int, b, n, t))
}

/// A frame that counts has from the tokens what the token holds, between whose start and end it
/// lies, if that token counts.
pub proof fn lemma_frame_has_its_token(
    i: Numbers,
    a: Alignment,
    sums: Seq<i64>,
    ends: Seq<i64>,
    mask: Term,
    x: Term,
    batch: usize,
    len: usize,
    b: int,
    n: int,
    c: int,
    t: int,
)
    requires
        (i.scalar)(scalar::scalar(ZERO_BITS)) == 0real,
        a.lays_out(batch as int, len as int, sums, ends),
        handed_in(i, a, batch, len, a.max_length),
        alignment::ascending(ends, b * len, len as int),
        term::typ(
            VitsModel::spread(VitsModel::attention(mask, batch, len, a.max_length), x),
        ) is Some,
        mask.shape() == Shape::S3(batch, 1, len),
        x.shape() is S3,
        0 <= b < batch,
        0 <= n < len,
        0 <= c < x.shape()->S3_2,
        0 <= t < a.max_length,
        t < alignment::frames(sums[b]),
        alignment::start(ends, b * len, n) <= t < ends[b * len + n],
        i.at(mask, b, 0, n) == 1real,
    ensures
        i.at(
            VitsModel::spread(VitsModel::attention(mask, batch, len, a.max_length), x),
            b,
            c,
            t,
        ) == i.at(x, b, n, c),
{
    let frames = a.max_length;
    let attention = VitsModel::attention(mask, batch, len, frames);
    let l = len as int;
    lengths::lemma_attention_shape(mask, batch, len, frames);
    lemma_spread(i, attention, x, batch, len, frames, b, c, t);
    let s = Seq::new(len as nat, |k: int| i.at(attention, b, t, k) * i.at(x, b, k, c));
    let valid = VitsModel::valid_frames(batch, len, frames);
    let omask = VitsModel::output_mask(batch, frames);
    assert(i.at(omask, b, 0, t) == flag(a.counts(b, t)));
    assert(a.counts(b, t));
    assert forall|k: int| 0 <= k < s.len() implies (k != n ==> #[trigger] s[k] == 0real) && (k == n
        ==> s[k] == i.at(x, b, n, c)) by {
        lemma_matrix(i, mask, batch, len, frames, b, k, t);
        assert(i.at(valid, b, k, t) == flag(a.before_end(l, b, k, t)));
        assert(a.before_end(l, b, k, t) <==> t < ends[b * l + k]);
        if k > 0 {
            assert(i.at(valid, b, k - 1, t) == flag(a.before_end(l, b, k - 1, t)));
            assert(a.before_end(l, b, k - 1, t) <==> t < ends[b * l + (k - 1)]);
            assert(ends[b * l + (k - 1)] <= ends[b * l + k]);
        }
        let (u, m, y) = (i.at(mask, b, 0, k), i.at(omask, b, 0, t), i.at(x, b, k, c));
        if k < n {
            assert(ends[b * l + k] <= ends[b * l + (n - 1)]);
            assert(b * l + n - 1 == b * l + (n - 1));
            assert(0real * (u * m) * y == 0real) by (nonlinear_arith);
        } else if k > n {
            assert(ends[b * l + n] <= ends[b * l + (k - 1)]);
            assert(0real * (u * m) * y == 0real) by (nonlinear_arith);
        } else {
            if k > 0 {
                assert(b * l + n - 1 == b * l + (n - 1));
            }
            assert(1real * (u * m) * y == y) by (nonlinear_arith)
                requires
                    u == 1real,
                    m == 1real,
            ;
        }
    }
    channels::lemma_single(s, n);
}

/// The draws around means.
proof fn lemma_drawn(i: Numbers, m: VitsModel, means: Term, logs: Term, b: int, c: int, t: int)
    requires
        (i.scalar)(scalar::scalar(ZERO_BITS)) == 0real,
        term::typ(m.latents(means, logs)) is Some,
        means.shape() is S3,
    ensures
        term::typ(m.latents(means, logs)) == term::typ(means),
        i.at(m.latents(means, logs), b, c, t) == i.at(means, b, c, t) + (i.scalar)(
            Scalar::Value(m.noise_scale),
        ) * (i.exponential)(i.at(logs, b, c, t)) * i.at(
            Term::randn(Noise::Latents, means.shape()),
            b,
            c,
            t,
        ),
{
    let noise = Term::randn(Noise::Latents, means.shape());
    let widths = logs.exp();
    let drawn = noise.mul(widths);
    let f = Scalar::Value(m.noise_scale);
    let scaled = drawn.scale(f);
    assert(noise.shape() == means.shape() && logs.shape() == means.shape()) by {
        broadcast use crate::tensor::term::typing_rules;

    }
    channels::lemma_applied(i, logs, Unary::Exp, b, c, t);
    channels::lemma_zip(i, noise, widths, Binary::Mul, b, c, t);
    channels::lemma_scaled(i, drawn, f, b, c, t);
    channels::lemma_zip(i, means, scaled, Binary::Add, b, c, t);
    let (x, e, s) = (
        i.at(noise, b, c, t),
        (i.exponential)(i.at(logs, b, c, t)),
        (i.scalar)(f),
    );
    assert(x * e * s == s * e * x) by (nonlinear_arith);
}

/// The latent frames are what the inverse flow makes of draws around the prior, where the mask of
/// the output is one, and zero elsewhere. For a frame that counts, every number that goes into the
/// inverse flow is the mean that the prior has for the frame's token, plus a draw times the noise
/// scale and times the exponential of the logarithm that the prior has for it.
pub proof fn lemma_latents(
    i: Numbers,
    m: VitsModel,
    d: DurationTerms,
    a: Alignment,
    sums: Seq<i64>,
    ends: Seq<i64>,
    batch: usize,
    len: usize,
    size: usize,
) -> (z: Term)
    requires
        (i.scalar)(scalar::scalar(ZERO_BITS)) == 0real,
        a.lays_out(batch as int, len as int, sums, ends),
        handed_in(i, a, batch, len, a.max_length),
        term::typ(m.spectrogram(d, batch, len, a.max_length)) is Some,
        d.mask.shape() == Shape::S3(batch, 1, len),
        d.means.shape() == Shape::S3(batch, len, size),
        d.log_variances.shape() == Shape::S3(batch, len, size),
    ensures
        z.shape() == Shape::S3(batch, size, a.max_length),
        m.spectrogram(d, batch, len, a.max_length) == m.flow.output(
            z,
            VitsModel::output_mask(batch, a.max_length),
            None,
            true,
        ).broadcast_mul(VitsModel::output_mask(batch, a.max_length)),
        forall|b: int, n: int, c: int, t: int|
            0 <= b < batch && 0 <= n < len && #[trigger] holds(z, b, c, t)
                && #[trigger] alignment::start(ends, b * len, n) <= t < ends[b * len + n] && t
                < alignment::frames(sums[b]) && alignment::ascending(ends, b * len, len as int)
                && i.at(d.mask, b, 0, n) == 1real ==> i.at(z, b, c, t) == i.at(d.means, b, n, c)
                + (i.scalar)(Scalar::Value(m.noise_scale)) * (i.exponential)(
                i.at(d.log_variances, b, n, c),
            ) * i.at(Term::randn(Noise::Latents, z.shape()), b, c, t),
{
    broadcast use crate::model::coupling::strict_coupling;

    let frames = a.max_length;
    let attention = VitsModel::attention(d.mask, batch, len, frames);
    let means = VitsModel::spread(attention, d.means);
    let logs = VitsModel::spread(attention, d.log_variances);
    let z = m.latents(means, logs);
    let mask = VitsModel::output_mask(batch, frames);
    assert(m.spectrogram(d, batch, len, frames) == m.flow.output(z, mask, None, true).broadcast_mul(
        mask,
    ));
    lengths::lemma_attention_shape(d.mask, batch, len, frames);
    lemma_spread_shape(attention, d.means, batch, len, frames, size);
    lemma_drawn(i, m, means, logs, 0, 0, 0);
    assert forall|b: int, n: int, c: int, t: int|
        0 <= b < batch && 0 <= n < len && #[trigger] holds(z, b, c, t)
            && #[trigger] alignment::start(ends, b * len, n) <= t < ends[b * len + n] && t
            < alignment::frames(sums[b]) && alignment::ascending(ends, b * len, len as int) && i.at(
            d.mask,
            b,
            0,
            n,
        ) == 1real implies i.at(z, b, c, t) == i.at(d.means, b, n, c) + (i.scalar)(
        Scalar::Value(m.noise_scale),
    ) * (i.exponential)(i.at(d.log_variances, b, n, c)) * i.at(
        Term::randn(Noise::Latents, z.shape()),
        b,
        c,
        t,
    ) by {
        lemma_drawn(i, m, means, logs, b, c, t);
        lemma_frame_has_its_token(
            i,
            a,
            sums,
            ends,
            d.mask,
            d.means,
            batch,
            len,
            b,
            n,
            c,
            t,
        );
        lemma_frame_has_its_token(
            i,
            a,
            sums,
            ends,
            d.mask,
            d.log_variances,
            batch,
            len,
            b,
            n,
            c,
            t,
        );
    }
    z
}

proof fn lemma_spread_shape(
    attention: Term,
    x: Term,
    batch: usize,
    len: usize,
    frames: usize,
    size: usize,
)
    requires
        term::typ(VitsModel::spread(attention, x)) is Some,
        attention.shape() == Shape::S3(batch, frames, len),
        x.shape() == Shape::S3(batch, len, size),
    ensures
        VitsModel::spread(attention, x).shape() == Shape::S3(batch, size, frames),
{
    broadcast use crate::tensor::term::typing_rules;

}

/// Where the exponential of every number is positive and that of zero is one, what a draw is
/// multiplied by is positive for every logarithm of the prior, and is the noise scale where that
/// logarithm is zero: greater draws give greater latents.
pub proof fn lemma_draws_spread(
    i: Numbers,
    m: VitsModel,
    means: Term,
    logs: Term,
    b: int,
    c: int,
    t: int,
    other: int,
)
    requires
        (i.scalar)(scalar::scalar(ZERO_BITS)) == 0real,
        (i.exponential)(0real) == 1real,
        forall|x: real| #[trigger] (i.exponential)(x) > 0real,
        (i.scalar)(Scalar::Value(m.noise_scale)) > 0real,
        term::typ(m.latents(means, logs)) is Some,
        means.shape() is S3,
        i.at(means, b, c, t) == i.at(means, b, c, other),
        i.at(logs, b, c, t) == i.at(logs, b, c, other),
    ensures
        ({
            let z = m.latents(means, logs);
            let noise = Term::randn(Noise::Latents, means.shape());
            let (x, y) = (i.at(noise, b, c, t), i.at(noise, b, c, other));
            &&& x < y ==> i.at(z, b, c, t) < i.at(z, b, c, other)
            &&& i.at(logs, b, c, t) == 0real ==> i.at(z, b, c, other) - i.at(z, b, c, t)
                == (i.scalar)(Scalar::Value(m.noise_scale)) * (y - x)
        }),
{
    lemma_drawn(i, m, means, logs, b, c, t);
    lemma_drawn(i, m, means, logs, b, c, other);
    let noise = Term::randn(Noise::Latents, means.shape());
    let (x, y) = (i.at(noise, b, c, t), i.at(noise, b, c, other));
    let (s, e) = (
        (i.scalar)(Scalar::Value(m.noise_scale)),
        (i.exponential)(i.at(logs, b, c, t)),
    );
    let f = s * e;
    assert(f > 0real) by (nonlinear_arith)
        requires
            f == s * e,
            s > 0real,
            e > 0real,
    ;
    if x < y {
        assert(f * x < f * y) by (nonlinear_arith)
            requires
                f > 0real,
                x < y,
        ;
    }
    if e == 1real {
        assert(f * y - f * x == s * (y - x)) by (nonlinear_arith)
            requires
                f == s * e,
                e == 1real,
        ;
    }
}

} // verus!
