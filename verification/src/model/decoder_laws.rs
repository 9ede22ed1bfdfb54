//! What the decoder makes of its input, where arithmetic is exact.

use vstd::prelude::*;

use crate::config::VitsConfig;
use crate::model::channels;
use crate::model::channels::holds;
use crate::model::hifigan;
use crate::model::hifigan::{HifiGanResidualBlock, VitsHifiGan};
use crate::model::layer_laws;
use crate::model::layer_laws::{kernel_sum, sequence, spread_sum};
use crate::model::lengths;
use crate::model::numbers::Numbers;
use crate::model::spline_laws;
use crate::model::wavenet;
use crate::nn;
use crate::nn::{Conv1d, ScopeView};
use crate::tensor::scalar;
use crate::tensor::scalar::{Real, Scalar, ZERO_BITS};
use crate::tensor::shape::Shape;
use crate::tensor::term;
use crate::tensor::term::Term;
use crate::tensor::typing;
use crate::tensor::typing::{Binary, Unary};

verus! {

broadcast use crate::tensor::term::strictness;

/// A number, multiplied by a slope where it is negative.
pub open spec fn rectified(x: real, slope: real) -> real {
    if x >= 0real {
        x
    } else {
        slope * x
    }
}

/// A leaky rectifier keeps what is not negative and multiplies what is by the slope.
pub proof fn lemma_leaky(i: Numbers, x: Term, slope: Real, b: int, c: int, t: int)
    requires
        (i.scalar)(scalar::scalar(ZERO_BITS)) == 0real,
        term::typ(hifigan::leaky(x, slope)) is Some,
        x.shape() is S3,
    ensures
        term::typ(hifigan::leaky(x, slope)) == term::typ(x),
        i.at(hifigan::leaky(x, slope), b, c, t) == rectified(
            i.at(x, b, c, t),
            (i.scalar)(Scalar::Value(slope)),
        ),
{
    let zeros = x.zeros_like();
    let (pos, neg) = (x.maximum(zeros), x.minimum(zeros));
    let scaled = neg.scale(Scalar::Value(slope));
    lengths::lemma_leaky_type(x, slope);
    channels::lemma_zip(i, x, zeros, Binary::Maximum, b, c, t);
    channels::lemma_zip(i, x, zeros, Binary::Minimum, b, c, t);
    channels::lemma_zeros(i, x, b, c, t);
    channels::lemma_scaled(i, neg, Scalar::Value(slope), b, c, t);
    channels::lemma_zip(i, pos, scaled, Binary::Add, b, c, t);
    let (y, s) = (i.at(x, b, c, t), (i.scalar)(Scalar::Value(slope)));
    assert(0real * s == 0real && y * s == s * y) by (nonlinear_arith);
}

/// The numbers of a sequence under a leaky rectifier.
pub open spec fn rectified_sequence(
    f: spec_fn(int, int) -> real,
    slope: real,
) -> spec_fn(int, int) -> real {
    |c: int, t: int| rectified(f(c, t), slope)
}

/// A convolution behind a leaky rectifier.
proof fn lemma_conv_of_leaky(
    i: Numbers,
    conv: Conv1d,
    x: Term,
    slope: Real,
    channels: usize,
    outer: usize,
    kernel: usize,
    b: int,
    o: int,
    t: int,
)
    requires
        (i.scalar)(scalar::scalar(ZERO_BITS)) == 0real,
        conv.weight@.shape() == Shape::S3(outer, channels, kernel),
        conv.bias is Some ==> conv.bias->0@.shape() == Shape::S1(outer),
        conv.config.stride == 1,
        conv.config.groups == 1,
        x.shape() is S3,
        holds(conv.output(hifigan::leaky(x, slope)), b, o, t),
    ensures
        x.shape()->S3_1 == channels,
        i.at(conv.output(hifigan::leaky(x, slope)), b, o, t) == kernel_sum(
            rectified_sequence(sequence(i, x, b), (i.scalar)(Scalar::Value(slope))),
            channels as int,
            x.shape()->S3_2 as int,
            i.values(conv.weight@),
            kernel as int,
            conv.config.dilation as int,
            conv.config.padding as int,
            o,
            t,
        ) + layer_laws::bias_of(i, layer_laws::conv_bias(conv), o),
{
    let y = hifigan::leaky(x, slope);
    let s = (i.scalar)(Scalar::Value(slope));
    layer_laws::lemma_whole_conv(i, conv, y, b, o, t);
    lengths::lemma_leaky_type(x, slope);
    let (f, g) = (sequence(i, y, b), rectified_sequence(sequence(i, x, b), s));
    assert forall|c: int, q: int| 0 <= c < channels && 0 <= q < x.shape()->S3_2 implies #[trigger] f(
        c,
        q,
    ) == g(c, q) by {
        lemma_leaky(i, x, slope, b, c, q);
    }
    layer_laws::lemma_same_kernel_sum(
        f,
        g,
        channels as int,
        x.shape()->S3_2 as int,
        i.values(conv.weight@),
        kernel as int,
        conv.config.dilation as int,
        conv.config.padding as int,
        o,
        t,
    );
}

/// What the padding of a convolution adds and its reach takes away.
pub open spec fn kept_padding(kernel: usize, dilation: usize) -> int {
    (kernel * dilation - dilation) / 2
}

/// The length of a line under a convolution that is meant to keep it.
proof fn lemma_kept(len: usize, kernel: usize, dilation: usize)
    requires
        wavenet::kept_length_in_range(kernel, dilation as int),
    ensures
        ({
            let c = wavenet::kept_length(kernel, dilation as int, 1);
            let lost = (kernel * dilation - dilation) % 2;
            &&& c.padding == kept_padding(kernel, dilation)
            &&& c.dilation == dilation
            &&& typing::conv_length(len, kernel, c) == len - lost
        }),
{
    let c = wavenet::kept_length(kernel, dilation as int, 1);
    let e = kernel * dilation - dilation;
    assert(dilation * (kernel - 1) == e) by (nonlinear_arith)
        requires
            e == kernel * dilation - dilation,
    ;
    assert(0 <= e / 2 <= usize::MAX);
    assert(c.padding == e / 2);
    let n = len + 2 * c.padding - c.dilation * (kernel - 1) - 1;
    assert(n / 1 == n);
}

/// No pair of a block that could be built has a kernel or a dilation out of range.
proof fn lemma_in_range(
    channels: usize,
    kernel: usize,
    dilation: Seq<usize>,
    vb: ScopeView,
    i: nat,
    k: int,
)
    requires
        HifiGanResidualBlock::failure_from(channels, kernel, dilation, vb, i) is None,
        i <= k < dilation.len(),
    ensures
        wavenet::kept_length_in_range(kernel, dilation[k] as int),
        wavenet::kept_length_in_range(kernel, 1),
    decreases dilation.len() - i,
{
    if i < k {
        lemma_in_range(channels, kernel, dilation, vb, i + 1, k);
    }
}

/// What the first convolution of pair `k` gives for a sequence: over the sequence under the
/// rectifier, with the weights that the checkpoint calls `convs1`.
pub open spec fn inner_sequence(
    i: Numbers,
    f: spec_fn(int, int) -> real,
    slope: real,
    channels: usize,
    len: int,
    kernel: usize,
    dilation: usize,
    vb: ScopeView,
    k: nat,
) -> spec_fn(int, int) -> real {
    |o: int, t: int|
        kernel_sum(
            |c: int, s: int| rectified(f(c, s), slope),
            channels as int,
            len,
            i.values(
                nn::normalized_weight(vb.item("convs1"@, k), channels, channels, kernel),
            ),
            kernel as int,
            dilation as int,
            (kernel * dilation - dilation) / 2,
            o,
            t,
        ) + i.values(vb.item("convs1"@, k).tensor("bias"@, Shape::S1(channels)))(o)
}

/// One pair of convolutions, and what it adds to its input.
proof fn lemma_pair(
    i: Numbers,
    block: HifiGanResidualBlock,
    channels: usize,
    kernel: usize,
    dilation: Seq<usize>,
    slope: Real,
    vb: ScopeView,
    k: nat,
    x: Term,
    b: int,
    o: int,
    t: int,
)
    requires
        (i.scalar)(scalar::scalar(ZERO_BITS)) == 0real,
        HifiGanResidualBlock::failure(channels, kernel, dilation, vb) is None,
        block.loaded(channels, kernel, dilation, slope, vb),
        k < dilation.len(),
        term::typ(block.step(k, x)) is Some,
        holds(x, b, o, t),
    ensures
        term::typ(block.step(k, x)) == term::typ(x),
        x.shape() is S3,
        x.shape()->S3_1 == channels,
        i.at(block.step(k, x), b, o, t) - i.at(x, b, o, t) == kernel_sum(
            rectified_sequence(
                inner_sequence(
                    i,
                    sequence(i, x, b),
                    (i.scalar)(Scalar::Value(slope)),
                    channels,
                    x.shape()->S3_2 as int,
                    kernel,
                    dilation[k as int],
                    vb,
                    k,
                ),
                (i.scalar)(Scalar::Value(slope)),
            ),
            channels as int,
            x.shape()->S3_2 as int,
            i.values(
                nn::normalized_weight(vb.item("convs2"@, k), channels, channels, kernel),
            ),
            kernel as int,
            1,
            (kernel - 1) / 2,
            o,
            t,
        ) + i.values(vb.item("convs2"@, k).tensor("bias"@, Shape::S1(channels)))(o),
{
    let d = dilation[k as int];
    let s = (i.scalar)(Scalar::Value(slope));
    let pair = block.convs@[k as int];
    assert(HifiGanResidualBlock::pair_loaded(pair, channels, kernel, d, vb, k));
    let (scope1, scope2) = (vb.item("convs1"@, k), vb.item("convs2"@, k));
    let mid = pair.conv1.output(hifigan::leaky(x, slope));
    let out = pair.conv2.output(hifigan::leaky(mid, slope));
    assert(block.step(k, x) == out.add(x));
    assert(term::typ(out) is Some);
    assert(term::typ(hifigan::leaky(mid, slope)) is Some);
    assert(term::typ(mid) is Some);
    assert(term::typ(pair.conv1.weight@) is Some && term::typ(pair.conv2.weight@) is Some);
    lengths::lemma_normalized_shape(scope1, channels, channels, kernel);
    lengths::lemma_normalized_shape(scope2, channels, channels, kernel);
    assert(pair.conv1.bias->0@.shape() == Shape::S1(channels) && pair.conv2.bias->0@.shape()
        == Shape::S1(channels)) by {
        broadcast use crate::tensor::term::typing_rules;

    }
    lengths::lemma_conv_shape(
        pair.conv1,
        hifigan::leaky(x, slope),
        channels,
        channels,
        kernel,
    );
    lengths::lemma_conv_shape(
        pair.conv2,
        hifigan::leaky(mid, slope),
        channels,
        channels,
        kernel,
    );
    lengths::lemma_leaky_type(x, slope);
    lengths::lemma_leaky_type(mid, slope);
    lemma_in_range(channels, kernel, dilation, vb, 0, k as int);
    let len = x.shape()->S3_2;
    lemma_kept(len, kernel, d);
    lemma_kept(mid.shape()->S3_2, kernel, 1);
    assert(kernel * 1 - 1 == kernel - 1);
    channels::lemma_zip(i, out, x, Binary::Add, b, o, t);
    assert(typing::conv_length(len, kernel, pair.conv1.config) >= 1 && typing::conv_length(
        mid.shape()->S3_2,
        kernel,
        pair.conv2.config,
    ) >= 1) by {
        broadcast use crate::tensor::term::typing_rules;

    }
    assert(mid.shape()->S3_2 == len);
    assert(holds(out, b, o, t));
    lemma_conv_of_leaky(i, pair.conv2, mid, slope, channels, channels, kernel, b, o, t);
    let f = sequence(i, x, b);
    let inner = inner_sequence(i, f, s, channels, len as int, kernel, d, vb, k);
    let (g, h) = (
        rectified_sequence(sequence(i, mid, b), s),
        rectified_sequence(inner, s),
    );
    assert forall|c: int, q: int| 0 <= c < channels && 0 <= q < len implies #[trigger] g(c, q) == h(
        c,
        q,
    ) by {
        assert(holds(mid, b, c, q));
        lemma_conv_of_leaky(i, pair.conv1, x, slope, channels, channels, kernel, b, c, q);
    }
    layer_laws::lemma_same_kernel_sum(
        g,
        h,
        channels as int,
        len as int,
        i.values(pair.conv2.weight@),
        kernel as int,
        1,
        (kernel - 1) / 2,
        o,
        t,
    );
}

/// Whether pair `k` has made of `x` what `y` is: at every place, it adds to its input the
/// convolution with the weights that the checkpoint calls `convs2`, without dilation, of the
/// convolution with those that it calls `convs1`, with the dilation of the pair, where both see
/// their input under the rectifier.
pub open spec fn pair_adds(
    i: Numbers,
    x: Term,
    y: Term,
    channels: usize,
    kernel: usize,
    dilation: usize,
    slope: real,
    vb: ScopeView,
    k: nat,
) -> bool {
    let len = x.shape()->S3_2 as int;
    &&& term::typ(y) == term::typ(x)
    &&& forall|b: int, o: int, t: int| #[trigger]
        holds(x, b, o, t) ==> i.at(y, b, o, t) - i.at(x, b, o, t) == kernel_sum(
            rectified_sequence(
                inner_sequence(
                    i,
                    sequence(i, x, b),
                    slope,
                    channels,
                    len,
                    kernel,
                    dilation,
                    vb,
                    k,
                ),
                slope,
            ),
            channels as int,
            len,
            i.values(nn::normalized_weight(vb.item("convs2"@, k), channels, channels, kernel)),
            kernel as int,
            1,
            (kernel - 1) / 2,
            o,
            t,
        ) + i.values(vb.item("convs2"@, k).tensor("bias"@, Shape::S1(channels)))(o)
}

/// A residual block goes through its pairs of convolutions one after the other, one for every
/// dilation.
pub proof fn lemma_residual_block(
    i: Numbers,
    block: HifiGanResidualBlock,
    channels: usize,
    kernel: usize,
    dilation: Seq<usize>,
    slope: Real,
    vb: ScopeView,
    x: Term,
) -> (chain: Seq<Term>)
    requires
        (i.scalar)(scalar::scalar(ZERO_BITS)) == 0real,
        HifiGanResidualBlock::failure(channels, kernel, dilation, vb) is None,
        block.loaded(channels, kernel, dilation, slope, vb),
        term::typ(block.output(x)) is Some,
        x.shape() is S3,
    ensures
        chain.len() == dilation.len() + 1,
        chain.first() == x,
        chain.last() == block.output(x),
        forall|k: int|
            0 <= k < dilation.len() ==> pair_adds(
                i,
                chain[k],
                chain[k + 1],
                channels,
                kernel,
                #[trigger] dilation[k],
                (i.scalar)(Scalar::Value(slope)),
                vb,
                k as nat,
            ),
        term::typ(block.output(x)) == term::typ(x),
{
    reveal(HifiGanResidualBlock::output);
    lengths::lemma_block_type(block, 0, x);
    lemma_pairs_from(i, block, channels, kernel, dilation, slope, vb, 0, x)
}

proof fn lemma_pairs_from(
    i: Numbers,
    block: HifiGanResidualBlock,
    channels: usize,
    kernel: usize,
    dilation: Seq<usize>,
    slope: Real,
    vb: ScopeView,
    from: nat,
    x: Term,
) -> (chain: Seq<Term>)
    requires
        (i.scalar)(scalar::scalar(ZERO_BITS)) == 0real,
        HifiGanResidualBlock::failure(channels, kernel, dilation, vb) is None,
        block.loaded(channels, kernel, dilation, slope, vb),
        from <= dilation.len(),
        term::typ(block.output_from(from, x)) is Some,
        x.shape() is S3,
    ensures
        chain.len() == dilation.len() - from + 1,
        chain.first() == x,
        chain.last() == block.output_from(from, x),
        forall|k: int|
            from <= k < dilation.len() ==> pair_adds(
                i,
                chain[k - from],
                chain[k - from + 1],
                channels,
                kernel,
                #[trigger] dilation[k],
                (i.scalar)(Scalar::Value(slope)),
                vb,
                k as nat,
            ),
    decreases dilation.len() - from,
{
    if from < dilation.len() {
        let y = block.step(from, x);
        lengths::lemma_block_type(block, from, x);
        lengths::lemma_block_type(block, from + 1, y);
        let rest = lemma_pairs_from(
            i,
            block,
            channels,
            kernel,
            dilation,
            slope,
            vb,
            from + 1,
            y,
        );
        let chain = seq![x] + rest;
        assert(chain.last() == rest.last());
        assert forall|k: int| from <= k < dilation.len() implies pair_adds(
            i,
            chain[k - from],
            chain[k - from + 1],
            channels,
            kernel,
            #[trigger] dilation[k],
            (i.scalar)(Scalar::Value(slope)),
            vb,
            k as nat,
        ) by {
            assert(chain[k - from + 1] == rest[k - from]);
            if k == from {
                assert(rest[0] == y);
                assert forall|b: int, o: int, t: int| #[trigger] holds(x, b, o, t) implies i.at(
                    y,
                    b,
                    o,
                    t,
                ) - i.at(x, b, o, t) == kernel_sum(
                    rectified_sequence(
                        inner_sequence(
                            i,
                            sequence(i, x, b),
                            (i.scalar)(Scalar::Value(slope)),
                            channels,
                            x.shape()->S3_2 as int,
                            kernel,
                            dilation[k],
                            vb,
                            from,
                        ),
                        (i.scalar)(Scalar::Value(slope)),
                    ),
                    channels as int,
                    x.shape()->S3_2 as int,
                    i.values(
                        nn::normalized_weight(vb.item("convs2"@, from), channels, channels, kernel),
                    ),
                    kernel as int,
                    1,
                    (kernel - 1) / 2,
                    o,
                    t,
                ) + i.values(vb.item("convs2"@, from).tensor("bias"@, Shape::S1(channels)))(o) by {
                    lemma_pair(i, block, channels, kernel, dilation, slope, vb, from, x, b, o, t);
                }
            } else {
                assert(chain[k - from] == rest[k - (from + 1)]);
                assert(rest[k - (from + 1) + 1] == rest[k - from]);
            }
        }
        chain
    } else {
        seq![x]
    }
}

/// Where kernel and bias of the second convolution of every pair are zero, a residual block gives
/// its input back.
pub proof fn lemma_block_without_second(
    i: Numbers,
    block: HifiGanResidualBlock,
    channels: usize,
    kernel: usize,
    dilation: Seq<usize>,
    slope: Real,
    vb: ScopeView,
    x: Term,
    b: int,
    o: int,
    t: int,
)
    requires
        (i.scalar)(scalar::scalar(ZERO_BITS)) == 0real,
        HifiGanResidualBlock::failure(channels, kernel, dilation, vb) is None,
        block.loaded(channels, kernel, dilation, slope, vb),
        term::typ(block.output(x)) is Some,
        holds(x, b, o, t),
        forall|k: nat, p: int|
            k < dilation.len() ==> #[trigger] i.values(
                nn::normalized_weight(vb.item("convs2"@, k), channels, channels, kernel),
            )(p) == 0real,
        forall|k: nat, p: int|
            k < dilation.len() ==> #[trigger] i.values(
                vb.item("convs2"@, k).tensor("bias"@, Shape::S1(channels)),
            )(p) == 0real,
    ensures
        i.at(block.output(x), b, o, t) == i.at(x, b, o, t),
{
    let chain = lemma_residual_block(i, block, channels, kernel, dilation, slope, vb, x);
    lemma_nothing_added(i, chain, channels, kernel, dilation, slope, vb, dilation.len(), b, o, t);
}

proof fn lemma_nothing_added(
    i: Numbers,
    chain: Seq<Term>,
    channels: usize,
    kernel: usize,
    dilation: Seq<usize>,
    slope: Real,
    vb: ScopeView,
    n: nat,
    b: int,
    o: int,
    t: int,
)
    requires
        n <= dilation.len(),
        chain.len() == dilation.len() + 1,
        holds(chain[0], b, o, t),
        forall|k: int|
            0 <= k < dilation.len() ==> pair_adds(
                i,
                chain[k],
                chain[k + 1],
                channels,
                kernel,
                #[trigger] dilation[k],
                (i.scalar)(Scalar::Value(slope)),
                vb,
                k as nat,
            ),
        forall|k: nat, p: int|
            k < dilation.len() ==> #[trigger] i.values(
                nn::normalized_weight(vb.item("convs2"@, k), channels, channels, kernel),
            )(p) == 0real,
        forall|k: nat, p: int|
            k < dilation.len() ==> #[trigger] i.values(
                vb.item("convs2"@, k).tensor("bias"@, Shape::S1(channels)),
            )(p) == 0real,
    ensures
        term::typ(chain[n as int]) == term::typ(chain[0]),
        i.at(chain[n as int], b, o, t) == i.at(chain[0], b, o, t),
    decreases n,
{
    if n > 0 {
        let k = (n - 1) as nat;
        lemma_nothing_added(i, chain, channels, kernel, dilation, slope, vb, k, b, o, t);
        let x = chain[k as int];
        let d = dilation[k as int];
        assert(holds(x, b, o, t));
        let s = (i.scalar)(Scalar::Value(slope));
        let len = x.shape()->S3_2 as int;
        let w = i.values(
            nn::normalized_weight(vb.item("convs2"@, k), channels, channels, kernel),
        );
        let f = rectified_sequence(
            inner_sequence(i, sequence(i, x, b), s, channels, len, kernel, d, vb, k),
            s,
        );
        layer_laws::lemma_zero_kernel(
            f,
            channels as int,
            len,
            w,
            kernel as int,
            1,
            (kernel - 1) / 2,
            o,
            t,
        );
        assert(pair_adds(i, x, chain[k as int + 1], channels, kernel, d, s, vb, k));
        assert(i.values(vb.item("convs2"@, k).tensor("bias"@, Shape::S1(channels)))(o) == 0real);
    }
}

/// The outputs of some blocks at a place.
pub open spec fn outputs(
    i: Numbers,
    blocks: Seq<HifiGanResidualBlock>,
    x: Term,
    b: int,
    c: int,
    t: int,
) -> Seq<real> {
    Seq::new(blocks.len(), |j: int| i.at(blocks[j].output(x), b, c, t))
}

/// A sum of the outputs of blocks.
proof fn lemma_blocks_sum(
    i: Numbers,
    decoder: VitsHifiGan,
    k: nat,
    j: nat,
    sum: Term,
    x: Term,
    b: int,
    c: int,
    t: int,
)
    requires
        term::typ(decoder.sum_from(k, j, sum, x)) is Some,
        sum.shape() is S3,
        1 <= j <= decoder.resblocks@[k as int]@.len(),
        i.at(sum, b, c, t) == spline_laws::sum(
            outputs(i, decoder.resblocks@[k as int]@, x, b, c, t).take(j as int),
        ),
    ensures
        i.at(decoder.sum_from(k, j, sum, x), b, c, t) == spline_laws::sum(
            outputs(i, decoder.resblocks@[k as int]@, x, b, c, t),
        ),
    decreases decoder.resblocks@[k as int]@.len() - j,
{
    let blocks = decoder.resblocks@[k as int]@;
    let all = outputs(i, blocks, x, b, c, t);
    if j < blocks.len() {
        let y = blocks[j as int].output(x);
        let next = sum.add(y);
        lengths::lemma_blocks_sum_type(decoder, k, j, sum, x);
        lengths::lemma_blocks_sum_type(decoder, k, j + 1, next, x);
        channels::lemma_zip(i, sum, y, Binary::Add, b, c, t);
        assert(all.take(j as int + 1).drop_last() =~= all.take(j as int));
        assert(all.take(j as int + 1).last() == i.at(y, b, c, t));
        lemma_blocks_sum(i, decoder, k, j + 1, next, x, b, c, t);
    } else {
        assert(all.take(j as int) =~= all);
    }
}

/// The blocks of a stage are averaged.
pub proof fn lemma_blocks_mean(
    i: Numbers,
    decoder: VitsHifiGan,
    k: nat,
    x: Term,
    b: int,
    c: int,
    t: int,
)
    requires
        i.reckons(),
        decoder.stage_complete(k),
        term::typ(decoder.blocks_mean(k, x)) is Some,
        holds(x, b, c, t),
    ensures
        term::typ(decoder.blocks_mean(k, x)) == term::typ(x),
        i.at(decoder.blocks_mean(k, x), b, c, t) == spline_laws::sum(
            outputs(i, decoder.resblocks@[k as int]@, x, b, c, t),
        ) / (decoder.resblocks@[k as int]@.len() as real),
{
    let blocks = decoder.resblocks@[k as int]@;
    let first = blocks[0].output(x);
    let sum = decoder.sum_from(k, 1, first, x);
    lengths::lemma_blocks_mean_type(decoder, k, x);
    channels::lemma_scaled_type(sum, Scalar::OverCount(decoder.num_kernels));
    lengths::lemma_blocks_sum_type(decoder, k, 1, first, x);
    let all = outputs(i, blocks, x, b, c, t);
    channels::lemma_single(all.take(1), 0);
    lemma_blocks_sum(i, decoder, k, 1, first, x, b, c, t);
    channels::lemma_scaled(i, sum, Scalar::OverCount(decoder.num_kernels), b, c, t);
    let (y, n) = (spline_laws::sum(all), blocks.len() as real);
    assert(y * (1real / n) == y / n) by (nonlinear_arith)
        requires
            n > 0real,
    ;
}

/// Whether the transposed convolution of stage `k` has made of `x` what `u` is, with the weights
/// that the checkpoint calls `upsampler`: it brings every number, under the rectifier, to as many
/// places as its kernel has, the first of them as many places behind that of the number before it
/// as the rate of the stage says.
pub open spec fn stretched(
    i: Numbers,
    x: Term,
    u: Term,
    config: VitsConfig,
    vb: ScopeView,
    k: nat,
) -> bool {
    let (inner, outer) = (VitsHifiGan::channels(config, k), VitsHifiGan::channels(config, k + 1));
    let kernel = config.upsample_kernel_sizes@[k as int];
    let rate = config.upsample_rates@[k as int];
    let slope = (i.scalar)(Scalar::Value(config.leaky_relu_slope));
    let scope = vb.item("upsampler"@, k);
    &&& term::typ(u) is Some
    &&& u.shape() is S3
    &&& u.shape()->S3_0 == x.shape()->S3_0
    &&& u.shape()->S3_1 == outer
    &&& forall|b: int, o: int, t: int| #[trigger]
        holds(u, b, o, t) ==> i.at(u, b, o, t) == spread_sum(
            rectified_sequence(sequence(i, x, b), slope),
            inner as int,
            x.shape()->S3_2 as int,
            i.values(nn::normalized_weight(scope, inner, outer, kernel)),
            outer as int,
            kernel as int,
            rate as int,
            (kernel - rate) / 2,
            o,
            t,
        ) + i.values(scope.tensor("bias"@, Shape::S1(outer)))(o)
}

/// Whether `y` is the mean of what blocks make of `u`.
pub open spec fn averaged(
    i: Numbers,
    blocks: Seq<HifiGanResidualBlock>,
    u: Term,
    y: Term,
) -> bool {
    &&& term::typ(y) == term::typ(u)
    &&& forall|b: int, c: int, t: int| #[trigger]
        holds(u, b, c, t) ==> i.at(y, b, c, t) == spline_laws::sum(outputs(i, blocks, u, b, c, t))
            / (blocks.len() as real)
}

/// A stage stretches its input and averages what its residual blocks make of that.
pub proof fn lemma_stage(
    i: Numbers,
    decoder: VitsHifiGan,
    config: VitsConfig,
    vb: ScopeView,
    k: nat,
    x: Term,
) -> (u: Term)
    requires
        i.reckons(),
        VitsHifiGan::failure(config, vb) is None,
        decoder.loaded(config, vb),
        k < decoder.num_upsamples,
        term::typ(decoder.stage(k, x)) is Some,
    ensures
        x.shape() is S3,
        stretched(i, x, u, config, vb, k),
        averaged(i, decoder.resblocks@[k as int]@, u, decoder.stage(k, x)),
{
    if !decoder.stage_complete(k) {
        assert(decoder.stage(k, x) == Term::undefined());
    }
    let slope = config.leaky_relu_slope;
    let y = hifigan::leaky(x, slope);
    let up = decoder.upsampler@[k as int];
    let u = up.output(y);
    assert(decoder.stage(k, x) == decoder.blocks_mean(k, u));
    lengths::lemma_blocks_mean_type(decoder, k, u);
    let scope = vb.item("upsampler"@, k);
    let (inner, outer) = (VitsHifiGan::channels(config, k), VitsHifiGan::channels(config, k + 1));
    let kernel = config.upsample_kernel_sizes@[k as int];
    let rate = config.upsample_rates@[k as int];
    assert(VitsHifiGan::up_loaded(decoder.upsampler@[k as int], config, vb, k));
    lengths::lemma_normalized_shape(scope, inner, outer, kernel);
    lengths::lemma_tensor_shape(scope, "bias"@, Shape::S1(outer));
    lengths::lemma_up_shape(up, y, outer, inner, kernel);
    lengths::lemma_leaky_type(x, slope);
    lemma_rate_in_range(config, vb, 0, k);
    let s = (i.scalar)(Scalar::Value(slope));
    assert forall|b: int, o: int, t: int| #[trigger] holds(u, b, o, t) implies i.at(u, b, o, t)
        == spread_sum(
        rectified_sequence(sequence(i, x, b), s),
        inner as int,
        x.shape()->S3_2 as int,
        i.values(nn::normalized_weight(scope, inner, outer, kernel)),
        outer as int,
        kernel as int,
        rate as int,
        (kernel - rate) / 2,
        o,
        t,
    ) + i.values(scope.tensor("bias"@, Shape::S1(outer)))(o) by {
        layer_laws::lemma_spread_sum(i, up, y, b, o, t);
        let (f, g) = (sequence(i, y, b), rectified_sequence(sequence(i, x, b), s));
        assert forall|c: int, q: int| #[trigger] f(c, q) == g(c, q) by {
            lemma_leaky(i, x, slope, b, c, q);
        }
        assert(f =~= g);
    }
    assert forall|b: int, c: int, t: int| #[trigger] holds(u, b, c, t) implies i.at(
        decoder.stage(k, x),
        b,
        c,
        t,
    ) == spline_laws::sum(outputs(i, decoder.resblocks@[k as int]@, u, b, c, t)) / (
    decoder.resblocks@[k as int]@.len() as real) by {
        lemma_blocks_mean(i, decoder, k, u, b, c, t);
    }
    u
}

/// Every kernel of a decoder that could be built is as long as its rate at least.
proof fn lemma_rate_in_range(config: VitsConfig, vb: ScopeView, from: nat, k: nat)
    requires
        VitsHifiGan::ups_failure(config, vb, from) is None,
        from <= k < VitsHifiGan::up_count(config),
    ensures
        config.upsample_rates@[k as int] <= config.upsample_kernel_sizes@[k as int],
    decreases k - from,
{
    if from < k {
        lemma_rate_in_range(config, vb, from + 1, k);
    }
}

/// What goes into the first stage: a convolution with the weights that the checkpoint calls
/// `conv_pre`.
pub proof fn lemma_decoder_start(
    i: Numbers,
    decoder: VitsHifiGan,
    config: VitsConfig,
    vb: ScopeView,
    x: Term,
    b: int,
    o: int,
    t: int,
)
    requires
        decoder.loaded(config, vb),
        holds(decoder.first(x, None), b, o, t),
    ensures
        x.shape() is S3,
        i.at(decoder.first(x, None), b, o, t) == kernel_sum(
            sequence(i, x, b),
            config.flow_size as int,
            x.shape()->S3_2 as int,
            i.values(
                vb.pp("conv_pre"@).tensor(
                    "weight"@,
                    Shape::S3(config.upsample_initial_channel, config.flow_size, 7),
                ),
            ),
            7,
            1,
            3,
            o,
            t,
        ) + i.values(
            vb.pp("conv_pre"@).tensor("bias"@, Shape::S1(config.upsample_initial_channel)),
        )(o),
{
    let scope = vb.pp("conv_pre"@);
    let n = config.upsample_initial_channel;
    lengths::lemma_tensor_shape(scope, "weight"@, Shape::S3(n, config.flow_size, 7));
    assert(decoder.conv_pre.bias->0@.shape() == Shape::S1(n)) by {
        broadcast use crate::tensor::term::typing_rules;

    }
    layer_laws::lemma_whole_conv(i, decoder.conv_pre, x, b, o, t);
}

/// The sound is the hyperbolic tangent of a convolution, without bias, with the weights that the
/// checkpoint calls `conv_post`, of what the last stage gives under a rectifier with the slope
/// 0.01.
pub proof fn lemma_decoder_end(
    i: Numbers,
    decoder: VitsHifiGan,
    config: VitsConfig,
    vb: ScopeView,
    x: Term,
    b: int,
    o: int,
    t: int,
)
    requires
        (i.scalar)(scalar::scalar(ZERO_BITS)) == 0real,
        decoder.loaded(config, vb),
        x.shape() is S3,
        holds(decoder.output_from(decoder.num_upsamples as nat, x), b, o, t),
    ensures
        i.at(decoder.output_from(decoder.num_upsamples as nat, x), b, o, t) == (i.function)(
            Unary::Tanh,
            kernel_sum(
                rectified_sequence(
                    sequence(i, x, b),
                    (i.scalar)(Scalar::Value(Real { bits: 0x3F84_7AE1_47AE_147B })),
                ),
                VitsHifiGan::channels(config, config.upsample_rates@.len()) as int,
                x.shape()->S3_2 as int,
                i.values(
                    vb.pp("conv_post"@).tensor(
                        "weight"@,
                        Shape::S3(
                            1,
                            VitsHifiGan::channels(config, config.upsample_rates@.len()),
                            7,
                        ),
                    ),
                ),
                7,
                1,
                3,
                o,
                t,
            ),
        ),
{
    let slope = Real { bits: 0x3F84_7AE1_47AE_147B };
    let y = hifigan::leaky(x, slope);
    let z = decoder.conv_post.output(y);
    let n = VitsHifiGan::channels(config, config.upsample_rates@.len());
    assert(decoder.output_from(decoder.num_upsamples as nat, x) == z.tanh());
    lengths::lemma_tanh_type(z);
    lengths::lemma_tensor_shape(vb.pp("conv_post"@), "weight"@, Shape::S3(1, n, 7));
    channels::lemma_applied(i, z, Unary::Tanh, b, o, t);
    lemma_conv_of_leaky(i, decoder.conv_post, x, slope, n, 1, 7, b, o, t);
}

/// Whether stage `k` has made of `x` what `y` is.
pub open spec fn stage_makes(
    i: Numbers,
    blocks: Seq<HifiGanResidualBlock>,
    x: Term,
    y: Term,
    config: VitsConfig,
    vb: ScopeView,
    k: nat,
) -> bool {
    exists|u: Term| #[trigger] stretched(i, x, u, config, vb, k) && averaged(i, blocks, u, y)
}

/// The decoder goes from the first convolution through its stages, one for every rate, to the last
/// one.
pub proof fn lemma_decoder(
    i: Numbers,
    decoder: VitsHifiGan,
    config: VitsConfig,
    vb: ScopeView,
    x: Term,
    cond: Option<Term>,
) -> (chain: Seq<Term>)
    requires
        i.reckons(),
        VitsHifiGan::failure(config, vb) is None,
        decoder.loaded(config, vb),
        term::typ(decoder.output(x, cond)) is Some,
    ensures
        chain.len() == config.upsample_rates@.len() + 1,
        chain.first() == decoder.first(x, cond),
        forall|k: int|
            0 <= k < config.upsample_rates@.len() ==> stage_makes(
                i,
                (#[trigger] decoder.resblocks@[k])@,
                chain[k],
                chain[k + 1],
                config,
                vb,
                k as nat,
            ),
        decoder.output(x, cond) == decoder.output_from(
            config.upsample_rates@.len(),
            chain.last(),
        ),
{
    reveal(VitsHifiGan::output);
    lemma_stages(i, decoder, config, vb, 0, decoder.first(x, cond))
}

proof fn lemma_stages(
    i: Numbers,
    decoder: VitsHifiGan,
    config: VitsConfig,
    vb: ScopeView,
    from: nat,
    x: Term,
) -> (chain: Seq<Term>)
    requires
        i.reckons(),
        VitsHifiGan::failure(config, vb) is None,
        decoder.loaded(config, vb),
        from <= decoder.num_upsamples,
        term::typ(decoder.output_from(from, x)) is Some,
    ensures
        chain.len() == decoder.num_upsamples - from + 1,
        chain.first() == x,
        forall|k: int|
            from <= k < decoder.num_upsamples ==> stage_makes(
                i,
                (#[trigger] decoder.resblocks@[k])@,
                chain[k - from],
                chain[k - from + 1],
                config,
                vb,
                k as nat,
            ),
        decoder.output_from(from, x) == decoder.output_from(
            decoder.num_upsamples as nat,
            chain.last(),
        ),
    decreases decoder.num_upsamples - from,
{
    if from < decoder.num_upsamples {
        let y = decoder.stage(from, x);
        if term::typ(y) is None {
            decoder.lemma_undefined(from + 1, y);
        }
        let u = lemma_stage(i, decoder, config, vb, from, x);
        let rest = lemma_stages(i, decoder, config, vb, from + 1, y);
        let chain = seq![x] + rest;
        assert(chain.last() == rest.last());
        assert forall|k: int| from <= k < decoder.num_upsamples implies stage_makes(
            i,
            (#[trigger] decoder.resblocks@[k])@,
            chain[k - from],
            chain[k - from + 1],
            config,
            vb,
            k as nat,
        ) by {
            assert(chain[k - from + 1] == rest[k - from]);
            if k == from {
                assert(rest[0] == y);
                assert(stretched(i, x, u, config, vb, from));
            } else {
                assert(chain[k - from] == rest[k - (from + 1)]);
                assert(rest[k - (from + 1) + 1] == rest[k - from]);
            }
        }
        chain
    } else {
        seq![x]
    }
}

/// A speaker is mixed, with the weights that the checkpoint calls `cond`, and added to the first
/// convolution.
pub proof fn lemma_decoder_speaker(
    i: Numbers,
    decoder: VitsHifiGan,
    config: VitsConfig,
    vb: ScopeView,
    x: Term,
    cond: Term,
    b: int,
    o: int,
    t: int,
)
    requires
        decoder.loaded(config, vb),
        config.speaker_embedding_size != 0,
        holds(decoder.first(x, Some(cond)), b, o, t),
    ensures
        holds(decoder.first(x, None), b, o, t),
        i.at(decoder.first(x, Some(cond)), b, o, t) == i.at(decoder.first(x, None), b, o, t)
            + spline_laws::sum(
            layer_laws::weighted(
                i,
                cond,
                i.values(
                    vb.pp("cond"@).tensor(
                        "weight"@,
                        Shape::S3(
                            config.upsample_initial_channel,
                            config.speaker_embedding_size,
                            1,
                        ),
                    ),
                ),
                config.speaker_embedding_size as int,
                b,
                o,
                t,
            ),
        ) + i.values(vb.pp("cond"@).tensor("bias"@, Shape::S1(config.upsample_initial_channel)))(o),
{
    let pre = decoder.conv_pre.output(x);
    let layer = decoder.cond->0;
    let spoken = layer.output(cond);
    assert(decoder.first(x, Some(cond)) == pre.add(spoken));
    assert(decoder.first(x, None) == pre);
    assert(term::typ(pre.add(spoken)) == term::typ(pre)) by {
        broadcast use crate::tensor::term::typing_rules;

    }
    channels::lemma_zip(i, pre, spoken, Binary::Add, b, o, t);
    layer_laws::lemma_pointwise(
        i,
        layer,
        vb.pp("cond"@),
        config.speaker_embedding_size,
        config.upsample_initial_channel,
        cond,
        b,
        o,
        t,
    );
}

/// Every stage of the decoder halves the channels.
pub proof fn lemma_channels_halve(config: VitsConfig, k: nat)
    ensures
        VitsHifiGan::channels(config, 0) == config.upsample_initial_channel,
        VitsHifiGan::channels(config, k + 1) == VitsHifiGan::channels(config, k) / 2,
{
    let n = config.upsample_initial_channel as int;
    vstd::arithmetic::power::lemma_pow0(2);
    vstd::arithmetic::power::lemma_pow_positive(2, k);
    let p = vstd::arithmetic::power::pow(2, k);
    assert(vstd::arithmetic::power::pow(2, k + 1) == p * 2) by {
        reveal(vstd::arithmetic::power::pow);
        assert(2 * p == p * 2);
    }
    vstd::arithmetic::div_mod::lemma_div_denominator(n, p, 2);
    vstd::arithmetic::div_mod::lemma_div_nonincreasing(n, p);
    vstd::arithmetic::div_mod::lemma_div_pos_is_pos(n, p);
    assert(n / 1 == n);
}

} // verus!
