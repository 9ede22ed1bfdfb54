//! Tensors of a checkpoint that the model has no use for.

use vstd::prelude::*;

use crate::config::VitsConfig;
use crate::model::alike;
use crate::model::duration_predictor::{Flow, VitsStochasticDurationPredictor};
use crate::model::flows::VitsConvFlow;
use crate::model::separable::VitsDilatedDepthSeparableConv;
use crate::model::vits::VitsModel;
use crate::nn;
use crate::nn::ScopeView;
use crate::tensor::meaning::Interpretation;
use crate::tensor::scalar::{Real, ZERO_BITS};
use crate::tensor::shape::Shape;
use crate::tensor::term::Term;
use crate::tensor::typing::ConvConfig;
use crate::text;

verus! {

/// Whether a name is that of a tensor in the given part of a model.
pub open spec fn within(name: Seq<char>, part: Seq<char>) -> bool {
    (part + "."@).is_prefix_of(name)
}

/// Whether a name is that of a tensor in one of the four parts of the model.
pub open spec fn of_the_model(name: Seq<char>) -> bool {
    ||| within(name, "text_encoder"@)
    ||| within(name, "flow"@)
    ||| within(name, "decoder"@)
    ||| within(name, "duration_predictor"@)
}

/// What is found under a name does not change when tensors with other names are put behind.
proof fn lemma_lookup_appended(
    entries: Seq<(Seq<char>, Shape)>,
    more: Seq<(Seq<char>, Shape)>,
    name: Seq<char>,
    from: int,
)
    requires
        0 <= from <= entries.len() + more.len(),
        forall|i: int| 0 <= i < more.len() ==> (#[trigger] more[i]).0 != name,
    ensures
        nn::lookup(entries + more, name, from) == nn::lookup(entries, name, from),
    decreases entries.len() + more.len() - from,
{
    if from < entries.len() + more.len() {
        lemma_lookup_appended(entries, more, name, from + 1);
        if from >= entries.len() {
            assert((entries + more)[from] == more[from - entries.len()]);
        }
    }
}

/// A part of the model finds the same when tensors outside of the model are put behind.
proof fn lemma_part(
    entries: Seq<(Seq<char>, Shape)>,
    more: Seq<(Seq<char>, Shape)>,
    part: Seq<char>,
)
    requires
        forall|i: int| 0 <= i < more.len() ==> !within((#[trigger] more[i]).0, part),
    ensures
        nn::whole(entries + more).pp(part) == nn::whole(entries).pp(part),
{
    let before = nn::whole(entries).pp(part).find;
    let after = nn::whole(entries + more).pp(part).find;
    assert forall|inner: Seq<char>| #[trigger] after(inner) == before(inner) by {
        let name = part + "."@ + inner;
        assert((part + "."@).is_prefix_of(name)) by {
            assert(part + "."@ =~= name.subrange(0, (part + "."@).len() as int));
        }
        lemma_lookup_appended(entries, more, name, 0);
    }
    assert(after =~= before);
}

/// Tensors outside of the four parts of the model, put behind those of a checkpoint, do not change
/// whether the model can be built, nor which model it is.
pub proof fn lemma_other_tensors_ignored(
    config: VitsConfig,
    entries: Seq<(Seq<char>, Shape)>,
    more: Seq<(Seq<char>, Shape)>,
    model: VitsModel,
)
    requires
        forall|i: int| 0 <= i < more.len() ==> !of_the_model((#[trigger] more[i]).0),
    ensures
        VitsModel::failure(config, nn::whole(entries + more)) == VitsModel::failure(
            config,
            nn::whole(entries),
        ),
        model.loaded(config, nn::whole(entries + more)) <==> model.loaded(
            config,
            nn::whole(entries),
        ),
{
    lemma_part(entries, more, "text_encoder"@);
    lemma_part(entries, more, "flow"@);
    lemma_part(entries, more, "decoder"@);
    lemma_part(entries, more, "duration_predictor"@);
}

/// Whether two parts of checkpoints hold tensors with the same values.
pub open spec fn same_tensors<V>(i: Interpretation<V>, a: ScopeView, b: ScopeView) -> bool {
    forall|name: Seq<char>, shape: Shape|
        i.value(#[trigger] a.tensor(name, shape)) == i.value(b.tensor(name, shape))
}

/// Whether two parts of checkpoints hold tensors with the same values, but for those of a part.
pub open spec fn same_outside<V>(
    i: Interpretation<V>,
    a: ScopeView,
    b: ScopeView,
    part: Seq<char>,
) -> bool {
    forall|name: Seq<char>, shape: Shape|
        !within(name, part) ==> i.value(#[trigger] a.tensor(name, shape)) == i.value(
            b.tensor(name, shape),
        )
}

/// A part of parts with the same tensors.
proof fn lemma_inner_part<V>(i: Interpretation<V>, a: ScopeView, b: ScopeView, name: Seq<char>)
    requires
        same_tensors(i, a, b),
    ensures
        same_tensors(i, a.pp(name), b.pp(name)),
{
    assert forall|inner: Seq<char>, shape: Shape|
        i.value(#[trigger] a.pp(name).tensor(inner, shape)) == i.value(
            b.pp(name).tensor(inner, shape),
        ) by {
        let whole = name + "."@ + inner;
        assert(i.value(a.tensor(whole, shape)) == i.value(b.tensor(whole, shape)));
    }
}

/// A part that no name of the excepted one lies in.
proof fn lemma_outer_part<V>(
    i: Interpretation<V>,
    a: ScopeView,
    b: ScopeView,
    part: Seq<char>,
    name: Seq<char>,
)
    requires
        same_outside(i, a, b, part),
        forall|inner: Seq<char>| !within(#[trigger] (name + "."@ + inner), part),
    ensures
        same_tensors(i, a.pp(name), b.pp(name)),
{
    assert forall|inner: Seq<char>, shape: Shape|
        i.value(#[trigger] a.pp(name).tensor(inner, shape)) == i.value(
            b.pp(name).tensor(inner, shape),
        ) by {
        let whole = name + "."@ + inner;
        assert(!within(whole, part));
        assert(i.value(a.tensor(whole, shape)) == i.value(b.tensor(whole, shape)));
    }
}

/// Tensors with the same values, of the same shape, are alike.
proof fn lemma_tensor_alike<V>(
    i: Interpretation<V>,
    a: ScopeView,
    b: ScopeView,
    name: Seq<char>,
    shape: Shape,
)
    requires
        same_tensors(i, a, b),
    ensures
        i.alike(a.tensor(name, shape), b.tensor(name, shape)),
{
    broadcast use crate::tensor::term::typing_rules;

}

proof fn lemma_conv<V>(
    i: Interpretation<V>,
    c: nn::Conv1d,
    d: nn::Conv1d,
    a: ScopeView,
    b: ScopeView,
    inner: usize,
    outer: usize,
    kernel: usize,
    config: ConvConfig,
)
    requires
        same_tensors(i, a, b),
        c.loaded(a, inner, outer, kernel, config),
        d.loaded(b, inner, outer, kernel, config),
    ensures
        alike::convs_alike(i, c, d),
{
    lemma_tensor_alike(i, a, b, "weight"@, Shape::S3(outer, inner, kernel));
    lemma_tensor_alike(i, a, b, "bias"@, Shape::S1(outer));
}

proof fn lemma_norm<V>(
    i: Interpretation<V>,
    c: nn::LayerNorm,
    d: nn::LayerNorm,
    a: ScopeView,
    b: ScopeView,
    size: usize,
    eps: Real,
)
    requires
        same_tensors(i, a, b),
        c.loaded(a, size, eps),
        d.loaded(b, size, eps),
    ensures
        alike::norms_alike(i, c, d),
{
    lemma_tensor_alike(i, a, b, "weight"@, Shape::S1(size));
    lemma_tensor_alike(i, a, b, "bias"@, Shape::S1(size));
}

proof fn lemma_stack<V>(
    i: Interpretation<V>,
    c: VitsDilatedDepthSeparableConv,
    d: VitsDilatedDepthSeparableConv,
    config: VitsConfig,
    rate: Real,
    a: ScopeView,
    b: ScopeView,
)
    requires
        same_tensors(i, a, b),
        c.loaded(config, rate, a),
        d.loaded(config, rate, b),
    ensures
        alike::stacks_alike(i, c, d),
{
    assert forall|n: int| 0 <= n < c.layers@.len() implies alike::layers_alike(
        i,
        #[trigger] c.layers@[n],
        d.layers@[n],
    ) by {
        let (f, g) = (c.layers@[n], d.layers@[n]);
        let k = n as nat;
        assert(f.loaded(config, a, k) && g.loaded(config, b, k));
        let h = config.hidden_size;
        let kernel = config.duration_predictor_kernel_size;
        lemma_inner_part(i, a, b, "convs_dilated"@ + "."@ + text::digits(k));
        lemma_inner_part(i, a, b, "convs_pointwise"@ + "."@ + text::digits(k));
        lemma_inner_part(i, a, b, "norms_1"@ + "."@ + text::digits(k));
        lemma_inner_part(i, a, b, "norms_2"@ + "."@ + text::digits(k));
        lemma_conv(
            i,
            f.conv_dilated,
            g.conv_dilated,
            a.item("convs_dilated"@, k),
            b.item("convs_dilated"@, k),
            1,
            h,
            kernel,
            f.conv_dilated.config,
        );
        lemma_conv(
            i,
            f.conv_pointwise,
            g.conv_pointwise,
            a.item("convs_pointwise"@, k),
            b.item("convs_pointwise"@, k),
            h,
            h,
            1,
            nn::plain_conv(),
        );
        let eps = config.layer_norm_eps;
        lemma_norm(
            i,
            f.norm_1,
            g.norm_1,
            a.item("norms_1"@, k),
            b.item("norms_1"@, k),
            h,
            eps,
        );
        lemma_norm(
            i,
            f.norm_2,
            g.norm_2,
            a.item("norms_2"@, k),
            b.item("norms_2"@, k),
            h,
            eps,
        );
    }
}

proof fn lemma_flow<V>(
    i: Interpretation<V>,
    c: Flow,
    d: Flow,
    config: VitsConfig,
    a: ScopeView,
    b: ScopeView,
    n: nat,
)
    requires
        same_tensors(i, a.item("flows"@, n), b.item("flows"@, n)),
        VitsStochasticDurationPredictor::flow_loaded(c, config, a, n),
        VitsStochasticDurationPredictor::flow_loaded(d, config, b, n),
    ensures
        alike::flows_alike(i, c, d),
{
    let (p, q) = (a.item("flows"@, n), b.item("flows"@, n));
    match (c, d) {
        (Flow::Affine(f), Flow::Affine(g)) => {
            let shape = Shape::S2(config.depth_separable_channels, 1);
            lemma_tensor_alike(i, p, q, "translate"@, shape);
            lemma_tensor_alike(i, p, q, "log_scale"@, shape);
        },
        (Flow::Conv(f), Flow::Conv(g)) => {
            lemma_inner_part(i, p, q, "conv_pre"@);
            lemma_inner_part(i, p, q, "conv_dds"@);
            lemma_inner_part(i, p, q, "conv_proj"@);
            lemma_conv(
                i,
                f.conv_pre,
                g.conv_pre,
                p.pp("conv_pre"@),
                q.pp("conv_pre"@),
                VitsConvFlow::half(config),
                config.hidden_size,
                1,
                nn::plain_conv(),
            );
            lemma_stack(
                i,
                f.conv_dds,
                g.conv_dds,
                config,
                Real { bits: ZERO_BITS },
                p.pp("conv_dds"@),
                q.pp("conv_dds"@),
            );
            lemma_conv(
                i,
                f.conv_proj,
                g.conv_proj,
                p.pp("conv_proj"@),
                q.pp("conv_proj"@),
                config.hidden_size,
                VitsConvFlow::spline_channels(config) as usize,
                1,
                nn::plain_conv(),
            );
        },
        _ => {},
    }
}

/// The name of the second flow.
pub open spec fn second_flow() -> Seq<char> {
    "flows"@ + "."@ + text::digits(1)
}

/// No digit of a number is a dot.
proof fn lemma_digits(n: nat)
    ensures
        text::digits(n).len() >= 1,
        forall|k: int| 0 <= k < text::digits(n).len() ==> #[trigger] text::digits(n)[k] != '.',
        text::digits(n).len() == 1 && text::digits(n)[0] == text::digits(1)[0] ==> n == 1,
    decreases n,
{
    assert(text::digits(1) == seq![text::digit(1)]);
    if n >= 10 {
        lemma_digits(n / 10);
    }
}

/// No name of another flow lies in the second.
proof fn lemma_other_flow(n: nat, inner: Seq<char>)
    requires
        n != 1,
    ensures
        !within("flows"@ + "."@ + text::digits(n) + "."@ + inner, second_flow()),
{
    reveal_strlit("flows");
    reveal_strlit(".");
    lemma_digits(n);
    let name = "flows"@ + "."@ + text::digits(n) + "."@ + inner;
    let start = second_flow() + "."@;
    assert(text::digits(1) == seq![text::digit(1)]);
    if start.is_prefix_of(name) {
        assert(start[6] == name[6]);
        assert(start[7] == name[7]);
        assert(start[7] == '.');
        assert(name[6] == text::digits(n)[0]);
        if text::digits(n).len() >= 2 {
            assert(name[7] == text::digits(n)[1]);
        }
    }
}

/// No name that begins otherwise lies in the second flow.
proof fn lemma_other_part(name: Seq<char>, inner: Seq<char>)
    requires
        name.len() > 0,
        name[0] != 'f',
    ensures
        !within(name + "."@ + inner, second_flow()),
{
    reveal_strlit("flows");
    let start = second_flow() + "."@;
    let whole = name + "."@ + inner;
    if start.is_prefix_of(whole) {
        assert(start[0] == whole[0]);
    }
}

/// The tensors of the second flow have no influence on the durations: predictors from checkpoints
/// that hold the same outside of it find the same.
pub proof fn lemma_second_flow_unused<V>(
    i: Interpretation<V>,
    c: VitsStochasticDurationPredictor,
    d: VitsStochasticDurationPredictor,
    config: VitsConfig,
    a: ScopeView,
    b: ScopeView,
    x: Term,
    mask: Term,
    cond: Option<Term>,
    noise_scale: Real,
)
    requires
        c.loaded(config, a),
        d.loaded(config, b),
        same_outside(i, a, b, second_flow()),
    ensures
        i.alike(c.output(x, mask, cond, noise_scale), d.output(x, mask, cond, noise_scale)),
{
    let h = config.hidden_size;
    reveal_strlit("conv_pre");
    reveal_strlit("conv_proj");
    reveal_strlit("conv_dds");
    reveal_strlit("cond");
    lemma_named_part(i, a, b, "conv_pre"@);
    lemma_named_part(i, a, b, "conv_proj"@);
    lemma_named_part(i, a, b, "conv_dds"@);
    lemma_named_part(i, a, b, "cond"@);
    lemma_conv(
        i,
        c.conv_pre,
        d.conv_pre,
        a.pp("conv_pre"@),
        b.pp("conv_pre"@),
        h,
        h,
        1,
        nn::plain_conv(),
    );
    lemma_conv(
        i,
        c.conv_proj,
        d.conv_proj,
        a.pp("conv_proj"@),
        b.pp("conv_proj"@),
        h,
        h,
        1,
        nn::plain_conv(),
    );
    lemma_stack(
        i,
        c.conv_dds,
        d.conv_dds,
        config,
        config.duration_predictor_dropout,
        a.pp("conv_dds"@),
        b.pp("conv_dds"@),
    );
    match (c.cond, d.cond) {
        (Some(f), Some(g)) => {
            lemma_conv(
                i,
                f,
                g,
                a.pp("cond"@),
                b.pp("cond"@),
                config.speaker_embedding_size,
                h,
                1,
                nn::plain_conv(),
            );
        },
        _ => {},
    }
    assert forall|n: int| 0 <= n < c.flows@.len() && n != 1 implies alike::flows_alike(
        i,
        #[trigger] c.flows@[n],
        d.flows@[n],
    ) by {
        let k = n as nat;
        let name = "flows"@ + "."@ + text::digits(k);
        assert forall|inner: Seq<char>| !within(
            #[trigger] (name + "."@ + inner),
            second_flow(),
        ) by {
            lemma_other_flow(k, inner);
        }
        lemma_outer_part(i, a, b, second_flow(), name);
        lemma_flow(i, c.flows@[n], d.flows@[n], config, a, b, k);
    }
    alike::lemma_predictors_alike(i, c, d, x, x, mask, mask, cond, noise_scale);
}

proof fn lemma_named_part<V>(i: Interpretation<V>, a: ScopeView, b: ScopeView, name: Seq<char>)
    requires
        same_outside(i, a, b, second_flow()),
        name.len() > 0,
        name[0] != 'f',
    ensures
        same_tensors(i, a.pp(name), b.pp(name)),
{
    assert forall|inner: Seq<char>| !within(#[trigger] (name + "."@ + inner), second_flow()) by {
        lemma_other_part(name, inner);
    }
    lemma_outer_part(i, a, b, second_flow(), name);
}

} // verus!
