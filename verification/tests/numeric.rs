//! The expressions of the layers, evaluated on small examples.

use std::collections::HashMap;
use std::rc::Rc;

use candle_core::{DType as CandleType, Device, Module, Result, Tensor as Values, D};

use kan_tts::config;
use kan_tts::config::VitsConfig;
use kan_tts::model::attention;
use kan_tts::model::coupling::VitsResidualCouplingBlock;
use kan_tts::model::duration_predictor;
use kan_tts::model::duration_predictor::VitsStochasticDurationPredictor;
use kan_tts::model::flows;
use kan_tts::model::flows::{VitsConvFlow, VitsElementwiseAffine};
use kan_tts::model::hifigan;
use kan_tts::model::lines;
use kan_tts::model::spline;
use kan_tts::model::tensor_ext::FlipExt;
use kan_tts::model::text_encoder::{build_bidirectional_mask, VitsTextEncoder};
use kan_tts::model::vits;
use kan_tts::model::vits::{SynthesisError, VitsModel};
use kan_tts::model::wavenet;
use kan_tts::nn;
use kan_tts::nn::{Checkpoint, LoadError, Scope};
use kan_tts::tensor::expr::{Tensor, TensorError};
use kan_tts::tensor::ops::{
    check_1, check_2, check_3, check_leaf, Leaf, Noise, Op1, Op2, Op3, Slot,
};
use kan_tts::tensor::plan::{last_marked, Plan, Step};
use kan_tts::tensor::scalar;
use kan_tts::tensor::scalar::{Real, Scalar};
use kan_tts::tensor::shape::Shape;
use kan_tts::tensor::term::Term;
use kan_tts::tensor::typing::{Binary, Comparison, DType, Type, Unary};

fn dims(shape: Shape) -> Vec<usize> {
    match shape {
        Shape::S0 => vec![],
        Shape::S1(a) => vec![a],
        Shape::S2(a, b) => vec![a, b],
        Shape::S3(a, b, c) => vec![a, b, c],
        Shape::S4(a, b, c, d) => vec![a, b, c, d],
        Shape::S5(a, b, c, d, e) => vec![a, b, c, d, e],
        Shape::S6(a, b, c, d, e, f) => vec![a, b, c, d, e, f],
    }
}

fn element_type(dtype: DType) -> CandleType {
    match dtype {
        DType::U8 => CandleType::U8,
        DType::U32 => CandleType::U32,
        DType::I64 => CandleType::I64,
        DType::F16 => CandleType::F16,
        DType::F32 => CandleType::F32,
        DType::F64 => CandleType::F64,
    }
}

fn float(x: Real) -> f64 {
    f64::from_bits(x.bits)
}

fn number(scalar: Scalar) -> f64 {
    match scalar {
        Scalar::Value(x) => float(x),
        Scalar::Negated(x) => -float(x),
        Scalar::Reciprocal(x) => 1.0 / float(x),
        Scalar::Span(x) => float(x) - (-float(x)),
        Scalar::LastIndex(n) => n as f64 - 1.0,
        Scalar::OverCount(n) => 1.0 / n as f64,
        Scalar::Sqrt(n) => (n as f64).sqrt(),
        Scalar::InverseSqrt(n) => (n as f64).powf(-0.5),
        Scalar::OverSqrt(n) => 1.0 / (n as f64).sqrt(),
        Scalar::Remainder(x, n) => 1.0 - float(x) * n as f64,
        Scalar::SoftplusInverse(x) => ((1.0 - float(x)).exp() - 1.0).ln(),
    }
}

/// The values that expressions refer to, and the results of the steps that have been run, with
/// their types.
struct Evaluator {
    device: Device,
    params: Vec<Values>,
    inputs: HashMap<Slot, Values>,
    draws: HashMap<(Noise, Shape), Values>,
    plan: Plan,
    results: Vec<(Values, Type)>,
}

impl Evaluator {
    fn new(params: Vec<Values>, device: Device) -> Self {
        Self {
            device,
            params,
            inputs: HashMap::new(),
            draws: HashMap::new(),
            plan: Plan::new(),
            results: Vec::new(),
        }
    }

    fn set(&mut self, slot: Slot, value: Values) {
        self.inputs.insert(slot, value);
    }

    fn run(&mut self, step: Step) -> Result<(Values, Type)> {
        let (value, ty) = match step {
            Step::Zero(leaf) => (self.leaf(leaf)?, check_leaf(leaf)),
            Step::One(op, a) => {
                let (x, t) = &self.results[a];
                (one(op, x)?, check_1(op, *t))
            }
            Step::Two(op, a, b) => {
                let ((x, t), (y, u)) = (&self.results[a], &self.results[b]);
                (two(op, x, y)?, check_2(op, *t, *u))
            }
            Step::Three(op, a, b, c) => {
                let (x, t) = &self.results[a];
                let (y, u) = &self.results[b];
                let (z, v) = &self.results[c];
                (three(op, x, y, z)?, check_3(op, *t, *u, *v))
            }
        };
        Ok((value, ty.unwrap()))
    }

    /// The value of an expression. What it has in common with others is computed once, and every
    /// value is held to the type of its expression.
    fn eval(&mut self, term: &Rc<Term>) -> Result<Values> {
        let wanted = self.plan.add(term);
        while self.results.len() < self.plan.steps().len() {
            let step = self.plan.steps()[self.results.len()];
            let (value, ty) = self.run(step)?;
            assert_eq!(value.dims(), dims(ty.shape).as_slice(), "{step:?}");
            assert_eq!(value.dtype(), element_type(ty.dtype), "{step:?}");
            self.results.push((value, ty));
        }
        Ok(self.results[wanted].0.clone())
    }

    fn leaf(&mut self, leaf: Leaf) -> Result<Values> {
        match leaf {
            Leaf::Input(slot, ty) => match self.inputs.get(&slot) {
                Some(value) => value.to_dtype(element_type(ty.dtype))?.reshape(dims(ty.shape)),
                None => panic!("no value for {slot:?}"),
            },
            Leaf::Param(index, _) => match self.params.get(index) {
                Some(value) => Ok(value.clone()),
                None => panic!("no parameter {index}"),
            },
            Leaf::Randn(noise, shape) => {
                if let Some(value) = self.draws.get(&(noise, shape)) {
                    return Ok(value.clone());
                }
                let value = Values::randn(0f32, 1f32, dims(shape), &self.device)?;
                self.draws.insert((noise, shape), value.clone());
                Ok(value)
            }
            Leaf::Fill(value, ty) => {
                Values::full(number(value) as f32, dims(ty.shape), &self.device)?
                    .to_dtype(element_type(ty.dtype))
            }
        }
    }
}

fn unary(f: Unary, x: &Values) -> Result<Values> {
    match f {
        Unary::Neg => x.neg(),
        Unary::Exp => x.exp(),
        Unary::Log => x.log(),
        Unary::Sqr => x.sqr(),
        Unary::Sqrt => x.sqrt(),
        Unary::Recip => x.recip(),
        Unary::Tanh => x.tanh(),
        Unary::Relu => x.relu(),
        Unary::GeluErf => x.gelu_erf(),
        Unary::Silu => candle_nn::ops::silu(x),
        Unary::Softplus => x.relu()? + (x.abs()?.neg()?.exp()? + 1.0)?.log()?,
        Unary::Ceil => x.ceil(),
    }
}

fn compare(f: Comparison, a: &Values, b: &Values) -> Result<Values> {
    match f {
        Comparison::Ge => a.ge(b),
        Comparison::Le => a.le(b),
        Comparison::Ne => a.ne(b),
    }
}

fn one(op: Op1, x: &Values) -> Result<Values> {
    match op {
        Op1::Apply(f) => unary(f, x),
        Op1::Affine(factor, summand) => x.affine(number(factor), number(summand)),
        Op1::Clamp(low, high) => x.clamp(number(low) as f32, number(high) as f32),
        Op1::Dropout(rate) => candle_nn::ops::dropout(x, float(rate) as f32),
        Op1::Cast(dtype) => x.to_dtype(element_type(dtype)),
        Op1::CompareScalar(f, bound) => match f {
            Comparison::Ge => x.ge(number(bound) as f32),
            Comparison::Le => x.le(number(bound) as f32),
            Comparison::Ne => x.ne(number(bound) as f32),
        },
        Op1::Softmax => candle_nn::ops::softmax(x, D::Minus1),
        Op1::Cumsum(dim) => x.cumsum(dim),
        Op1::SumLast => x.sum(D::Minus1),
        Op1::SumInner(true) => x.sum_keepdim((1, 2)),
        Op1::SumInner(false) => x.sum((1, 2)),
        Op1::Reshape(shape) => x.reshape(dims(shape)),
        Op1::Transpose(i, j) => x.transpose(i, j),
        Op1::Narrow(dim, start, len) => x.narrow(dim, start, len),
        Op1::Unsqueeze(dim) => x.unsqueeze(dim),
        Op1::Squeeze(dim) => x.squeeze(dim),
        Op1::Expand(shape) => x.broadcast_as(dims(shape)),
        Op1::Contiguous => x.contiguous(),
        Op1::Reverse(dim) => x.contiguous()?.flip(&[dim]),
    }
}

fn two(op: Op2, a: &Values, b: &Values) -> Result<Values> {
    match op {
        Op2::Zip(f) => match f {
            Binary::Add => a.add(b),
            Binary::Sub => a.sub(b),
            Binary::Mul => a.mul(b),
            Binary::Div => a.div(b),
            Binary::Maximum => a.maximum(b),
            Binary::Minimum => a.minimum(b),
        },
        Op2::Broadcast(f) => match f {
            Binary::Add => a.broadcast_add(b),
            Binary::Sub => a.broadcast_sub(b),
            Binary::Mul => a.broadcast_mul(b),
            Binary::Div => a.broadcast_div(b),
            Binary::Maximum => a.broadcast_maximum(b),
            Binary::Minimum => a.broadcast_minimum(b),
        },
        Op2::Compare(f) => compare(f, a, b),
        Op2::BroadcastCompare(f) => match f {
            Comparison::Ge => a.broadcast_ge(b),
            Comparison::Le => a.broadcast_le(b),
            Comparison::Ne => a.broadcast_ne(b),
        },
        Op2::Matmul => a.contiguous()?.matmul(&b.contiguous()?),
        Op2::Linear => candle_nn::Linear::new(b.clone(), None).forward(a),
        Op2::Concat(dim) => Values::cat(&[a, b], dim),
        Op2::GatherLast => {
            let last = a.rank() - 1;
            a.contiguous()?.gather(&b.contiguous()?, last)
        }
        Op2::Conv1d(c) => a.conv1d(b, c.padding, c.stride, c.dilation, c.groups),
        Op2::ConvTranspose1d(c) => {
            a.conv_transpose1d(b, c.padding, c.output_padding, c.stride, c.dilation, 1)
        }
        Op2::Embedding => candle_nn::Embedding::new(a.clone(), a.dim(1)?).forward(b),
    }
}

fn three(op: Op3, a: &Values, b: &Values, c: &Values) -> Result<Values> {
    match op {
        Op3::Select => a.where_cond(b, c),
        Op3::LayerNorm(eps) => {
            candle_nn::LayerNorm::new(b.clone(), c.clone(), float(eps)).forward(a)
        }
    }
}

// Helpers

fn r(x: f64) -> Real {
    Real { bits: x.to_bits() }
}

fn evaluator() -> Evaluator {
    Evaluator::new(vec![], Device::Cpu)
}

/// A tensor with given elements, as an expression and its values: parameter number `index`.
struct Given {
    entries: Vec<(String, Shape)>,
    params: Vec<Values>,
}

impl Given {
    fn none() -> Given {
        Given { entries: vec![], params: vec![] }
    }

    fn add(&mut self, name: &str, shape: Shape, values: Vec<f32>) -> Tensor {
        let index = self.params.len();
        self.entries.push((name.to_string(), shape));
        self.params.push(Values::from_vec(values, dims(shape), &Device::Cpu).unwrap());
        Tensor::param(index, shape).unwrap()
    }

    fn evaluator(&self) -> Evaluator {
        Evaluator::new(self.params.clone(), Device::Cpu)
    }

    fn checkpoint(&self) -> Checkpoint {
        Checkpoint { entries: self.entries.clone() }
    }

    fn list(&self, t: &Tensor) -> Vec<f32> {
        let v = self.evaluator().eval(t.term()).unwrap();
        assert_eq!(v.dims(), dims(t.shape()).as_slice());
        assert_eq!(v.dtype(), element_type(t.dtype()));
        v.to_dtype(CandleType::F32).unwrap().flatten_all().unwrap().to_vec1().unwrap()
    }
}

fn count(n: usize) -> Vec<f32> {
    (0..n).map(|i| i as f32 + 1.0).collect()
}

/// Numbers between -1 and 1 that look random.
fn noise(n: usize, seed: u64) -> Vec<f32> {
    let mut state = seed.wrapping_mul(6364136223846793005).wrapping_add(1442695040888963407);
    (0..n)
        .map(|_| {
            state = state.wrapping_mul(6364136223846793005).wrapping_add(1442695040888963407);
            ((state >> 33) as f64 / (1u64 << 30) as f64 - 1.0) as f32
        })
        .collect()
}

fn elements(shape: Shape) -> usize {
    dims(shape).iter().product()
}

fn close(a: &[f32], b: &[f32], tolerance: f32) {
    assert_eq!(a.len(), b.len());
    for (x, y) in a.iter().zip(b) {
        assert!((x - y).abs() <= tolerance, "{x} is not {y}");
    }
}

/// A small voice: every layer is there.
fn small_config() -> VitsConfig {
    VitsConfig {
        vocab_size: 7,
        hidden_size: 8,
        num_hidden_layers: 2,
        num_attention_heads: 2,
        window_size: 2,
        ffn_dim: 12,
        flow_size: 4,
        upsample_initial_channel: 16,
        upsample_rates: vec![4, 2],
        upsample_kernel_sizes: vec![8, 4],
        resblock_kernel_sizes: vec![3, 5],
        resblock_dilation_sizes: vec![vec![1, 3], vec![1]],
        duration_predictor_flow_bins: 3,
        duration_predictor_num_flows: 2,
        depth_separable_num_layers: 2,
        prior_encoder_num_flows: 2,
        prior_encoder_num_wavenet_layers: 2,
        wavenet_kernel_size: 3,
        duration_predictor_dropout: r(0.0),
        ..VitsConfig::default()
    }
}

fn layer(list: &mut Vec<(String, Shape)>, name: &str, weight: Shape, bias: usize) {
    list.push((format!("{name}.weight"), weight));
    list.push((format!("{name}.bias"), Shape::S1(bias)));
}

fn normed(list: &mut Vec<(String, Shape)>, name: &str, a: usize, b: usize, k: usize, bias: usize) {
    list.push((format!("{name}.weight_g"), Shape::S3(a, 1, 1)));
    list.push((format!("{name}.weight_v"), Shape::S3(a, b, k)));
    list.push((format!("{name}.bias"), Shape::S1(bias)));
}

fn separable(list: &mut Vec<(String, Shape)>, c: &VitsConfig, name: &str) {
    let (h, k) = (c.hidden_size, c.duration_predictor_kernel_size);
    for i in 0..c.depth_separable_num_layers {
        layer(list, &format!("{name}.convs_dilated.{i}"), Shape::S3(h, 1, k), h);
        layer(list, &format!("{name}.convs_pointwise.{i}"), Shape::S3(h, h, 1), h);
        layer(list, &format!("{name}.norms_1.{i}"), Shape::S1(h), h);
        layer(list, &format!("{name}.norms_2.{i}"), Shape::S1(h), h);
    }
}

/// The tensors that a checkpoint for a configuration holds.
fn contents(c: &VitsConfig) -> Vec<(String, Shape)> {
    let h = c.hidden_size;
    let mut l = vec![];
    l.push(("text_encoder.embed_tokens.weight".to_string(), Shape::S2(c.vocab_size, h)));
    for i in 0..c.num_hidden_layers {
        let p = format!("text_encoder.encoder.layers.{i}");
        for name in ["k_proj", "v_proj", "q_proj", "out_proj"] {
            layer(&mut l, &format!("{p}.attention.{name}"), Shape::S2(h, h), h);
        }
        let table = Shape::S3(1, 2 * c.window_size + 1, h / c.num_attention_heads);
        l.push((format!("{p}.attention.emb_rel_k"), table));
        l.push((format!("{p}.attention.emb_rel_v"), table));
        layer(&mut l, &format!("{p}.layer_norm"), Shape::S1(h), h);
        let k = c.ffn_kernel_size;
        layer(&mut l, &format!("{p}.feed_forward.conv_1"), Shape::S3(c.ffn_dim, h, k), c.ffn_dim);
        layer(&mut l, &format!("{p}.feed_forward.conv_2"), Shape::S3(h, c.ffn_dim, k), h);
        layer(&mut l, &format!("{p}.final_layer_norm"), Shape::S1(h), h);
    }
    layer(&mut l, "text_encoder.project", Shape::S3(2 * c.flow_size, h, 1), 2 * c.flow_size);
    for i in 0..c.prior_encoder_num_flows {
        let p = format!("flow.flows.{i}");
        let half = c.flow_size / 2;
        layer(&mut l, &format!("{p}.conv_pre"), Shape::S3(h, half, 1), h);
        let n = c.prior_encoder_num_wavenet_layers;
        for j in 0..n {
            let k = c.wavenet_kernel_size;
            normed(&mut l, &format!("{p}.wavenet.in_layers.{j}"), 2 * h, h, k, 2 * h);
            let out = if j + 1 < n { 2 * h } else { h };
            normed(&mut l, &format!("{p}.wavenet.res_skip_layers.{j}"), out, h, 1, out);
        }
        layer(&mut l, &format!("{p}.conv_post"), Shape::S3(half, h, 1), half);
    }
    let first = c.upsample_initial_channel;
    layer(&mut l, "decoder.conv_pre", Shape::S3(first, c.flow_size, 7), first);
    let kernels = c.resblock_kernel_sizes.len();
    let mut channels = first;
    for i in 0..c.upsample_rates.len() {
        let out = channels / 2;
        let k = c.upsample_kernel_sizes[i];
        normed(&mut l, &format!("decoder.upsampler.{i}"), channels, out, k, out);
        for j in 0..kernels {
            let k = c.resblock_kernel_sizes[j];
            for m in 0..c.resblock_dilation_sizes[j].len() {
                let p = format!("decoder.resblocks.{}", i * kernels + j);
                normed(&mut l, &format!("{p}.convs1.{m}"), out, out, k, out);
                normed(&mut l, &format!("{p}.convs2.{m}"), out, out, k, out);
            }
        }
        channels = out;
    }
    l.push(("decoder.conv_post.weight".to_string(), Shape::S3(1, channels, 7)));
    layer(&mut l, "duration_predictor.conv_pre", Shape::S3(h, h, 1), h);
    layer(&mut l, "duration_predictor.conv_proj", Shape::S3(h, h, 1), h);
    separable(&mut l, c, "duration_predictor.conv_dds");
    let d = c.depth_separable_channels;
    l.push(("duration_predictor.flows.0.translate".to_string(), Shape::S2(d, 1)));
    l.push(("duration_predictor.flows.0.log_scale".to_string(), Shape::S2(d, 1)));
    for i in 0..c.duration_predictor_num_flows {
        let p = format!("duration_predictor.flows.{}", i + 1);
        layer(&mut l, &format!("{p}.conv_pre"), Shape::S3(h, d / 2, 1), h);
        separable(&mut l, c, &format!("{p}.conv_dds"));
        let n = d / 2 * (3 * c.duration_predictor_flow_bins - 1);
        layer(&mut l, &format!("{p}.conv_proj"), Shape::S3(n, h, 1), n);
    }
    l
}

/// A checkpoint with weights that look random.
fn weights(c: &VitsConfig) -> Given {
    let mut given = Given::none();
    for (i, (name, shape)) in contents(c).into_iter().enumerate() {
        let values = noise(elements(shape), i as u64).iter().map(|x| x * 0.5).collect();
        given.add(&name, shape, values);
    }
    given
}

// Masks and positions

#[test]
fn bidirectional_mask_is_f32_and_square() {
    let mask = Tensor::input(Slot::AttentionMask, DType::I64, Shape::S2(2, 3)).unwrap();

    let mask = build_bidirectional_mask(Some(&mask)).unwrap().unwrap();

    assert_eq!(mask.dtype(), DType::F32);
    assert_eq!(mask.shape(), Shape::S4(2, 1, 3, 3));
}

#[test]
fn bidirectional_mask_hides_padding() {
    let mask = Tensor::input(Slot::AttentionMask, DType::I64, Shape::S2(2, 3)).unwrap();
    let mask = build_bidirectional_mask(Some(&mask)).unwrap().unwrap();
    let mut e = evaluator();
    let given = Values::from_vec(vec![1i64, 0, 1, 1, 1, 0], (2, 3), &Device::Cpu).unwrap();
    e.set(Slot::AttentionMask, given);
    let v = e.eval(mask.term()).unwrap();
    assert_eq!(v.dtype(), CandleType::F32);
    assert_eq!(v.dims4().unwrap(), (2, 1, 3, 3));
    let v: Vec<f32> = v.flatten_all().unwrap().to_vec1().unwrap();
    let m = f32::MIN;
    let row0 = [0.0, m, 0.0];
    let row1 = [0.0, 0.0, m];
    let expected: Vec<f32> = [row0, row0, row0, row1, row1, row1].concat();
    assert_eq!(v, expected);
}

#[test]
fn no_mask_gives_no_mask() {
    assert!(build_bidirectional_mask(None).unwrap().is_none());
    let line = Tensor::input(Slot::AttentionMask, DType::I64, Shape::S1(3)).unwrap();
    assert_eq!(build_bidirectional_mask(Some(&line)).unwrap_err(), TensorError::Mismatch);
}

#[test]
fn distances_become_places() {
    let mut g = Given::none();
    let x = g.add("x", Shape::S3(2, 3, 5), count(30));
    let y = attention::relative_position_to_absolute_position(&x).unwrap();
    assert_eq!(y.shape(), Shape::S3(2, 3, 3));
    let (xs, ys) = (g.list(&x), g.list(&y));
    for b in 0..2 {
        for i in 0..3 {
            for j in 0..3 {
                assert_eq!(ys[(b * 3 + i) * 3 + j], xs[(b * 3 + i) * 5 + (j + 2 - i)]);
            }
        }
    }
}

#[test]
fn places_become_distances_and_back() {
    let mut g = Given::none();
    let x = g.add("x", Shape::S3(1, 3, 3), count(9));
    let y = attention::absolute_position_to_relative_position(&x).unwrap();
    assert_eq!(y.shape(), Shape::S3(1, 3, 5));
    assert_eq!(
        g.list(&y),
        vec![0., 0., 1., 2., 3., 0., 4., 5., 6., 0., 7., 8., 9., 0., 0.]
    );
    let z = attention::relative_position_to_absolute_position(&y).unwrap();
    assert_eq!(g.list(&z), g.list(&x));
    let one = g.add("one", Shape::S3(2, 1, 1), vec![5.0, 6.0]);
    let y = attention::absolute_position_to_relative_position(&one).unwrap();
    assert_eq!(g.list(&y), vec![5.0, 6.0]);
}

#[test]
fn positions_need_room_for_their_rows() {
    // The padded rows have 2 * 2 * 2 and 2 * 2 * 2 + 1 elements for every head.
    for (heads, relative, absolute) in [
        (1usize << 60, true, true),
        (usize::MAX / 8, true, false),
        (usize::MAX / 8 + 1, false, false),
    ] {
        let x = Tensor::input(Slot::InputIds, DType::F32, Shape::S3(heads, 2, 2)).unwrap();
        let y = attention::absolute_position_to_relative_position(&x);
        assert_eq!(y.is_ok(), relative, "{heads}");
        if let Ok(y) = y {
            assert_eq!(y.shape(), Shape::S3(heads, 2, 3));
        }
        let x = Tensor::input(Slot::InputIds, DType::F32, Shape::S3(heads, 2, 3)).unwrap();
        let y = attention::relative_position_to_absolute_position(&x);
        assert_eq!(y.is_ok(), absolute, "{heads}");
        if let Ok(y) = y {
            assert_eq!(y.shape(), Shape::S3(heads, 2, 2));
        }
    }
}

#[test]
fn sequences_without_places_are_refused() {
    let x = Tensor::zeros(DType::F32, Shape::S3(1, 0, 0)).unwrap();
    assert!(attention::relative_position_to_absolute_position(&x).is_err());
    assert!(attention::absolute_position_to_relative_position(&x).is_err());
    let flat = Tensor::zeros(DType::F32, Shape::S2(1, 2)).unwrap();
    assert!(attention::relative_position_to_absolute_position(&flat).is_err());
}

#[test]
fn attention_takes_the_rows_of_the_distances() {
    let c = small_config();
    let mut g = weights(&c);
    let checkpoint = g.checkpoint();
    let scope = Scope::root(&checkpoint).pp("text_encoder.encoder.layers.0.attention");
    let layer = attention::VitsAttention::new(&c, &scope).unwrap();
    let table = g.add("table", Shape::S3(1, 5, 1), vec![1., 2., 3., 4., 5.]);
    let short = layer.get_relative_embeddings(&table, 2).unwrap();
    assert_eq!(g.list(&short), vec![2., 3., 4.]);
    let exact = layer.get_relative_embeddings(&table, 3).unwrap();
    assert_eq!(g.list(&exact), vec![1., 2., 3., 4., 5.]);
    let long = layer.get_relative_embeddings(&table, 5).unwrap();
    assert_eq!(g.list(&long), vec![0., 0., 1., 2., 3., 4., 5., 0., 0.]);
    assert!(layer.get_relative_embeddings(&table, 0).is_err());
}

#[test]
fn attention_weighs_values() {
    let c = small_config();
    let mut g = weights(&c);
    let checkpoint = g.checkpoint();
    let scope = Scope::root(&checkpoint).pp("text_encoder.encoder.layers.0.attention");
    let layer = attention::VitsAttention::new(&c, &scope).unwrap();
    let x = g.add("x", Shape::S3(2, 4, 8), noise(64, 99));
    let y = layer.forward(&x, None).unwrap();
    assert_eq!(y.shape(), Shape::S3(2, 4, 8));
    // A mask of zeros changes nothing.
    let zeros = Tensor::zeros(DType::F32, Shape::S4(2, 1, 4, 4)).unwrap();
    let masked = layer.forward(&x, Some(&zeros)).unwrap();
    close(&g.list(&y), &g.list(&masked), 1e-6);
    // With only the first place open, every place sees that value, and its own distance to it.
    let mut shut = vec![f32::MIN; 32];
    for row in 0..8 {
        shut[row * 4] = 0.0;
    }
    let shut = g.add("shut", Shape::S4(2, 1, 4, 4), shut);
    let narrow = layer.forward(&x, Some(&shut)).unwrap();
    assert_eq!(g.list(&narrow).len(), 64);
    let wrong = g.add("wrong", Shape::S3(2, 4, 7), noise(56, 1));
    assert!(layer.forward(&wrong, None).is_err());
}

#[test]
fn masked_places_have_no_influence() {
    let c = small_config();
    let mut g = weights(&c);
    let checkpoint = g.checkpoint();
    let scope = Scope::root(&checkpoint).pp("text_encoder.encoder.layers.0.attention");
    let layer = attention::VitsAttention::new(&c, &scope).unwrap();
    let (mut one, mut two) = (noise(64, 99), noise(64, 99));
    // The sequences differ at the last place of the first and at the second of the other.
    for k in 0..8 {
        one[24 + k] = 0.25 * k as f32;
        two[24 + k] = 3.0 - k as f32;
        one[40 + k] = -1.0;
        two[40 + k] = 5.0;
    }
    let x = g.add("x", Shape::S3(2, 4, 8), one);
    let y = g.add("y", Shape::S3(2, 4, 8), two);
    let flags = g.add("flags", Shape::S2(2, 4), vec![1.0, 1.0, 1.0, 0.0, 1.0, 0.0, 1.0, 1.0]);
    let mask = build_bidirectional_mask(Some(&flags)).unwrap().unwrap();
    let seen = |t: &Tensor, m: Option<&Tensor>| {
        let v = g.list(&layer.forward(t, m).unwrap());
        [&v[..24], &v[32..40], &v[48..]].concat()
    };
    assert_eq!(seen(&x, Some(&mask)), seen(&y, Some(&mask)));
    assert_ne!(seen(&x, None), seen(&y, None));
}

// Lines

#[test]
fn lines_are_padded_and_overwritten() {
    let mut g = Given::none();
    let x = g.add("x", Shape::S2(2, 3), count(6));
    let nine = Scalar::Value(r(9.0));
    assert_eq!(
        g.list(&lines::pad_last_dim(&x, 1, 2, nine).unwrap()),
        vec![9., 1., 2., 3., 9., 9., 9., 4., 5., 6., 9., 9.]
    );
    assert_eq!(g.list(&lines::pad_last_dim(&x, 0, 0, nine).unwrap()), count(6));
    assert_eq!(g.list(&lines::cumsum_last_dim(&x).unwrap()), vec![1., 3., 6., 4., 9., 15.]);
    assert_eq!(
        g.list(&lines::set_last_dim_index(&x, 1, nine).unwrap()),
        vec![1., 9., 3., 4., 9., 6.]
    );
    assert_eq!(
        g.list(&lines::set_last_dim_index(&x, 2, nine).unwrap()),
        vec![1., 2., 9., 4., 5., 9.]
    );
    assert_eq!(
        g.list(&lines::bump_last_index(&x, r(0.5)).unwrap()),
        vec![1., 2., 3.5, 4., 5., 6.5]
    );
    let fill = g.add("fill", Shape::S2(1, 3), vec![7., 8., 9.]);
    assert_eq!(
        g.list(&lines::overwrite_slice(&x, 0, 1, &fill).unwrap()),
        vec![1., 2., 3., 7., 8., 9.]
    );
    assert_eq!(
        g.list(&lines::overwrite_slice(&x, 0, 0, &fill).unwrap()),
        vec![7., 8., 9., 4., 5., 6.]
    );
    let dot = Tensor::zeros(DType::F32, Shape::S0).unwrap();
    assert!(lines::cumsum_last_dim(&dot).is_err());
    assert!(lines::pad_last_dim(&dot, 1, 0, nine).is_err());
    assert!(lines::bump_last_index(&dot, r(1.0)).is_err());
}

#[test]
fn lines_of_other_types_are_changed() {
    let mut g = Given::none();
    let x = g.add("x", Shape::S2(2, 3), count(6));
    let nine = Scalar::Value(r(9.0));
    for dtype in [DType::F16, DType::F64] {
        let x = x.cast(dtype).unwrap();
        let padded = lines::pad_last_dim(&x, 1, 0, nine).unwrap();
        assert_eq!(padded.dtype(), dtype);
        assert_eq!(g.list(&padded), vec![9., 1., 2., 3., 9., 4., 5., 6.]);
        let set = lines::set_last_dim_index(&x, 0, nine).unwrap();
        assert_eq!(g.list(&set), vec![9., 2., 3., 9., 5., 6.]);
        assert_eq!(
            g.list(&lines::bump_last_index(&x, r(0.5)).unwrap()),
            vec![1., 2., 3.5, 4., 5., 6.5]
        );
        assert_eq!(g.list(&lines::cumsum_last_dim(&x).unwrap()), vec![1., 3., 6., 4., 9., 15.]);
        assert_eq!(g.list(&x.flip(&[1]).unwrap()), vec![3., 2., 1., 6., 5., 4.]);
    }
}

#[test]
fn entries_are_picked_from_lines() {
    let mut g = Given::none();
    let x = g.add("x", Shape::S2(2, 3), count(6));
    let index = g.add("index", Shape::S2(2, 1), vec![2.0, 0.0]);
    let index = index.cast(DType::U32).unwrap();
    let picked = lines::gather_last(&x, &index).unwrap();
    assert_eq!(picked.shape(), Shape::S1(2));
    assert_eq!(g.list(&picked), vec![3., 4.]);
}

#[test]
fn rows_move_down_by_one() {
    let mut g = Given::none();
    let x = g.add("x", Shape::S3(2, 3, 2), count(12));
    let y = vits::shift_dim1_down_by_one(&x).unwrap();
    assert_eq!(y.shape(), x.shape());
    assert_eq!(g.list(&y), vec![0., 0., 1., 2., 3., 4., 0., 0., 7., 8., 9., 10.]);
    let none = Tensor::zeros(DType::F32, Shape::S3(1, 0, 2)).unwrap();
    assert!(vits::shift_dim1_down_by_one(&none).is_err());
}

#[test]
fn dimensions_are_reversed() {
    let mut g = Given::none();
    let x = g.add("x", Shape::S3(1, 2, 3), count(6));
    assert_eq!(g.list(&x.flip(&[1]).unwrap()), vec![4., 5., 6., 1., 2., 3.]);
    assert_eq!(g.list(&x.flip(&[1, 2]).unwrap()), vec![6., 5., 4., 3., 2., 1.]);
    assert_eq!(g.list(&x.flip(&[]).unwrap()), count(6));
    assert_eq!(g.list(&x.flip(&[1]).unwrap().flip(&[1]).unwrap()), count(6));
    for dims in [vec![0], vec![2, 1], vec![0, 1, 2]] {
        let twice = x.flip(&dims).unwrap().flip(&dims).unwrap();
        assert_eq!(g.list(&twice), count(6), "{dims:?}");
    }
    assert_eq!(g.list(&x.flip(&[2, 1]).unwrap()), g.list(&x.flip(&[1, 2]).unwrap()));
    assert!(x.flip(&[3]).is_err());
}

#[test]
fn tensors_of_six_dimensions_are_changed() {
    let mut g = Given::none();
    let x = g.add("x", Shape::S6(1, 2, 1, 1, 1, 3), count(6));
    assert_eq!(g.list(&x.flip(&[1]).unwrap()), vec![4., 5., 6., 1., 2., 3.]);
    assert_eq!(g.list(&x.flip(&[5, 1]).unwrap()), vec![6., 5., 4., 3., 2., 1.]);
    assert!(x.flip(&[6]).is_err());
    let nine = Scalar::Value(r(9.0));
    let set = lines::set_last_dim_index(&x, 1, nine).unwrap();
    assert_eq!(set.shape(), x.shape());
    assert_eq!(g.list(&set), vec![1., 9., 3., 4., 9., 6.]);
    let fill = g.add("fill", Shape::S6(1, 1, 1, 1, 1, 3), vec![7., 8., 9.]);
    assert_eq!(
        g.list(&lines::overwrite_slice(&x, 1, 1, &fill).unwrap()),
        vec![1., 2., 3., 7., 8., 9.]
    );
    let column = g.add("column", Shape::S3(2, 1, 1), vec![10., 20.]);
    let sum = x.squeeze(0).unwrap().broadcast_add(&column).unwrap();
    assert_eq!(sum.shape(), Shape::S5(2, 1, 2, 1, 3));
    assert_eq!(g.list(&sum)[..6], [11., 12., 13., 21., 22., 23.]);
    // Running sums are products, of stacks in at most two dimensions unless they are empty.
    assert!(lines::cumsum_last_dim(&x).is_err());
    assert!(Values::ones((1, 2, 1, 1, 2, 3), CandleType::F32, &Device::Cpu)
        .unwrap()
        .cumsum(5)
        .is_err());
    let none = g.add("none", Shape::S5(1, 2, 0, 1, 3), vec![]);
    assert_eq!(lines::cumsum_last_dim(&none).unwrap().shape(), none.shape());
    assert!(g.list(&lines::cumsum_last_dim(&none).unwrap()).is_empty());
}

// Layers

#[test]
fn gate_is_tanh_times_sigmoid() {
    let mut g = Given::none();
    let a = g.add("a", Shape::S3(1, 4, 1), vec![0.5, -1.0, 2.0, 0.0]);
    let b = g.add("b", Shape::S3(1, 4, 1), vec![0.25, 0.5, -1.0, 3.0]);
    let y = wavenet::fused_add_tanh_sigmoid_multiply(&a, &b, 2).unwrap();
    assert_eq!(y.shape(), Shape::S3(1, 2, 1));
    let sigmoid = |x: f32| 1.0 / (1.0 + (-x).exp());
    let expected = vec![0.75f32.tanh() * sigmoid(1.0), (-0.5f32).tanh() * sigmoid(3.0)];
    close(&g.list(&y), &expected, 1e-6);
    assert!(wavenet::fused_add_tanh_sigmoid_multiply(&a, &b, 3).is_err());
    assert!(wavenet::fused_add_tanh_sigmoid_multiply(&a, &b, 5).is_err());
}

#[test]
fn powers_are_computed_as_far_as_they_fit() {
    assert_eq!(wavenet::power(3, 0), Some(1));
    assert_eq!(wavenet::power(3, 4), Some(81));
    assert_eq!(wavenet::power(0, 0), Some(1));
    assert_eq!(wavenet::power(0, 5), Some(0));
    assert_eq!(wavenet::power(2, usize::BITS as usize - 1), Some(1 << (usize::BITS - 1)));
    assert_eq!(wavenet::power(2, usize::BITS as usize), None);
    let c = wavenet::kept_length_config(5, 3, 2).unwrap();
    assert_eq!((c.padding, c.stride, c.dilation, c.groups), (6, 1, 3, 2));
    assert!(wavenet::kept_length_config(0, 1, 1).is_none());
    assert!(wavenet::kept_length_config(usize::MAX, 2, 1).is_none());
}

#[test]
fn leaky_relu_keeps_the_sign() {
    let mut g = Given::none();
    let x = g.add("x", Shape::S1(4), vec![2.0, 0.0, -1.0, -4.0]);
    let y = hifigan::leaky_relu(&x, r(0.25)).unwrap();
    assert_eq!(g.list(&y), vec![2.0, 0.0, -0.25, -1.0]);
}

#[test]
fn weights_are_normalized_under_both_names() {
    for (length, direction) in [
        ("c.weight_g", "c.weight_v"),
        ("c.parametrizations.weight.original0", "c.parametrizations.weight.original1"),
    ] {
        let mut g = Given::none();
        g.add(length, Shape::S3(2, 1, 1), vec![10.0, 1.0]);
        g.add(direction, Shape::S3(2, 2, 1), vec![3.0, 4.0, 0.0, -2.0]);
        g.add("c.bias", Shape::S1(2), vec![0.5, 0.0]);
        let checkpoint = g.checkpoint();
        let scope = Scope::root(&checkpoint).pp("c");
        let conv =
            nn::load_weight_norm_conv1d(&scope, 2, 2, 1, nn::plain_conv_config(), true).unwrap();
        close(&g.list(&conv.weight), &[6.0, 8.0, 0.0, -1.0], 1e-6);
        let x = g.add("x", Shape::S3(1, 2, 1), vec![1.0, 2.0]);
        close(&g.list(&conv.forward(&x).unwrap()), &[22.5, -2.0], 1e-5);
        assert_eq!(
            nn::load_weight_norm_conv1d(&scope, 2, 3, 1, nn::plain_conv_config(), true)
                .map(|_| ())
                .unwrap_err(),
            LoadError::Checkpoint
        );
    }
}

#[test]
fn bias_can_be_left_out() {
    let mut g = Given::none();
    g.add("weight_g", Shape::S3(2, 1, 1), vec![10.0, 5.0]);
    g.add("weight_v", Shape::S3(2, 2, 1), vec![3.0, 4.0, 6.0, 8.0]);
    let checkpoint = g.checkpoint();
    let scope = Scope::root(&checkpoint);
    let plain = nn::plain_conv_config();
    let conv = nn::load_weight_norm_conv1d(&scope, 2, 2, 1, plain, false).unwrap();
    assert!(conv.bias.is_none());
    close(&g.list(&conv.weight), &[6.0, 8.0, 3.0, 4.0], 1e-6);
    let x = g.add("x", Shape::S3(1, 2, 1), vec![1.0, 2.0]);
    close(&g.list(&conv.forward(&x).unwrap()), &[22.0, 11.0], 1e-5);
    assert_eq!(
        nn::load_weight_norm_conv1d(&scope, 2, 2, 1, plain, true).map(|_| ()).unwrap_err(),
        LoadError::Checkpoint
    );
}

#[test]
fn identifiers_of_all_whole_types_name_rows() {
    let mut g = Given::none();
    let table = g.add("table", Shape::S2(3, 2), count(6));
    for dtype in [DType::U8, DType::U32, DType::I64] {
        let ids = Tensor::input(Slot::InputIds, dtype, Shape::S1(2)).unwrap();
        let rows = table.embedding(&ids).unwrap();
        assert_eq!(rows.shape(), Shape::S2(2, 2));
        let mut e = g.evaluator();
        e.set(Slot::InputIds, Values::from_vec(vec![2i64, 0], 2, &Device::Cpu).unwrap());
        let found: Vec<f32> =
            e.eval(rows.term()).unwrap().flatten_all().unwrap().to_vec1().unwrap();
        assert_eq!(found, vec![5.0, 6.0, 1.0, 2.0]);
    }
    let ids = Tensor::input(Slot::InputIds, DType::F32, Shape::S1(2)).unwrap();
    assert!(table.embedding(&ids).is_err());
}

#[test]
fn spline_rises_from_end_to_end() {
    let mut g = Given::none();
    let xs = vec![-9.0, -5.0, -4.9, -2.5, 0.0, 0.1, 3.3, 4.999, 5.0, 7.5];
    let n = xs.len();
    let x = g.add("x", Shape::S3(1, 1, n), xs);
    let widths = g.add("w", Shape::S4(1, 1, n, 3), [0.3, -1.0, 0.5].repeat(n));
    let heights = g.add("h", Shape::S4(1, 1, n, 3), [1.0, 0.2, -0.7].repeat(n));
    let slopes = g.add("s", Shape::S4(1, 1, n, 4), [0.9, 0.4, -0.3, 1.5].repeat(n));
    let least = r(1e-3);
    for reverse in [false, true] {
        let (y, _) = spline::rational_quadratic_spline(
            &x, &widths, &heights, &slopes, reverse, r(5.0), least, least, least,
        )
        .unwrap();
        let ys = g.list(&y);
        // What lies beyond the ends is moved to them, and the ends stay where they are.
        close(&[ys[0], ys[1], ys[n - 2], ys[n - 1]], &[-5.0, -5.0, 5.0, 5.0], 1e-4);
        for i in 2..n - 1 {
            assert!(ys[i] > ys[i - 1], "{reverse} {i}");
        }
    }
}

#[test]
fn spline_has_an_inverse_in_double_precision() {
    let mut g = Given::none();
    let xs = vec![-4.5, -2.0, -0.25, 0.5, 1.75, 4.0];
    let n = xs.len();
    let double = |t: Tensor| t.cast(DType::F64).unwrap();
    let x = double(g.add("x", Shape::S2(2, 3), xs.clone()));
    let widths = double(g.add("w", Shape::S3(2, 3, 3), [0.3, -1.0, 0.5].repeat(n)));
    let heights = double(g.add("h", Shape::S3(2, 3, 3), [1.0, 0.2, -0.7].repeat(n)));
    let slopes = double(g.add("s", Shape::S3(2, 3, 4), [0.9, 0.4, -0.3, 1.5].repeat(n)));
    let least = r(1e-3);
    let run = |x: &Tensor, reverse: bool| {
        spline::rational_quadratic_spline(
            x, &widths, &heights, &slopes, reverse, r(5.0), least, least, least,
        )
    };
    let (y, slope) = run(&x, false).unwrap();
    let (z, back) = run(&y, true).unwrap();
    assert_eq!((y.dtype(), z.dtype()), (DType::F64, DType::F64));
    close(&g.list(&z), &xs, 1e-6);
    let negated: Vec<f32> = g.list(&slope).iter().map(|v| -v).collect();
    close(&g.list(&back), &negated, 1e-5);
    // The bounds of the interval are single, so the extension to the whole line takes no others.
    let inner = double(g.add("i", Shape::S3(2, 3, 2), noise(12, 3)));
    assert!(spline::unconstrained_rational_quadratic_spline(
        &x, &widths, &heights, &inner, false, r(5.0), least, least, least
    )
    .is_err());
}

#[test]
fn spline_has_an_inverse() {
    let mut g = Given::none();
    let n = 40;
    let xs: Vec<f32> = (0..n).map(|i| -6.0 + 12.0 * i as f32 / (n - 1) as f32).collect();
    let x = g.add("x", Shape::S3(1, 1, n), xs.clone());
    let widths = g.add("w", Shape::S4(1, 1, n, 4), [0.3, -1.0, 0.5, 1.2].repeat(n));
    let heights = g.add("h", Shape::S4(1, 1, n, 4), [1.0, 0.2, -0.7, 0.1].repeat(n));
    let slopes = g.add("s", Shape::S4(1, 1, n, 3), [0.4, -0.3, 1.5].repeat(n));
    let least = r(1e-3);
    let run = |x: &Tensor, reverse: bool| {
        spline::unconstrained_rational_quadratic_spline(
            x, &widths, &heights, &slopes, reverse, r(5.0), least, least, least,
        )
        .unwrap()
    };
    let (y, slope) = run(&x, false);
    let (z, back) = run(&y, true);
    let ys = g.list(&y);
    close(&g.list(&z), &xs, 1e-3);
    for i in 1..n {
        assert!(ys[i] > ys[i - 1]);
    }
    for (i, &x) in xs.iter().enumerate() {
        if x.abs() > 5.0 {
            assert_eq!(ys[i], x);
            assert_eq!(g.list(&slope)[i], 0.0);
        } else {
            assert!(ys[i].abs() <= 5.0 + 1e-4);
        }
    }
    let negated: Vec<f32> = g.list(&slope).iter().map(|v| -v).collect();
    close(&g.list(&back), &negated, 1e-2);
}

#[test]
fn spline_needs_its_lines() {
    let x = Tensor::zeros(DType::F32, Shape::S3(1, 1, 2)).unwrap();
    let dot = Tensor::zeros(DType::F32, Shape::S0).unwrap();
    let one = r(1.0);
    assert!(spline::rational_quadratic_spline(&x, &dot, &dot, &dot, true, one, one, one, one)
        .is_err());
    let wide = Tensor::zeros(DType::F32, Shape::S4(1, 1, 2, 3)).unwrap();
    assert!(spline::unconstrained_rational_quadratic_spline(
        &x, &wide, &wide, &dot, true, one, one, one, one
    )
    .is_err());
}

#[test]
fn coupling_block_has_an_inverse() {
    let c = small_config();
    let mut g = weights(&c);
    let checkpoint = g.checkpoint();
    let block = VitsResidualCouplingBlock::new(&c, &Scope::root(&checkpoint).pp("flow")).unwrap();
    let x = g.add("x", Shape::S3(2, 4, 5), noise(40, 7));
    let mask = g.add("mask", Shape::S3(2, 1, 5), vec![1.0; 10]);
    let y = block.forward(&x, &mask, None, false).unwrap();
    let z = block.forward(&y, &mask, None, true).unwrap();
    assert_eq!(y.shape(), x.shape());
    close(&g.list(&z), &g.list(&x), 1e-4);
    let moved: f32 = g.list(&y).iter().zip(g.list(&x)).map(|(a, b)| (a - b).abs()).sum();
    assert!(moved > 0.1);
}

#[test]
fn coupling_block_is_undone_where_places_count() {
    let c = small_config();
    let mut g = weights(&c);
    let checkpoint = g.checkpoint();
    let block = VitsResidualCouplingBlock::new(&c, &Scope::root(&checkpoint).pp("flow")).unwrap();
    // The input is not zero where the mask is.
    let x = g.add("x", Shape::S3(2, 4, 5), noise(40, 17));
    let flags = vec![1.0, 1.0, 1.0, 0.0, 0.0, 1.0, 1.0, 1.0, 1.0, 0.0];
    let mask = g.add("mask", Shape::S3(2, 1, 5), flags);
    let y = block.forward(&x, &mask, None, false).unwrap();
    let z = block.forward(&y, &mask, None, true).unwrap();
    assert_eq!(z.shape(), x.shape());
    let kept = |t: &Tensor| g.list(&t.broadcast_mul(&mask).unwrap());
    close(&kept(&z), &kept(&x), 1e-4);
    let moved: f32 = kept(&y).iter().zip(kept(&x)).map(|(a, b)| (a - b).abs()).sum();
    assert!(moved > 0.1);
}

#[test]
fn coupling_layer_keeps_the_first_half() {
    let c = small_config();
    let mut g = weights(&c);
    let checkpoint = g.checkpoint();
    let block = VitsResidualCouplingBlock::new(&c, &Scope::root(&checkpoint).pp("flow")).unwrap();
    let x = g.add("x", Shape::S3(1, 4, 3), noise(12, 8));
    let mask = g.add("mask", Shape::S3(1, 1, 3), vec![1.0, 1.0, 0.0]);
    for reverse in [false, true] {
        let (y, det) = block.flows[0].forward(&x, &mask, None, reverse).unwrap();
        let (xs, ys) = (g.list(&x), g.list(&y));
        assert_eq!(ys[..6], xs[..6]);
        assert_eq!((ys[8], ys[11]), (0.0, 0.0));
        assert_eq!(det.is_none(), reverse);
        if let Some(det) = det {
            assert_eq!(g.list(&det), vec![0.0]);
        }
    }
}

#[test]
fn affine_flow_has_an_inverse() {
    let c = small_config();
    let mut g = Given::none();
    g.add("translate", Shape::S2(2, 1), vec![1.0, -2.0]);
    g.add("log_scale", Shape::S2(2, 1), vec![0.0, (2.0f32).ln()]);
    let checkpoint = g.checkpoint();
    let flow = VitsElementwiseAffine::new(&c, &Scope::root(&checkpoint)).unwrap();
    let x = g.add("x", Shape::S3(1, 2, 2), vec![1.0, 2.0, 3.0, 4.0]);
    let mask = g.add("mask", Shape::S3(1, 1, 2), vec![1.0, 1.0]);
    let (y, det) = flow.forward(&x, &mask, false).unwrap();
    close(&g.list(&y), &[2.0, 3.0, 4.0, 6.0], 1e-5);
    close(&g.list(&det.unwrap()), &[2.0 * (2.0f32).ln()], 1e-5);
    let (z, det) = flow.forward(&y, &mask, true).unwrap();
    close(&g.list(&z), &[1.0, 2.0, 3.0, 4.0], 1e-5);
    assert!(det.is_none());
}

#[test]
fn conv_flow_has_an_inverse() {
    let c = small_config();
    let mut g = weights(&c);
    let checkpoint = g.checkpoint();
    let scope = Scope::root(&checkpoint).pp("duration_predictor.flows.1");
    let flow = VitsConvFlow::new(&c, &scope).unwrap();
    let x = g.add("x", Shape::S3(1, 2, 4), noise(8, 3));
    let mask = g.add("mask", Shape::S3(1, 1, 4), vec![1.0; 4]);
    let told = g.add("told", Shape::S3(1, 8, 4), noise(32, 4));
    let (y, det) = flow.forward(&x, &mask, Some(&told), false).unwrap();
    assert!(det.is_some());
    let (z, det) = flow.forward(&y, &mask, Some(&told), true).unwrap();
    assert!(det.is_none());
    close(&g.list(&z), &g.list(&x), 1e-3);
    assert_eq!(g.list(&y)[..4], g.list(&x)[..4]);
}

#[test]
fn unknown_activation_is_refused_when_it_is_used() {
    for (act, known) in
        [("relu", true), ("gelu", true), ("tanh", true), ("silu", true), ("swish", false)]
    {
        let c = VitsConfig { hidden_act: act.to_string(), ..small_config() };
        let g = weights(&c);
        let checkpoint = g.checkpoint();
        let scope = Scope::root(&checkpoint).pp("text_encoder");
        let encoder = VitsTextEncoder::new(&c, &scope).unwrap();
        let x = Tensor::zeros(DType::F32, Shape::S3(1, 3, 12)).unwrap();
        assert_eq!(encoder.encoder.layers[0].feed_forward.act(&x).is_ok(), known);
        let ids = Tensor::input(Slot::InputIds, DType::U32, Shape::S2(1, 3)).unwrap();
        let mask = Tensor::zeros(DType::F32, Shape::S3(1, 3, 1)).unwrap();
        assert_eq!(encoder.forward(&ids, &mask, None).is_ok(), known);
    }
}

// The whole voice

#[test]
fn model_is_built_from_its_checkpoint() {
    let c = small_config();
    let all = contents(&c);
    let complete = Checkpoint { entries: all.clone() };
    assert!(VitsModel::new(&c, &Scope::root(&complete)).is_ok());
    let full = VitsConfig::default();
    let complete = Checkpoint { entries: contents(&full) };
    assert!(VitsModel::new(&full, &Scope::root(&complete)).is_ok());
    // Without any one of its tensors, or with another shape, it cannot be built.
    for i in (0..all.len()).step_by(7) {
        let mut entries = all.clone();
        let taken = entries.remove(i);
        let model = VitsModel::new(&c, &Scope::root(&Checkpoint { entries })).map(|_| ());
        assert_eq!(model, Err(LoadError::Checkpoint), "{}", taken.0);
        let mut entries = all.clone();
        entries[i].1 = Shape::S4(1, 1, 1, 1);
        let model = VitsModel::new(&c, &Scope::root(&Checkpoint { entries })).map(|_| ());
        assert_eq!(model, Err(LoadError::Checkpoint), "{}", taken.0);
    }
}

#[test]
fn tensors_outside_of_the_model_are_ignored() {
    let c = small_config();
    let mut entries = contents(&c);
    let plain = Checkpoint { entries: entries.clone() };
    entries.push(("posterior_encoder.conv_pre.weight".to_string(), Shape::S3(4, 513, 1)));
    entries.push(("flow".to_string(), Shape::S1(1)));
    let extended = Checkpoint { entries };
    let a = VitsModel::new(&c, &Scope::root(&plain)).unwrap();
    let b = VitsModel::new(&c, &Scope::root(&extended)).unwrap();
    assert_eq!(format!("{a:?}"), format!("{b:?}"));
}

#[test]
fn unsupported_models_are_refused() {
    let complete = Checkpoint { entries: contents(&small_config()) };
    let build = |c: VitsConfig| VitsModel::new(&c, &Scope::root(&complete)).map(|_| ());
    let c = VitsConfig { use_stochastic_duration_prediction: false, num_speakers: 2, ..small_config() };
    assert_eq!(build(c), Err(LoadError::DurationPredictor));
    let c = VitsConfig { num_speakers: 2, ..small_config() };
    assert_eq!(build(c), Err(LoadError::Speakers));
    let c = VitsConfig { num_speakers: 0, ..small_config() };
    assert_eq!(build(c), Ok(()));
    let c = VitsConfig { num_attention_heads: 3, ..small_config() };
    assert_eq!(build(c), Err(LoadError::Heads));
    let c = VitsConfig { num_attention_heads: 0, ..small_config() };
    assert_eq!(build(c), Err(LoadError::Heads));
    let c = VitsConfig { window_size: usize::MAX, ..small_config() };
    assert_eq!(build(c), Err(LoadError::Size));
    let c = VitsConfig { upsample_kernel_sizes: vec![3, 4], ..small_config() };
    assert_eq!(build(c), Err(LoadError::Size));
    let c = VitsConfig { duration_predictor_flow_bins: 0, ..small_config() };
    assert_eq!(build(c), Err(LoadError::Size));
    let c = VitsConfig { wavenet_kernel_size: 0, ..small_config() };
    assert_eq!(build(c), Err(LoadError::Size));
    let c = VitsConfig { speaker_embedding_size: 3, ..small_config() };
    assert_eq!(build(c), Err(LoadError::Checkpoint));
}

#[test]
fn text_becomes_sound() {
    let c = small_config();
    let g = weights(&c);
    let checkpoint = g.checkpoint();
    let model = VitsModel::new(&c, &Scope::root(&checkpoint)).unwrap();
    let (batch, len) = (2, 5);
    let ids = Tensor::input(Slot::InputIds, DType::U32, Shape::S2(batch, len)).unwrap();
    let mask = Tensor::input(Slot::AttentionMask, DType::I64, Shape::S2(batch, len)).unwrap();
    let d = model.forward(&ids, Some(&mask), None).unwrap();
    assert_eq!(d.sums.shape(), Shape::S1(batch));
    assert_eq!(d.ends.shape(), Shape::S2(batch, len));
    assert_eq!(d.mask.shape(), Shape::S3(batch, 1, len));
    assert_eq!(d.means.shape(), Shape::S3(batch, len, c.flow_size));
    assert_eq!(d.duration.shape(), Shape::S3(batch, 1, len));

    let mut e = g.evaluator();
    let ids = Values::from_vec(vec![0u32, 3, 0, 6, 0, 1, 2, 3, 4, 5], (batch, len), &Device::Cpu);
    e.set(Slot::InputIds, ids.unwrap());
    let ones = Values::from_vec(vec![1i64, 1, 1, 1, 0, 1, 1, 1, 1, 1], (batch, len), &Device::Cpu);
    e.set(Slot::AttentionMask, ones.unwrap());
    let sums: Vec<f32> = e.eval(d.sums.term()).unwrap().to_vec1().unwrap();
    let ends: Vec<f32> =
        e.eval(d.ends.term()).unwrap().flatten_all().unwrap().to_vec1().unwrap();
    // The last end of a sequence is the sum of its durations, and padding lasts no time.
    assert_eq!((ends[4], ends[9]), (sums[0], sums[1]));
    assert_eq!(ends[3], ends[4]);
    let sums: Vec<i64> = sums.iter().map(|&v| (v as i64).min(12)).collect();
    let ends: Vec<i64> = ends.iter().map(|&v| (v.ceil() as i64).min(12)).collect();

    let (output, layout) = model.complete(&d, &sums, &ends).unwrap();
    let frames = layout.max_length;
    assert_eq!(frames as i64, *layout.lengths.iter().max().unwrap());
    assert_eq!(output.waveform.shape(), Shape::S2(batch, frames * 8));
    assert_eq!(output.spectrogram.shape(), Shape::S3(batch, c.flow_size, frames));
    let samples: Vec<i64> = layout.lengths.iter().map(|l| l * 8).collect();
    assert_eq!(output.sequence_lengths, samples);
    let flags = |v: &Vec<bool>| v.iter().map(|&f| f as u8 as f32).collect::<Vec<f32>>();
    let values = Values::from_vec(flags(&layout.output_mask), (batch, 1, frames), &Device::Cpu);
    e.set(Slot::OutputMask, values.unwrap());
    let values = Values::from_vec(flags(&layout.valid), (batch, len, frames), &Device::Cpu);
    e.set(Slot::ValidFrames, values.unwrap());
    let wave: Vec<f32> =
        e.eval(output.waveform.term()).unwrap().flatten_all().unwrap().to_vec1().unwrap();
    assert_eq!(wave.len(), batch * frames * 8);
    assert!(wave.iter().all(|v| v.is_finite() && v.abs() <= 1.0));

    // Faster speech is shorter.
    let quick = Tensor::input(Slot::InputIds, DType::U32, Shape::S2(batch, len)).unwrap();
    assert!(model.forward(&quick, None, Some(r(4.0))).is_ok());
}

#[test]
fn mask_of_ones_is_no_mask() {
    let c = small_config();
    let g = weights(&c);
    let checkpoint = g.checkpoint();
    let model = VitsModel::new(&c, &Scope::root(&checkpoint)).unwrap();
    let (batch, len) = (2, 4);
    let ids = Tensor::input(Slot::InputIds, DType::I64, Shape::S2(batch, len)).unwrap();
    let mask = Tensor::input(Slot::AttentionMask, DType::I64, Shape::S2(batch, len)).unwrap();
    let mut e = g.evaluator();
    let values = Values::from_vec(vec![0i64, 3, 0, 6, 1, 2, 3, 4], (batch, len), &Device::Cpu);
    e.set(Slot::InputIds, values.unwrap());
    e.set(Slot::AttentionMask, Values::ones((batch, len), CandleType::I64, &Device::Cpu).unwrap());
    let a = model.forward(&ids, Some(&mask), None).unwrap();
    let b = model.forward(&ids, None, None).unwrap();
    let mut list = |e: &mut Evaluator, t: &Tensor| -> Vec<f32> {
        e.eval(t.term()).unwrap().flatten_all().unwrap().to_vec1().unwrap()
    };
    for (s, t) in [
        (&a.mask, &b.mask),
        (&a.means, &b.means),
        (&a.log_variances, &b.log_variances),
    ] {
        close(&list(&mut e, s), &list(&mut e, t), 1e-5);
    }
    let (sums, ends) = (vec![5, 7], vec![1, 2, 4, 5, 2, 3, 5, 7]);
    let (with, layout) = model.complete(&a, &sums, &ends).unwrap();
    let (without, again) = model.complete(&b, &sums, &ends).unwrap();
    assert_eq!(layout.output_mask, again.output_mask);
    assert_eq!(layout.valid, again.valid);
    let frames = layout.max_length;
    let flags = |v: &Vec<bool>| v.iter().map(|&f| f as u8 as f32).collect::<Vec<f32>>();
    let values = Values::from_vec(flags(&layout.output_mask), (batch, 1, frames), &Device::Cpu);
    e.set(Slot::OutputMask, values.unwrap());
    let values = Values::from_vec(flags(&layout.valid), (batch, len, frames), &Device::Cpu);
    e.set(Slot::ValidFrames, values.unwrap());
    close(&list(&mut e, &with.waveform), &list(&mut e, &without.waveform), 1e-4);
    // Another rate takes the place of the one of the voice.
    let rate = Real { bits: c.speaking_rate.bits };
    let same = model.forward(&ids, None, Some(rate)).unwrap();
    assert_eq!(list(&mut e, &same.sums), list(&mut e, &b.sums));
}

#[test]
fn sound_needs_fitting_values() {
    let c = small_config();
    let g = weights(&c);
    let checkpoint = g.checkpoint();
    let model = VitsModel::new(&c, &Scope::root(&checkpoint)).unwrap();
    let ids = Tensor::input(Slot::InputIds, DType::U32, Shape::S2(1, 3)).unwrap();
    let d = model.forward(&ids, None, None).unwrap();
    let failure = |sums: Vec<i64>, ends: Vec<i64>| {
        model.complete(&d, &sums, &ends).map(|_| ()).unwrap_err()
    };
    assert!(matches!(failure(vec![], vec![1, 2, 3]), SynthesisError::Alignment(_)));
    assert!(matches!(failure(vec![3], vec![1, 2]), SynthesisError::Alignment(_)));
    assert!(matches!(failure(vec![i64::MAX], vec![1, 2, 3]), SynthesisError::Alignment(_)));
    let mut other = VitsModel::new(&c, &Scope::root(&checkpoint)).unwrap();
    other.upsample_rates = vec![usize::MAX];
    let e = other.complete(&d, &vec![3], &vec![1, 2, 3]).map(|_| ()).unwrap_err();
    assert_eq!(e, SynthesisError::SampleCount);
    other.decoder.num_kernels = 0;
    let e = other.complete(&d, &vec![3], &vec![1, 2, 3]).map(|_| ()).unwrap_err();
    assert!(matches!(e, SynthesisError::Tensor(TensorError::Mismatch)));
    let line = Tensor::input(Slot::InputIds, DType::U32, Shape::S1(3)).unwrap();
    assert!(model.forward(&line, None, None).is_err());
    let empty = Tensor::input(Slot::InputIds, DType::U32, Shape::S2(1, 0)).unwrap();
    assert!(model.forward(&empty, None, None).is_err());
}

#[test]
fn second_flow_has_no_influence() {
    let c = small_config();
    let mut g = weights(&c);
    let checkpoint = g.checkpoint();
    let scope = Scope::root(&checkpoint).pp("duration_predictor");
    let predictor = VitsStochasticDurationPredictor::new(&c, &scope).unwrap();
    let x = g.add("x", Shape::S3(1, 8, 3), noise(24, 5));
    let mask = g.add("mask", Shape::S3(1, 1, 3), vec![1.0; 3]);
    let d = predictor.forward(&x, &mask, None, r(0.8)).unwrap();
    assert_eq!(d.shape(), Shape::S3(1, 1, 3));
    let list = |e: &mut Evaluator| -> Vec<f32> {
        e.eval(d.term()).unwrap().flatten_all().unwrap().to_vec1().unwrap()
    };
    let mut first = g.evaluator();
    let found = list(&mut first);
    for (part, same) in [("flows.1.", true), ("flows.0.", false), ("flows.2.", false)] {
        let start = format!("duration_predictor.{part}");
        let mut other = g.evaluator();
        other.draws = first.draws.clone();
        for (k, (name, _)) in g.entries.iter().enumerate() {
            if name.starts_with(&start) {
                other.params[k] = other.params[k].affine(0.5, 0.25).unwrap();
            }
        }
        assert_eq!(list(&mut other) == found, same, "{part}");
    }
}

#[test]
fn predictor_needs_two_flows() {
    let c = VitsConfig { duration_predictor_num_flows: 0, ..small_config() };
    let mut g = weights(&c);
    let checkpoint = g.checkpoint();
    let scope = Scope::root(&checkpoint).pp("duration_predictor");
    let predictor = VitsStochasticDurationPredictor::new(&c, &scope).unwrap();
    let x = g.add("x", Shape::S3(1, 8, 3), noise(24, 5));
    let mask = g.add("mask", Shape::S3(1, 1, 3), vec![1.0; 3]);
    assert!(predictor.forward(&x, &mask, None, r(0.8)).is_err());
}

#[test]
fn tensors_are_found_by_path_and_shape() {
    let entries = vec![
        ("a.0.weight".to_string(), Shape::S1(2)),
        ("a.10.weight".to_string(), Shape::S1(3)),
        ("weight".to_string(), Shape::S2(1, 1)),
    ];
    let checkpoint = Checkpoint { entries };
    let root = Scope::root(&checkpoint);
    assert!(root.contains_tensor("weight"));
    assert!(root.item("a", 10).contains_tensor("weight"));
    assert!(!root.item("a", 1).contains_tensor("weight"));
    assert!(root.pp("a").pp("0").get(Shape::S1(2), "weight").is_ok());
    assert_eq!(root.item("a", 0).get(Shape::S1(3), "weight").unwrap_err(), LoadError::Checkpoint);
    assert_eq!(root.get(Shape::S1(3), "bias").unwrap_err(), LoadError::Checkpoint);
}

#[test]
fn dropout_is_applied_where_its_rate_is_positive() {
    let x = Tensor::zeros(DType::F32, Shape::S1(3)).unwrap();
    let kept = nn::drop_out(x.clone(), r(0.0)).unwrap();
    assert!(matches!(&**kept.term(), Term::Zero(_)));
    let kept = nn::drop_out(x.clone(), r(-0.5)).unwrap();
    assert!(matches!(&**kept.term(), Term::Zero(_)));
    let dropped = nn::drop_out(x.clone(), r(0.5)).unwrap();
    assert!(matches!(&**dropped.term(), Term::One(Op1::Dropout(_), _)));
    for rate in [1.0, 2.0, 0.99999999] {
        assert_eq!(nn::drop_out(x.clone(), r(rate)).unwrap_err(), TensorError::Mismatch);
        assert!(refused(rate));
    }
    assert!(!refused(0.5));
}

/// Whether values cannot be dropped at a rate.
fn refused(rate: f64) -> bool {
    let x = Values::zeros(3, CandleType::F32, &Device::Cpu).unwrap();
    one(Op1::Dropout(r(rate)), &x).is_err()
}

// Plans

#[test]
fn plan_lists_shared_parts_once() {
    let x = Tensor::param(0, Shape::S1(3)).unwrap();
    let y = x.exp().unwrap();
    let z = y.mul(&y).unwrap();
    let mut plan = Plan::new();
    assert_eq!(plan.add(z.term()), 2);
    assert_eq!(plan.add(y.term()), 1);
    assert_eq!(
        plan.steps(),
        &vec![
            Step::Zero(Leaf::Param(0, Shape::S1(3))),
            Step::One(Op1::Apply(Unary::Exp), 0),
            Step::Two(Op2::Zip(Binary::Mul), 1, 1),
        ]
    );
    let w = z.add(&x).unwrap();
    assert_eq!(plan.add(w.term()), 3);
    assert_eq!(plan.steps()[3], Step::Two(Op2::Zip(Binary::Add), 2, 0));
    assert_eq!(plan.last_uses(), vec![3, 2, 3, 3]);
}

#[test]
fn last_mark_is_found() {
    assert_eq!(last_marked(&vec![]), None);
    assert_eq!(last_marked(&vec![false, false]), None);
    assert_eq!(last_marked(&vec![true, false]), Some(0));
    assert_eq!(last_marked(&vec![true, false, true, false]), Some(2));
}

#[test]
fn equal_parts_that_are_not_shared_are_listed_twice() {
    let a = Tensor::param(0, Shape::S1(3)).unwrap();
    let b = Tensor::param(0, Shape::S1(3)).unwrap();
    let sum = a.add(&b).unwrap();
    let mut plan = Plan::new();
    assert_eq!(plan.add(sum.term()), 2);
    assert_eq!(plan.steps()[0], plan.steps()[1]);
    assert_eq!(plan.last_uses(), vec![2, 2, 2]);
}

// Numbers and orders

#[test]
fn patterns_are_those_of_their_numbers() {
    for (bits, number) in [
        (flows::LEAST_BITS, 1e-3),
        (spline::MILLIONTH_BITS, 1e-6),
        (hifigan::HUNDREDTH_BITS, 0.01),
        (config::TENTH_BITS, 0.1),
        (config::HUNDRED_THOUSANDTH_BITS, 1e-5),
        (config::FIVE_BITS, 5.0),
        (config::HALF_BITS, 0.5),
        (config::NOISE_SCALE_BITS, 0.667),
        (config::FOUR_FIFTHS_BITS, 0.8),
        (scalar::ZERO_BITS, 0.0),
        (scalar::ONE_BITS, 1.0),
        (scalar::MINUS_ONE_BITS, -1.0),
        (scalar::TWO_BITS, 2.0),
        (scalar::FOUR_BITS, 4.0),
        (scalar::INFINITY_BITS, f64::INFINITY),
        (scalar::LEAST_SINGLE_BITS, f32::MIN as f64),
        (scalar::NEARLY_ONE_BITS, 1.0 - 2f64.powi(-25)),
    ] {
        assert_eq!(bits, f64::to_bits(number), "{number}");
    }
    for (x, positive) in [
        (1e-300, true),
        (f64::INFINITY, true),
        (0.0, false),
        (-0.0, false),
        (-2.5, false),
        (f64::NAN, false),
    ] {
        assert_eq!(r(x).is_positive(), positive, "{x}");
    }
    // A rate is below one in single precision, too.
    for x in [0.0, 0.1, 0.5, 0.99999994] {
        assert!(r(x).is_rate() && (x as f32) < 1.0, "{x}");
    }
    for x in [1.0, 2.0, 0.99999999, 1.0 - 2f64.powi(-25), f64::INFINITY] {
        assert!(!r(x).is_rate() && (x as f32) >= 1.0, "{x}");
    }
    for x in [-2.5, f64::NEG_INFINITY, f64::NAN] {
        assert!(!r(x).is_rate(), "{x}");
    }
}

#[test]
fn flows_run_backwards_without_the_second() {
    assert_eq!(duration_predictor::flow_order(2), vec![0]);
    assert_eq!(duration_predictor::flow_order(3), vec![2, 0]);
    assert_eq!(duration_predictor::flow_order(5), vec![4, 3, 2, 0]);
}
