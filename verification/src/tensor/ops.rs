//! The operations of tensor expressions and the types of their results.

use vstd::prelude::*;

use crate::tensor::scalar::{Real, Scalar};
use crate::tensor::shape::Shape;
use crate::tensor::typing;
use crate::tensor::typing::{
    Binary, Comparison, ConvConfig, ConvTransposeConfig, DType, Type, Unary,
};

verus! {

/// Values that are handed in when an expression is evaluated.
#[derive(Clone, Copy, PartialEq, Eq, Structural, Hash, Debug)]
pub enum Slot {
    /// The identifiers of the input tokens.
    InputIds,
    /// One for every input token that counts, zero for padding.
    AttentionMask,
    /// One for every output frame that counts, zero for padding.
    OutputMask,
    /// One for every pair of an input token and an output frame before the token's end.
    ValidFrames,
}

/// The draws of random numbers. Leaves with the same name and shape are the same draw.
#[derive(Clone, Copy, PartialEq, Eq, Structural, Hash, Debug)]
pub enum Noise {
    /// The noise that durations are made from.
    Durations,
    /// The noise around the means of the prior.
    Latents,
}

/// Tensors that no operation produces.
#[derive(Clone, Copy, PartialEq, Eq, Structural, Debug)]
pub enum Leaf {
    /// A value handed in at evaluation.
    Input(Slot, Type),
    /// The tensor at a position of the checkpoint.
    Param(usize, Shape),
    /// Independent draws from the standard normal distribution.
    Randn(Noise, Shape),
    /// One number at every place.
    Fill(Scalar, Type),
}

/// Operations on one tensor.
#[derive(Clone, Copy, PartialEq, Eq, Structural, Debug)]
pub enum Op1 {
    /// A function applied to every element.
    Apply(Unary),
    /// Every element times the first number, plus the second.
    Affine(Scalar, Scalar),
    /// Every element, moved into the range from the first number to the second.
    Clamp(Scalar, Scalar),
    /// Every element, set to zero with the given probability and else divided by the complement.
    /// The probability is below one.
    Dropout(Real),
    /// Every element, converted to another type.
    Cast(DType),
    /// A comparison of every element with one number.
    CompareScalar(Comparison, Scalar),
    /// The softmax over the last dimension.
    Softmax,
    /// The running sum along a dimension.
    Cumsum(usize),
    /// The sum over the last dimension.
    SumLast,
    /// The sum over dimensions 1 and 2, kept with length one or dropped.
    SumInner(bool),
    /// The same elements, in row-major order, under another shape.
    Reshape(Shape),
    /// Two dimensions exchanged.
    Transpose(usize, usize),
    /// Of a dimension, from a start on, so many entries.
    Narrow(usize, usize, usize),
    /// A dimension of length one put in front of the given one.
    Unsqueeze(usize),
    /// A dimension dropped if its length is one.
    Squeeze(usize),
    /// Dimensions of length one repeated up to the given shape.
    Expand(Shape),
    /// The same tensor, laid out in row-major order.
    Contiguous,
    /// The entries of a dimension in reverse.
    Reverse(usize),
}

/// Operations on two tensors.
#[derive(Clone, Copy, PartialEq, Eq, Structural, Debug)]
pub enum Op2 {
    /// A function of two elements at the same place.
    Zip(Binary),
    /// A function of two elements at the same place, after repetition of dimensions of length one.
    Broadcast(Binary),
    /// A comparison of two elements at the same place.
    Compare(Comparison),
    /// A comparison of two elements at the same place, after repetition.
    BroadcastCompare(Comparison),
    /// The product of two matrices, or of two stacks of them.
    Matmul,
    /// The product of the rows of the first with the transposed second.
    Linear,
    /// The entries of the first along a dimension, then those of the second.
    Concat(usize),
    /// The entries of the first along the last dimension at the positions that the second holds.
    GatherLast,
    /// The second, a kernel, moved along the last dimension of the first.
    Conv1d(ConvConfig),
    /// The second, a transposed kernel, moved along the last dimension of the first.
    ConvTranspose1d(ConvTransposeConfig),
    /// The rows of the first that the second names.
    Embedding,
}

/// Operations on three tensors.
#[derive(Clone, Copy, PartialEq, Eq, Structural, Debug)]
pub enum Op3 {
    /// The element of the second where that of the first is not zero, else that of the third.
    Select,
    /// The last dimension of the first brought to mean zero and variance one, times the second,
    /// plus the third; the number is added to the variance.
    LayerNorm(Real),
}

/// The type of a tensor that no operation produces.
pub open spec fn leaf_type(leaf: Leaf) -> Option<Type> {
    match leaf {
        Leaf::Input(_, ty) => typing::typed(ty.dtype, ty.shape),
        Leaf::Param(_, shape) => typing::typed(DType::F32, shape),
        Leaf::Randn(_, shape) => typing::typed(DType::F32, shape),
        Leaf::Fill(_, ty) => typing::typed(ty.dtype, ty.shape),
    }
}

/// The type of an operation on one tensor.
pub open spec fn type_1(op: Op1, a: Type) -> Option<Type> {
    match op {
        Op1::Apply(_) => typing::float_type(a),
        Op1::Affine(_, _) => typing::float_type(a),
        Op1::Clamp(_, _) => typing::float_type(a),
        Op1::Dropout(x) => if x.spec_is_rate() {
            typing::float_type(a)
        } else {
            None
        },
        Op1::Cast(x) => Some(Type { dtype: x, shape: a.shape }),
        Op1::CompareScalar(_, _) => typing::flags_type(typing::float_type(a)),
        Op1::Softmax => typing::softmax_type(a),
        Op1::Cumsum(x) => typing::along_type(a, x as int),
        Op1::SumLast => typing::sum_last_type(a),
        Op1::SumInner(x) => typing::sum_inner_type(a, x),
        Op1::Reshape(x) => typing::reshape_type(a, x),
        Op1::Transpose(x, y) => typing::transpose_type(a, x as int, y as int),
        Op1::Narrow(x, y, z) => typing::narrow_type(a, x as int, y as int, z),
        Op1::Unsqueeze(x) => typing::unsqueeze_type(a, x as int),
        Op1::Squeeze(x) => typing::squeeze_type(a, x as int),
        Op1::Expand(x) => typing::expand_type(a, x),
        Op1::Contiguous => Some(a),
        Op1::Reverse(x) => typing::reverse_type(a, x as int),
    }
}

/// The type of an operation on two tensors.
pub open spec fn type_2(op: Op2, a: Type, b: Type) -> Option<Type> {
    match op {
        Op2::Zip(_) => typing::zip_type(a, b),
        Op2::Broadcast(_) => typing::broadcast_type(a, b),
        Op2::Compare(_) => typing::flags_type(typing::zip_type(a, b)),
        Op2::BroadcastCompare(_) => typing::flags_type(typing::broadcast_type(a, b)),
        Op2::Matmul => typing::matmul_type(a, b),
        Op2::Linear => typing::linear_type(a, b),
        Op2::Concat(x) => typing::concat_type(a, b, x as int),
        Op2::GatherLast => typing::gather_last_type(a, b),
        Op2::Conv1d(x) => typing::conv1d_type(a, b, x),
        Op2::ConvTranspose1d(x) => typing::conv_transpose1d_type(a, b, x),
        Op2::Embedding => typing::embedding_type(a, b),
    }
}

/// The type of an operation on three tensors.
pub open spec fn type_3(op: Op3, a: Type, b: Type, c: Type) -> Option<Type> {
    match op {
        Op3::Select => typing::select_type(a, b, c),
        Op3::LayerNorm(_) => typing::layer_norm_type(a, b, c),
    }
}

/// The type of a tensor that no operation produces.
pub fn check_leaf(leaf: Leaf) -> (r: Option<Type>)
    ensures
        r == leaf_type(leaf),
{
    match leaf {
        Leaf::Input(_, ty) => typing::make_type(ty.dtype, ty.shape),
        Leaf::Param(_, shape) => typing::make_type(DType::F32, shape),
        Leaf::Randn(_, shape) => typing::make_type(DType::F32, shape),
        Leaf::Fill(_, ty) => typing::make_type(ty.dtype, ty.shape),
    }
}

fn flags(a: Option<Type>) -> (r: Option<Type>)
    ensures
        r == typing::flags_type(a),
{
    match a {
        Some(t) => Some(Type { dtype: DType::U8, shape: t.shape }),
        None => None,
    }
}

/// The type of an operation on one tensor.
pub fn check_1(op: Op1, a: Type) -> (r: Option<Type>)
    requires
        a.shape.spec_fits(),
    ensures
        r == type_1(op, a),
        r matches Some(t) ==> t.shape.spec_fits(),
{
    match op {
        Op1::Apply(_) => typing::check_float(a),
        Op1::Affine(_, _) => typing::check_float(a),
        Op1::Clamp(_, _) => typing::check_float(a),
        Op1::Dropout(x) => if x.is_rate() {
            typing::check_float(a)
        } else {
            None
        },
        Op1::Cast(x) => Some(Type { dtype: x, shape: a.shape }),
        Op1::CompareScalar(_, _) => flags(typing::check_float(a)),
        Op1::Softmax => typing::check_softmax(a),
        Op1::Cumsum(x) => typing::check_along(a, x),
        Op1::SumLast => typing::check_sum_last(a),
        Op1::SumInner(x) => typing::check_sum_inner(a, x),
        Op1::Reshape(x) => typing::check_reshape(a, x),
        Op1::Transpose(x, y) => typing::check_transpose(a, x, y),
        Op1::Narrow(x, y, z) => typing::check_narrow(a, x, y, z),
        Op1::Unsqueeze(x) => typing::check_unsqueeze(a, x),
        Op1::Squeeze(x) => typing::check_squeeze(a, x),
        Op1::Expand(x) => typing::check_expand(a, x),
        Op1::Contiguous => Some(a),
        Op1::Reverse(x) => typing::check_reverse(a, x),
    }
}

/// The type of an operation on two tensors.
pub fn check_2(op: Op2, a: Type, b: Type) -> (r: Option<Type>)
    requires
        a.shape.spec_fits(),
        b.shape.spec_fits(),
    ensures
        r == type_2(op, a, b),
        r matches Some(t) ==> t.shape.spec_fits(),
{
    match op {
        Op2::Zip(_) => typing::check_zip(a, b),
        Op2::Broadcast(_) => typing::check_broadcast(a, b),
        Op2::Compare(_) => flags(typing::check_zip(a, b)),
        Op2::BroadcastCompare(_) => flags(typing::check_broadcast(a, b)),
        Op2::Matmul => typing::check_matmul(a, b),
        Op2::Linear => typing::check_linear(a, b),
        Op2::Concat(x) => typing::check_concat(a, b, x),
        Op2::GatherLast => typing::check_gather_last(a, b),
        Op2::Conv1d(x) => typing::check_conv1d(a, b, x),
        Op2::ConvTranspose1d(x) => typing::check_conv_transpose1d(a, b, x),
        Op2::Embedding => typing::check_embedding(a, b),
    }
}

/// The type of an operation on three tensors.
pub fn check_3(op: Op3, a: Type, b: Type, c: Type) -> (r: Option<Type>)
    requires
        a.shape.spec_fits(),
        b.shape.spec_fits(),
        c.shape.spec_fits(),
    ensures
        r == type_3(op, a, b, c),
        r matches Some(t) ==> t.shape.spec_fits(),
{
    match op {
        Op3::Select => typing::check_select(a, b, c),
        Op3::LayerNorm(_) => typing::check_layer_norm(a, b, c),
    }
}

} // verus!
