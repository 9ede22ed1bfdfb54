//! Typed tensor expressions under construction.

use std::rc::Rc;

use vstd::prelude::*;

use crate::tensor::ops;
use crate::tensor::ops::{Leaf, Noise, Op1, Op2, Op3, Slot};
use crate::tensor::scalar;
use crate::tensor::scalar::{Real, Scalar, MINUS_ONE_BITS, ONE_BITS, ZERO_BITS};
use crate::tensor::shape::Shape;
use crate::tensor::term;
use crate::tensor::term::Term;
use crate::tensor::typing::{
    Binary, Comparison, ConvConfig, ConvTransposeConfig, DType, Type, Unary,
};

verus! {

broadcast use crate::tensor::term::typing_rules;

/// Why a tensor expression cannot be built.
#[derive(Clone, Copy, PartialEq, Eq, Structural, Debug)]
pub enum TensorError {
    /// The shapes or element types of the operands do not fit the operation, or its result cannot
    /// be addressed.
    Mismatch,
}

/// A tensor expression together with its type. Its view is the expression; two handles share what
/// they have in common.
#[derive(Debug)]
pub struct Tensor {
    ty: Type,
    term: Rc<Term>,
}

/// What an operation that builds the expression `t` returns: the expression, or an error exactly
/// where it has no type.
pub open spec fn gives(r: Result<Tensor, TensorError>, t: Term) -> bool {
    match r {
        Ok(x) => x@ == t && term::typ(t) is Some,
        Err(_) => term::typ(t) is None,
    }
}

/// What a computation of two expressions returns: both, or an error exactly where one of them has
/// no type.
pub open spec fn gives_both(r: Result<(Tensor, Tensor), TensorError>, a: Term, b: Term) -> bool {
    match r {
        Ok((x, y)) => x@ == a && y@ == b && term::typ(a) is Some && term::typ(b) is Some,
        Err(_) => term::typ(a) is None || term::typ(b) is None,
    }
}

/// What a computation of one expression, and sometimes of a second, returns.
pub open spec fn gives_with(
    r: Result<(Tensor, Option<Tensor>), TensorError>,
    a: Term,
    b: Option<Term>,
) -> bool {
    match r {
        Ok((x, y)) => {
            &&& x@ == a && term::typ(a) is Some
            &&& held(y) == b
            &&& b is Some ==> term::typ(b->0) is Some
        },
        Err(_) => term::typ(a) is None || (b is Some && term::typ(b->0) is None),
    }
}

/// The expression behind a handle, if there is one.
pub open spec fn viewed(x: Option<&Tensor>) -> Option<Term> {
    match x {
        Some(t) => Some(t@),
        None => None,
    }
}

/// The expression behind a handle, if there is one.
pub open spec fn held(x: Option<Tensor>) -> Option<Term> {
    match x {
        Some(t) => Some(t@),
        None => None,
    }
}

impl View for Tensor {
    type V = Term;

    closed spec fn view(&self) -> Term {
        *self.term
    }
}

impl Clone for Tensor {
    fn clone(&self) -> (r: Self)
        ensures
            r@ == self@,
    {
        proof {
            use_type_invariant(self);
        }
        Tensor { ty: self.ty, term: self.term.clone() }
    }
}

impl Tensor {
    #[verifier::type_invariant]
    spec fn inv(self) -> bool {
        term::typ(*self.term) == Some(self.ty) && self.ty.shape.spec_fits()
    }

    /// The type of the tensor.
    pub fn ty(&self) -> (r: Type)
        ensures
            term::typ(self@) == Some(r),
            r.shape.spec_fits(),
    {
        proof {
            use_type_invariant(self);
        }
        self.ty
    }

    /// The dimensions of the tensor.
    pub fn shape(&self) -> (r: Shape)
        ensures
            term::typ(self@) is Some,
            r == self@.shape(),
            r.spec_fits(),
    {
        self.ty().shape
    }

    /// The type of the tensor's elements.
    pub fn dtype(&self) -> (r: DType)
        ensures
            term::typ(self@) is Some,
            r == self@.dtype(),
    {
        self.ty().dtype
    }

    /// The expression.
    pub fn term(&self) -> (r: &Rc<Term>)
        ensures
            **r == self@,
    {
        &self.term
    }

    /// The lengths of both dimensions.
    pub fn dims2(&self) -> (r: Result<(usize, usize), TensorError>)
        ensures
            match r {
                Ok((a, b)) => term::typ(self@) is Some && self@.shape() == Shape::S2(a, b)
                    && self@.shape().spec_fits(),
                Err(_) => !(self@.shape() is S2),
            },
    {
        match self.shape() {
            Shape::S2(a, b) => Ok((a, b)),
            _ => Err(TensorError::Mismatch),
        }
    }

    /// The lengths of all three dimensions.
    pub fn dims3(&self) -> (r: Result<(usize, usize, usize), TensorError>)
        ensures
            match r {
                Ok((a, b, c)) => term::typ(self@) is Some && self@.shape() == Shape::S3(a, b, c)
                    && self@.shape().spec_fits(),
                Err(_) => !(self@.shape() is S3),
            },
    {
        match self.shape() {
            Shape::S3(a, b, c) => Ok((a, b, c)),
            _ => Err(TensorError::Mismatch),
        }
    }

    fn leaf(leaf: Leaf) -> (r: Result<Tensor, TensorError>)
        ensures
            gives(r, Term::leaf(leaf)),
    {
        match ops::check_leaf(leaf) {
            Some(ty) => Ok(Tensor { ty, term: Rc::new(Term::Zero(leaf)) }),
            None => Err(TensorError::Mismatch),
        }
    }

    fn one(&self, op: Op1) -> (r: Result<Tensor, TensorError>)
        ensures
            gives(r, self@.one(op)),
    {
        proof {
            use_type_invariant(self);
        }
        match ops::check_1(op, self.ty) {
            Some(ty) => Ok(Tensor { ty, term: Rc::new(Term::One(op, self.term.clone())) }),
            None => Err(TensorError::Mismatch),
        }
    }

    fn two(&self, b: &Tensor, op: Op2) -> (r: Result<Tensor, TensorError>)
        ensures
            gives(r, self@.two(b@, op)),
    {
        proof {
            use_type_invariant(self);
            use_type_invariant(b);
        }
        match ops::check_2(op, self.ty, b.ty) {
            Some(ty) => Ok(
                Tensor { ty, term: Rc::new(Term::Two(op, self.term.clone(), b.term.clone())) },
            ),
            None => Err(TensorError::Mismatch),
        }
    }

    fn three(&self, b: &Tensor, c: &Tensor, op: Op3) -> (r: Result<Tensor, TensorError>)
        ensures
            gives(r, self@.three(b@, c@, op)),
    {
        proof {
            use_type_invariant(self);
            use_type_invariant(b);
            use_type_invariant(c);
        }
        match ops::check_3(op, self.ty, b.ty, c.ty) {
            Some(ty) => Ok(
                Tensor {
                    ty,
                    term: Rc::new(
                        Term::Three(op, self.term.clone(), b.term.clone(), c.term.clone()),
                    ),
                },
            ),
            None => Err(TensorError::Mismatch),
        }
    }

    /// A value handed in at evaluation.
    pub fn input(slot: Slot, dtype: DType, shape: Shape) -> (r: Result<Tensor, TensorError>)
        ensures
            gives(r, Term::input(slot, dtype, shape)),
    {
        Tensor::leaf(Leaf::Input(slot, Type { dtype, shape }))
    }

    /// The tensor at a position of the checkpoint.
    pub fn param(index: usize, shape: Shape) -> (r: Result<Tensor, TensorError>)
        ensures
            gives(r, Term::param(index, shape)),
    {
        Tensor::leaf(Leaf::Param(index, shape))
    }

    /// Independent draws from the standard normal distribution.
    pub fn randn(noise: Noise, shape: Shape) -> (r: Result<Tensor, TensorError>)
        ensures
            gives(r, Term::randn(noise, shape)),
    {
        Tensor::leaf(Leaf::Randn(noise, shape))
    }

    /// One number at every place.
    pub fn full(value: Scalar, dtype: DType, shape: Shape) -> (r: Result<Tensor, TensorError>)
        ensures
            gives(r, Term::full(value, dtype, shape)),
    {
        Tensor::leaf(Leaf::Fill(value, Type { dtype, shape }))
    }

    /// Zero at every place.
    pub fn zeros(dtype: DType, shape: Shape) -> (r: Result<Tensor, TensorError>)
        ensures
            gives(r, Term::zeros(dtype, shape)),
    {
        Tensor::full(scalar::value_of(ZERO_BITS), dtype, shape)
    }

    /// Zero at every place of a tensor of the same type.
    pub fn zeros_like(&self) -> (r: Result<Tensor, TensorError>)
        ensures
            gives(r, self@.zeros_like()),
            r is Ok,
    {
        Tensor::zeros(self.dtype(), self.shape())
    }

    /// A function applied to every element.
    fn apply(&self, f: Unary) -> (r: Result<Tensor, TensorError>)
        ensures
            gives(r, self@.apply(f)),
    {
        self.one(Op1::Apply(f))
    }

    /// Every element times the first number, plus the second.
    pub fn affine(&self, factor: Scalar, summand: Scalar) -> (r: Result<Tensor, TensorError>)
        ensures
            gives(r, self@.affine(factor, summand)),
    {
        self.one(Op1::Affine(factor, summand))
    }

    /// Every element, moved into the range from the first number to the second.
    pub fn clamp(&self, low: Scalar, high: Scalar) -> (r: Result<Tensor, TensorError>)
        ensures
            gives(r, self@.clamp(low, high)),
    {
        self.one(Op1::Clamp(low, high))
    }

    /// Every element, set to zero with the given probability and else divided by the complement.
    pub fn dropout(&self, rate: Real) -> (r: Result<Tensor, TensorError>)
        ensures
            gives(r, self@.dropout(rate)),
    {
        self.one(Op1::Dropout(rate))
    }

    /// Every element, converted to another type.
    pub fn cast(&self, dtype: DType) -> (r: Result<Tensor, TensorError>)
        ensures
            gives(r, self@.cast(dtype)),
    {
        self.one(Op1::Cast(dtype))
    }

    /// A comparison of every element with one number.
    pub fn compare_scalar(&self, f: Comparison, bound: Scalar) -> (r: Result<Tensor, TensorError>)
        ensures
            gives(r, self@.compare_scalar(f, bound)),
    {
        self.one(Op1::CompareScalar(f, bound))
    }

    /// The softmax over the last dimension.
    pub fn softmax(&self) -> (r: Result<Tensor, TensorError>)
        ensures
            gives(r, self@.softmax()),
    {
        self.one(Op1::Softmax)
    }

    /// The running sum along a dimension.
    pub fn cumsum(&self, dim: usize) -> (r: Result<Tensor, TensorError>)
        ensures
            gives(r, self@.cumsum(dim)),
    {
        self.one(Op1::Cumsum(dim))
    }

    /// The sum over the last dimension.
    pub fn sum_last(&self) -> (r: Result<Tensor, TensorError>)
        ensures
            gives(r, self@.sum_last()),
    {
        self.one(Op1::SumLast)
    }

    /// The sum over dimensions 1 and 2, kept with length one or dropped.
    pub fn sum_inner(&self, keep: bool) -> (r: Result<Tensor, TensorError>)
        ensures
            gives(r, self@.sum_inner(keep)),
    {
        self.one(Op1::SumInner(keep))
    }

    /// The same elements, in row-major order, under another shape.
    pub fn reshape(&self, shape: Shape) -> (r: Result<Tensor, TensorError>)
        ensures
            gives(r, self@.reshape(shape)),
    {
        self.one(Op1::Reshape(shape))
    }

    /// Two dimensions exchanged.
    pub fn transpose(&self, i: usize, j: usize) -> (r: Result<Tensor, TensorError>)
        ensures
            gives(r, self@.transpose(i, j)),
    {
        self.one(Op1::Transpose(i, j))
    }

    /// Of a dimension, from a start on, so many entries.
    pub fn narrow(&self, dim: usize, start: usize, len: usize) -> (r: Result<Tensor, TensorError>)
        ensures
            gives(r, self@.narrow(dim, start, len)),
    {
        self.one(Op1::Narrow(dim, start, len))
    }

    /// A dimension of length one put in front of the given one.
    pub fn unsqueeze(&self, dim: usize) -> (r: Result<Tensor, TensorError>)
        ensures
            gives(r, self@.unsqueeze(dim)),
    {
        self.one(Op1::Unsqueeze(dim))
    }

    /// A dimension dropped if its length is one.
    pub fn squeeze(&self, dim: usize) -> (r: Result<Tensor, TensorError>)
        ensures
            gives(r, self@.squeeze(dim)),
    {
        self.one(Op1::Squeeze(dim))
    }

    /// Dimensions of length one repeated up to the given shape.
    pub fn expand(&self, shape: Shape) -> (r: Result<Tensor, TensorError>)
        ensures
            gives(r, self@.expand(shape)),
    {
        self.one(Op1::Expand(shape))
    }

    /// The same tensor, laid out in row-major order.
    pub fn contiguous(&self) -> (r: Result<Tensor, TensorError>)
        ensures
            gives(r, self@.contiguous()),
    {
        self.one(Op1::Contiguous)
    }

    /// The entries of a dimension in reverse.
    pub fn reverse(&self, dim: usize) -> (r: Result<Tensor, TensorError>)
        ensures
            gives(r, self@.reverse(dim)),
    {
        self.one(Op1::Reverse(dim))
    }

    /// A function of two elements at the same place.
    fn zip(&self, b: &Tensor, f: Binary) -> (r: Result<Tensor, TensorError>)
        ensures
            gives(r, self@.zip(b@, f)),
    {
        self.two(b, Op2::Zip(f))
    }

    /// A function of two elements at the same place, after repetition of dimensions of length one.
    fn broadcast(&self, b: &Tensor, f: Binary) -> (r: Result<Tensor, TensorError>)
        ensures
            gives(r, self@.broadcast(b@, f)),
    {
        self.two(b, Op2::Broadcast(f))
    }

    /// A comparison of two elements at the same place.
    pub fn compare(&self, b: &Tensor, f: Comparison) -> (r: Result<Tensor, TensorError>)
        ensures
            gives(r, self@.compare(b@, f)),
    {
        self.two(b, Op2::Compare(f))
    }

    /// A comparison of two elements at the same place, after repetition.
    pub fn broadcast_compare(&self, b: &Tensor, f: Comparison) -> (r: Result<Tensor, TensorError>)
        ensures
            gives(r, self@.broadcast_compare(b@, f)),
    {
        self.two(b, Op2::BroadcastCompare(f))
    }

    /// The product of two matrices, or of two stacks of them.
    pub fn matmul(&self, b: &Tensor) -> (r: Result<Tensor, TensorError>)
        ensures
            gives(r, self@.matmul(b@)),
    {
        self.two(b, Op2::Matmul)
    }

    /// The product of the rows of the first with the transposed second.
    pub fn linear(&self, b: &Tensor) -> (r: Result<Tensor, TensorError>)
        ensures
            gives(r, self@.linear(b@)),
    {
        self.two(b, Op2::Linear)
    }

    /// The entries of the first along a dimension, then those of the second.
    pub fn concat(&self, b: &Tensor, dim: usize) -> (r: Result<Tensor, TensorError>)
        ensures
            gives(r, self@.concat(b@, dim)),
    {
        self.two(b, Op2::Concat(dim))
    }

    /// The entries of the first along the last dimension at the positions that the second holds.
    pub fn gather_last(&self, b: &Tensor) -> (r: Result<Tensor, TensorError>)
        ensures
            gives(r, self@.gather_last(b@)),
    {
        self.two(b, Op2::GatherLast)
    }

    /// The second, a kernel, moved along the last dimension of the first.
    pub fn conv1d(&self, b: &Tensor, config: ConvConfig) -> (r: Result<Tensor, TensorError>)
        ensures
            gives(r, self@.conv1d(b@, config)),
    {
        self.two(b, Op2::Conv1d(config))
    }

    /// The second, a transposed kernel, moved along the last dimension of the first.
    pub fn conv_transpose1d(
        &self,
        b: &Tensor,
        config: ConvTransposeConfig,
    ) -> (r: Result<Tensor, TensorError>)
        ensures
            gives(r, self@.conv_transpose1d(b@, config)),
    {
        self.two(b, Op2::ConvTranspose1d(config))
    }

    /// The rows of the first that the second names.
    pub fn embedding(&self, b: &Tensor) -> (r: Result<Tensor, TensorError>)
        ensures
            gives(r, self@.embedding(b@)),
    {
        self.two(b, Op2::Embedding)
    }

    /// The element of the second where that of the first is not zero, else that of the third.
    pub fn select(&self, b: &Tensor, c: &Tensor) -> (r: Result<Tensor, TensorError>)
        ensures
            gives(r, self@.select(b@, c@)),
    {
        self.three(b, c, Op3::Select)
    }

    /// The last dimension of the first brought to mean zero and variance one, times the second,
    /// plus the third; the number is added to the variance.
    pub fn layer_norm(&self, b: &Tensor, c: &Tensor, eps: Real) -> (r: Result<Tensor, TensorError>)
        ensures
            gives(r, self@.layer_norm(b@, c@, eps)),
    {
        self.three(b, c, Op3::LayerNorm(eps))
    }

    /// The negation of every element.
    pub fn neg(&self) -> (r: Result<Tensor, TensorError>)
        ensures
            gives(r, self@.neg()),
    {
        self.apply(Unary::Neg)
    }

    /// The exponential of every element.
    pub fn exp(&self) -> (r: Result<Tensor, TensorError>)
        ensures
            gives(r, self@.exp()),
    {
        self.apply(Unary::Exp)
    }

    /// The natural logarithm of every element.
    pub fn log(&self) -> (r: Result<Tensor, TensorError>)
        ensures
            gives(r, self@.log()),
    {
        self.apply(Unary::Log)
    }

    /// The square of every element.
    pub fn sqr(&self) -> (r: Result<Tensor, TensorError>)
        ensures
            gives(r, self@.sqr()),
    {
        self.apply(Unary::Sqr)
    }

    /// The square root of every element.
    pub fn sqrt(&self) -> (r: Result<Tensor, TensorError>)
        ensures
            gives(r, self@.sqrt()),
    {
        self.apply(Unary::Sqrt)
    }

    /// One over every element.
    pub fn recip(&self) -> (r: Result<Tensor, TensorError>)
        ensures
            gives(r, self@.recip()),
    {
        self.apply(Unary::Recip)
    }

    /// The hyperbolic tangent of every element.
    pub fn tanh(&self) -> (r: Result<Tensor, TensorError>)
        ensures
            gives(r, self@.tanh()),
    {
        self.apply(Unary::Tanh)
    }

    /// Every element, or zero if it is negative.
    pub fn relu(&self) -> (r: Result<Tensor, TensorError>)
        ensures
            gives(r, self@.relu()),
    {
        self.apply(Unary::Relu)
    }

    /// The Gaussian error linear unit of every element.
    pub fn gelu_erf(&self) -> (r: Result<Tensor, TensorError>)
        ensures
            gives(r, self@.gelu_erf()),
    {
        self.apply(Unary::GeluErf)
    }

    /// Every element times its logistic sigmoid.
    pub fn silu(&self) -> (r: Result<Tensor, TensorError>)
        ensures
            gives(r, self@.silu()),
    {
        self.apply(Unary::Silu)
    }

    /// The logarithm of one plus the exponential of every element.
    pub fn softplus(&self) -> (r: Result<Tensor, TensorError>)
        ensures
            gives(r, self@.softplus()),
    {
        self.apply(Unary::Softplus)
    }

    /// Every element rounded up.
    pub fn ceil(&self) -> (r: Result<Tensor, TensorError>)
        ensures
            gives(r, self@.ceil()),
    {
        self.apply(Unary::Ceil)
    }

    /// The sum of the elements at each place.
    pub fn add(&self, b: &Tensor) -> (r: Result<Tensor, TensorError>)
        ensures
            gives(r, self@.add(b@)),
    {
        self.zip(b, Binary::Add)
    }

    /// The difference of the elements at each place.
    pub fn sub(&self, b: &Tensor) -> (r: Result<Tensor, TensorError>)
        ensures
            gives(r, self@.sub(b@)),
    {
        self.zip(b, Binary::Sub)
    }

    /// The product of the elements at each place.
    pub fn mul(&self, b: &Tensor) -> (r: Result<Tensor, TensorError>)
        ensures
            gives(r, self@.mul(b@)),
    {
        self.zip(b, Binary::Mul)
    }

    /// The quotient of the elements at each place.
    pub fn div(&self, b: &Tensor) -> (r: Result<Tensor, TensorError>)
        ensures
            gives(r, self@.div(b@)),
    {
        self.zip(b, Binary::Div)
    }

    /// The greater of the elements at each place.
    pub fn maximum(&self, b: &Tensor) -> (r: Result<Tensor, TensorError>)
        ensures
            gives(r, self@.maximum(b@)),
    {
        self.zip(b, Binary::Maximum)
    }

    /// The lesser of the elements at each place.
    pub fn minimum(&self, b: &Tensor) -> (r: Result<Tensor, TensorError>)
        ensures
            gives(r, self@.minimum(b@)),
    {
        self.zip(b, Binary::Minimum)
    }

    /// The sum of the elements at each place, after repetition.
    pub fn broadcast_add(&self, b: &Tensor) -> (r: Result<Tensor, TensorError>)
        ensures
            gives(r, self@.broadcast_add(b@)),
    {
        self.broadcast(b, Binary::Add)
    }

    /// The difference of the elements at each place, after repetition.
    pub fn broadcast_sub(&self, b: &Tensor) -> (r: Result<Tensor, TensorError>)
        ensures
            gives(r, self@.broadcast_sub(b@)),
    {
        self.broadcast(b, Binary::Sub)
    }

    /// The product of the elements at each place, after repetition.
    pub fn broadcast_mul(&self, b: &Tensor) -> (r: Result<Tensor, TensorError>)
        ensures
            gives(r, self@.broadcast_mul(b@)),
    {
        self.broadcast(b, Binary::Mul)
    }

    /// The quotient of the elements at each place, after repetition.
    pub fn broadcast_div(&self, b: &Tensor) -> (r: Result<Tensor, TensorError>)
        ensures
            gives(r, self@.broadcast_div(b@)),
    {
        self.broadcast(b, Binary::Div)
    }

    /// Every element times `factor`.
    pub fn scale(&self, factor: Scalar) -> (r: Result<Tensor, TensorError>)
        ensures
            gives(r, self@.scale(factor)),
    {
        self.affine(factor, scalar::value_of(ZERO_BITS))
    }

    /// Every element plus `summand`.
    pub fn shift(&self, summand: Scalar) -> (r: Result<Tensor, TensorError>)
        ensures
            gives(r, self@.shift(summand)),
    {
        self.affine(scalar::value_of(ONE_BITS), summand)
    }

    /// One minus every element.
    pub fn one_minus(&self) -> (r: Result<Tensor, TensorError>)
        ensures
            gives(r, self@.one_minus()),
    {
        self.affine(scalar::value_of(MINUS_ONE_BITS), scalar::value_of(ONE_BITS))
    }
}

} // verus!
