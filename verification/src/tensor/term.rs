//! Tensor expressions as data, and their types.

use std::rc::Rc;

use vstd::prelude::*;

use crate::tensor::ops;
use crate::tensor::ops::{Leaf, Noise, Op1, Op2, Op3, Slot};
use crate::tensor::scalar;
use crate::tensor::scalar::{Real, Scalar, MINUS_ONE_BITS, ONE_BITS, ZERO_BITS};
use crate::tensor::shape::Shape;
use crate::tensor::typing;
use crate::tensor::typing::{
    Binary, Comparison, ConvConfig, ConvTransposeConfig, DType, Type, Unary,
};

verus! {

/// A tensor expression: a leaf, or an operation on one, two or three expressions.
#[derive(Debug)]
pub enum Term {
    Zero(Leaf),
    One(Op1, Rc<Term>),
    Two(Op2, Rc<Term>, Rc<Term>),
    Three(Op3, Rc<Term>, Rc<Term>, Rc<Term>),
}

/// The type of an expression, or `None` if some operation in it does not apply to its operands.
#[verifier::opaque]
pub open spec fn typ(t: Term) -> Option<Type>
    decreases t,
{
    match t {
        Term::Zero(leaf) => ops::leaf_type(leaf),
        Term::One(op, a) => match typ(*a) {
            Some(x) => ops::type_1(op, x),
            None => None,
        },
        Term::Two(op, a, b) => match (typ(*a), typ(*b)) {
            (Some(x), Some(y)) => ops::type_2(op, x, y),
            _ => None,
        },
        Term::Three(op, a, b, c) => match (typ(*a), typ(*b), typ(*c)) {
            (Some(x), Some(y), Some(z)) => ops::type_3(op, x, y, z),
            _ => None,
        },
    }
}

impl Term {
    pub open spec fn leaf(leaf: Leaf) -> Term {
        Term::Zero(leaf)
    }

    pub open spec fn one(self, op: Op1) -> Term {
        Term::One(op, Rc::new(self))
    }

    pub open spec fn two(self, b: Term, op: Op2) -> Term {
        Term::Two(op, Rc::new(self), Rc::new(b))
    }

    pub open spec fn three(self, b: Term, c: Term, op: Op3) -> Term {
        Term::Three(op, Rc::new(self), Rc::new(b), Rc::new(c))
    }

    /// An expression without a type. It stands for the result of a computation that fails.
    pub open spec fn undefined() -> Term {
        Term::zeros(DType::F32, Shape::S0).reshape(Shape::S1(0))
    }

    /// The element type, where the expression has one.
    pub open spec fn dtype(self) -> DType {
        typ(self)->0.dtype
    }

    /// The shape, where the expression has one.
    pub open spec fn shape(self) -> Shape {
        typ(self)->0.shape
    }

    pub open spec fn input(slot: Slot, dtype: DType, shape: Shape) -> Term {
        Term::leaf(Leaf::Input(slot, Type { dtype, shape }))
    }

    pub open spec fn param(index: usize, shape: Shape) -> Term {
        Term::leaf(Leaf::Param(index, shape))
    }

    pub open spec fn randn(noise: Noise, shape: Shape) -> Term {
        Term::leaf(Leaf::Randn(noise, shape))
    }

    pub open spec fn full(value: Scalar, dtype: DType, shape: Shape) -> Term {
        Term::leaf(Leaf::Fill(value, Type { dtype, shape }))
    }

    pub open spec fn zeros(dtype: DType, shape: Shape) -> Term {
        Term::full(scalar::scalar(ZERO_BITS), dtype, shape)
    }

    /// Zeros under the type of this expression.
    pub open spec fn zeros_like(self) -> Term {
        match typ(self) {
            Some(ty) => Term::zeros(ty.dtype, ty.shape),
            None => Term::undefined(),
        }
    }

    pub open spec fn apply(self, f: Unary) -> Term {
        self.one(Op1::Apply(f))
    }

    pub open spec fn affine(self, factor: Scalar, summand: Scalar) -> Term {
        self.one(Op1::Affine(factor, summand))
    }

    pub open spec fn clamp(self, low: Scalar, high: Scalar) -> Term {
        self.one(Op1::Clamp(low, high))
    }

    pub open spec fn dropout(self, rate: Real) -> Term {
        self.one(Op1::Dropout(rate))
    }

    pub open spec fn cast(self, dtype: DType) -> Term {
        self.one(Op1::Cast(dtype))
    }

    pub open spec fn compare_scalar(self, f: Comparison, bound: Scalar) -> Term {
        self.one(Op1::CompareScalar(f, bound))
    }

    pub open spec fn softmax(self) -> Term {
        self.one(Op1::Softmax)
    }

    pub open spec fn cumsum(self, dim: usize) -> Term {
        self.one(Op1::Cumsum(dim))
    }

    pub open spec fn sum_last(self) -> Term {
        self.one(Op1::SumLast)
    }

    pub open spec fn sum_inner(self, keep: bool) -> Term {
        self.one(Op1::SumInner(keep))
    }

    pub open spec fn reshape(self, shape: Shape) -> Term {
        self.one(Op1::Reshape(shape))
    }

    pub open spec fn transpose(self, i: usize, j: usize) -> Term {
        self.one(Op1::Transpose(i, j))
    }

    pub open spec fn narrow(self, dim: usize, start: usize, len: usize) -> Term {
        self.one(Op1::Narrow(dim, start, len))
    }

    pub open spec fn unsqueeze(self, dim: usize) -> Term {
        self.one(Op1::Unsqueeze(dim))
    }

    pub open spec fn squeeze(self, dim: usize) -> Term {
        self.one(Op1::Squeeze(dim))
    }

    pub open spec fn expand(self, shape: Shape) -> Term {
        self.one(Op1::Expand(shape))
    }

    pub open spec fn contiguous(self) -> Term {
        self.one(Op1::Contiguous)
    }

    pub open spec fn reverse(self, dim: usize) -> Term {
        self.one(Op1::Reverse(dim))
    }

    pub open spec fn zip(self, b: Term, f: Binary) -> Term {
        self.two(b, Op2::Zip(f))
    }

    pub open spec fn broadcast(self, b: Term, f: Binary) -> Term {
        self.two(b, Op2::Broadcast(f))
    }

    pub open spec fn compare(self, b: Term, f: Comparison) -> Term {
        self.two(b, Op2::Compare(f))
    }

    pub open spec fn broadcast_compare(self, b: Term, f: Comparison) -> Term {
        self.two(b, Op2::BroadcastCompare(f))
    }

    pub open spec fn matmul(self, b: Term) -> Term {
        self.two(b, Op2::Matmul)
    }

    pub open spec fn linear(self, b: Term) -> Term {
        self.two(b, Op2::Linear)
    }

    pub open spec fn concat(self, b: Term, dim: usize) -> Term {
        self.two(b, Op2::Concat(dim))
    }

    pub open spec fn gather_last(self, b: Term) -> Term {
        self.two(b, Op2::GatherLast)
    }

    pub open spec fn conv1d(self, b: Term, config: ConvConfig) -> Term {
        self.two(b, Op2::Conv1d(config))
    }

    pub open spec fn conv_transpose1d(self, b: Term, config: ConvTransposeConfig) -> Term {
        self.two(b, Op2::ConvTranspose1d(config))
    }

    pub open spec fn embedding(self, b: Term) -> Term {
        self.two(b, Op2::Embedding)
    }

    pub open spec fn select(self, b: Term, c: Term) -> Term {
        self.three(b, c, Op3::Select)
    }

    pub open spec fn layer_norm(self, b: Term, c: Term, eps: Real) -> Term {
        self.three(b, c, Op3::LayerNorm(eps))
    }

    pub open spec fn neg(self) -> Term {
        self.apply(Unary::Neg)
    }

    pub open spec fn exp(self) -> Term {
        self.apply(Unary::Exp)
    }

    pub open spec fn log(self) -> Term {
        self.apply(Unary::Log)
    }

    pub open spec fn sqr(self) -> Term {
        self.apply(Unary::Sqr)
    }

    pub open spec fn sqrt(self) -> Term {
        self.apply(Unary::Sqrt)
    }

    pub open spec fn recip(self) -> Term {
        self.apply(Unary::Recip)
    }

    pub open spec fn tanh(self) -> Term {
        self.apply(Unary::Tanh)
    }

    pub open spec fn relu(self) -> Term {
        self.apply(Unary::Relu)
    }

    pub open spec fn gelu_erf(self) -> Term {
        self.apply(Unary::GeluErf)
    }

    pub open spec fn silu(self) -> Term {
        self.apply(Unary::Silu)
    }

    pub open spec fn softplus(self) -> Term {
        self.apply(Unary::Softplus)
    }

    pub open spec fn ceil(self) -> Term {
        self.apply(Unary::Ceil)
    }

    pub open spec fn add(self, b: Term) -> Term {
        self.zip(b, Binary::Add)
    }

    pub open spec fn sub(self, b: Term) -> Term {
        self.zip(b, Binary::Sub)
    }

    pub open spec fn mul(self, b: Term) -> Term {
        self.zip(b, Binary::Mul)
    }

    pub open spec fn div(self, b: Term) -> Term {
        self.zip(b, Binary::Div)
    }

    pub open spec fn maximum(self, b: Term) -> Term {
        self.zip(b, Binary::Maximum)
    }

    pub open spec fn minimum(self, b: Term) -> Term {
        self.zip(b, Binary::Minimum)
    }

    pub open spec fn broadcast_add(self, b: Term) -> Term {
        self.broadcast(b, Binary::Add)
    }

    pub open spec fn broadcast_sub(self, b: Term) -> Term {
        self.broadcast(b, Binary::Sub)
    }

    pub open spec fn broadcast_mul(self, b: Term) -> Term {
        self.broadcast(b, Binary::Mul)
    }

    pub open spec fn broadcast_div(self, b: Term) -> Term {
        self.broadcast(b, Binary::Div)
    }

    /// Every element times `factor`.
    pub open spec fn scale(self, factor: Scalar) -> Term {
        self.affine(factor, scalar::scalar(ZERO_BITS))
    }

    /// Every element plus `summand`.
    pub open spec fn shift(self, summand: Scalar) -> Term {
        self.affine(scalar::scalar(ONE_BITS), summand)
    }

    /// One minus every element.
    pub open spec fn one_minus(self) -> Term {
        self.affine(scalar::scalar(MINUS_ONE_BITS), scalar::scalar(ONE_BITS))
    }
}

pub broadcast proof fn typ_leaf(leaf: Leaf)
    ensures
        #[trigger] typ(Term::leaf(leaf)) == ops::leaf_type(leaf),
{
    reveal(typ);
}

pub broadcast proof fn typ_one(a: Term, op: Op1)
    ensures
        #[trigger] typ(a.one(op)) == (match typ(a) {
            Some(x) => ops::type_1(op, x),
            None => None,
        }),
{
    reveal(typ);
}

pub broadcast proof fn typ_two(a: Term, b: Term, op: Op2)
    ensures
        #[trigger] typ(a.two(b, op)) == (match (typ(a), typ(b)) {
            (Some(x), Some(y)) => ops::type_2(op, x, y),
            _ => None,
        }),
{
    reveal(typ);
}

pub broadcast proof fn typ_three(a: Term, b: Term, c: Term, op: Op3)
    ensures
        #[trigger] typ(a.three(b, c, op)) == (match (typ(a), typ(b), typ(c)) {
            (Some(x), Some(y), Some(z)) => ops::type_3(op, x, y, z),
            _ => None,
        }),
{
    reveal(typ);
}

/// The type of every form of expression from the types of its operands.
pub broadcast group typing_rules {
    typ_leaf,
    typ_one,
    typ_two,
    typ_three,
}

pub broadcast proof fn strict_one(a: Term, op: Op1)
    ensures
        (#[trigger] typ(a.one(op))) is Some ==> typ(a) is Some,
{
    reveal(typ);
}

pub broadcast proof fn strict_two(a: Term, b: Term, op: Op2)
    ensures
        (#[trigger] typ(a.two(b, op))) is Some ==> typ(a) is Some && typ(b) is Some,
{
    reveal(typ);
}

pub broadcast proof fn strict_three(a: Term, b: Term, c: Term, op: Op3)
    ensures
        (#[trigger] typ(a.three(b, c, op))) is Some ==> typ(a) is Some && typ(b) is Some && typ(
            c,
        ) is Some,
{
    reveal(typ);
}

pub broadcast proof fn strict_undefined()
    ensures
        #[trigger] typ(Term::undefined()) is None,
{
    broadcast use typing_rules;

}

/// An expression has a type only if its operands have one.
pub broadcast group strictness {
    strict_one,
    strict_two,
    strict_three,
    strict_undefined,
}

spec fn typ_at(t: &Term) -> Option<Type> {
    typ(*t)
}

proof fn lemma_type_1_fits(op: Op1, a: Type)
    requires
        a.shape.spec_fits(),
        ops::type_1(op, a) is Some,
    ensures
        ops::type_1(op, a)->0.shape.spec_fits(),
{
}

proof fn lemma_type_2_fits(op: Op2, a: Type, b: Type)
    requires
        a.shape.spec_fits(),
        b.shape.spec_fits(),
        ops::type_2(op, a, b) is Some,
    ensures
        ops::type_2(op, a, b)->0.shape.spec_fits(),
{
    match op {
        Op2::Conv1d(config) => lemma_conv1d_fits(a, b, config),
        Op2::ConvTranspose1d(config) => lemma_conv_transpose1d_fits(a, b, config),
        _ => {},
    }
}

proof fn lemma_conv1d_fits(a: Type, b: Type, config: ConvConfig)
    requires
        typing::conv1d_type(a, b, config) is Some,
    ensures
        typing::conv1d_type(a, b, config)->0.shape.spec_fits(),
{
}

proof fn lemma_conv_transpose1d_fits(a: Type, b: Type, config: ConvTransposeConfig)
    requires
        typing::conv_transpose1d_type(a, b, config) is Some,
    ensures
        typing::conv_transpose1d_type(a, b, config)->0.shape.spec_fits(),
{
}

/// A tensor that has a type can be addressed.
pub proof fn lemma_typ_fits(t: &Term)
    requires
        typ(*t) is Some,
    ensures
        t.shape().spec_fits(),
    decreases t,
{
    broadcast use typing_rules;

    match t {
        Term::Zero(leaf) => {
            assert(*t == Term::leaf(*leaf));
        },
        Term::One(op, a) => {
            assert(*t == a.one(*op));
            lemma_typ_fits(a);
            lemma_type_1_fits(*op, typ_at(a)->0);
        },
        Term::Two(op, a, b) => {
            assert(*t == a.two(**b, *op));
            lemma_typ_fits(a);
            lemma_typ_fits(b);
            lemma_type_2_fits(*op, typ_at(a)->0, typ_at(b)->0);
        },
        Term::Three(op, a, b, c) => {
            assert(*t == a.three(**b, **c, *op));
            lemma_typ_fits(a);
            lemma_typ_fits(b);
            lemma_typ_fits(c);
        },
    }
}

} // verus!
