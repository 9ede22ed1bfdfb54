//! Element types, and the type that each tensor operation gives its result.

use vstd::prelude::*;

use crate::tensor::shape::Shape;

verus! {

/// The type of a tensor's elements.
#[derive(Clone, Copy, PartialEq, Eq, Structural, Debug)]
pub enum DType {
    U8,
    U32,
    I64,
    F16,
    F32,
    F64,
}

impl DType {
    /// Whether the elements are floating-point numbers.
    pub open spec fn spec_is_float(self) -> bool {
        match self {
            DType::U8 => false,
            DType::U32 => false,
            DType::I64 => false,
            _ => true,
        }
    }

    /// Whether the elements are floating-point numbers.
    pub fn is_float(self) -> (r: bool)
        ensures
            r == self.spec_is_float(),
    {
        match self {
            DType::U8 => false,
            DType::U32 => false,
            DType::I64 => false,
            _ => true,
        }
    }
}

/// What is known of a tensor before its elements are: their type, and how they are laid out.
#[derive(Clone, Copy, PartialEq, Eq, Structural, Debug)]
pub struct Type {
    pub dtype: DType,
    pub shape: Shape,
}

/// Functions applied to every element.
#[derive(Clone, Copy, PartialEq, Eq, Structural, Debug)]
pub enum Unary {
    Neg,
    Exp,
    Log,
    Sqr,
    Sqrt,
    Recip,
    Tanh,
    Relu,
    GeluErf,
    Silu,
    Softplus,
    Ceil,
}

/// Functions applied to two elements at the same place.
#[derive(Clone, Copy, PartialEq, Eq, Structural, Debug)]
pub enum Binary {
    Add,
    Sub,
    Mul,
    Div,
    Maximum,
    Minimum,
}

/// Comparisons of two elements at the same place; they give one where they hold, else zero.
#[derive(Clone, Copy, PartialEq, Eq, Structural, Debug)]
pub enum Comparison {
    Ge,
    Le,
    Ne,
}

/// How a kernel is moved along the last dimension.
#[derive(Clone, Copy, PartialEq, Eq, Structural, Debug)]
pub struct ConvConfig {
    pub padding: usize,
    pub stride: usize,
    pub dilation: usize,
    pub groups: usize,
}

/// How a transposed kernel is moved along the last dimension.
#[derive(Clone, Copy, PartialEq, Eq, Structural, Debug)]
pub struct ConvTransposeConfig {
    pub padding: usize,
    pub output_padding: usize,
    pub stride: usize,
    pub dilation: usize,
}

/// A type whose shape can be addressed.
pub open spec fn typed(dtype: DType, shape: Shape) -> Option<Type> {
    if shape.spec_fits() {
        Some(Type { dtype, shape })
    } else {
        None
    }
}

pub fn make_type(dtype: DType, shape: Shape) -> (r: Option<Type>)
    ensures
        r == typed(dtype, shape),
{
    if shape.fits() {
        Some(Type { dtype, shape })
    } else {
        None
    }
}

/// Operations that take floating-point elements and keep the shape.
pub open spec fn float_type(a: Type) -> Option<Type> {
    if a.dtype.spec_is_float() {
        Some(a)
    } else {
        None
    }
}

pub fn check_float(a: Type) -> (r: Option<Type>)
    ensures
        r == float_type(a),
{
    if a.dtype.is_float() {
        Some(a)
    } else {
        None
    }
}

pub open spec fn zip_type(a: Type, b: Type) -> Option<Type> {
    if a == b {
        Some(a)
    } else {
        None
    }
}

pub fn check_zip(a: Type, b: Type) -> (r: Option<Type>)
    ensures
        r == zip_type(a, b),
{
    if a == b {
        Some(a)
    } else {
        None
    }
}

pub open spec fn broadcast_type(a: Type, b: Type) -> Option<Type> {
    if a.dtype == b.dtype {
        match a.shape.spec_broadcast(b.shape) {
            Some(s) => typed(a.dtype, s),
            None => None,
        }
    } else {
        None
    }
}

pub fn check_broadcast(a: Type, b: Type) -> (r: Option<Type>)
    ensures
        r == broadcast_type(a, b),
{
    if a.dtype == b.dtype {
        match a.shape.broadcast(b.shape) {
            Some(s) => make_type(a.dtype, s),
            None => None,
        }
    } else {
        None
    }
}

/// The type of a comparison of operands that together have the type `a`.
pub open spec fn flags_type(a: Option<Type>) -> Option<Type> {
    match a {
        Some(t) => Some(Type { dtype: DType::U8, shape: t.shape }),
        None => None,
    }
}

pub open spec fn select_type(c: Type, a: Type, b: Type) -> Option<Type> {
    if c.dtype == DType::U8 && c.shape == a.shape && a == b {
        Some(a)
    } else {
        None
    }
}

pub fn check_select(c: Type, a: Type, b: Type) -> (r: Option<Type>)
    ensures
        r == select_type(c, a, b),
{
    if c.dtype == DType::U8 && c.shape == a.shape && a == b {
        Some(a)
    } else {
        None
    }
}

/// The product of two matrices, or of two equally long stacks of them.
pub open spec fn matmul_type(a: Type, b: Type) -> Option<Type> {
    if a.dtype.spec_is_float() && a.dtype == b.dtype {
        match (a.shape, b.shape) {
            (Shape::S2(m, k), Shape::S2(k2, n)) => if k == k2 {
                typed(a.dtype, Shape::S2(m, n))
            } else {
                None
            },
            (Shape::S3(s, m, k), Shape::S3(s2, k2, n)) => if s == s2 && k == k2 {
                typed(a.dtype, Shape::S3(s, m, n))
            } else {
                None
            },
            (Shape::S4(s, t, m, k), Shape::S4(s2, t2, k2, n)) => if s == s2 && t == t2 && k == k2 {
                typed(a.dtype, Shape::S4(s, t, m, n))
            } else {
                None
            },
            _ => None,
        }
    } else {
        None
    }
}

pub fn check_matmul(a: Type, b: Type) -> (r: Option<Type>)
    ensures
        r == matmul_type(a, b),
{
    if a.dtype.is_float() && a.dtype == b.dtype {
        match (a.shape, b.shape) {
            (Shape::S2(m, k), Shape::S2(k2, n)) => if k == k2 {
                make_type(a.dtype, Shape::S2(m, n))
            } else {
                None
            },
            (Shape::S3(s, m, k), Shape::S3(s2, k2, n)) => if s == s2 && k == k2 {
                make_type(a.dtype, Shape::S3(s, m, n))
            } else {
                None
            },
            (Shape::S4(s, t, m, k), Shape::S4(s2, t2, k2, n)) => if s == s2 && t == t2 && k == k2 {
                make_type(a.dtype, Shape::S4(s, t, m, n))
            } else {
                None
            },
            _ => None,
        }
    } else {
        None
    }
}

/// The product of the rows of `x` with the transposed matrix `w`.
pub open spec fn linear_type(x: Type, w: Type) -> Option<Type> {
    if x.dtype == DType::F32 && w.dtype == DType::F32 && x.shape.spec_rank() >= 2 {
        match w.shape {
            Shape::S2(out, inner) => {
                let last = x.shape.spec_rank() - 1;
                if x.shape.spec_dim(last) == inner {
                    typed(DType::F32, x.shape.spec_with_dim(last, out))
                } else {
                    None
                }
            },
            _ => None,
        }
    } else {
        None
    }
}

pub fn check_linear(x: Type, w: Type) -> (r: Option<Type>)
    ensures
        r == linear_type(x, w),
{
    if x.dtype == DType::F32 && w.dtype == DType::F32 && x.shape.rank() >= 2 {
        match w.shape {
            Shape::S2(out, inner) => {
                let last: usize = x.shape.rank() - 1;
                if x.shape.dim(last) == inner {
                    make_type(DType::F32, x.shape.with_dim(last, out))
                } else {
                    None
                }
            },
            _ => None,
        }
    } else {
        None
    }
}

/// Running sums along one dimension. They are products of stacks of matrices, which lie in at most
/// two dimensions unless they are empty.
pub open spec fn along_type(a: Type, dim: int) -> Option<Type> {
    if a.dtype.spec_is_float() && dim < a.shape.spec_rank() && (a.shape.spec_rank() <= 4
        || a.shape.count() == 0) {
        Some(a)
    } else {
        None
    }
}

pub fn check_along(a: Type, dim: usize) -> (r: Option<Type>)
    ensures
        r == along_type(a, dim as int),
{
    if a.dtype.is_float() && dim < a.shape.rank() && (a.shape.rank() <= 4 || a.shape.is_empty()) {
        Some(a)
    } else {
        None
    }
}

/// The softmax over the last dimension.
pub open spec fn softmax_type(a: Type) -> Option<Type> {
    if a.dtype.spec_is_float() && a.shape.spec_rank() >= 1 {
        Some(a)
    } else {
        None
    }
}

pub fn check_softmax(a: Type) -> (r: Option<Type>)
    ensures
        r == softmax_type(a),
{
    if a.dtype.is_float() && a.shape.rank() >= 1 {
        Some(a)
    } else {
        None
    }
}

/// The sum over the last dimension.
pub open spec fn sum_last_type(a: Type) -> Option<Type> {
    if a.dtype.spec_is_float() && a.shape.spec_rank() >= 1 {
        typed(a.dtype, a.shape.spec_remove(a.shape.spec_rank() - 1))
    } else {
        None
    }
}

pub fn check_sum_last(a: Type) -> (r: Option<Type>)
    ensures
        r == sum_last_type(a),
{
    if a.dtype.is_float() && a.shape.rank() >= 1 {
        make_type(a.dtype, a.shape.remove(a.shape.rank() - 1))
    } else {
        None
    }
}

/// The sum over dimensions 1 and 2 of a tensor of three, which either go or stay with length one.
pub open spec fn sum_inner_type(a: Type, keep: bool) -> Option<Type> {
    if a.dtype.spec_is_float() {
        match a.shape {
            Shape::S3(n, _, _) => typed(
                a.dtype,
                if keep {
                    Shape::S3(n, 1, 1)
                } else {
                    Shape::S1(n)
                },
            ),
            _ => None,
        }
    } else {
        None
    }
}

pub fn check_sum_inner(a: Type, keep: bool) -> (r: Option<Type>)
    ensures
        r == sum_inner_type(a, keep),
{
    if a.dtype.is_float() {
        match a.shape {
            Shape::S3(n, _, _) => make_type(
                a.dtype,
                if keep {
                    Shape::S3(n, 1, 1)
                } else {
                    Shape::S1(n)
                },
            ),
            _ => None,
        }
    } else {
        None
    }
}

pub open spec fn reshape_type(a: Type, shape: Shape) -> Option<Type> {
    if a.shape.count() == shape.count() {
        typed(a.dtype, shape)
    } else {
        None
    }
}

pub fn check_reshape(a: Type, shape: Shape) -> (r: Option<Type>)
    requires
        a.shape.spec_fits(),
    ensures
        r == reshape_type(a, shape),
{
    if shape.fits() && a.shape.element_count() == shape.element_count() {
        Some(Type { dtype: a.dtype, shape })
    } else {
        None
    }
}

pub open spec fn transpose_type(a: Type, i: int, j: int) -> Option<Type> {
    if i < a.shape.spec_rank() && j < a.shape.spec_rank() {
        typed(
            a.dtype,
            a.shape.spec_with_dim(i, a.shape.spec_dim(j)).spec_with_dim(j, a.shape.spec_dim(i)),
        )
    } else {
        None
    }
}

pub fn check_transpose(a: Type, i: usize, j: usize) -> (r: Option<Type>)
    ensures
        r == transpose_type(a, i as int, j as int),
{
    if i < a.shape.rank() && j < a.shape.rank() {
        make_type(a.dtype, a.shape.with_dim(i, a.shape.dim(j)).with_dim(j, a.shape.dim(i)))
    } else {
        None
    }
}

pub open spec fn narrow_type(a: Type, dim: int, start: int, len: usize) -> Option<Type> {
    if dim < a.shape.spec_rank() && start + len <= a.shape.spec_dim(dim) {
        typed(a.dtype, a.shape.spec_with_dim(dim, len))
    } else {
        None
    }
}

pub fn check_narrow(a: Type, dim: usize, start: usize, len: usize) -> (r: Option<Type>)
    ensures
        r == narrow_type(a, dim as int, start as int, len),
{
    if dim < a.shape.rank() && start <= a.shape.dim(dim) && len <= a.shape.dim(dim) - start {
        make_type(a.dtype, a.shape.with_dim(dim, len))
    } else {
        None
    }
}

pub open spec fn unsqueeze_type(a: Type, dim: int) -> Option<Type> {
    if dim <= a.shape.spec_rank() {
        match a.shape.spec_insert_one(dim) {
            Some(s) => typed(a.dtype, s),
            None => None,
        }
    } else {
        None
    }
}

pub fn check_unsqueeze(a: Type, dim: usize) -> (r: Option<Type>)
    ensures
        r == unsqueeze_type(a, dim as int),
{
    if dim <= a.shape.rank() {
        match a.shape.insert_one(dim) {
            Some(s) => make_type(a.dtype, s),
            None => None,
        }
    } else {
        None
    }
}

/// A dimension of length one goes; one of any other length stays.
pub open spec fn squeeze_type(a: Type, dim: int) -> Option<Type> {
    if dim < a.shape.spec_rank() {
        if a.shape.spec_dim(dim) == 1 {
            typed(a.dtype, a.shape.spec_remove(dim))
        } else {
            Some(a)
        }
    } else {
        None
    }
}

pub fn check_squeeze(a: Type, dim: usize) -> (r: Option<Type>)
    ensures
        r == squeeze_type(a, dim as int),
{
    if dim < a.shape.rank() {
        if a.shape.dim(dim) == 1 {
            make_type(a.dtype, a.shape.remove(dim))
        } else {
            Some(a)
        }
    } else {
        None
    }
}

/// Repetition up to a given shape.
pub open spec fn expand_type(a: Type, shape: Shape) -> Option<Type> {
    if a.shape.spec_broadcast(shape) == Some(shape) {
        typed(a.dtype, shape)
    } else {
        None
    }
}

pub fn check_expand(a: Type, shape: Shape) -> (r: Option<Type>)
    ensures
        r == expand_type(a, shape),
{
    match a.shape.broadcast(shape) {
        Some(s) => if s == shape {
            make_type(a.dtype, shape)
        } else {
            None
        },
        None => None,
    }
}

pub open spec fn concat_type(a: Type, b: Type, dim: int) -> Option<Type> {
    let total = a.shape.spec_dim(dim) + b.shape.spec_dim(dim);
    if a.dtype == b.dtype && dim < a.shape.spec_rank() && a.shape.spec_rank()
        == b.shape.spec_rank() && a.shape.spec_with_dim(dim, 0) == b.shape.spec_with_dim(dim, 0)
        && total <= usize::MAX {
        typed(a.dtype, a.shape.spec_with_dim(dim, total as usize))
    } else {
        None
    }
}

pub fn check_concat(a: Type, b: Type, dim: usize) -> (r: Option<Type>)
    ensures
        r == concat_type(a, b, dim as int),
{
    if a.dtype == b.dtype && dim < a.shape.rank() && a.shape.rank() == b.shape.rank()
        && a.shape.with_dim(dim, 0) == b.shape.with_dim(dim, 0) {
        match a.shape.dim(dim).checked_add(b.shape.dim(dim)) {
            Some(total) => make_type(a.dtype, a.shape.with_dim(dim, total)),
            None => None,
        }
    } else {
        None
    }
}

/// One entry of `a` along the last dimension for each entry of `index`.
pub open spec fn gather_last_type(a: Type, index: Type) -> Option<Type> {
    let last = a.shape.spec_rank() - 1;
    if index.dtype == DType::U32 && a.shape.spec_rank() >= 1 && a.shape.spec_rank()
        == index.shape.spec_rank() && a.shape.spec_with_dim(last, 0)
        == index.shape.spec_with_dim(last, 0) {
        Some(Type { dtype: a.dtype, shape: index.shape })
    } else {
        None
    }
}

pub fn check_gather_last(a: Type, index: Type) -> (r: Option<Type>)
    ensures
        r == gather_last_type(a, index),
{
    let rank = a.shape.rank();
    if index.dtype == DType::U32 && rank >= 1 && rank == index.shape.rank() && a.shape.with_dim(
        rank - 1,
        0,
    ) == index.shape.with_dim(rank - 1, 0) {
        Some(Type { dtype: a.dtype, shape: index.shape })
    } else {
        None
    }
}

pub open spec fn reverse_type(a: Type, dim: int) -> Option<Type> {
    if dim < a.shape.spec_rank() {
        Some(a)
    } else {
        None
    }
}

pub fn check_reverse(a: Type, dim: usize) -> (r: Option<Type>)
    ensures
        r == reverse_type(a, dim as int),
{
    if dim < a.shape.rank() {
        Some(a)
    } else {
        None
    }
}

/// The number of places that a kernel of length `k` takes along a padded line of length `len`.
pub open spec fn conv_length(len: usize, k: usize, c: ConvConfig) -> int {
    (len + 2 * c.padding - c.dilation * (k - 1) - 1) / c.stride as int + 1
}

pub open spec fn conv1d_type(x: Type, w: Type, c: ConvConfig) -> Option<Type> {
    if x.dtype == DType::F32 && w.dtype == DType::F32 {
        match (x.shape, w.shape) {
            (Shape::S3(n, channels, len), Shape::S3(out, per_group, k)) => {
                if c.stride >= 1 && c.groups >= 1 && k >= 1 && channels == per_group * c.groups
                    && out as int % c.groups as int == 0 && len + 2 * c.padding >= c.dilation * (k
                    - 1) + 1 && conv_length(len, k, c) <= usize::MAX {
                    typed(DType::F32, Shape::S3(n, out, conv_length(len, k, c) as usize))
                } else {
                    None
                }
            },
            _ => None,
        }
    } else {
        None
    }
}

pub fn check_conv1d(x: Type, w: Type, c: ConvConfig) -> (r: Option<Type>)
    ensures
        r == conv1d_type(x, w, c),
{
    if x.dtype == DType::F32 && w.dtype == DType::F32 {
        match (x.shape, w.shape) {
            (Shape::S3(n, channels, len), Shape::S3(out, per_group, k)) => {
                if c.stride < 1 || c.groups < 1 || k < 1 {
                    return None;
                }
                proof {
                    lemma_wide_product(per_group, c.groups);
                    lemma_wide_product(c.dilation, (k - 1) as usize);
                }
                if channels as u128 != per_group as u128 * c.groups as u128 || out % c.groups != 0 {
                    return None;
                }
                let line: u128 = len as u128 + 2 * (c.padding as u128);
                let reach: u128 = c.dilation as u128 * (k - 1) as u128 + 1;
                if line < reach {
                    return None;
                }
                let places: u128 = (line - reach) / c.stride as u128 + 1;
                if places > usize::MAX as u128 {
                    return None;
                }
                make_type(DType::F32, Shape::S3(n, out, places as usize))
            },
            _ => None,
        }
    } else {
        None
    }
}

/// The length of the line that a transposed kernel of length `k` spreads `len` places over.
pub open spec fn conv_transpose_length(len: usize, k: usize, c: ConvTransposeConfig) -> int {
    (len - 1) * c.stride + c.dilation * (k - 1) + c.output_padding + 1 - 2 * c.padding
}

pub open spec fn conv_transpose1d_type(x: Type, w: Type, c: ConvTransposeConfig) -> Option<Type> {
    if x.dtype == DType::F32 && w.dtype == DType::F32 {
        match (x.shape, w.shape) {
            (Shape::S3(n, channels, len), Shape::S3(inner, out, k)) => {
                if len >= 1 && k >= 1 && channels == inner && 0 <= conv_transpose_length(len, k, c)
                    <= usize::MAX {
                    typed(DType::F32, Shape::S3(n, out, conv_transpose_length(len, k, c) as usize))
                } else {
                    None
                }
            },
            _ => None,
        }
    } else {
        None
    }
}

pub fn check_conv_transpose1d(x: Type, w: Type, c: ConvTransposeConfig) -> (r: Option<Type>)
    ensures
        r == conv_transpose1d_type(x, w, c),
{
    if x.dtype == DType::F32 && w.dtype == DType::F32 {
        match (x.shape, w.shape) {
            (Shape::S3(n, channels, len), Shape::S3(inner, out, k)) => {
                if len < 1 || k < 1 || channels != inner {
                    return None;
                }
                proof {
                    lemma_wide_product((len - 1) as usize, c.stride);
                    lemma_wide_product(c.dilation, (k - 1) as usize);
                }
                let strides: u128 = (len - 1) as u128 * c.stride as u128;
                let taps: u128 = c.dilation as u128 * (k - 1) as u128;
                let padded: u128 = 2 * (c.padding as u128);
                match strides.checked_add(taps) {
                    None => {
                        return None;
                    },
                    Some(spread) => {
                        if spread > u128::MAX - (usize::MAX as u128) - 1 {
                            return None;
                        }
                        let line: u128 = spread + c.output_padding as u128 + 1;
                        if line < padded || line - padded > usize::MAX as u128 {
                            return None;
                        }
                        make_type(DType::F32, Shape::S3(n, out, (line - padded) as usize))
                    },
                }
            },
            _ => None,
        }
    } else {
        None
    }
}

proof fn lemma_wide_product(a: usize, b: usize)
    ensures
        0 <= a * b <= 0xffff_ffff_ffff_ffff * 0xffff_ffff_ffff_ffff,
{
    assert(0 <= a * b <= 0xffff_ffff_ffff_ffff * 0xffff_ffff_ffff_ffff) by (nonlinear_arith)
        requires
            0 <= a <= 0xffff_ffff_ffff_ffff,
            0 <= b <= 0xffff_ffff_ffff_ffff,
    ;
}

/// Normalization over the last dimension.
pub open spec fn layer_norm_type(x: Type, w: Type, b: Type) -> Option<Type> {
    if x.dtype == DType::F32 && w == b && x.shape.spec_rank() >= 1 && w == (Type {
        dtype: DType::F32,
        shape: Shape::S1(x.shape.spec_dim(x.shape.spec_rank() - 1)),
    }) {
        Some(x)
    } else {
        None
    }
}

pub fn check_layer_norm(x: Type, w: Type, b: Type) -> (r: Option<Type>)
    ensures
        r == layer_norm_type(x, w, b),
{
    if x.dtype == DType::F32 && w == b && x.shape.rank() >= 1 && w.dtype == DType::F32 && w.shape
        == Shape::S1(x.shape.dim(x.shape.rank() - 1)) {
        Some(x)
    } else {
        None
    }
}

/// The rows of `table` that `ids`, of whole numbers, names.
pub open spec fn embedding_type(table: Type, ids: Type) -> Option<Type> {
    if table.dtype == DType::F32 && !ids.dtype.spec_is_float() {
        match (table.shape, ids.shape) {
            (Shape::S2(_, h), Shape::S0) => typed(DType::F32, Shape::S1(h)),
            (Shape::S2(_, h), Shape::S1(a)) => typed(DType::F32, Shape::S2(a, h)),
            (Shape::S2(_, h), Shape::S2(a, b)) => typed(DType::F32, Shape::S3(a, b, h)),
            (Shape::S2(_, h), Shape::S3(a, b, c)) => typed(DType::F32, Shape::S4(a, b, c, h)),
            (Shape::S2(_, h), Shape::S4(a, b, c, d)) => typed(
                DType::F32,
                Shape::S5(a, b, c, d, h),
            ),
            (Shape::S2(_, h), Shape::S5(a, b, c, d, e)) => typed(
                DType::F32,
                Shape::S6(a, b, c, d, e, h),
            ),
            _ => None,
        }
    } else {
        None
    }
}

pub fn check_embedding(table: Type, ids: Type) -> (r: Option<Type>)
    ensures
        r == embedding_type(table, ids),
{
    if table.dtype == DType::F32 && !ids.dtype.is_float() {
        match (table.shape, ids.shape) {
            (Shape::S2(_, h), Shape::S0) => make_type(DType::F32, Shape::S1(h)),
            (Shape::S2(_, h), Shape::S1(a)) => make_type(DType::F32, Shape::S2(a, h)),
            (Shape::S2(_, h), Shape::S2(a, b)) => make_type(DType::F32, Shape::S3(a, b, h)),
            (Shape::S2(_, h), Shape::S3(a, b, c)) => make_type(DType::F32, Shape::S4(a, b, c, h)),
            (Shape::S2(_, h), Shape::S4(a, b, c, d)) => make_type(
                DType::F32,
                Shape::S5(a, b, c, d, h),
            ),
            (Shape::S2(_, h), Shape::S5(a, b, c, d, e)) => make_type(
                DType::F32,
                Shape::S6(a, b, c, d, e, h),
            ),
            _ => None,
        }
    } else {
        None
    }
}

} // verus!
