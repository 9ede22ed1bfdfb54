//! Monotonic splines of rational quadratic pieces.

use vstd::prelude::*;

use crate::model::lines;
use crate::tensor::expr;
use crate::tensor::expr::{Tensor, TensorError};
use crate::tensor::scalar;
use crate::tensor::scalar::{
    Real, Scalar, FOUR_BITS, INFINITY_BITS, MINUS_ONE_BITS, TWO_BITS, ZERO_BITS,
};
use crate::tensor::term;
use crate::tensor::term::Term;
use crate::tensor::typing::{Comparison, DType};

verus! {

broadcast use {crate::tensor::term::typing_rules, crate::model::lines::strict_rules};

/// The pattern of 1e-6.
pub const MILLIONTH_BITS: u64 = 0x3EB0_C6F7_A0B5_ED8D;

/// The edges of the bins between `-tail` and `tail` whose sizes, each at least `least`, have the
/// proportions of the softmax of `raw`.
#[verifier::opaque]
pub open spec fn edges(raw: Term, num_bins: usize, tail: Real, least: Real) -> Term {
    let sizes = raw.softmax().scale(Scalar::Remainder(least, num_bins)).shift(
        Scalar::Value(least),
    );
    let spread = lines::padded_last(lines::cumsum_last(sizes), 1, 0, scalar::scalar(ZERO_BITS)).scale(
        Scalar::Span(tail),
    ).shift(Scalar::Negated(tail));
    lines::with_last(lines::with_last(spread, 0, Scalar::Negated(tail)), num_bins, Scalar::Value(tail))
}

fn bin_edges(raw: &Tensor, num_bins: usize, tail: Real, least: Real) -> (r: Result<
    Tensor,
    TensorError,
>)
    ensures
        expr::gives(r, edges(raw@, num_bins, tail, least)),
{
    proof {
        reveal(edges);
    }
    let sizes = raw.softmax()?.scale(Scalar::Remainder(least, num_bins))?.shift(
        Scalar::Value(least),
    )?;
    let sums = lines::cumsum_last_dim(&sizes)?;
    let spread = lines::pad_last_dim(&sums, 1, 0, scalar::value_of(ZERO_BITS))?;
    let spread = spread.scale(Scalar::Span(tail))?.shift(Scalar::Negated(tail))?;
    let spread = lines::set_last_dim_index(&spread, 0, Scalar::Negated(tail))?;
    lines::set_last_dim_index(&spread, num_bins, Scalar::Value(tail))
}

/// The sizes of bins with the given edges.
#[verifier::opaque]
pub open spec fn sizes(edges: Term, num_bins: usize) -> Term {
    lines::slice_last(edges, 1, num_bins).sub(lines::slice_last(edges, 0, num_bins))
}

fn bin_sizes(edges: &Tensor, num_bins: usize) -> (r: Result<Tensor, TensorError>)
    ensures
        expr::gives(r, sizes(edges@, num_bins)),
{
    proof {
        reveal(sizes);
    }
    lines::narrow_last(edges, 1, num_bins)?.sub(&lines::narrow_last(edges, 0, num_bins)?)
}

/// The number of the bin in which an input lies: how many edges are not above it, less one, and
/// moved into range.
#[verifier::opaque]
pub open spec fn bin_index(inputs: Term, edges: Term, num_bins: usize) -> Term {
    let reached = inputs.unsqueeze(inputs.shape().spec_rank() as usize).broadcast_compare(
        lines::bumped(edges, Real { bits: MILLIONTH_BITS }),
        Comparison::Ge,
    ).cast(DType::F32).sum_last();
    let index = reached.shift(scalar::scalar(MINUS_ONE_BITS)).clamp(
        scalar::scalar(ZERO_BITS),
        Scalar::LastIndex(num_bins),
    ).cast(DType::U32);
    index.unsqueeze(index.shape().spec_rank() as usize)
}

fn find_bin(inputs: &Tensor, edges: &Tensor, num_bins: usize) -> (r: Result<Tensor, TensorError>)
    ensures
        expr::gives(r, bin_index(inputs@, edges@, num_bins)),
{
    proof {
        reveal(bin_index);
    }
    let bin_locations = lines::bump_last_index(edges, Real { bits: MILLIONTH_BITS })?;
    let inputs_expanded = inputs.unsqueeze(inputs.shape().rank())?;
    let ge = inputs_expanded.broadcast_compare(&bin_locations, Comparison::Ge)?.cast(DType::F32)?;
    let index = ge.sum_last()?.shift(scalar::value_of(MINUS_ONE_BITS))?.clamp(
        scalar::value_of(ZERO_BITS),
        Scalar::LastIndex(num_bins),
    )?.cast(DType::U32)?;
    index.unsqueeze(index.shape().rank())
}

/// Nothing comes of nothing: `edges`.
broadcast proof fn strict_edges(raw: Term, num_bins: usize, tail: Real, least: Real)
    ensures
        (#[trigger] term::typ(edges(raw, num_bins, tail, least))) is Some ==> term::typ(raw) is Some,
{
    reveal(edges);
}

/// Nothing comes of nothing: `sizes`.
broadcast proof fn strict_sizes(edges: Term, num_bins: usize)
    ensures
        (#[trigger] term::typ(sizes(edges, num_bins))) is Some ==> term::typ(edges) is Some,
{
    reveal(sizes);
}

/// Nothing comes of nothing: `bin_index`.
broadcast proof fn strict_bin_index(inputs: Term, edges: Term, num_bins: usize)
    ensures
        (#[trigger] term::typ(bin_index(inputs, edges, num_bins))) is Some ==> term::typ(inputs) is Some && term::typ(edges) is Some,
{
    reveal(bin_index);
}

broadcast group strict_bins {
    strict_edges,
    strict_sizes,
    strict_bin_index,
}

/// What the spline needs to know of the bin in which each input lies.
pub struct BinTerms {
    /// The left edge.
    pub left: Term,
    pub width: Term,
    /// The lower edge.
    pub bottom: Term,
    pub height: Term,
    /// Height over width.
    pub delta: Term,
    /// The slope at the left edge.
    pub slope: Term,
    /// The slope at the right edge.
    pub next_slope: Term,
}

/// What the spline needs to know of the bin in which each input lies.
pub struct Bin {
    left: Tensor,
    width: Tensor,
    bottom: Tensor,
    height: Tensor,
    delta: Tensor,
    slope: Tensor,
    next_slope: Tensor,
}

impl View for Bin {
    type V = BinTerms;

    closed spec fn view(&self) -> BinTerms {
        BinTerms {
            left: self.left@,
            width: self.width@,
            bottom: self.bottom@,
            height: self.height@,
            delta: self.delta@,
            slope: self.slope@,
            next_slope: self.next_slope@,
        }
    }
}

impl BinTerms {
    /// Whether every part has a type.
    pub open spec fn defined(self) -> bool {
        &&& term::typ(self.left) is Some
        &&& term::typ(self.width) is Some
        &&& term::typ(self.bottom) is Some
        &&& term::typ(self.height) is Some
        &&& term::typ(self.delta) is Some
        &&& term::typ(self.slope) is Some
        &&& term::typ(self.next_slope) is Some
    }

    /// The bins that `idx` names, among those with the given edges and slopes.
    pub open spec fn at(
        idx: Term,
        cumwidths: Term,
        cumheights: Term,
        slopes: Term,
        num_bins: usize,
    ) -> BinTerms {
        let widths = sizes(cumwidths, num_bins);
        let heights = sizes(cumheights, num_bins);
        BinTerms {
            left: lines::picked(cumwidths, idx),
            width: lines::picked(widths, idx),
            bottom: lines::picked(cumheights, idx),
            height: lines::picked(heights, idx),
            delta: lines::picked(heights.div(widths), idx),
            slope: lines::picked(slopes, idx),
            next_slope: if slopes.shape().spec_rank() == 0 || lines::last_len(slopes) == 0 {
                Term::undefined()
            } else {
                lines::picked(lines::slice_last(slopes, 1, (lines::last_len(slopes) - 1) as usize), idx)
            },
        }
    }

    /// The sum of both slopes, less twice the mean slope.
    pub open spec fn bend(self) -> Term {
        self.slope.add(self.next_slope).sub(self.delta.scale(scalar::scalar(TWO_BITS)))
    }

    /// `theta * (1 - theta)`
    pub open spec fn bow(theta: Term) -> Term {
        theta.mul(theta.one_minus())
    }

    /// What both the value and the slope are divided by.
    pub open spec fn denominator(self, theta: Term) -> Term {
        self.delta.add(self.bend().mul(BinTerms::bow(theta)))
    }

    /// The logarithm of the derivative at the place `theta` of the bin, which goes from 0 to 1.
    pub open spec fn log_slope(self, theta: Term) -> Term {
        let numerator = self.delta.sqr().mul(
            self.next_slope.mul(theta.sqr()).add(
                self.delta.mul(BinTerms::bow(theta)).scale(scalar::scalar(TWO_BITS)),
            ).add(self.slope.mul(theta.one_minus().sqr())),
        );
        numerator.log().sub(self.denominator(theta).log().scale(scalar::scalar(TWO_BITS)))
    }

    /// How far to the right in its bin `x` lies, from 0 to 1.
    pub open spec fn theta(self, x: Term) -> Term {
        x.sub(self.left).div(self.width)
    }

    /// The value of the spline at `x`.
    pub open spec fn value(self, x: Term) -> Term {
        let theta = self.theta(x);
        let numerator = self.height.mul(
            self.delta.mul(theta.sqr()).add(self.slope.mul(BinTerms::bow(theta))),
        );
        self.bottom.add(numerator.div(self.denominator(theta)))
    }

    /// How far to the right in its bin the spline has the value `y`: a root of a quadratic
    /// equation.
    pub open spec fn root(self, y: Term) -> Term {
        let rise = y.sub(self.bottom);
        let bent = rise.mul(self.bend());
        let a = self.height.mul(self.delta.sub(self.slope)).add(bent);
        let b = self.height.mul(self.slope).sub(bent);
        let c = self.delta.mul(rise).neg();
        let discriminant = b.sqr().sub(a.mul(c).scale(scalar::scalar(FOUR_BITS))).clamp(
            scalar::scalar(ZERO_BITS),
            scalar::scalar(INFINITY_BITS),
        );
        c.scale(scalar::scalar(TWO_BITS)).div(b.neg().sub(discriminant.sqrt()))
    }

    /// Where the spline has the value `y`.
    pub open spec fn preimage(self, y: Term) -> Term {
        self.root(y).mul(self.width).add(self.left)
    }
}

impl Bin {
    fn at(
        idx: &Tensor,
        cumwidths: &Tensor,
        cumheights: &Tensor,
        slopes: &Tensor,
        num_bins: usize,
    ) -> (r: Result<Bin, TensorError>)
        ensures
            match r {
                Ok(b) => b@ == BinTerms::at(
                    idx@,
                    cumwidths@,
                    cumheights@,
                    slopes@,
                    num_bins,
                ) && b@.defined(),
                Err(_) => !BinTerms::at(
                    idx@,
                    cumwidths@,
                    cumheights@,
                    slopes@,
                    num_bins,
                ).defined(),
            },
    {
        broadcast use strict_bins;

        let widths = bin_sizes(cumwidths, num_bins)?;
        let heights = bin_sizes(cumheights, num_bins)?;
        let left = lines::gather_last(cumwidths, idx)?;
        let width = lines::gather_last(&widths, idx)?;
        let bottom = lines::gather_last(cumheights, idx)?;
        let delta = lines::gather_last(&heights.div(&widths)?, idx)?;
        let slope = lines::gather_last(slopes, idx)?;
        let dim: usize = lines::axis_of(slopes)?;
        let len: usize = slopes.shape().dim(dim);
        if len == 0 {
            return Err(TensorError::Mismatch);
        }
        let next_slope = lines::gather_last(&lines::narrow_last(slopes, 1, len - 1)?, idx)?;
        let height = lines::gather_last(&heights, idx)?;
        Ok(Bin { left, width, bottom, height, delta, slope, next_slope })
    }

    fn bend(&self) -> (r: Result<Tensor, TensorError>)
        ensures
            expr::gives(r, self@.bend()),
    {
        self.slope.add(&self.next_slope)?.sub(&self.delta.scale(scalar::value_of(TWO_BITS))?)
    }

    fn bow(theta: &Tensor) -> (r: Result<Tensor, TensorError>)
        ensures
            expr::gives(r, BinTerms::bow(theta@)),
    {
        theta.mul(&theta.one_minus()?)
    }

    fn denominator(&self, theta: &Tensor) -> (r: Result<Tensor, TensorError>)
        ensures
            expr::gives(r, self@.denominator(theta@)),
    {
        self.delta.add(&self.bend()?.mul(&Bin::bow(theta)?)?)
    }

    fn log_slope(&self, theta: &Tensor) -> (r: Result<Tensor, TensorError>)
        ensures
            expr::gives(r, self@.log_slope(theta@)),
    {
        let two = scalar::value_of(TWO_BITS);
        let numerator = self.delta.sqr()?.mul(
            &self.next_slope.mul(&theta.sqr()?)?.add(
                &self.delta.mul(&Bin::bow(theta)?)?.scale(two)?,
            )?.add(&self.slope.mul(&theta.one_minus()?.sqr()?)?)?,
        )?;
        numerator.log()?.sub(&self.denominator(theta)?.log()?.scale(two)?)
    }

    fn value(&self, x: &Tensor) -> (r: Result<(Tensor, Tensor), TensorError>)
        ensures
            expr::gives_both(r, self@.value(x@), self@.log_slope(self@.theta(x@))),
    {
        let theta = x.sub(&self.left)?.div(&self.width)?;
        let numerator = self.height.mul(
            &self.delta.mul(&theta.sqr()?)?.add(&self.slope.mul(&Bin::bow(&theta)?)?)?,
        )?;
        let outputs = self.bottom.add(&numerator.div(&self.denominator(&theta)?)?)?;
        let log_abs_det = self.log_slope(&theta)?;
        Ok((outputs, log_abs_det))
    }

    fn root(&self, y: &Tensor) -> (r: Result<Tensor, TensorError>)
        ensures
            expr::gives(r, self@.root(y@)),
    {
        let rise = y.sub(&self.bottom)?;
        let bent = rise.mul(&self.bend()?)?;
        let a = self.height.mul(&self.delta.sub(&self.slope)?)?.add(&bent)?;
        let b = self.height.mul(&self.slope)?.sub(&bent)?;
        let c = self.delta.mul(&rise)?.neg()?;
        let discriminant = b.sqr()?.sub(&a.mul(&c)?.scale(scalar::value_of(FOUR_BITS))?)?.clamp(
            scalar::value_of(ZERO_BITS),
            scalar::value_of(INFINITY_BITS),
        )?;
        c.scale(scalar::value_of(TWO_BITS))?.div(&b.neg()?.sub(&discriminant.sqrt()?)?)
    }

    fn preimage(&self, y: &Tensor) -> (r: Result<(Tensor, Tensor), TensorError>)
        ensures
            expr::gives_both(r, self@.preimage(y@), self@.log_slope(self@.root(y@)).neg()),
    {
        let root = self.root(y)?;
        let outputs = root.mul(&self.width)?.add(&self.left)?;
        let log_abs_det = self.log_slope(&root)?;
        Ok((outputs, log_abs_det.neg()?))
    }
}

/// A monotonic spline from the interval between `-tail` and `tail` onto itself: its bins in both
/// directions, and its slopes at their edges.
pub struct Spline {
    pub num_bins: usize,
    pub cumwidths: Term,
    pub cumheights: Term,
    pub slopes: Term,
    pub tail: Real,
}

impl Spline {
    /// The spline that three tensors of free numbers stand for.
    pub open spec fn of(
        widths: Term,
        heights: Term,
        slopes: Term,
        tail: Real,
        least_width: Real,
        least_height: Real,
        least_slope: Real,
    ) -> Spline {
        let num_bins = lines::last_len(widths);
        Spline {
            num_bins,
            cumwidths: edges(widths, num_bins, tail, least_width),
            cumheights: edges(heights, num_bins, tail, least_height),
            slopes: slopes.softplus().shift(Scalar::Value(least_slope)),
            tail,
        }
    }

    /// The inputs, moved into the interval.
    pub open spec fn inside(self, x: Term) -> Term {
        x.clamp(Scalar::Negated(self.tail), Scalar::Value(self.tail))
    }

    /// The bins in which the inputs lie; those of the values where the spline runs in reverse.
    pub open spec fn bins(self, x: Term, reverse: bool) -> BinTerms {
        let along = if reverse {
            self.cumheights
        } else {
            self.cumwidths
        };
        BinTerms::at(
            bin_index(self.inside(x), along, self.num_bins),
            self.cumwidths,
            self.cumheights,
            self.slopes,
            self.num_bins,
        )
    }

    /// The spline at `x`, or its inverse.
    pub open spec fn output(self, x: Term, reverse: bool) -> Term {
        if !self.bins(x, reverse).defined() {
            Term::undefined()
        } else if reverse {
            self.bins(x, reverse).preimage(self.inside(x))
        } else {
            self.bins(x, reverse).value(self.inside(x))
        }
    }

    /// The logarithm of the derivative of the spline at `x`, or of its inverse.
    pub open spec fn log_det(self, x: Term, reverse: bool) -> Term {
        let bins = self.bins(x, reverse);
        if reverse {
            bins.log_slope(bins.root(self.inside(x))).neg()
        } else {
            bins.log_slope(bins.theta(self.inside(x)))
        }
    }
}

/// The spline that three tensors stand for, or its inverse, at `inputs`, and the logarithm of the
/// derivative.
pub fn rational_quadratic_spline(
    inputs: &Tensor,
    unnormalized_widths: &Tensor,
    unnormalized_heights: &Tensor,
    unnormalized_derivatives: &Tensor,
    reverse: bool,
    tail_bound: Real,
    min_bin_width: Real,
    min_bin_height: Real,
    min_derivative: Real,
) -> (r: Result<(Tensor, Tensor), TensorError>)
    ensures
        ({
            let spline = Spline::of(
                unnormalized_widths@,
                unnormalized_heights@,
                unnormalized_derivatives@,
                tail_bound,
                min_bin_width,
                min_bin_height,
                min_derivative,
            );
            expr::gives_both(
                r,
                spline.output(inputs@, reverse),
                spline.log_det(inputs@, reverse),
            )
        }),
{
    broadcast use strict_bins;

    let ghost spline = Spline::of(
        unnormalized_widths@,
        unnormalized_heights@,
        unnormalized_derivatives@,
        tail_bound,
        min_bin_width,
        min_bin_height,
        min_derivative,
    );
    let shape = unnormalized_widths.shape();
    if shape.rank() == 0 {
        proof {
            reveal(edges);
        }
        return Err(TensorError::Mismatch);
    }
    let num_bins: usize = shape.dim(shape.rank() - 1);
    let x = inputs.clamp(Scalar::Negated(tail_bound), Scalar::Value(tail_bound))?;
    let cumwidths = bin_edges(unnormalized_widths, num_bins, tail_bound, min_bin_width)?;
    let derivatives = unnormalized_derivatives.softplus()?.shift(Scalar::Value(min_derivative))?;
    let cumheights = bin_edges(unnormalized_heights, num_bins, tail_bound, min_bin_height)?;
    let bin_idx = if reverse {
        find_bin(&x, &cumheights, num_bins)?
    } else {
        find_bin(&x, &cumwidths, num_bins)?
    };
    let bin = Bin::at(&bin_idx, &cumwidths, &cumheights, &derivatives, num_bins)?;
    assert(bin@ == spline.bins(inputs@, reverse));
    if reverse {
        bin.preimage(&x)
    } else {
        bin.value(&x)
    }
}

/// One where an input lies between `-tail` and `tail`, else zero.
pub open spec fn inside_mask(x: Term, tail: Real) -> Term {
    x.compare(Term::full(Scalar::Negated(tail), DType::F32, x.shape()), Comparison::Ge).mul(
        x.compare(Term::full(Scalar::Value(tail), DType::F32, x.shape()), Comparison::Le),
    ).cast(x.dtype())
}

/// The spline whose slopes at both ends are one, so that it goes on as the identity.
pub open spec fn joined_spline(
    widths: Term,
    heights: Term,
    slopes: Term,
    tail: Real,
    least_width: Real,
    least_height: Real,
    least_slope: Real,
) -> Spline {
    Spline::of(
        widths,
        heights,
        lines::padded_last(slopes, 1, 1, Scalar::SoftplusInverse(least_slope)),
        tail,
        least_width,
        least_height,
        least_slope,
    )
}

impl Spline {
    /// The spline, or its inverse, inside the interval, and the identity outside.
    #[verifier::opaque]
    pub open spec fn extended(self, x: Term, reverse: bool) -> Term {
        let inside = inside_mask(x, self.tail);
        x.mul(inside.one_minus()).add(self.output(x, reverse).mul(inside))
    }

    /// The logarithm of the derivative: zero outside the interval.
    #[verifier::opaque]
    pub open spec fn extended_log_det(self, x: Term, reverse: bool) -> Term {
        self.log_det(x, reverse).mul(inside_mask(x, self.tail))
    }
}

/// The spline that three tensors stand for, or its inverse, at the inputs that lie in its
/// interval, and the identity at the others; and the logarithm of the derivative.
pub fn unconstrained_rational_quadratic_spline(
    inputs: &Tensor,
    unnormalized_widths: &Tensor,
    unnormalized_heights: &Tensor,
    unnormalized_derivatives: &Tensor,
    reverse: bool,
    tail_bound: Real,
    min_bin_width: Real,
    min_bin_height: Real,
    min_derivative: Real,
) -> (r: Result<(Tensor, Tensor), TensorError>)
    ensures
        ({
            let spline = joined_spline(
                unnormalized_widths@,
                unnormalized_heights@,
                unnormalized_derivatives@,
                tail_bound,
                min_bin_width,
                min_bin_height,
                min_derivative,
            );
            expr::gives_both(
                r,
                spline.extended(inputs@, reverse),
                spline.extended_log_det(inputs@, reverse),
            )
        }),
{
    proof {
        reveal(Spline::extended);
        reveal(Spline::extended_log_det);
    }
    let shape = inputs.shape();
    let above = inputs.compare(
        &Tensor::full(Scalar::Negated(tail_bound), DType::F32, shape)?,
        Comparison::Ge,
    )?;
    let below = inputs.compare(
        &Tensor::full(Scalar::Value(tail_bound), DType::F32, shape)?,
        Comparison::Le,
    )?;
    let inside = above.mul(&below)?.cast(inputs.dtype())?;

    let derivatives_padded = match lines::pad_last_dim(
        unnormalized_derivatives,
        1,
        1,
        Scalar::SoftplusInverse(min_derivative),
    ) {
        Ok(t) => t,
        Err(e) => {
            proof {
                lemma_undefined_slopes(
                    joined_spline(
                        unnormalized_widths@,
                        unnormalized_heights@,
                        unnormalized_derivatives@,
                        tail_bound,
                        min_bin_width,
                        min_bin_height,
                        min_derivative,
                    ),
                    inputs@,
                    reverse,
                );
            }
            return Err(e);
        },
    };

    let (outputs_inside, log_abs_det_inside) = rational_quadratic_spline(
        inputs,
        unnormalized_widths,
        unnormalized_heights,
        &derivatives_padded,
        reverse,
        tail_bound,
        min_bin_width,
        min_bin_height,
        min_derivative,
    )?;

    let outputs = inputs.mul(&inside.one_minus()?)?.add(&outputs_inside.mul(&inside)?)?;
    let log_abs_det = log_abs_det_inside.mul(&inside)?;

    Ok((outputs, log_abs_det))
}

/// A spline without slopes has no value.
proof fn lemma_undefined_slopes(spline: Spline, x: Term, reverse: bool)
    requires
        term::typ(spline.slopes) is None,
    ensures
        term::typ(spline.output(x, reverse)) is None,
{
}

/// Where a spline has a value, it has a derivative of the same type.
pub proof fn lemma_log_det_type(spline: Spline, x: Term, reverse: bool)
    requires
        term::typ(spline.output(x, reverse)) is Some,
    ensures
        term::typ(spline.log_det(x, reverse)) == term::typ(spline.output(x, reverse)),
        term::typ(spline.output(x, reverse)) == term::typ(x),
{
    let bins = spline.bins(x, reverse);
    let inner = spline.inside(x);
    if reverse {
        lemma_root_type(bins, inner);
    } else {
        lemma_value_type(bins, inner);
    }
}

proof fn lemma_value_type(bins: BinTerms, x: Term)
    requires
        term::typ(bins.value(x)) is Some,
    ensures
        term::typ(bins.log_slope(bins.theta(x))) == term::typ(bins.value(x)),
        term::typ(bins.value(x)) == term::typ(x),
{
}

proof fn lemma_root_type(bins: BinTerms, x: Term)
    requires
        term::typ(bins.preimage(x)) is Some,
    ensures
        term::typ(bins.log_slope(bins.root(x)).neg()) == term::typ(bins.preimage(x)),
        term::typ(bins.preimage(x)) == term::typ(x),
{
}

/// Where the extended spline has a value, it has the type of its argument, and so has the
/// logarithm of its derivative.
pub proof fn lemma_extended_type(spline: Spline, x: Term, reverse: bool)
    requires
        term::typ(spline.extended(x, reverse)) is Some,
    ensures
        term::typ(spline.extended(x, reverse)) == term::typ(x),
        term::typ(spline.extended_log_det(x, reverse)) == term::typ(x),
{
    reveal(Spline::extended);
    reveal(Spline::extended_log_det);
    lemma_log_det_type(spline, x, reverse);
}

/// The extended spline has a value only if all of its parts have one.
pub proof fn lemma_extended_parts(
    widths: Term,
    heights: Term,
    slopes: Term,
    tail: Real,
    least_width: Real,
    least_height: Real,
    least_slope: Real,
    x: Term,
    reverse: bool,
)
    ensures
        term::typ(
            joined_spline(
                widths,
                heights,
                slopes,
                tail,
                least_width,
                least_height,
                least_slope,
            ).extended(x, reverse),
        ) is Some ==> {
            &&& term::typ(widths) is Some
            &&& term::typ(heights) is Some
            &&& term::typ(slopes) is Some
            &&& term::typ(x) is Some
        },
{
    broadcast use strict_bins;

    reveal(Spline::extended);
}

} // verus!
