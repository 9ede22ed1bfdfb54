//! Shapes of tensors with at most six dimensions.

use vstd::prelude::*;

verus! {

/// The dimensions of a tensor, outermost first.
#[derive(Clone, Copy, PartialEq, Eq, Structural, Hash, Debug)]
pub enum Shape {
    S0,
    S1(usize),
    S2(usize, usize),
    S3(usize, usize, usize),
    S4(usize, usize, usize, usize),
    S5(usize, usize, usize, usize, usize),
    S6(usize, usize, usize, usize, usize, usize),
}

/// A dimension counted towards the storage limit: an empty one counts once.
pub open spec fn at_least_one(d: usize) -> nat {
    if d == 0 {
        1
    } else {
        d as nat
    }
}

/// The length of one dimension when `a` and `b` are broadcast together.
pub open spec fn joint_dim(a: usize, b: usize) -> Option<usize> {
    if a == b {
        Some(a)
    } else if a == 1 {
        Some(b)
    } else if b == 1 {
        Some(a)
    } else {
        None
    }
}

impl Shape {
    /// The number of dimensions.
    pub open spec fn spec_rank(self) -> nat {
        match self {
            Shape::S0 => 0,
            Shape::S1(_) => 1,
            Shape::S2(_, _) => 2,
            Shape::S3(_, _, _) => 3,
            Shape::S4(_, _, _, _) => 4,
            Shape::S5(_, _, _, _, _) => 5,
            Shape::S6(_, _, _, _, _, _) => 6,
        }
    }

    /// The length of dimension `i`, counted from the outermost.
    pub open spec fn spec_dim(self, i: int) -> usize {
        match self {
            Shape::S0 => 0,
            Shape::S1(a) => a,
            Shape::S2(a, b) => if i == 0 {
                a
            } else {
                b
            },
            Shape::S3(a, b, c) => if i == 0 {
                a
            } else if i == 1 {
                b
            } else {
                c
            },
            Shape::S4(a, b, c, d) => if i == 0 {
                a
            } else if i == 1 {
                b
            } else if i == 2 {
                c
            } else {
                d
            },
            Shape::S5(a, b, c, d, e) => if i == 0 {
                a
            } else if i == 1 {
                b
            } else if i == 2 {
                c
            } else if i == 3 {
                d
            } else {
                e
            },
            Shape::S6(a, b, c, d, e, f) => if i == 0 {
                a
            } else if i == 1 {
                b
            } else if i == 2 {
                c
            } else if i == 3 {
                d
            } else if i == 4 {
                e
            } else {
                f
            },
        }
    }

    /// This shape with dimension `i` replaced by `v`.
    pub open spec fn spec_with_dim(self, i: int, v: usize) -> Shape {
        match self {
            Shape::S0 => Shape::S0,
            Shape::S1(_) => Shape::S1(v),
            Shape::S2(a, b) => if i == 0 {
                Shape::S2(v, b)
            } else {
                Shape::S2(a, v)
            },
            Shape::S3(a, b, c) => if i == 0 {
                Shape::S3(v, b, c)
            } else if i == 1 {
                Shape::S3(a, v, c)
            } else {
                Shape::S3(a, b, v)
            },
            Shape::S4(a, b, c, d) => if i == 0 {
                Shape::S4(v, b, c, d)
            } else if i == 1 {
                Shape::S4(a, v, c, d)
            } else if i == 2 {
                Shape::S4(a, b, v, d)
            } else {
                Shape::S4(a, b, c, v)
            },
            Shape::S5(a, b, c, d, e) => if i == 0 {
                Shape::S5(v, b, c, d, e)
            } else if i == 1 {
                Shape::S5(a, v, c, d, e)
            } else if i == 2 {
                Shape::S5(a, b, v, d, e)
            } else if i == 3 {
                Shape::S5(a, b, c, v, e)
            } else {
                Shape::S5(a, b, c, d, v)
            },
            Shape::S6(a, b, c, d, e, f) => if i == 0 {
                Shape::S6(v, b, c, d, e, f)
            } else if i == 1 {
                Shape::S6(a, v, c, d, e, f)
            } else if i == 2 {
                Shape::S6(a, b, v, d, e, f)
            } else if i == 3 {
                Shape::S6(a, b, c, v, e, f)
            } else if i == 4 {
                Shape::S6(a, b, c, d, v, f)
            } else {
                Shape::S6(a, b, c, d, e, v)
            },
        }
    }

    /// This shape with a dimension of length one put in front of dimension `i`.
    pub open spec fn spec_insert_one(self, i: int) -> Option<Shape> {
        match self {
            Shape::S0 => Some(Shape::S1(1)),
            Shape::S1(a) => Some(
                if i == 0 {
                    Shape::S2(1, a)
                } else {
                    Shape::S2(a, 1)
                },
            ),
            Shape::S2(a, b) => Some(
                if i == 0 {
                    Shape::S3(1, a, b)
                } else if i == 1 {
                    Shape::S3(a, 1, b)
                } else {
                    Shape::S3(a, b, 1)
                },
            ),
            Shape::S3(a, b, c) => Some(
                if i == 0 {
                    Shape::S4(1, a, b, c)
                } else if i == 1 {
                    Shape::S4(a, 1, b, c)
                } else if i == 2 {
                    Shape::S4(a, b, 1, c)
                } else {
                    Shape::S4(a, b, c, 1)
                },
            ),
            Shape::S4(a, b, c, d) => Some(
                if i == 0 {
                    Shape::S5(1, a, b, c, d)
                } else if i == 1 {
                    Shape::S5(a, 1, b, c, d)
                } else if i == 2 {
                    Shape::S5(a, b, 1, c, d)
                } else if i == 3 {
                    Shape::S5(a, b, c, 1, d)
                } else {
                    Shape::S5(a, b, c, d, 1)
                },
            ),
            Shape::S5(a, b, c, d, e) => Some(
                if i == 0 {
                    Shape::S6(1, a, b, c, d, e)
                } else if i == 1 {
                    Shape::S6(a, 1, b, c, d, e)
                } else if i == 2 {
                    Shape::S6(a, b, 1, c, d, e)
                } else if i == 3 {
                    Shape::S6(a, b, c, 1, d, e)
                } else if i == 4 {
                    Shape::S6(a, b, c, d, 1, e)
                } else {
                    Shape::S6(a, b, c, d, e, 1)
                },
            ),
            Shape::S6(_, _, _, _, _, _) => None,
        }
    }

    /// This shape without dimension `i`.
    pub open spec fn spec_remove(self, i: int) -> Shape {
        match self {
            Shape::S0 => Shape::S0,
            Shape::S1(_) => Shape::S0,
            Shape::S2(a, b) => if i == 0 {
                Shape::S1(b)
            } else {
                Shape::S1(a)
            },
            Shape::S3(a, b, c) => if i == 0 {
                Shape::S2(b, c)
            } else if i == 1 {
                Shape::S2(a, c)
            } else {
                Shape::S2(a, b)
            },
            Shape::S4(a, b, c, d) => if i == 0 {
                Shape::S3(b, c, d)
            } else if i == 1 {
                Shape::S3(a, c, d)
            } else if i == 2 {
                Shape::S3(a, b, d)
            } else {
                Shape::S3(a, b, c)
            },
            Shape::S5(a, b, c, d, e) => if i == 0 {
                Shape::S4(b, c, d, e)
            } else if i == 1 {
                Shape::S4(a, c, d, e)
            } else if i == 2 {
                Shape::S4(a, b, d, e)
            } else if i == 3 {
                Shape::S4(a, b, c, e)
            } else {
                Shape::S4(a, b, c, d)
            },
            Shape::S6(a, b, c, d, e, f) => if i == 0 {
                Shape::S5(b, c, d, e, f)
            } else if i == 1 {
                Shape::S5(a, c, d, e, f)
            } else if i == 2 {
                Shape::S5(a, b, d, e, f)
            } else if i == 3 {
                Shape::S5(a, b, c, e, f)
            } else if i == 4 {
                Shape::S5(a, b, c, d, f)
            } else {
                Shape::S5(a, b, c, d, e)
            },
        }
    }

    /// The number of elements.
    pub open spec fn count(self) -> nat {
        match self {
            Shape::S0 => 1,
            Shape::S1(a) => a as nat,
            Shape::S2(a, b) => a as nat * b as nat,
            Shape::S3(a, b, c) => a as nat * b as nat * c as nat,
            Shape::S4(a, b, c, d) => a as nat * b as nat * c as nat * d as nat,
            Shape::S5(a, b, c, d, e) => a as nat * b as nat * c as nat * d as nat * e as nat,
            Shape::S6(a, b, c, d, e, f) => a as nat * b as nat * c as nat * d as nat * e as nat
                * f as nat,
        }
    }

    /// The number of elements if every empty dimension held one entry.
    pub open spec fn volume(self) -> nat {
        match self {
            Shape::S0 => 1,
            Shape::S1(a) => at_least_one(a),
            Shape::S2(a, b) => at_least_one(a) * at_least_one(b),
            Shape::S3(a, b, c) => at_least_one(a) * at_least_one(b) * at_least_one(c),
            Shape::S4(a, b, c, d) => at_least_one(a) * at_least_one(b) * at_least_one(c)
                * at_least_one(d),
            Shape::S5(a, b, c, d, e) => at_least_one(a) * at_least_one(b) * at_least_one(c)
                * at_least_one(d) * at_least_one(e),
            Shape::S6(a, b, c, d, e, f) => at_least_one(a) * at_least_one(b) * at_least_one(c)
                * at_least_one(d) * at_least_one(e) * at_least_one(f),
        }
    }

    /// Whether a tensor of this shape can be addressed on this machine.
    pub open spec fn spec_fits(self) -> bool {
        self.volume() <= usize::MAX
    }

    /// The dimensions aligned to the right in a row of six, ones in front.
    pub open spec fn aligned(self) -> (usize, usize, usize, usize, usize, usize) {
        match self {
            Shape::S0 => (1, 1, 1, 1, 1, 1),
            Shape::S1(a) => (1, 1, 1, 1, 1, a),
            Shape::S2(a, b) => (1, 1, 1, 1, a, b),
            Shape::S3(a, b, c) => (1, 1, 1, a, b, c),
            Shape::S4(a, b, c, d) => (1, 1, a, b, c, d),
            Shape::S5(a, b, c, d, e) => (1, a, b, c, d, e),
            Shape::S6(a, b, c, d, e, f) => (a, b, c, d, e, f),
        }
    }

    /// The shape of an elementwise operation on operands of the shapes `self` and `other`, where
    /// a dimension of length one is repeated as often as the other operand needs.
    pub open spec fn spec_broadcast(self, other: Shape) -> Option<Shape> {
        let (a0, a1, a2, a3, a4, a5) = self.aligned();
        let (b0, b1, b2, b3, b4, b5) = other.aligned();
        match (
            joint_dim(a0, b0),
            joint_dim(a1, b1),
            joint_dim(a2, b2),
            joint_dim(a3, b3),
            joint_dim(a4, b4),
            joint_dim(a5, b5),
        ) {
            (Some(d0), Some(d1), Some(d2), Some(d3), Some(d4), Some(d5)) => {
                let rank = if self.spec_rank() >= other.spec_rank() {
                    self.spec_rank()
                } else {
                    other.spec_rank()
                };
                Some(
                    if rank == 0 {
                        Shape::S0
                    } else if rank == 1 {
                        Shape::S1(d5)
                    } else if rank == 2 {
                        Shape::S2(d4, d5)
                    } else if rank == 3 {
                        Shape::S3(d3, d4, d5)
                    } else if rank == 4 {
                        Shape::S4(d2, d3, d4, d5)
                    } else if rank == 5 {
                        Shape::S5(d1, d2, d3, d4, d5)
                    } else {
                        Shape::S6(d0, d1, d2, d3, d4, d5)
                    },
                )
            },
            _ => None,
        }
    }

    /// The number of dimensions.
    pub fn rank(self) -> (r: usize)
        ensures
            r == self.spec_rank(),
    {
        match self {
            Shape::S0 => 0,
            Shape::S1(_) => 1,
            Shape::S2(_, _) => 2,
            Shape::S3(_, _, _) => 3,
            Shape::S4(_, _, _, _) => 4,
            Shape::S5(_, _, _, _, _) => 5,
            Shape::S6(_, _, _, _, _, _) => 6,
        }
    }

    /// The length of dimension `i`.
    pub fn dim(self, i: usize) -> (r: usize)
        ensures
            r == self.spec_dim(i as int),
    {
        match self {
            Shape::S0 => 0,
            Shape::S1(a) => a,
            Shape::S2(a, b) => if i == 0 {
                a
            } else {
                b
            },
            Shape::S3(a, b, c) => if i == 0 {
                a
            } else if i == 1 {
                b
            } else {
                c
            },
            Shape::S4(a, b, c, d) => if i == 0 {
                a
            } else if i == 1 {
                b
            } else if i == 2 {
                c
            } else {
                d
            },
            Shape::S5(a, b, c, d, e) => if i == 0 {
                a
            } else if i == 1 {
                b
            } else if i == 2 {
                c
            } else if i == 3 {
                d
            } else {
                e
            },
            Shape::S6(a, b, c, d, e, f) => if i == 0 {
                a
            } else if i == 1 {
                b
            } else if i == 2 {
                c
            } else if i == 3 {
                d
            } else if i == 4 {
                e
            } else {
                f
            },
        }
    }

    /// This shape with dimension `i` replaced by `v`.
    pub fn with_dim(self, i: usize, v: usize) -> (r: Shape)
        ensures
            r == self.spec_with_dim(i as int, v),
    {
        match self {
            Shape::S0 => Shape::S0,
            Shape::S1(_) => Shape::S1(v),
            Shape::S2(a, b) => if i == 0 {
                Shape::S2(v, b)
            } else {
                Shape::S2(a, v)
            },
            Shape::S3(a, b, c) => if i == 0 {
                Shape::S3(v, b, c)
            } else if i == 1 {
                Shape::S3(a, v, c)
            } else {
                Shape::S3(a, b, v)
            },
            Shape::S4(a, b, c, d) => if i == 0 {
                Shape::S4(v, b, c, d)
            } else if i == 1 {
                Shape::S4(a, v, c, d)
            } else if i == 2 {
                Shape::S4(a, b, v, d)
            } else {
                Shape::S4(a, b, c, v)
            },
            Shape::S5(a, b, c, d, e) => if i == 0 {
                Shape::S5(v, b, c, d, e)
            } else if i == 1 {
                Shape::S5(a, v, c, d, e)
            } else if i == 2 {
                Shape::S5(a, b, v, d, e)
            } else if i == 3 {
                Shape::S5(a, b, c, v, e)
            } else {
                Shape::S5(a, b, c, d, v)
            },
            Shape::S6(a, b, c, d, e, f) => if i == 0 {
                Shape::S6(v, b, c, d, e, f)
            } else if i == 1 {
                Shape::S6(a, v, c, d, e, f)
            } else if i == 2 {
                Shape::S6(a, b, v, d, e, f)
            } else if i == 3 {
                Shape::S6(a, b, c, v, e, f)
            } else if i == 4 {
                Shape::S6(a, b, c, d, v, f)
            } else {
                Shape::S6(a, b, c, d, e, v)
            },
        }
    }

    /// This shape with a dimension of length one put in front of dimension `i`, unless it already
    /// has six.
    pub fn insert_one(self, i: usize) -> (r: Option<Shape>)
        ensures
            r == self.spec_insert_one(i as int),
    {
        match self {
            Shape::S0 => Some(Shape::S1(1)),
            Shape::S1(a) => Some(
                if i == 0 {
                    Shape::S2(1, a)
                } else {
                    Shape::S2(a, 1)
                },
            ),
            Shape::S2(a, b) => Some(
                if i == 0 {
                    Shape::S3(1, a, b)
                } else if i == 1 {
                    Shape::S3(a, 1, b)
                } else {
                    Shape::S3(a, b, 1)
                },
            ),
            Shape::S3(a, b, c) => Some(
                if i == 0 {
                    Shape::S4(1, a, b, c)
                } else if i == 1 {
                    Shape::S4(a, 1, b, c)
                } else if i == 2 {
                    Shape::S4(a, b, 1, c)
                } else {
                    Shape::S4(a, b, c, 1)
                },
            ),
            Shape::S4(a, b, c, d) => Some(
                if i == 0 {
                    Shape::S5(1, a, b, c, d)
                } else if i == 1 {
                    Shape::S5(a, 1, b, c, d)
                } else if i == 2 {
                    Shape::S5(a, b, 1, c, d)
                } else if i == 3 {
                    Shape::S5(a, b, c, 1, d)
                } else {
                    Shape::S5(a, b, c, d, 1)
                },
            ),
            Shape::S5(a, b, c, d, e) => Some(
                if i == 0 {
                    Shape::S6(1, a, b, c, d, e)
                } else if i == 1 {
                    Shape::S6(a, 1, b, c, d, e)
                } else if i == 2 {
                    Shape::S6(a, b, 1, c, d, e)
                } else if i == 3 {
                    Shape::S6(a, b, c, 1, d, e)
                } else if i == 4 {
                    Shape::S6(a, b, c, d, 1, e)
                } else {
                    Shape::S6(a, b, c, d, e, 1)
                },
            ),
            Shape::S6(_, _, _, _, _, _) => None,
        }
    }

    /// This shape without dimension `i`.
    pub fn remove(self, i: usize) -> (r: Shape)
        ensures
            r == self.spec_remove(i as int),
    {
        match self {
            Shape::S0 => Shape::S0,
            Shape::S1(_) => Shape::S0,
            Shape::S2(a, b) => if i == 0 {
                Shape::S1(b)
            } else {
                Shape::S1(a)
            },
            Shape::S3(a, b, c) => if i == 0 {
                Shape::S2(b, c)
            } else if i == 1 {
                Shape::S2(a, c)
            } else {
                Shape::S2(a, b)
            },
            Shape::S4(a, b, c, d) => if i == 0 {
                Shape::S3(b, c, d)
            } else if i == 1 {
                Shape::S3(a, c, d)
            } else if i == 2 {
                Shape::S3(a, b, d)
            } else {
                Shape::S3(a, b, c)
            },
            Shape::S5(a, b, c, d, e) => if i == 0 {
                Shape::S4(b, c, d, e)
            } else if i == 1 {
                Shape::S4(a, c, d, e)
            } else if i == 2 {
                Shape::S4(a, b, d, e)
            } else if i == 3 {
                Shape::S4(a, b, c, e)
            } else {
                Shape::S4(a, b, c, d)
            },
            Shape::S6(a, b, c, d, e, f) => if i == 0 {
                Shape::S5(b, c, d, e, f)
            } else if i == 1 {
                Shape::S5(a, c, d, e, f)
            } else if i == 2 {
                Shape::S5(a, b, d, e, f)
            } else if i == 3 {
                Shape::S5(a, b, c, e, f)
            } else if i == 4 {
                Shape::S5(a, b, c, d, f)
            } else {
                Shape::S5(a, b, c, d, e)
            },
        }
    }

    /// Whether a tensor of this shape can be addressed on this machine.
    pub fn fits(self) -> (r: bool)
        ensures
            r == self.spec_fits(),
    {
        let (a, b, c, d, e, f) = self.align();
        proof {
            lemma_aligned_volume(self);
            lemma_partial_products(
                at_least_one(a),
                at_least_one(b),
                at_least_one(c),
                at_least_one(d),
                at_least_one(e),
                at_least_one(f),
            );
        }
        match raise(a).checked_mul(raise(b)) {
            None => false,
            Some(ab) => match ab.checked_mul(raise(c)) {
                None => false,
                Some(abc) => match abc.checked_mul(raise(d)) {
                    None => false,
                    Some(abcd) => match abcd.checked_mul(raise(e)) {
                        None => false,
                        Some(abcde) => abcde.checked_mul(raise(f)).is_some(),
                    },
                },
            },
        }
    }

    /// Whether there are no elements.
    pub fn is_empty(self) -> (r: bool)
        ensures
            r == (self.count() == 0),
    {
        proof {
            lemma_empty(self);
        }
        match self {
            Shape::S0 => false,
            Shape::S1(a) => a == 0,
            Shape::S2(a, b) => a == 0 || b == 0,
            Shape::S3(a, b, c) => a == 0 || b == 0 || c == 0,
            Shape::S4(a, b, c, d) => a == 0 || b == 0 || c == 0 || d == 0,
            Shape::S5(a, b, c, d, e) => a == 0 || b == 0 || c == 0 || d == 0 || e == 0,
            Shape::S6(a, b, c, d, e, f) => a == 0 || b == 0 || c == 0 || d == 0 || e == 0 || f == 0,
        }
    }

    /// The number of elements of a shape that can be addressed.
    pub fn element_count(self) -> (r: usize)
        requires
            self.spec_fits(),
        ensures
            r == self.count(),
    {
        proof {
            lemma_count_bound(self);
        }
        match self {
            Shape::S0 => 1,
            Shape::S1(a) => a,
            Shape::S2(a, b) => a * b,
            Shape::S3(a, b, c) => {
                let ab = a * b;
                ab * c
            },
            Shape::S4(a, b, c, d) => {
                let ab = a * b;
                let abc = ab * c;
                abc * d
            },
            Shape::S5(a, b, c, d, e) => {
                let ab = a * b;
                let abc = ab * c;
                let abcd = abc * d;
                abcd * e
            },
            Shape::S6(a, b, c, d, e, f) => {
                let ab = a * b;
                let abc = ab * c;
                let abcd = abc * d;
                let abcde = abcd * e;
                abcde * f
            },
        }
    }

    /// The shape of an elementwise operation on operands of the shapes `self` and `other`.
    pub fn broadcast(self, other: Shape) -> (r: Option<Shape>)
        ensures
            r == self.spec_broadcast(other),
    {
        let (a0, a1, a2, a3, a4, a5) = self.align();
        let (b0, b1, b2, b3, b4, b5) = other.align();
        match (
            join(a0, b0),
            join(a1, b1),
            join(a2, b2),
            join(a3, b3),
            join(a4, b4),
            join(a5, b5),
        ) {
            (Some(d0), Some(d1), Some(d2), Some(d3), Some(d4), Some(d5)) => {
                let rank: usize = if self.rank() >= other.rank() {
                    self.rank()
                } else {
                    other.rank()
                };
                Some(
                    if rank == 0 {
                        Shape::S0
                    } else if rank == 1 {
                        Shape::S1(d5)
                    } else if rank == 2 {
                        Shape::S2(d4, d5)
                    } else if rank == 3 {
                        Shape::S3(d3, d4, d5)
                    } else if rank == 4 {
                        Shape::S4(d2, d3, d4, d5)
                    } else if rank == 5 {
                        Shape::S5(d1, d2, d3, d4, d5)
                    } else {
                        Shape::S6(d0, d1, d2, d3, d4, d5)
                    },
                )
            },
            _ => None,
        }
    }

    fn align(self) -> (r: (usize, usize, usize, usize, usize, usize))
        ensures
            r == self.aligned(),
    {
        match self {
            Shape::S0 => (1, 1, 1, 1, 1, 1),
            Shape::S1(a) => (1, 1, 1, 1, 1, a),
            Shape::S2(a, b) => (1, 1, 1, 1, a, b),
            Shape::S3(a, b, c) => (1, 1, 1, a, b, c),
            Shape::S4(a, b, c, d) => (1, 1, a, b, c, d),
            Shape::S5(a, b, c, d, e) => (1, a, b, c, d, e),
            Shape::S6(a, b, c, d, e, f) => (a, b, c, d, e, f),
        }
    }
}

fn raise(d: usize) -> (r: usize)
    ensures
        r == at_least_one(d),
{
    if d == 0 {
        1
    } else {
        d
    }
}

fn join(a: usize, b: usize) -> (r: Option<usize>)
    ensures
        r == joint_dim(a, b),
{
    if a == b {
        Some(a)
    } else if a == 1 {
        Some(b)
    } else if b == 1 {
        Some(a)
    } else {
        None
    }
}

proof fn lemma_grows(x: nat, y: nat)
    requires
        y >= 1,
    ensures
        x <= x * y,
{
    assert(x <= x * y) by (nonlinear_arith)
        requires
            y >= 1,
    ;
}

proof fn lemma_zero(x: nat, y: nat)
    ensures
        x * y == 0 <==> x == 0 || y == 0,
{
    assert(x * y == 0 <==> x == 0 || y == 0) by (nonlinear_arith);
}

/// There are no elements where a dimension is empty, and only there.
proof fn lemma_empty(s: Shape)
    ensures
        s.count() == 0 <==> match s {
            Shape::S0 => false,
            Shape::S1(a) => a == 0,
            Shape::S2(a, b) => a == 0 || b == 0,
            Shape::S3(a, b, c) => a == 0 || b == 0 || c == 0,
            Shape::S4(a, b, c, d) => a == 0 || b == 0 || c == 0 || d == 0,
            Shape::S5(a, b, c, d, e) => a == 0 || b == 0 || c == 0 || d == 0 || e == 0,
            Shape::S6(a, b, c, d, e, f) => a == 0 || b == 0 || c == 0 || d == 0 || e == 0 || f
                == 0,
        },
{
    match s {
        Shape::S0 => {},
        Shape::S1(_) => {},
        Shape::S2(a, b) => {
            lemma_zero(a as nat, b as nat);
        },
        Shape::S3(a, b, c) => {
            lemma_zero(a as nat, b as nat);
            lemma_zero(a as nat * b as nat, c as nat);
        },
        Shape::S4(a, b, c, d) => {
            lemma_zero(a as nat, b as nat);
            lemma_zero(a as nat * b as nat, c as nat);
            lemma_zero(a as nat * b as nat * c as nat, d as nat);
        },
        Shape::S5(a, b, c, d, e) => {
            lemma_zero(a as nat, b as nat);
            lemma_zero(a as nat * b as nat, c as nat);
            lemma_zero(a as nat * b as nat * c as nat, d as nat);
            lemma_zero(a as nat * b as nat * c as nat * d as nat, e as nat);
        },
        Shape::S6(a, b, c, d, e, f) => {
            lemma_zero(a as nat, b as nat);
            lemma_zero(a as nat * b as nat, c as nat);
            lemma_zero(a as nat * b as nat * c as nat, d as nat);
            lemma_zero(a as nat * b as nat * c as nat * d as nat, e as nat);
            lemma_zero(a as nat * b as nat * c as nat * d as nat * e as nat, f as nat);
        },
    }
}

/// No product grows smaller by a further factor.
proof fn lemma_partial_products(a: nat, b: nat, c: nat, d: nat, e: nat, f: nat)
    requires
        a >= 1,
        b >= 1,
        c >= 1,
        d >= 1,
        e >= 1,
        f >= 1,
    ensures
        a * b <= a * b * c,
        a * b * c <= a * b * c * d,
        a * b * c * d <= a * b * c * d * e,
        a * b * c * d * e <= a * b * c * d * e * f,
{
    lemma_grows(a * b, c);
    lemma_grows(a * b * c, d);
    lemma_grows(a * b * c * d, e);
    lemma_grows(a * b * c * d * e, f);
}

/// Ones in front do not change the volume.
proof fn lemma_aligned_volume(s: Shape)
    ensures
        ({
            let (a, b, c, d, e, f) = s.aligned();
            s.volume() == at_least_one(a) * at_least_one(b) * at_least_one(c) * at_least_one(d)
                * at_least_one(e) * at_least_one(f)
        }),
{
    match s {
        Shape::S0 => {
            assert(1nat * 1nat * 1nat * 1nat * 1nat * 1nat == 1) by (nonlinear_arith);
        },
        Shape::S1(a) => {
            let u = at_least_one(a);
            assert(1nat * 1nat * 1nat * 1nat * 1nat * u == u) by (nonlinear_arith);
        },
        Shape::S2(a, b) => {
            let u = at_least_one(a);
            let v = at_least_one(b);
            assert(1nat * 1nat * 1nat * 1nat * u * v == u * v) by (nonlinear_arith);
        },
        Shape::S3(a, b, c) => {
            let u = at_least_one(a);
            let v = at_least_one(b);
            let w = at_least_one(c);
            assert(1nat * 1nat * 1nat * u * v * w == u * v * w) by (nonlinear_arith);
        },
        Shape::S4(a, b, c, d) => {
            let u = at_least_one(a);
            let v = at_least_one(b);
            let w = at_least_one(c);
            let x = at_least_one(d);
            assert(1nat * 1nat * u * v * w * x == u * v * w * x) by (nonlinear_arith);
        },
        Shape::S5(a, b, c, d, e) => {
            let u = at_least_one(a);
            let v = at_least_one(b);
            let w = at_least_one(c);
            let x = at_least_one(d);
            let y = at_least_one(e);
            assert(1nat * u * v * w * x * y == u * v * w * x * y) by (nonlinear_arith);
        },
        Shape::S6(_, _, _, _, _, _) => {},
    }
}

/// No product over leading dimensions of an addressable shape leaves the machine's range.
pub proof fn lemma_count_bound(s: Shape)
    requires
        s.spec_fits(),
    ensures
        s.count() <= usize::MAX,
        s matches Shape::S2(a, b) ==> a * b <= usize::MAX,
        s matches Shape::S3(a, b, c) ==> a * b <= usize::MAX && a * b * c <= usize::MAX && b * c
            <= usize::MAX && a * c <= usize::MAX,
        s matches Shape::S4(a, b, c, d) ==> a * b <= usize::MAX && a * b * c <= usize::MAX && a * b
            * c * d <= usize::MAX,
        s matches Shape::S5(a, b, c, d, e) ==> a * b <= usize::MAX && a * b * c <= usize::MAX && a
            * b * c * d <= usize::MAX && a * b * c * d * e <= usize::MAX,
        s matches Shape::S6(a, b, c, d, e, f) ==> a * b <= usize::MAX && a * b * c <= usize::MAX
            && a * b * c * d <= usize::MAX && a * b * c * d * e <= usize::MAX && a * b * c * d * e
            * f <= usize::MAX,
{
    match s {
        Shape::S0 => {},
        Shape::S1(_) => {},
        Shape::S2(a, b) => {
            lemma_product_mono(a as nat, at_least_one(a), b as nat, at_least_one(b));
        },
        Shape::S3(a, b, c) => {
            let (x, y, z) = (at_least_one(a), at_least_one(b), at_least_one(c));
            lemma_grows(x * y, z);
            lemma_product_mono(a as nat, x, b as nat, y);
            lemma_product_mono(a as nat * b as nat, x * y, c as nat, z);
            lemma_product_mono(b as nat, y, c as nat, z);
            lemma_product_mono(a as nat, x, c as nat, z);
            assert(y * z <= x * y * z && x * z <= x * y * z) by (nonlinear_arith)
                requires
                    x >= 1,
                    y >= 1,
                    z >= 1,
            ;
        },
        Shape::S4(a, b, c, d) => {
            lemma_leading(a, b, c, d, 1, 1);
        },
        Shape::S5(a, b, c, d, e) => {
            lemma_leading(a, b, c, d, e, 1);
        },
        Shape::S6(a, b, c, d, e, f) => {
            lemma_leading(a, b, c, d, e, f);
        },
    }
}

/// Products over leading dimensions are no greater than the volume.
proof fn lemma_leading(a: usize, b: usize, c: usize, d: usize, e: usize, f: usize)
    ensures
        ({
            let (u, v, w, x, y, z) = (
                at_least_one(a),
                at_least_one(b),
                at_least_one(c),
                at_least_one(d),
                at_least_one(e),
                at_least_one(f),
            );
            &&& a * b <= u * v <= u * v * w
            &&& a * b * c <= u * v * w <= u * v * w * x
            &&& a * b * c * d <= u * v * w * x <= u * v * w * x * y
            &&& a * b * c * d * e <= u * v * w * x * y <= u * v * w * x * y * z
            &&& a * b * c * d * e * f <= u * v * w * x * y * z
        }),
{
    let (u, v, w, x, y, z) = (
        at_least_one(a),
        at_least_one(b),
        at_least_one(c),
        at_least_one(d),
        at_least_one(e),
        at_least_one(f),
    );
    lemma_partial_products(u, v, w, x, y, z);
    lemma_product_mono(a as nat, u, b as nat, v);
    lemma_product_mono(a as nat * b as nat, u * v, c as nat, w);
    lemma_product_mono(a as nat * b as nat * c as nat, u * v * w, d as nat, x);
    lemma_product_mono(a as nat * b as nat * c as nat * d as nat, u * v * w * x, e as nat, y);
    lemma_product_mono(
        a as nat * b as nat * c as nat * d as nat * e as nat,
        u * v * w * x * y,
        f as nat,
        z,
    );
}

proof fn lemma_product_mono(a: nat, x: nat, b: nat, y: nat)
    requires
        a <= x,
        b <= y,
    ensures
        a * b <= x * y,
{
    assert(a * b <= x * y) by (nonlinear_arith)
        requires
            a <= x,
            b <= y,
    ;
}

} // verus!
