//! Curves of rational quadratic pieces, over the real numbers.

use vstd::prelude::*;

use crate::model::rational;
use crate::model::rational::Piece;

verus! {

/// Whether numbers rise strictly.
pub open spec fn rising(e: Seq<real>) -> bool {
    forall|i: int, j: int| 0 <= i < j < e.len() ==> #[trigger] e[i] < #[trigger] e[j]
}

/// The last of the edges up to number `k` that is not above `x`; the first one if all are.
pub open spec fn bin_up_to(e: Seq<real>, x: real, k: int) -> int
    decreases k,
{
    if k <= 0 {
        0
    } else if e[k] <= x {
        k
    } else {
        bin_up_to(e, x, k - 1)
    }
}

/// The bin between edges in which `x` lies.
pub open spec fn bin(e: Seq<real>, x: real) -> int {
    bin_up_to(e, x, e.len() - 2)
}

proof fn lemma_bin_up_to(e: Seq<real>, x: real, k: int)
    requires
        rising(e),
        0 <= k < e.len(),
        e[0] <= x,
    ensures
        ({
            let b = bin_up_to(e, x, k);
            &&& 0 <= b <= k
            &&& e[b] <= x
            &&& forall|j: int| b < j <= k ==> x < #[trigger] e[j]
        }),
    decreases k,
{
    if k > 0 && e[k] > x {
        lemma_bin_up_to(e, x, k - 1);
    }
}

/// Where the bin is.
pub proof fn lemma_bin(e: Seq<real>, x: real)
    requires
        rising(e),
        e.len() >= 2,
        e[0] <= x <= e.last(),
    ensures
        ({
            let b = bin(e, x);
            &&& 0 <= b < e.len() - 1
            &&& e[b] <= x <= e[b + 1]
            &&& b < e.len() - 2 ==> x < e[b + 1]
        }),
{
    lemma_bin_up_to(e, x, e.len() - 2);
    let b = bin(e, x);
    if b < e.len() - 2 {
        assert(x < e[b + 1]);
    }
}

/// There is only one bin.
pub proof fn lemma_only_bin(e: Seq<real>, x: real, j: int)
    requires
        rising(e),
        e.len() >= 2,
        e[0] <= x <= e.last(),
        0 <= j < e.len() - 1,
        e[j] <= x,
        j < e.len() - 2 ==> x < e[j + 1],
    ensures
        bin(e, x) == j,
{
    lemma_bin(e, x);
    lemma_bin_up_to(e, x, e.len() - 2);
    let b = bin(e, x);
    if b < j {
        assert(x < e[j]);
    }
    if j < b {
        if j + 1 < b {
            assert(e[j + 1] < e[b]);
        }
    }
}

/// A curve: the edges of its bins along both axes, and its slopes at them.
pub struct Curve {
    pub w: Seq<real>,
    pub h: Seq<real>,
    pub d: Seq<real>,
}

impl Curve {
    /// Whether the curve rises from one end to the other.
    pub open spec fn valid(self) -> bool {
        &&& self.w.len() >= 2
        &&& self.h.len() == self.w.len()
        &&& self.d.len() == self.w.len()
        &&& rising(self.w)
        &&& rising(self.h)
        &&& forall|k: int| 0 <= k < self.d.len() ==> #[trigger] self.d[k] > 0real
    }

    pub open spec fn width(self, k: int) -> real {
        self.w[k + 1] - self.w[k]
    }

    pub open spec fn height(self, k: int) -> real {
        self.h[k + 1] - self.h[k]
    }

    /// The piece in a bin.
    pub open spec fn piece(self, k: int) -> Piece {
        Piece {
            delta: self.height(k) / self.width(k),
            slope: self.d[k],
            next_slope: self.d[k + 1],
        }
    }

    /// How far to the right in a bin `x` lies, from 0 to 1.
    pub open spec fn place(self, k: int, x: real) -> real {
        (x - self.w[k]) / self.width(k)
    }

    /// How high the piece in a bin is at `x`.
    pub open spec fn in_bin(self, k: int, x: real) -> real {
        self.h[k] + self.height(k) * self.piece(k).part(self.place(k, x))
    }

    /// How high the curve is at `x`.
    pub open spec fn at(self, x: real) -> real {
        self.in_bin(bin(self.w, x), x)
    }

    /// How far to the right in a bin the curve is as high as `y`, by a function for square roots.
    pub open spec fn root_in(self, k: int, y: real, root: spec_fn(real) -> real) -> real {
        let (a, b, c) = rational::coefficients(self.piece(k), self.height(k), y - self.h[k]);
        (2real * c) / (-b - root(b * b - 4real * (a * c)))
    }

    /// Where the curve is as high as `y`.
    pub open spec fn back(self, y: real, root: spec_fn(real) -> real) -> real {
        let k = bin(self.h, y);
        self.root_in(k, y, root) * self.width(k) + self.w[k]
    }
}

/// Whether a function gives square roots.
pub open spec fn is_root(root: spec_fn(real) -> real) -> bool {
    forall|x: real| x >= 0real ==> #[trigger] root(x) >= 0real && root(x) * root(x) == x
}

pub(crate) proof fn lemma_piece(c: Curve, k: int)
    requires
        c.valid(),
        0 <= k < c.w.len() - 1,
    ensures
        c.width(k) > 0real,
        c.height(k) > 0real,
        c.piece(k).rises(),
{
    assert(c.w[k] < c.w[k + 1]);
    assert(c.h[k] < c.h[k + 1]);
    assert(c.d[k] > 0real && c.d[k + 1] > 0real);
    let (a, b) = (c.height(k), c.width(k));
    assert(a / b > 0real) by (nonlinear_arith)
        requires
            a > 0real,
            b > 0real,
    ;
}

proof fn lemma_share(x: real, y: real, w: real)
    requires
        w > 0real,
        x < y,
    ensures
        x / w < y / w,
{
    assert(x / w < y / w) by (nonlinear_arith)
        requires
            w > 0real,
            x < y,
    ;
}

proof fn lemma_whole_share(w: real)
    requires
        w > 0real,
    ensures
        0real / w == 0real,
        w / w == 1real,
{
    assert(0real / w == 0real && w / w == 1real) by (nonlinear_arith)
        requires
            w > 0real,
    ;
}

/// Within a bin, the curve rises from its lower edge to its upper one.
pub proof fn lemma_in_bin(c: Curve, k: int, x: real)
    requires
        c.valid(),
        0 <= k < c.w.len() - 1,
        c.w[k] <= x <= c.w[k + 1],
    ensures
        0real <= c.place(k, x) <= 1real,
        c.h[k] <= c.in_bin(k, x) <= c.h[k + 1],
        x == c.w[k] ==> c.in_bin(k, x) == c.h[k],
        x == c.w[k + 1] ==> c.in_bin(k, x) == c.h[k + 1],
        x < c.w[k + 1] ==> c.in_bin(k, x) < c.h[k + 1],
{
    lemma_piece(c, k);
    let (w, h, p) = (c.width(k), c.height(k), c.piece(k));
    let t = c.place(k, x);
    lemma_whole_share(w);
    if x > c.w[k] {
        lemma_share(0real, x - c.w[k], w);
    }
    if x < c.w[k + 1] {
        lemma_share(x - c.w[k], w, w);
    }
    rational::lemma_ends(p);
    if t > 0real {
        rational::lemma_rises(p, 0real, t);
    }
    if t < 1real {
        rational::lemma_rises(p, t, 1real);
        rational::lemma_positive(h, 1real - p.part(t));
    }
    rational::lemma_not_negative(h, p.part(t));
    rational::lemma_distributes(h, 1real, p.part(t));
    assert(h * 1real == h && h * 0real == 0real) by (nonlinear_arith);
}

/// Within a bin, the curve rises strictly.
pub proof fn lemma_in_bin_rises(c: Curve, k: int, x: real, y: real)
    requires
        c.valid(),
        0 <= k < c.w.len() - 1,
        c.w[k] <= x < y <= c.w[k + 1],
    ensures
        c.in_bin(k, x) < c.in_bin(k, y),
{
    lemma_piece(c, k);
    lemma_in_bin(c, k, x);
    lemma_in_bin(c, k, y);
    let (w, h, p) = (c.width(k), c.height(k), c.piece(k));
    lemma_share(x - c.w[k], y - c.w[k], w);
    let (u, v) = (c.place(k, x), c.place(k, y));
    rational::lemma_rises(p, u, v);
    rational::lemma_positive(h, p.part(v) - p.part(u));
    rational::lemma_distributes(h, p.part(v), p.part(u));
}

/// The curve stays between its ends, and reaches them at its ends.
pub proof fn lemma_range(c: Curve, x: real)
    requires
        c.valid(),
        c.w[0] <= x <= c.w.last(),
    ensures
        c.h[0] <= c.at(x) <= c.h.last(),
        x == c.w[0] ==> c.at(x) == c.h[0],
        x == c.w.last() ==> c.at(x) == c.h.last(),
{
    lemma_bin(c.w, x);
    let k = bin(c.w, x);
    lemma_in_bin(c, k, x);
    if k > 0 {
        assert(c.h[0] < c.h[k]);
        assert(c.w[0] < c.w[k]);
    }
    if k + 1 < c.h.len() - 1 {
        assert(c.h[k + 1] < c.h[c.h.len() - 1]);
        assert(c.w[k + 1] < c.w[c.w.len() - 1]);
    }
}

/// The curve rises strictly.
pub proof fn lemma_curve_rises(c: Curve, x: real, y: real)
    requires
        c.valid(),
        c.w[0] <= x < y <= c.w.last(),
    ensures
        c.at(x) < c.at(y),
{
    lemma_bin(c.w, x);
    lemma_bin(c.w, y);
    let (j, k) = (bin(c.w, x), bin(c.w, y));
    lemma_in_bin(c, j, x);
    lemma_in_bin(c, k, y);
    if j == k {
        lemma_in_bin_rises(c, k, x, y);
    } else if j < k {
        if j + 1 < k {
            assert(c.h[j + 1] < c.h[k]);
        }
    } else {
        if k + 1 < j {
            assert(c.w[k + 1] < c.w[j]);
        }
    }
}

/// In the bin of a height, the root of the equation is a place at which the piece is as high.
pub(crate) proof fn lemma_root_in(c: Curve, k: int, y: real, root: spec_fn(real) -> real)
    requires
        c.valid(),
        is_root(root),
        0 <= k < c.w.len() - 1,
        c.h[k] <= y <= c.h[k + 1],
    ensures
        ({
            let t = c.root_in(k, y, root);
            &&& 0real <= t <= 1real
            &&& c.h[k] + c.height(k) * c.piece(k).part(t) == y
        }),
        ({
            let (a, b, e) = rational::coefficients(c.piece(k), c.height(k), y - c.h[k]);
            b * b - 4real * (a * e) >= 0real
        }),
{
    lemma_piece(c, k);
    let (p, h, r) = (c.piece(k), c.height(k), y - c.h[k]);
    let (a, b, e) = rational::coefficients(p, h, r);
    rational::lemma_coefficients(p, h, r);
    rational::lemma_discriminant(a, b, e);
    let q = root(b * b - 4real * (a * e));
    let t = c.root_in(k, y, root);
    rational::lemma_root(a, b, e, q, t);
    rational::lemma_place(p, h, r, t);
}

/// In the bin of a height, the place that the root stands for.
proof fn lemma_place_of(c: Curve, k: int, t: real)
    requires
        c.valid(),
        0 <= k < c.w.len() - 1,
        0real <= t <= 1real,
    ensures
        ({
            let x = t * c.width(k) + c.w[k];
            &&& c.w[k] <= x <= c.w[k + 1]
            &&& c.place(k, x) == t
        }),
{
    lemma_piece(c, k);
    let w = c.width(k);
    rational::lemma_not_negative(t, w);
    rational::lemma_not_negative(1real - t, w);
    assert((1real - t) * w == w - t * w) by (nonlinear_arith);
    assert((t * w) / w == t) by (nonlinear_arith)
        requires
            w > 0real,
    ;
}

/// Every height is reached, where the inverse says.
pub proof fn lemma_reached(c: Curve, y: real, root: spec_fn(real) -> real)
    requires
        c.valid(),
        is_root(root),
        c.h[0] <= y <= c.h.last(),
    ensures
        c.w[0] <= c.back(y, root) <= c.w.last(),
        c.at(c.back(y, root)) == y,
        bin(c.w, c.back(y, root)) == bin(c.h, y),
        c.place(bin(c.h, y), c.back(y, root)) == c.root_in(bin(c.h, y), y, root),
{
    lemma_bin(c.h, y);
    let k = bin(c.h, y);
    let t = c.root_in(k, y, root);
    lemma_root_in(c, k, y, root);
    lemma_place_of(c, k, t);
    let x = c.back(y, root);
    if k > 0 {
        assert(c.w[0] < c.w[k]);
    }
    if k + 1 < c.w.len() - 1 {
        assert(c.w[k + 1] < c.w[c.w.len() - 1]);
    }
    lemma_in_bin(c, k, x);
    lemma_only_bin(c.w, x, k);
}

/// The inverse undoes the curve.
pub proof fn lemma_undone(c: Curve, x: real, root: spec_fn(real) -> real)
    requires
        c.valid(),
        is_root(root),
        c.w[0] <= x <= c.w.last(),
    ensures
        c.back(c.at(x), root) == x,
        bin(c.h, c.at(x)) == bin(c.w, x),
        c.root_in(bin(c.w, x), c.at(x), root) == c.place(bin(c.w, x), x),
{
    let y = c.at(x);
    lemma_range(c, x);
    lemma_reached(c, y, root);
    let z = c.back(y, root);
    if z < x {
        lemma_curve_rises(c, z, x);
    }
    if x < z {
        lemma_curve_rises(c, x, z);
    }
}

/// The inverse rises too.
pub proof fn lemma_inverse_rises(c: Curve, y: real, z: real, root: spec_fn(real) -> real)
    requires
        c.valid(),
        is_root(root),
        c.h[0] <= y < z <= c.h.last(),
    ensures
        c.back(y, root) < c.back(z, root),
{
    lemma_reached(c, y, root);
    lemma_reached(c, z, root);
    let (u, v) = (c.back(y, root), c.back(z, root));
    if v < u {
        lemma_curve_rises(c, v, u);
    }
}

} // verus!
