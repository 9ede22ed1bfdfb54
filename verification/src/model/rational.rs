//! Rational quadratic pieces of a spline, over the real numbers.

use vstd::prelude::*;

verus! {

/// A piece: its height over its width, and its slopes at both ends.
pub struct Piece {
    pub delta: real,
    pub slope: real,
    pub next_slope: real,
}

impl Piece {
    /// Whether the piece rises.
    pub open spec fn rises(self) -> bool {
        self.delta > 0real && self.slope > 0real && self.next_slope > 0real
    }

    /// The sum of both slopes, less twice the mean slope.
    pub open spec fn bend(self) -> real {
        self.slope + self.next_slope - self.delta * 2real
    }

    /// What the height at `t` is a fraction of: above the line.
    pub open spec fn numerator(self, t: real) -> real {
        self.delta * (t * t) + self.slope * (t * (1real - t))
    }

    /// What the height at `t` is a fraction of: below the line.
    pub open spec fn denominator(self, t: real) -> real {
        self.delta + self.bend() * (t * (1real - t))
    }

    /// How high the piece is at the place `t` between 0 and 1, as a part of its height.
    pub open spec fn part(self, t: real) -> real {
        self.numerator(t) / self.denominator(t)
    }
}

pub(crate) proof fn lemma_distributes(x: real, a: real, b: real)
    ensures
        x * (a + b) == x * a + x * b,
        x * (a - b) == x * a - x * b,
{
    assert(x * (a + b) == x * a + x * b) by (nonlinear_arith);
    assert(x * (a - b) == x * a - x * b) by (nonlinear_arith);
}

proof fn lemma_sums(a: real, b: real, c: real, d: real)
    ensures
        (a + b) * (c + d) == a * c + a * d + b * c + b * d,
{
    assert((a + b) * (c + d) == a * c + a * d + b * c + b * d) by (nonlinear_arith);
}

pub(crate) proof fn lemma_not_negative(a: real, b: real)
    requires
        a >= 0real,
        b >= 0real,
    ensures
        a * b >= 0real,
{
    assert(a * b >= 0real) by (nonlinear_arith)
        requires
            a >= 0real,
            b >= 0real,
    ;
}

pub(crate) proof fn lemma_positive(a: real, b: real)
    requires
        a > 0real,
        b > 0real,
    ensures
        a * b > 0real,
{
    assert(a * b > 0real) by (nonlinear_arith)
        requires
            a > 0real,
            b > 0real,
    ;
}

proof fn lemma_square(a: real)
    ensures
        a * a >= 0real,
{
    assert(a * a >= 0real) by (nonlinear_arith);
}

proof fn lemma_fractions(a: real, b: real, c: real, d: real)
    requires
        b > 0real,
        d > 0real,
        c * b - a * d > 0real,
    ensures
        a / b < c / d,
{
    assert(a / b < c / d) by (nonlinear_arith)
        requires
            b > 0real,
            d > 0real,
            c * b - a * d > 0real,
    ;
}

pub(crate) proof fn lemma_quotient(a: real, b: real)
    requires
        b != 0real,
    ensures
        (a / b) * b == a,
{
    assert((a / b) * b == a) by (nonlinear_arith)
        requires
            b != 0real,
    ;
}

proof fn lemma_associates(a: real, b: real, c: real)
    ensures
        (a * b) * c == a * (b * c),
{
    assert((a * b) * c == a * (b * c)) by (nonlinear_arith);
}

proof fn lemma_distributes_right(a: real, b: real, x: real)
    ensures
        (a + b) * x == a * x + b * x,
        (a - b) * x == a * x - b * x,
{
    assert((a + b) * x == a * x + b * x) by (nonlinear_arith);
    assert((a - b) * x == a * x - b * x) by (nonlinear_arith);
}

/// Numbers with the same positive multiple are the same.
proof fn lemma_cancel(x: real, y: real, m: real)
    requires
        x * m == y * m,
        m > 0real,
    ensures
        x == y,
{
    lemma_distributes_right(x, y, m);
    lemma_distributes_right(y, x, m);
    if x > y {
        lemma_positive(x - y, m);
    } else if x < y {
        lemma_positive(y - x, m);
    }
}

/// What a piece is divided by is never zero.
pub(crate) proof fn lemma_denominator(p: Piece, t: real)
    requires
        p.rises(),
        0real <= t <= 1real,
    ensures
        p.denominator(t) > 0real,
{
    let (d, s, n) = (p.delta, p.slope, p.next_slope);
    let w = t * (1real - t);
    lemma_not_negative(t, 1real - t);
    assert(1real - 2real * (t * (1real - t)) == t * t + (1real - t) * (1real - t))
        by (nonlinear_arith);
    lemma_square(t);
    lemma_square(1real - t);
    assert(d + (s + n - d * 2real) * w == d * (1real - 2real * w) + (s + n) * w)
        by (nonlinear_arith);
    lemma_not_negative(d, 1real - 2real * w);
    lemma_not_negative(s + n, w);
    if w > 0real {
        lemma_positive(s + n, w);
    } else {
        lemma_positive(d, 1real - 2real * w);
    }
}

proof fn lemma_swap(s: real, b: real, x: real, y: real)
    ensures
        (s * x) * (b * y) == (s * y) * (b * x),
{
    assert((s * x) * (b * y) == (s * y) * (b * x)) by (nonlinear_arith);
}

proof fn lemma_gather(d: real, b: real, x: real, y: real)
    ensures
        (d * x) * d == (d * d) * x,
        (d * x) * (b * y) == (d * b) * (x * y),
        (b * y) * d == (d * b) * y,
{
    assert((d * x) * d == (d * d) * x) by (nonlinear_arith);
    assert((d * x) * (b * y) == (d * b) * (x * y)) by (nonlinear_arith);
    assert((b * y) * d == (d * b) * y) by (nonlinear_arith);
}

proof fn lemma_differences(u: real, v: real)
    ensures
        v * v - u * u == (v - u) * (u + v),
        (v * v) * (u * (1real - u)) - (u * u) * (v * (1real - v)) == (v - u) * (u * v),
        v * (1real - v) - u * (1real - u) == (v - u) * (1real - (u + v)),
        (1real - u) * (1real - v) == 1real - (u + v) + u * v,
        u * (1real - v) + v * (1real - u) == (u + v) - 2real * (u * v),
{
    assert(v * v - u * u == (v - u) * (u + v)) by (nonlinear_arith);
    assert((v * v) * (u * (1real - u)) - (u * u) * (v * (1real - v)) == (v - u) * (u * v))
        by (nonlinear_arith);
    assert(v * (1real - v) - u * (1real - u) == (v - u) * (1real - (u + v))) by (nonlinear_arith);
    assert((1real - u) * (1real - v) == 1real - (u + v) + u * v) by (nonlinear_arith);
    assert(u * (1real - v) + v * (1real - u) == (u + v) - 2real * (u * v)) by (nonlinear_arith);
}

proof fn lemma_factor(d: real, b: real, x: real, p: real)
    ensures
        (d * b) * (x * p) == x * (d * (b * p)),
{
    assert((d * b) * (x * p) == x * (d * (b * p))) by (nonlinear_arith);
}

/// The difference of two heights, over both denominators.
proof fn lemma_cross(p: Piece, u: real, v: real)
    ensures
        p.numerator(v) * p.denominator(u) - p.numerator(u) * p.denominator(v) == (v - u) * (p.delta
            * (p.slope * ((1real - u) * (1real - v)) + p.delta * (u * (1real - v) + v * (1real - u))
            + p.next_slope * (u * v))),
{
    let (d, s, n, b) = (p.delta, p.slope, p.next_slope, p.bend());
    let (pu, pv, qu, qv) = (u * u, v * v, u * (1real - u), v * (1real - v));
    lemma_sums(d * pv, s * qv, d, b * qu);
    lemma_sums(d * pu, s * qu, d, b * qv);
    lemma_swap(s, b, qv, qu);
    lemma_gather(d, b, pv, qu);
    lemma_gather(d, b, pu, qv);
    lemma_gather(d, s, pv, qv);
    lemma_gather(d, s, pu, qu);
    lemma_distributes(d * d, pv, pu);
    lemma_distributes(d * b, pv * qu, pu * qv);
    lemma_distributes(d * s, qv, qu);
    lemma_differences(u, v);
    let (x, y, z) = (v - u, u + v, u * v);
    lemma_factor(d, d, x, y);
    lemma_factor(d, b, x, z);
    lemma_factor(d, s, x, 1real - y);
    lemma_distributes(x, d * (d * y), d * (b * z));
    lemma_distributes(x, d * (d * y) + d * (b * z), d * (s * (1real - y)));
    lemma_distributes(d, d * y, b * z);
    lemma_distributes(d, d * y + b * z, s * (1real - y));
    assert(b * z == s * z + n * z - 2real * (d * z)) by (nonlinear_arith)
        requires
            b == s + n - d * 2real,
    ;
    lemma_distributes(s, 1real - y, z);
    assert(d * (y - 2real * z) == d * y - 2real * (d * z)) by (nonlinear_arith);
}

/// A piece rises strictly.
pub proof fn lemma_rises(p: Piece, u: real, v: real)
    requires
        p.rises(),
        0real <= u < v <= 1real,
    ensures
        p.part(u) < p.part(v),
{
    let (d, s, n) = (p.delta, p.slope, p.next_slope);
    lemma_denominator(p, u);
    lemma_denominator(p, v);
    let a = (1real - u) * (1real - v);
    let b = u * (1real - v) + v * (1real - u);
    let c = u * v;
    lemma_not_negative(1real - u, 1real - v);
    lemma_not_negative(u, 1real - v);
    lemma_not_negative(v, 1real - u);
    lemma_not_negative(u, v);
    lemma_differences(u, v);
    assert(a + b + c == 1real);
    lemma_not_negative(s, a);
    lemma_not_negative(d, b);
    lemma_not_negative(n, c);
    if a > 0real {
        lemma_positive(s, a);
    } else if b > 0real {
        lemma_positive(d, b);
    } else {
        lemma_positive(n, c);
    }
    let k = s * a + d * b + n * c;
    assert(k > 0real);
    lemma_positive(d, k);
    lemma_positive(v - u, d * k);
    lemma_cross(p, u, v);
    lemma_fractions(p.numerator(u), p.denominator(u), p.numerator(v), p.denominator(v));
}

/// A piece begins at the bottom and ends at the top.
pub proof fn lemma_ends(p: Piece)
    requires
        p.rises(),
    ensures
        p.part(0real) == 0real,
        p.part(1real) == 1real,
{
    let d = p.delta;
    let b = p.bend();
    lemma_denominator(p, 0real);
    lemma_denominator(p, 1real);
    assert(p.numerator(0real) == 0real && p.denominator(0real) == d && p.numerator(1real) == d
        && p.denominator(1real) == d) by {
        assert(d * (0real * 0real) + p.slope * (0real * (1real - 0real)) == 0real)
            by (nonlinear_arith);
        assert(d * (1real * 1real) + p.slope * (1real * (1real - 1real)) == d)
            by (nonlinear_arith);
        assert(b * (0real * (1real - 0real)) == 0real) by (nonlinear_arith);
        assert(b * (1real * (1real - 1real)) == 0real) by (nonlinear_arith);
    }
    assert(0real / d == 0real && d / d == 1real) by (nonlinear_arith)
        requires
            d > 0real,
    ;
}

proof fn lemma_monotone_square(a: real, b: real)
    requires
        0real <= a,
        a <= b,
    ensures
        a * a <= b * b,
{
    assert(a * a <= b * b) by (nonlinear_arith)
        requires
            0real <= a,
            a <= b,
    ;
}

proof fn lemma_strict_square(a: real, b: real)
    requires
        0real <= a,
        a < b,
    ensures
        a * a < b * b,
{
    assert(a * a < b * b) by (nonlinear_arith)
        requires
            0real <= a,
            a < b,
    ;
}

/// A quadratic equation with a last coefficient that is not positive, and coefficients whose sum is
/// not negative, has a root between 0 and 1.
pub proof fn lemma_root(a: real, b: real, c: real, q: real, t: real)
    requires
        c <= 0real,
        a + b + c >= 0real,
        c == 0real ==> b > 0real,
        q >= 0real,
        q * q == b * b - 4real * (a * c),
        t == (2real * c) / (-b - q),
    ensures
        0real <= t <= 1real,
        a * (t * t) + b * t + c == 0real,
{
    let m = b + q;
    assert(m > 0real) by {
        if b <= 0real {
            lemma_positive(a, -c);
            assert(a * (-c) == -(a * c)) by (nonlinear_arith);
            if q <= -b {
                lemma_monotone_square(q, -b);
                assert((-b) * (-b) == b * b) by (nonlinear_arith);
            }
        }
    }
    lemma_quotient(2real * c, -b - q);
    assert(t * (-b - q) == -(t * m)) by (nonlinear_arith)
        requires
            m == b + q,
    ;
    assert(t * m == -2real * c);
    assert(t >= 0real) by {
        if t < 0real {
            lemma_positive(-t, m);
            assert((-t) * m == -(t * m)) by (nonlinear_arith);
        }
    }
    assert((2real * c + b) * (2real * c + b) == b * b + 4real * (c * (b + c))) by (nonlinear_arith);
    assert(t <= 1real) by {
        if t > 1real {
            lemma_positive(t - 1real, m);
            assert((t - 1real) * m == t * m - m) by (nonlinear_arith);
            let g = -2real * c - b;
            assert(g > q);
            lemma_strict_square(q, g);
            assert(g * g == (2real * c + b) * (2real * c + b)) by (nonlinear_arith)
                requires
                    g == -2real * c - b,
            ;
            assert(c * (b + c) + a * c == c * (a + b + c)) by (nonlinear_arith);
            lemma_not_negative(-c, a + b + c);
            assert((-c) * (a + b + c) == -(c * (a + b + c))) by (nonlinear_arith);
        }
    }
    lemma_solves(a, b, c, q, t);
}

proof fn lemma_solves(a: real, b: real, c: real, q: real, t: real)
    requires
        q * q == b * b - 4real * (a * c),
        t * (b + q) == -2real * c,
        c == 0real ==> b + q > 0real,
        b + q > 0real,
    ensures
        a * (t * t) + b * t + c == 0real,
{
    lemma_distributes(t, b, q);
    let e = -2real * c - t * b;
    assert(t * q == e);
    assert((t * q) * (t * q) == (t * t) * (q * q)) by (nonlinear_arith);
    lemma_distributes(t * t, b * b, 4real * (a * c));
    assert((t * t) * (b * b) == (t * b) * (t * b)) by (nonlinear_arith);
    assert((t * t) * (4real * (a * c)) == 4real * (c * (a * (t * t)))) by (nonlinear_arith);
    let w = t * b;
    assert(e * e == 4real * (c * c) + 4real * (c * w) + w * w) by (nonlinear_arith)
        requires
            e == -2real * c - w,
    ;
    assert(c * (a * (t * t)) + c * c + c * w == 0real);
    lemma_distributes(c, a * (t * t), w);
    lemma_distributes(c, a * (t * t) + w, c);
    assert(c * (a * (t * t) + w + c) == 0real);
    assert(t * b == b * t) by (nonlinear_arith);
    if c == 0real {
        assert(t == 0real) by (nonlinear_arith)
            requires
                t * (b + q) == 0real,
                b + q > 0real,
        ;
        assert(a * (0real * 0real) == 0real) by (nonlinear_arith);
        assert(b * 0real == 0real) by (nonlinear_arith);
    } else {
        let f = a * (t * t) + w + c;
        assert(f == 0real) by (nonlinear_arith)
            requires
                c * f == 0real,
                c != 0real,
        ;
    }
}

/// The discriminant of such an equation is not negative.
pub proof fn lemma_discriminant(a: real, b: real, c: real)
    requires
        c <= 0real,
        a + b + c >= 0real,
    ensures
        b * b - 4real * (a * c) >= 0real,
{
    lemma_square(b);
    if a >= 0real {
        lemma_not_negative(a, -c);
        assert(a * (-c) == -(a * c)) by (nonlinear_arith);
    } else {
        let g = -a - c;
        lemma_monotone_square(g, b);
        assert((-a - c) * (-a - c) == (a - c) * (a - c) + 4real * (a * c)) by (nonlinear_arith);
        lemma_square(a - c);
    }
}

/// The coefficients of the equation for the place at which a piece of height `h` has risen by `r`.
pub open spec fn coefficients(p: Piece, h: real, r: real) -> (real, real, real) {
    let bent = r * p.bend();
    (h * (p.delta - p.slope) + bent, h * p.slope - bent, -(p.delta * r))
}

/// A root between 0 and 1 of that equation is the place at which the piece has risen by `r`.
pub proof fn lemma_place(p: Piece, h: real, r: real, t: real)
    requires
        p.rises(),
        h > 0real,
        0real <= t <= 1real,
        ({
            let (a, b, c) = coefficients(p, h, r);
            a * (t * t) + b * t + c == 0real
        }),
    ensures
        h * p.part(t) == r,
{
    let (d, s, e) = (p.delta, p.slope, p.bend());
    let bent = r * e;
    let (x, y) = (t * t, t * (1real - t));
    assert(t * (1real - t) == t - t * t) by (nonlinear_arith);
    lemma_distributes(h, d, s);
    lemma_distributes_right(h * (d - s), bent, x);
    lemma_distributes_right(h * d, h * s, x);
    lemma_associates(h, d, x);
    lemma_associates(h, s, x);
    lemma_distributes_right(h * s, bent, t);
    lemma_associates(h, s, t);
    lemma_distributes(s, y, x);
    lemma_distributes(h, s * y, s * x);
    lemma_distributes(bent, y, x);
    lemma_distributes(h, d * x, s * y);
    lemma_associates(r, e, y);
    assert(d * r == r * d) by (nonlinear_arith);
    lemma_distributes(r, d, e * y);
    let (n, m) = (p.numerator(t), p.denominator(t));
    assert(h * n == r * m);
    lemma_denominator(p, t);
    lemma_quotient(n, m);
    let f = n / m;
    lemma_associates(h, f, m);
    lemma_cancel(h * f, r, m);
}

/// What the coefficients promise.
pub proof fn lemma_coefficients(p: Piece, h: real, r: real)
    requires
        p.rises(),
        h > 0real,
        0real <= r <= h,
    ensures
        ({
            let (a, b, c) = coefficients(p, h, r);
            &&& c <= 0real
            &&& a + b + c >= 0real
            &&& c == 0real ==> b > 0real
        }),
{
    let (d, s, e) = (p.delta, p.slope, p.bend());
    lemma_not_negative(d, r);
    assert(h * (d - s) + h * s == h * d) by (nonlinear_arith);
    assert(h * d - d * r == d * (h - r)) by (nonlinear_arith);
    lemma_not_negative(d, h - r);
    if d * r == 0real {
        assert(r == 0real) by (nonlinear_arith)
            requires
                d * r == 0real,
                d > 0real,
        ;
        assert(0real * e == 0real) by (nonlinear_arith);
        lemma_positive(h, s);
    }
}

} // verus!
