//! Quaternions over the integers: the exact algebra that the fixed-point
//! operations round.
//!
//! Nothing here is executable. The identities are those of Hamilton's
//! algebra; the rounded operations of the other modules are stated in terms
//! of `Exact::times`, so these are the facts that hold of their results
//! before rounding.

use crate::fixed::{round_div, unit};
use vstd::arithmetic::mul::lemma_mul_is_associative;
use vstd::prelude::*;

verus! {

/// A quaternion with integer components: `a + b i + c j + d k`.
pub struct Exact {
    pub a: int,
    pub b: int,
    pub c: int,
    pub d: int,
}

impl Exact {
    /// The Hamilton product `self * rhs`.
    pub open spec fn times(self, rhs: Exact) -> Exact {
        Exact {
            a: self.a * rhs.a - self.b * rhs.b - self.c * rhs.c - self.d * rhs.d,
            b: self.a * rhs.b + self.b * rhs.a + self.c * rhs.d - self.d * rhs.c,
            c: self.a * rhs.c - self.b * rhs.d + self.c * rhs.a + self.d * rhs.b,
            d: self.a * rhs.d + self.b * rhs.c - self.c * rhs.b + self.d * rhs.a,
        }
    }

    /// Every component multiplied by `k`.
    pub open spec fn scaled(self, k: int) -> Exact {
        Exact { a: self.a * k, b: self.b * k, c: self.c * k, d: self.d * k }
    }

    /// The conjugate `a - b i - c j - d k`.
    pub open spec fn conjugate(self) -> Exact {
        Exact { a: self.a, b: -self.b, c: -self.c, d: -self.d }
    }

    /// The squared norm `a^2 + b^2 + c^2 + d^2`.
    pub open spec fn norm_squared(self) -> int {
        self.a * self.a + self.b * self.b + self.c * self.c + self.d * self.d
    }

    /// The difference `self - rhs`, component by component.
    pub open spec fn minus(self, rhs: Exact) -> Exact {
        Exact { a: self.a - rhs.a, b: self.b - rhs.b, c: self.c - rhs.c, d: self.d - rhs.d }
    }

    /// Whether every component has magnitude at most `bound`.
    pub open spec fn within(self, bound: int) -> bool {
        &&& -bound <= self.a <= bound
        &&& -bound <= self.b <= bound
        &&& -bound <= self.c <= bound
        &&& -bound <= self.d <= bound
    }

    /// Every component divided by the unit and rounded to the nearest
    /// integer, without any clamping.
    pub open spec fn rounded(self) -> Exact {
        Exact {
            a: round_div(self.a, unit()),
            b: round_div(self.b, unit()),
            c: round_div(self.c, unit()),
            d: round_div(self.d, unit()),
        }
    }
}

/// Multiplying by a real number from either side scales every component.
pub proof fn lemma_times_real(k: int, p: Exact)
    ensures
        (Exact { a: k, b: 0, c: 0, d: 0 }).times(p) == p.scaled(k),
        p.times(Exact { a: k, b: 0, c: 0, d: 0 }) == p.scaled(k),
{
    let scalar = Exact { a: k, b: 0, c: 0, d: 0 };
    let left = scalar.times(p);
    let right = p.times(scalar);
    let scaled = p.scaled(k);
    assert(left.a == scaled.a && left.b == scaled.b && left.c == scaled.c && left.d == scaled.d
        && right.a == scaled.a && right.b == scaled.b && right.c == scaled.c && right.d
        == scaled.d) by (nonlinear_arith)
        requires
            left == scalar.times(p),
            right == p.times(scalar),
            scaled == p.scaled(k),
            scalar == (Exact { a: k, b: 0, c: 0, d: 0 }),
    ;
}

/// The square of `u1 + u2 + u3 - u4`, written out.
proof fn lemma_square_of_sum(u1: int, u2: int, u3: int, u4: int)
    ensures
        (u1 + u2 + u3 - u4) * (u1 + u2 + u3 - u4) == u1 * u1 + u2 * u2 + u3 * u3 + u4 * u4 + 2 * (
        u1 * u2) + 2 * (u1 * u3) + 2 * (u2 * u3) - 2 * (u1 * u4) - 2 * (u2 * u4) - 2 * (u3 * u4),
        (u4 - u1 - u2 - u3) * (u4 - u1 - u2 - u3) == (u1 + u2 + u3 - u4) * (u1 + u2 + u3 - u4),
{
    assert((u1 + u2 + u3 - u4) * (u1 + u2 + u3 - u4) == u1 * u1 + u2 * u2 + u3 * u3 + u4 * u4 + 2
        * (u1 * u2) + 2 * (u1 * u3) + 2 * (u2 * u3) - 2 * (u1 * u4) - 2 * (u2 * u4) - 2 * (u3
        * u4)) by (nonlinear_arith);
    assert((u4 - u1 - u2 - u3) * (u4 - u1 - u2 - u3) == (u1 + u2 + u3 - u4) * (u1 + u2 + u3
        - u4)) by (nonlinear_arith);
}

/// A sum of four terms times a factor, written out.
proof fn lemma_sum_times(x1: int, x2: int, x3: int, x4: int, y: int)
    ensures
        (x1 + x2 + x3 + x4) * y == x1 * y + x2 * y + x3 * y + x4 * y,
        y * (x1 + x2 + x3 + x4) == y * x1 + y * x2 + y * x3 + y * x4,
{
    assert((x1 + x2 + x3 + x4) * y == x1 * y + x2 * y + x3 * y + x4 * y && y * (x1 + x2 + x3
        + x4) == y * x1 + y * x2 + y * x3 + y * x4) by (nonlinear_arith);
}

/// The product of four numbers does not depend on how they are paired:
/// `(x y)(z w)`, `(x w)(z y)` and their mirror images are all equal.
proof fn lemma_pairings(x: int, y: int, z: int, w: int)
    ensures
        (x * y) * (z * w) == (x * w) * (z * y),
        (z * w) * (x * y) == (x * w) * (z * y),
        (z * y) * (x * w) == (x * w) * (z * y),
{
    assert((x * y) * (z * w) == (x * w) * (z * y) && (z * w) * (x * y) == (x * w) * (z * y) && (z
        * y) * (x * w) == (x * w) * (z * y)) by (nonlinear_arith);
}

/// `x^2 y^2 = (x y)^2`.
proof fn lemma_square_of_product(x: int, y: int)
    ensures
        (x * x) * (y * y) == (x * y) * (x * y),
        (y * y) * (x * x) == (x * y) * (x * y),
{
    assert((x * x) * (y * y) == (x * y) * (x * y) && (y * y) * (x * x) == (x * y) * (x * y))
        by (nonlinear_arith);
}

/// The norm is multiplicative: the squared norm of a product is the product
/// of the squared norms.
pub proof fn lemma_norm_of_product(p: Exact, q: Exact)
    ensures
        p.times(q).norm_squared() == p.norm_squared() * q.norm_squared(),
{
    let (a, b, c, d) = (p.a, p.b, p.c, p.d);
    let (e, f, g, h) = (q.a, q.b, q.c, q.d);
    // The four components squared.
    lemma_square_of_sum(b * f, c * g, d * h, a * e);
    lemma_square_of_sum(a * f, b * e, c * h, d * g);
    lemma_square_of_sum(a * g, c * e, d * f, b * h);
    lemma_square_of_sum(a * h, b * g, d * e, c * f);
    // The mixed terms cancel in pairs.
    lemma_pairings(b, f, c, g);
    lemma_pairings(b, f, d, h);
    lemma_pairings(c, g, d, h);
    lemma_pairings(a, e, b, f);
    lemma_pairings(a, e, c, g);
    lemma_pairings(a, e, d, h);
    lemma_pairings(a, f, c, h);
    lemma_pairings(b, e, c, h);
    lemma_pairings(a, f, d, g);
    lemma_pairings(b, e, d, g);
    lemma_pairings(c, e, d, f);
    lemma_pairings(a, g, b, h);
    // The squares that remain are the sixteen terms of the right-hand side.
    let n = e * e + f * f + g * g + h * h;
    lemma_sum_times(a * a, b * b, c * c, d * d, n);
    lemma_sum_times(e * e, f * f, g * g, h * h, a * a);
    lemma_sum_times(e * e, f * f, g * g, h * h, b * b);
    lemma_sum_times(e * e, f * f, g * g, h * h, c * c);
    lemma_sum_times(e * e, f * f, g * g, h * h, d * d);
    lemma_square_of_product(a, e);
    lemma_square_of_product(a, f);
    lemma_square_of_product(a, g);
    lemma_square_of_product(a, h);
    lemma_square_of_product(b, e);
    lemma_square_of_product(b, f);
    lemma_square_of_product(b, g);
    lemma_square_of_product(b, h);
    lemma_square_of_product(c, e);
    lemma_square_of_product(c, f);
    lemma_square_of_product(c, g);
    lemma_square_of_product(c, h);
    lemma_square_of_product(d, e);
    lemma_square_of_product(d, f);
    lemma_square_of_product(d, g);
    lemma_square_of_product(d, h);
}

/// The four sign patterns of a component of a product, times a factor
/// from either side, written out.
proof fn lemma_component_times(x1: int, x2: int, x3: int, x4: int, y: int)
    ensures
        (x1 - x2 - x3 - x4) * y == x1 * y - x2 * y - x3 * y - x4 * y,
        (x1 + x2 + x3 - x4) * y == x1 * y + x2 * y + x3 * y - x4 * y,
        (x1 - x2 + x3 + x4) * y == x1 * y - x2 * y + x3 * y + x4 * y,
        (x1 + x2 - x3 + x4) * y == x1 * y + x2 * y - x3 * y + x4 * y,
        y * (x1 - x2 - x3 - x4) == y * x1 - y * x2 - y * x3 - y * x4,
        y * (x1 + x2 + x3 - x4) == y * x1 + y * x2 + y * x3 - y * x4,
        y * (x1 - x2 + x3 + x4) == y * x1 - y * x2 + y * x3 + y * x4,
        y * (x1 + x2 - x3 + x4) == y * x1 + y * x2 - y * x3 + y * x4,
{
    assert((x1 - x2 - x3 - x4) * y == x1 * y - x2 * y - x3 * y - x4 * y) by (nonlinear_arith);
    assert((x1 + x2 + x3 - x4) * y == x1 * y + x2 * y + x3 * y - x4 * y) by (nonlinear_arith);
    assert((x1 - x2 + x3 + x4) * y == x1 * y - x2 * y + x3 * y + x4 * y) by (nonlinear_arith);
    assert((x1 + x2 - x3 + x4) * y == x1 * y + x2 * y - x3 * y + x4 * y) by (nonlinear_arith);
    assert(y * (x1 - x2 - x3 - x4) == y * x1 - y * x2 - y * x3 - y * x4) by (nonlinear_arith);
    assert(y * (x1 + x2 + x3 - x4) == y * x1 + y * x2 + y * x3 - y * x4) by (nonlinear_arith);
    assert(y * (x1 - x2 + x3 + x4) == y * x1 - y * x2 + y * x3 + y * x4) by (nonlinear_arith);
    assert(y * (x1 + x2 - x3 + x4) == y * x1 + y * x2 - y * x3 + y * x4) by (nonlinear_arith);
}

/// `(x y) z = x (y z)` for `y` one component of `q`, and `z` each component
/// of `r`.
proof fn lemma_regroup(x: int, y: int, r: Exact)
    ensures
        (x * y) * r.a == x * (y * r.a),
        (x * y) * r.b == x * (y * r.b),
        (x * y) * r.c == x * (y * r.c),
        (x * y) * r.d == x * (y * r.d),
{
    lemma_mul_is_associative(x, y, r.a);
    lemma_mul_is_associative(x, y, r.b);
    lemma_mul_is_associative(x, y, r.c);
    lemma_mul_is_associative(x, y, r.d);
}

/// One component of `p`, times each component of `q`, regrouped with each
/// component of `r`.
proof fn lemma_regroup_all(x: int, q: Exact, r: Exact)
    ensures
        (x * q.a) * r.a == x * (q.a * r.a),
        (x * q.a) * r.b == x * (q.a * r.b),
        (x * q.a) * r.c == x * (q.a * r.c),
        (x * q.a) * r.d == x * (q.a * r.d),
        (x * q.b) * r.a == x * (q.b * r.a),
        (x * q.b) * r.b == x * (q.b * r.b),
        (x * q.b) * r.c == x * (q.b * r.c),
        (x * q.b) * r.d == x * (q.b * r.d),
        (x * q.c) * r.a == x * (q.c * r.a),
        (x * q.c) * r.b == x * (q.c * r.b),
        (x * q.c) * r.c == x * (q.c * r.c),
        (x * q.c) * r.d == x * (q.c * r.d),
        (x * q.d) * r.a == x * (q.d * r.a),
        (x * q.d) * r.b == x * (q.d * r.b),
        (x * q.d) * r.c == x * (q.d * r.c),
        (x * q.d) * r.d == x * (q.d * r.d),
{
    lemma_regroup(x, q.a, r);
    lemma_regroup(x, q.b, r);
    lemma_regroup(x, q.c, r);
    lemma_regroup(x, q.d, r);
}

/// The product is associative.
pub proof fn lemma_times_associative(p: Exact, q: Exact, r: Exact)
    ensures
        p.times(q).times(r) == p.times(q.times(r)),
{
    let (a, b, c, d) = (p.a, p.b, p.c, p.d);
    let (e, f, g, h) = (q.a, q.b, q.c, q.d);
    let (s, t, u, v) = (r.a, r.b, r.c, r.d);
    // Each component of `p q`, times each component of `r`.
    lemma_component_times(a * e, b * f, c * g, d * h, s);
    lemma_component_times(a * e, b * f, c * g, d * h, t);
    lemma_component_times(a * e, b * f, c * g, d * h, u);
    lemma_component_times(a * e, b * f, c * g, d * h, v);
    lemma_component_times(a * f, b * e, c * h, d * g, s);
    lemma_component_times(a * f, b * e, c * h, d * g, t);
    lemma_component_times(a * f, b * e, c * h, d * g, u);
    lemma_component_times(a * f, b * e, c * h, d * g, v);
    lemma_component_times(a * g, b * h, c * e, d * f, s);
    lemma_component_times(a * g, b * h, c * e, d * f, t);
    lemma_component_times(a * g, b * h, c * e, d * f, u);
    lemma_component_times(a * g, b * h, c * e, d * f, v);
    lemma_component_times(a * h, b * g, c * f, d * e, s);
    lemma_component_times(a * h, b * g, c * f, d * e, t);
    lemma_component_times(a * h, b * g, c * f, d * e, u);
    lemma_component_times(a * h, b * g, c * f, d * e, v);
    // Each component of `p`, times each component of `q r`.
    lemma_component_times(e * s, f * t, g * u, h * v, a);
    lemma_component_times(e * s, f * t, g * u, h * v, b);
    lemma_component_times(e * s, f * t, g * u, h * v, c);
    lemma_component_times(e * s, f * t, g * u, h * v, d);
    lemma_component_times(e * t, f * s, g * v, h * u, a);
    lemma_component_times(e * t, f * s, g * v, h * u, b);
    lemma_component_times(e * t, f * s, g * v, h * u, c);
    lemma_component_times(e * t, f * s, g * v, h * u, d);
    lemma_component_times(e * u, f * v, g * s, h * t, a);
    lemma_component_times(e * u, f * v, g * s, h * t, b);
    lemma_component_times(e * u, f * v, g * s, h * t, c);
    lemma_component_times(e * u, f * v, g * s, h * t, d);
    lemma_component_times(e * v, f * u, g * t, h * s, a);
    lemma_component_times(e * v, f * u, g * t, h * s, b);
    lemma_component_times(e * v, f * u, g * t, h * s, c);
    lemma_component_times(e * v, f * u, g * t, h * s, d);
    // The sixty-four products of three components agree.
    lemma_regroup_all(a, q, r);
    lemma_regroup_all(b, q, r);
    lemma_regroup_all(c, q, r);
    lemma_regroup_all(d, q, r);
}

/// Conjugation reverses a product.
pub proof fn lemma_conjugate_of_product(p: Exact, q: Exact)
    ensures
        p.times(q).conjugate() == q.conjugate().times(p.conjugate()),
{
    let left = p.times(q).conjugate();
    let right = q.conjugate().times(p.conjugate());
    assert(left.a == right.a && left.b == right.b && left.c == right.c && left.d == right.d)
        by (nonlinear_arith)
        requires
            left == p.times(q).conjugate(),
            right == q.conjugate().times(p.conjugate()),
    ;
}

/// A quaternion times its conjugate, in either order, is its squared norm.
pub proof fn lemma_times_conjugate(q: Exact)
    ensures
        q.times(q.conjugate()) == (Exact { a: q.norm_squared(), b: 0, c: 0, d: 0 }),
        q.conjugate().times(q) == (Exact { a: q.norm_squared(), b: 0, c: 0, d: 0 }),
{
    let left = q.times(q.conjugate());
    let right = q.conjugate().times(q);
    let n = q.norm_squared();
    assert(left.a == n && left.b == 0 && left.c == 0 && left.d == 0 && right.a == n && right.b
        == 0 && right.c == 0 && right.d == 0) by (nonlinear_arith)
        requires
            left == q.times(q.conjugate()),
            right == q.conjugate().times(q),
            n == q.norm_squared(),
    ;
}

/// Scaling either factor scales the product.
pub proof fn lemma_times_scaled(p: Exact, q: Exact, k: int)
    ensures
        p.scaled(k).times(q) == p.times(q).scaled(k),
        p.times(q.scaled(k)) == p.times(q).scaled(k),
{
    let scalar = Exact { a: k, b: 0, c: 0, d: 0 };
    lemma_times_real(k, p);
    lemma_times_real(k, q);
    lemma_times_real(k, p.times(q));
    lemma_times_associative(scalar, p, q);
    lemma_times_associative(p, q, scalar);
}

/// Conjugating a pure quaternion `p` by `q` gives a pure quaternion again:
/// the real part of `q p q'` is zero, where `q'` is the conjugate of `q`.
pub proof fn lemma_conjugation_is_pure(q: Exact, p: Exact)
    requires
        p.a == 0,
    ensures
        q.times(p).times(q.conjugate()).a == 0,
{
    let x = q.times(p).times(q.conjugate());
    assert(p.conjugate() == p.scaled(-1));
    assert(q.conjugate().conjugate() == q);
    lemma_conjugate_of_product(q.times(p), q.conjugate());
    lemma_conjugate_of_product(q, p);
    lemma_times_scaled(p, q.conjugate(), -1);
    lemma_times_scaled(q, p.times(q.conjugate()), -1);
    lemma_times_associative(q, p, q.conjugate());
    assert(x.conjugate() == x.scaled(-1));
}

/// Conjugation by `q` multiplies the squared norm by the square of that of
/// `q`; where `q` has norm one, the length is kept.
pub proof fn lemma_conjugation_norm(q: Exact, p: Exact)
    ensures
        q.times(p).times(q.conjugate()).norm_squared() == q.norm_squared() * p.norm_squared()
            * q.norm_squared(),
{
    lemma_norm_of_product(q.times(p), q.conjugate());
    lemma_norm_of_product(q, p);
    let c = q.conjugate();
    assert(c.norm_squared() == q.norm_squared()) by (nonlinear_arith)
        requires
            c == q.conjugate(),
    ;
}

/// Conjugating by `q` and then by its conjugate returns the quaternion
/// scaled by the square of the squared norm of `q`; where `q` has norm one,
/// the second rotation undoes the first.
pub proof fn lemma_conjugation_round_trip(q: Exact, p: Exact)
    ensures
        q.conjugate().times(q.times(p).times(q.conjugate())).times(q) == p.scaled(
            q.norm_squared() * q.norm_squared(),
        ),
{
    let c = q.conjugate();
    let n = q.norm_squared();
    let scalar = Exact { a: n, b: 0, c: 0, d: 0 };
    // c ((q p) c) q = (c (q p)) (c q) = ((c q) p) (c q)
    lemma_times_associative(c, q.times(p).times(c), q);
    lemma_times_associative(q.times(p), c, q);
    lemma_times_associative(c, q.times(p), c.times(q));
    lemma_times_associative(c, q, p);
    lemma_times_conjugate(q);
    lemma_times_real(n, p);
    lemma_times_real(n, p.scaled(n));
    let twice = p.scaled(n).scaled(n);
    let once = p.scaled(n * n);
    assert(twice.a == once.a && twice.b == once.b && twice.c == once.c && twice.d == once.d)
        by (nonlinear_arith)
        requires
            twice == p.scaled(n).scaled(n),
            once == p.scaled(n * n),
    ;
}

/// The product of two numbers is bounded by the product of their bounds,
/// and a square lies between zero and the square of the bound.
pub proof fn lemma_product_within(x: int, y: int, bound_x: int, bound_y: int)
    requires
        -bound_x <= x <= bound_x,
        -bound_y <= y <= bound_y,
    ensures
        -(bound_x * bound_y) <= x * y <= bound_x * bound_y,
        0 <= y * y <= bound_y * bound_y,
{
    assert(-(bound_x * bound_y) <= x * y <= bound_x * bound_y) by (nonlinear_arith)
        requires
            -bound_x <= x <= bound_x,
            -bound_y <= y <= bound_y,
    ;
    assert(0 <= y * y <= bound_y * bound_y) by (nonlinear_arith)
        requires
            -bound_y <= y <= bound_y,
    ;
}

/// One component of `p` times each component of `q` is bounded.
proof fn lemma_terms_bounded(x: int, q: Exact, bound_x: int, bound_q: int)
    requires
        -bound_x <= x <= bound_x,
        q.within(bound_q),
    ensures
        -(bound_x * bound_q) <= x * q.a <= bound_x * bound_q,
        -(bound_x * bound_q) <= x * q.b <= bound_x * bound_q,
        -(bound_x * bound_q) <= x * q.c <= bound_x * bound_q,
        -(bound_x * bound_q) <= x * q.d <= bound_x * bound_q,
        q.a == 0 ==> x * q.a == 0,
{
    lemma_product_within(x, q.a, bound_x, bound_q);
    lemma_product_within(x, q.b, bound_x, bound_q);
    lemma_product_within(x, q.c, bound_x, bound_q);
    lemma_product_within(x, q.d, bound_x, bound_q);
    if q.a == 0 {
        assert(x * q.a == 0) by (nonlinear_arith)
            requires
                q.a == 0,
        ;
    }
}

/// The components of a product are bounded by four times the product of
/// the bounds of the factors, and by three times where the right factor is
/// pure.
pub proof fn lemma_times_bounded(p: Exact, q: Exact, bound_p: int, bound_q: int)
    requires
        p.within(bound_p),
        q.within(bound_q),
    ensures
        p.times(q).within(4 * (bound_p * bound_q)),
        q.a == 0 ==> p.times(q).within(3 * (bound_p * bound_q)),
{
    lemma_terms_bounded(p.a, q, bound_p, bound_q);
    lemma_terms_bounded(p.b, q, bound_p, bound_q);
    lemma_terms_bounded(p.c, q, bound_p, bound_q);
    lemma_terms_bounded(p.d, q, bound_p, bound_q);
}

/// `(u - w) z = u z - w z` and `z (u - w) = z u - z w` for `z` each
/// component of `r`.
proof fn lemma_difference_times(u: int, w: int, r: Exact)
    ensures
        (u - w) * r.a == u * r.a - w * r.a,
        (u - w) * r.b == u * r.b - w * r.b,
        (u - w) * r.c == u * r.c - w * r.c,
        (u - w) * r.d == u * r.d - w * r.d,
        r.a * (u - w) == r.a * u - r.a * w,
        r.b * (u - w) == r.b * u - r.b * w,
        r.c * (u - w) == r.c * u - r.c * w,
        r.d * (u - w) == r.d * u - r.d * w,
{
    assert((u - w) * r.a == u * r.a - w * r.a) by (nonlinear_arith);
    assert((u - w) * r.b == u * r.b - w * r.b) by (nonlinear_arith);
    assert((u - w) * r.c == u * r.c - w * r.c) by (nonlinear_arith);
    assert((u - w) * r.d == u * r.d - w * r.d) by (nonlinear_arith);
    assert(r.a * (u - w) == r.a * u - r.a * w) by (nonlinear_arith);
    assert(r.b * (u - w) == r.b * u - r.b * w) by (nonlinear_arith);
    assert(r.c * (u - w) == r.c * u - r.c * w) by (nonlinear_arith);
    assert(r.d * (u - w) == r.d * u - r.d * w) by (nonlinear_arith);
}

/// The product distributes over a difference in either factor.
pub proof fn lemma_times_minus(p: Exact, q: Exact, r: Exact)
    ensures
        p.minus(q).times(r) == p.times(r).minus(q.times(r)),
        r.times(p.minus(q)) == r.times(p).minus(r.times(q)),
{
    lemma_difference_times(p.a, q.a, r);
    lemma_difference_times(p.b, q.b, r);
    lemma_difference_times(p.c, q.c, r);
    lemma_difference_times(p.d, q.d, r);
}

} // verus!
