//! How well a rotation keeps what an exact rotation keeps: the length of
//! the vector, and the vector itself after turning there and back.
//!
//! Both hold up to rounding only. The bounds proved here are not the
//! tightest possible; they are meant to be plainly true and easy to use.

use crate::algebra::{
    lemma_conjugation_round_trip, lemma_product_within, lemma_times_bounded, lemma_times_minus,
    lemma_times_scaled,
};
use crate::fixed::{
    lemma_floor_sqrt_exists, lemma_nearest_of_whole, lemma_round_div_bounded,
    lemma_round_div_is_nearest, magnitude, round_div, unit, unit_cubed, unit_fourth,
    unit_squared, Fixed,
};
use crate::quaternion::Quaternion;
use crate::rotation::{lemma_nearest_unclamped, lemma_rotated_accuracy, lemma_rotation_quaternion};
use crate::vector::{
    lemma_divided_within_unit, lemma_normalized_within_unit, lemma_square_nonnegative,
    lemma_stretch_factor, lemma_stretched, lemma_zero_length, stretch_factor, stretch_floor,
    Vector, ROTATE_LIMIT_RAW,
};
use vstd::prelude::*;

verus! {

/// `(k x + r)^2`, written out.
proof fn lemma_binomial_square(k: int, x: int, r: int)
    ensures
        (k * x + r) * (k * x + r) == (k * k) * (x * x) + (2 * k) * (x * r) + r * r,
{
    assert((k * x + r) * (k * x + r) == (k * k) * (x * x) + (2 * k) * (x * r) + r * r)
        by (nonlinear_arith);
}

/// A positive common factor can be dropped from an inequality.
proof fn lemma_cancel_factor(k: int, a: int, b: int)
    requires
        k > 0,
        a * k <= b * k,
    ensures
        a <= b,
{
    assert(a <= b) by (nonlinear_arith)
        requires
            k > 0,
            a * k <= b * k,
    ;
}

/// The stretched form of a vector that is not zero has length at least 2^61.
pub proof fn lemma_stretched_length(v: Vector)
    requires
        !v.is_zero(),
    ensures
        v.stretched().length() >= stretch_floor(),
{
    let s = v.stretched();
    let f = stretch_factor(v.largest());
    lemma_stretched(v);
    lemma_stretch_factor(v.largest());
    let (x, y, z) = (s.x@, s.y@, s.z@);
    lemma_square_nonnegative(x);
    lemma_square_nonnegative(y);
    lemma_square_nonnegative(z);
    lemma_floor_sqrt_exists(s.norm_squared());
    let m = s.length();
    let top = v.largest() * f;
    assert(magnitude(x) == top || magnitude(y) == top || magnitude(z) == top) by (nonlinear_arith)
        requires
            x == v.x@ * f,
            y == v.y@ * f,
            z == v.z@ * f,
            f >= 1,
            top == v.largest() * f,
            v.largest() == magnitude(v.x@) || v.largest() == magnitude(v.y@) || v.largest()
                == magnitude(v.z@),
    ;
    assert(m >= stretch_floor()) by (nonlinear_arith)
        requires
            m >= 0,
            x * x + y * y + z * z < (m + 1) * (m + 1),
            x * x >= 0,
            y * y >= 0,
            z * z >= 0,
            top >= stretch_floor(),
            magnitude(x) == top || magnitude(y) == top || magnitude(z) == top,
    ;
}

/// The square of a rounded quotient `q = round_div(x * 2^32, m)`, scaled by
/// `m^2`, against the square of `x`: they differ by the rounding only.
proof fn lemma_rounded_quotient_square(x: int, m: int, q: int)
    requires
        m > 0,
        -m <= x <= m,
        q == round_div(x * unit(), m),
    ensures
        4 * ((q * q) * (m * m)) >= (4 * unit_squared()) * (x * x) - (4 * unit()) * (m * m),
        4 * ((q * q) * (m * m)) <= (4 * unit_squared()) * (x * x) + (4 * unit()) * (m * m) + m
            * m,
{
    lemma_round_div_is_nearest(x * unit(), m);
    let k = 2 * unit();
    let miss = 2 * (q * m) - k * x;
    assert(-m <= miss <= m);
    lemma_binomial_square(k, x, miss);
    lemma_product_within(x, miss, m, m);
    assert((2 * (q * m)) * (2 * (q * m)) == 4 * ((q * q) * (m * m))) by (nonlinear_arith);
    assert((k * k) * (x * x) == (4 * unit_squared()) * (x * x) && (2 * k) * (x * miss) == (4
        * unit()) * (x * miss)) by (nonlinear_arith)
        requires
            k == 2 * unit(),
    ;
    assert(k * x + miss == 2 * (q * m));
}

/// A normalized vector has length one up to rounding: its squared length
/// differs from one by less than four units in the last place of the
/// length itself.
pub proof fn lemma_normalized_nearly_unit(v: Vector)
    requires
        !v.is_zero(),
    ensures
        -3 * unit() <= v.normalized().norm_squared() - unit_squared() <= 3 * unit() + 17,
{
    let s = v.stretched();
    let n = v.normalized();
    let m = s.length();
    let square = m * m;
    let (x, y, z) = (s.x@, s.y@, s.z@);
    lemma_stretched(v);
    lemma_stretched_length(v);
    lemma_divided_within_unit(s);
    lemma_zero_length(s);
    lemma_floor_sqrt_exists(s.norm_squared());
    lemma_round_div_bounded(x * unit(), m, unit());
    lemma_round_div_bounded(y * unit(), m, unit());
    lemma_round_div_bounded(z * unit(), m, unit());
    lemma_rounded_quotient_square(x, m, n.x@);
    lemma_rounded_quotient_square(y, m, n.y@);
    lemma_rounded_quotient_square(z, m, n.z@);
    // The squared length of the stretched vector lies between m^2 and m^2 + 2 m.
    let total = s.norm_squared();
    assert(square <= total <= square + 2 * m && 64 * square >= (8 * unit_squared()) * m && square
        > 0) by (nonlinear_arith)
        requires
            square == m * m,
            m * m <= total < (m + 1) * (m + 1),
            m >= stretch_floor(),
    ;
    let length = n.norm_squared();
    assert(length * square == (n.x@ * n.x@) * square + (n.y@ * n.y@) * square + (n.z@ * n.z@)
        * square) by (nonlinear_arith)
        requires
            length == n.x@ * n.x@ + n.y@ * n.y@ + n.z@ * n.z@,
    ;
    let low = 4 * unit_squared() - 12 * unit();
    let high = 4 * unit_squared() + 12 * unit() + 67;
    assert(low * square <= (4 * length) * square <= high * square) by (nonlinear_arith)
        requires
            4 * (length * square) >= (4 * unit_squared()) * square - (12 * unit()) * square,
            4 * (length * square) <= (4 * unit_squared()) * square + (12 * unit()) * square + 67
                * square,
            low == 4 * unit_squared() - 12 * unit(),
            high == 4 * unit_squared() + 12 * unit() + 67,
    ;
    lemma_cancel_factor(square, low, 4 * length);
    lemma_cancel_factor(square, 4 * length, high);
}

/// Whether `sin` and `cos` are the sine and cosine of one angle as far as
/// rounding allows: both lie between minus one and one, and their squares
/// add up to one within two units in the last place.
pub open spec fn is_half_angle(sin: Fixed, cos: Fixed) -> bool {
    &&& -unit() <= sin@ <= unit()
    &&& -unit() <= cos@ <= unit()
    &&& -2 * unit() <= sin@ * sin@ + cos@ * cos@ - unit_squared() <= 2 * unit()
}

/// The square of a rounded product `b = round_div(x * s, 2^32)`, against
/// the squares of `x` and `s`.
proof fn lemma_rounded_product_square(x: int, s: int, b: int)
    requires
        -unit() <= x <= unit(),
        -unit() <= s <= unit(),
        b == round_div(x * s, unit()),
    ensures
        (4 * unit_squared()) * (b * b) >= 4 * ((x * x) * (s * s)) - (4 * unit()) * unit_squared(),
        (4 * unit_squared()) * (b * b) <= 4 * ((x * x) * (s * s)) + (4 * unit()) * unit_squared()
            + unit_squared(),
{
    lemma_round_div_is_nearest(x * s, unit());
    let product = x * s;
    let miss = 2 * (b * unit()) - 2 * product;
    assert(-unit() <= miss <= unit());
    lemma_binomial_square(2, product, miss);
    lemma_product_within(x, s, unit(), unit());
    lemma_product_within(product, miss, unit_squared(), unit());
    assert((2 * (b * unit())) * (2 * (b * unit())) == (4 * unit_squared()) * (b * b))
        by (nonlinear_arith);
    assert(product * product == (x * x) * (s * s)) by (nonlinear_arith)
        requires
            product == x * s,
    ;
    assert(unit_squared() * unit() == unit() * unit_squared() && unit() * unit()
        == unit_squared());
    assert(2 * product + miss == 2 * (b * unit()));
}

/// The rotation quaternion about a nearly unit axis, for a sine and cosine
/// that belong together, has norm one up to rounding.
pub proof fn lemma_rotation_quaternion_nearly_unit(axis: Vector, sin: Fixed, cos: Fixed)
    requires
        axis.within(unit()),
        -3 * unit() <= axis.norm_squared() - unit_squared() <= 3 * unit() + 17,
        is_half_angle(sin, cos),
    ensures
        -8 * unit() <= Quaternion::rotation_about(axis, sin, cos)@.norm_squared() - unit_squared()
            <= 8 * unit() + 17,
{
    let q = Quaternion::rotation_about(axis, sin, cos);
    let lifted = Quaternion::pure(axis.x, axis.y, axis.z)@;
    let e = lifted.scaled(sin@);
    let (x, y, z, s) = (axis.x@, axis.y@, axis.z@, sin@);
    lemma_rotation_quaternion(axis, sin, cos);
    lemma_product_within(x, s, unit(), unit());
    lemma_product_within(y, s, unit(), unit());
    lemma_product_within(z, s, unit(), unit());
    assert(e.a == 0) by (nonlinear_arith)
        requires
            e.a == 0 * s,
    ;
    assert(unit() * unit() == unit_squared());
    lemma_nearest_unclamped(e, unit());
    lemma_nearest_of_whole(Fixed { raw: 0 });
    lemma_rounded_product_square(x, s, q.b@);
    lemma_rounded_product_square(y, s, q.c@);
    lemma_rounded_product_square(z, s, q.d@);
    let length = axis.norm_squared();
    let sine = s * s;
    assert(length * sine == (x * x) * sine + (y * y) * sine + (z * z) * sine) by (nonlinear_arith)
        requires
            length == x * x + y * y + z * z,
    ;
    let excess = length - unit_squared();
    assert(length * sine == unit_squared() * sine + excess * sine && -(3 * unit())
        * unit_squared() <= excess * sine <= (3 * unit() + 17) * unit_squared())
        by (nonlinear_arith)
        requires
            excess == length - unit_squared(),
            -3 * unit() <= excess <= 3 * unit() + 17,
            0 <= sine <= unit_squared(),
    ;
}

/// The square of the norm of a nearly unit quaternion is nearly one, and so
/// is its product with any non-negative number, relatively.
proof fn lemma_norm_squared_twice(norm: int, weight: int)
    requires
        -8 * unit() <= norm - unit_squared() <= 8 * unit() + 17,
        weight >= 0,
    ensures
        -((17 * unit_cubed()) * weight) <= (norm * weight) * norm - unit_fourth() * weight <= (17
            * unit_cubed()) * weight,
        -((17 * unit_cubed()) * weight) <= weight * (norm * norm) - unit_fourth() * weight <= (17
            * unit_cubed()) * weight,
{
    let twice = norm * norm;
    assert(-17 * unit_cubed() <= twice - unit_fourth() <= 17 * unit_cubed()) by (nonlinear_arith)
        requires
            twice == norm * norm,
            -8 * unit() <= norm - unit_squared() <= 8 * unit() + 17,
    ;
    let excess = twice - unit_fourth();
    assert((norm * weight) * norm == twice * weight && weight * twice == twice * weight && twice
        * weight == unit_fourth() * weight + excess * weight) by (nonlinear_arith)
        requires
            twice == norm * norm,
            excess == twice - unit_fourth(),
    ;
    assert(-((17 * unit_cubed()) * weight) <= excess * weight <= (17 * unit_cubed()) * weight)
        by (nonlinear_arith)
        requires
            -17 * unit_cubed() <= excess <= 17 * unit_cubed(),
            weight >= 0,
    ;
}

/// The square of one component `r` of a rotated vector, against the square
/// of the exact component `e` that it rounds.
proof fn lemma_rotated_component_square(r: int, e: int, largest: int)
    requires
        -5 * unit_squared() <= 2 * (r * unit_squared() - e) <= 5 * unit_squared(),
        -((12 * unit_squared()) * largest) <= e <= (12 * unit_squared()) * largest,
    ensures
        (4 * unit_fourth()) * (r * r) >= 4 * (e * e) - (240 * unit_fourth()) * largest,
        (4 * unit_fourth()) * (r * r) <= 4 * (e * e) + (240 * unit_fourth()) * largest + 25
            * unit_fourth(),
{
    let miss = 2 * (r * unit_squared()) - 2 * e;
    lemma_binomial_square(2, e, miss);
    lemma_product_within(e, miss, (12 * unit_squared()) * largest, 5 * unit_squared());
    assert(((12 * unit_squared()) * largest) * (5 * unit_squared()) == (60 * unit_fourth())
        * largest) by (nonlinear_arith);
    assert((5 * unit_squared()) * (5 * unit_squared()) == 25 * unit_fourth());
    assert((2 * (r * unit_squared())) * (2 * (r * unit_squared())) == (4 * unit_fourth()) * (r
        * r)) by (nonlinear_arith);
    assert(2 * e + miss == 2 * (r * unit_squared()));
}

/// A rotation keeps the length, up to rounding: the squared length changes
/// by at most 17 parts in 2^32 of itself, plus 180 times the largest
/// component of the vector, plus 19, in units of the last place.
pub proof fn lemma_rotation_keeps_length(v: Vector, axis: Vector, half_sin: Fixed, half_cos: Fixed)
    requires
        v.rotatable(half_sin, half_cos),
        !axis.is_zero(),
        is_half_angle(half_sin, half_cos),
    ensures
        ({
            let rotated = v.rotated(axis, half_sin, half_cos);
            let change = rotated.norm_squared() - v.norm_squared();
            let slack = 17 * v.norm_squared() + (180 * v.largest() + 19) * unit();
            -slack <= unit() * change <= slack
        }),
{
    let n = axis.normalized();
    let p = Quaternion::pure(v.x, v.y, v.z)@;
    let q = Quaternion::rotation_about(n, half_sin, half_cos)@;
    let e = v.exact_rotation(n, half_sin, half_cos);
    let r = v.rotated(axis, half_sin, half_cos);
    let largest = v.largest();
    lemma_normalized_within_unit(axis);
    lemma_normalized_nearly_unit(axis);
    lemma_rotation_quaternion(n, half_sin, half_cos);
    lemma_rotation_quaternion_nearly_unit(n, half_sin, half_cos);
    lemma_rotated_accuracy(v, axis, half_sin, half_cos);
    // No component of the exact conjugation exceeds twelve times the largest
    // component of the vector.
    assert(p.within(largest));
    lemma_times_bounded(q, p, unit(), largest);
    lemma_times_bounded(q.times(p), q.conjugate(), 3 * (unit() * largest), unit());
    assert(4 * ((3 * (unit() * largest)) * unit()) == (12 * unit_squared()) * largest)
        by (nonlinear_arith);
    lemma_rotated_component_square(r.x@, e.b, largest);
    lemma_rotated_component_square(r.y@, e.c, largest);
    lemma_rotated_component_square(r.z@, e.d, largest);
    assert(e.a * e.a == 0) by (nonlinear_arith)
        requires
            e.a == 0,
    ;
    lemma_zero_length(v);
    lemma_norm_squared_twice(q.norm_squared(), v.norm_squared());
    let after = r.norm_squared();
    assert((4 * unit_fourth()) * after == (4 * unit_fourth()) * (r.x@ * r.x@) + (4
        * unit_fourth()) * (r.y@ * r.y@) + (4 * unit_fourth()) * (r.z@ * r.z@));
}

/// Whether `back` has returned to `start` up to rounding: within 33 units
/// in the last place, plus 17 parts in 2^32 of `start`.
pub open spec fn has_returned(back: int, start: int) -> bool {
    let slack = 17 * magnitude(start) + 33 * unit();
    -slack <= unit() * (back - start) <= slack
}

/// A number scaled by the square of the norm of a nearly unit quaternion
/// is nearly that number times 2^128.
proof fn lemma_scaled_by_norm_twice(x: int, norm: int)
    requires
        -8 * unit() <= norm - unit_squared() <= 8 * unit() + 17,
    ensures
        -((17 * unit_cubed()) * magnitude(x)) <= x * (norm * norm) - unit_fourth() * x <= (17
            * unit_cubed()) * magnitude(x),
{
    lemma_norm_squared_twice(norm, magnitude(x));
    if x < 0 {
        assert(x * (norm * norm) == -(magnitude(x) * (norm * norm))) by (nonlinear_arith)
            requires
                magnitude(x) == -x,
        ;
    }
}

/// One component of the vector that went there and back: `back` rounds
/// `exact_back`, which misses `start`, scaled by the norm of `q` twice, by
/// what the first rounding was carried into.
proof fn lemma_returned_component(back: int, exact_back: int, start: int, norm: int)
    requires
        -8 * unit() <= norm - unit_squared() <= 8 * unit() + 17,
        -5 * unit_squared() <= 2 * (back * unit_squared() - exact_back) <= 5 * unit_squared(),
        -60 * unit_fourth() <= 2 * (exact_back * unit_squared() - start * (norm * norm)) <= 60
            * unit_fourth(),
    ensures
        has_returned(back, start),
{
    lemma_scaled_by_norm_twice(start, norm);
}

/// Turning a vector and then turning it back by the opposite angle about
/// the same axis returns it, up to rounding.
pub proof fn lemma_rotation_there_and_back(
    v: Vector,
    axis: Vector,
    half_sin: Fixed,
    half_cos: Fixed,
)
    requires
        v.rotatable(half_sin, half_cos),
        !axis.is_zero(),
        is_half_angle(half_sin, half_cos),
        v.rotated(axis, half_sin, half_cos).within(ROTATE_LIMIT_RAW as int),
    ensures
        ({
            let there = v.rotated(axis, half_sin, half_cos);
            let back = there.rotated(axis, half_sin.negated(), half_cos);
            &&& has_returned(back.x@, v.x@)
            &&& has_returned(back.y@, v.y@)
            &&& has_returned(back.z@, v.z@)
        }),
{
    let n = axis.normalized();
    let opposite = half_sin.negated();
    let p = Quaternion::pure(v.x, v.y, v.z)@;
    let q = Quaternion::rotation_about(n, half_sin, half_cos)@;
    let conjugate = q.conjugate();
    let norm = q.norm_squared();
    let e = v.exact_rotation(n, half_sin, half_cos);
    let there = v.rotated(axis, half_sin, half_cos);
    let lifted = Quaternion::pure(there.x, there.y, there.z)@;
    let back = there.rotated(axis, opposite, half_cos);
    lemma_normalized_within_unit(axis);
    lemma_normalized_nearly_unit(axis);
    lemma_rotation_quaternion(n, half_sin, half_cos);
    lemma_rotation_quaternion_nearly_unit(n, half_sin, half_cos);
    // The way there.
    lemma_rotated_accuracy(v, axis, half_sin, half_cos);
    // The way back turns by the conjugate.
    assert(opposite@ == -half_sin@ && opposite.negated() == half_sin);
    lemma_rotation_quaternion(n, opposite, half_cos);
    assert(conjugate.conjugate() == q);
    let e_back = there.exact_rotation(n, opposite, half_cos);
    assert(e_back == conjugate.times(lifted).times(q));
    lemma_rotated_accuracy(there, axis, opposite, half_cos);
    // What the first rounding missed, carried through the way back.
    let miss = lifted.scaled(unit_squared()).minus(e);
    assert(miss.a == 0 && miss.scaled(2).within(5 * unit_squared()));
    lemma_times_minus(lifted.scaled(unit_squared()), e, conjugate);
    lemma_times_minus(
        conjugate.times(lifted.scaled(unit_squared())),
        conjugate.times(e),
        q,
    );
    lemma_times_scaled(conjugate, lifted, unit_squared());
    lemma_times_scaled(conjugate.times(lifted), q, unit_squared());
    lemma_conjugation_round_trip(q, p);
    let carried = conjugate.times(miss).times(q);
    assert(carried == e_back.scaled(unit_squared()).minus(p.scaled(norm * norm)));
    lemma_times_scaled(conjugate, miss, 2);
    lemma_times_scaled(conjugate.times(miss), q, 2);
    lemma_times_bounded(conjugate, miss.scaled(2), unit(), 5 * unit_squared());
    lemma_times_bounded(
        conjugate.times(miss.scaled(2)),
        q,
        3 * (unit() * (5 * unit_squared())),
        unit(),
    );
    assert(4 * ((3 * (unit() * (5 * unit_squared()))) * unit()) == 60 * unit_fourth());
    assert(carried.scaled(2).within(60 * unit_fourth()));
    lemma_returned_component(back.x@, e_back.b, v.x@, norm);
    lemma_returned_component(back.y@, e_back.c, v.y@, norm);
    lemma_returned_component(back.z@, e_back.d, v.z@, norm);
}

} // verus!
