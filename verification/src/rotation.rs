//! What holds of a rotation: how the rounded result of `Vector::rotate`
//! relates to the exact conjugation `q p q'` of quaternion algebra.

use crate::algebra::{
    lemma_conjugation_is_pure, lemma_conjugation_norm, lemma_times_bounded, lemma_times_minus,
    lemma_times_real, lemma_times_scaled, Exact,
};
use crate::fixed::{
    lemma_nearest_of_whole, lemma_round_div_bounded, lemma_round_div_is_nearest,
    lemma_round_div_is_odd, unit, unit_squared, Fixed, ONE_RAW,
};
use crate::quaternion::Quaternion;
use crate::vector::{
    lemma_normalized_of_double, lemma_normalized_of_multiple, lemma_normalized_within_unit,
    stretch_floor, Vector, ROTATE_LIMIT_RAW,
};
use vstd::prelude::*;

verus! {

impl Vector {
    /// The exact conjugation `q p q'` in units of 2^-96: `p` is the vector
    /// as a pure quaternion, `q` the rounded rotation quaternion for
    /// `unit_axis` and `q'` its conjugate.
    pub open spec fn exact_rotation(self, unit_axis: Vector, half_sin: Fixed, half_cos: Fixed) -> Exact {
        let q = Quaternion::rotation_about(unit_axis, half_sin, half_cos)@;
        q.times(Quaternion::pure(self.x, self.y, self.z)@).times(q.conjugate())
    }
}

/// Rotating by the angle zero, whose half has sine zero and cosine one,
/// returns the vector itself, whatever the axis.
pub proof fn lemma_zero_angle_is_identity(v: Vector, axis: Vector)
    ensures
        v.rotated(axis, Fixed { raw: 0 }, Fixed { raw: ONE_RAW }) == v,
{
    let zero = Fixed { raw: 0 };
    let one = Fixed { raw: ONE_RAW };
    let n = axis.normalized();
    let point = Quaternion::pure(v.x, v.y, v.z);
    let rotation = Quaternion::rotation_about(n, zero, one);
    let identity = Quaternion { a: one, b: zero, c: zero, d: zero };
    assert(zero.negated() == zero);
    lemma_nearest_of_whole(zero);
    assert(Fixed::nearest(0) == zero);
    assert(Quaternion::pure(n.x, n.y, n.z)@.scaled(0) == Exact { a: 0, b: 0, c: 0, d: 0 });
    assert(rotation == identity);
    lemma_nearest_of_whole(v.x);
    lemma_nearest_of_whole(v.y);
    lemma_nearest_of_whole(v.z);
    lemma_times_real(unit(), point@);
    assert(Quaternion::nearest(point@.scaled(unit())) == point);
}

/// Rounding an exact quaternion whose components are at most `k` units
/// needs no clamping, and the result is at most `k`.
pub proof fn lemma_nearest_unclamped(e: Exact, k: int)
    requires
        0 <= k <= i64::MAX,
        e.within(k * unit()),
    ensures
        Quaternion::nearest(e)@ == e.rounded(),
        e.rounded().within(k),
{
    lemma_round_div_bounded(e.a, unit(), k);
    lemma_round_div_bounded(e.b, unit(), k);
    lemma_round_div_bounded(e.c, unit(), k);
    lemma_round_div_bounded(e.d, unit(), k);
}

/// Rounding misses each component by no more than half a unit.
pub proof fn lemma_rounded_is_nearest(e: Exact)
    ensures
        e.rounded().scaled(unit()).minus(e).scaled(2).within(unit()),
{
    lemma_round_div_is_nearest(e.a, unit());
    lemma_round_div_is_nearest(e.b, unit());
    lemma_round_div_is_nearest(e.c, unit());
    lemma_round_div_is_nearest(e.d, unit());
}

/// The rotation quaternion for an axis with components between minus one
/// and one has such components itself, its real part is the cosine, and
/// negating the sine gives its conjugate.
pub proof fn lemma_rotation_quaternion(axis: Vector, sin: Fixed, cos: Fixed)
    requires
        axis.within(unit()),
        -unit() <= sin@ <= unit(),
        -unit() <= cos@ <= unit(),
    ensures
        Quaternion::rotation_about(axis, sin, cos)@.within(unit()),
        Quaternion::rotation_about(axis, sin, cos).a == cos,
        Quaternion::rotation_about(axis, sin.negated(), cos)@ == Quaternion::rotation_about(
            axis,
            sin,
            cos,
        )@.conjugate(),
{
    let lifted = Quaternion::pure(axis.x, axis.y, axis.z)@;
    let e = lifted.scaled(sin@);
    let f = lifted.scaled(sin.negated()@);
    assert(sin.negated()@ == -sin@);
    assert(e.a == 0 && f.a == 0 && f.b == -e.b && f.c == -e.c && f.d == -e.d && e.within(
        unit() * unit(),
    )) by (nonlinear_arith)
        requires
            e == lifted.scaled(sin@),
            f == lifted.scaled(-sin@),
            lifted.a == 0,
            lifted.within(unit()),
            -unit() <= sin@ <= unit(),
    ;
    lemma_nearest_unclamped(e, unit());
    lemma_round_div_is_odd(e.a, unit());
    lemma_round_div_is_odd(e.b, unit());
    lemma_round_div_is_odd(e.c, unit());
    lemma_round_div_is_odd(e.d, unit());
    assert(f.within(unit_squared()));
    lemma_nearest_unclamped(f, unit());
    lemma_nearest_of_whole(Fixed { raw: 0 });
}

/// Within the limits that `rotate` checks, neither product of the
/// conjugation is clamped: each is the exact product, rounded.
pub proof fn lemma_rotation_unclamped(v: Vector, unit_axis: Vector, half_sin: Fixed, half_cos: Fixed)
    requires
        v.rotatable(half_sin, half_cos),
        unit_axis.within(unit()),
    ensures
        ({
            let p = Quaternion::pure(v.x, v.y, v.z);
            let q = Quaternion::rotation_about(unit_axis, half_sin, half_cos);
            let q_inverse = Quaternion::rotation_about(unit_axis, half_sin.negated(), half_cos);
            &&& q.product(p)@ == q@.times(p@).rounded()
            &&& q.product(p)@.within(3 * ROTATE_LIMIT_RAW)
            &&& q.product(p).product(q_inverse)@ == q.product(p)@.times(q_inverse@).rounded()
            &&& q.product(p).product(q_inverse)@.within(12 * ROTATE_LIMIT_RAW)
        }),
{
    let limit = ROTATE_LIMIT_RAW as int;
    let p = Quaternion::pure(v.x, v.y, v.z);
    let q = Quaternion::rotation_about(unit_axis, half_sin, half_cos);
    let q_inverse = Quaternion::rotation_about(unit_axis, half_sin.negated(), half_cos);
    lemma_rotation_quaternion(unit_axis, half_sin, half_cos);
    assert(q_inverse@.within(unit()));
    lemma_times_bounded(q@, p@, unit(), limit);
    assert(3 * (unit() * limit) == (3 * limit) * unit()) by (nonlinear_arith);
    lemma_nearest_unclamped(q@.times(p@), 3 * limit);
    let first = q.product(p);
    lemma_times_bounded(first@, q_inverse@, 3 * limit, unit());
    assert(4 * ((3 * limit) * unit()) == (12 * limit) * unit()) by (nonlinear_arith);
    lemma_nearest_unclamped(first@.times(q_inverse@), 12 * limit);
}

/// Within the limits that `rotate` checks, the rounded conjugation misses
/// the exact one by no more than two and a half units in each component.
pub proof fn lemma_rotation_error(v: Vector, unit_axis: Vector, half_sin: Fixed, half_cos: Fixed)
    requires
        v.rotatable(half_sin, half_cos),
        unit_axis.within(unit()),
    ensures
        ({
            let p = Quaternion::pure(v.x, v.y, v.z);
            let q = Quaternion::rotation_about(unit_axis, half_sin, half_cos);
            let q_inverse = Quaternion::rotation_about(unit_axis, half_sin.negated(), half_cos);
            let rounded = q.product(p).product(q_inverse)@;
            let exact = v.exact_rotation(unit_axis, half_sin, half_cos);
            rounded.scaled(unit_squared()).minus(exact).scaled(2).within(5 * unit_squared())
        }),
{
    let p = Quaternion::pure(v.x, v.y, v.z)@;
    let q = Quaternion::rotation_about(unit_axis, half_sin, half_cos)@;
    let conjugate = q.conjugate();
    lemma_rotation_quaternion(unit_axis, half_sin, half_cos);
    lemma_rotation_unclamped(v, unit_axis, half_sin, half_cos);
    // The first product and what its rounding missed.
    let first = q.times(p).rounded();
    let first_miss = first.scaled(unit()).minus(q.times(p));
    lemma_rounded_is_nearest(q.times(p));
    // The second product and what its rounding missed.
    let second = first.times(conjugate).rounded();
    let second_miss = second.scaled(unit()).minus(first.times(conjugate));
    lemma_rounded_is_nearest(first.times(conjugate));
    // The first miss is carried through the second product.
    lemma_times_scaled(first, conjugate, unit());
    lemma_times_minus(first.scaled(unit()), q.times(p), conjugate);
    let carried = first_miss.times(conjugate);
    assert(carried == first.times(conjugate).scaled(unit()).minus(
        v.exact_rotation(unit_axis, half_sin, half_cos),
    ));
    lemma_times_scaled(first_miss, conjugate, 2);
    assert(conjugate.within(unit()));
    lemma_times_bounded(first_miss.scaled(2), conjugate, unit(), unit());
    let total = second.scaled(unit_squared()).minus(
        v.exact_rotation(unit_axis, half_sin, half_cos),
    );
    assert(total.scaled(2).within(5 * unit_squared())) by (nonlinear_arith)
        requires
            second_miss == second.scaled(unit()).minus(first.times(conjugate)),
            second_miss.scaled(2).within(unit()),
            carried == first.times(conjugate).scaled(unit()).minus(
                v.exact_rotation(unit_axis, half_sin, half_cos),
            ),
            carried.scaled(2).within(4 * unit_squared()),
            total == second.scaled(unit_squared()).minus(
                v.exact_rotation(unit_axis, half_sin, half_cos),
            ),
    ;
}

/// What `rotate` returns when it succeeds, measured against exact algebra.
///
/// Let `q` be the rounded rotation quaternion for the normalized axis and
/// `e = q p q'` the exact conjugation of the vector. Then `e` is pure, its
/// squared length is that of the vector times the square of the squared
/// norm of `q`, and each component of the result is within two and a half
/// units in the last place of the matching component of `e`. So the length
/// is kept as far as `q` has norm one, and up to that rounding.
pub proof fn lemma_rotated_accuracy(v: Vector, axis: Vector, half_sin: Fixed, half_cos: Fixed)
    requires
        v.rotatable(half_sin, half_cos),
        !axis.is_zero(),
    ensures
        ({
            let q = Quaternion::rotation_about(axis.normalized(), half_sin, half_cos)@;
            let exact = v.exact_rotation(axis.normalized(), half_sin, half_cos);
            let rotated = v.rotated(axis, half_sin, half_cos);
            let square = unit_squared();
            &&& exact.a == 0
            &&& exact.norm_squared() == q.norm_squared() * v.norm_squared() * q.norm_squared()
            &&& -5 * square <= 2 * (rotated.x@ * square - exact.b) <= 5 * square
            &&& -5 * square <= 2 * (rotated.y@ * square - exact.c) <= 5 * square
            &&& -5 * square <= 2 * (rotated.z@ * square - exact.d) <= 5 * square
            &&& rotated.within(12 * ROTATE_LIMIT_RAW)
        }),
{
    let n = axis.normalized();
    let p = Quaternion::pure(v.x, v.y, v.z)@;
    let q = Quaternion::rotation_about(n, half_sin, half_cos)@;
    lemma_normalized_within_unit(axis);
    lemma_rotation_quaternion(n, half_sin, half_cos);
    lemma_rotation_unclamped(v, n, half_sin, half_cos);
    lemma_rotation_error(v, n, half_sin, half_cos);
    lemma_conjugation_is_pure(q, p);
    lemma_conjugation_norm(q, p);
    assert(p.norm_squared() == v.norm_squared());
}

/// The length of the axis does not matter where its direction can be
/// written down exactly: an axis that is a positive multiple of a vector
/// `direction` of length exactly one turns a vector as `direction` does.
pub proof fn lemma_rotation_ignores_axis_length(
    v: Vector,
    axis: Vector,
    direction: Vector,
    length: int,
    half_sin: Fixed,
    half_cos: Fixed,
)
    requires
        direction.norm_squared() == unit_squared(),
        length > 0,
        axis.x@ * unit() == length * direction.x@,
        axis.y@ * unit() == length * direction.y@,
        axis.z@ * unit() == length * direction.z@,
    ensures
        v.rotated(axis, half_sin, half_cos) == v.rotated(direction, half_sin, half_cos),
        v.rotated(axis, half_sin, half_cos) == v.conjugated(direction, half_sin, half_cos),
{
    lemma_normalized_of_multiple(axis, direction, length);
    assert(direction.x@ * unit() == unit() * direction.x@ && direction.y@ * unit() == unit()
        * direction.y@ && direction.z@ * unit() == unit() * direction.z@) by (nonlinear_arith);
    lemma_normalized_of_multiple(direction, direction, unit());
}

/// Doubling an axis whose largest component is below 2^61 raw units does
/// not change the rotation.
pub proof fn lemma_rotation_ignores_axis_doubling(
    v: Vector,
    axis: Vector,
    doubled: Vector,
    half_sin: Fixed,
    half_cos: Fixed,
)
    requires
        axis.largest() < stretch_floor(),
        doubled.x@ == 2 * axis.x@,
        doubled.y@ == 2 * axis.y@,
        doubled.z@ == 2 * axis.z@,
    ensures
        v.rotated(doubled, half_sin, half_cos) == v.rotated(axis, half_sin, half_cos),
{
    lemma_normalized_of_double(axis, doubled);
}

} // verus!
