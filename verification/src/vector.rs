//! Vectors in three-dimensional space and their rotation.

use crate::error::RotationError;
use crate::fixed::{
    exact_product, floor_sqrt, integer_sqrt, is_floor_sqrt, lemma_floor_sqrt_exists,
    lemma_floor_sqrt_unique, lemma_round_div_bounded, lemma_round_div_of_multiple, magnitude,
    nearest_ratio, round_div, saturate, unit, unit_squared, Fixed, ONE_RAW,
};
use crate::quaternion::Quaternion;
use vstd::prelude::*;

verus! {

/// The vector `(x, y, z)`.
#[derive(Clone, Copy, Debug)]
pub struct Vector {
    pub x: Fixed,
    pub y: Fixed,
    pub z: Fixed,
}

impl Vector {
    /// Whether all three components are zero.
    pub open spec fn is_zero(self) -> bool {
        self.x@ == 0 && self.y@ == 0 && self.z@ == 0
    }

    /// The exact squared length, in units of 2^-64.
    pub open spec fn norm_squared(self) -> int {
        self.x@ * self.x@ + self.y@ * self.y@ + self.z@ * self.z@
    }

    /// The length in raw units, rounded down.
    pub open spec fn length(self) -> int {
        floor_sqrt(self.norm_squared())
    }

    /// Every component multiplied by `scalar` and rounded.
    pub open spec fn scaled(self, scalar: Fixed) -> Vector {
        Vector {
            x: Fixed::nearest(self.x@ * scalar@),
            y: Fixed::nearest(self.y@ * scalar@),
            z: Fixed::nearest(self.z@ * scalar@),
        }
    }

    /// The largest magnitude among the components, in raw units.
    pub open spec fn largest(self) -> int {
        let (x, y, z) = (magnitude(self.x@), magnitude(self.y@), magnitude(self.z@));
        if x >= y && x >= z {
            x
        } else if y >= z {
            y
        } else {
            z
        }
    }

    /// The vector scaled up by `stretch_factor`: the same direction, with
    /// the largest component at least 2^61 raw units unless the vector is
    /// zero. The length of a short vector would otherwise be known to few
    /// digits only.
    pub open spec fn stretched(self) -> Vector {
        let factor = stretch_factor(self.largest());
        Vector {
            x: Fixed { raw: (self.x@ * factor) as i64 },
            y: Fixed { raw: (self.y@ * factor) as i64 },
            z: Fixed { raw: (self.z@ * factor) as i64 },
        }
    }

    /// Every component divided by the length and rounded.
    pub open spec fn divided_by_length(self) -> Vector {
        Vector {
            x: Fixed { raw: saturate(round_div(self.x@ * unit(), self.length())) as i64 },
            y: Fixed { raw: saturate(round_div(self.y@ * unit(), self.length())) as i64 },
            z: Fixed { raw: saturate(round_div(self.z@ * unit(), self.length())) as i64 },
        }
    }

    /// The vector of length one in the same direction: the stretched vector
    /// divided by its length.
    pub open spec fn normalized(self) -> Vector {
        self.stretched().divided_by_length()
    }

    /// Whether every component of `self` is within `tolerance` of the
    /// matching component of `other`.
    pub open spec fn close_to(self, other: Vector, tolerance: Fixed) -> bool {
        &&& self.x.close_to(other.x, tolerance)
        &&& self.y.close_to(other.y, tolerance)
        &&& self.z.close_to(other.z, tolerance)
    }

    /// Whether every component has magnitude at most `bound` raw units.
    pub open spec fn within(self, bound: int) -> bool {
        &&& -bound <= self.x@ <= bound
        &&& -bound <= self.y@ <= bound
        &&& -bound <= self.z@ <= bound
    }

    /// The vector conjugated by the rotation quaternion for `unit_axis`:
    /// `q * p * q'`, where `p` is the vector as a pure quaternion, `q` is
    /// `cos + sin * unit_axis` and `q'` is `cos - sin * unit_axis`.
    pub open spec fn conjugated(self, unit_axis: Vector, half_sin: Fixed, half_cos: Fixed) -> Vector {
        let point = Quaternion::pure(self.x, self.y, self.z);
        let rotation = Quaternion::rotation_about(unit_axis, half_sin, half_cos);
        let inverse = Quaternion::rotation_about(unit_axis, half_sin.negated(), half_cos);
        rotation.product(point).product(inverse).vector_part()
    }

    /// The vector turned about `axis`, which is normalized first.
    pub open spec fn rotated(self, axis: Vector, half_sin: Fixed, half_cos: Fixed) -> Vector {
        self.conjugated(axis.normalized(), half_sin, half_cos)
    }

    /// Whether `rotate` accepts the vector and the half-angle: the vector's
    /// components are at most `ROTATE_LIMIT_RAW` in magnitude, and the sine
    /// and cosine lie between minus one and one.
    pub open spec fn rotatable(self, half_sin: Fixed, half_cos: Fixed) -> bool {
        &&& self.within(ROTATE_LIMIT_RAW as int)
        &&& -unit() <= half_sin@ <= unit()
        &&& -unit() <= half_cos@ <= unit()
    }

    /// The exact squared length as a machine integer.
    fn squared_length(&self) -> (n: u128)
        ensures
            n == self.norm_squared(),
    {
        let xx: i128 = exact_product(self.x, self.x);
        let yy: i128 = exact_product(self.y, self.y);
        let zz: i128 = exact_product(self.z, self.z);
        proof {
            lemma_square_nonnegative(self.x@);
            lemma_square_nonnegative(self.y@);
            lemma_square_nonnegative(self.z@);
        }
        xx as u128 + yy as u128 + zz as u128
    }

    /// The Euclidean length, rounded down to a representable number and
    /// clamped to the largest one.
    pub fn modulo(&self) -> (m: Fixed)
        ensures
            m@ == saturate(self.length()),
    {
        let root: u64 = integer_sqrt(self.squared_length());
        if root > 0x7fff_ffff_ffff_ffff {
            Fixed { raw: i64::MAX }
        } else {
            Fixed { raw: root as i64 }
        }
    }

    /// Scales the vector up by the power of two that `stretched` names.
    fn stretch(self) -> (s: Vector)
        ensures
            s == self.stretched(),
            s.is_zero() == self.is_zero(),
    {
        let x: u64 = size(self.x);
        let y: u64 = size(self.y);
        let z: u64 = size(self.z);
        let largest: u64 = if x >= y && x >= z {
            x
        } else if y >= z {
            y
        } else {
            z
        };
        let factor: u64 = stretch_for(largest);
        proof {
            lemma_stretched_in_range(self.x@, largest as int, factor as int);
            lemma_stretched_in_range(self.y@, largest as int, factor as int);
            lemma_stretched_in_range(self.z@, largest as int, factor as int);
        }
        Vector {
            x: Fixed { raw: (self.x.raw as i128 * factor as i128) as i64 },
            y: Fixed { raw: (self.y.raw as i128 * factor as i128) as i64 },
            z: Fixed { raw: (self.z.raw as i128 * factor as i128) as i64 },
        }
    }

    /// The vector of length one that points the same way. A vector of
    /// length zero points nowhere and is refused.
    ///
    /// The result does not change when the vector is doubled or halved
    /// exactly, as long as its largest component stays below 2^61 raw units.
    pub fn convert_to_identity(self) -> (r: Result<Vector, RotationError>)
        ensures
            self.is_zero() ==> r == Err::<Vector, RotationError>(RotationError::InvalidAxis),
            !self.is_zero() ==> r == Ok::<Vector, RotationError>(self.normalized()),
            !self.is_zero() ==> self.normalized().within(unit()),
    {
        let stretched = self.stretch();
        let root: u64 = integer_sqrt(stretched.squared_length());
        proof {
            lemma_zero_length(stretched);
            if !self.is_zero() {
                lemma_divided_within_unit(stretched);
            }
        }
        if root == 0 {
            return Err(RotationError::InvalidAxis);
        }
        Ok(
            Vector {
                x: nearest_ratio(stretched.x.raw, root),
                y: nearest_ratio(stretched.y.raw, root),
                z: nearest_ratio(stretched.z.raw, root),
            },
        )
    }

    /// Multiplies every component by `scalar`.
    pub fn scale(self, scalar: Fixed) -> (v: Vector)
        ensures
            v == self.scaled(scalar),
    {
        Vector {
            x: self.x.multiply(scalar),
            y: self.y.multiply(scalar),
            z: self.z.multiply(scalar),
        }
    }

    /// Turns the vector about `rotation_axis` by the angle whose half has
    /// sine `half_sin` and cosine `half_cos`.
    ///
    /// The axis may have any length but zero: it is normalized here. With
    /// `q` the rotation quaternion for the normalized axis, `q'` the one for
    /// the opposite angle and `p` the vector as a pure quaternion, the new
    /// vector is the imaginary part of `q * p * q'`, multiplied in this
    /// order.
    ///
    /// A vector with a component beyond `ROTATE_LIMIT_RAW`, or a sine or
    /// cosine beyond one, is refused as `InvalidInput`: within these limits
    /// no intermediate result is clamped. An axis of length zero is refused
    /// as `InvalidAxis`. The vector is left as it was when the rotation is
    /// refused.
    ///
    /// The modules `rotation` and `precision` state how close the result is
    /// to the exact rotation.
    pub fn rotate(&mut self, rotation_axis: &Vector, half_sin: Fixed, half_cos: Fixed) -> (r: Result<
        (),
        RotationError,
    >)
        ensures
            !old(self).rotatable(half_sin, half_cos) ==> {
                &&& r == Err::<(), RotationError>(RotationError::InvalidInput)
                &&& *final(self) == *old(self)
            },
            old(self).rotatable(half_sin, half_cos) && rotation_axis.is_zero() ==> {
                &&& r == Err::<(), RotationError>(RotationError::InvalidAxis)
                &&& *final(self) == *old(self)
            },
            old(self).rotatable(half_sin, half_cos) && !rotation_axis.is_zero() ==> {
                &&& r == Ok::<(), RotationError>(())
                &&& *final(self) == old(self).rotated(*rotation_axis, half_sin, half_cos)
            },
    {
        if !(in_range(self.x, ROTATE_LIMIT_RAW) && in_range(self.y, ROTATE_LIMIT_RAW) && in_range(
            self.z,
            ROTATE_LIMIT_RAW,
        ) && in_range(half_sin, ONE_RAW) && in_range(half_cos, ONE_RAW)) {
            return Err(RotationError::InvalidInput);
        }
        let identity_rotation_axis = match rotation_axis.convert_to_identity() {
            Ok(axis) => axis,
            Err(e) => {
                return Err(e);
            },
        };
        let point = Quaternion::from_xyz(self.x, self.y, self.z);
        let rotation = Quaternion::rotation(&identity_rotation_axis, half_sin, half_cos);
        let inverse_rotation = Quaternion::rotation(
            &identity_rotation_axis,
            half_sin.saturating_neg(),
            half_cos,
        );
        let rotated_point = rotation.multiply(point).multiply(inverse_rotation);
        *self = rotated_point.to_vector();
        Ok(())
    }

    /// Compares component by component, allowing each pair to differ by
    /// `tolerance`.
    pub fn equals_within(&self, other: &Vector, tolerance: Fixed) -> (r: bool)
        ensures
            r == self.close_to(*other, tolerance),
    {
        self.x.is_close_to(other.x, tolerance) && self.y.is_close_to(other.y, tolerance)
            && self.z.is_close_to(other.z, tolerance)
    }

    /// Compares with the default tolerance, the smallest positive number.
    pub fn equals(&self, other: &Vector) -> (r: bool)
        ensures
            r == self.close_to(*other, Fixed { raw: 1 }),
    {
        self.equals_within(other, Fixed::epsilon())
    }
}

/// Largest magnitude, in raw units, of a component of a vector that
/// `Vector::rotate` accepts: 2^59, which stands for 2^27.
pub const ROTATE_LIMIT_RAW: i64 = 0x0800_0000_0000_0000;

/// The largest component of a stretched vector is at least this: 2^61.
#[verifier::inline]
pub open spec fn stretch_floor() -> int {
    0x2000_0000_0000_0000
}

/// The power of two that takes a positive `largest` below `stretch_floor()`
/// to or above it by repeated doubling; one for any other `largest`.
pub open spec fn stretch_factor(largest: int) -> int
    decreases
        if largest < stretch_floor() {
            stretch_floor() - largest
        } else {
            0
        },
{
    if 0 < largest < stretch_floor() {
        2 * stretch_factor(2 * largest)
    } else {
        1
    }
}

/// Computes `stretch_factor(largest)` by doubling.
fn stretch_for(largest: u64) -> (factor: u64)
    ensures
        factor == stretch_factor(largest as int),
        factor >= 1,
        factor > 1 ==> largest * factor < 2 * stretch_floor(),
        0 < largest ==> largest * factor >= stretch_floor(),
{
    let mut factor: u64 = 1;
    let mut scaled: u64 = largest;
    while 0 < scaled && scaled < 0x2000_0000_0000_0000
        invariant
            1 <= factor,
            largest > 0 ==> factor <= scaled,
            scaled == largest * factor,
            factor > 1 ==> scaled < 2 * stretch_floor(),
            stretch_factor(largest as int) == factor * stretch_factor(scaled as int),
        decreases
                if scaled < stretch_floor() {
                    stretch_floor() - scaled
                } else {
                    0
                },
    {
        assert(factor * stretch_factor(scaled as int) == (2 * factor) * stretch_factor(
            2 * scaled,
        ) && 2 * scaled == largest * (2 * factor)) by (nonlinear_arith)
            requires
                stretch_factor(scaled as int) == 2 * stretch_factor(2 * scaled),
                scaled == largest * factor,
        ;
        scaled = scaled * 2;
        factor = factor * 2;
    }
    assert(factor * 1 == factor);
    factor
}

/// The magnitude of a number, in raw units.
fn size(value: Fixed) -> (m: u64)
    ensures
        m == magnitude(value@),
{
    if value.raw >= 0 {
        value.raw as u64
    } else {
        (-(value.raw as i128)) as u64
    }
}

/// A component scaled by the stretch factor stays a raw value, and is zero
/// only if it was zero.
proof fn lemma_stretched_in_range(x: int, largest: int, factor: int)
    requires
        i64::MIN <= x <= i64::MAX,
        magnitude(x) <= largest,
        factor >= 1,
        factor > 1 ==> largest * factor < 2 * stretch_floor(),
    ensures
        i64::MIN <= x * factor <= i64::MAX,
        x * factor == 0 <==> x == 0,
{
    if factor == 1 {
        assert(x * factor == x);
    } else {
        assert(-(largest * factor) <= x * factor <= largest * factor && (x * factor == 0 <==> x
            == 0)) by (nonlinear_arith)
            requires
                -largest <= x <= largest,
                factor > 1,
        ;
    }
}

/// Tells whether `-bound <= value <= bound`.
fn in_range(value: Fixed, bound: i64) -> (r: bool)
    requires
        bound >= 0,
    ensures
        r == (-bound <= value@ <= bound),
{
    -bound <= value.raw && value.raw <= bound
}

/// The stretch factor is at least one; where it is more, it takes `largest`
/// into the range from 2^61 up to, not including, 2^62.
pub proof fn lemma_stretch_factor(largest: int)
    requires
        0 <= largest,
    ensures
        stretch_factor(largest) >= 1,
        stretch_factor(largest) > 1 ==> largest * stretch_factor(largest) < 2 * stretch_floor(),
        0 < largest ==> largest * stretch_factor(largest) >= stretch_floor(),
    decreases
            if largest < stretch_floor() {
                stretch_floor() - largest
            } else {
                0
            },
{
    if 0 < largest < stretch_floor() {
        lemma_stretch_factor(2 * largest);
        let f = stretch_factor(2 * largest);
        assert(largest * (2 * f) == (2 * largest) * f) by (nonlinear_arith);
    } else {
        assert(largest * 1 == largest);
    }
}

/// Stretching multiplies every component by the stretch factor, without
/// leaving the range of raw values, and keeps zero apart from the rest.
pub proof fn lemma_stretched(v: Vector)
    ensures
        v.stretched().x@ == v.x@ * stretch_factor(v.largest()),
        v.stretched().y@ == v.y@ * stretch_factor(v.largest()),
        v.stretched().z@ == v.z@ * stretch_factor(v.largest()),
        v.stretched().is_zero() == v.is_zero(),
{
    let largest = v.largest();
    let factor = stretch_factor(largest);
    lemma_stretch_factor(largest);
    lemma_stretched_in_range(v.x@, largest, factor);
    lemma_stretched_in_range(v.y@, largest, factor);
    lemma_stretched_in_range(v.z@, largest, factor);
}

/// A normalized vector has components between minus one and one.
pub proof fn lemma_normalized_within_unit(v: Vector)
    requires
        !v.is_zero(),
    ensures
        v.normalized().within(unit()),
{
    lemma_stretched(v);
    lemma_divided_within_unit(v.stretched());
}

/// Doubling a vector whose largest component is below 2^61 raw units does
/// not change the normalized vector.
pub proof fn lemma_normalized_of_double(v: Vector, doubled: Vector)
    requires
        v.largest() < stretch_floor(),
        doubled.x@ == 2 * v.x@,
        doubled.y@ == 2 * v.y@,
        doubled.z@ == 2 * v.z@,
    ensures
        doubled.normalized() == v.normalized(),
{
    let f = stretch_factor(doubled.largest());
    assert(doubled.largest() == 2 * v.largest());
    if v.largest() > 0 {
        assert(stretch_factor(v.largest()) == 2 * f);
        assert(v.x@ * (2 * f) == (2 * v.x@) * f && v.y@ * (2 * f) == (2 * v.y@) * f && v.z@ * (2
            * f) == (2 * v.z@) * f) by (nonlinear_arith);
        assert(doubled.stretched() == v.stretched());
    } else {
        assert(doubled == v);
    }
}

/// A vector that is `length / 2^32` times a vector `direction` of length
/// exactly one normalizes to `direction`.
pub proof fn lemma_normalized_of_multiple(v: Vector, direction: Vector, length: int)
    requires
        direction.norm_squared() == unit_squared(),
        length > 0,
        v.x@ * unit() == length * direction.x@,
        v.y@ * unit() == length * direction.y@,
        v.z@ * unit() == length * direction.z@,
    ensures
        v.normalized() == direction,
{
    lemma_stretched(v);
    lemma_stretch_factor(v.largest());
    let f = stretch_factor(v.largest());
    let s = v.stretched();
    let m = f * length;
    let (x, y, z) = (direction.x@, direction.y@, direction.z@);
    assert(m > 0 && s.x@ * unit() == x * m && s.y@ * unit() == y * m && s.z@ * unit() == z * m)
        by (nonlinear_arith)
        requires
            f >= 1,
            length > 0,
            m == f * length,
            s.x@ == v.x@ * f,
            s.y@ == v.y@ * f,
            s.z@ == v.z@ * f,
            v.x@ * unit() == length * x,
            v.y@ * unit() == length * y,
            v.z@ * unit() == length * z,
    ;
    let n = s.norm_squared();
    let square = unit_squared();
    lemma_proportional_squares(s.x@, unit(), x, m);
    lemma_proportional_squares(s.y@, unit(), y, m);
    lemma_proportional_squares(s.z@, unit(), z, m);
    assert(n * square == (s.x@ * s.x@) * square + (s.y@ * s.y@) * square + (s.z@ * s.z@)
        * square) by (nonlinear_arith)
        requires
            n == s.x@ * s.x@ + s.y@ * s.y@ + s.z@ * s.z@,
    ;
    assert((m * m) * square == (m * m) * (x * x) + (m * m) * (y * y) + (m * m) * (z * z))
        by (nonlinear_arith)
        requires
            square == x * x + y * y + z * z,
    ;
    assert(n == m * m) by (nonlinear_arith)
        requires
            n * square == (m * m) * square,
            square > 0,
    ;
    assert(is_floor_sqrt(n, m)) by (nonlinear_arith)
        requires
            n == m * m,
            m > 0,
    ;
    lemma_floor_sqrt_unique(n, m);
    lemma_round_div_of_multiple(x, m);
    lemma_round_div_of_multiple(y, m);
    lemma_round_div_of_multiple(z, m);
}

/// If `a u = x m`, then `a^2 u^2 = m^2 x^2`.
proof fn lemma_proportional_squares(a: int, u: int, x: int, m: int)
    requires
        a * u == x * m,
    ensures
        (a * a) * (u * u) == (m * m) * (x * x),
{
    assert((a * a) * (u * u) == (a * u) * (a * u)) by (nonlinear_arith);
    assert((m * m) * (x * x) == (x * m) * (x * m)) by (nonlinear_arith);
}

/// No component of a vector exceeds the vector's length, so the components
/// of a vector divided by its length lie between minus one and one.
pub proof fn lemma_divided_within_unit(v: Vector)
    requires
        !v.is_zero(),
    ensures
        v.length() > 0,
        v.within(v.length()),
        v.divided_by_length().within(unit()),
{
    lemma_zero_length(v);
    lemma_floor_sqrt_exists(v.norm_squared());
    let m = v.length();
    let (x, y, z) = (v.x@, v.y@, v.z@);
    assert(-m <= x <= m && -m <= y <= m && -m <= z <= m) by (nonlinear_arith)
        requires
            0 <= m,
            x * x + y * y + z * z < (m + 1) * (m + 1),
    ;
    assert(unit() * m == m * unit() && x * unit() <= unit() * m && y * unit() <= unit() * m && z
        * unit() <= unit() * m && -(unit() * m) <= x * unit() && -(unit() * m) <= y * unit()
        && -(unit() * m) <= z * unit()) by (nonlinear_arith)
        requires
            -m <= x <= m && -m <= y <= m && -m <= z <= m,
    ;
    lemma_round_div_bounded(x * unit(), m, unit());
    lemma_round_div_bounded(y * unit(), m, unit());
    lemma_round_div_bounded(z * unit(), m, unit());
}

/// A square is never negative.
pub proof fn lemma_square_nonnegative(x: int)
    ensures
        x * x >= 0,
{
    assert(x * x >= 0) by (nonlinear_arith);
}

/// A vector has length zero exactly when all its components are zero.
pub proof fn lemma_zero_length(v: Vector)
    ensures
        v.norm_squared() >= 0,
        v.length() == 0 <==> v.is_zero(),
{
    let n = v.norm_squared();
    lemma_square_nonnegative(v.x@);
    lemma_square_nonnegative(v.y@);
    lemma_square_nonnegative(v.z@);
    if v.is_zero() {
        assert(is_floor_sqrt(n, 0));
        lemma_floor_sqrt_unique(n, 0);
    } else {
        assert(n >= 1) by (nonlinear_arith)
            requires
                n == v.x@ * v.x@ + v.y@ * v.y@ + v.z@ * v.z@,
                v.x@ != 0 || v.y@ != 0 || v.z@ != 0,
        ;
        lemma_floor_sqrt_exists(n);
        assert(is_floor_sqrt(n, v.length()));
    }
}

/// `==` compares with the default tolerance, as `equals` does.
impl PartialEq for Vector {
    fn eq(&self, other: &Vector) -> (r: bool) {
        self.equals(other)
    }
}

impl vstd::std_specs::cmp::PartialEqSpecImpl for Vector {
    open spec fn obeys_eq_spec() -> bool {
        true
    }

    open spec fn eq_spec(&self, other: &Vector) -> bool {
        self.close_to(*other, Fixed { raw: 1 })
    }
}

/// `*` with a number scales every component.
impl core::ops::Mul<Fixed> for Vector {
    type Output = Vector;

    fn mul(self, rhs: Fixed) -> (v: Vector) {
        self.scale(rhs)
    }
}

impl vstd::std_specs::ops::MulSpecImpl<Fixed> for Vector {
    open spec fn obeys_mul_spec() -> bool {
        true
    }

    open spec fn mul_req(self, rhs: Fixed) -> bool {
        true
    }

    open spec fn mul_spec(self, rhs: Fixed) -> Vector {
        self.scaled(rhs)
    }
}

} // verus!
