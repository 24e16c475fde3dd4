//! Quaternions with fixed-point components.

use crate::algebra::Exact;
use crate::fixed::{exact_product, nearest_sum, Fixed};
use crate::vector::Vector;
use vstd::prelude::*;

verus! {

/// The quaternion `a + b i + c j + d k`.
#[derive(Clone, Copy, Debug)]
pub struct Quaternion {
    pub a: Fixed,
    pub b: Fixed,
    pub c: Fixed,
    pub d: Fixed,
}

impl View for Quaternion {
    type V = Exact;

    /// The raw components as integers.
    open spec fn view(&self) -> Exact {
        Exact { a: self.a@, b: self.b@, c: self.c@, d: self.d@ }
    }
}

impl Quaternion {
    /// Rounds each component of an exact product to the nearest
    /// representable number.
    pub open spec fn nearest(exact: Exact) -> Quaternion {
        Quaternion {
            a: Fixed::nearest(exact.a),
            b: Fixed::nearest(exact.b),
            c: Fixed::nearest(exact.c),
            d: Fixed::nearest(exact.d),
        }
    }

    /// The point `(x, y, z)` lifted to the pure quaternion `x i + y j + z k`.
    pub open spec fn pure(x: Fixed, y: Fixed, z: Fixed) -> Quaternion {
        Quaternion { a: Fixed { raw: 0 }, b: x, c: y, d: z }
    }

    /// The rounded Hamilton product `self * rhs`.
    pub open spec fn product(self, rhs: Quaternion) -> Quaternion {
        Quaternion::nearest(self@.times(rhs@))
    }

    /// Every component multiplied by `scalar` and rounded.
    pub open spec fn scaled(self, scalar: Fixed) -> Quaternion {
        Quaternion::nearest(self@.scaled(scalar@))
    }

    /// `scalar` added to the real component alone.
    pub open spec fn plus_scalar(self, scalar: Fixed) -> Quaternion {
        Quaternion { a: self.a.plus(scalar), b: self.b, c: self.c, d: self.d }
    }

    /// The quaternion `cos + sin * (x i + y j + z k)` for the axis `(x, y, z)`.
    pub open spec fn rotation_about(axis: Vector, sin: Fixed, cos: Fixed) -> Quaternion {
        Quaternion::pure(axis.x, axis.y, axis.z).scaled(sin).plus_scalar(cos)
    }

    /// The imaginary components as a vector.
    pub open spec fn vector_part(self) -> Vector {
        Vector { x: self.b, y: self.c, z: self.d }
    }

    /// Whether every component of `self` is within `tolerance` of the
    /// matching component of `other`.
    pub open spec fn close_to(self, other: Quaternion, tolerance: Fixed) -> bool {
        &&& self.a.close_to(other.a, tolerance)
        &&& self.b.close_to(other.b, tolerance)
        &&& self.c.close_to(other.c, tolerance)
        &&& self.d.close_to(other.d, tolerance)
    }

    /// Lifts the point `(x, y, z)` into quaternion space, with real part zero.
    pub fn from_xyz(x: Fixed, y: Fixed, z: Fixed) -> (q: Quaternion)
        ensures
            q == Quaternion::pure(x, y, z),
    {
        Quaternion { a: Fixed::zero(), b: x, c: y, d: z }
    }

    /// Builds `cos + sin * axis` from the sine and cosine of half the angle
    /// of rotation. The axis is taken as given: it is the caller's part to
    /// hand in one of unit length.
    pub fn rotation(rotation_axis: &Vector, sin: Fixed, cos: Fixed) -> (q: Quaternion)
        ensures
            q == Quaternion::rotation_about(*rotation_axis, sin, cos),
    {
        let q = Quaternion::from_xyz(rotation_axis.x, rotation_axis.y, rotation_axis.z);
        q.scale(sin).add_scalar(cos)
    }

    /// Drops the real component and returns the imaginary ones as a vector.
    pub fn to_vector(&self) -> (v: Vector)
        ensures
            v == self.vector_part(),
    {
        Vector { x: self.b, y: self.c, z: self.d }
    }

    /// The Hamilton product `self * rhs`, each component rounded once.
    pub fn multiply(self, rhs: Quaternion) -> (q: Quaternion)
        ensures
            q == self.product(rhs),
    {
        let a: i128 = exact_product(self.a, rhs.a);
        let a1: i128 = exact_product(self.b, rhs.b);
        let a2: i128 = exact_product(self.c, rhs.c);
        let a3: i128 = exact_product(self.d, rhs.d);
        let b: i128 = exact_product(self.a, rhs.b);
        let b1: i128 = exact_product(self.b, rhs.a);
        let b2: i128 = exact_product(self.c, rhs.d);
        let b3: i128 = exact_product(self.d, rhs.c);
        let c: i128 = exact_product(self.a, rhs.c);
        let c1: i128 = exact_product(self.b, rhs.d);
        let c2: i128 = exact_product(self.c, rhs.a);
        let c3: i128 = exact_product(self.d, rhs.b);
        let d: i128 = exact_product(self.a, rhs.d);
        let d1: i128 = exact_product(self.b, rhs.c);
        let d2: i128 = exact_product(self.c, rhs.b);
        let d3: i128 = exact_product(self.d, rhs.a);
        Quaternion {
            a: nearest_sum(a, -a1, -a2, -a3),
            b: nearest_sum(b, b1, b2, -b3),
            c: nearest_sum(c, -c1, c2, c3),
            d: nearest_sum(d, d1, -d2, d3),
        }
    }

    /// Multiplies every component by `scalar`.
    pub fn scale(self, scalar: Fixed) -> (q: Quaternion)
        ensures
            q == self.scaled(scalar),
    {
        Quaternion {
            a: self.a.multiply(scalar),
            b: self.b.multiply(scalar),
            c: self.c.multiply(scalar),
            d: self.d.multiply(scalar),
        }
    }

    /// Adds `scalar` to the real component; the imaginary ones stay.
    pub fn add_scalar(self, scalar: Fixed) -> (q: Quaternion)
        ensures
            q == self.plus_scalar(scalar),
    {
        Quaternion { a: self.a.saturating_add(scalar), b: self.b, c: self.c, d: self.d }
    }

    /// Compares component by component, allowing each pair to differ by
    /// `tolerance`.
    pub fn equals_within(&self, other: &Quaternion, tolerance: Fixed) -> (r: bool)
        ensures
            r == self.close_to(*other, tolerance),
    {
        self.a.is_close_to(other.a, tolerance) && self.b.is_close_to(other.b, tolerance)
            && self.c.is_close_to(other.c, tolerance) && self.d.is_close_to(other.d, tolerance)
    }

    /// Compares with the default tolerance, the smallest positive number.
    pub fn equals(&self, other: &Quaternion) -> (r: bool)
        ensures
            r == self.close_to(*other, Fixed { raw: 1 }),
    {
        self.equals_within(other, Fixed::epsilon())
    }
}

/// `==` compares with the default tolerance, as `equals` does.
impl PartialEq for Quaternion {
    fn eq(&self, other: &Quaternion) -> (r: bool) {
        self.equals(other)
    }
}

impl vstd::std_specs::cmp::PartialEqSpecImpl for Quaternion {
    open spec fn obeys_eq_spec() -> bool {
        true
    }

    open spec fn eq_spec(&self, other: &Quaternion) -> bool {
        self.close_to(*other, Fixed { raw: 1 })
    }
}

/// `*` between quaternions is the rounded Hamilton product.
impl core::ops::Mul<Quaternion> for Quaternion {
    type Output = Quaternion;

    fn mul(self, rhs: Quaternion) -> (q: Quaternion) {
        self.multiply(rhs)
    }
}

impl vstd::std_specs::ops::MulSpecImpl<Quaternion> for Quaternion {
    open spec fn obeys_mul_spec() -> bool {
        true
    }

    open spec fn mul_req(self, rhs: Quaternion) -> bool {
        true
    }

    open spec fn mul_spec(self, rhs: Quaternion) -> Quaternion {
        self.product(rhs)
    }
}

/// `*` with a number scales every component.
impl core::ops::Mul<Fixed> for Quaternion {
    type Output = Quaternion;

    fn mul(self, rhs: Fixed) -> (q: Quaternion) {
        self.scale(rhs)
    }
}

impl vstd::std_specs::ops::MulSpecImpl<Fixed> for Quaternion {
    open spec fn obeys_mul_spec() -> bool {
        true
    }

    open spec fn mul_req(self, rhs: Fixed) -> bool {
        true
    }

    open spec fn mul_spec(self, rhs: Fixed) -> Quaternion {
        self.scaled(rhs)
    }
}

/// `+` with a number adds it to the real component.
impl core::ops::Add<Fixed> for Quaternion {
    type Output = Quaternion;

    fn add(self, rhs: Fixed) -> (q: Quaternion) {
        self.add_scalar(rhs)
    }
}

impl vstd::std_specs::ops::AddSpecImpl<Fixed> for Quaternion {
    open spec fn obeys_add_spec() -> bool {
        true
    }

    open spec fn add_req(self, rhs: Fixed) -> bool {
        true
    }

    open spec fn add_spec(self, rhs: Fixed) -> Quaternion {
        self.plus_scalar(rhs)
    }
}

} // verus!
