//! Rotation of three-dimensional vectors about an arbitrary axis with
//! quaternion algebra, carried out in signed 32.32 fixed-point arithmetic.
//!
//! Every number is a [`fixed::Fixed`]: an integer count of units of 2^-32.
//! Products are formed exactly in wider integers and rounded once to the
//! nearest representable value, so each operation has an exact integer
//! contract.
//!
//! * [`fixed`]: the numbers, rounding, and the integer square root.
//! * [`quaternion`]: quaternions and their Hamilton product.
//! * [`vector`]: vectors, normalization, and `Vector::rotate`, which turns a
//!   vector by conjugation `q p q'` with the rotation quaternion `q`.
//! * [`algebra`]: the exact algebra of quaternions over the integers.
//! * [`rotation`]: how the rounded rotation relates to the exact one.
//! * [`precision`]: how well a rotation keeps lengths and undoes itself.
//! * [`error`]: the reasons for which a rotation is refused.
//!
//! Angles enter as the sine and cosine of half the angle, since both are
//! what the rotation quaternion is made of and neither can be computed in
//! integers exactly.

pub mod algebra;
pub mod error;
pub mod fixed;
pub mod precision;
pub mod quaternion;
pub mod rotation;
pub mod vector;
