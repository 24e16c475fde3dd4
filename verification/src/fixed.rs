//! Signed 32.32 fixed-point numbers and the rounding primitives the rest of
//! the crate is built on.

use vstd::prelude::*;

verus! {

/// Number of fractional bits of a [`Fixed`].
pub const FRACTION_BITS: u32 = 32;

/// Raw representation of the number one: 2^32.
pub const ONE_RAW: i64 = 0x1_0000_0000;

/// The scale as a mathematical integer: a raw value `r` stands for `r / unit()`.
#[verifier::inline]
pub open spec fn unit() -> int {
    0x1_0000_0000
}

/// The square of the scale, 2^64: a product of two raw values `p` stands
/// for `p / unit_squared()`.
#[verifier::inline]
pub open spec fn unit_squared() -> int {
    0x1_0000_0000_0000_0000
}

/// The cube of the scale, 2^96.
#[verifier::inline]
pub open spec fn unit_cubed() -> int {
    0x1_0000_0000_0000_0000_0000_0000
}

/// The fourth power of the scale, 2^128.
#[verifier::inline]
pub open spec fn unit_fourth() -> int {
    0x1_0000_0000_0000_0000_0000_0000_0000_0000int
}

/// Largest magnitude of a product of two raw values: 2^126.
pub open spec fn product_bound() -> int {
    0x4000_0000_0000_0000_0000_0000_0000_0000
}

/// Clamps an integer into the range of raw values.
pub open spec fn saturate(x: int) -> int {
    if x < i64::MIN {
        i64::MIN as int
    } else if x > i64::MAX {
        i64::MAX as int
    } else {
        x
    }
}

/// The magnitude of an integer.
pub open spec fn magnitude(x: int) -> int {
    if x >= 0 {
        x
    } else {
        -x
    }
}

/// The integer nearest to `n / d` for `d > 0`; a tie goes away from zero.
pub open spec fn round_div(n: int, d: int) -> int {
    if n >= 0 {
        (2 * n + d) / (2 * d)
    } else {
        -((2 * (-n) + d) / (2 * d))
    }
}

/// A number with 32 integer bits (sign included) and 32 fractional bits.
///
/// `raw` counts units of 2^-32, so the value represented is `raw / 2^32`.
#[derive(Clone, Copy, Debug, PartialEq, Eq, Structural)]
pub struct Fixed {
    pub raw: i64,
}

impl View for Fixed {
    type V = int;

    open spec fn view(&self) -> int {
        self.raw as int
    }
}

impl Fixed {
    /// The representable number nearest to `exact / 2^64`, where `exact` is a
    /// product of two raw values (or a sum of such products); results beyond
    /// the representable range are clamped to its ends.
    pub open spec fn nearest(exact: int) -> Fixed {
        Fixed { raw: saturate(round_div(exact, unit())) as i64 }
    }

    /// The sum of two numbers, clamped to the representable range.
    pub open spec fn plus(self, rhs: Fixed) -> Fixed {
        Fixed { raw: saturate(self@ + rhs@) as i64 }
    }

    /// The negation of a number; the most negative number maps to the largest.
    pub open spec fn negated(self) -> Fixed {
        Fixed { raw: saturate(-self@) as i64 }
    }

    /// Whether two numbers differ by no more than `tolerance`.
    pub open spec fn close_to(self, other: Fixed, tolerance: Fixed) -> bool {
        -tolerance@ <= self@ - other@ <= tolerance@
    }

    /// Zero.
    pub fn zero() -> (r: Fixed)
        ensures
            r@ == 0,
    {
        Fixed { raw: 0 }
    }

    /// One.
    pub fn one() -> (r: Fixed)
        ensures
            r@ == unit(),
    {
        Fixed { raw: ONE_RAW }
    }

    /// The smallest positive number, 2^-32: the distance between neighbours.
    pub fn epsilon() -> (r: Fixed)
        ensures
            r@ == 1,
    {
        Fixed { raw: 1 }
    }

    /// The number with the given raw representation.
    pub fn from_raw(raw: i64) -> (r: Fixed)
        ensures
            r.raw == raw,
    {
        Fixed { raw }
    }

    /// The whole number `value`, which is always representable exactly.
    pub fn from_int(value: i32) -> (r: Fixed)
        ensures
            r@ == value * unit(),
    {
        let wide: i64 = value as i64;
        Fixed { raw: wide * ONE_RAW }
    }

    /// Adds two numbers, clamping the sum to the representable range.
    pub fn saturating_add(self, rhs: Fixed) -> (r: Fixed)
        ensures
            r == self.plus(rhs),
    {
        let sum: i128 = self.raw as i128 + rhs.raw as i128;
        clamp(sum)
    }

    /// Negates a number, clamping at the largest representable one.
    pub fn saturating_neg(self) -> (r: Fixed)
        ensures
            r == self.negated(),
    {
        let wide: i128 = self.raw as i128;
        clamp(-wide)
    }

    /// Multiplies two numbers and rounds the exact product to the nearest
    /// representable number.
    pub fn multiply(self, rhs: Fixed) -> (r: Fixed)
        ensures
            r == Fixed::nearest(self@ * rhs@),
    {
        nearest_sum(exact_product(self, rhs), 0, 0, 0)
    }

    /// Tells whether `self` and `other` differ by at most `tolerance`.
    pub fn is_close_to(self, other: Fixed, tolerance: Fixed) -> (r: bool)
        ensures
            r == self.close_to(other, tolerance),
    {
        let gap: i128 = self.raw as i128 - other.raw as i128;
        let bound: i128 = tolerance.raw as i128;
        -bound <= gap && gap <= bound
    }
}

/// Clamps a wide integer to the raw range.
pub(crate) fn clamp(wide: i128) -> (r: Fixed)
    ensures
        r@ == saturate(wide as int),
{
    if wide < -0x8000_0000_0000_0000 {
        Fixed { raw: i64::MIN }
    } else if wide > 0x7fff_ffff_ffff_ffff {
        Fixed { raw: i64::MAX }
    } else {
        Fixed { raw: wide as i64 }
    }
}

/// The exact product of two raw values lies within `product_bound()`.
pub proof fn lemma_product_bounded(x: int, y: int)
    requires
        i64::MIN <= x <= i64::MAX,
        i64::MIN <= y <= i64::MAX,
    ensures
        -product_bound() <= x * y <= product_bound(),
{
    assert(-product_bound() <= x * y <= product_bound()) by (nonlinear_arith)
        requires
            -0x8000_0000_0000_0000 <= x <= 0x8000_0000_0000_0000,
            -0x8000_0000_0000_0000 <= y <= 0x8000_0000_0000_0000,
            product_bound() == 0x8000_0000_0000_0000 * 0x8000_0000_0000_0000,
    ;
}

/// The exact product of two numbers, in units of 2^-64.
pub(crate) fn exact_product(x: Fixed, y: Fixed) -> (p: i128)
    ensures
        p == x@ * y@,
        -product_bound() <= p <= product_bound(),
{
    proof {
        lemma_product_bounded(x@, y@);
    }
    (x.raw as i128) * (y.raw as i128)
}

/// Rounds the sum of four exact products to the nearest representable number.
pub(crate) fn nearest_sum(p1: i128, p2: i128, p3: i128, p4: i128) -> (r: Fixed)
    requires
        -product_bound() <= p1 <= product_bound(),
        -product_bound() <= p2 <= product_bound(),
        -product_bound() <= p3 <= product_bound(),
        -product_bound() <= p4 <= product_bound(),
    ensures
        r == Fixed::nearest(p1 + p2 + p3 + p4),
{
    let one: i128 = 0x1_0000_0000;
    let half: i128 = 0x8000_0000;
    // The sum itself may not fit in 128 bits, so each product is split into
    // whole units and a rest below one unit, and the two parts are summed
    // apart: the sum is `high * 2^32 + rest` with `0 <= rest < 2^32`.
    let h1: i128 = floor_units(p1);
    let h2: i128 = floor_units(p2);
    let h3: i128 = floor_units(p3);
    let h4: i128 = floor_units(p4);
    let low: i128 = (p1 - h1 * one) + (p2 - h2 * one) + (p3 - h3 * one) + (p4 - h4 * one);
    let high: i128 = h1 + h2 + h3 + h4 + low / one;
    let rest: i128 = low % one;
    // The sum is negative exactly when `high` is; a tie goes away from zero.
    let up: bool = if high >= 0 {
        rest >= half
    } else {
        rest > half
    };
    let rounded: i128 = if up {
        high + 1
    } else {
        high
    };
    clamp(rounded)
}

/// `round_div(n, d)` is a nearest integer to `n / d`: it misses the
/// quotient by no more than a half.
pub proof fn lemma_round_div_is_nearest(n: int, d: int)
    requires
        d > 0,
    ensures
        -d <= 2 * (n - round_div(n, d) * d) <= d,
{
    let m = if n >= 0 { n } else { -n };
    let q = (2 * m + d) / (2 * d);
    assert(2 * m + d == (2 * d) * q + (2 * m + d) % (2 * d) && 0 <= (2 * m + d) % (2 * d) < 2
        * d) by (nonlinear_arith)
        requires
            d > 0,
            q == (2 * m + d) / (2 * d),
    ;
    assert((2 * d) * q == 2 * (q * d) && (-q) * d == -(q * d)) by (nonlinear_arith);
}

/// Rounding keeps a bound that is a whole number: if `|n| <= k * d`, then
/// `|round_div(n, d)| <= k`.
pub proof fn lemma_round_div_bounded(n: int, d: int, k: int)
    requires
        d > 0,
        k >= 0,
        -(k * d) <= n <= k * d,
    ensures
        -k <= round_div(n, d) <= k,
{
    lemma_round_div_is_nearest(n, d);
    let q = round_div(n, d);
    assert(-k <= q <= k) by (nonlinear_arith)
        requires
            d > 0,
            k >= 0,
            -(k * d) <= n <= k * d,
            -d <= 2 * (n - q * d) <= d,
    ;
}

/// Rounding is odd: negating the dividend negates the result.
pub proof fn lemma_round_div_is_odd(n: int, d: int)
    requires
        d > 0,
    ensures
        round_div(-n, d) == -round_div(n, d),
{
    if n == 0 {
        lemma_round_div_of_multiple(0, d);
        assert(0 * d == 0);
    }
}

/// Rounding an exact multiple `q * d` gives `q`.
pub proof fn lemma_round_div_of_multiple(q: int, d: int)
    requires
        d > 0,
    ensures
        round_div(q * d, d) == q,
{
    lemma_round_div_is_nearest(q * d, d);
    let r = round_div(q * d, d);
    assert(r == q) by (nonlinear_arith)
        requires
            d > 0,
            -d <= 2 * (q * d - r * d) <= d,
    ;
}

/// Rounding an exact multiple of the unit gives the multiple itself.
pub proof fn lemma_nearest_of_whole(x: Fixed)
    ensures
        Fixed::nearest(x@ * unit()) == x,
        Fixed::nearest(unit() * x@) == x,
{
    let n = x@ * unit();
    assert(unit() * x@ == n);
    assert(2 * unit() == 0x2_0000_0000);
    assert(round_div(n, unit()) == x@);
}

/// Whether `r` is the integer square root of `n`: the largest integer whose
/// square does not exceed `n`.
pub open spec fn is_floor_sqrt(n: int, r: int) -> bool {
    0 <= r && r * r <= n < (r + 1) * (r + 1)
}

/// The integer square root of `n`, for `n >= 0`.
pub open spec fn floor_sqrt(n: int) -> int {
    choose|r: int| is_floor_sqrt(n, r)
}

/// At most one integer is the integer square root of `n`, so any witness is
/// `floor_sqrt(n)`.
pub proof fn lemma_floor_sqrt_unique(n: int, r: int)
    requires
        is_floor_sqrt(n, r),
    ensures
        floor_sqrt(n) == r,
{
    let s = floor_sqrt(n);
    assert(is_floor_sqrt(n, s));
    assert(s == r) by (nonlinear_arith)
        requires
            0 <= r,
            0 <= s,
            r * r <= n < (r + 1) * (r + 1),
            s * s <= n < (s + 1) * (s + 1),
    ;
}

/// Every non-negative integer has an integer square root.
pub proof fn lemma_floor_sqrt_exists(n: int)
    requires
        n >= 0,
    ensures
        is_floor_sqrt(n, floor_sqrt(n)),
    decreases n,
{
    if n == 0 {
        assert(is_floor_sqrt(0, 0));
    } else {
        lemma_floor_sqrt_exists(n - 1);
        let r = floor_sqrt(n - 1);
        if n < (r + 1) * (r + 1) {
            assert(is_floor_sqrt(n, r));
        } else {
            assert(is_floor_sqrt(n, r + 1)) by (nonlinear_arith)
                requires
                    0 <= r,
                    r * r <= n - 1 < (r + 1) * (r + 1),
                    n >= (r + 1) * (r + 1),
            ;
        }
    }
}

/// Computes the integer square root by bisection.
pub fn integer_sqrt(n: u128) -> (r: u64)
    ensures
        r == floor_sqrt(n as int),
        is_floor_sqrt(n as int, r as int),
{
    let mut low: u128 = 0;
    let mut high: u128 = 0x1_0000_0000_0000_0000;
    assert(high * high > n) by (nonlinear_arith)
        requires
            high == 0x1_0000_0000_0000_0000,
            n <= 0xffff_ffff_ffff_ffff_ffff_ffff_ffff_ffff,
    ;
    while high - low > 1
        invariant
            low < high <= 0x1_0000_0000_0000_0000,
            low * low <= n < high * high,
        decreases high - low,
    {
        let middle: u128 = low + (high - low) / 2;
        assert(middle * middle <= u128::MAX) by (nonlinear_arith)
            requires
                0 <= middle <= 0xffff_ffff_ffff_ffff,
        ;
        if middle * middle <= n {
            low = middle;
        } else {
            high = middle;
        }
    }
    proof {
        lemma_floor_sqrt_unique(n as int, low as int);
    }
    low as u64
}

/// Divides a raw value by a positive integer of the same scale and rounds the
/// quotient to the nearest representable number.
pub(crate) fn nearest_ratio(numerator: i64, denominator: u64) -> (r: Fixed)
    requires
        denominator > 0,
    ensures
        r@ == saturate(round_div(numerator * unit(), denominator as int)),
{
    let one: u128 = 0x1_0000_0000;
    let divisor: u128 = 2 * (denominator as u128);
    if numerator >= 0 {
        let scaled: u128 = 2 * (numerator as u128) * one;
        let quotient: u128 = (scaled + denominator as u128) / divisor;
        if quotient > 0x7fff_ffff_ffff_ffff {
            Fixed { raw: i64::MAX }
        } else {
            Fixed { raw: quotient as i64 }
        }
    } else {
        let size: u128 = (-(numerator as i128)) as u128;
        let scaled: u128 = 2 * size * one;
        let quotient: u128 = (scaled + denominator as u128) / divisor;
        if quotient > 0x8000_0000_0000_0000 {
            Fixed { raw: i64::MIN }
        } else {
            Fixed { raw: (-(quotient as i128)) as i64 }
        }
    }
}

/// Whole units in an exact product: `floor(p / 2^32)`.
fn floor_units(p: i128) -> (h: i128)
    ensures
        h == (p as int) / unit(),
{
    match p.checked_div_euclid(0x1_0000_0000) {
        Some(h) => h,
        None => 0,
    }
}

} // verus!
