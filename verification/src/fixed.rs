//! The fixed-point number format and its arithmetic.
//!
//! A [`Fixed`] value `v` stands for the rational number `v / 65536`. Products
//! and quotients round toward negative infinity, and every operation
//! saturates at the ends of the symmetric range from `-LIMIT` to `LIMIT`.

use vstd::prelude::*;
use vstd::arithmetic::div_mod::lemma_fundamental_div_mod_converse;

verus! {

/// A signed fixed-point number with sixteen fractional bits.
pub type Fixed = i64;

/// The fixed-point representation of the number one.
pub const ONE: i64 = 65536;

/// The largest magnitude that saturating arithmetic yields.
pub const LIMIT: i64 = 0x7fff_ffff_ffff_ffff;

/// The fixed-point product of `a` and `b`, rounded down.
pub open spec fn product(a: int, b: int) -> int {
    (a * b) / (ONE as int)
}

/// `v` clamped to the symmetric range from `-LIMIT` to `LIMIT`.
pub open spec fn saturate(v: int) -> int {
    if v > LIMIT {
        LIMIT as int
    } else if v < -LIMIT {
        -LIMIT
    } else {
        v
    }
}

/// The fixed-point quotient of `a` by `b`, rounded down and saturated.
/// Division by zero saturates toward the sign of `a`.
pub open spec fn quotient(a: int, b: int) -> int {
    if b > 0 {
        saturate((a * ONE) / b)
    } else if b < 0 {
        saturate((-(a * ONE)) / (-b))
    } else if a > 0 {
        LIMIT as int
    } else if a < 0 {
        -LIMIT
    } else {
        0
    }
}

/// The exact product of two 64-bit values, which always fits in 128 bits.
fn wide_product(a: i64, b: i64) -> (r: i128)
    ensures
        r == a * b,
        -0x4000_0000_0000_0000_0000_0000_0000_0000 <= r <= 0x4000_0000_0000_0000_0000_0000_0000_0000,
{
    assert(-0x4000_0000_0000_0000_0000_0000_0000_0000 <= a * b
        <= 0x4000_0000_0000_0000_0000_0000_0000_0000) by (nonlinear_arith)
        requires
            -0x8000_0000_0000_0000 <= a <= 0x7fff_ffff_ffff_ffff,
            -0x8000_0000_0000_0000 <= b <= 0x7fff_ffff_ffff_ffff,
    ;
    (a as i128) * (b as i128)
}

/// Drops the sixteen fractional bits of a double-width product, rounding down.
pub(crate) fn rescale(p: i128) -> (r: i128)
    ensures
        r == (p as int) / (ONE as int),
{
    let q: i128 = p / 65536;
    let m: i128 = p % 65536;
    if m < 0 {
        q - 1
    } else {
        q
    }
}

/// Clamps a wide value into the saturating range.
fn clamp(v: i128) -> (r: Fixed)
    ensures
        r == saturate(v as int),
{
    if v > LIMIT as i128 {
        LIMIT
    } else if v < -(LIMIT as i128) {
        -LIMIT
    } else {
        v as i64
    }
}

/// `num / den` rounded toward negative infinity, for a positive divisor.
fn floor_div(num: i128, den: i128) -> (r: i128)
    requires
        den > 0,
        -0x4000_0000_0000_0000_0000_0000_0000_0000 <= num <= 0x4000_0000_0000_0000_0000_0000_0000_0000,
    ensures
        r == (num as int) / (den as int),
{
    if num >= 0 {
        num / den
    } else {
        let n: i128 = -num;
        let q: i128 = n / den;
        let m: i128 = n % den;
        assert(n == q * den + m && 0 <= m < den && 0 <= q <= n) by (nonlinear_arith)
            requires
                n >= 0,
                den > 0,
                q == n / den,
                m == n % den,
        ;
        if m == 0 {
            proof {
                assert(num == (-q) * den + 0) by (nonlinear_arith)
                    requires
                        n == q * den + m,
                        m == 0,
                        num == -n,
                ;
                lemma_fundamental_div_mod_converse(num as int, den as int, -q as int, 0);
            }
            -q
        } else {
            proof {
                assert(num == (-q - 1) * den + (den - m)) by (nonlinear_arith)
                    requires
                        n == q * den + m,
                        num == -n,
                ;
                lemma_fundamental_div_mod_converse(
                    num as int,
                    den as int,
                    (-q - 1) as int,
                    (den - m) as int,
                );
            }
            -q - 1
        }
    }
}

/// Multiplies two fixed-point numbers, saturating at `LIMIT`.
pub fn mul_saturating(a: Fixed, b: Fixed) -> (r: Fixed)
    ensures
        r == saturate(product(a as int, b as int)),
{
    clamp(rescale(wide_product(a, b)))
}

/// Adds two fixed-point numbers, saturating at `LIMIT`.
pub fn add_saturating(a: Fixed, b: Fixed) -> (r: Fixed)
    ensures
        r == saturate(a + b),
{
    clamp(a as i128 + b as i128)
}

/// Divides `a` by `b` in fixed point, saturating at `LIMIT`.
pub fn div_saturating(a: Fixed, b: Fixed) -> (r: Fixed)
    ensures
        r == quotient(a as int, b as int),
{
    let scaled: i128 = (a as i128) * 65536;
    if b > 0 {
        clamp(floor_div(scaled, b as i128))
    } else if b < 0 {
        clamp(floor_div(-scaled, -(b as i128)))
    } else if a > 0 {
        LIMIT
    } else if a < 0 {
        -LIMIT
    } else {
        0
    }
}

} // verus!
