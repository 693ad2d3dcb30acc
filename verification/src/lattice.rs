//! The mathematical model of one octave of lattice noise.
//!
//! The lattice consists of the points whose three coordinates are whole
//! numbers. Each lattice point carries a hash taken from the permutation
//! table, and the hash selects one of twelve gradient directions. The noise
//! at a point blends the contributions of the eight lattice points around it.

use vstd::prelude::*;
use crate::fixed::ONE;
use crate::permutation::{lemma_lookup_periodic, spec_lookup};

verus! {

/// The whole-number part of a coordinate, rounded toward negative infinity:
/// the index of its lattice cell. Negative coordinates lie in cells with
/// negative indices.
pub open spec fn cell(x: int) -> int {
    x / (ONE as int)
}

/// The position of a coordinate inside its cell, from 0 up to `ONE - 1`,
/// also for negative coordinates.
pub open spec fn offset(x: int) -> int {
    x % (ONE as int)
}

/// The easing curve `6t^5 - 15t^4 + 10t^3` on fixed-point `t`, rounded down.
#[verifier::opaque]
pub open spec fn spec_fade(t: int) -> int {
    fade_numerator(t) / (ONE * ONE * ONE * ONE)
}

/// Linear interpolation `a + t * (b - a)` with fixed-point weight `t`,
/// rounded down.
#[verifier::opaque]
pub open spec fn spec_lerp(t: int, a: int, b: int) -> int {
    a + (t * (b - a)) / (ONE as int)
}

/// The gradient contribution for a hash and a relative position.
///
/// The low four bits of the hash pick two of the three components, and the
/// low two bits pick their signs.
#[verifier::opaque]
pub open spec fn spec_grad(hash: int, x: int, y: int, z: int) -> int {
    let h = hash % 16;
    let u = if h < 8 { x } else { y };
    let v = if h < 4 { y } else if h == 12 || h == 14 { x } else { z };
    (if h % 2 == 0 { u } else { -u }) + (if (h / 2) % 2 == 0 { v } else { -v })
}

/// The hash of the lattice point `(i, j, k)`.
pub open spec fn lattice_hash(i: int, j: int, k: int) -> int {
    spec_lookup(spec_lookup(spec_lookup(i) + j) + k)
}

/// The contribution to the noise at `(x, y, z)` of the corner of its cell
/// that lies `(dx, dy, dz)` cells from the cell's origin.
pub open spec fn corner(x: int, y: int, z: int, dx: int, dy: int, dz: int) -> int {
    spec_grad(
        lattice_hash(cell(x) + dx, cell(y) + dy, cell(z) + dz),
        offset(x) - dx * ONE,
        offset(y) - dy * ONE,
        offset(z) - dz * ONE,
    )
}

/// One octave of noise at the fixed-point position `(x, y, z)`: the eight
/// corner contributions blended along x, then y, then z.
pub open spec fn lattice_noise(x: int, y: int, z: int) -> int {
    let u = spec_fade(offset(x));
    let v = spec_fade(offset(y));
    let w = spec_fade(offset(z));
    spec_lerp(
        w,
        spec_lerp(
            v,
            spec_lerp(u, corner(x, y, z, 0, 0, 0), corner(x, y, z, 1, 0, 0)),
            spec_lerp(u, corner(x, y, z, 0, 1, 0), corner(x, y, z, 1, 1, 0)),
        ),
        spec_lerp(
            v,
            spec_lerp(u, corner(x, y, z, 0, 0, 1), corner(x, y, z, 1, 0, 1)),
            spec_lerp(u, corner(x, y, z, 0, 1, 1), corner(x, y, z, 1, 1, 1)),
        ),
    )
}

/// The numerator of the easing curve before the division by `ONE^4`.
pub open spec fn fade_numerator(t: int) -> int {
    t * t * t * (6 * t * t - 15 * ONE * t + 10 * ONE * ONE)
}

/// The quadratic factor of the easing polynomial, written as a sum of terms
/// that are not negative between zero and one.
proof fn lemma_fade_factor(t: int)
    by (nonlinear_arith)
    ensures
        6 * t * t - 15 * 65536 * t + 10 * 65536 * 65536 == 4294967296 + 196608 * (65536 - t) + 6
            * (65536 - t) * (65536 - t),
{
}

/// The easing polynomial at `t` and its mirror image at `ONE - t` add up to
/// one. The mirror image is multiplied out one factor `ONE - t` at a time.
proof fn lemma_fade_mirror(t: int)
    ensures
        t * t * t * (6 * t * t - 15 * 65536 * t + 10 * 65536 * 65536) + (65536 - t) * (65536 - t)
            * (65536 - t) * (4294967296 + 196608 * t + 6 * t * t)
            == 0x1_0000_0000_0000_0000_0000,
{
    let s = 65536 - t;
    let t2 = t * t;
    let t3 = t2 * t;
    let t4 = t3 * t;
    let t5 = t4 * t;
    let rest3 = 4294967296 + 196608 * t + 6 * t2;
    let rest2 = s * rest3;
    let rest1 = s * rest2;
    let rest0 = s * rest1;
    assert(rest2 == 281474976710656 + 8589934592 * t + 196608 * t2 - 6 * t3) by (nonlinear_arith)
        requires
            s == 65536 - t,
            rest3 == 4294967296 + 196608 * t + 6 * t2,
            rest2 == s * rest3,
            t2 == t * t,
            t3 == t2 * t,
    ;
    assert(rest1 == 0x1_0000_0000_0000_0000 + 281474976710656 * t + 4294967296 * t2 - 589824
        * t3 + 6 * t4) by (nonlinear_arith)
        requires
            s == 65536 - t,
            rest2 == 281474976710656 + 8589934592 * t + 196608 * t2 - 6 * t3,
            rest1 == s * rest2,
            t2 == t * t,
            t3 == t2 * t,
            t4 == t3 * t,
    ;
    assert(rest0 == 0x1_0000_0000_0000_0000_0000 - 42949672960 * t3 + 983040 * t4 - 6 * t5)
        by (nonlinear_arith)
        requires
            s == 65536 - t,
            rest1 == 0x1_0000_0000_0000_0000 + 281474976710656 * t + 4294967296 * t2 - 589824
                * t3 + 6 * t4,
            rest0 == s * rest1,
            t2 == t * t,
            t3 == t2 * t,
            t4 == t3 * t,
            t5 == t4 * t,
    ;
    let q = 6 * t2 - 983040 * t + 42949672960;
    assert(t3 * q == 6 * t5 - 983040 * t4 + 42949672960 * t3) by (nonlinear_arith)
        requires
            q == 6 * t2 - 983040 * t + 42949672960,
            t2 == t * t,
            t3 == t2 * t,
            t4 == t3 * t,
            t5 == t4 * t,
    ;
    assert(s * s * s * rest3 == rest0) by (nonlinear_arith)
        requires
            rest2 == s * rest3,
            rest1 == s * rest2,
            rest0 == s * rest1,
    ;
    assert(6 * t * t == 6 * t2) by (nonlinear_arith)
        requires
            t2 == t * t,
    ;
}

/// Before rounding, the easing curve of a weight between zero and one lies
/// between zero and one, and reaches one only at one.
pub proof fn lemma_fade_numerator(t: int)
    requires
        0 <= t <= ONE,
    ensures
        0 <= fade_numerator(t) <= 0x1_0000_0000_0000_0000_0000,
        0 < 6 * t * t - 15 * ONE * t + 10 * ONE * ONE <= 10 * 4294967296,
        t == 0 ==> fade_numerator(t) == 0,
        t == ONE ==> fade_numerator(t) == 0x1_0000_0000_0000_0000_0000,
        t < ONE ==> fade_numerator(t) < 0x1_0000_0000_0000_0000_0000,
{
    lemma_fade_mirror(t);
    lemma_fade_factor(t);
    let s = 65536 - t;
    let q = 6 * t * t - 15 * 65536 * t + 10 * 65536 * 65536;
    let m = 4294967296 + 196608 * t + 6 * t * t;
    let n = t * t * t * q;
    let r = s * s * s * m;
    assert(q > 0 && q <= 10 * 4294967296) by (nonlinear_arith)
        requires
            q == 4294967296 + 196608 * s + 6 * s * s,
            q == 6 * t * t - 15 * 65536 * t + 10 * 65536 * 65536,
            0 <= s <= 65536,
            0 <= t <= 65536,
    ;
    assert(m > 0) by (nonlinear_arith)
        requires
            m == 4294967296 + 196608 * t + 6 * t * t,
            0 <= t,
    ;
    assert(n >= 0 && (t == 0 ==> n == 0)) by (nonlinear_arith)
        requires
            n == t * t * t * q,
            q > 0,
            t >= 0,
    ;
    assert(r >= 0 && (s > 0 ==> r > 0) && (s == 0 ==> r == 0)) by (nonlinear_arith)
        requires
            r == s * s * s * m,
            m > 0,
            s >= 0,
    ;
    assert(n + r == 0x1_0000_0000_0000_0000_0000);
}

/// The easing curve maps weights between zero and one to weights between
/// zero and one, fixes both ends, and stays below one before the end.
pub proof fn lemma_fade_bounds(t: int)
    requires
        0 <= t <= ONE,
    ensures
        0 <= spec_fade(t) <= ONE,
        t == 0 ==> spec_fade(t) == 0,
        t == ONE ==> spec_fade(t) == ONE,
        t < ONE ==> spec_fade(t) < ONE,
{
    reveal(spec_fade);
    lemma_fade_numerator(t);
    assert(ONE * ONE * ONE * ONE == 0x1_0000_0000_0000_0000);
    assert(spec_fade(t) == fade_numerator(t) / 0x1_0000_0000_0000_0000);
}

/// An interpolated value lies between the two values it blends.
pub proof fn lemma_lerp_between(t: int, a: int, b: int)
    requires
        0 <= t <= ONE,
    ensures
        a <= b ==> a <= spec_lerp(t, a, b) <= b,
        b <= a ==> b <= spec_lerp(t, a, b) <= a,
        t == 0 ==> spec_lerp(t, a, b) == a,
        t == ONE ==> spec_lerp(t, a, b) == b,
{
    reveal(spec_lerp);
    let d = b - a;
    let p = t * d;
    assert((d >= 0 ==> 0 <= p <= 65536 * d) && (d <= 0 ==> 65536 * d <= p <= 0) && (t == 0 ==> p
        == 0) && (t == 65536 ==> p == 65536 * d)) by (nonlinear_arith)
        requires
            0 <= t <= 65536,
            p == t * d,
    ;
}

/// A gradient contribution is at most twice the largest component.
pub proof fn lemma_grad_bound(hash: int, x: int, y: int, z: int, m: int)
    requires
        -m <= x <= m,
        -m <= y <= m,
        -m <= z <= m,
    ensures
        -2 * m <= spec_grad(hash, x, y, z) <= 2 * m,
{
    reveal(spec_grad);
}

/// At the origin of the relative position every gradient contributes zero.
pub proof fn lemma_grad_zero(hash: int)
    ensures
        spec_grad(hash, 0, 0, 0) == 0,
{
    reveal(spec_grad);
}

/// Every corner contribution is at most two in magnitude.
pub proof fn lemma_corner_bound(x: int, y: int, z: int, dx: int, dy: int, dz: int)
    requires
        0 <= dx <= 1,
        0 <= dy <= 1,
        0 <= dz <= 1,
    ensures
        -2 * ONE <= corner(x, y, z, dx, dy, dz) <= 2 * ONE,
{
    lemma_grad_bound(
        lattice_hash(cell(x) + dx, cell(y) + dy, cell(z) + dz),
        offset(x) - dx * ONE,
        offset(y) - dy * ONE,
        offset(z) - dz * ONE,
        ONE as int,
    );
}

/// One octave of noise is at most two in magnitude.
pub proof fn lemma_noise_bound(x: int, y: int, z: int)
    ensures
        -2 * ONE <= lattice_noise(x, y, z) <= 2 * ONE,
{
    let u = spec_fade(offset(x));
    let v = spec_fade(offset(y));
    let w = spec_fade(offset(z));
    lemma_fade_bounds(offset(x));
    lemma_fade_bounds(offset(y));
    lemma_fade_bounds(offset(z));
    lemma_corner_bound(x, y, z, 0, 0, 0);
    lemma_corner_bound(x, y, z, 1, 0, 0);
    lemma_corner_bound(x, y, z, 0, 1, 0);
    lemma_corner_bound(x, y, z, 1, 1, 0);
    lemma_corner_bound(x, y, z, 0, 0, 1);
    lemma_corner_bound(x, y, z, 1, 0, 1);
    lemma_corner_bound(x, y, z, 0, 1, 1);
    lemma_corner_bound(x, y, z, 1, 1, 1);
    let x00 = spec_lerp(u, corner(x, y, z, 0, 0, 0), corner(x, y, z, 1, 0, 0));
    let x10 = spec_lerp(u, corner(x, y, z, 0, 1, 0), corner(x, y, z, 1, 1, 0));
    let x01 = spec_lerp(u, corner(x, y, z, 0, 0, 1), corner(x, y, z, 1, 0, 1));
    let x11 = spec_lerp(u, corner(x, y, z, 0, 1, 1), corner(x, y, z, 1, 1, 1));
    lemma_lerp_between(u, corner(x, y, z, 0, 0, 0), corner(x, y, z, 1, 0, 0));
    lemma_lerp_between(u, corner(x, y, z, 0, 1, 0), corner(x, y, z, 1, 1, 0));
    lemma_lerp_between(u, corner(x, y, z, 0, 0, 1), corner(x, y, z, 1, 0, 1));
    lemma_lerp_between(u, corner(x, y, z, 0, 1, 1), corner(x, y, z, 1, 1, 1));
    let y0 = spec_lerp(v, x00, x10);
    let y1 = spec_lerp(v, x01, x11);
    lemma_lerp_between(v, x00, x10);
    lemma_lerp_between(v, x01, x11);
    lemma_lerp_between(w, y0, y1);
}

/// On a point of the lattice nothing is blended: the noise is the
/// contribution of that lattice point alone, at relative position zero,
/// which is zero.
pub proof fn lemma_noise_on_lattice(x: int, y: int, z: int)
    requires
        offset(x) == 0,
        offset(y) == 0,
        offset(z) == 0,
    ensures
        lattice_noise(x, y, z) == spec_grad(lattice_hash(cell(x), cell(y), cell(z)), 0, 0, 0),
        lattice_noise(x, y, z) == 0,
{
    lemma_fade_bounds(0);
    let x00 = spec_lerp(0, corner(x, y, z, 0, 0, 0), corner(x, y, z, 1, 0, 0));
    let x10 = spec_lerp(0, corner(x, y, z, 0, 1, 0), corner(x, y, z, 1, 1, 0));
    let x01 = spec_lerp(0, corner(x, y, z, 0, 0, 1), corner(x, y, z, 1, 0, 1));
    let x11 = spec_lerp(0, corner(x, y, z, 0, 1, 1), corner(x, y, z, 1, 1, 1));
    lemma_lerp_between(0, corner(x, y, z, 0, 0, 0), corner(x, y, z, 1, 0, 0));
    lemma_lerp_between(0, x00, x10);
    lemma_lerp_between(0, spec_lerp(0, x00, x10), spec_lerp(0, x01, x11));
    assert(lattice_noise(x, y, z) == corner(x, y, z, 0, 0, 0));
    lemma_grad_zero(lattice_hash(cell(x), cell(y), cell(z)));
}

/// The hash of a lattice point repeats every 256 cells along each axis.
pub proof fn lemma_hash_periodic(i: int, j: int, k: int, a: int, b: int, c: int)
    ensures
        lattice_hash(i + 256 * a, j + 256 * b, k + 256 * c) == lattice_hash(i, j, k),
{
    lemma_lookup_periodic(i, a);
    lemma_lookup_periodic(spec_lookup(i) + j, b);
    lemma_lookup_periodic(spec_lookup(spec_lookup(i) + j) + k, c);
}

/// Moving a coordinate by whole cells moves its cell index and keeps its
/// offset.
pub proof fn lemma_shift_cells(x: int, m: int)
    ensures
        cell(x + ONE * m) == cell(x) + m,
        offset(x + ONE * m) == offset(x),
{
    vstd::arithmetic::div_mod::lemma_fundamental_div_mod_converse(
        x + 65536 * m,
        65536,
        x / 65536 + m,
        x % 65536,
    );
}

/// The noise field repeats every 256 cells along each axis.
pub proof fn lemma_noise_periodic(x: int, y: int, z: int, a: int, b: int, c: int)
    ensures
        lattice_noise(x + 256 * ONE * a, y + 256 * ONE * b, z + 256 * ONE * c) == lattice_noise(
            x,
            y,
            z,
        ),
{
    let xs = x + 256 * ONE * a;
    let ys = y + 256 * ONE * b;
    let zs = z + 256 * ONE * c;
    assert(256 * ONE * a == ONE * (256 * a) && 256 * ONE * b == ONE * (256 * b) && 256 * ONE * c
        == ONE * (256 * c)) by (nonlinear_arith);
    lemma_shift_cells(x, 256 * a);
    lemma_shift_cells(y, 256 * b);
    lemma_shift_cells(z, 256 * c);
    assert forall|dx: int, dy: int, dz: int|
        #[trigger] corner(xs, ys, zs, dx, dy, dz) == corner(x, y, z, dx, dy, dz) by {
        lemma_hash_periodic(cell(x) + dx, cell(y) + dy, cell(z) + dz, a, b, c);
    }
}

} // verus!
