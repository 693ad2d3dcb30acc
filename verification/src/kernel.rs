//! The executable single-octave noise kernel.

use vstd::prelude::*;
use crate::fixed::{rescale, Fixed, ONE};
use crate::lattice::{
    cell, fade_numerator, lattice_noise, lemma_fade_bounds, lemma_fade_numerator,
    lemma_lerp_between, lemma_noise_bound, offset, spec_fade, spec_grad, spec_lerp,
};
use crate::permutation::lookup;
use crate::perlin::Perlin;

verus! {

/// The largest magnitude of a relative position that `Perlin::grad` accepts:
/// the sum of two such components still fits in 64 bits.
pub const GRAD_LIMIT: i64 = 0x3fff_ffff_ffff_ffff;

/// Splits a coordinate into the index of its cell and its offset inside it.
fn split(x: Fixed) -> (r: (i64, i64))
    ensures
        r.0 == cell(x as int),
        r.1 == offset(x as int),
        -0x8000_0000_0000 <= r.0 < 0x8000_0000_0000,
        0 <= r.1 < ONE,
{
    let q: i64 = x / 65536;
    let m: i64 = x % 65536;
    if m < 0 {
        (q - 1, m + 65536)
    } else {
        (q, m)
    }
}

impl Perlin {
    /// Computes the easing curve of a weight between zero and one.
    pub fn fade(t: Fixed) -> (r: Fixed)
        requires
            0 <= t <= ONE,
        ensures
            r == spec_fade(t as int),
            0 <= r <= ONE,
    {
        let w: i128 = t as i128;
        proof {
            reveal(spec_fade);
            lemma_fade_numerator(t as int);
            lemma_fade_bounds(t as int);
            assert(0 <= w * w <= 4294967296 && 0 <= w * w * w <= 281474976710656 && 6 * (w * w)
                == 6 * w * w) by (nonlinear_arith)
                requires
                    0 <= w <= 65536,
            ;
            assert(0 <= 983040 * w <= 64424509440);
            assert(ONE * ONE * ONE * ONE == 0x1_0000_0000_0000_0000);
        }
        let square: i128 = w * w;
        let cube: i128 = square * w;
        let factor: i128 = 6 * square - 983040 * w + 42949672960;
        assert(factor == 6 * w * w - 15 * ONE * w + 10 * ONE * ONE);
        assert(cube * factor == fade_numerator(t as int));
        let numerator: i128 = cube * factor;
        (numerator / 0x1_0000_0000_0000_0000) as i64
    }

    /// Interpolates between `a` and `b` with a weight between zero and one.
    pub fn lerp(t: Fixed, a: Fixed, b: Fixed) -> (r: Fixed)
        requires
            0 <= t <= ONE,
        ensures
            r == spec_lerp(t as int, a as int, b as int),
            a <= b ==> a <= r <= b,
            b <= a ==> b <= r <= a,
    {
        let difference: i128 = b as i128 - a as i128;
        proof {
            reveal(spec_lerp);
            lemma_lerp_between(t as int, a as int, b as int);
            assert(-0x1_0000_0000_0000_0000_0000 <= t * difference
                <= 0x1_0000_0000_0000_0000_0000) by (nonlinear_arith)
                requires
                    0 <= t <= 65536,
                    -0x1_0000_0000_0000_0000 <= difference <= 0x1_0000_0000_0000_0000,
            ;
        }
        let step: i128 = rescale((t as i128) * difference);
        (a as i128 + step) as i64
    }

    /// Computes the gradient contribution for a hash and a relative position.
    pub fn grad(hash: u8, x: Fixed, y: Fixed, z: Fixed) -> (r: Fixed)
        requires
            -GRAD_LIMIT <= x <= GRAD_LIMIT,
            -GRAD_LIMIT <= y <= GRAD_LIMIT,
            -GRAD_LIMIT <= z <= GRAD_LIMIT,
        ensures
            r == spec_grad(hash as int, x as int, y as int, z as int),
    {
        proof {
            reveal(spec_grad);
        }
        let h: u8 = hash & 15;
        assert(h == hash % 16 && ((h & 1 == 0) <==> h % 2 == 0) && ((h & 2 == 0) <==> (h / 2) % 2
            == 0)) by (bit_vector)
            requires
                h == hash & 15,
        ;
        let u: i64 = if h < 8 {
            x
        } else {
            y
        };
        let v: i64 = if h < 4 {
            y
        } else if h == 12 || h == 14 {
            x
        } else {
            z
        };
        (if h & 1 == 0 {
            u
        } else {
            -u
        }) + (if h & 2 == 0 {
            v
        } else {
            -v
        })
    }

    /// Generates the noise of one octave at the point `(x, y, z)`.
    pub fn generate_noise(&self, x: Fixed, y: Fixed, z: Fixed) -> (r: Fixed)
        ensures
            r == lattice_noise(x as int, y as int, z as int),
            -2 * ONE <= r <= 2 * ONE,
    {
        proof {
            lemma_noise_bound(x as int, y as int, z as int);
        }
        // Find the unit cube that contains the point, and the point's
        // position relative to the cube's origin.
        let (int_x, x): (i64, i64) = split(x);
        let (int_y, y): (i64, i64) = split(y);
        let (int_z, z): (i64, i64) = split(z);

        // Compute the easing curves for x, y and z.
        let u: i64 = Perlin::fade(x);
        let v: i64 = Perlin::fade(y);
        let w: i64 = Perlin::fade(z);

        // Find the hash coordinates of the cube's corners.
        let a: i64 = lookup(int_x) as i64 + int_y;
        let aa: i64 = lookup(a) as i64 + int_z;
        let ab: i64 = lookup(a + 1) as i64 + int_z;
        let b: i64 = lookup(int_x + 1) as i64 + int_y;
        let ba: i64 = lookup(b) as i64 + int_z;
        let bb: i64 = lookup(b + 1) as i64 + int_z;

        // Compute the gradients and blend them along x, then y, then z.
        let near: i64 = Perlin::lerp(
            v,
            Perlin::lerp(
                u,
                Perlin::grad(lookup(aa), x, y, z),
                Perlin::grad(lookup(ba), x - ONE, y, z),
            ),
            Perlin::lerp(
                u,
                Perlin::grad(lookup(ab), x, y - ONE, z),
                Perlin::grad(lookup(bb), x - ONE, y - ONE, z),
            ),
        );
        let far: i64 = Perlin::lerp(
            v,
            Perlin::lerp(
                u,
                Perlin::grad(lookup(aa + 1), x, y, z - ONE),
                Perlin::grad(lookup(ba + 1), x - ONE, y, z - ONE),
            ),
            Perlin::lerp(
                u,
                Perlin::grad(lookup(ab + 1), x, y - ONE, z - ONE),
                Perlin::grad(lookup(bb + 1), x - ONE, y - ONE, z - ONE),
            ),
        );
        Perlin::lerp(w, near, far)
    }
}

} // verus!
