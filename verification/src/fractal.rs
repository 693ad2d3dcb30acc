//! The mathematical model of the sum over octaves.
//!
//! Octave `k` samples the lattice noise at coordinates that were scaled by
//! the frequency and then `k` times by the lacunarity, and weighs the sample
//! with an amplitude that starts at one and was scaled `k` times by the
//! persistence. The weighted samples are summed, and the sum is divided by
//! the sum of the amplitudes only if it lies outside the unit range.

use vstd::prelude::*;
use vstd::arithmetic::div_mod::{
    lemma_div_is_ordered, lemma_div_multiples_vanish, lemma_fundamental_div_mod,
    lemma_fundamental_div_mod_converse, lemma_mod_bound,
};
use crate::fixed::{product, quotient, saturate, LIMIT, ONE};
use crate::continuity::{distance, lemma_noise_lipschitz};
use crate::lattice::{lattice_noise, lemma_noise_bound, lemma_noise_on_lattice, offset};
use crate::perlin::Config;

verus! {

/// The coordinate at which octave `k` samples, for the input coordinate `c`.
pub open spec fn octave_coordinate(c: int, frequency: int, lacunarity: int, k: nat) -> int
    decreases k,
{
    if k == 0 {
        saturate(product(c, frequency))
    } else {
        saturate(product(octave_coordinate(c, frequency, lacunarity, (k - 1) as nat), lacunarity))
    }
}

/// The amplitude of octave `k`.
pub open spec fn amplitude(persistence: int, k: nat) -> int
    decreases k,
{
    if k == 0 {
        ONE as int
    } else {
        saturate(product(amplitude(persistence, (k - 1) as nat), persistence))
    }
}

/// The lattice noise that octave `k` samples for the point `(x, y, z)`.
pub open spec fn octave_sample(config: Config, x: int, y: int, z: int, k: nat) -> int {
    lattice_noise(
        octave_coordinate(x, config.frequency, config.lacunarity, k),
        octave_coordinate(y, config.frequency, config.lacunarity, k),
        octave_coordinate(z, config.frequency, config.lacunarity, k),
    )
}

/// The sum of the weighted samples of the first `n` octaves.
pub open spec fn raw_sum(config: Config, x: int, y: int, z: int, n: nat) -> int
    decreases n,
{
    if n == 0 {
        0
    } else {
        let k = (n - 1) as nat;
        saturate(
            raw_sum(config, x, y, z, k) + saturate(
                product(octave_sample(config, x, y, z, k), amplitude(config.persistence, k)),
            ),
        )
    }
}

/// The sum of the amplitudes of the first `n` octaves.
pub open spec fn total_amplitude(persistence: int, n: nat) -> int
    decreases n,
{
    if n == 0 {
        0
    } else {
        saturate(
            total_amplitude(persistence, (n - 1) as nat) + amplitude(persistence, (n - 1) as nat),
        )
    }
}

/// A sum inside the unit range is left as it is; a sum outside of it is
/// divided by the total amplitude.
pub open spec fn normalize(value: int, total: int) -> int {
    if value > ONE || value < -ONE {
        quotient(value, total)
    } else {
        value
    }
}

/// The noise value of a generator with the settings `config` at `(x, y, z)`.
pub open spec fn fractal_value(config: Config, x: int, y: int, z: int) -> int {
    normalize(
        raw_sum(config, x, y, z, config.octave_count),
        total_amplitude(config.persistence, config.octave_count),
    )
}

/// The product of a value of magnitude at most `m` with a non-negative
/// weight has magnitude at most `m` times the weight.
proof fn lemma_product_bounds(a: int, b: int, m: int)
    requires
        0 <= b,
        -m * ONE <= a <= m * ONE,
    ensures
        -(m * b) <= product(a, b) <= m * b,
{
    let c = m * b;
    assert(-(65536 * c) <= a * b <= 65536 * c) by (nonlinear_arith)
        requires
            0 <= b,
            -m * 65536 <= a <= m * 65536,
            c == m * b,
    ;
}

/// The product of two non-negative values grows with both of them.
proof fn lemma_product_monotonic(a: int, b: int, c: int, d: int)
    requires
        0 <= a <= c,
        0 <= b <= d,
    ensures
        0 <= product(a, b) <= product(c, d),
{
    assert(0 <= a * b <= c * d) by (nonlinear_arith)
        requires
            0 <= a <= c,
            0 <= b <= d,
    ;
}

/// With a non-negative persistence no amplitude is negative.
pub proof fn lemma_amplitude_nonnegative(persistence: int, k: nat)
    requires
        0 <= persistence,
    ensures
        0 <= amplitude(persistence, k) <= LIMIT,
    decreases k,
{
    if k > 0 {
        lemma_amplitude_nonnegative(persistence, (k - 1) as nat);
        lemma_product_monotonic(0, 0, amplitude(persistence, (k - 1) as nat), persistence);
    }
}

/// With a persistence between zero and one the amplitudes never grow from
/// one octave to the next.
pub proof fn lemma_amplitude_decays(persistence: int, k: nat)
    requires
        0 <= persistence <= ONE,
    ensures
        0 <= amplitude(persistence, k + 1) <= amplitude(persistence, k) <= ONE,
    decreases k,
{
    if k > 0 {
        lemma_amplitude_decays(persistence, (k - 1) as nat);
    }
    let a = amplitude(persistence, k);
    lemma_product_monotonic(0, 0, a, persistence);
    lemma_product_monotonic(a, persistence, a, ONE as int);
    assert(product(a, ONE as int) == a) by {
        assert(a * ONE == 65536 * a) by (nonlinear_arith);
    }
}

/// A larger persistence gives every octave at least as large an amplitude.
pub proof fn lemma_amplitude_monotonic(smaller: int, larger: int, k: nat)
    requires
        0 <= smaller <= larger,
    ensures
        amplitude(smaller, k) <= amplitude(larger, k),
    decreases k,
{
    if k > 0 {
        let j = (k - 1) as nat;
        lemma_amplitude_monotonic(smaller, larger, j);
        lemma_amplitude_nonnegative(smaller, j);
        lemma_product_monotonic(amplitude(smaller, j), smaller, amplitude(larger, j), larger);
    }
}

/// Where every sample of the first `n` octaves has magnitude at most `m`,
/// the sum of the weighted samples has magnitude at most `m` times the sum
/// of the amplitudes.
pub proof fn lemma_sum_bounded_by_samples(config: Config, x: int, y: int, z: int, m: int, n: nat)
    requires
        0 <= config.persistence,
        1 <= m,
        forall|k: nat| k < n ==> -m * ONE <= #[trigger] octave_sample(config, x, y, z, k) <= m * ONE,
    ensures
        0 <= total_amplitude(config.persistence, n) <= LIMIT,
        -(m * total_amplitude(config.persistence, n)) <= raw_sum(config, x, y, z, n) <= m
            * total_amplitude(config.persistence, n),
    decreases n,
{
    if n > 0 {
        let k = (n - 1) as nat;
        lemma_sum_bounded_by_samples(config, x, y, z, m, k);
        lemma_amplitude_nonnegative(config.persistence, k);
        let a = amplitude(config.persistence, k);
        let t = total_amplitude(config.persistence, k);
        let sample = octave_sample(config, x, y, z, k);
        lemma_product_bounds(sample, a, m);
        assert(m * (t + a) == m * t + m * a && m * LIMIT >= LIMIT) by (nonlinear_arith)
            requires
                1 <= m,
        ;
    }
}

/// Where every octave's sample has magnitude at most `m`, so has the noise
/// value, for each whole number `m` from one up.
pub proof fn lemma_value_bounded_by_samples(config: Config, x: int, y: int, z: int, m: int)
    requires
        0 <= config.persistence,
        1 <= m,
        forall|k: nat|
            k < config.octave_count ==> -m * ONE <= #[trigger] octave_sample(config, x, y, z, k)
                <= m * ONE,
    ensures
        -m * ONE <= fractal_value(config, x, y, z) <= m * ONE,
{
    let n = config.octave_count;
    lemma_sum_bounded_by_samples(config, x, y, z, m, n);
    let value = raw_sum(config, x, y, z, n);
    let total = total_amplitude(config.persistence, n);
    assert(m * ONE >= ONE) by (nonlinear_arith)
        requires
            1 <= m,
    ;
    if value > ONE || value < -ONE {
        let bound = m * ONE;
        assert(total > 0 && -(bound * total) <= value * ONE <= bound * total) by (nonlinear_arith)
            requires
                -(m * total) <= value <= m * total,
                value > 65536 || value < -65536,
                0 <= total,
                1 <= m,
                bound == m * 65536,
        ;
        let high = total * bound;
        let low = total * (-bound);
        assert(high == bound * total && low == -(bound * total)) by (nonlinear_arith)
            requires
                high == total * bound,
                low == total * (-bound),
        ;
        lemma_div_is_ordered(value * ONE, high, total);
        lemma_div_is_ordered(low, value * ONE, total);
        lemma_div_multiples_vanish(bound, total);
        lemma_div_multiples_vanish(-bound, total);
    }
}

/// The noise value never exceeds two in magnitude when the persistence is
/// not negative.
pub proof fn lemma_value_range(config: Config, x: int, y: int, z: int)
    requires
        0 <= config.persistence,
    ensures
        -2 * ONE <= fractal_value(config, x, y, z) <= 2 * ONE,
{
    assert forall|k: nat| k < config.octave_count implies -2 * ONE <= #[trigger] octave_sample(
        config,
        x,
        y,
        z,
        k,
    ) <= 2 * ONE by {
        lemma_noise_bound(
            octave_coordinate(x, config.frequency, config.lacunarity, k),
            octave_coordinate(y, config.frequency, config.lacunarity, k),
            octave_coordinate(z, config.frequency, config.lacunarity, k),
        );
    }
    lemma_value_bounded_by_samples(config, x, y, z, 2);
}

/// Where the first `n` octaves all sample on points of the lattice, their
/// weighted samples sum to zero.
pub proof fn lemma_sum_on_lattice(config: Config, x: int, y: int, z: int, n: nat)
    requires
        forall|k: nat|
            k < n ==> offset(#[trigger] octave_coordinate(x, config.frequency, config.lacunarity, k))
                == 0 && offset(octave_coordinate(y, config.frequency, config.lacunarity, k)) == 0
                && offset(octave_coordinate(z, config.frequency, config.lacunarity, k)) == 0,
    ensures
        raw_sum(config, x, y, z, n) == 0,
    decreases n,
{
    if n > 0 {
        let k = (n - 1) as nat;
        lemma_sum_on_lattice(config, x, y, z, k);
        let cx = octave_coordinate(x, config.frequency, config.lacunarity, k);
        lemma_noise_on_lattice(
            cx,
            octave_coordinate(y, config.frequency, config.lacunarity, k),
            octave_coordinate(z, config.frequency, config.lacunarity, k),
        );
        assert(0 * amplitude(config.persistence, k) == 0) by (nonlinear_arith);
    }
}

/// Where every octave samples on a point of the lattice, the noise value is
/// zero. With a single octave this is the case whenever the scaled point
/// itself lies on the lattice.
pub proof fn lemma_value_on_lattice(config: Config, x: int, y: int, z: int)
    requires
        forall|k: nat|
            k < config.octave_count ==> offset(
                #[trigger] octave_coordinate(x, config.frequency, config.lacunarity, k),
            ) == 0 && offset(octave_coordinate(y, config.frequency, config.lacunarity, k)) == 0
                && offset(octave_coordinate(z, config.frequency, config.lacunarity, k)) == 0,
    ensures
        fractal_value(config, x, y, z) == 0,
{
    lemma_sum_on_lattice(config, x, y, z, config.octave_count);
}

/// With a single octave the noise value is that octave's sample, whether
/// or not it lies in the unit range.
pub proof fn lemma_single_octave(config: Config, x: int, y: int, z: int)
    requires
        config.octave_count == 1,
    ensures
        fractal_value(config, x, y, z) == octave_sample(config, x, y, z, 0),
{
    let sample = octave_sample(config, x, y, z, 0);
    lemma_noise_bound(
        octave_coordinate(x, config.frequency, config.lacunarity, 0),
        octave_coordinate(y, config.frequency, config.lacunarity, 0),
        octave_coordinate(z, config.frequency, config.lacunarity, 0),
    );
    assert(sample * ONE == 65536 * sample) by (nonlinear_arith);
    assert(raw_sum(config, x, y, z, 0) == 0);
    assert(raw_sum(config, x, y, z, 1) == sample);
    assert(total_amplitude(config.persistence, 0) == 0);
    assert(total_amplitude(config.persistence, 1) == ONE);
}

/// The distance between the points at which octave `k` samples for the
/// inputs `(x, y, z)` and `(a, b, c)`.
pub open spec fn octave_distance(
    config: Config,
    x: int,
    y: int,
    z: int,
    a: int,
    b: int,
    c: int,
    k: nat,
) -> int {
    distance(
        octave_coordinate(x, config.frequency, config.lacunarity, k),
        octave_coordinate(y, config.frequency, config.lacunarity, k),
        octave_coordinate(z, config.frequency, config.lacunarity, k),
        octave_coordinate(a, config.frequency, config.lacunarity, k),
        octave_coordinate(b, config.frequency, config.lacunarity, k),
        octave_coordinate(c, config.frequency, config.lacunarity, k),
    )
}

/// The distances between the sample points of the first `n` octaves, summed.
pub open spec fn path_distance(
    config: Config,
    x: int,
    y: int,
    z: int,
    a: int,
    b: int,
    c: int,
    n: nat,
) -> int
    decreases n,
{
    if n == 0 {
        0
    } else {
        path_distance(config, x, y, z, a, b, c, (n - 1) as nat) + octave_distance(
            config,
            x,
            y,
            z,
            a,
            b,
            c,
            (n - 1) as nat,
        )
    }
}

/// The magnitude of a number.
pub open spec fn magnitude(v: int) -> int {
    if v >= 0 {
        v
    } else {
        -v
    }
}

/// Scaling two coordinates by the same factor scales their distance by the
/// magnitude of that factor, up to one unit of rounding.
pub proof fn lemma_scaling_step(u: int, v: int, factor: int)
    ensures
        magnitude(saturate(product(v, factor)) - saturate(product(u, factor))) <= (magnitude(v - u)
            * magnitude(factor)) / (ONE as int) + 1,
{
    let gap = magnitude(v - u);
    let size = magnitude(factor);
    let spread = gap * size;
    assert(-spread <= v * factor - u * factor <= spread) by (nonlinear_arith)
        requires
            gap == if v >= u { v - u } else { u - v },
            size == if factor >= 0 { factor } else { -factor },
            spread == gap * size,
    ;
}

/// The first octave samples two points at a distance of at most the
/// distance of the inputs scaled by the frequency, and each later octave at
/// most the previous octave's distance scaled by the lacunarity, up to three
/// units of rounding.
pub proof fn lemma_octave_distance_growth(
    config: Config,
    x: int,
    y: int,
    z: int,
    a: int,
    b: int,
    c: int,
    k: nat,
)
    ensures
        octave_distance(config, x, y, z, a, b, c, 0) <= (distance(x, y, z, a, b, c) * magnitude(
            config.frequency,
        )) / (ONE as int) + 3,
        octave_distance(config, x, y, z, a, b, c, k + 1) <= (octave_distance(
            config,
            x,
            y,
            z,
            a,
            b,
            c,
            k,
        ) * magnitude(config.lacunarity)) / (ONE as int) + 3,
{
    lemma_distance_scaled(x, y, z, a, b, c, config.frequency);
    lemma_distance_scaled(
        octave_coordinate(x, config.frequency, config.lacunarity, k),
        octave_coordinate(y, config.frequency, config.lacunarity, k),
        octave_coordinate(z, config.frequency, config.lacunarity, k),
        octave_coordinate(a, config.frequency, config.lacunarity, k),
        octave_coordinate(b, config.frequency, config.lacunarity, k),
        octave_coordinate(c, config.frequency, config.lacunarity, k),
        config.lacunarity,
    );
}

/// Scaling two points by the same factor scales their distance by the
/// magnitude of that factor, up to three units of rounding.
proof fn lemma_distance_scaled(x: int, y: int, z: int, a: int, b: int, c: int, factor: int)
    ensures
        distance(
            saturate(product(x, factor)),
            saturate(product(y, factor)),
            saturate(product(z, factor)),
            saturate(product(a, factor)),
            saturate(product(b, factor)),
            saturate(product(c, factor)),
        ) <= (distance(x, y, z, a, b, c) * magnitude(factor)) / (ONE as int) + 3,
{
    lemma_scaling_step(x, a, factor);
    lemma_scaling_step(y, b, factor);
    lemma_scaling_step(z, c, factor);
    let size = magnitude(factor);
    let gx = magnitude(a - x);
    let gy = magnitude(b - y);
    let gz = magnitude(c - z);
    let sx = gx * size;
    let sy = gy * size;
    let sz = gz * size;
    assert((gx + gy + gz) * size == sx + sy + sz && sx >= 0 && sy >= 0 && sz >= 0)
        by (nonlinear_arith)
        requires
            sx == gx * size,
            sy == gy * size,
            sz == gz * size,
            gx >= 0,
            gy >= 0,
            gz >= 0,
            size >= 0,
    ;
    assert(sx / 65536 + sy / 65536 + sz / 65536 <= (sx + sy + sz) / 65536);
}

/// Where two values differ by at most `e`, their products with a weight of
/// magnitude at most one differ by at most `e`.
proof fn lemma_weighted_step(s: int, t: int, weight: int, e: int)
    requires
        -ONE <= weight <= ONE,
        -e <= t - s <= e,
    ensures
        -e <= saturate(product(t, weight)) - saturate(product(s, weight)) <= e,
{
    assert(-(65536 * e) <= t * weight - s * weight <= 65536 * e) by (nonlinear_arith)
        requires
            -65536 <= weight <= 65536,
            -e <= t - s <= e,
    ;
}

/// With a persistence between zero and one, the sums of the weighted
/// samples at two points differ by at most nine times the summed distances
/// between the octaves' sample points.
pub proof fn lemma_sum_lipschitz(
    config: Config,
    x: int,
    y: int,
    z: int,
    a: int,
    b: int,
    c: int,
    n: nat,
)
    requires
        0 <= config.persistence <= ONE,
    ensures
        0 <= path_distance(config, x, y, z, a, b, c, n),
        -9 * path_distance(config, x, y, z, a, b, c, n) <= raw_sum(config, a, b, c, n) - raw_sum(
            config,
            x,
            y,
            z,
            n,
        ) <= 9 * path_distance(config, x, y, z, a, b, c, n),
    decreases n,
{
    if n > 0 {
        let k = (n - 1) as nat;
        lemma_sum_lipschitz(config, x, y, z, a, b, c, k);
        if k > 0 {
            lemma_amplitude_decays(config.persistence, (k - 1) as nat);
        }
        lemma_noise_lipschitz(
            octave_coordinate(x, config.frequency, config.lacunarity, k),
            octave_coordinate(y, config.frequency, config.lacunarity, k),
            octave_coordinate(z, config.frequency, config.lacunarity, k),
            octave_coordinate(a, config.frequency, config.lacunarity, k),
            octave_coordinate(b, config.frequency, config.lacunarity, k),
            octave_coordinate(c, config.frequency, config.lacunarity, k),
        );
        lemma_weighted_step(
            octave_sample(config, x, y, z, k),
            octave_sample(config, a, b, c, k),
            amplitude(config.persistence, k),
            9 * octave_distance(config, x, y, z, a, b, c, k),
        );
    }
}

/// From the first octave on, the total amplitude is at least one when the
/// persistence is not negative.
pub proof fn lemma_total_at_least_one(persistence: int, n: nat)
    requires
        0 <= persistence,
        1 <= n,
    ensures
        ONE <= total_amplitude(persistence, n),
    decreases n,
{
    if n > 1 {
        lemma_total_at_least_one(persistence, (n - 1) as nat);
        lemma_amplitude_nonnegative(persistence, (n - 1) as nat);
    } else {
        assert(total_amplitude(persistence, 0) == 0);
    }
}

/// Where two sums differ by at most `e`, their quotients by a total of at
/// least one differ by at most `e`.
proof fn lemma_quotient_step(s: int, t: int, total: int, e: int)
    requires
        ONE <= total,
        -e <= t - s <= e,
    ensures
        -e <= quotient(t, total) - quotient(s, total) <= e,
{
    let low = s * ONE - e * total;
    let high = s * ONE + e * total;
    assert(low <= t * ONE <= high) by (nonlinear_arith)
        requires
            65536 <= total,
            -e <= t - s <= e,
            low == s * 65536 - e * total,
            high == s * 65536 + e * total,
    ;
    lemma_div_is_ordered(low, t * ONE, total);
    lemma_div_is_ordered(t * ONE, high, total);
    let q = (s * ONE) / total;
    let r = (s * ONE) % total;
    lemma_fundamental_div_mod(s * ONE, total);
    lemma_mod_bound(s * ONE, total);
    assert(high == (q + e) * total + r && low == (q - e) * total + r) by (nonlinear_arith)
        requires
            s * ONE == total * q + r,
            low == s * ONE - e * total,
            high == s * ONE + e * total,
    ;
    lemma_fundamental_div_mod_converse(high, total, q + e, r);
    lemma_fundamental_div_mod_converse(low, total, q - e, r);
}

/// With a persistence between zero and one, the noise values at two points
/// whose sums lie on the same side of the unit range differ by at most nine
/// times the summed distances between the octaves' sample points.
pub proof fn lemma_value_lipschitz(config: Config, x: int, y: int, z: int, a: int, b: int, c: int)
    requires
        0 <= config.persistence <= ONE,
        ({
            let there = raw_sum(config, a, b, c, config.octave_count);
            let here = raw_sum(config, x, y, z, config.octave_count);
            (there > ONE || there < -ONE) == (here > ONE || here < -ONE)
        }),
    ensures
        -9 * path_distance(config, x, y, z, a, b, c, config.octave_count) <= fractal_value(
            config,
            a,
            b,
            c,
        ) - fractal_value(config, x, y, z) <= 9 * path_distance(
            config,
            x,
            y,
            z,
            a,
            b,
            c,
            config.octave_count,
        ),
{
    let n = config.octave_count;
    lemma_sum_lipschitz(config, x, y, z, a, b, c, n);
    let here = raw_sum(config, x, y, z, n);
    let there = raw_sum(config, a, b, c, n);
    if here > ONE || here < -ONE {
        assert(n >= 1);
        lemma_total_at_least_one(config.persistence, n);
        lemma_quotient_step(
            here,
            there,
            total_amplitude(config.persistence, n),
            9 * path_distance(config, x, y, z, a, b, c, n),
        );
    }
}

} // verus!
