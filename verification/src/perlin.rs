//! The noise generator and its configuration.

use vstd::prelude::*;
use crate::fixed::{add_saturating, div_saturating, mul_saturating, Fixed, ONE};
use crate::fractal::{
    amplitude, fractal_value, lemma_value_range, octave_coordinate, raw_sum, total_amplitude,
};

verus! {

/// The four settings of a generator, as mathematical values.
pub struct Config {
    /// How many octaves are summed.
    pub octave_count: nat,
    /// The factor applied to the coordinates before the first octave.
    pub frequency: int,
    /// The factor applied to the coordinates between successive octaves.
    pub lacunarity: int,
    /// The factor applied to the amplitude between successive octaves.
    pub persistence: int,
}

/// A generator of three-dimensional gradient noise.
pub struct Perlin {
    /// Controls the amount of detail.
    octave_count: usize,
    /// The frequency of the first octave.
    frequency: Fixed,
    /// The frequency multiplier between successive octaves.
    lacunarity: Fixed,
    /// Controls the roughness.
    persistence: Fixed,
}

impl View for Perlin {
    type V = Config;

    closed spec fn view(&self) -> Config {
        Config {
            octave_count: self.octave_count as nat,
            frequency: self.frequency as int,
            lacunarity: self.lacunarity as int,
            persistence: self.persistence as int,
        }
    }
}

impl Perlin {
    /// The settings of a freshly created generator: six octaves, frequency
    /// one, lacunarity two and persistence one half.
    pub open spec fn default_config() -> Config {
        Config { octave_count: 6, frequency: ONE as int, lacunarity: 2 * ONE, persistence: ONE / 2 }
    }

    /// Creates a generator with the default settings.
    pub fn new() -> (r: Perlin)
        ensures
            r@ == Self::default_config(),
    {
        Perlin { octave_count: 6, frequency: ONE, persistence: ONE / 2, lacunarity: 2 * ONE }
    }

    /// Sets the number of octaves.
    pub fn set_octave_count(&mut self, n: usize)
        ensures
            final(self)@ == (Config { octave_count: n as nat, ..old(self)@ }),
    {
        self.octave_count = n;
    }

    /// Sets the frequency of the first octave.
    pub fn set_frequency(&mut self, frequency: Fixed)
        ensures
            final(self)@ == (Config { frequency: frequency as int, ..old(self)@ }),
    {
        self.frequency = frequency;
    }

    /// Sets the persistence of the signal over successive octaves.
    pub fn set_persistence(&mut self, persistence: Fixed)
        ensures
            final(self)@ == (Config { persistence: persistence as int, ..old(self)@ }),
    {
        self.persistence = persistence;
    }

    /// Sets the frequency multiplier between successive octaves.
    pub fn set_lacuranity(&mut self, lacuranity: Fixed)
        ensures
            final(self)@ == (Config { lacunarity: lacuranity as int, ..old(self)@ }),
    {
        self.lacunarity = lacuranity;
    }
    /// Returns the noise value at the point `(x, y, z)` for the current
    /// settings.
    ///
    /// Without octaves the value is zero. With a persistence that is not
    /// negative the value lies between minus two and two.
    pub fn get_value(&self, x: Fixed, y: Fixed, z: Fixed) -> (r: Fixed)
        ensures
            r == fractal_value(self@, x as int, y as int, z as int),
            self@.octave_count == 0 ==> r == 0,
            self@.persistence >= 0 ==> -2 * ONE <= r <= 2 * ONE,
    {
        proof {
            if self@.persistence >= 0 {
                lemma_value_range(self@, x as int, y as int, z as int);
            }
        }
        // Apply the frequency.
        let mut px: Fixed = mul_saturating(x, self.frequency);
        let mut py: Fixed = mul_saturating(y, self.frequency);
        let mut pz: Fixed = mul_saturating(z, self.frequency);

        // The computed noise value.
        let mut value: Fixed = 0;
        // The current amplitude, which the persistence scales between octaves.
        let mut cur_persistence: Fixed = ONE;
        // The total amplitude is used to normalize the final value.
        let mut total: Fixed = 0;

        let mut octave: usize = 0;
        while octave < self.octave_count
            invariant
                octave <= self.octave_count,
                px == octave_coordinate(x as int, self@.frequency, self@.lacunarity, octave as nat),
                py == octave_coordinate(y as int, self@.frequency, self@.lacunarity, octave as nat),
                pz == octave_coordinate(z as int, self@.frequency, self@.lacunarity, octave as nat),
                cur_persistence == amplitude(self@.persistence, octave as nat),
                value == raw_sum(self@, x as int, y as int, z as int, octave as nat),
                total == total_amplitude(self@.persistence, octave as nat),
            decreases self.octave_count - octave,
        {
            // Compute the noise value.
            value = add_saturating(
                value,
                mul_saturating(self.generate_noise(px, py, pz), cur_persistence),
            );
            // Then prepare the next octave.
            px = mul_saturating(px, self.lacunarity);
            py = mul_saturating(py, self.lacunarity);
            pz = mul_saturating(pz, self.lacunarity);
            total = add_saturating(total, cur_persistence);
            cur_persistence = mul_saturating(cur_persistence, self.persistence);
            octave = octave + 1;
        }
        // Normalize if necessary.
        if value > ONE || value < -ONE {
            value = div_saturating(value, total);
        }
        value
    }
}

} // verus!
