//! Deterministic gradient noise over three-dimensional space, computed
//! entirely in integer arithmetic.
//!
//! Coordinates, settings and results are fixed-point numbers with sixteen
//! fractional bits (see [`fixed`]). A point is hashed into a cell of the
//! integer lattice through a fixed permutation table ([`permutation`]), the
//! pseudo-random gradients at the eight corners of that cell are blended
//! with a quintic easing curve ([`lattice`], [`kernel`]), and several such
//! samples at growing frequency and shrinking amplitude are summed into one
//! value ([`fractal`], [`perlin`]).
//!
//! Every executable function carries a contract that states its result as a
//! function of its arguments over the mathematical integers. Proof functions
//! state what holds of these results in general: the table is a permutation,
//! the noise field is periodic, bounded and free of jumps ([`continuity`]),
//! and it vanishes on the lattice.

pub mod fixed;
pub mod permutation;
pub mod lattice;
pub mod kernel;
pub mod continuity;
pub mod fractal;
pub mod perlin;

pub use fixed::{Fixed, ONE};
pub use perlin::{Config, Perlin};
