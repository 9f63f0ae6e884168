//! Deterministic 2D gradient noise.
//!
//! A [`lattice::GradientLattice`] owns a rectangular grid of unit-length
//! gradient vectors generated from a 64-bit seed; a [`field::NoiseField`]
//! evaluates a smooth scalar field over that lattice by blending per-corner
//! dot products with a quintic fade. All scalars are Q32.32 fixed-point
//! numbers (see [`fixed`]), so every step of the computation is exact
//! integer arithmetic with a verified contract.

pub mod field;
pub mod fixed;
pub mod gradient;
pub mod lattice;
pub mod rng;

use vstd::prelude::*;

verus! {

/// Everything that a call into this library can fail with.
///
/// Each variant is a local precondition violation, reported synchronously
/// by the call whose input violates it.
#[derive(Clone, Copy, Debug, PartialEq, Eq, Structural)]
pub enum NoiseError {
    /// A lattice dimension was zero.
    InvalidDimensions,
    /// A corner index lay beyond the lattice extent.
    OutOfBounds,
    /// A sample point lay outside the covered continuous region.
    OutOfDomain,
}

} // verus!
