//! Spectral reconstruction of planar curves from a finite harmonic expansion.
//!
//! The library owns the exact, discrete part of the pipeline: the spectral
//! low-pass-and-resample surgery, the energy-threshold harmonic selection,
//! open-curve symmetrization, the point/complex adapter, and the packing of
//! least-squares solutions into per-harmonic coefficient rows.  Coordinates
//! travel through it as opaque 64-bit words that it never interprets
//! numerically: it only moves, copies, zeroes and compares them, so every
//! statement here is exact.  The numeric transforms around it (the forward
//! and inverse transforms, the normal-equation solve) are the caller's.

use vstd::prelude::*;

pub mod coeffs;
pub mod energy;
pub mod point;
pub mod spectrum;
pub mod symmetry;

pub use coeffs::repack_real_coeffs;
pub use coeffs::HarmonicCoef;
pub use energy::choose_harmonic_by_energy;
pub use spectrum::truncate_and_resample;
pub use symmetry::default_resample_len;
pub use symmetry::prepare_curve;
pub use symmetry::symmetrize;
pub use point::complex_to_curve;
pub use point::curve_to_complex;
pub use point::Cpx;
pub use point::Point;

verus! {

/// Why a request was refused.
#[derive(Clone, Copy, Debug, PartialEq, Eq, Structural)]
pub enum FdError {
    /// A length or harmonic count outside the allowed range.
    InvalidArg,
    /// The normal-equation system handed back by the caller's solver had no
    /// unique solution.
    SingularSystem,
    /// A non-finite value was detected in a computed result.
    NumericOverflow,
}

} // verus!
