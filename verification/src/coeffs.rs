//! Packing a normal-equation solution into per-harmonic coefficient rows.
//!
//! The real-basis least-squares fit solves one system per axis over the
//! stacked basis (cosine rows first, then sine rows), so the solution
//! arrives as `2h` rows of per-axis word pairs: row `k < h` holds the
//! cosine coefficients of harmonic `k + 1`, row `h + k` its sine
//! coefficients.  The synthesizer wants one row per harmonic in the order
//! (x-cosine, y-cosine, x-sine, y-sine); this module owns that reshuffle.

use vstd::prelude::*;

use crate::point::Point;
use crate::FdError;

verus! {

/// The four coefficient words of one harmonic, in synthesizer order:
/// x-cosine, y-cosine, x-sine, y-sine.
#[derive(Clone, Copy, Debug, PartialEq, Eq, Structural)]
pub struct HarmonicCoef {
    pub cos_x: u64,
    pub cos_y: u64,
    pub sin_x: u64,
    pub sin_y: u64,
}

/// The coefficient row of harmonic `k` (0-based) drawn from a stacked
/// solution of `2h` per-axis pairs.
pub open spec fn coef_row(sol: Seq<Point>, h: int, k: int) -> HarmonicCoef {
    HarmonicCoef {
        cos_x: sol[k].x,
        cos_y: sol[k].y,
        sin_x: sol[h + k].x,
        sin_y: sol[h + k].y,
    }
}

/// Repack a stacked least-squares solution (`2 * harmonic` rows: cosines,
/// then sines) into one four-word row per harmonic.  Refuses, exactly, a
/// solution whose row count is not `2 * harmonic`.
pub fn repack_real_coeffs(sol: &Vec<Point>, harmonic: usize) -> (r: Result<
    Vec<HarmonicCoef>,
    FdError,
>)
    ensures
        sol@.len() == 2 * harmonic ==> (r matches Ok(c) && c@.len() == harmonic as int && forall|
            k: int,
        |
            0 <= k < harmonic ==> #[trigger] c@[k] == coef_row(sol@, harmonic as int, k)),
        sol@.len() != 2 * harmonic ==> r === Err(FdError::InvalidArg),
{
    if sol.len() % 2 != 0 || sol.len() / 2 != harmonic {
        return Err(FdError::InvalidArg);
    }
    let mut c: Vec<HarmonicCoef> = Vec::new();
    let mut k: usize = 0;
    while k < harmonic
        invariant
            sol@.len() == 2 * harmonic,
            sol@.len() <= usize::MAX,
            k <= harmonic,
            c@.len() == k,
            forall|j: int| 0 <= j < k ==> #[trigger] c@[j] == coef_row(sol@, harmonic as int, j),
        decreases harmonic - k,
    {
        let cos = sol[k];
        let sin = sol[harmonic + k];
        c.push(HarmonicCoef { cos_x: cos.x, cos_y: cos.y, sin_x: sin.x, sin_y: sin.y });
        k = k + 1;
    }
    Ok(c)
}

} // verus!
