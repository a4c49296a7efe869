//! Curve points, spectrum entries, and the adapter between them.
//!
//! A coordinate is carried as an opaque 64-bit word in whatever numeric
//! encoding the caller uses; the library never does arithmetic on it.  The
//! all-zero word must encode the caller's number zero, which is what the
//! common machine encodings do.

use vstd::prelude::*;

verus! {

/// A planar sample point: one opaque coordinate word per axis.
#[derive(Clone, Copy, Debug, PartialEq, Eq, Structural)]
pub struct Point {
    pub x: u64,
    pub y: u64,
}

/// One complex sample: the real and imaginary coordinate words.
#[derive(Clone, Copy, Debug, PartialEq, Eq, Structural)]
pub struct Cpx {
    pub re: u64,
    pub im: u64,
}

/// The complex sample standing for zero: both words all-zero.
pub open spec fn cpx_zero() -> Cpx {
    Cpx { re: 0, im: 0 }
}

/// The complex sample that a point turns into: `z = x + i y`, word for word.
pub open spec fn cpx_of_point(p: Point) -> Cpx {
    Cpx { re: p.x, im: p.y }
}

/// The point that a complex sample turns back into: `(re, im)`.
pub open spec fn point_of_cpx(c: Cpx) -> Point {
    Point { x: c.re, y: c.im }
}

/// Adapter: a curve as a complex sequence, `z[i] = x[i] + i y[i]`.
pub fn curve_to_complex(curve: &Vec<Point>) -> (z: Vec<Cpx>)
    ensures
        z@.len() == curve@.len(),
        forall|i: int| 0 <= i < curve@.len() ==> #[trigger] z@[i] == cpx_of_point(curve@[i]),
{
    let mut z: Vec<Cpx> = Vec::new();
    let mut i: usize = 0;
    while i < curve.len()
        invariant
            i <= curve@.len(),
            z@.len() == i,
            forall|k: int| 0 <= k < i ==> #[trigger] z@[k] == cpx_of_point(curve@[k]),
        decreases curve@.len() - i,
    {
        let p = curve[i];
        z.push(Cpx { re: p.x, im: p.y });
        i = i + 1;
    }
    z
}

/// Adapter back: each complex sample emitted as the point `(re, im)`.
pub fn complex_to_curve(z: &Vec<Cpx>) -> (curve: Vec<Point>)
    ensures
        curve@.len() == z@.len(),
        forall|i: int| 0 <= i < z@.len() ==> #[trigger] curve@[i] == point_of_cpx(z@[i]),
{
    let mut curve: Vec<Point> = Vec::new();
    let mut i: usize = 0;
    while i < z.len()
        invariant
            i <= z@.len(),
            curve@.len() == i,
            forall|k: int| 0 <= k < i ==> #[trigger] curve@[k] == point_of_cpx(z@[k]),
        decreases z@.len() - i,
    {
        let c = z[i];
        curve.push(Point { x: c.re, y: c.im });
        i = i + 1;
    }
    curve
}

} // verus!
