//! Open-curve symmetrization and the driver's input preparation.
//!
//! An open curve `p[0..n)` is reflected into
//! `p[0], ..., p[n-1], p[n-2], ..., p[1]`, an implicitly closed sequence of
//! even length `2n - 2` that is suitable for cyclic spectral
//! reconstruction.

use vstd::prelude::*;

use crate::point::Point;

verus! {

/// The reflected extension of an open curve: the curve itself followed by
/// its interior in reverse order.
pub open spec fn symmetrized(p: Seq<Point>) -> Seq<Point> {
    Seq::new((2 * p.len() - 2) as nat, |i: int| if i < p.len() { p[i] } else { p[2 * p.len() - 2 - i] })
}

/// Reflect an open curve into a closed, even-symmetric sequence of length
/// `2n - 2`.
pub fn symmetrize(curve: &Vec<Point>) -> (sym: Vec<Point>)
    requires
        curve@.len() >= 2,
    ensures
        sym@.len() == 2 * curve@.len() - 2,
        sym@ == symmetrized(curve@),
        forall|i: int| 0 <= i < curve@.len() ==> #[trigger] sym@[i] == curve@[i],
        forall|i: int| 1 <= i < sym@.len() ==> #[trigger] sym@[i] == sym@[sym@.len() - i],
{
    let n = curve.len();
    let mut sym: Vec<Point> = Vec::new();
    let mut i: usize = 0;
    while i < n
        invariant
            n == curve@.len(),
            i <= n,
            sym@.len() == i,
            forall|k: int| 0 <= k < i ==> #[trigger] sym@[k] == curve@[k],
        decreases n - i,
    {
        sym.push(curve[i]);
        i = i + 1;
    }
    let mut j: usize = n - 2;
    while j >= 1
        invariant
            n == curve@.len(),
            n >= 2,
            j <= n - 2,
            sym@.len() == n + (n - 2 - j),
            forall|k: int| 0 <= k < n ==> #[trigger] sym@[k] == curve@[k],
            forall|k: int| n <= k < sym@.len() ==> #[trigger] sym@[k] == curve@[2 * n - 2 - k],
        decreases j,
    {
        sym.push(curve[j]);
        j = j - 1;
    }
    proof {
        assert(sym@ =~= symmetrized(curve@));
        let q = symmetrized(curve@);
        let ln = q.len() as int;
        assert forall|i: int| 1 <= i < ln implies #[trigger] q[i] == q[ln - i] by {
            let nn = curve@.len() as int;
            if i < nn {
                assert(q[ln - i] == q[i]);
            }
        }
    }
    sym
}

/// The reconstruction driver's input step: an open curve is symmetrized
/// before spectral reconstruction, a closed one passes through unchanged.
pub fn prepare_curve(curve: &Vec<Point>, is_open: bool) -> (prep: Vec<Point>)
    requires
        curve@.len() >= 2,
    ensures
        is_open ==> prep@ == symmetrized(curve@),
        !is_open ==> prep@ == curve@,
{
    if is_open {
        symmetrize(curve)
    } else {
        let mut copy: Vec<Point> = Vec::new();
        let mut i: usize = 0;
        while i < curve.len()
            invariant
                i <= curve@.len(),
                copy@.len() == i,
                forall|k: int| 0 <= k < i ==> #[trigger] copy@[k] == curve@[k],
            decreases curve@.len() - i,
        {
            copy.push(curve[i]);
            i = i + 1;
        }
        proof {
            assert(copy@ =~= curve@);
        }
        copy
    }
}

/// The driver's default output length: twice the sample count for an open
/// curve (which is symmetrized to just under that length first), four
/// times the sample count for a closed one.
pub fn default_resample_len(n: usize, is_open: bool) -> (m: usize)
    requires
        n <= usize::MAX / 4,
    ensures
        is_open ==> m == 2 * n,
        !is_open ==> m == 4 * n,
{
    if is_open {
        2 * n
    } else {
        4 * n
    }
}

} // verus!
