//! The spectral surgery of the reconstructor: low-pass truncation of a
//! length-`n` spectrum to `h` harmonics, then resampling to `m` bins by
//! splicing zero bins into the high-frequency middle.
//!
//! The spectrum layout is the usual cyclic one: bin 0 is DC, low indices are
//! ascending positive frequencies, high indices stand for negative
//! frequencies.  With `n1 = h / 2` and `n2 = n1 + h % 2`, truncation keeps
//! the `n2` low bins `[0, n2)` (DC included) and the `n1` high bins
//! `[n - n1, n)`, zeroing the band between; the split favours the positive
//! low band when `h` is odd.  Resampling inserts `m - n` zero bins at
//! position `n1`.

use vstd::prelude::*;

use crate::point::cpx_zero;
use crate::point::Cpx;
use crate::FdError;

verus! {

/// Number of high (negative-frequency) bins kept for harmonic count `h`.
pub open spec fn high_keep(h: int) -> int {
    h / 2
}

/// Number of low (DC and positive-frequency) bins kept for harmonic count `h`.
pub open spec fn low_keep(h: int) -> int {
    h / 2 + h % 2
}

/// Bin `i` of the length-`n` spectrum `f` after low-pass truncation to `h`
/// harmonics: kept bins pass through, the band `[low_keep, n - high_keep)`
/// is zeroed.
pub open spec fn masked_bin(f: Seq<Cpx>, h: int, i: int) -> Cpx {
    if i < low_keep(h) || i >= f.len() - high_keep(h) {
        f[i]
    } else {
        cpx_zero()
    }
}

/// The truncated spectrum as a whole.
pub open spec fn masked_spectrum(f: Seq<Cpx>, h: int) -> Seq<Cpx> {
    Seq::new(f.len(), |i: int| masked_bin(f, h, i))
}

/// Bin `i` of the truncated spectrum after `m - n` zero bins have been
/// spliced in at position `high_keep(h)`.
pub open spec fn resampled_bin(f: Seq<Cpx>, h: int, m: int, i: int) -> Cpx {
    let pad = m - f.len();
    if i < high_keep(h) {
        masked_bin(f, h, i)
    } else if i < high_keep(h) + pad {
        cpx_zero()
    } else {
        masked_bin(f, h, i - pad)
    }
}

/// The full length-`m` spectrum that the surgery produces.
pub open spec fn resampled_spectrum(f: Seq<Cpx>, h: int, m: int) -> Seq<Cpx> {
    Seq::new(m as nat, |i: int| resampled_bin(f, h, m, i))
}

/// A sequence of `k` zero bins.
pub open spec fn zero_bins(k: int) -> Seq<Cpx> {
    Seq::new(k as nat, |i: int| cpx_zero())
}

/// The arguments on which the surgery is defined: at least one harmonic,
/// no more harmonics than bins, and no shrinking resample.
pub open spec fn valid_args(n: int, h: int, m: int) -> bool {
    1 <= h <= n <= m
}

/// Low-pass a spectrum to `harmonic` harmonics and resample it to `out_len`
/// bins by splicing zeros into the high-frequency middle.  Refuses, exactly,
/// a zero harmonic count, a harmonic count above the bin count, and an
/// output length below the input length.
pub fn truncate_and_resample(spectrum: &Vec<Cpx>, harmonic: usize, out_len: usize) -> (r: Result<
    Vec<Cpx>,
    FdError,
>)
    ensures
        valid_args(spectrum@.len() as int, harmonic as int, out_len as int) ==> (r matches Ok(v)
            && v@ == resampled_spectrum(spectrum@, harmonic as int, out_len as int)),
        !valid_args(spectrum@.len() as int, harmonic as int, out_len as int) ==> r === Err(
            FdError::InvalidArg,
        ),
{
    let n = spectrum.len();
    if harmonic == 0 || harmonic > n || out_len < n {
        return Err(FdError::InvalidArg);
    }
    let n1 = harmonic / 2;
    let n2 = n1 + harmonic % 2;
    let pad = out_len - n;
    let ghost hh = harmonic as int;
    let ghost mm = out_len as int;
    let mut out: Vec<Cpx> = Vec::new();
    let mut i: usize = 0;
    while i < out_len
        invariant
            valid_args(spectrum@.len() as int, hh, mm),
            n == spectrum@.len(),
            mm == out_len as int,
            n1 == hh / 2,
            n2 == hh / 2 + hh % 2,
            pad == mm - n,
            n1 + pad <= out_len,
            i <= out_len,
            out@.len() == i,
            forall|k: int| 0 <= k < i ==> #[trigger] out@[k] == resampled_bin(
                spectrum@,
                hh,
                mm,
                k,
            ),
        decreases out_len - i,
    {
        if i < n1 {
            out.push(spectrum[i]);
        } else if i < n1 + pad {
            out.push(Cpx { re: 0, im: 0 });
        } else {
            let j = i - pad;
            if j < n2 || j >= n - n1 {
                out.push(spectrum[j]);
            } else {
                out.push(Cpx { re: 0, im: 0 });
            }
        }
        i = i + 1;
    }
    proof {
        assert(out@ =~= resampled_spectrum(spectrum@, hh, mm));
    }
    Ok(out)
}

/// Law: at full bandwidth and unchanged length the surgery is the identity.
/// With `h == n` the zeroed band `[low_keep, n - high_keep)` is empty and
/// with `m == n` no zeros are spliced, so every bin passes through.
pub proof fn lemma_full_bandwidth_identity(f: Seq<Cpx>, h: int, m: int)
    requires
        h == f.len(),
        m == f.len(),
        1 <= h,
    ensures
        resampled_spectrum(f, h, m) == f,
{
    assert forall|i: int| 0 <= i < m implies resampled_spectrum(f, h, m)[i] == f[i] by {
        assert(low_keep(h) == f.len() - high_keep(h));
    }
    assert(resampled_spectrum(f, h, m) =~= f);
}

/// Law: the resampled spectrum is the truncated spectrum with the zero
/// block spliced in at `high_keep(h)`; nothing else moves or changes.
pub proof fn lemma_resample_decomposition(f: Seq<Cpx>, h: int, m: int)
    requires
        valid_args(f.len() as int, h, m),
    ensures
        resampled_spectrum(f, h, m) == masked_spectrum(f, h).subrange(0, high_keep(h)) + zero_bins(
            m - f.len(),
        ) + masked_spectrum(f, h).subrange(high_keep(h), f.len() as int),
{
    assert(0 <= high_keep(h) <= f.len());
    assert(resampled_spectrum(f, h, m) =~= masked_spectrum(f, h).subrange(0, high_keep(h))
        + zero_bins(m - f.len()) + masked_spectrum(f, h).subrange(high_keep(h), f.len() as int));
}

/// Law: resampling adds only zero bins.  The multiset of bins of the
/// resampled spectrum is the multiset of bins of the truncated spectrum
/// plus `m - n` zeros, so any quantity that depends on the bins alone and
/// ignores zeros — the reconstruction sample at parameter 0 is the sum of
/// all bins over the fixed input length — does not depend on `m`.
pub proof fn lemma_resample_adds_only_zeros(f: Seq<Cpx>, h: int, m: int)
    requires
        valid_args(f.len() as int, h, m),
    ensures
        resampled_spectrum(f, h, m).to_multiset() == masked_spectrum(f, h).to_multiset().add(
            zero_bins(m - f.len()).to_multiset(),
        ),
{
    lemma_resample_decomposition(f, h, m);
    let lo = masked_spectrum(f, h).subrange(0, high_keep(h));
    let hi = masked_spectrum(f, h).subrange(high_keep(h), f.len() as int);
    let z = zero_bins(m - f.len());
    vstd::seq_lib::lemma_multiset_commutative(lo + z, hi);
    vstd::seq_lib::lemma_multiset_commutative(lo, z);
    vstd::seq_lib::lemma_multiset_commutative(lo, hi);
    assert(lo + hi =~= masked_spectrum(f, h));
    assert(resampled_spectrum(f, h, m).to_multiset() == lo.to_multiset().add(z.to_multiset()).add(
        hi.to_multiset(),
    ));
    assert(lo.to_multiset().add(z.to_multiset()).add(hi.to_multiset()) =~= masked_spectrum(
        f,
        h,
    ).to_multiset().add(z.to_multiset()));
}

/// Law: for an even harmonic count at or below half the bin count, the
/// first `h` bins of the resampled spectrum equal the first `h` bins of the
/// truncated spectrum, so resampling preserves the low-frequency content.
/// (For an odd `h` the highest kept positive bin, bin `h / 2`, sits at the
/// splice position and is pushed past the zero block, so the statement
/// holds only of the first `h / 2` bins.)
pub proof fn lemma_low_band_preserved(f: Seq<Cpx>, h: int, m: int)
    requires
        1 <= h,
        h % 2 == 0,
        2 * h <= f.len(),
        f.len() <= m,
    ensures
        forall|i: int|
            0 <= i < h ==> #[trigger] resampled_bin(f, h, m, i) == masked_bin(f, h, i),
{
    assert forall|i: int| 0 <= i < h implies #[trigger] resampled_bin(f, h, m, i) == masked_bin(
        f,
        h,
        i,
    ) by {
        let pad = m - f.len();
        if i < high_keep(h) {
        } else if i < high_keep(h) + pad {
            assert(low_keep(h) <= i);
            assert(i < f.len() - high_keep(h));
            assert(masked_bin(f, h, i) == cpx_zero());
        } else {
            let j = i - pad;
            assert(low_keep(h) <= j < f.len() - high_keep(h));
            assert(low_keep(h) <= i < f.len() - high_keep(h));
        }
    }
}

} // verus!

