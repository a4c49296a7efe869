//! The spectral energy analyzer: choose the smallest harmonic count whose
//! largest bins hold a given fraction of the total power.
//!
//! The per-bin energies arrive as non-negative integers on whatever fixed
//! scale the caller quantized them to, and the threshold as an exact
//! fraction `tau_num / tau_den`; every comparison here is exact integer
//! arithmetic, so the selection rule itself carries a full proof.  The
//! energies are sorted in descending order, their running sum is formed,
//! and the answer is the smallest count `h` whose running sum reaches the
//! threshold fraction of the total.

use vstd::prelude::*;

use vstd::relations::sorted_by;
use vstd::relations::total_ordering;
use vstd::seq_lib::lemma_sorted_unique;

verus! {

/// Descending order on energies, phrased as "is at least".
pub open spec fn energy_order() -> spec_fn(u32, u32) -> bool {
    |a: u32, b: u32| a >= b
}

pub proof fn lemma_energy_order_total()
    ensures
        total_ordering(energy_order()),
{
    let r = energy_order();
    assert forall|x: u32| #[trigger] r(x, x) by {}
}

/// The energies in descending order.
pub open spec fn sorted_energies(s: Seq<u32>) -> Seq<u32> {
    s.sort_by(energy_order())
}

/// Sum of the first `k` entries of a sequence of energies.
pub open spec fn prefix_energy(s: Seq<u32>, k: int) -> int
    decreases k,
{
    if k <= 0 {
        0
    } else {
        prefix_energy(s, k - 1) + s[k - 1]
    }
}

/// The total power: the sum of all energies.
pub open spec fn total_energy(s: Seq<u32>) -> int {
    prefix_energy(sorted_energies(s), sorted_energies(s).len() as int)
}

/// Do the `h` largest energies hold at least the fraction `num / den` of
/// the total power?  Stated without division: `den * sum >= num * total`.
pub open spec fn reaches(s: Seq<u32>, num: int, den: int, h: int) -> bool {
    den * prefix_energy(sorted_energies(s), h) >= num * total_energy(s)
}

/// The smallest `k >= h` at which the threshold is reached, or the bin
/// count if none is checked before it.
pub open spec fn first_reaching_from(s: Seq<u32>, num: int, den: int, h: int) -> int
    decreases s.len() - h,
{
    if h >= s.len() {
        s.len() as int
    } else if reaches(s, num, den, h) {
        h
    } else {
        first_reaching_from(s, num, den, h + 1)
    }
}

/// The harmonic count that the analyzer chooses: the smallest `h >= 1`
/// whose `h` largest bins reach the threshold fraction of the total power.
pub open spec fn chosen_harmonic(s: Seq<u32>, num: int, den: int) -> int {
    first_reaching_from(s, num, den, 1)
}

proof fn lemma_prefix_energy_nonneg(s: Seq<u32>, k: int)
    requires
        0 <= k <= s.len(),
    ensures
        prefix_energy(s, k) >= 0,
    decreases k,
{
    if k > 0 {
        lemma_prefix_energy_nonneg(s, k - 1);
    }
}

/// The sort keeps the length.
proof fn lemma_sorted_energies_len(s: Seq<u32>)
    ensures
        sorted_energies(s).len() == s.len(),
        sorted_energies(s).to_multiset() == s.to_multiset(),
        sorted_by(sorted_energies(s), energy_order()),
{
    lemma_energy_order_total();
    s.lemma_sort_by_ensures(energy_order());
    broadcast use vstd::seq_lib::to_multiset_len;

    assert(sorted_energies(s).to_multiset().len() == sorted_energies(s).len());
    assert(s.to_multiset().len() == s.len());
}

proof fn lemma_first_reaching_range(s: Seq<u32>, num: int, den: int, h: int)
    requires
        0 <= h <= s.len(),
    ensures
        h <= first_reaching_from(s, num, den, h) <= s.len(),
    decreases s.len() - h,
{
    if h < s.len() && !reaches(s, num, den, h) {
        lemma_first_reaching_range(s, num, den, h + 1);
    }
}

/// A lower threshold is reached wherever a higher one is.
proof fn lemma_reaches_implication(
    s: Seq<u32>,
    num1: int,
    den1: int,
    num2: int,
    den2: int,
    k: int,
)
    requires
        0 < den1,
        0 < den2,
        0 <= num1,
        num1 * den2 <= num2 * den1,
        0 <= k <= s.len(),
    ensures
        reaches(s, num2, den2, k) ==> reaches(s, num1, den1, k),
{
    lemma_sorted_energies_len(s);
    let c = prefix_energy(sorted_energies(s), k);
    let t = total_energy(s);
    lemma_prefix_energy_nonneg(sorted_energies(s), k);
    lemma_prefix_energy_nonneg(sorted_energies(s), sorted_energies(s).len() as int);
    if reaches(s, num2, den2, k) {
        assert(den1 * c >= num1 * t) by (nonlinear_arith)
            requires
                den2 * c >= num2 * t,
                num1 * den2 <= num2 * den1,
                0 < den1,
                0 < den2,
                0 <= num1,
                0 <= t,
                0 <= c,
        {}
    }
}

proof fn lemma_first_reaching_monotone(
    s: Seq<u32>,
    num1: int,
    den1: int,
    num2: int,
    den2: int,
    h: int,
)
    requires
        0 < den1,
        0 < den2,
        0 <= num1,
        num1 * den2 <= num2 * den1,
        0 <= h,
    ensures
        first_reaching_from(s, num1, den1, h) <= first_reaching_from(s, num2, den2, h),
    decreases s.len() - h,
{
    if h < s.len() {
        lemma_reaches_implication(s, num1, den1, num2, den2, h);
        if reaches(s, num1, den1, h) {
            lemma_first_reaching_range(s, num2, den2, h);
        } else {
            lemma_first_reaching_monotone(s, num1, den1, num2, den2, h + 1);
        }
    }
}

/// Law: the chosen harmonic count is monotone non-decreasing in the
/// threshold.  If `num1 / den1 <= num2 / den2` (as fractions), the count
/// chosen for the lower threshold never exceeds the one chosen for the
/// higher.
pub proof fn lemma_chosen_harmonic_monotone(
    s: Seq<u32>,
    num1: int,
    den1: int,
    num2: int,
    den2: int,
)
    requires
        0 < den1,
        0 < den2,
        0 <= num1,
        num1 * den2 <= num2 * den1,
    ensures
        chosen_harmonic(s, num1, den1) <= chosen_harmonic(s, num2, den2),
{
    lemma_first_reaching_monotone(s, num1, den1, num2, den2, 1);
}

/// Sort energies in descending order by insertion into a sorted prefix.
fn sort_desc(values: &Vec<u32>) -> (r: Vec<u32>)
    ensures
        r@ == sorted_energies(values@),
        r@.len() == values@.len(),
        sorted_by(r@, energy_order()),
{
    broadcast use vstd::seq_lib::group_to_multiset_ensures;

    let mut r: Vec<u32> = Vec::new();
    let mut i: usize = 0;
    while i < values.len()
        invariant
            i <= values@.len(),
            r@.len() == i,
            sorted_by(r@, energy_order()),
            r@.to_multiset() == values@.subrange(0, i as int).to_multiset(),
        decreases values@.len() - i,
    {
        let x = values[i];
        let ghost prev = r@;
        let mut pos: usize = 0;
        while pos < r.len() && r[pos] >= x
            invariant
                pos <= r@.len(),
                r@ == prev,
                forall|k: int| 0 <= k < pos ==> r@[k] >= x,
            decreases r@.len() - pos,
        {
            pos = pos + 1;
        }
        proof {
            assert(pos == prev.len() || prev[pos as int] < x);
        }
        r.insert(pos, x);
        proof {
            let cur = r@;
            assert(cur == prev.insert(pos as int, x));
            assert forall|a: int, b: int| 0 <= a < b < cur.len() implies energy_order()(
                cur[a],
                cur[b],
            ) by {
                if a < pos && b == pos {
                    assert(cur[a] == prev[a] && prev[a] >= x);
                } else if a == pos && b > pos {
                    assert(cur[b] == prev[b - 1]);
                    if b - 1 > pos {
                        assert(energy_order()(prev[pos as int], prev[b - 1]));
                    }
                } else if a < pos && b > pos {
                    assert(cur[a] == prev[a] && cur[b] == prev[b - 1]);
                    assert(energy_order()(prev[a], prev[b - 1]));
                } else if a > pos && b > pos {
                    assert(energy_order()(prev[a - 1], prev[b - 1]));
                } else if a < b && b < pos {
                    assert(energy_order()(prev[a], prev[b]));
                }
            }
            vstd::seq_lib::to_multiset_insert(prev, pos as int, x);
            vstd::seq_lib::to_multiset_build(values@.subrange(0, i as int), x);
            assert(cur.to_multiset() == prev.to_multiset().insert(x));
            assert(values@.subrange(0, i as int).push(values@[i as int]) =~= values@.subrange(
                0,
                i as int + 1,
            ));
            assert(values@.subrange(0, i as int).push(x).to_multiset() == values@.subrange(
                0,
                i as int,
            ).to_multiset().insert(x));
        }
        i = i + 1;
    }
    proof {
        assert(values@.subrange(0, values@.len() as int) =~= values@);
        lemma_energy_order_total();
        lemma_sorted_energies_len(values@);
        lemma_sorted_unique(r@, sorted_energies(values@), energy_order());
    }
    r
}

/// Choose the smallest harmonic count whose largest bins hold at least the
/// fraction `tau_num / tau_den` of the total power.  The result always
/// lies in `[1, n]`; no smaller count reaches the threshold.
pub fn choose_harmonic_by_energy(energies: &Vec<u32>, tau_num: u32, tau_den: u32) -> (h: usize)
    requires
        1 <= energies@.len() <= 0xFFFF_FFFF,
        0 < tau_den,
        tau_num <= tau_den,
    ensures
        1 <= h <= energies@.len(),
        h as int == chosen_harmonic(energies@, tau_num as int, tau_den as int),
        reaches(energies@, tau_num as int, tau_den as int, h as int),
        forall|k: int| 1 <= k < h ==> !reaches(energies@, tau_num as int, tau_den as int, k),
{
    let ghost num = tau_num as int;
    let ghost den = tau_den as int;
    let n = energies.len();
    let sorted = sort_desc(energies);
    proof {
        lemma_sorted_energies_len(energies@);
    }
    let mut total: u64 = 0;
    let mut t: usize = 0;
    while t < n
        invariant
            n == energies@.len(),
            n <= 0xFFFF_FFFF,
            sorted@ == sorted_energies(energies@),
            sorted@.len() == n,
            t <= n,
            total == prefix_energy(sorted@, t as int),
            total <= t * 0xFFFF_FFFF,
        decreases n - t,
    {
        total = total + (sorted[t] as u64);
        t = t + 1;
    }
    let mut h: usize = 0;
    let mut cum: u64 = 0;
    while h < n - 1
        invariant
            1 <= n == energies@.len(),
            n <= 0xFFFF_FFFF,
            num == tau_num as int,
            den == tau_den as int,
            0 < tau_den,
            tau_num <= tau_den,
            sorted@ == sorted_energies(energies@),
            sorted@.len() == n,
            total == total_energy(energies@),
            h <= n - 1,
            cum == prefix_energy(sorted@, h as int),
            cum <= h * 0xFFFF_FFFF,
            forall|k: int| 1 <= k <= h ==> !reaches(energies@, num, den, k),
            first_reaching_from(energies@, num, den, 1) == first_reaching_from(
                energies@,
                num,
                den,
                h as int + 1,
            ),
        decreases n - h,
    {
        cum = cum + (sorted[h] as u64);
        h = h + 1;
        proof {
            assert(cum == prefix_energy(sorted@, h as int));
            assert((tau_den as int) * (cum as int) <= 0xFFFF_FFFF * 0xFFFF_FFFF_FFFF_FFFF)
                by (nonlinear_arith)
                requires
                    tau_den as int <= 0xFFFF_FFFF,
                    cum as int <= 0xFFFF_FFFF_FFFF_FFFF,
                    0 <= tau_den as int,
                    0 <= cum as int,
            {}
            assert((tau_num as int) * (total as int) <= 0xFFFF_FFFF * 0xFFFF_FFFF_FFFF_FFFF)
                by (nonlinear_arith)
                requires
                    tau_num as int <= 0xFFFF_FFFF,
                    total as int <= 0xFFFF_FFFF_FFFF_FFFF,
                    0 <= tau_num as int,
                    0 <= total as int,
            {}
        }
        if (tau_den as u128) * (cum as u128) >= (tau_num as u128) * (total as u128) {
            proof {
                assert(reaches(energies@, num, den, h as int));
                assert(first_reaching_from(energies@, num, den, h as int) == h as int);
            }
            return h;
        }
        proof {
            assert(!reaches(energies@, num, den, h as int));
            assert(first_reaching_from(energies@, num, den, h as int) == first_reaching_from(
                energies@,
                num,
                den,
                h as int + 1,
            ));
        }
    }
    proof {
        lemma_sorted_energies_len(energies@);
        lemma_prefix_energy_nonneg(sorted@, n as int);
        assert(den * prefix_energy(sorted@, n as int) >= num * total_energy(energies@))
            by (nonlinear_arith)
            requires
                den >= num,
                num >= 0,
                prefix_energy(sorted@, n as int) >= 0,
                total_energy(energies@) == prefix_energy(sorted@, n as int),
        {}
        assert(reaches(energies@, num, den, n as int));
        assert(first_reaching_from(energies@, num, den, n as int) == n as int);
    }
    n
}

} // verus!
