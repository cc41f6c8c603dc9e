//! The response-time histogram: a fixed number of equal-width bins over a
//! clipped duration range, with proportional bar widths.
//!
//! The visible range is clipped at three times the mean duration, so a single
//! long-tail outlier does not compress every other bin into one; values above
//! the clipped maximum are counted in the last bin. This is a deliberate
//! distortion-avoidance heuristic, not a true maximum.

use vstd::prelude::*;

verus! {

/// The bin a duration `v` falls in, for a histogram starting at `lo` with
/// total visible width `w`: ⌊(v − lo)·11/w⌋ clamped to the last bin. A zero
/// width (all samples equal) puts everything in the first bin.
pub open spec fn bin_index(v: u64, lo: u64, w: u64) -> int {
    if w == 0 || v <= lo {
        0
    } else {
        let i = (v - lo) * 11 / (w as int);
        if i > 10 {
            10
        } else {
            i
        }
    }
}

/// How many durations of `s` fall in bin `j`.
pub open spec fn count_in_bin(s: Seq<u64>, lo: u64, w: u64, j: int) -> nat
    decreases s.len(),
{
    if s.len() == 0 {
        0
    } else {
        count_in_bin(s.drop_last(), lo, w, j) + (if bin_index(s.last(), lo, w) == j {
            1nat
        } else {
            0nat
        })
    }
}

/// Sum of the counts of the bins below `jj`.
pub open spec fn counts_total(s: Seq<u64>, lo: u64, w: u64, jj: int) -> nat
    decreases jj,
{
    if jj <= 0 {
        0
    } else {
        counts_total(s, lo, w, jj - 1) + count_in_bin(s, lo, w, jj - 1)
    }
}

proof fn lemma_counts_total_empty(lo: u64, w: u64, jj: int)
    ensures
        counts_total(Seq::empty(), lo, w, jj) == 0,
    decreases jj,
{
    if jj > 0 {
        lemma_counts_total_empty(lo, w, jj - 1);
    }
}

/// Every duration falls in one of the 11 bins.
pub proof fn lemma_bin_index_range(v: u64, lo: u64, w: u64)
    ensures
        0 <= bin_index(v, lo, w) < 11,
{
    if w == 0 || v <= lo {
    } else {
        assert((v - lo) * 11 >= 0) by (nonlinear_arith)
            requires
                v >= lo,
        ;
        vstd::arithmetic::div_mod::lemma_div_pos_is_pos((v - lo) * 11, w as int);
    }
}

proof fn lemma_counts_total_drop(s: Seq<u64>, lo: u64, w: u64, jj: int)
    requires
        s.len() > 0,
    ensures
        counts_total(s, lo, w, jj) == counts_total(s.drop_last(), lo, w, jj) + (if bin_index(
            s.last(),
            lo,
            w,
        ) < jj {
            1nat
        } else {
            0nat
        }),
    decreases jj,
{
    lemma_bin_index_range(s.last(), lo, w);
    if jj > 0 {
        lemma_counts_total_drop(s, lo, w, jj - 1);
    }
}

/// The bin counts of any duration sequence sum exactly to its length: every
/// sample falls in exactly one of the 11 bins.
pub proof fn lemma_histogram_total(s: Seq<u64>, lo: u64, w: u64)
    ensures
        counts_total(s, lo, w, 11) == s.len(),
    decreases s.len(),
{
    if s.len() == 0 {
        assert(s =~= Seq::<u64>::empty());
        lemma_counts_total_empty(lo, w, 11);
    } else {
        lemma_histogram_total(s.drop_last(), lo, w);
        lemma_counts_total_drop(s, lo, w, 11);
        lemma_bin_index_range(s.last(), lo, w);
    }
}

/// Every count is at most the number of samples.
pub proof fn lemma_count_in_bin_le_len(s: Seq<u64>, lo: u64, w: u64, j: int)
    ensures
        count_in_bin(s, lo, w, j) <= s.len(),
    decreases s.len(),
{
    if s.len() > 0 {
        lemma_count_in_bin_le_len(s.drop_last(), lo, w, j);
    }
}

/// Lower bound of bin `i`: lo + ⌊i·w/11⌋ nanoseconds.
pub open spec fn bin_lower(lo: u64, w: u64, i: int) -> int {
    lo + (i * w) / 11
}

/// Maximum of a count sequence (0 if empty).
pub open spec fn counts_max(s: Seq<usize>) -> nat
    decreases s.len(),
{
    if s.len() == 0 {
        0
    } else {
        let m = counts_max(s.drop_last());
        if s.last() > m {
            s.last() as nat
        } else {
            m
        }
    }
}

/// Largest count among the bins below `jj`.
pub open spec fn max_count_upto(s: Seq<u64>, lo: u64, w: u64, jj: int) -> nat
    decreases jj,
{
    if jj <= 0 {
        0
    } else {
        let m = max_count_upto(s, lo, w, jj - 1);
        let c = count_in_bin(s, lo, w, jj - 1);
        if c > m {
            c
        } else {
            m
        }
    }
}

/// A count vector holding the 11 bin counts has `max_count_upto` as maximum.
pub proof fn lemma_counts_max_eq(cs: Seq<usize>, s: Seq<u64>, lo: u64, w: u64, jj: int)
    requires
        0 <= jj <= cs.len(),
        cs.len() == 11,
        forall|j: int| 0 <= j < 11 ==> (#[trigger] cs[j]) as nat == count_in_bin(s, lo, w, j),
    ensures
        counts_max(cs.take(jj)) == max_count_upto(s, lo, w, jj),
    decreases jj,
{
    if jj > 0 {
        lemma_counts_max_eq(cs, s, lo, w, jj - 1);
        assert(cs.take(jj).drop_last() =~= cs.take(jj - 1));
        assert(cs.take(jj).last() == cs[jj - 1]);
    }
}

/// Filled cells of a 32-cell bar for a bin with count `c` when the largest
/// bin holds `m`: ⌊32·c/m⌋.
pub open spec fn bar_fill(c: nat, m: nat) -> nat {
    if m == 0 {
        0
    } else {
        32 * c / m
    }
}

/// Computes the bin of one duration.
pub fn bin_index_exec(v: u64, lo: u64, w: u64) -> (r: usize)
    ensures
        r as int == bin_index(v, lo, w),
        r < 11,
{
    if w == 0 || v <= lo {
        0
    } else {
        let i = (v - lo) as u128 * 11 / (w as u128);
        if i > 10 {
            10
        } else {
            i as usize
        }
    }
}

/// Counts the durations falling in each of the 11 bins.
pub fn build_counts(values: &Vec<u64>, lo: u64, w: u64) -> (r: Vec<usize>)
    ensures
        r@.len() == 11,
        forall|j: int| 0 <= j < 11 ==> r@[j] as nat == count_in_bin(values@, lo, w, j),
{
    let mut bucket: Vec<usize> = Vec::new();
    let mut k: usize = 0;
    while k < 11
        invariant
            bucket@.len() == k,
            k <= 11,
            forall|j: int| 0 <= j < k ==> bucket@[j] == 0,
        decreases 11 - k,
    {
        bucket.push(0);
        k += 1;
    }
    let mut i: usize = 0;
    while i < values.len()
        invariant
            i <= values@.len(),
            bucket@.len() == 11,
            forall|j: int|
                0 <= j < 11 ==> bucket@[j] as nat == count_in_bin(
                    values@.take(i as int),
                    lo,
                    w,
                    j,
                ),
        decreases values@.len() - i,
    {
        proof {
            assert(values@.take(i + 1).drop_last() =~= values@.take(i as int));
            assert forall|j: int| 0 <= j < 11 implies count_in_bin(
                values@.take(i as int),
                lo,
                w,
                j,
            ) <= i by {
                lemma_count_in_bin_le_len(values@.take(i as int), lo, w, j);
            }
        }
        let idx = bin_index_exec(values[i], lo, w);
        let c = bucket[idx];
        bucket.set(idx, c + 1);
        i += 1;
    }
    proof {
        assert(values@.take(values@.len() as int) =~= values@);
    }
    bucket
}

/// Computes the 11 bin lower bounds, in nanoseconds.
pub fn bin_lower_bounds(lo: u64, w: u64) -> (r: Vec<u64>)
    requires
        lo + w <= u64::MAX,
    ensures
        r@.len() == 11,
        forall|i: int| 0 <= i < 11 ==> r@[i] as int == bin_lower(lo, w, i),
{
    let mut out: Vec<u64> = Vec::new();
    let mut i: usize = 0;
    while i < 11
        invariant
            lo + w <= u64::MAX,
            out@.len() == i,
            i <= 11,
            forall|j: int| 0 <= j < i ==> out@[j] as int == bin_lower(lo, w, j),
        decreases 11 - i,
    {
        proof {
            assert((i as int) * (w as int) <= 10 * (w as int)) by (nonlinear_arith)
                requires
                    0 <= i <= 10,
                    w >= 0,
            ;
            vstd::arithmetic::div_mod::lemma_div_is_ordered(
                (i as int) * (w as int),
                10 * (w as int),
                11,
            );
            assert(10 * (w as int) / 11 <= w as int) by (nonlinear_arith)
                requires
                    w >= 0,
            ;
        }
        let off = i as u128 * w as u128 / 11;
        out.push(lo + off as u64);
        i += 1;
    }
    out
}

/// Maximum bin count.
pub fn counts_max_exec(counts: &Vec<usize>) -> (r: usize)
    ensures
        r as nat == counts_max(counts@),
        forall|j: int| 0 <= j < counts@.len() ==> counts@[j] <= r,
{
    let mut m: usize = 0;
    let mut i: usize = 0;
    while i < counts.len()
        invariant
            i <= counts@.len(),
            m as nat == counts_max(counts@.take(i as int)),
            forall|j: int| 0 <= j < i ==> counts@[j] <= m,
        decreases counts@.len() - i,
    {
        proof {
            assert(counts@.take(i + 1).drop_last() =~= counts@.take(i as int));
        }
        if counts[i] > m {
            m = counts[i];
        }
        i += 1;
    }
    proof {
        assert(counts@.take(counts@.len() as int) =~= counts@);
    }
    m
}

/// Filled cells of the 32-cell bar of a bin.
pub fn bar_fill_exec(c: usize, m: usize) -> (r: usize)
    requires
        c <= m,
    ensures
        r as nat == bar_fill(c as nat, m as nat),
        r <= 32,
{
    if m == 0 {
        0
    } else {
        let r = (32u128 * c as u128 / m as u128) as usize;
        proof {
            vstd::arithmetic::div_mod::lemma_div_is_ordered(
                32 * (c as int),
                32 * (m as int),
                m as int,
            );
            vstd::arithmetic::div_mod::lemma_div_multiples_vanish(32, m as int);
        }
        r
    }
}

} // verus!
