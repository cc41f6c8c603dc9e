//! Nearest-rank tail-latency percentiles over the successful durations.
//!
//! The percentile value is the element at index ⌊p·n/100⌋ of the ascending
//! samples, without interpolation; an out-of-range index (only possible for
//! an empty sample) yields no value and is rendered as a sentinel.

use crate::sortseq::lemma_sort_seq;
use crate::sortseq::sort_seq;
use crate::sortseq::sorted;
use vstd::prelude::*;

verus! {

/// Nearest-rank index of percentile `p` in a sample of `n` values.
pub open spec fn pct_index(p: nat, n: nat) -> nat {
    p * n / 100
}

/// Value of percentile `p` over the ascending samples `ss`, if the
/// nearest-rank index is in range.
pub open spec fn pct_value(ss: Seq<u64>, p: nat) -> Option<u64> {
    if pct_index(p, ss.len()) < ss.len() {
        Some(ss[pct_index(p, ss.len()) as int])
    } else {
        None
    }
}

/// Computes percentile `p` over the ascending vector `ss`.
pub fn pct_value_exec(ss: &Vec<u64>, p: u64) -> (r: Option<u64>)
    requires
        p <= 100,
    ensures
        r == pct_value(ss@, p as nat),
{
    let n = ss.len();
    proof {
        assert((p as int) * (n as int) <= 100 * (n as int)) by (nonlinear_arith)
            requires
                p <= 100,
                n >= 0,
        ;
        vstd::arithmetic::div_mod::lemma_div_is_ordered(
            (p as int) * (n as int),
            100 * (n as int),
            100,
        );
        vstd::arithmetic::div_mod::lemma_div_multiples_vanish(n as int, 100);
        assert((p as int) * (n as int) >= 0) by (nonlinear_arith)
            requires
                p >= 0,
                n >= 0,
        ;
        vstd::arithmetic::div_mod::lemma_div_pos_is_pos((p as int) * (n as int), 100);
    }
    let i = (p as u128 * n as u128 / 100) as usize;
    if i < n {
        Some(ss[i])
    } else {
        None
    }
}

/// Percentile values are non-decreasing as the percentile level increases,
/// for a fixed ascending sample: where both levels yield a value, the higher
/// level never reports a smaller one.
pub proof fn lemma_pct_non_decreasing(ss: Seq<u64>, p1: nat, p2: nat)
    requires
        sorted(ss),
        p1 <= p2,
        pct_value(ss, p1) is Some,
        pct_value(ss, p2) is Some,
    ensures
        pct_value(ss, p1).unwrap() <= pct_value(ss, p2).unwrap(),
{
    let n = ss.len();
    assert(p1 * n <= p2 * n) by (nonlinear_arith)
        requires
            p1 <= p2,
            n >= 0,
    ;
    vstd::arithmetic::div_mod::lemma_div_is_ordered((p1 * n) as int, (p2 * n) as int, 100);
}

/// The same, stated over the sort of an arbitrary duration sample.
pub proof fn lemma_pct_non_decreasing_of_sort(ds: Seq<u64>, p1: nat, p2: nat)
    requires
        p1 <= p2,
        pct_value(sort_seq(ds), p1) is Some,
        pct_value(sort_seq(ds), p2) is Some,
    ensures
        pct_value(sort_seq(ds), p1).unwrap() <= pct_value(sort_seq(ds), p2).unwrap(),
{
    lemma_sort_seq(ds);
    lemma_pct_non_decreasing(sort_seq(ds), p1, p2);
}

} // verus!
