//! The outcome data model and the scalar aggregates of a run: success rate,
//! timing extrema and mean, request throughput and byte throughput.

use vstd::prelude::*;

verus! {

/// One request attempt's result: a successful measurement or a failure.
pub enum Outcome {
    Success { duration_ns: u64, byte_length: u64, status: u16 },
    Failure { error: String },
}

/// Number of successful outcomes in `rs`.
pub open spec fn success_count(rs: Seq<Outcome>) -> nat
    decreases rs.len(),
{
    if rs.len() == 0 {
        0
    } else {
        success_count(rs.drop_last()) + (if rs.last() is Success {
            1nat
        } else {
            0nat
        })
    }
}

/// The durations of the successful outcomes of `rs`, in order.
pub open spec fn success_durations(rs: Seq<Outcome>) -> Seq<u64>
    decreases rs.len(),
{
    if rs.len() == 0 {
        Seq::empty()
    } else {
        match rs.last() {
            Outcome::Success { duration_ns, .. } => success_durations(rs.drop_last()).push(
                duration_ns,
            ),
            Outcome::Failure { .. } => success_durations(rs.drop_last()),
        }
    }
}

/// The status codes of the successful outcomes of `rs`, in order.
pub open spec fn success_statuses(rs: Seq<Outcome>) -> Seq<u16>
    decreases rs.len(),
{
    if rs.len() == 0 {
        Seq::empty()
    } else {
        match rs.last() {
            Outcome::Success { status, .. } => success_statuses(rs.drop_last()).push(status),
            Outcome::Failure { .. } => success_statuses(rs.drop_last()),
        }
    }
}

/// The error texts of the failed outcomes of `rs`, in order.
pub open spec fn failure_errors(rs: Seq<Outcome>) -> Seq<String>
    decreases rs.len(),
{
    if rs.len() == 0 {
        Seq::empty()
    } else {
        match rs.last() {
            Outcome::Success { .. } => failure_errors(rs.drop_last()),
            Outcome::Failure { error } => failure_errors(rs.drop_last()).push(error),
        }
    }
}

/// Sum of the response byte lengths over the successful outcomes of `rs`.
pub open spec fn total_bytes(rs: Seq<Outcome>) -> nat
    decreases rs.len(),
{
    if rs.len() == 0 {
        0
    } else {
        total_bytes(rs.drop_last()) + (match rs.last() {
            Outcome::Success { byte_length, .. } => byte_length as nat,
            Outcome::Failure { .. } => 0nat,
        })
    }
}

/// Minimum of a non-empty sequence.
pub open spec fn seq_min(s: Seq<u64>) -> u64
    recommends
        s.len() > 0,
    decreases s.len(),
{
    if s.len() <= 1 {
        s[0]
    } else {
        let m = seq_min(s.drop_last());
        if s.last() < m {
            s.last()
        } else {
            m
        }
    }
}

/// Maximum of a non-empty sequence.
pub open spec fn seq_max(s: Seq<u64>) -> u64
    recommends
        s.len() > 0,
    decreases s.len(),
{
    if s.len() <= 1 {
        s[0]
    } else {
        let m = seq_max(s.drop_last());
        if s.last() > m {
            s.last()
        } else {
            m
        }
    }
}

/// Sum of a sequence.
pub open spec fn seq_sum(s: Seq<u64>) -> nat
    decreases s.len(),
{
    if s.len() == 0 {
        0
    } else {
        seq_sum(s.drop_last()) + s.last() as nat
    }
}

/// Arithmetic mean of a non-empty sequence, rounded down to whole nanoseconds.
pub open spec fn mean_ns(s: Seq<u64>) -> nat
    recommends
        s.len() > 0,
{
    seq_sum(s) / s.len()
}

/// Success rate scaled by 10000: round(successes · 10000 / attempts).
pub open spec fn rate_units(succ: nat, len: nat) -> nat
    recommends
        len > 0,
{
    crate::textfmt::round_div(succ * 10000, len)
}

/// Requests per second scaled by 10000: round(attempts · 10¹³ / duration_ns).
pub open spec fn rps_units(len: nat, total_ns: nat) -> nat
    recommends
        total_ns > 0,
{
    crate::textfmt::round_div(len * 10000000000000, total_ns)
}

/// Bytes per second, rounded down: ⌊total_bytes · 10⁹ / total_ns⌋.
pub open spec fn bps_nat(tb: nat, total_ns: nat) -> nat
    recommends
        total_ns > 0,
{
    tb * 1000000000 / total_ns
}

/// Bytes per second as the report shows it, saturated at `u128::MAX`.
pub open spec fn bps_clamped(tb: nat, total_ns: nat) -> nat
    recommends
        total_ns > 0,
{
    if bps_nat(tb, total_ns) <= u128::MAX {
        bps_nat(tb, total_ns)
    } else {
        u128::MAX as nat
    }
}

/// Counts the successful outcomes.
pub fn count_successes(results: &Vec<Outcome>) -> (r: usize)
    ensures
        r as nat == success_count(results@),
        r <= results@.len(),
{
    let mut cnt: usize = 0;
    let mut i: usize = 0;
    while i < results.len()
        invariant
            i <= results@.len(),
            cnt as nat == success_count(results@.take(i as int)),
            cnt <= i,
        decreases results@.len() - i,
    {
        proof {
            assert(results@.take(i + 1).drop_last() =~= results@.take(i as int));
        }
        match &results[i] {
            Outcome::Success { .. } => {
                cnt += 1;
            },
            Outcome::Failure { .. } => {},
        }
        i += 1;
    }
    proof {
        assert(results@.take(results@.len() as int) =~= results@);
    }
    cnt
}

/// Collects the durations of the successful outcomes, in order.
pub fn collect_durations(results: &Vec<Outcome>) -> (r: Vec<u64>)
    ensures
        r@ == success_durations(results@),
{
    let mut out: Vec<u64> = Vec::new();
    let mut i: usize = 0;
    while i < results.len()
        invariant
            i <= results@.len(),
            out@ == success_durations(results@.take(i as int)),
        decreases results@.len() - i,
    {
        proof {
            assert(results@.take(i + 1).drop_last() =~= results@.take(i as int));
        }
        match &results[i] {
            Outcome::Success { duration_ns, .. } => {
                out.push(*duration_ns);
            },
            Outcome::Failure { .. } => {},
        }
        i += 1;
    }
    proof {
        assert(results@.take(results@.len() as int) =~= results@);
    }
    out
}

/// Collects the status codes of the successful outcomes, in order.
pub fn collect_statuses(results: &Vec<Outcome>) -> (r: Vec<u16>)
    ensures
        r@ == success_statuses(results@),
{
    let mut out: Vec<u16> = Vec::new();
    let mut i: usize = 0;
    while i < results.len()
        invariant
            i <= results@.len(),
            out@ == success_statuses(results@.take(i as int)),
        decreases results@.len() - i,
    {
        proof {
            assert(results@.take(i + 1).drop_last() =~= results@.take(i as int));
        }
        match &results[i] {
            Outcome::Success { status, .. } => {
                out.push(*status);
            },
            Outcome::Failure { .. } => {},
        }
        i += 1;
    }
    proof {
        assert(results@.take(results@.len() as int) =~= results@);
    }
    out
}

/// Collects the error texts of the failed outcomes, in order.
pub fn collect_errors(results: &Vec<Outcome>) -> (r: Vec<String>)
    ensures
        r@ == failure_errors(results@),
{
    let mut out: Vec<String> = Vec::new();
    let mut i: usize = 0;
    while i < results.len()
        invariant
            i <= results@.len(),
            out@ == failure_errors(results@.take(i as int)),
        decreases results@.len() - i,
    {
        proof {
            assert(results@.take(i + 1).drop_last() =~= results@.take(i as int));
        }
        match &results[i] {
            Outcome::Success { .. } => {},
            Outcome::Failure { error } => {
                out.push(error.clone());
            },
        }
        i += 1;
    }
    proof {
        assert(results@.take(results@.len() as int) =~= results@);
    }
    out
}

/// Sums the response byte lengths over the successful outcomes.
pub fn sum_success_bytes(results: &Vec<Outcome>) -> (r: u128)
    ensures
        r as nat == total_bytes(results@),
{
    let mut sum: u128 = 0;
    let mut i: usize = 0;
    while i < results.len()
        invariant
            i <= results@.len(),
            sum as nat == total_bytes(results@.take(i as int)),
            sum as nat <= (i as nat) * (u64::MAX as nat),
        decreases results@.len() - i,
    {
        proof {
            assert(results@.take(i + 1).drop_last() =~= results@.take(i as int));
            assert((i as nat) * (u64::MAX as nat) + (u64::MAX as nat) == ((i + 1) as nat) * (
            u64::MAX as nat)) by (nonlinear_arith);
            assert(((i + 1) as nat) * (u64::MAX as nat) <= (usize::MAX as nat) * (u64::MAX as nat))
                by (nonlinear_arith)
                requires
                    i + 1 <= usize::MAX as nat,
            ;
        }
        match &results[i] {
            Outcome::Success { byte_length, .. } => {
                sum = sum + *byte_length as u128;
            },
            Outcome::Failure { .. } => {},
        }
        i += 1;
    }
    proof {
        assert(results@.take(results@.len() as int) =~= results@);
    }
    sum
}

/// Minimum of a non-empty duration vector.
pub fn min_duration(values: &Vec<u64>) -> (r: u64)
    requires
        values@.len() > 0,
    ensures
        r == seq_min(values@),
        forall|j: int| 0 <= j < values@.len() ==> r <= values@[j],
{
    let mut m: u64 = values[0];
    let mut i: usize = 1;
    while i < values.len()
        invariant
            1 <= i <= values@.len(),
            m == seq_min(values@.take(i as int)),
            forall|j: int| 0 <= j < i ==> m <= values@[j],
        decreases values@.len() - i,
    {
        proof {
            assert(values@.take(i + 1).drop_last() =~= values@.take(i as int));
        }
        if values[i] < m {
            m = values[i];
        }
        i += 1;
    }
    proof {
        assert(values@.take(values@.len() as int) =~= values@);
    }
    m
}

/// Maximum of a non-empty duration vector.
pub fn max_duration(values: &Vec<u64>) -> (r: u64)
    requires
        values@.len() > 0,
    ensures
        r == seq_max(values@),
        forall|j: int| 0 <= j < values@.len() ==> values@[j] <= r,
{
    let mut m: u64 = values[0];
    let mut i: usize = 1;
    while i < values.len()
        invariant
            1 <= i <= values@.len(),
            m == seq_max(values@.take(i as int)),
            forall|j: int| 0 <= j < i ==> values@[j] <= m,
        decreases values@.len() - i,
    {
        proof {
            assert(values@.take(i + 1).drop_last() =~= values@.take(i as int));
        }
        if values[i] > m {
            m = values[i];
        }
        i += 1;
    }
    proof {
        assert(values@.take(values@.len() as int) =~= values@);
    }
    m
}

/// Sums a duration vector.
pub fn sum_durations(values: &Vec<u64>) -> (r: u128)
    ensures
        r as nat == seq_sum(values@),
{
    let mut sum: u128 = 0;
    let mut i: usize = 0;
    while i < values.len()
        invariant
            i <= values@.len(),
            sum as nat == seq_sum(values@.take(i as int)),
            sum as nat <= (i as nat) * (u64::MAX as nat),
        decreases values@.len() - i,
    {
        proof {
            assert(values@.take(i + 1).drop_last() =~= values@.take(i as int));
            assert((i as nat) * (u64::MAX as nat) + (u64::MAX as nat) == ((i + 1) as nat) * (
            u64::MAX as nat)) by (nonlinear_arith);
            assert(((i + 1) as nat) * (u64::MAX as nat) <= (usize::MAX as nat) * (u64::MAX as nat))
                by (nonlinear_arith)
                requires
                    i + 1 <= usize::MAX as nat,
            ;
        }
        sum = sum + values[i] as u128;
        i += 1;
    }
    proof {
        assert(values@.take(values@.len() as int) =~= values@);
    }
    sum
}

/// Mean of a non-empty duration vector, rounded down to whole nanoseconds.
pub fn mean_duration(values: &Vec<u64>) -> (r: u64)
    requires
        values@.len() > 0,
    ensures
        r as nat == mean_ns(values@),
{
    let sum = sum_durations(values);
    let n = values.len();
    proof {
        lemma_seq_sum_le_max(values@);
        vstd::arithmetic::div_mod::lemma_div_is_ordered_by_denominator(
            seq_sum(values@) as int,
            1,
            values@.len() as int,
        );
        assert(seq_sum(values@) / values@.len() <= seq_sum(values@));
        lemma_mean_le_max(values@);
    }
    (sum / n as u128) as u64
}

/// The sum of a non-empty sequence is at most its length times its maximum.
proof fn lemma_seq_sum_le_max(s: Seq<u64>)
    requires
        s.len() > 0,
    ensures
        seq_sum(s) <= s.len() * (seq_max(s) as nat),
    decreases s.len(),
{
    if s.len() == 1 {
    } else {
        lemma_seq_sum_le_max(s.drop_last());
        assert(seq_max(s.drop_last()) <= seq_max(s));
        assert(s.drop_last().len() * (seq_max(s.drop_last()) as nat) <= s.drop_last().len() * (
        seq_max(s) as nat)) by (nonlinear_arith)
            requires
                seq_max(s.drop_last()) <= seq_max(s),
        ;
        assert(s.drop_last().len() * (seq_max(s) as nat) + (seq_max(s) as nat) == s.len() * (
        seq_max(s) as nat)) by (nonlinear_arith)
            requires
                s.len() == s.drop_last().len() + 1,
        ;
    }
}

/// The mean of a non-empty sequence is at most its maximum.
proof fn lemma_mean_le_max(s: Seq<u64>)
    requires
        s.len() > 0,
    ensures
        mean_ns(s) <= seq_max(s),
{
    lemma_seq_sum_le_max(s);
    assert(seq_sum(s) / s.len() <= seq_max(s) as nat) by (nonlinear_arith)
        requires
            s.len() > 0,
            seq_sum(s) <= s.len() * (seq_max(s) as nat),
    ;
}

/// The sum of a non-empty sequence is at least its length times its minimum.
proof fn lemma_seq_sum_ge_min(s: Seq<u64>)
    requires
        s.len() > 0,
    ensures
        seq_sum(s) >= s.len() * (seq_min(s) as nat),
    decreases s.len(),
{
    if s.len() == 1 {
    } else {
        lemma_seq_sum_ge_min(s.drop_last());
        assert(seq_min(s) <= seq_min(s.drop_last()));
        assert(s.drop_last().len() * (seq_min(s.drop_last()) as nat) >= s.drop_last().len() * (
        seq_min(s) as nat)) by (nonlinear_arith)
            requires
                seq_min(s.drop_last()) >= seq_min(s),
        ;
        assert(s.drop_last().len() * (seq_min(s) as nat) + (seq_min(s) as nat) == s.len() * (
        seq_min(s) as nat)) by (nonlinear_arith)
            requires
                s.len() == s.drop_last().len() + 1,
        ;
    }
}

/// The mean of a non-empty sequence is at least its minimum.
pub proof fn lemma_mean_ge_min(s: Seq<u64>)
    requires
        s.len() > 0,
    ensures
        mean_ns(s) >= seq_min(s),
{
    lemma_seq_sum_ge_min(s);
    assert(seq_sum(s) / s.len() >= seq_min(s) as nat) by (nonlinear_arith)
        requires
            s.len() > 0,
            seq_sum(s) >= s.len() * (seq_min(s) as nat),
    ;
}

/// Every outcome contributes to exactly one of the success and failure
/// aggregation paths: the extracted sequences have matching lengths.
pub proof fn lemma_outcome_partition(rs: Seq<Outcome>)
    ensures
        success_durations(rs).len() == success_count(rs),
        success_statuses(rs).len() == success_count(rs),
        failure_errors(rs).len() + success_count(rs) == rs.len(),
        success_count(rs) <= rs.len(),
    decreases rs.len(),
{
    if rs.len() > 0 {
        lemma_outcome_partition(rs.drop_last());
    }
}

/// Success rate scaled by 10000.
pub fn rate_units_exec(succ: usize, len: usize) -> (r: u128)
    requires
        len > 0,
    ensures
        r as nat == rate_units(succ as nat, len as nat),
{
    crate::textfmt::round_div_u128(succ as u128 * 10000, len as u128)
}

/// Requests per second scaled by 10000.
pub fn rps_units_exec(len: usize, total_ns: u64) -> (r: u128)
    requires
        total_ns > 0,
    ensures
        r as nat == rps_units(len as nat, total_ns as nat),
{
    crate::textfmt::round_div_u128(len as u128 * 10000000000000, total_ns as u128)
}

/// Bytes per second, rounded down; saturates at `u128::MAX` where the true
/// value does not fit (the rendered figure is then meaningless anyway, but
/// the function stays total).
pub fn bytes_per_sec_exec(tb: u128, total_ns: u64) -> (r: u128)
    requires
        total_ns > 0,
    ensures
        bps_nat(tb as nat, total_ns as nat) <= u128::MAX ==> r as nat == bps_nat(
            tb as nat,
            total_ns as nat,
        ),
        bps_nat(tb as nat, total_ns as nat) > u128::MAX ==> r == u128::MAX,
{
    let tn = total_ns as u128;
    let q = tb / tn;
    let rem = tb % tn;
    let part = rem * 1000000000 / tn;
    proof {
        lemma_bps_split(tb as nat, tn as nat);
    }
    match q.checked_mul(1000000000) {
        Some(qg) => {
            match qg.checked_add(part) {
                Some(r) => r,
                None => u128::MAX,
            }
        },
        None => {
            proof {
                assert((q as nat) * 1000000000 <= bps_nat(tb as nat, total_ns as nat));
            }
            u128::MAX
        },
    }
}

/// ⌊tb·G/tn⌋ splits as ⌊tb/tn⌋·G + ⌊(tb mod tn)·G/tn⌋ for G = 10⁹.
proof fn lemma_bps_split(tb: nat, tn: nat)
    requires
        tn > 0,
    ensures
        tb * 1000000000 / tn == (tb / tn) * 1000000000 + (tb % tn) * 1000000000 / tn,
{
    let g: nat = 1000000000;
    let q = tb / tn;
    let rem = tb % tn;
    vstd::arithmetic::div_mod::lemma_fundamental_div_mod(tb as int, tn as int);
    assert(tb * g == rem * g + (q * g) * tn) by (nonlinear_arith)
        requires
            tb == tn * q + rem,
    ;
    vstd::arithmetic::div_mod::lemma_hoist_over_denominator(
        (rem * g) as int,
        (q * g) as int,
        tn,
    );
    assert((rem * g) / tn + q * g == ((rem * g) + (q * g) * tn as int) / tn as int);
}

/// Byte throughput times total duration recovers the total byte count, to
/// within one duration's worth of integer rounding:
/// bps·tn ≤ tb·10⁹ < bps·tn + tn, where bps = ⌊tb·10⁹/tn⌋.
pub proof fn lemma_bytes_per_sec_bound(tb: nat, tn: nat)
    requires
        tn > 0,
    ensures
        bps_nat(tb, tn) * tn <= tb * 1000000000,
        tb * 1000000000 < bps_nat(tb, tn) * tn + tn,
{
    let x = tb * 1000000000;
    vstd::arithmetic::div_mod::lemma_fundamental_div_mod(x as int, tn as int);
    assert(x == tn * (x / tn) + x % tn);
    vstd::arithmetic::mul::lemma_mul_is_commutative(tn as int, (x / tn) as int);
    vstd::arithmetic::div_mod::lemma_mod_division_less_than_divisor(x as int, tn as int);
}

} // verus!
