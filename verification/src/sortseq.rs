//! Sorting of duration samples, ascending, with a spec-level insertion sort
//! that pins the sorted sequence exactly.

use vstd::prelude::*;

verus! {

/// `x` inserted into `s` before the first element not smaller than it.
pub open spec fn insert_sorted(x: u64, s: Seq<u64>) -> Seq<u64>
    decreases s.len(),
{
    if s.len() == 0 {
        seq![x]
    } else if x <= s[0] {
        seq![x] + s
    } else {
        seq![s[0]] + insert_sorted(x, s.drop_first())
    }
}

/// The ascending insertion sort of `s`.
pub open spec fn sort_seq(s: Seq<u64>) -> Seq<u64>
    decreases s.len(),
{
    if s.len() == 0 {
        Seq::empty()
    } else {
        insert_sorted(s.last(), sort_seq(s.drop_last()))
    }
}

/// `s` is ascending.
pub open spec fn sorted(s: Seq<u64>) -> bool {
    forall|i: int, j: int| 0 <= i <= j < s.len() ==> s[i] <= s[j]
}

pub proof fn lemma_insert_sorted(x: u64, s: Seq<u64>)
    requires
        sorted(s),
    ensures
        insert_sorted(x, s).len() == s.len() + 1,
        sorted(insert_sorted(x, s)),
        forall|k: int|
            0 <= k < s.len() + 1 ==> (#[trigger] insert_sorted(x, s)[k] == x || s.contains(
                insert_sorted(x, s)[k],
            )),
    decreases s.len(),
{
    if s.len() == 0 {
    } else if x <= s[0] {
    } else {
        assert(sorted(s.drop_first()));
        lemma_insert_sorted(x, s.drop_first());
        let r = insert_sorted(x, s);
        let ri = insert_sorted(x, s.drop_first());
        assert forall|k: int| 0 <= k < s.len() + 1 implies (#[trigger] r[k] == x || s.contains(
            r[k],
        )) by {
            if k == 0 {
                assert(r[0] == s[0]);
                assert(s.contains(s[0]));
            } else {
                assert(r[k] == ri[k - 1]);
                if ri[k - 1] == x {
                } else {
                    assert(s.drop_first().contains(ri[k - 1]));
                    let w = choose|w: int|
                        0 <= w < s.drop_first().len() && s.drop_first()[w] == ri[k - 1];
                    assert(s[w + 1] == ri[k - 1]);
                }
            }
        }
        assert forall|i: int, j: int| 0 <= i <= j < r.len() implies r[i] <= r[j] by {
            if i == 0 {
                if j > 0 {
                    if ri[j - 1] == x {
                    } else {
                        let w = choose|w: int|
                            0 <= w < s.drop_first().len() && s.drop_first()[w] == ri[j - 1];
                        assert(s[0] <= s[w + 1]);
                    }
                }
            } else {
                assert(ri[i - 1] <= ri[j - 1]);
            }
        }
    }
}

pub proof fn lemma_sort_seq(s: Seq<u64>)
    ensures
        sort_seq(s).len() == s.len(),
        sorted(sort_seq(s)),
        forall|k: int| 0 <= k < s.len() ==> s.contains(#[trigger] sort_seq(s)[k]),
    decreases s.len(),
{
    if s.len() == 0 {
    } else {
        lemma_sort_seq(s.drop_last());
        lemma_insert_sorted(s.last(), sort_seq(s.drop_last()));
        let r = sort_seq(s);
        assert forall|k: int| 0 <= k < s.len() implies s.contains(#[trigger] r[k]) by {
            if r[k] == s.last() {
                assert(s[s.len() - 1] == s.last());
            } else {
                assert(s.drop_last().contains(r[k]));
                let w = choose|w: int| 0 <= w < s.drop_last().len() && s.drop_last()[w] == r[k];
                assert(s[w] == r[k]);
            }
        }
    }
}

proof fn lemma_insert_sorted_at(x: u64, s: Seq<u64>, i: int)
    requires
        0 <= i <= s.len(),
        forall|j: int| 0 <= j < i ==> s[j] < x,
        i < s.len() ==> x <= s[i],
    ensures
        insert_sorted(x, s) == s.insert(i, x),
    decreases s.len(),
{
    if s.len() == 0 {
        assert(insert_sorted(x, s) =~= s.insert(0, x));
    } else if i == 0 {
        assert(insert_sorted(x, s) =~= s.insert(0, x));
    } else {
        assert(s[0] < x);
        lemma_insert_sorted_at(x, s.drop_first(), i - 1);
        assert(seq![s[0]] + s.drop_first().insert(i - 1, x) =~= s.insert(i, x));
    }
}

/// Inserts `x` into the ascending vector `v`, keeping it ascending.
pub fn insert_into_sorted(v: &mut Vec<u64>, x: u64)
    requires
        sorted(old(v)@),
    ensures
        final(v)@ == insert_sorted(x, old(v)@),
        sorted(final(v)@),
{
    let mut i: usize = 0;
    while i < v.len() && v[i] < x
        invariant
            i <= v@.len(),
            forall|j: int| 0 <= j < i ==> v@[j] < x,
            v@ == old(v)@,
        decreases v@.len() - i,
    {
        i += 1;
    }
    proof {
        lemma_insert_sorted_at(x, v@, i as int);
        lemma_insert_sorted(x, v@);
    }
    v.insert(i, x);
}

/// Returns the ascending sort of `values`.
pub fn sort_durations(values: &Vec<u64>) -> (r: Vec<u64>)
    ensures
        r@ == sort_seq(values@),
        sorted(r@),
        r@.len() == values@.len(),
{
    let mut out: Vec<u64> = Vec::new();
    let mut i: usize = 0;
    while i < values.len()
        invariant
            i <= values@.len(),
            out@ == sort_seq(values@.take(i as int)),
            sorted(out@),
        decreases values@.len() - i,
    {
        insert_into_sorted(&mut out, values[i]);
        proof {
            assert(values@.take(i + 1).drop_last() =~= values@.take(i as int));
            assert(values@.take(i + 1).last() == values@[i as int]);
        }
        i += 1;
    }
    proof {
        assert(values@.take(values@.len() as int) =~= values@);
        lemma_sort_seq(values@);
    }
    out
}

} // verus!
