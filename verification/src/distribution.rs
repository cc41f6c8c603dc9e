//! Grouped distributions: outcomes counted by status code (successes) and by
//! error text (failures), ordered deterministically for display.
//!
//! Entries are ordered by count descending; among equal counts, by ascending
//! key (status codes numerically, error texts lexicographically). This exact
//! two-level tie-break is part of the rendering contract: the report must be
//! byte-identical across runs and platforms.

use vstd::prelude::*;

verus! {

// ---------------------------------------------------------------------------
// Status codes (u16 keys)
// ---------------------------------------------------------------------------
/// How many times `k` occurs in `s`.
pub open spec fn count_key16(s: Seq<u16>, k: u16) -> nat
    decreases s.len(),
{
    if s.len() == 0 {
        0
    } else {
        count_key16(s.drop_last(), k) + (if s.last() == k {
            1nat
        } else {
            0nat
        })
    }
}

/// Index of the entry of `k` in a grouped table, or -1 if absent.
pub open spec fn find16(g: Seq<(u16, u64)>, k: u16) -> int
    decreases g.len(),
{
    if g.len() == 0 {
        -1
    } else if g[0].0 == k {
        0
    } else {
        let r = find16(g.drop_first(), k);
        if r < 0 {
            -1
        } else {
            r + 1
        }
    }
}

/// Groups the keys of `s` into (key, count) entries, first occurrence first.
pub open spec fn group16(s: Seq<u16>) -> Seq<(u16, u64)>
    decreases s.len(),
{
    if s.len() == 0 {
        Seq::empty()
    } else {
        let g = group16(s.drop_last());
        let j = find16(g, s.last());
        if j < 0 {
            g.push((s.last(), 1u64))
        } else {
            g.update(j, (g[j].0, (g[j].1 + 1) as u64))
        }
    }
}

/// Sum of the counts of a grouped table.
pub open spec fn sum_counts16(g: Seq<(u16, u64)>) -> nat
    decreases g.len(),
{
    if g.len() == 0 {
        0
    } else {
        sum_counts16(g.drop_last()) + g.last().1 as nat
    }
}

/// Display order of status entries: count descending, then key ascending.
pub open spec fn order16(a: (u16, u64), b: (u16, u64)) -> bool {
    a.1 > b.1 || (a.1 == b.1 && a.0 <= b.0)
}

/// `g` is in display order.
pub open spec fn sorted16(g: Seq<(u16, u64)>) -> bool {
    forall|i: int, j: int| 0 <= i <= j < g.len() ==> order16(g[i], g[j])
}

/// `x` inserted before the first entry it precedes in display order.
pub open spec fn insert16(x: (u16, u64), g: Seq<(u16, u64)>) -> Seq<(u16, u64)>
    decreases g.len(),
{
    if g.len() == 0 {
        seq![x]
    } else if order16(x, g[0]) {
        seq![x] + g
    } else {
        seq![g[0]] + insert16(x, g.drop_first())
    }
}

/// Insertion sort of a grouped table into display order.
pub open spec fn sort16(g: Seq<(u16, u64)>) -> Seq<(u16, u64)>
    decreases g.len(),
{
    if g.len() == 0 {
        Seq::empty()
    } else {
        insert16(g.last(), sort16(g.drop_last()))
    }
}

/// The status-code distribution of `s`, ready for display.
pub open spec fn status_table(s: Seq<u16>) -> Seq<(u16, u64)> {
    sort16(group16(s))
}

proof fn lemma_find16_char(g: Seq<(u16, u64)>, k: u16)
    ensures
        find16(g, k) < 0 ==> forall|j: int| 0 <= j < g.len() ==> (#[trigger] g[j]).0 != k,
        find16(g, k) >= 0 ==> 0 <= find16(g, k) < g.len() && g[find16(g, k)].0 == k && forall|
            j: int,
        | 0 <= j < find16(g, k) ==> (#[trigger] g[j]).0 != k,
    decreases g.len(),
{
    if g.len() == 0 {
    } else if g[0].0 == k {
    } else {
        lemma_find16_char(g.drop_first(), k);
        assert(forall|j: int|
            1 <= j < g.len() ==> (#[trigger] g[j]) == g.drop_first()[j - 1]);
    }
}

proof fn lemma_sum16_update(g: Seq<(u16, u64)>, j: int, p: (u16, u64))
    requires
        0 <= j < g.len(),
    ensures
        sum_counts16(g.update(j, p)) == sum_counts16(g) - g[j].1 + p.1,
    decreases g.len(),
{
    if j == g.len() - 1 {
        assert(g.update(j, p).drop_last() =~= g.drop_last());
        assert(g.update(j, p).last() == p);
    } else {
        assert(g.update(j, p).drop_last() =~= g.drop_last().update(j, p));
        lemma_sum16_update(g.drop_last(), j, p);
    }
}

/// The grouped table of `s`: distinct keys, counts correct and positive,
/// counts summing to the number of keys, every occurring key present.
pub proof fn lemma_group16_props(s: Seq<u16>)
    requires
        s.len() <= u64::MAX,
    ensures
        forall|j1: int, j2: int|
            0 <= j1 < j2 < group16(s).len() ==> (#[trigger] group16(s)[j1]).0 != (
            #[trigger] group16(s)[j2]).0,
        forall|j: int|
            0 <= j < group16(s).len() ==> 1 <= (#[trigger] group16(s)[j]).1 <= s.len(),
        forall|j: int|
            0 <= j < group16(s).len() ==> (#[trigger] group16(s)[j]).1 as nat == count_key16(
                s,
                group16(s)[j].0,
            ),
        sum_counts16(group16(s)) == s.len(),
        group16(s).len() <= s.len(),
        forall|k: u16| count_key16(s, k) > 0 ==> find16(group16(s), k) >= 0,
    decreases s.len(),
{
    if s.len() == 0 {
    } else {
        lemma_group16_props(s.drop_last());
        let g0 = group16(s.drop_last());
        let k = s.last();
        let j = find16(g0, k);
        let g = group16(s);
        lemma_find16_char(g0, k);
        assert(forall|k2: u16|
            count_key16(s, k2) == count_key16(s.drop_last(), k2) + (if k2 == k {
                1nat
            } else {
                0nat
            }));
        if j < 0 {
            assert(g == g0.push((k, 1u64)));
            assert(g.drop_last() =~= g0);
            assert(count_key16(s.drop_last(), k) == 0) by {
                if count_key16(s.drop_last(), k) > 0 {
                    assert(find16(g0, k) >= 0);
                }
            }
            assert forall|k2: u16| count_key16(s, k2) > 0 implies find16(g, k2) >= 0 by {
                lemma_find16_char(g, k2);
                if find16(g, k2) < 0 {
                    if k2 == k {
                        assert(g[g.len() - 1].0 == k2);
                    } else {
                        assert(find16(g0, k2) >= 0);
                        lemma_find16_char(g0, k2);
                        assert(g[find16(g0, k2)].0 == k2);
                    }
                }
            }
        } else {
            assert(g0[j].1 <= s.drop_last().len());
            assert(g0[j].1 + 1 <= u64::MAX);
            assert(g == g0.update(j, (g0[j].0, (g0[j].1 + 1) as u64)));
            lemma_sum16_update(g0, j, (g0[j].0, (g0[j].1 + 1) as u64));
            assert(count_key16(s.drop_last(), k) == g0[j].1);
            assert forall|k2: u16| count_key16(s, k2) > 0 implies find16(g, k2) >= 0 by {
                lemma_find16_char(g, k2);
                if find16(g, k2) < 0 {
                    if k2 == k {
                        assert(g[j].0 == k2);
                    } else {
                        assert(find16(g0, k2) >= 0);
                        lemma_find16_char(g0, k2);
                        assert(g[find16(g0, k2)].0 == k2);
                    }
                }
            }
        }
    }
}

proof fn lemma_sum16_cons(x: (u16, u64), g: Seq<(u16, u64)>)
    ensures
        sum_counts16(seq![x] + g) == x.1 + sum_counts16(g),
    decreases g.len(),
{
    if g.len() == 0 {
        assert(seq![x] + g =~= seq![x]);
        assert(seq![x].drop_last() =~= g);
        assert(sum_counts16(seq![x]) == sum_counts16(g) + x.1);
    } else {
        assert((seq![x] + g).drop_last() =~= seq![x] + g.drop_last());
        assert((seq![x] + g).last() == g.last());
        lemma_sum16_cons(x, g.drop_last());
    }
}

proof fn lemma_insert16(x: (u16, u64), g: Seq<(u16, u64)>)
    requires
        sorted16(g),
    ensures
        insert16(x, g).len() == g.len() + 1,
        sorted16(insert16(x, g)),
        sum_counts16(insert16(x, g)) == x.1 + sum_counts16(g),
        forall|k: int|
            0 <= k < g.len() + 1 ==> (#[trigger] insert16(x, g)[k] == x || g.contains(
                insert16(x, g)[k],
            )),
    decreases g.len(),
{
    if g.len() == 0 {
        assert(seq![x].drop_last() =~= g);
        assert(sum_counts16(seq![x]) == sum_counts16(g) + x.1);
    } else if order16(x, g[0]) {
        lemma_sum16_cons(x, g);
        let r = seq![x] + g;
        assert forall|i: int, j: int| 0 <= i <= j < r.len() implies order16(r[i], r[j]) by {
            if i == 0 && j > 0 {
                assert(r[j] == g[j - 1]);
                assert(order16(g[0], g[j - 1]));
            } else if i > 0 {
                assert(order16(g[i - 1], g[j - 1]));
            }
        }
    } else {
        assert(sorted16(g.drop_first()));
        lemma_insert16(x, g.drop_first());
        let r = insert16(x, g);
        let ri = insert16(x, g.drop_first());
        lemma_sum16_cons(g[0], ri);
        assert(g =~= seq![g[0]] + g.drop_first());
        lemma_sum16_cons(g[0], g.drop_first());
        assert forall|k: int| 0 <= k < g.len() + 1 implies (#[trigger] r[k] == x || g.contains(
            r[k],
        )) by {
            if k == 0 {
                assert(r[0] == g[0]);
                assert(g.contains(g[0]));
            } else {
                assert(r[k] == ri[k - 1]);
                if ri[k - 1] == x {
                } else {
                    assert(g.drop_first().contains(ri[k - 1]));
                    let w = choose|w: int|
                        0 <= w < g.drop_first().len() && g.drop_first()[w] == ri[k - 1];
                    assert(g[w + 1] == ri[k - 1]);
                }
            }
        }
        assert forall|i: int, j: int| 0 <= i <= j < r.len() implies order16(r[i], r[j]) by {
            if i == 0 {
                if j > 0 {
                    if ri[j - 1] == x {
                        assert(order16(g[0], x));
                    } else {
                        let w = choose|w: int|
                            0 <= w < g.drop_first().len() && g.drop_first()[w] == ri[j - 1];
                        assert(order16(g[0], g[w + 1]));
                    }
                }
            } else {
                assert(order16(ri[i - 1], ri[j - 1]));
            }
        }
    }
}

/// Sorting a grouped table keeps its length and its count total.
pub proof fn lemma_sort16(g: Seq<(u16, u64)>)
    ensures
        sort16(g).len() == g.len(),
        sorted16(sort16(g)),
        sum_counts16(sort16(g)) == sum_counts16(g),
    decreases g.len(),
{
    if g.len() == 0 {
    } else {
        lemma_sort16(g.drop_last());
        lemma_insert16(g.last(), sort16(g.drop_last()));
    }
}

/// The displayed status distribution: ordered by count descending then key
/// ascending, with counts summing exactly to the number of grouped keys.
pub proof fn lemma_status_table(s: Seq<u16>)
    requires
        s.len() <= u64::MAX,
    ensures
        sorted16(status_table(s)),
        sum_counts16(status_table(s)) == s.len(),
        status_table(s).len() <= s.len(),
{
    lemma_group16_props(s);
    lemma_sort16(group16(s));
}

fn find_key16(g: &Vec<(u16, u64)>, k: u16) -> (r: Option<usize>)
    ensures
        match r {
            Some(t) => t < g@.len() && find16(g@, k) == t as int,
            None => find16(g@, k) < 0,
        },
{
    let mut t: usize = 0;
    while t < g.len()
        invariant
            t <= g@.len(),
            forall|j: int| 0 <= j < t ==> (#[trigger] g@[j]).0 != k,
        decreases g@.len() - t,
    {
        if g[t].0 == k {
            proof {
                lemma_find16_char(g@, k);
            }
            return Some(t);
        }
        t += 1;
    }
    proof {
        lemma_find16_char(g@, k);
    }
    None
}

/// Groups status codes into (key, count) entries, first occurrence first.
pub fn group_statuses(keys: &Vec<u16>) -> (r: Vec<(u16, u64)>)
    ensures
        r@ == group16(keys@),
{
    let mut g: Vec<(u16, u64)> = Vec::new();
    let mut i: usize = 0;
    while i < keys.len()
        invariant
            i <= keys@.len(),
            g@ == group16(keys@.take(i as int)),
        decreases keys@.len() - i,
    {
        proof {
            assert(keys@.take(i + 1).drop_last() =~= keys@.take(i as int));
            assert(usize::MAX <= u64::MAX);
            lemma_group16_props(keys@.take(i as int));
        }
        let k = keys[i];
        match find_key16(&g, k) {
            Some(t) => {
                let c = g[t].1;
                g.set(t, (g[t].0, c + 1));
            },
            None => {
                g.push((k, 1));
            },
        }
        i += 1;
    }
    proof {
        assert(keys@.take(keys@.len() as int) =~= keys@);
    }
    g
}

fn insert_pair16(v: &mut Vec<(u16, u64)>, x: (u16, u64))
    requires
        sorted16(old(v)@),
    ensures
        final(v)@ == insert16(x, old(v)@),
        sorted16(final(v)@),
{
    let mut i: usize = 0;
    while i < v.len() && !(x.1 > v[i].1 || (x.1 == v[i].1 && x.0 <= v[i].0))
        invariant
            i <= v@.len(),
            forall|j: int| 0 <= j < i ==> !order16(x, #[trigger] v@[j]),
            v@ == old(v)@,
        decreases v@.len() - i,
    {
        i += 1;
    }
    proof {
        lemma_insert16_at(x, v@, i as int);
        lemma_insert16(x, v@);
    }
    v.insert(i, x);
}

proof fn lemma_insert16_at(x: (u16, u64), g: Seq<(u16, u64)>, i: int)
    requires
        0 <= i <= g.len(),
        forall|j: int| 0 <= j < i ==> !order16(x, #[trigger] g[j]),
        i < g.len() ==> order16(x, g[i]),
    ensures
        insert16(x, g) == g.insert(i, x),
    decreases g.len(),
{
    if g.len() == 0 {
        assert(insert16(x, g) =~= g.insert(0, x));
    } else if i == 0 {
        assert(insert16(x, g) =~= g.insert(0, x));
    } else {
        assert(!order16(x, g[0]));
        lemma_insert16_at(x, g.drop_first(), i - 1);
        assert(seq![g[0]] + g.drop_first().insert(i - 1, x) =~= g.insert(i, x));
    }
}

/// The status-code distribution of `keys`, in display order.
pub fn status_distribution(keys: &Vec<u16>) -> (r: Vec<(u16, u64)>)
    ensures
        r@ == status_table(keys@),
        sorted16(r@),
        sum_counts16(r@) == keys@.len(),
{
    let g = group_statuses(keys);
    let mut out: Vec<(u16, u64)> = Vec::new();
    let mut i: usize = 0;
    while i < g.len()
        invariant
            i <= g@.len(),
            out@ == sort16(g@.take(i as int)),
            sorted16(out@),
        decreases g@.len() - i,
    {
        insert_pair16(&mut out, g[i]);
        proof {
            assert(g@.take(i + 1).drop_last() =~= g@.take(i as int));
            assert(g@.take(i + 1).last() == g@[i as int]);
        }
        i += 1;
    }
    proof {
        assert(g@.take(g@.len() as int) =~= g@);
        assert(keys@.len() == keys.len());
        assert(usize::MAX <= u64::MAX);
        lemma_status_table(keys@);
    }
    out
}

// ---------------------------------------------------------------------------
// Error texts (string keys)
// ---------------------------------------------------------------------------
/// Strict lexicographic order on character sequences, by code point; agrees
/// with the byte order of the UTF-8 encodings.
pub open spec fn lex_lt(a: Seq<char>, b: Seq<char>) -> bool
    decreases a.len(),
{
    if b.len() == 0 {
        false
    } else if a.len() == 0 {
        true
    } else if a[0] != b[0] {
        (a[0] as u32) < (b[0] as u32)
    } else {
        lex_lt(a.drop_first(), b.drop_first())
    }
}

/// Non-strict lexicographic order.
pub open spec fn lex_le(a: Seq<char>, b: Seq<char>) -> bool {
    lex_lt(a, b) || a == b
}

/// Any two character sequences compare some way.
pub proof fn lemma_lex_connex(a: Seq<char>, b: Seq<char>)
    ensures
        lex_lt(a, b) || lex_lt(b, a) || a == b,
    decreases a.len(),
{
    if b.len() == 0 {
        if a.len() == 0 {
            assert(a =~= b);
        }
    } else if a.len() == 0 {
    } else if a[0] != b[0] {
        vstd::utf8::char_u32_cast(a[0], a[0] as u32);
        vstd::utf8::char_u32_cast(b[0], b[0] as u32);
    } else {
        lemma_lex_connex(a.drop_first(), b.drop_first());
        if a.drop_first() == b.drop_first() {
            assert(a.drop_first().len() == b.drop_first().len());
            assert(a.len() == b.len());
            assert forall|i: int| 0 <= i < a.len() implies a[i] == b[i] by {
                if i > 0 {
                    assert(a.drop_first()[i - 1] == b.drop_first()[i - 1]);
                    assert(a[i] == a.drop_first()[i - 1]);
                }
            }
            assert(a =~= b);
        }
    }
}

/// Lexicographic order is transitive.
pub proof fn lemma_lex_trans(a: Seq<char>, b: Seq<char>, c: Seq<char>)
    requires
        lex_lt(a, b),
        lex_lt(b, c),
    ensures
        lex_lt(a, c),
    decreases a.len(),
{
    if c.len() == 0 {
    } else if b.len() == 0 {
    } else if a.len() == 0 {
    } else {
        if a[0] == b[0] && b[0] == c[0] {
            lemma_lex_trans(a.drop_first(), b.drop_first(), c.drop_first());
        }
    }
}

proof fn lemma_lex_skip(a: Seq<char>, b: Seq<char>, i: int)
    requires
        0 <= i <= a.len(),
        i <= b.len(),
        forall|j: int| 0 <= j < i ==> a[j] == b[j],
    ensures
        lex_lt(a, b) == lex_lt(a.skip(i), b.skip(i)),
    decreases i,
{
    if i == 0 {
        assert(a.skip(0) =~= a);
        assert(b.skip(0) =~= b);
    } else {
        lemma_lex_skip(a, b, i - 1);
        let ai = a.skip(i - 1);
        let bi = b.skip(i - 1);
        assert(ai[0] == a[i - 1]);
        assert(bi[0] == b[i - 1]);
        assert(ai.drop_first() =~= a.skip(i));
        assert(bi.drop_first() =~= b.skip(i));
    }
}

/// Compares two strings lexicographically by code point.
pub fn str_lex_lt(a: &str, b: &str) -> (r: bool)
    ensures
        r == lex_lt(a@, b@),
{
    let alen = a.unicode_len();
    let blen = b.unicode_len();
    let mut i: usize = 0;
    while i < alen && i < blen
        invariant
            i <= alen,
            i <= blen,
            alen == a@.len(),
            blen == b@.len(),
            forall|j: int| 0 <= j < i ==> a@[j] == b@[j],
        decreases alen - i,
    {
        let ca = a.get_char(i);
        let cb = b.get_char(i);
        if (ca as u32) < (cb as u32) {
            proof {
                lemma_lex_skip(a@, b@, i as int);
            }
            return true;
        }
        if (cb as u32) < (ca as u32) {
            proof {
                lemma_lex_skip(a@, b@, i as int);
            }
            return false;
        }
        proof {
            assert(ca == cb);
        }
        i += 1;
    }
    proof {
        lemma_lex_skip(a@, b@, i as int);
    }
    alen < blen
}

/// How many times the text `k` occurs in `s`.
pub open spec fn count_key_str(s: Seq<Seq<char>>, k: Seq<char>) -> nat
    decreases s.len(),
{
    if s.len() == 0 {
        0
    } else {
        count_key_str(s.drop_last(), k) + (if s.last() == k {
            1nat
        } else {
            0nat
        })
    }
}

/// Index of the entry of `k` in a grouped table, or -1 if absent.
pub open spec fn find_str(g: Seq<(Seq<char>, u64)>, k: Seq<char>) -> int
    decreases g.len(),
{
    if g.len() == 0 {
        -1
    } else if g[0].0 == k {
        0
    } else {
        let r = find_str(g.drop_first(), k);
        if r < 0 {
            -1
        } else {
            r + 1
        }
    }
}

/// Groups the texts of `s` into (key, count) entries, first occurrence first.
pub open spec fn group_str(s: Seq<Seq<char>>) -> Seq<(Seq<char>, u64)>
    decreases s.len(),
{
    if s.len() == 0 {
        Seq::empty()
    } else {
        let g = group_str(s.drop_last());
        let j = find_str(g, s.last());
        if j < 0 {
            g.push((s.last(), 1u64))
        } else {
            g.update(j, (g[j].0, (g[j].1 + 1) as u64))
        }
    }
}

/// Sum of the counts of a grouped table.
pub open spec fn sum_counts_str(g: Seq<(Seq<char>, u64)>) -> nat
    decreases g.len(),
{
    if g.len() == 0 {
        0
    } else {
        sum_counts_str(g.drop_last()) + g.last().1 as nat
    }
}

/// Display order of error entries: count descending, then text ascending.
pub open spec fn order_str(a: (Seq<char>, u64), b: (Seq<char>, u64)) -> bool {
    a.1 > b.1 || (a.1 == b.1 && lex_le(a.0, b.0))
}

/// `g` is in display order.
pub open spec fn sorted_str(g: Seq<(Seq<char>, u64)>) -> bool {
    forall|i: int, j: int| 0 <= i <= j < g.len() ==> order_str(g[i], g[j])
}

/// `x` inserted before the first entry it precedes in display order.
pub open spec fn insert_str(x: (Seq<char>, u64), g: Seq<(Seq<char>, u64)>) -> Seq<
    (Seq<char>, u64),
>
    decreases g.len(),
{
    if g.len() == 0 {
        seq![x]
    } else if order_str(x, g[0]) {
        seq![x] + g
    } else {
        seq![g[0]] + insert_str(x, g.drop_first())
    }
}

/// Insertion sort of a grouped table into display order.
pub open spec fn sort_str(g: Seq<(Seq<char>, u64)>) -> Seq<(Seq<char>, u64)>
    decreases g.len(),
{
    if g.len() == 0 {
        Seq::empty()
    } else {
        insert_str(g.last(), sort_str(g.drop_last()))
    }
}

/// The error-text distribution of `s`, ready for display.
pub open spec fn error_table(s: Seq<Seq<char>>) -> Seq<(Seq<char>, u64)> {
    sort_str(group_str(s))
}

/// The texts of a sequence of strings.
pub open spec fn str_views(v: Seq<String>) -> Seq<Seq<char>> {
    v.map_values(|s: String| s@)
}

/// The texts of the keys of a sequence of (string, count) pairs.
pub open spec fn str_pair_views(v: Seq<(String, u64)>) -> Seq<(Seq<char>, u64)> {
    v.map_values(|p: (String, u64)| (p.0@, p.1))
}

proof fn lemma_find_str_char(g: Seq<(Seq<char>, u64)>, k: Seq<char>)
    ensures
        find_str(g, k) < 0 ==> forall|j: int| 0 <= j < g.len() ==> (#[trigger] g[j]).0 != k,
        find_str(g, k) >= 0 ==> 0 <= find_str(g, k) < g.len() && g[find_str(g, k)].0 == k
            && forall|j: int| 0 <= j < find_str(g, k) ==> (#[trigger] g[j]).0 != k,
    decreases g.len(),
{
    if g.len() == 0 {
    } else if g[0].0 == k {
    } else {
        lemma_find_str_char(g.drop_first(), k);
        assert(forall|j: int| 1 <= j < g.len() ==> (#[trigger] g[j]) == g.drop_first()[j - 1]);
    }
}

proof fn lemma_sum_str_update(g: Seq<(Seq<char>, u64)>, j: int, p: (Seq<char>, u64))
    requires
        0 <= j < g.len(),
    ensures
        sum_counts_str(g.update(j, p)) == sum_counts_str(g) - g[j].1 + p.1,
    decreases g.len(),
{
    if j == g.len() - 1 {
        assert(g.update(j, p).drop_last() =~= g.drop_last());
        assert(g.update(j, p).last() == p);
    } else {
        assert(g.update(j, p).drop_last() =~= g.drop_last().update(j, p));
        lemma_sum_str_update(g.drop_last(), j, p);
    }
}

/// The grouped table of `s`: distinct keys, counts correct and positive,
/// counts summing to the number of texts, every occurring text present.
pub proof fn lemma_group_str_props(s: Seq<Seq<char>>)
    requires
        s.len() <= u64::MAX,
    ensures
        forall|j1: int, j2: int|
            0 <= j1 < j2 < group_str(s).len() ==> (#[trigger] group_str(s)[j1]).0 != (
            #[trigger] group_str(s)[j2]).0,
        forall|j: int|
            0 <= j < group_str(s).len() ==> 1 <= (#[trigger] group_str(s)[j]).1 <= s.len(),
        forall|j: int|
            0 <= j < group_str(s).len() ==> (#[trigger] group_str(s)[j]).1 as nat == count_key_str(
                s,
                group_str(s)[j].0,
            ),
        sum_counts_str(group_str(s)) == s.len(),
        group_str(s).len() <= s.len(),
        forall|k: Seq<char>| count_key_str(s, k) > 0 ==> find_str(group_str(s), k) >= 0,
    decreases s.len(),
{
    if s.len() == 0 {
    } else {
        lemma_group_str_props(s.drop_last());
        let g0 = group_str(s.drop_last());
        let k = s.last();
        let j = find_str(g0, k);
        let g = group_str(s);
        lemma_find_str_char(g0, k);
        assert(forall|k2: Seq<char>|
            count_key_str(s, k2) == count_key_str(s.drop_last(), k2) + (if k2 == k {
                1nat
            } else {
                0nat
            }));
        if j < 0 {
            assert(g == g0.push((k, 1u64)));
            assert(g.drop_last() =~= g0);
            assert(count_key_str(s.drop_last(), k) == 0) by {
                if count_key_str(s.drop_last(), k) > 0 {
                    assert(find_str(g0, k) >= 0);
                }
            }
            assert forall|k2: Seq<char>| count_key_str(s, k2) > 0 implies find_str(g, k2) >= 0 by {
                lemma_find_str_char(g, k2);
                if find_str(g, k2) < 0 {
                    if k2 == k {
                        assert(g[g.len() - 1].0 == k2);
                    } else {
                        assert(find_str(g0, k2) >= 0);
                        lemma_find_str_char(g0, k2);
                        assert(g[find_str(g0, k2)].0 == k2);
                    }
                }
            }
        } else {
            assert(g0[j].1 <= s.drop_last().len());
            assert(g0[j].1 + 1 <= u64::MAX);
            assert(g == g0.update(j, (g0[j].0, (g0[j].1 + 1) as u64)));
            lemma_sum_str_update(g0, j, (g0[j].0, (g0[j].1 + 1) as u64));
            assert(count_key_str(s.drop_last(), k) == g0[j].1);
            assert forall|k2: Seq<char>| count_key_str(s, k2) > 0 implies find_str(g, k2) >= 0 by {
                lemma_find_str_char(g, k2);
                if find_str(g, k2) < 0 {
                    if k2 == k {
                        assert(g[j].0 == k2);
                    } else {
                        assert(find_str(g0, k2) >= 0);
                        lemma_find_str_char(g0, k2);
                        assert(g[find_str(g0, k2)].0 == k2);
                    }
                }
            }
        }
    }
}

proof fn lemma_sum_str_cons(x: (Seq<char>, u64), g: Seq<(Seq<char>, u64)>)
    ensures
        sum_counts_str(seq![x] + g) == x.1 + sum_counts_str(g),
    decreases g.len(),
{
    if g.len() == 0 {
        assert(seq![x] + g =~= seq![x]);
        assert(seq![x].drop_last() =~= g);
        assert(sum_counts_str(seq![x]) == sum_counts_str(g) + x.1);
    } else {
        assert((seq![x] + g).drop_last() =~= seq![x] + g.drop_last());
        assert((seq![x] + g).last() == g.last());
        lemma_sum_str_cons(x, g.drop_last());
    }
}

proof fn lemma_insert_str(x: (Seq<char>, u64), g: Seq<(Seq<char>, u64)>)
    requires
        sorted_str(g),
    ensures
        insert_str(x, g).len() == g.len() + 1,
        sorted_str(insert_str(x, g)),
        sum_counts_str(insert_str(x, g)) == x.1 + sum_counts_str(g),
        forall|k: int|
            0 <= k < g.len() + 1 ==> (#[trigger] insert_str(x, g)[k] == x || g.contains(
                insert_str(x, g)[k],
            )),
    decreases g.len(),
{
    if g.len() == 0 {
        assert(seq![x].drop_last() =~= g);
        assert(sum_counts_str(seq![x]) == sum_counts_str(g) + x.1);
    } else if order_str(x, g[0]) {
        lemma_sum_str_cons(x, g);
        let r = seq![x] + g;
        assert forall|i: int, j: int| 0 <= i <= j < r.len() implies order_str(r[i], r[j]) by {
            if i == 0 && j > 0 {
                assert(r[j] == g[j - 1]);
                assert(order_str(g[0], g[j - 1]));
                if x.1 == g[j - 1].1 && g[0].1 == x.1 {
                    if lex_lt(x.0, g[0].0) && lex_lt(g[0].0, g[j - 1].0) {
                        lemma_lex_trans(x.0, g[0].0, g[j - 1].0);
                    }
                }
            } else if i > 0 {
                assert(order_str(g[i - 1], g[j - 1]));
            }
        }
    } else {
        assert(sorted_str(g.drop_first()));
        lemma_insert_str(x, g.drop_first());
        let r = insert_str(x, g);
        let ri = insert_str(x, g.drop_first());
        lemma_sum_str_cons(g[0], ri);
        assert(g =~= seq![g[0]] + g.drop_first());
        lemma_sum_str_cons(g[0], g.drop_first());
        lemma_lex_connex(x.0, g[0].0);
        assert(order_str(g[0], x));
        assert forall|k: int| 0 <= k < g.len() + 1 implies (#[trigger] r[k] == x || g.contains(
            r[k],
        )) by {
            if k == 0 {
                assert(r[0] == g[0]);
                assert(g.contains(g[0]));
            } else {
                assert(r[k] == ri[k - 1]);
                if ri[k - 1] == x {
                } else {
                    assert(g.drop_first().contains(ri[k - 1]));
                    let w = choose|w: int|
                        0 <= w < g.drop_first().len() && g.drop_first()[w] == ri[k - 1];
                    assert(g[w + 1] == ri[k - 1]);
                }
            }
        }
        assert forall|i: int, j: int| 0 <= i <= j < r.len() implies order_str(r[i], r[j]) by {
            if i == 0 {
                if j > 0 {
                    if ri[j - 1] == x {
                    } else {
                        let w = choose|w: int|
                            0 <= w < g.drop_first().len() && g.drop_first()[w] == ri[j - 1];
                        assert(order_str(g[0], g[w + 1]));
                    }
                }
            } else {
                assert(order_str(ri[i - 1], ri[j - 1]));
            }
        }
    }
}

/// Sorting a grouped table keeps its length and its count total.
pub proof fn lemma_sort_str(g: Seq<(Seq<char>, u64)>)
    ensures
        sort_str(g).len() == g.len(),
        sorted_str(sort_str(g)),
        sum_counts_str(sort_str(g)) == sum_counts_str(g),
    decreases g.len(),
{
    if g.len() == 0 {
    } else {
        lemma_sort_str(g.drop_last());
        lemma_insert_str(g.last(), sort_str(g.drop_last()));
    }
}

/// The displayed error distribution: ordered by count descending then text
/// ascending, with counts summing exactly to the number of grouped texts.
pub proof fn lemma_error_table(s: Seq<Seq<char>>)
    requires
        s.len() <= u64::MAX,
    ensures
        sorted_str(error_table(s)),
        sum_counts_str(error_table(s)) == s.len(),
        error_table(s).len() <= s.len(),
{
    lemma_group_str_props(s);
    lemma_sort_str(group_str(s));
}

fn find_key_str(g: &Vec<(String, u64)>, k: &String) -> (r: Option<usize>)
    ensures
        match r {
            Some(t) => t < g@.len() && find_str(str_pair_views(g@), k@) == t as int,
            None => find_str(str_pair_views(g@), k@) < 0,
        },
{
    let ghost gs = str_pair_views(g@);
    let mut t: usize = 0;
    while t < g.len()
        invariant
            t <= g@.len(),
            gs == str_pair_views(g@),
            gs.len() == g@.len(),
            forall|j: int| 0 <= j < t ==> (#[trigger] gs[j]).0 != k@,
        decreases g@.len() - t,
    {
        let p = &g[t];
        proof {
            assert(gs[t as int] == (g@[t as int].0@, g@[t as int].1));
        }
        if p.0.eq(k) {
            proof {
                lemma_find_str_char(gs, k@);
            }
            return Some(t);
        }
        t += 1;
    }
    proof {
        lemma_find_str_char(gs, k@);
    }
    None
}

/// Groups error texts into (text, count) entries, first occurrence first.
pub fn group_errors(keys: &Vec<String>) -> (r: Vec<(String, u64)>)
    ensures
        str_pair_views(r@) == group_str(str_views(keys@)),
{
    let mut g: Vec<(String, u64)> = Vec::new();
    let mut i: usize = 0;
    while i < keys.len()
        invariant
            i <= keys@.len(),
            str_pair_views(g@) == group_str(str_views(keys@).take(i as int)),
        decreases keys@.len() - i,
    {
        proof {
            assert(str_views(keys@).take(i + 1).drop_last() =~= str_views(keys@).take(i as int));
            assert(str_views(keys@).take(i + 1).last() == keys@[i as int]@);
            assert(usize::MAX <= u64::MAX);
            assert(str_views(keys@).take(i as int).len() <= u64::MAX);
            lemma_group_str_props(str_views(keys@).take(i as int));
        }
        let k = &keys[i];
        match find_key_str(&g, k) {
            Some(t) => {
                let c = g[t].1;
                let kk = g[t].0.clone();
                proof {
                    assert(str_pair_views(g@)[t as int] == (g@[t as int].0@, g@[t as int].1));
                    assert(c as nat <= i as nat);
                    assert(i < keys.len());
                    assert(usize::MAX <= u64::MAX);
                }
                g.set(t, (kk, c + 1));
                proof {
                    assert(str_pair_views(g@) =~= group_str(
                        str_views(keys@).take(i + 1),
                    ));
                }
            },
            None => {
                g.push((k.clone(), 1));
                proof {
                    assert(str_pair_views(g@) =~= group_str(
                        str_views(keys@).take(i + 1),
                    ));
                }
            },
        }
        i += 1;
    }
    proof {
        assert(str_views(keys@).take(keys@.len() as int) =~= str_views(keys@));
    }
    g
}

fn pair_order_str(a: &(String, u64), b: &(String, u64)) -> (r: bool)
    ensures
        r == order_str((a.0@, a.1), (b.0@, b.1)),
{
    if a.1 > b.1 {
        true
    } else if a.1 == b.1 {
        if str_lex_lt(a.0.as_str(), b.0.as_str()) {
            true
        } else {
            a.0.eq(&b.0)
        }
    } else {
        false
    }
}

fn insert_pair_str(v: &mut Vec<(String, u64)>, x: (String, u64))
    requires
        sorted_str(str_pair_views(old(v)@)),
    ensures
        str_pair_views(final(v)@) == insert_str((x.0@, x.1), str_pair_views(old(v)@)),
        sorted_str(str_pair_views(final(v)@)),
{
    let ghost xs = (x.0@, x.1);
    let ghost vs = str_pair_views(v@);
    let mut i: usize = 0;
    while i < v.len() && !pair_order_str(&x, &v[i])
        invariant
            i <= v@.len(),
            xs == (x.0@, x.1),
            vs == str_pair_views(v@),
            vs.len() == v@.len(),
            forall|j: int| 0 <= j < i ==> !order_str(xs, #[trigger] vs[j]),
            v@ == old(v)@,
        decreases v@.len() - i,
    {
        proof {
            assert(vs[i as int] == (v@[i as int].0@, v@[i as int].1));
            assert(!order_str((x.0@, x.1), (v@[i as int].0@, v@[i as int].1)));
            assert(!order_str(xs, vs[i as int]));
        }
        i += 1;
    }
    proof {
        assert(i < v@.len() ==> vs[i as int] == (v@[i as int].0@, v@[i as int].1));
        lemma_insert_str_at(xs, vs, i as int);
        lemma_insert_str(xs, vs);
    }
    v.insert(i, x);
    proof {
        assert(str_pair_views(v@) =~= vs.insert(i as int, xs));
    }
}

proof fn lemma_insert_str_at(x: (Seq<char>, u64), g: Seq<(Seq<char>, u64)>, i: int)
    requires
        0 <= i <= g.len(),
        forall|j: int| 0 <= j < i ==> !order_str(x, #[trigger] g[j]),
        i < g.len() ==> order_str(x, g[i]),
    ensures
        insert_str(x, g) == g.insert(i, x),
    decreases g.len(),
{
    if g.len() == 0 {
        assert(insert_str(x, g) =~= g.insert(0, x));
    } else if i == 0 {
        assert(insert_str(x, g) =~= g.insert(0, x));
    } else {
        assert(!order_str(x, g[0]));
        lemma_insert_str_at(x, g.drop_first(), i - 1);
        assert(seq![g[0]] + g.drop_first().insert(i - 1, x) =~= g.insert(i, x));
    }
}

/// The error-text distribution of `keys`, in display order.
pub fn error_distribution(keys: &Vec<String>) -> (r: Vec<(String, u64)>)
    ensures
        str_pair_views(r@) == error_table(str_views(keys@)),
        sorted_str(str_pair_views(r@)),
        sum_counts_str(str_pair_views(r@)) == keys@.len(),
{
    let g = group_errors(keys);
    let ghost gs = str_pair_views(g@);
    let mut out: Vec<(String, u64)> = Vec::new();
    let mut i: usize = 0;
    while i < g.len()
        invariant
            i <= g@.len(),
            gs == str_pair_views(g@),
            gs.len() == g@.len(),
            str_pair_views(out@) == sort_str(gs.take(i as int)),
            sorted_str(str_pair_views(out@)),
        decreases g@.len() - i,
    {
        let p = &g[i];
        let x = (p.0.clone(), p.1);
        proof {
            assert((x.0@, x.1) == gs[i as int]);
        }
        insert_pair_str(&mut out, x);
        proof {
            assert(gs.take(i + 1).drop_last() =~= gs.take(i as int));
            assert(gs.take(i + 1).last() == gs[i as int]);
        }
        i += 1;
    }
    proof {
        assert(gs.take(g@.len() as int) =~= gs);
        assert(keys@.len() == keys.len());
        assert(usize::MAX <= u64::MAX);
        assert(str_views(keys@).len() == keys@.len());
        lemma_error_table(str_views(keys@));
    }
    out
}

} // verus!
