//! Nearest-rank percentiles of latency samples.

use vstd::prelude::*;
use vstd::relations::{sorted_by, total_ordering};
use vstd::seq_lib::lemma_sorted_unique;

verus! {

broadcast use vstd::seq_lib::group_to_multiset_ensures;

/// The order on samples.
pub open spec fn sample_leq() -> spec_fn(u64, u64) -> bool {
    |a: u64, b: u64| a <= b
}

/// Index of the `pct`-th percentile among `n` sorted samples by the
/// nearest-rank rule: the `ceil(pct * n / 100)`-th smallest, counted from 1,
/// kept within the samples.
pub open spec fn nearest_rank_index(pct: nat, n: nat) -> int {
    let c = (pct * n + 99) / 100;
    let i = if c == 0 { 0 } else { c - 1 };
    if i > n - 1 { n - 1 } else { i }
}

/// The `pct`-th percentile of the samples, 0 when there are none.
pub open spec fn percentile_of(values: Seq<u64>, pct: nat) -> u64 {
    if values.len() == 0 {
        0
    } else {
        values.sort_by(sample_leq())[nearest_rank_index(pct, values.len())]
    }
}

proof fn lemma_sample_leq_total()
    ensures
        total_ordering(sample_leq()),
{
}

/// Sorts a copy of the samples in ascending order.
fn sorted_copy(values: &[u64]) -> (r: Vec<u64>)
    ensures
        r@ == values@.sort_by(sample_leq()),
{
    let mut r: Vec<u64> = Vec::new();
    let mut i: usize = 0;
    while i < values.len()
        invariant
            i <= values.len(),
            sorted_by(r@, sample_leq()),
            r@.to_multiset() == values@.take(i as int).to_multiset(),
        decreases values.len() - i,
    {
        let x = values[i];
        let mut pos: usize = 0;
        while pos < r.len() && r[pos] <= x
            invariant
                pos <= r.len(),
                forall|j: int| 0 <= j < pos ==> r@[j] <= x,
            decreases r.len() - pos,
        {
            pos = pos + 1;
        }
        let ghost before = r@;
        r.insert(pos, x);
        proof {
            assert(r@ == before.insert(pos as int, x));
            assert forall|a: int, b: int| 0 <= a < b < r@.len() implies #[trigger] (sample_leq())(r@[a], r@[b]) by {
                let p = pos as int;
                if b < p {
                    assert((sample_leq())(before[a], before[b]));
                } else if b == p {
                    assert(before[a] <= x);
                } else if a == p {
                    if p < before.len() {
                        assert(before[p] > x);
                        if b - 1 > p {
                            assert((sample_leq())(before[p], before[b - 1]));
                        }
                    }
                } else if a < p {
                    assert((sample_leq())(before[a], before[b - 1]));
                } else {
                    assert((sample_leq())(before[a - 1], before[b - 1]));
                }
            }
            assert(values@.take(i + 1) =~= values@.take(i as int).push(x));
        }
        i = i + 1;
    }
    proof {
        assert(values@.take(values.len() as int) =~= values@);
        values@.lemma_sort_by_ensures(sample_leq());
        lemma_sample_leq_total();
        lemma_sorted_unique(r@, values@.sort_by(sample_leq()), sample_leq());
    }
    r
}

/// The `pct`-th percentile of the samples by the nearest-rank rule (0 for
/// no samples).
pub fn percentile(values: &[u64], pct: usize) -> (r: u64)
    ensures
        r == percentile_of(values@, pct as nat),
{
    if values.len() == 0 {
        return 0;
    }
    let sorted = sorted_copy(values);
    proof {
        values@.lemma_sort_by_ensures(sample_leq());
        assert(sorted@.len() == values@.len()) by {
            vstd::seq_lib::to_multiset_len(values@);
            vstd::seq_lib::to_multiset_len(sorted@);
        }
    }
    let n = sorted.len() as u128;
    let pp = pct as u128;
    assert(pp * n <= 0xFFFF_FFFF_FFFF_FFFFu128 * 0xFFFF_FFFF_FFFF_FFFFu128) by (nonlinear_arith)
        requires
            pp <= 0xFFFF_FFFF_FFFF_FFFFu128,
            n <= 0xFFFF_FFFF_FFFF_FFFFu128,
    ;
    let c: u128 = (pp * n + 99) / 100;
    let i: u128 = if c == 0 { 0 } else { c - 1 };
    let idx: u128 = if i > n - 1 { n - 1 } else { i };
    sorted[idx as usize]
}

/// A higher percentile is never below a lower one.
pub proof fn law_percentile_monotone(values: Seq<u64>, p: nat, q: nat)
    requires
        p <= q,
    ensures
        percentile_of(values, p) <= percentile_of(values, q),
{
    if values.len() > 0 {
        let n = values.len();
        values.lemma_sort_by_ensures(sample_leq());
        let s = values.sort_by(sample_leq());
        vstd::seq_lib::to_multiset_len(values);
        vstd::seq_lib::to_multiset_len(s);
        assert((p * n + 99) / 100 <= (q * n + 99) / 100) by (nonlinear_arith)
            requires
                p <= q,
        ;
        let a = nearest_rank_index(p, n);
        let b = nearest_rank_index(q, n);
        if a < b {
            assert((sample_leq())(s[a], s[b]));
        }
    }
}

/// A percentile of some samples is one of them; of no samples it is 0.
pub proof fn law_percentile_is_a_sample(values: Seq<u64>, pct: nat)
    ensures
        values.len() == 0 ==> percentile_of(values, pct) == 0,
        values.len() > 0 ==> values.contains(percentile_of(values, pct)),
{
    if values.len() > 0 {
        let n = values.len();
        values.lemma_sort_by_ensures(sample_leq());
        let s = values.sort_by(sample_leq());
        vstd::seq_lib::to_multiset_len(values);
        vstd::seq_lib::to_multiset_len(s);
        let k = nearest_rank_index(pct, n);
        assert(0 <= k < n) by (nonlinear_arith)
            requires
                k == nearest_rank_index(pct, n),
                n > 0,
        ;
        assert(s.contains(s[k]));
        assert(s.to_multiset().count(s[k]) > 0);
    }
}

/// The latency summary's three percentiles come in order, and the highest
/// is one of the samples (0 with no samples).
pub proof fn law_summary_percentiles(values: Seq<u64>)
    ensures
        percentile_of(values, 50) <= percentile_of(values, 95),
        percentile_of(values, 95) <= percentile_of(values, 99),
        values.len() == 0 ==> percentile_of(values, 99) == 0,
        values.len() > 0 ==> values.contains(percentile_of(values, 99)),
{
    law_percentile_monotone(values, 50, 95);
    law_percentile_monotone(values, 95, 99);
    law_percentile_is_a_sample(values, 99);
}

} // verus!
