//! Order statistics and averages over sample histories.

use vstd::prelude::*;
use vstd::relations::{sorted_by, total_ordering};

verus! {

broadcast use vstd::seq_lib::group_to_multiset_ensures;

pub open spec fn le_u64() -> spec_fn(u64, u64) -> bool {
    |a: u64, b: u64| a <= b
}

/// The samples in ascending order.
pub open spec fn ascending(s: Seq<u64>) -> Seq<u64> {
    s.sort_by(le_u64())
}

/// The sample at rank `⌊len × pct / 100⌋` of the ascending order.
pub open spec fn percentile_of(s: Seq<u64>, pct: int) -> u64 {
    ascending(s)[s.len() * pct / 100]
}

proof fn lemma_le_total()
    ensures
        total_ordering(le_u64()),
{
}

/// Sorts samples ascending by insertion.
pub fn sort_ascending(v: &Vec<u64>) -> (r: Vec<u64>)
    ensures
        r@ == ascending(v@),
{
    let mut out: Vec<u64> = Vec::new();
    let mut i: usize = 0;
    while i < v.len()
        invariant
            i <= v.len(),
            sorted_by(out@, le_u64()),
            out@.to_multiset() == v@.take(i as int).to_multiset(),
        decreases v.len() - i,
    {
        let x = v[i];
        let mut p: usize = 0;
        while p < out.len() && out[p] <= x
            invariant
                p <= out.len(),
                forall|j: int| 0 <= j < p ==> out@[j] <= x,
            decreases out.len() - p,
        {
            p = p + 1;
        }
        let ghost before = out@;
        out.insert(p, x);
        proof {
            assert(forall|j: int| p <= j < before.len() ==> x < before[j]) by {
                assert forall|j: int| p <= j < before.len() implies x < before[j] by {
                    assert(le_u64()(before[p as int], before[j]));
                }
            }
            assert(v@.take(i + 1) =~= v@.take(i as int).push(x));
        }
        i = i + 1;
    }
    proof {
        assert(v@.take(v.len() as int) =~= v@);
        lemma_le_total();
        v@.lemma_sort_by_ensures(le_u64());
        vstd::seq_lib::lemma_sorted_unique(out@, ascending(v@), le_u64());
    }
    out
}

/// The `pct`-th percentile of non-empty samples, as rank `⌊len × pct / 100⌋`
/// of their ascending order.
pub fn percentile(samples: &Vec<u64>, pct: usize) -> (r: u64)
    requires
        samples@.len() > 0,
        pct < 100,
    ensures
        r == percentile_of(samples@, pct as int),
{
    let sorted = sort_ascending(samples);
    proof {
        lemma_le_total();
        samples@.lemma_sort_by_ensures(le_u64());
        assert(samples@.len() * pct / 100 < samples@.len()) by (nonlinear_arith)
            requires pct < 100, samples@.len() > 0;
    }
    assert(sorted@.len() == samples@.len()) by {
        assert(sorted@.to_multiset().len() == samples@.to_multiset().len());
    }
    let idx: usize = ((samples.len() as u128 * pct as u128) / 100) as usize;
    sorted[idx]
}

pub open spec fn sum_of(s: Seq<u64>) -> int
    decreases s.len(),
{
    if s.len() == 0 { 0 } else { sum_of(s.drop_last()) + s.last() }
}

/// The last `min(window, len)` entries of a history.
pub open spec fn last_window(s: Seq<u64>, window: int) -> Seq<u64> {
    s.skip(if s.len() > window { s.len() - window } else { 0 })
}

/// Mean (rounded down) of the last `window` entries; 0 when there are none.
pub open spec fn mean_of_last(s: Seq<u64>, window: int) -> int {
    let w = last_window(s, window);
    if w.len() == 0 { 0 } else { sum_of(w) / (w.len() as int) }
}

proof fn lemma_sum_bound(s: Seq<u64>)
    ensures
        0 <= sum_of(s) <= s.len() * u64::MAX,
    decreases s.len(),
{
    if s.len() > 0 {
        lemma_sum_bound(s.drop_last());
    }
}

/// Mean of the last `window` entries of a history, rounded down.
pub fn average_of_last(history: &Vec<u64>, window: usize) -> (r: u64)
    ensures
        r == mean_of_last(history@, window as int),
{
    let n = history.len();
    let start: usize = if n > window { n - window } else { 0 };
    let ghost w = last_window(history@, window as int);
    let mut sum: u128 = 0;
    let mut i: usize = start;
    while i < n
        invariant
            start <= i <= n,
            n == history@.len(),
            w == history@.skip(start as int),
            sum == sum_of(history@.subrange(start as int, i as int)),
            sum <= (i - start) * u64::MAX,
        decreases n - i,
    {
        assert(history@.subrange(start as int, i + 1).drop_last() =~= history@.subrange(start as int, i as int));
        assert((i - start) * u64::MAX + u64::MAX == (i + 1 - start) * u64::MAX) by (nonlinear_arith);
        assert((i + 1 - start) * u64::MAX <= usize::MAX * u64::MAX) by (nonlinear_arith)
            requires i + 1 - start <= usize::MAX;
        sum = sum + history[i] as u128;
        i = i + 1;
    }
    assert(history@.subrange(start as int, n as int) =~= w);
    if n == start {
        return 0;
    }
    let count: u128 = (n - start) as u128;
    assert(sum / count <= u64::MAX) by (nonlinear_arith)
        requires sum <= count * u64::MAX, count >= 1;
    (sum / count) as u64
}

/// Appends a sample and drops the oldest ones beyond `cap`.
pub fn push_capped(history: &mut Vec<u64>, value: u64, cap: usize)
    requires
        cap >= 1,
    ensures
        final(history)@ == last_window(old(history)@.push(value), cap as int),
{
    history.push(value);
    let ghost pushed = history@;
    while history.len() > cap
        invariant
            cap >= 1,
            history@.len() <= pushed.len(),
            history@ == pushed.skip(pushed.len() - history@.len()),
            history@.len() >= cap || history@.len() == pushed.len(),
        decreases history.len(),
    {
        let ghost prev = history@;
        history.remove(0);
        assert(history@ =~= pushed.skip(pushed.len() - history@.len()));
    }
    assert(history@ =~= last_window(pushed, cap as int));
}

} // verus!
