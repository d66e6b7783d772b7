//! The choking algorithm: which peers get unchoked each round.

use vstd::prelude::*;
use crate::limits::{random_in, thread_rng};

verus! {

/// Peers unchoked by rate each round.
pub const UNCHOKE_SLOTS: usize = 4;

/// Peer `a` ranks before peer `b`: a higher rate, or the lower index among equals.
pub open spec fn ranks_before(rates: Seq<u64>, a: int, b: int) -> bool {
    rates[a] > rates[b] || (rates[a] == rates[b] && a < b)
}

/// Picks the `k` best peers by rate (download rate while leeching, upload
/// rate while seeding), best first, the lower index among equal rates.
pub fn select_unchoked(rates: &Vec<u64>, k: usize) -> (r: Vec<usize>)
    ensures
        r@.len() == if k < rates@.len() { k as int } else { rates@.len() as int },
        forall|i: int| 0 <= i < r@.len() ==> (#[trigger] r@[i]) < rates@.len(),
        forall|i: int, j: int| 0 <= i < j < r@.len() ==> ranks_before(rates@, #[trigger] r@[i] as int, #[trigger] r@[j] as int),
        forall|i: int, q: int| 0 <= i < r@.len() && 0 <= q < rates@.len() && !r@.contains(q as usize)
            ==> #[trigger] ranks_before(rates@, r@[i] as int, q),
{
    let n = rates.len();
    let mut order: Vec<usize> = Vec::new();
    let mut i: usize = 0;
    while i < n
        invariant
            i <= n,
            n == rates@.len(),
            order@.len() == i,
            forall|a: int| 0 <= a < order@.len() ==> (#[trigger] order@[a]) < i,
            forall|q: int| 0 <= q < i ==> #[trigger] order@.contains(q as usize),
            forall|a: int, b: int| 0 <= a < b < order@.len() ==> ranks_before(rates@, #[trigger] order@[a] as int, #[trigger] order@[b] as int),
        decreases n - i,
    {
        let mut p: usize = 0;
        while p < order.len() && !(rates[i] > rates[order[p]])
            invariant
                p <= order@.len(),
                n == rates@.len(),
                i < n,
                forall|a: int| 0 <= a < order@.len() ==> (#[trigger] order@[a]) < i,
                forall|a: int| 0 <= a < p ==> ranks_before(rates@, #[trigger] order@[a] as int, i as int),
            decreases order@.len() - p,
        {
            p = p + 1;
        }
        let ghost before = order@;
        order.insert(p, i);
        proof {
            assert forall|a: int| 0 <= a < order@.len() implies (#[trigger] order@[a]) < i + 1 by {
                if a < p { assert(order@[a] == before[a]); } else if a > p { assert(order@[a] == before[a - 1]); }
            }
            assert forall|q: int| 0 <= q < i + 1 implies #[trigger] order@.contains(q as usize) by {
                if q == i {
                    assert(order@[p as int] == i);
                } else {
                    assert(before.contains(q as usize));
                    let w = choose|w: int| 0 <= w < before.len() && before[w] == q as usize;
                    if w < p { assert(order@[w] == q as usize); } else { assert(order@[w + 1] == q as usize); }
                }
            }
            assert forall|a: int, b: int| 0 <= a < b < order@.len()
                implies ranks_before(rates@, #[trigger] order@[a] as int, #[trigger] order@[b] as int) by {
                if a < p && b == p {
                } else if a == p {
                    assert(order@[b] == before[b - 1]);
                    assert(before[b - 1] < i);
                    if b - 1 > p {
                        assert(ranks_before(rates@, before[p as int] as int, before[b - 1] as int));
                    }
                } else if a < p && b > p {
                    assert(order@[b] == before[b - 1]);
                } else if a > p {
                    assert(order@[a] == before[a - 1]);
                    assert(order@[b] == before[b - 1]);
                }
            }
        }
        i = i + 1;
    }
    let take = if k < n { k } else { n };
    let mut out: Vec<usize> = Vec::new();
    let mut j: usize = 0;
    while j < take
        invariant
            j <= take <= order@.len(),
            out@ == order@.take(j as int),
        decreases take - j,
    {
        out.push(order[j]);
        assert(order@.take(j + 1) =~= order@.take(j as int).push(order@[j as int]));
        j = j + 1;
    }
    proof {
        assert forall|a: int, q: int| 0 <= a < out@.len() && 0 <= q < rates@.len() && !out@.contains(q as usize)
            implies #[trigger] ranks_before(rates@, out@[a] as int, q) by {
            assert(order@.contains(q as usize));
            let w = choose|w: int| 0 <= w < order@.len() && order@[w] == q as usize;
            if w < take {
                assert(out@[w] == q as usize);
            }
            assert(out@[a] == order@[a]);
        }
    }
    out
}

/// Optimistic unchoke: one peer chosen at random among the candidates
/// (choked and interested); `None` when there is none.
pub fn pick_optimistic(candidates: &Vec<usize>) -> (r: Option<usize>)
    ensures
        r is None <==> candidates@.len() == 0,
        r matches Some(p) ==> candidates@.contains(p),
{
    if candidates.len() == 0 {
        return None;
    }
    let mut rng = thread_rng();
    let i = random_in(&mut rng, 0, (candidates.len() - 1) as u64);
    let p = candidates[i as usize];
    assert(candidates@[i as int] == p);
    Some(p)
}

} // verus!
