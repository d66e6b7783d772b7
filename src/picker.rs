//! Which piece to ask a peer for next, and when the download is in its
//! endgame.

use vstd::prelude::*;
use crate::session::BlockRef;

verus! {

/// Pieces that the peer has and we still want.
pub open spec fn wanted(have: Seq<bool>, remote: Seq<bool>, p: int) -> bool {
    0 <= p < have.len() && p < remote.len() && !have[p] && remote[p]
}

/// A wanted piece with part of its blocks already in.
pub open spec fn wanted_partial(have: Seq<bool>, partial: Seq<bool>, remote: Seq<bool>, p: int) -> bool {
    wanted(have, remote, p) && p < partial.len() && partial[p]
}

/// The pick: the lowest wanted partial piece if there is one, else the
/// wanted piece that the fewest peers have, the lowest index among equals.
pub open spec fn is_pick(have: Seq<bool>, partial: Seq<bool>, remote: Seq<bool>, availability: Seq<u32>, p: int) -> bool {
    if exists|q: int| wanted_partial(have, partial, remote, q) {
        &&& wanted_partial(have, partial, remote, p)
        &&& forall|q: int| wanted_partial(have, partial, remote, q) ==> p <= q
    } else {
        &&& wanted(have, remote, p)
        &&& forall|q: int| #[trigger] wanted(have, remote, q) ==> availability[p] < availability[q]
            || (availability[p] == availability[q] && p <= q)
    }
}

/// Picks the next piece to request from a peer: partial pieces first, then
/// rarest first with the lowest index among equals. `None` when the peer
/// has nothing we want.
pub fn pick_piece(have: &Vec<bool>, partial: &Vec<bool>, remote: &Vec<bool>, availability: &Vec<u32>) -> (r: Option<usize>)
    requires
        availability@.len() == have@.len(),
    ensures
        match r {
            Some(p) => is_pick(have@, partial@, remote@, availability@, p as int),
            None => forall|q: int| !wanted(have@, remote@, q),
        },
{
    let n = have.len();
    let mut i: usize = 0;
    while i < n
        invariant
            i <= n,
            n == have@.len(),
            forall|q: int| 0 <= q < i ==> !wanted_partial(have@, partial@, remote@, q),
        decreases n - i,
    {
        if i < remote.len() && i < partial.len() && !have[i] && remote[i] && partial[i] {
            assert(wanted_partial(have@, partial@, remote@, i as int));
            assert forall|q: int| wanted_partial(have@, partial@, remote@, q) implies i <= q by {
                if q < i {
                    assert(!wanted_partial(have@, partial@, remote@, q));
                }
            }
            return Some(i);
        }
        i = i + 1;
    }
    assert(!exists|q: int| wanted_partial(have@, partial@, remote@, q));
    let mut best: Option<usize> = None;
    let mut j: usize = 0;
    while j < n
        invariant
            j <= n,
            n == have@.len(),
            availability@.len() == n,
            !exists|q: int| wanted_partial(have@, partial@, remote@, q),
            match best {
                Some(b) => b < j && wanted(have@, remote@, b as int)
                    && forall|q: int| 0 <= q < j && #[trigger] wanted(have@, remote@, q) ==>
                        availability@[b as int] < availability@[q] || (availability@[b as int] == availability@[q] && b <= q),
                None => forall|q: int| 0 <= q < j ==> !wanted(have@, remote@, q),
            },
        decreases n - j,
    {
        if j < remote.len() && !have[j] && remote[j] {
            match best {
                Some(b) => {
                    if availability[j] < availability[b] {
                        best = Some(j);
                    }
                },
                None => {
                    best = Some(j);
                },
            }
        }
        j = j + 1;
    }
    best
}

/// Whether a peer has any piece we still want: if not, the session sends
/// `NotInterested`.
pub fn interested_in(have: &Vec<bool>, remote: &Vec<bool>) -> (r: bool)
    ensures
        r == exists|q: int| wanted(have@, remote@, q),
{
    let mut i: usize = 0;
    while i < have.len()
        invariant
            i <= have@.len(),
            forall|q: int| 0 <= q < i ==> !wanted(have@, remote@, q),
        decreases have@.len() - i,
    {
        if i < remote.len() && !have[i] && remote[i] {
            assert(wanted(have@, remote@, i as int));
            return true;
        }
        i = i + 1;
    }
    false
}

/// Endgame: fewer than 2% of all blocks are still missing.
pub open spec fn endgame(missing_blocks: int, total_blocks: int) -> bool {
    missing_blocks * 100 < total_blocks * 2
}

/// Whether the same block may be asked of several peers.
pub fn in_endgame(missing_blocks: u64, total_blocks: u64) -> (r: bool)
    ensures
        r == endgame(missing_blocks as int, total_blocks as int),
{
    (missing_blocks as u128) * 100 < (total_blocks as u128) * 2
}

/// Peers other than `from` that still have `block` outstanding.
pub open spec fn must_cancel(outstanding: Seq<Vec<BlockRef>>, block: BlockRef, from: int, p: int) -> bool {
    0 <= p < outstanding.len() && p != from && outstanding[p]@.contains(block)
}

/// In the endgame the first delivery of a block wins: the other peers it
/// was asked of get a `Cancel`. Returns those peers, in order.
pub fn peers_to_cancel(outstanding: &Vec<Vec<BlockRef>>, block: BlockRef, from: usize) -> (r: Vec<usize>)
    ensures
        forall|i: int| 0 <= i < r@.len() ==> must_cancel(outstanding@, block, from as int, #[trigger] r@[i] as int),
        forall|p: int| must_cancel(outstanding@, block, from as int, p) ==> #[trigger] r@.contains(p as usize),
        forall|i: int, j: int| 0 <= i < j < r@.len() ==> #[trigger] r@[i] < #[trigger] r@[j],
{
    let mut out: Vec<usize> = Vec::new();
    let mut p: usize = 0;
    while p < outstanding.len()
        invariant
            p <= outstanding@.len(),
            forall|i: int| 0 <= i < out@.len() ==> must_cancel(outstanding@, block, from as int, #[trigger] out@[i] as int),
            forall|i: int| 0 <= i < out@.len() ==> #[trigger] out@[i] < p,
            forall|q: int| 0 <= q < p && must_cancel(outstanding@, block, from as int, q) ==> #[trigger] out@.contains(q as usize),
            forall|i: int, j: int| 0 <= i < j < out@.len() ==> #[trigger] out@[i] < #[trigger] out@[j],
        decreases outstanding@.len() - p,
    {
        if p != from {
            let list = &outstanding[p];
            let mut k: usize = 0;
            let mut found = false;
            while k < list.len()
                invariant
                    k <= list@.len(),
                    found == list@.take(k as int).contains(block),
                decreases list@.len() - k,
            {
                proof {
                    let t = list@.take(k as int);
                    assert(list@.take(k + 1) =~= t.push(list@[k as int]));
                    if t.push(list@[k as int]).contains(block) && list@[k as int] != block {
                        let w = choose|w: int| 0 <= w < t.push(list@[k as int]).len() && t.push(list@[k as int])[w] == block;
                        assert(t[w] == block);
                    }
                    if t.contains(block) {
                        let w = choose|w: int| 0 <= w < t.len() && t[w] == block;
                        assert(t.push(list@[k as int])[w] == block);
                    }
                    if list@[k as int] == block {
                        assert(t.push(list@[k as int])[k as int] == block);
                    }
                }
                if list[k] == block {
                    found = true;
                }
                k = k + 1;
            }
            assert(list@.take(list@.len() as int) =~= list@);
            if found {
                let ghost before = out@;
                out.push(p);
                proof {
                    assert(out@[before.len() as int] == p);
                    assert forall|q: int| 0 <= q < p + 1 && must_cancel(outstanding@, block, from as int, q)
                        implies #[trigger] out@.contains(q as usize) by {
                        if q < p {
                            assert(before.contains(q as usize));
                            let w = choose|w: int| 0 <= w < before.len() && before[w] == q as usize;
                            assert(out@[w] == q as usize);
                        }
                    }
                }
            } else {
                assert(!must_cancel(outstanding@, block, from as int, p as int));
            }
        }
        p = p + 1;
    }
    out
}

} // verus!
