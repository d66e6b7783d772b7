//! Decisions of the per-torrent manager: its share of the connection
//! budget, when to announce again, and how long to wait before redialing
//! an unreachable peer.

use vstd::prelude::*;

verus! {

/// Announce interval when the tracker names none, in seconds.
pub const DEFAULT_ANNOUNCE_SECS: u64 = 1800;
/// Longest wait before redialing an unreachable peer, in seconds.
pub const MAX_REDIAL_SECS: u64 = 600;
/// Wait before the first redial, in seconds.
pub const BASE_REDIAL_SECS: u64 = 5;

/// A torrent's cap on connected peers: its fair share of the global limit,
/// at least one.
pub fn fair_share(max_connected_peers: usize, torrent_count: usize) -> (r: usize)
    ensures
        torrent_count == 0 ==> r == if max_connected_peers == 0 { 1 } else { max_connected_peers },
        torrent_count > 0 ==> r == if max_connected_peers / torrent_count == 0 { 1 } else { max_connected_peers / torrent_count },
{
    let share = if torrent_count == 0 { max_connected_peers } else { max_connected_peers / torrent_count };
    if share == 0 { 1 } else { share }
}

/// Seconds until the next announce: what the tracker asked for, the
/// default when it named nothing, and its minimum interval after an error.
pub fn next_announce_secs(requested: Option<u64>, min_interval: Option<u64>, failed: bool) -> (r: u64)
    ensures
        failed ==> r == match min_interval { Some(m) => m, None => DEFAULT_ANNOUNCE_SECS },
        !failed ==> r == match requested { Some(n) => n, None => DEFAULT_ANNOUNCE_SECS },
{
    if failed {
        match min_interval {
            Some(m) => m,
            None => DEFAULT_ANNOUNCE_SECS,
        }
    } else {
        match requested {
            Some(n) => n,
            None => DEFAULT_ANNOUNCE_SECS,
        }
    }
}

/// Wait before redial `attempt` (from 0): the base doubled each time,
/// capped at ten minutes.
pub open spec fn redial_secs(attempt: nat) -> int
    decreases attempt,
{
    if attempt == 0 {
        BASE_REDIAL_SECS as int
    } else {
        let d = 2 * redial_secs((attempt - 1) as nat);
        if d > MAX_REDIAL_SECS { MAX_REDIAL_SECS as int } else { d }
    }
}

pub fn redial_delay_secs(attempt: u32) -> (r: u64)
    ensures
        r == redial_secs(attempt as nat),
        r <= MAX_REDIAL_SECS,
{
    let mut d: u64 = BASE_REDIAL_SECS;
    let mut i: u32 = 0;
    while i < attempt
        invariant
            i <= attempt,
            d == redial_secs(i as nat),
            d <= MAX_REDIAL_SECS,
        decreases attempt - i,
    {
        d = if 2 * d > MAX_REDIAL_SECS { MAX_REDIAL_SECS } else { 2 * d };
        i = i + 1;
    }
    d
}

} // verus!
