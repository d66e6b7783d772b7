use torrent_engine::choking::{pick_optimistic, select_unchoked};
use torrent_engine::limits::CalculatedLimits;
use torrent_engine::resources::{Acquire, PermitPool, ResourceManager};
use torrent_engine::token_bucket::TokenBucket;

#[test]
fn permits_never_exceed_limit() {
    let mut p = PermitPool::new(2, Some(4));
    assert_eq!(p.acquire(), Acquire::Granted);
    assert_eq!(p.acquire(), Acquire::Granted);
    for _ in 0..4 {
        assert_eq!(p.acquire(), Acquire::Queued);
    }
    assert_eq!(p.acquire(), Acquire::Overloaded);
    assert_eq!((p.in_use, p.waiting), (2, 4));
    assert!(p.release());
    assert_eq!((p.in_use, p.waiting), (2, 3));
    assert_eq!(p.set_limit(4), 2);
    assert_eq!((p.in_use, p.waiting), (4, 1));
    assert_eq!(p.set_limit(1), 0);
    assert_eq!(p.in_use, 4);
    assert_eq!(p.acquire(), Acquire::Queued);
}

#[test]
fn manager_queues_disk_permits_up_to_twice_the_limit() {
    let limits = CalculatedLimits { reserve_permits: 0, max_connected_peers: 3, disk_read_permits: 2, disk_write_permits: 1 };
    let mut m = ResourceManager::new(limits);
    assert_eq!(m.disk_read.queue_capacity, Some(4));
    assert_eq!(m.disk_write.queue_capacity, Some(2));
    assert_eq!(m.peer_connection.queue_capacity, None);
    assert_eq!(m.reserve.acquire(), Acquire::Queued);
    m.update_limits(CalculatedLimits { reserve_permits: 1, ..limits });
    assert_eq!(m.reserve.in_use, 1);
    assert_eq!(m.reserve.waiting, 0);
}

#[test]
fn zero_rate_bucket_never_waits_nor_counts() {
    let mut b = TokenBucket::new(0, 0, 0);
    for i in 0..10 {
        assert_eq!(b.consume(1_000_000, i), 0);
    }
    assert_eq!(b.tokens_milli, 0);
}

#[test]
fn bucket_waits_for_deficit() {
    let mut b = TokenBucket::new(1000, 1000, 0);
    assert_eq!(b.consume(600, 0), 0);
    // 400 left; 1000 asked leaves a debt of 600 bytes at 1000 B/s
    assert_eq!(b.consume(1000, 0), 600);
    // after 600 ms the debt is paid
    assert_eq!(b.consume(0, 600), 0);
    assert_eq!(b.tokens_milli, 0);
}

#[test]
fn global_rate_limit_holds_over_five_seconds() {
    let rate = 1_000_000u64;
    let mut b = TokenBucket::new(rate, rate, 0);
    let mut now = 0u64;
    let mut sent_by: Vec<(u64, u64)> = Vec::new();
    // eight leechers asking for 16 KiB each in turn
    while now < 20_000 {
        let wait = b.consume(16384, now);
        now += wait;
        sent_by.push((now, 16384));
        if wait == 0 {
            now += 1;
        }
    }
    for start in (0..15_000).step_by(500) {
        let total: u64 = sent_by.iter().filter(|(t, _)| *t >= start && *t < start + 5000).map(|(_, n)| n).sum();
        assert!(total <= 5 * rate + rate);
    }
}

#[test]
fn top_four_by_rate_are_unchoked() {
    let rates = vec![10, 50, 50, 5, 70, 1];
    assert_eq!(select_unchoked(&rates, 4), vec![4, 1, 2, 0]);
    assert_eq!(select_unchoked(&vec![3, 9], 4), vec![1, 0]);
    assert!(select_unchoked(&vec![], 4).is_empty());
}

#[test]
fn optimistic_unchoke_picks_a_candidate() {
    assert_eq!(pick_optimistic(&vec![]), None);
    let c = vec![3, 8, 11];
    for _ in 0..20 {
        let p = pick_optimistic(&c).unwrap();
        assert!(c.contains(&p));
    }
}
