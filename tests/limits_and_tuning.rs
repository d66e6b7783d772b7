use torrent_engine::limits::{
    calculate_adaptive_limits, effective_limit, get_limit, limits_for_budget, make_random_adjustment, set_limit,
    try_trade, CalculatedLimits, LimitWarning, ResourceType, TradeOutcome, MIN_DISK, MIN_PEERS, MIN_RESERVE,
};
use torrent_engine::tuner::TunerState;

fn seed() -> CalculatedLimits {
    CalculatedLimits { reserve_permits: 10, max_connected_peers: 100, disk_read_permits: 20, disk_write_permits: 20 }
}

fn total(l: &CalculatedLimits) -> usize {
    l.reserve_permits + l.max_connected_peers + l.disk_read_permits + l.disk_write_permits
}

#[test]
fn get_and_set_limit_address_each_class() {
    let mut l = seed();
    assert_eq!(get_limit(&l, ResourceType::PeerConnection), 100);
    assert_eq!(get_limit(&l, ResourceType::Reserve), 10);
    set_limit(&mut l, ResourceType::DiskWrite, 7);
    assert_eq!(l.disk_write_permits, 7);
    assert_eq!(l.disk_read_permits, 20);
}

#[test]
fn into_map_holds_all_four_classes() {
    let m = seed().into_map();
    assert_eq!(m.len(), 4);
    assert_eq!(m[&ResourceType::PeerConnection], 100);
    assert_eq!(m[&ResourceType::DiskRead], 20);
    assert_eq!(m[&ResourceType::DiskWrite], 20);
    assert_eq!(m[&ResourceType::Reserve], 10);
}

#[test]
fn budget_splits_after_reservation() {
    // 1024 - 64 = 960; 960 * 0.85 * 0.70 = 571.2; 960 * 0.85 * 0.15 = 122.4
    let l = limits_for_budget(1024);
    assert_eq!(l.max_connected_peers, 571);
    assert_eq!(l.disk_read_permits, 122);
    assert_eq!(l.disk_write_permits, 122);
    assert_eq!(l.reserve_permits, 0);
}

#[test]
fn budget_floors_apply_to_tiny_limits() {
    let l = limits_for_budget(50);
    assert_eq!(l.max_connected_peers, 10);
    assert_eq!(l.disk_read_permits, 4);
    assert_eq!(l.disk_write_permits, 4);
}

#[test]
fn effective_limit_takes_the_smaller_and_warns_low() {
    assert_eq!(effective_limit(Some(4096), Some(2048)), (2048, None));
    assert_eq!(effective_limit(Some(512), Some(2048)), (512, Some(LimitWarning { limit: 512, from_override: true })));
    assert_eq!(effective_limit(None, Some(256)), (256, Some(LimitWarning { limit: 256, from_override: false })));
    assert_eq!(effective_limit(None, None), (1024, None));
    assert_eq!(effective_limit(Some(3000), None), (3000, None));
}

#[test]
fn adaptive_limits_with_large_override_follow_host_or_override() {
    let (l, _w) = calculate_adaptive_limits(Some(1_000_000));
    assert!(l.max_connected_peers >= 10);
    assert!(l.disk_read_permits >= 4);
    assert_eq!(l.reserve_permits, 0);
}

#[test]
fn trade_moves_rounded_up_share() {
    let mut l = seed();
    // 10% of 100 peers
    assert_eq!(try_trade(&mut l, ResourceType::PeerConnection, ResourceType::DiskRead, 100), Some(10));
    assert_eq!(l.max_connected_peers, 90);
    assert_eq!(l.disk_read_permits, 30);
    // 1% of 30 rounds up to 1
    assert_eq!(try_trade(&mut l, ResourceType::DiskRead, ResourceType::Reserve, 10), Some(1));
    assert_eq!(l.disk_read_permits, 29);
    assert_eq!(l.reserve_permits, 11);
}

#[test]
fn trade_refused_below_floor_or_same_class() {
    let mut l = CalculatedLimits { reserve_permits: 0, max_connected_peers: 20, disk_read_permits: 2, disk_write_permits: 5 };
    let before = l;
    assert_eq!(try_trade(&mut l, ResourceType::PeerConnection, ResourceType::DiskRead, 50), None);
    assert_eq!(try_trade(&mut l, ResourceType::DiskRead, ResourceType::DiskWrite, 50), None);
    assert_eq!(try_trade(&mut l, ResourceType::Reserve, ResourceType::DiskWrite, 50), None);
    assert_eq!(try_trade(&mut l, ResourceType::DiskWrite, ResourceType::DiskWrite, 50), None);
    assert_eq!(l, before);
}

#[test]
fn permit_conservation_under_tuning() {
    let mut l = seed();
    for _ in 0..1000 {
        let (next, outcome) = make_random_adjustment(l);
        assert_eq!(total(&next), 150);
        assert!(next.max_connected_peers >= MIN_PEERS);
        assert!(next.disk_read_permits >= MIN_DISK);
        assert!(next.disk_write_permits >= MIN_DISK);
        assert!(next.reserve_permits >= MIN_RESERVE);
        if let TradeOutcome::Traded { amount, source, dest, .. } = outcome {
            assert!(amount >= 1);
            assert_ne!(source, dest);
        } else {
            assert_eq!(next, l);
        }
        l = next;
    }
}

#[test]
fn random_adjustment_trades_when_every_class_can_give() {
    let l = seed();
    let (next, outcome) = make_random_adjustment(l);
    assert!(matches!(outcome, TradeOutcome::Traded { .. }));
    assert_ne!(next, l);
}

#[test]
fn tuner_commits_better_score_and_reverts_worse() {
    let base = seed();
    let mut t = TunerState::new(base);
    let history: Vec<u64> = vec![1000; 60];
    let applied = t.evaluate(base, &history, 0, 1_000_000);
    assert_eq!(applied, base);
    assert_eq!(t.last_tuning_score, 1000);
    assert_eq!(t.baseline_speed_ema, 1000);
    let trial = CalculatedLimits { reserve_permits: 11, max_connected_peers: 99, ..base };
    let worse: Vec<u64> = vec![500; 60];
    let applied = t.evaluate(trial, &worse, 0, 1_000_000);
    assert_eq!(applied, base);
    assert_eq!(t.last_tuning_score, 1000);
    assert_eq!(t.current_tuning_score, 500);
    // (500 + 9 * 1000) / 10
    assert_eq!(t.baseline_speed_ema, 950);
}

#[test]
fn tuner_penalizes_seek_cost_above_learnt_maximum() {
    let base = seed();
    let mut t = TunerState::new(base);
    let history: Vec<u64> = vec![1000; 60];
    // cost twice the maximum halves the score
    t.evaluate(base, &history, 2_000_000, 1_000_000);
    assert_eq!(t.current_tuning_score, 500);
}

#[test]
fn tuner_reality_check_resets_stale_best() {
    let base = seed();
    let mut t = TunerState::new(base);
    t.last_tuning_score = 100_000;
    t.baseline_speed_ema = 1000;
    let history: Vec<u64> = vec![1000; 60];
    t.evaluate(base, &history, 0, 1_000_000);
    assert_eq!(t.last_tuning_score, 1000);
}

#[test]
fn tuner_objective_change_forgets_scores() {
    let base = seed();
    let mut t = TunerState::new(base);
    t.last_tuning_score = 5;
    t.observe_objective(true, base);
    assert_eq!(t.last_tuning_score, 0);
    assert!(t.is_seeding);
    assert_eq!(t.tuning_countdown, 89);
}

#[test]
fn first_attempt_trades_when_every_trade_is_legal() {
    for _ in 0..50 {
        let (_, outcome) = make_random_adjustment(seed());
        assert!(matches!(outcome, TradeOutcome::Traded { attempt: 1, .. }));
    }
}
