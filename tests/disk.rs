use std::collections::VecDeque;
use torrent_engine::disk_io::{
    calculate_seek_cost_micros, calculate_thrash_score, next_latency_ema, record_operation, DiskBackoff, DiskEvent,
    DiskIoOperation, DiskJob, DiskOpKind, IoOutcome, JobPhase, BACKOFF_MAX_MS,
};
use torrent_engine::telemetry::DiskTelemetry;

fn op(offset: u64, length: usize) -> DiskIoOperation {
    DiskIoOperation { offset, length }
}

#[test]
fn thrash_score_is_mean_seek_gap() {
    // newest first: chronological order is (0,100), (100,100), (1000,100)
    let log: VecDeque<DiskIoOperation> = VecDeque::from(vec![op(1000, 100), op(100, 100), op(0, 100)]);
    // gaps: |100 - 100| = 0, |1000 - 200| = 800 → 800 / 2
    assert_eq!(calculate_thrash_score(&log), 400);
}

#[test]
fn thrash_score_needs_two_operations() {
    let log: VecDeque<DiskIoOperation> = VecDeque::from(vec![op(5, 5)]);
    assert_eq!(calculate_thrash_score(&log), 0);
    assert_eq!(calculate_thrash_score(&VecDeque::new()), 0);
}

#[test]
fn seek_cost_per_byte_in_millionths() {
    let log: VecDeque<DiskIoOperation> = VecDeque::from(vec![op(1000, 100), op(100, 100), op(0, 100)]);
    // 800 seek bytes over 300 bytes moved
    assert_eq!(calculate_seek_cost_micros(&log), 800 * 1_000_000 / 300);
    let idle: VecDeque<DiskIoOperation> = VecDeque::from(vec![op(10, 0), op(0, 0)]);
    assert_eq!(calculate_seek_cost_micros(&idle), 0);
}

#[test]
fn operation_log_keeps_newest_within_capacity() {
    let mut log = VecDeque::new();
    for i in 0..60u64 {
        record_operation(&mut log, op(i, 1), 50);
    }
    assert_eq!(log.len(), 50);
    assert_eq!(log[0].offset, 59);
    assert_eq!(log[49].offset, 10);
}

#[test]
fn latency_average_seeds_then_smooths() {
    assert_eq!(next_latency_ema(0, 500), 500);
    // (2 * 1100 + 9 * 0) .. (2*1100 + 9*550)/11 = (2200 + 4950) / 11 = 650
    assert_eq!(next_latency_ema(550, 1100), 650);
}

#[test]
fn fd_exhaustion_backoff_doubles_to_cap() {
    let mut b = DiskBackoff::new();
    let got: Vec<u64> = (0..9).map(|i| b.on_exhausted(i * 100)).collect();
    assert_eq!(got, vec![100, 200, 400, 800, 1600, 3200, 5000, 5000, 5000]);
}

#[test]
fn backoff_decay_returns_to_base_after_quiet_minute() {
    let mut b = DiskBackoff::new();
    let mut last = 0;
    let mut t = 0;
    while t < 10_000 {
        let d = b.on_exhausted(t);
        assert!(d >= last);
        assert!(d <= BACKOFF_MAX_MS);
        last = d;
        t += d;
    }
    let failed_at = b.last_failure_ms;
    b.on_success(failed_at + 30_000);
    assert!(b.level > 0);
    b.on_success(failed_at + 60_000);
    assert_eq!(b.level, 0);
    assert_eq!(b.on_exhausted(failed_at + 60_001), 100);
}

#[test]
fn exhaustion_on_consecutive_opens_gives_one_backoff_each() {
    let mut b = DiskBackoff::new();
    let mut job = DiskJob::new(DiskOpKind::Write, op(0, 16384));
    assert_eq!(job.start(), DiskEvent::Started(DiskOpKind::Write, op(0, 16384)));
    let n = 7;
    let mut backoffs = 0;
    for i in 0..n {
        match job.on_outcome(IoOutcome::FdExhausted, &mut b, i * 1000) {
            DiskEvent::Backoff(d) => {
                assert!(d <= 5000);
                backoffs += 1;
            }
            other => panic!("unexpected {:?}", other),
        }
    }
    assert_eq!(backoffs, n);
    assert_eq!(job.backoff_events as u64, n);
    assert_eq!(job.on_outcome(IoOutcome::Success, &mut b, 99_000), DiskEvent::Finished(DiskOpKind::Write));
    assert_eq!(job.phase, JobPhase::Done);
    assert_eq!((job.started_events, job.finished_events), (1, 1));
}

#[test]
fn fatal_error_still_finishes_once() {
    let mut b = DiskBackoff::new();
    let mut job = DiskJob::new(DiskOpKind::Read, op(0, 10));
    job.start();
    assert_eq!(job.on_outcome(IoOutcome::Fatal, &mut b, 0), DiskEvent::Finished(DiskOpKind::Read));
    assert_eq!((job.started_events, job.finished_events), (1, 1));
    assert_eq!(b.level, 0);
}

#[test]
fn telemetry_tracks_latency_iops_and_warning() {
    let mut t = DiskTelemetry::new();
    t.on_read_started(op(0, 10), 1000);
    t.on_read_finished(1005);
    assert_eq!(t.read_latency_ema_micros, 5000);
    assert_eq!(t.reads_completed_this_tick, 1);
    assert!(t.on_backoff(300));
    assert!(!t.on_backoff(200));
    assert_eq!(t.max_disk_backoff_this_tick_ms, 300);
    t.end_tick();
    assert_eq!(t.read_iops, 1);
    assert_eq!(t.reads_completed_this_tick, 0);
    assert_eq!(t.disk_backoff_history_ms, vec![300]);
    assert_eq!(t.max_disk_backoff_this_tick_ms, 0);
}

#[test]
fn learnt_seek_cost_maximum_starts_at_ten() {
    assert_eq!(DiskTelemetry::new().adaptive_max_seek_cost_micros, 10_000_000);
}
