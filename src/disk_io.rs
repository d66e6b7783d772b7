//! Disk I/O accounting: the logs of recent operations, seek-distance
//! ("thrash") scores, latency smoothing and the backoff after file-handle
//! exhaustion.

use vstd::prelude::*;
use std::collections::VecDeque;

verus! {

/// One disk read or write: where it started and how many bytes it moved.
#[derive(Clone, Copy, Debug, PartialEq, Eq, Structural)]
pub struct DiskIoOperation {
    pub offset: u64,
    pub length: usize,
}

/// Operations kept per torrent.
pub const TORRENT_LOG_CAPACITY: usize = 50;
/// Operations kept over all torrents.
pub const GLOBAL_LOG_CAPACITY: usize = 100;

/// The byte just past the operation.
pub open spec fn op_end(op: DiskIoOperation) -> int {
    op.offset + op.length
}

/// An operation whose end is still a valid `u64` offset.
pub open spec fn op_wf(op: DiskIoOperation) -> bool {
    op_end(op) <= u64::MAX
}

pub open spec fn log_wf(log: Seq<DiskIoOperation>) -> bool {
    forall|i: int| 0 <= i < log.len() ==> op_wf(#[trigger] log[i])
}

pub open spec fn abs_diff(a: int, b: int) -> int {
    if a >= b { a - b } else { b - a }
}

/// Head movement from the end of `older` to the start of `newer`.
pub open spec fn seek_gap(newer: DiskIoOperation, older: DiskIoOperation) -> int {
    abs_diff(newer.offset as int, op_end(older))
}

/// Total head movement over a log held newest first.
pub open spec fn seek_total(log: Seq<DiskIoOperation>) -> int
    decreases log.len(),
{
    if log.len() < 2 {
        0
    } else {
        seek_gap(log[0], log[1]) + seek_total(log.drop_first())
    }
}

/// Total bytes moved by the operations of a log.
pub open spec fn bytes_total(log: Seq<DiskIoOperation>) -> int
    decreases log.len(),
{
    if log.len() == 0 {
        0
    } else {
        log[0].length + bytes_total(log.drop_first())
    }
}

/// Mean seek distance between consecutive operations; 0 under two operations.
pub open spec fn thrash_score(log: Seq<DiskIoOperation>) -> int {
    if log.len() < 2 { 0 } else { seek_total(log) / (log.len() - 1) }
}

/// Seek distance per byte transferred, in millionths; 0 under two
/// operations or when no byte moved.
pub open spec fn seek_cost_micros(log: Seq<DiskIoOperation>) -> int {
    if log.len() < 2 || bytes_total(log) == 0 {
        0
    } else {
        seek_total(log) * 1_000_000 / bytes_total(log)
    }
}

proof fn lemma_seek_total_step(log: Seq<DiskIoOperation>, i: int)
    requires
        0 <= i,
        i + 1 < log.len(),
    ensures
        seek_total(log.subrange(i, log.len() as int))
            == seek_gap(log[i], log[i + 1]) + seek_total(log.subrange(i + 1, log.len() as int)),
{
    assert(log.subrange(i, log.len() as int).drop_first() =~= log.subrange(i + 1, log.len() as int));
}

proof fn lemma_bytes_total_step(log: Seq<DiskIoOperation>, i: int)
    requires
        0 <= i < log.len(),
    ensures
        bytes_total(log.subrange(i, log.len() as int))
            == log[i].length + bytes_total(log.subrange(i + 1, log.len() as int)),
{
    assert(log.subrange(i, log.len() as int).drop_first() =~= log.subrange(i + 1, log.len() as int));
}

proof fn lemma_seek_total_tail(log: Seq<DiskIoOperation>)
    requires
        log.len() >= 1,
    ensures
        seek_total(log.subrange(log.len() - 1, log.len() as int)) == 0,
        bytes_total(log.subrange(log.len() as int, log.len() as int)) == 0,
{
}

/// Head movement between two consecutive operations, newest first.
fn gap_between(newer: DiskIoOperation, older: DiskIoOperation) -> (r: u64)
    requires
        op_wf(older),
    ensures
        r == seek_gap(newer, older),
{
    let end: u64 = older.offset + older.length as u64;
    if newer.offset >= end { newer.offset - end } else { end - newer.offset }
}

/// Sums the seek gaps and the lengths over a log, newest first.
fn seek_and_bytes(history_log: &VecDeque<DiskIoOperation>) -> (r: (u128, u128))
    requires
        log_wf(history_log@),
        history_log@.len() >= 1,
    ensures
        r.0 == seek_total(history_log@),
        r.1 == bytes_total(history_log@),
        r.0 <= (history_log@.len() - 1) * u64::MAX,
{
    let n = history_log.len();
    let ghost log = history_log@;
    let mut seek: u128 = 0;
    let mut bytes: u128 = history_log[n - 1].length as u128;
    let mut i: usize = n - 1;
    proof {
        lemma_seek_total_tail(log);
        lemma_bytes_total_step(log, n - 1);
    }
    while i > 0
        invariant
            log == history_log@,
            n == log.len(),
            log_wf(log),
            0 <= i < n,
            seek == seek_total(log.subrange(i as int, n as int)),
            bytes == bytes_total(log.subrange(i as int, n as int)),
            seek <= (n - 1 - i) * u64::MAX,
            bytes <= (n - i) * u64::MAX,
        decreases i,
    {
        let g = gap_between(history_log[i - 1], history_log[i]);
        let len = history_log[i - 1].length;
        proof {
            lemma_seek_total_step(log, i - 1);
            lemma_bytes_total_step(log, i - 1);
            assert((n - 1 - i) * u64::MAX + u64::MAX == (n - 1 - (i - 1)) * u64::MAX) by (nonlinear_arith);
            assert((n - i) * u64::MAX + u64::MAX == (n - (i - 1)) * u64::MAX) by (nonlinear_arith);
            assert((n - (i - 1)) * u64::MAX <= usize::MAX * u64::MAX) by (nonlinear_arith)
                requires n <= usize::MAX, i >= 1;
        }
        seek = seek + g as u128;
        bytes = bytes + len as u128;
        i = i - 1;
    }
    assert(log.subrange(0, n as int) =~= log);
    (seek, bytes)
}

/// Mean seek distance between consecutive operations of a log held newest
/// first.
pub fn calculate_thrash_score(history_log: &VecDeque<DiskIoOperation>) -> (r: u64)
    requires
        log_wf(history_log@),
    ensures
        r == thrash_score(history_log@),
{
    if history_log.len() < 2 {
        return 0;
    }
    let (seek, _bytes) = seek_and_bytes(history_log);
    let seek_count: u128 = (history_log.len() - 1) as u128;
    proof {
        let m = seek_count as int;
        assert(seek as int / m <= u64::MAX) by (nonlinear_arith)
            requires seek as int <= m * u64::MAX, m >= 1;
    }
    (seek / seek_count) as u64
}

/// Seek distance per byte transferred over a log held newest first, in
/// millionths, capped at `u64::MAX`.
pub fn calculate_seek_cost_micros(history_log: &VecDeque<DiskIoOperation>) -> (r: u64)
    requires
        log_wf(history_log@),
        history_log@.len() <= GLOBAL_LOG_CAPACITY,
    ensures
        r == if seek_cost_micros(history_log@) > u64::MAX { u64::MAX as int } else { seek_cost_micros(history_log@) },
{
    if history_log.len() < 2 {
        return 0;
    }
    let (seek, bytes) = seek_and_bytes(history_log);
    if bytes == 0 {
        return 0;
    }
    assert(seek * 1_000_000 <= 100 * u64::MAX * 1_000_000) by (nonlinear_arith)
        requires seek <= 100 * u64::MAX;
    let v: u128 = (seek * 1_000_000) / bytes;
    if v > u64::MAX as u128 { u64::MAX } else { v as u64 }
}

/// Records an operation at the front of a log and drops what lies beyond
/// `capacity`.
pub fn record_operation(log: &mut VecDeque<DiskIoOperation>, op: DiskIoOperation, capacity: usize)
    ensures
        final(log)@ == seq![op].add(old(log)@).take(
            if old(log)@.len() + 1 <= capacity { (old(log)@.len() + 1) as int } else { capacity as int }),
{
    log.push_front(op);
    log.truncate(capacity);
}

/// Smoothing period of the latency average, in operations.
pub const LATENCY_EMA_PERIOD: u64 = 10;

/// The latency average after one more sample, with weight 2/11 on the
/// sample; the first sample seeds it.
pub open spec fn latency_ema_after(ema: int, sample: int) -> int {
    if ema == 0 { sample } else { (2 * sample + (LATENCY_EMA_PERIOD - 1) * ema) / (LATENCY_EMA_PERIOD + 1) }
}

pub fn next_latency_ema(ema_micros: u64, sample_micros: u64) -> (r: u64)
    ensures
        r == latency_ema_after(ema_micros as int, sample_micros as int),
{
    if ema_micros == 0 {
        return sample_micros;
    }
    let v: u128 = (2 * sample_micros as u128 + 9 * ema_micros as u128) / 11;
    v as u64
}

/// Backoff before the first retry after file-handle exhaustion.
pub const BACKOFF_BASE_MS: u64 = 100;
/// Longest backoff.
pub const BACKOFF_MAX_MS: u64 = 5000;
/// Quiet time after the last exhaustion that brings the backoff back to its base.
pub const BACKOFF_RESET_MS: u64 = 60_000;
/// Highest doubling level; the backoff is already at its cap there.
pub const BACKOFF_MAX_LEVEL: u32 = 6;

/// The backoff at a doubling level: the base doubled `level` times, capped.
pub open spec fn backoff_ms(level: nat) -> int
    decreases level,
{
    if level == 0 {
        BACKOFF_BASE_MS as int
    } else {
        let d = 2 * backoff_ms((level - 1) as nat);
        if d > BACKOFF_MAX_MS { BACKOFF_MAX_MS as int } else { d }
    }
}

/// The backoff never shrinks as the level grows, and stays within its bounds.
pub proof fn lemma_backoff_monotone(a: nat, b: nat)
    requires
        a <= b,
    ensures
        backoff_ms(a) <= backoff_ms(b),
        BACKOFF_BASE_MS <= backoff_ms(b) <= BACKOFF_MAX_MS,
    decreases b,
{
    if b > 0 {
        lemma_backoff_monotone(if a < b { a } else { (b - 1) as nat }, (b - 1) as nat);
        if a == b {
        }
    }
}

/// Backoff state of the disk executor after file-handle exhaustion.
#[derive(Clone, Copy, Debug, PartialEq, Eq, Structural)]
pub struct DiskBackoff {
    pub level: u32,
    pub last_failure_ms: u64,
}

impl DiskBackoff {
    pub fn new() -> (r: Self)
        ensures
            r.level == 0,
            r.last_failure_ms == 0,
    {
        DiskBackoff { level: 0, last_failure_ms: 0 }
    }

    /// Records one exhaustion at `now_ms` and returns how long to sleep
    /// before the retry.
    pub fn on_exhausted(&mut self, now_ms: u64) -> (duration_ms: u64)
        ensures
            duration_ms == backoff_ms(old(self).level as nat),
            BACKOFF_BASE_MS <= duration_ms <= BACKOFF_MAX_MS,
            final(self).level == if old(self).level < BACKOFF_MAX_LEVEL { old(self).level + 1 } else { old(self).level as int },
            final(self).last_failure_ms == now_ms,
    {
        let mut d: u64 = BACKOFF_BASE_MS;
        let mut i: u32 = 0;
        while i < self.level
            invariant
                i <= self.level,
                d == backoff_ms(i as nat),
                BACKOFF_BASE_MS <= d <= BACKOFF_MAX_MS,
            decreases self.level - i,
        {
            d = if 2 * d > BACKOFF_MAX_MS { BACKOFF_MAX_MS } else { 2 * d };
            i = i + 1;
        }
        if self.level < BACKOFF_MAX_LEVEL {
            self.level = self.level + 1;
        }
        self.last_failure_ms = now_ms;
        d
    }

    /// Brings the backoff back to its base once `BACKOFF_RESET_MS` have
    /// passed since the last exhaustion.
    pub fn on_success(&mut self, now_ms: u64)
        ensures
            final(self).last_failure_ms == old(self).last_failure_ms,
            final(self).level == if now_ms >= old(self).last_failure_ms
                && now_ms - old(self).last_failure_ms >= BACKOFF_RESET_MS { 0 } else { old(self).level },
    {
        if now_ms >= self.last_failure_ms && now_ms - self.last_failure_ms >= BACKOFF_RESET_MS {
            self.level = 0;
        }
    }
}

/// Read or write.
#[derive(Clone, Copy, Debug, PartialEq, Eq, Structural)]
pub enum DiskOpKind {
    Read,
    Write,
}

/// What one try of a disk operation gave.
#[derive(Clone, Copy, Debug, PartialEq, Eq, Structural)]
pub enum IoOutcome {
    Success,
    /// Out of file handles (EMFILE, ENFILE, EAGAIN): retried after a backoff.
    FdExhausted,
    /// Anything else (ENOSPC, EACCES, ENOENT): not retried.
    Fatal,
}

/// What the executor reports.
#[derive(Clone, Copy, Debug, PartialEq, Eq, Structural)]
pub enum DiskEvent {
    Started(DiskOpKind, DiskIoOperation),
    Finished(DiskOpKind),
    /// Sleeping this many milliseconds before the next try.
    Backoff(u64),
}

/// Where one operation of the executor stands.
#[derive(Clone, Copy, Debug, PartialEq, Eq, Structural)]
pub enum JobPhase {
    /// Waiting for its permit.
    Queued,
    /// Holding its permit, being tried.
    Running,
    /// Finished, with success or not; the permit is returned.
    Done,
}

/// One disk operation through the executor, with how many start and
/// finish events it has emitted.
#[derive(Clone, Copy, Debug, PartialEq, Eq, Structural)]
pub struct DiskJob {
    pub kind: DiskOpKind,
    pub op: DiskIoOperation,
    pub phase: JobPhase,
    pub started_events: u32,
    pub finished_events: u32,
    pub backoff_events: u32,
}

impl DiskJob {
    /// One start event once the permit is held, and one finish event once
    /// done; none before.
    pub open spec fn wf(&self) -> bool {
        &&& self.phase == JobPhase::Queued ==> self.started_events == 0 && self.finished_events == 0
        &&& self.phase == JobPhase::Running ==> self.started_events == 1 && self.finished_events == 0
        &&& self.phase == JobPhase::Done ==> self.started_events == 1 && self.finished_events == 1
    }

    pub fn new(kind: DiskOpKind, op: DiskIoOperation) -> (r: Self)
        ensures
            r.wf(),
            r.phase == JobPhase::Queued,
            r.kind == kind,
            r.op == op,
            r.backoff_events == 0,
    {
        DiskJob { kind, op, phase: JobPhase::Queued, started_events: 0, finished_events: 0, backoff_events: 0 }
    }

    /// The permit was granted: the operation starts.
    pub fn start(&mut self) -> (e: DiskEvent)
        requires
            old(self).wf(),
            old(self).phase == JobPhase::Queued,
        ensures
            final(self).wf(),
            final(self).phase == JobPhase::Running,
            e == DiskEvent::Started(old(self).kind, old(self).op),
            final(self).backoff_events == old(self).backoff_events,
    {
        self.phase = JobPhase::Running;
        self.started_events = 1;
        DiskEvent::Started(self.kind, self.op)
    }

    /// Takes the outcome of one try at `now_ms`. Exhaustion backs off and
    /// keeps the job running; anything else finishes it.
    pub fn on_outcome(&mut self, outcome: IoOutcome, backoff: &mut DiskBackoff, now_ms: u64) -> (e: DiskEvent)
        requires
            old(self).wf(),
            old(self).phase == JobPhase::Running,
            old(self).backoff_events < u32::MAX,
        ensures
            final(self).wf(),
            outcome == IoOutcome::FdExhausted ==> final(self).phase == JobPhase::Running
                && final(self).backoff_events == old(self).backoff_events + 1
                && e == DiskEvent::Backoff(backoff_ms(old(backoff).level as nat) as u64)
                && *final(backoff) == (DiskBackoff {
                    level: if old(backoff).level < BACKOFF_MAX_LEVEL { (old(backoff).level + 1) as u32 } else { old(backoff).level },
                    last_failure_ms: now_ms,
                }),
            outcome != IoOutcome::FdExhausted ==> final(self).phase == JobPhase::Done
                && final(self).backoff_events == old(self).backoff_events
                && e == DiskEvent::Finished(old(self).kind)
                && *final(backoff) == *old(backoff),
            e matches DiskEvent::Backoff(d) ==> BACKOFF_BASE_MS <= d <= BACKOFF_MAX_MS,
    {
        match outcome {
            IoOutcome::FdExhausted => {
                let d = backoff.on_exhausted(now_ms);
                self.backoff_events = self.backoff_events + 1;
                DiskEvent::Backoff(d)
            },
            _ => {
                self.phase = JobPhase::Done;
                self.finished_events = 1;
                DiskEvent::Finished(self.kind)
            },
        }
    }
}

/// Backoff bound: along any run of consecutive exhaustions the durations
/// never shrink and never pass `BACKOFF_MAX_MS`.
pub proof fn lemma_backoff_run(level: nat, failures: nat)
    ensures
        forall|i: nat, j: nat| i <= j < failures ==> #[trigger] backoff_ms(level + i) <= #[trigger] backoff_ms(level + j),
        forall|i: nat| i < failures ==> #[trigger] backoff_ms(level + i) <= BACKOFF_MAX_MS,
{
    assert forall|i: nat, j: nat| i <= j < failures implies #[trigger] backoff_ms(level + i) <= #[trigger] backoff_ms(level + j) by {
        lemma_backoff_monotone(level + i, level + j);
    }
    assert forall|i: nat| i < failures implies #[trigger] backoff_ms(level + i) <= BACKOFF_MAX_MS by {
        lemma_backoff_monotone(level + i, level + i);
    }
}

} // verus!
