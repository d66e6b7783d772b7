//! Global disk telemetry: operation logs, latency averages, IOPS, seek
//! costs and the learnt maximum seek cost, and the backoff history.

use vstd::prelude::*;
use std::collections::VecDeque;
use crate::disk_io::{
    calculate_seek_cost_micros, calculate_thrash_score, latency_ema_after, log_wf, next_latency_ema,
    op_wf, record_operation, seek_cost_micros, thrash_score, DiskIoOperation, GLOBAL_LOG_CAPACITY,
};
use crate::stats::{last_window, percentile, percentile_of, push_capped};
use crate::tuner::SEEK_COST_UNIT_MICROS;

verus! {

/// Per-second samples kept (one hour).
pub const SECONDS_HISTORY_MAX: usize = 3600;
/// Per-minute samples kept (48 hours).
pub const MINUTES_HISTORY_MAX: usize = 2880;
/// Seek-cost samples kept for learning the maximum.
pub const SEEK_COST_HISTORY_MAX: usize = 1000;
/// Samples needed before the maximum is learnt.
pub const MIN_SAMPLES_TO_LEARN: usize = 50;
/// Seek costs at or below this (0.01 per byte, in millionths) are not sampled.
pub const TRIVIAL_SEEK_COST_MICROS: u64 = 10_000;
/// The seek-cost maximum before any is learnt: 10.0 per byte, in millionths.
pub const INITIAL_MAX_SEEK_COST_MICROS: u64 = 10_000_000;
/// Percentile of the seek-cost samples taken as the maximum.
pub const SEEK_COST_PERCENTILE: usize = 95;

pub open spec fn sat_add(a: int, b: int) -> int {
    if a + b > u64::MAX { u64::MAX as int } else { a + b }
}

pub open spec fn max_of(a: int, b: int) -> int {
    if a >= b { a } else { b }
}

/// Largest entry of a sequence; 0 when empty.
pub open spec fn seq_max(s: Seq<u64>) -> int
    decreases s.len(),
{
    if s.len() == 0 { 0 } else { max_of(seq_max(s.drop_last()), s.last() as int) }
}

/// What closing a one-second tick does to the disk telemetry `o`, giving `n`.
pub open spec fn tick_closed(o: DiskTelemetry, n: DiskTelemetry) -> bool {
    &&& n.global_disk_read_thrash_score == thrash_score(o.global_disk_read_history_log@)
    &&& n.global_disk_write_thrash_score == thrash_score(o.global_disk_write_history_log@)
    &&& ({
        let cr = seek_cost_micros(o.global_disk_read_history_log@);
        let cw = seek_cost_micros(o.global_disk_write_history_log@);
        let r = if cr > u64::MAX { u64::MAX as int } else { cr };
        let w = if cw > u64::MAX { u64::MAX as int } else { cw };
        let c = sat_add(r, w);
        let h = if c > TRIVIAL_SEEK_COST_MICROS { o.seek_cost_history@.push(c as u64) } else { o.seek_cost_history@ };
        let h2 = last_window(h, SEEK_COST_HISTORY_MAX as int);
        &&& n.global_seek_cost_micros == c
        &&& n.seek_cost_history@ == h2
        &&& n.adaptive_max_seek_cost_micros == if h2.len() > MIN_SAMPLES_TO_LEARN {
            max_of(percentile_of(h2, SEEK_COST_PERCENTILE as int) as int, SEEK_COST_UNIT_MICROS as int)
        } else {
            o.adaptive_max_seek_cost_micros as int
        }
    })
    &&& n.read_iops == o.reads_completed_this_tick
    &&& n.write_iops == o.writes_completed_this_tick
    &&& n.reads_completed_this_tick == 0
    &&& n.writes_completed_this_tick == 0
    &&& n.disk_backoff_history_ms@ == last_window(
        o.disk_backoff_history_ms@.push(o.max_disk_backoff_this_tick_ms), SECONDS_HISTORY_MAX as int)
    &&& n.max_disk_backoff_this_tick_ms == 0
    &&& n.global_disk_read_history_log == o.global_disk_read_history_log
    &&& n.global_disk_write_history_log == o.global_disk_write_history_log
}

/// The disk side of the dashboard's state.
#[derive(Debug)]
pub struct DiskTelemetry {
    pub read_op_start_ms: VecDeque<u64>,
    pub write_op_start_ms: VecDeque<u64>,
    pub global_disk_read_history_log: VecDeque<DiskIoOperation>,
    pub global_disk_write_history_log: VecDeque<DiskIoOperation>,
    pub read_latency_ema_micros: u64,
    pub write_latency_ema_micros: u64,
    pub reads_completed_this_tick: u32,
    pub writes_completed_this_tick: u32,
    pub read_iops: u32,
    pub write_iops: u32,
    pub max_disk_backoff_this_tick_ms: u64,
    pub disk_backoff_history_ms: Vec<u64>,
    pub minute_disk_backoff_history_ms: Vec<u64>,
    pub fd_warning_raised: bool,
    pub global_disk_read_thrash_score: u64,
    pub global_disk_write_thrash_score: u64,
    pub global_seek_cost_micros: u64,
    pub seek_cost_history: Vec<u64>,
    pub adaptive_max_seek_cost_micros: u64,
}

/// Latency in microseconds of an operation that started at `start_ms` and
/// finished at `now_ms`; 0 for a clock that went back.
pub open spec fn latency_micros(start_ms: int, now_ms: int) -> int {
    if now_ms <= start_ms {
        0
    } else if (now_ms - start_ms) * 1000 > u64::MAX {
        u64::MAX as int
    } else {
        (now_ms - start_ms) * 1000
    }
}

fn elapsed_micros(start_ms: u64, now_ms: u64) -> (r: u64)
    ensures
        r == latency_micros(start_ms as int, now_ms as int),
{
    if now_ms <= start_ms {
        0
    } else if now_ms - start_ms > u64::MAX / 1000 {
        u64::MAX
    } else {
        (now_ms - start_ms) * 1000
    }
}

fn add_one(n: u32) -> (r: u32)
    ensures
        r == if n == u32::MAX { n as int } else { n + 1 },
{
    if n == u32::MAX { n } else { n + 1 }
}

impl DiskTelemetry {
    pub open spec fn wf(&self) -> bool {
        &&& log_wf(self.global_disk_read_history_log@)
        &&& log_wf(self.global_disk_write_history_log@)
        &&& self.global_disk_read_history_log@.len() <= GLOBAL_LOG_CAPACITY
        &&& self.global_disk_write_history_log@.len() <= GLOBAL_LOG_CAPACITY
        &&& self.adaptive_max_seek_cost_micros >= SEEK_COST_UNIT_MICROS
        &&& self.seek_cost_history@.len() <= SEEK_COST_HISTORY_MAX
    }

    pub fn new() -> (r: Self)
        ensures
            r.wf(),
            r.read_op_start_ms@.len() == 0 && r.write_op_start_ms@.len() == 0,
            r.global_disk_read_history_log@.len() == 0 && r.global_disk_write_history_log@.len() == 0,
            r.seek_cost_history@.len() == 0,
            r.adaptive_max_seek_cost_micros == INITIAL_MAX_SEEK_COST_MICROS,
            !r.fd_warning_raised,
    {
        DiskTelemetry {
            read_op_start_ms: VecDeque::new(),
            write_op_start_ms: VecDeque::new(),
            global_disk_read_history_log: VecDeque::new(),
            global_disk_write_history_log: VecDeque::new(),
            read_latency_ema_micros: 0,
            write_latency_ema_micros: 0,
            reads_completed_this_tick: 0,
            writes_completed_this_tick: 0,
            read_iops: 0,
            write_iops: 0,
            max_disk_backoff_this_tick_ms: 0,
            disk_backoff_history_ms: Vec::new(),
            minute_disk_backoff_history_ms: Vec::new(),
            fd_warning_raised: false,
            global_disk_read_thrash_score: 0,
            global_disk_write_thrash_score: 0,
            global_seek_cost_micros: 0,
            seek_cost_history: Vec::new(),
            adaptive_max_seek_cost_micros: INITIAL_MAX_SEEK_COST_MICROS,
        }
    }

    /// A disk read started at `now_ms`.
    pub fn on_read_started(&mut self, op: DiskIoOperation, now_ms: u64)
        requires
            old(self).wf(),
            op_wf(op),
        ensures
            final(self).wf(),
            final(self).read_op_start_ms@ == seq![now_ms].add(old(self).read_op_start_ms@),
            final(self).global_disk_read_history_log@ == seq![op].add(old(self).global_disk_read_history_log@).take(
                if old(self).global_disk_read_history_log@.len() + 1 <= GLOBAL_LOG_CAPACITY {
                    (old(self).global_disk_read_history_log@.len() + 1) as int
                } else {
                    GLOBAL_LOG_CAPACITY as int
                }),
            final(self).write_op_start_ms == old(self).write_op_start_ms,
            final(self).global_disk_write_history_log == old(self).global_disk_write_history_log,
            final(self).reads_completed_this_tick == old(self).reads_completed_this_tick,
    {
        self.read_op_start_ms.push_front(now_ms);
        record_operation(&mut self.global_disk_read_history_log, op, GLOBAL_LOG_CAPACITY);
    }

    /// A disk write started at `now_ms`.
    pub fn on_write_started(&mut self, op: DiskIoOperation, now_ms: u64)
        requires
            old(self).wf(),
            op_wf(op),
        ensures
            final(self).wf(),
            final(self).write_op_start_ms@ == seq![now_ms].add(old(self).write_op_start_ms@),
            final(self).global_disk_write_history_log@ == seq![op].add(old(self).global_disk_write_history_log@).take(
                if old(self).global_disk_write_history_log@.len() + 1 <= GLOBAL_LOG_CAPACITY {
                    (old(self).global_disk_write_history_log@.len() + 1) as int
                } else {
                    GLOBAL_LOG_CAPACITY as int
                }),
            final(self).read_op_start_ms == old(self).read_op_start_ms,
            final(self).global_disk_read_history_log == old(self).global_disk_read_history_log,
            final(self).writes_completed_this_tick == old(self).writes_completed_this_tick,
    {
        self.write_op_start_ms.push_front(now_ms);
        record_operation(&mut self.global_disk_write_history_log, op, GLOBAL_LOG_CAPACITY);
    }

    /// A disk read finished at `now_ms`: the latest start time is taken
    /// off, its latency joins the average, and the read counts for IOPS.
    pub fn on_read_finished(&mut self, now_ms: u64)
        requires
            old(self).wf(),
        ensures
            final(self).wf(),
            old(self).read_op_start_ms@.len() == 0 ==> final(self).read_op_start_ms@ == old(self).read_op_start_ms@
                && final(self).read_latency_ema_micros == old(self).read_latency_ema_micros,
            old(self).read_op_start_ms@.len() > 0 ==> final(self).read_op_start_ms@ == old(self).read_op_start_ms@.drop_first()
                && final(self).read_latency_ema_micros == latency_ema_after(old(self).read_latency_ema_micros as int,
                    latency_micros(old(self).read_op_start_ms@[0] as int, now_ms as int)),
            final(self).reads_completed_this_tick == if old(self).reads_completed_this_tick == u32::MAX {
                u32::MAX as int } else { old(self).reads_completed_this_tick + 1 },
            final(self).write_op_start_ms == old(self).write_op_start_ms,
    {
        match self.read_op_start_ms.pop_front() {
            Some(start) => {
                let sample = elapsed_micros(start, now_ms);
                self.read_latency_ema_micros = next_latency_ema(self.read_latency_ema_micros, sample);
            },
            None => {},
        }
        self.reads_completed_this_tick = add_one(self.reads_completed_this_tick);
    }

    /// A disk write finished at `now_ms`: the latest start time is taken
    /// off, its latency joins the average, and the write counts for IOPS.
    pub fn on_write_finished(&mut self, now_ms: u64)
        requires
            old(self).wf(),
        ensures
            final(self).wf(),
            old(self).write_op_start_ms@.len() == 0 ==> final(self).write_op_start_ms@ == old(self).write_op_start_ms@
                && final(self).write_latency_ema_micros == old(self).write_latency_ema_micros,
            old(self).write_op_start_ms@.len() > 0 ==> final(self).write_op_start_ms@ == old(self).write_op_start_ms@.drop_first()
                && final(self).write_latency_ema_micros == latency_ema_after(old(self).write_latency_ema_micros as int,
                    latency_micros(old(self).write_op_start_ms@[0] as int, now_ms as int)),
            final(self).writes_completed_this_tick == if old(self).writes_completed_this_tick == u32::MAX {
                u32::MAX as int } else { old(self).writes_completed_this_tick + 1 },
            final(self).read_op_start_ms == old(self).read_op_start_ms,
    {
        match self.write_op_start_ms.pop_front() {
            Some(start) => {
                let sample = elapsed_micros(start, now_ms);
                self.write_latency_ema_micros = next_latency_ema(self.write_latency_ema_micros, sample);
            },
            None => {},
        }
        self.writes_completed_this_tick = add_one(self.writes_completed_this_tick);
    }

    /// The executor backed off for `duration_ms`. Returns whether this is
    /// the first sign of file-handle exhaustion, for a one-time warning.
    pub fn on_backoff(&mut self, duration_ms: u64) -> (first: bool)
        requires
            old(self).wf(),
        ensures
            final(self).wf(),
            final(self).max_disk_backoff_this_tick_ms == max_of(old(self).max_disk_backoff_this_tick_ms as int, duration_ms as int),
            first == !old(self).fd_warning_raised,
            final(self).fd_warning_raised,
    {
        if duration_ms > self.max_disk_backoff_this_tick_ms {
            self.max_disk_backoff_this_tick_ms = duration_ms;
        }
        let first = !self.fd_warning_raised;
        self.fd_warning_raised = true;
        first
    }

    /// Closes a one-second tick: thrash scores and seek cost of the global
    /// logs, the seek-cost sample and the learnt maximum, IOPS, and the
    /// backoff history.
    pub fn end_tick(&mut self)
        requires
            old(self).wf(),
        ensures
            final(self).wf(),
            tick_closed(*old(self), *final(self)),
            final(self).minute_disk_backoff_history_ms == old(self).minute_disk_backoff_history_ms,
    {
        self.global_disk_read_thrash_score = calculate_thrash_score(&self.global_disk_read_history_log);
        self.global_disk_write_thrash_score = calculate_thrash_score(&self.global_disk_write_history_log);
        let r = calculate_seek_cost_micros(&self.global_disk_read_history_log);
        let w = calculate_seek_cost_micros(&self.global_disk_write_history_log);
        let c: u64 = if r > u64::MAX - w { u64::MAX } else { r + w };
        self.global_seek_cost_micros = c;
        if c > TRIVIAL_SEEK_COST_MICROS {
            push_capped(&mut self.seek_cost_history, c, SEEK_COST_HISTORY_MAX);
        } else {
            assert(self.seek_cost_history@ =~= last_window(self.seek_cost_history@, SEEK_COST_HISTORY_MAX as int));
        }
        if self.seek_cost_history.len() > MIN_SAMPLES_TO_LEARN {
            let p = percentile(&self.seek_cost_history, SEEK_COST_PERCENTILE);
            self.adaptive_max_seek_cost_micros = if p > SEEK_COST_UNIT_MICROS { p } else { SEEK_COST_UNIT_MICROS };
        }
        self.read_iops = self.reads_completed_this_tick;
        self.write_iops = self.writes_completed_this_tick;
        self.reads_completed_this_tick = 0;
        self.writes_completed_this_tick = 0;
        push_capped(&mut self.disk_backoff_history_ms, self.max_disk_backoff_this_tick_ms, SECONDS_HISTORY_MAX);
        self.max_disk_backoff_this_tick_ms = 0;
    }

    /// Once a minute: the largest backoff of the last 60 seconds joins the
    /// per-minute history.
    pub fn roll_minute(&mut self)
        requires
            old(self).wf(),
        ensures
            final(self).wf(),
            final(self).minute_disk_backoff_history_ms@ == last_window(
                old(self).minute_disk_backoff_history_ms@.push(
                    seq_max(last_window(old(self).disk_backoff_history_ms@, 60)) as u64),
                MINUTES_HISTORY_MAX as int),
            *final(self) == (DiskTelemetry { minute_disk_backoff_history_ms: final(self).minute_disk_backoff_history_ms, ..*old(self) }),
    {
        let m = max_of_last(&self.disk_backoff_history_ms, 60);
        push_capped(&mut self.minute_disk_backoff_history_ms, m, MINUTES_HISTORY_MAX);
    }
}

/// Largest of the last `window` entries; 0 when there are none.
pub fn max_of_last(history: &Vec<u64>, window: usize) -> (r: u64)
    ensures
        r == seq_max(last_window(history@, window as int)),
{
    let n = history.len();
    let start: usize = if n > window { n - window } else { 0 };
    let mut m: u64 = 0;
    let mut i: usize = start;
    while i < n
        invariant
            start <= i <= n,
            n == history@.len(),
            m == seq_max(history@.subrange(start as int, i as int)),
        decreases n - i,
    {
        assert(history@.subrange(start as int, i + 1).drop_last() =~= history@.subrange(start as int, i as int));
        if history[i] > m {
            m = history[i];
        }
        i = i + 1;
    }
    assert(history@.subrange(start as int, n as int) =~= last_window(history@, window as int));
    m
}

} // verus!
