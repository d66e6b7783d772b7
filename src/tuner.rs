//! The adaptive tuner: scores the last period, keeps the best limits seen,
//! and tries one random trade per period.

use vstd::prelude::*;
use crate::limits::{all_trades_allowed, make_random_adjustment, CalculatedLimits, TradeOutcome, total_permits, limit_of, floor_of, traded, trade_allowed};
use crate::stats::{average_of_last, mean_of_last};

verus! {

/// Seconds of samples that make up one score.
pub const SCORE_WINDOW_SECS: usize = 60;
/// Seconds between two tuning steps.
pub const TUNING_PERIOD_SECS: u64 = 90;
/// Seek cost per byte of 1.0, in millionths: the floor of the learnt maximum.
pub const SEEK_COST_UNIT_MICROS: u64 = 1_000_000;
/// A best score above this may be judged stale against the baseline.
pub const REALITY_CHECK_MIN_SCORE: u64 = 10_000;

/// What the tuner carries from one period to the next.
#[derive(Clone, Copy, Debug, PartialEq, Eq, Structural)]
pub struct TunerState {
    /// Best score seen so far.
    pub last_tuning_score: u64,
    /// Score of the latest period.
    pub current_tuning_score: u64,
    /// The limits that gave the best score.
    pub last_tuning_limits: CalculatedLimits,
    /// Slow moving average of the scores.
    pub baseline_speed_ema: u64,
    /// Whether the objective is upload speed (seeding) rather than download.
    pub is_seeding: bool,
    /// Seconds until the next tuning step.
    pub tuning_countdown: u64,
}

/// The raw score scaled down by the seek-cost penalty: divided by
/// `seek_cost / adaptive_max` when the cost is above the learnt maximum.
pub open spec fn penalized_score(raw: int, seek_cost: int, adaptive_max: int) -> int {
    if seek_cost > adaptive_max { raw * adaptive_max / seek_cost } else { raw }
}

/// The baseline after one more score, with weight 1/10 on the score; the
/// first score seeds it.
pub open spec fn baseline_after(baseline: int, score: int) -> int {
    if baseline == 0 { score } else { (score + 9 * baseline) / 10 }
}

/// The tuner's state and the limits to apply after scoring a period,
/// before the next trade.
pub open spec fn evaluated(s: TunerState, limits: CalculatedLimits, score: int) -> (TunerState, CalculatedLimits) {
    let baseline = baseline_after(s.baseline_speed_ema as int, score);
    if score > s.last_tuning_score {
        (TunerState {
            current_tuning_score: score as u64,
            baseline_speed_ema: baseline as u64,
            last_tuning_score: score as u64,
            last_tuning_limits: limits,
            ..s
        }, limits)
    } else {
        let stale = s.last_tuning_score > REALITY_CHECK_MIN_SCORE && s.last_tuning_score > 2 * baseline;
        (TunerState {
            current_tuning_score: score as u64,
            baseline_speed_ema: baseline as u64,
            last_tuning_score: if stale { baseline as u64 } else { s.last_tuning_score },
            ..s
        }, s.last_tuning_limits)
    }
}

impl TunerState {
    pub fn new(limits: CalculatedLimits) -> (r: Self)
        ensures
            r.last_tuning_score == 0,
            r.current_tuning_score == 0,
            r.last_tuning_limits == limits,
            r.baseline_speed_ema == 0,
            !r.is_seeding,
            r.tuning_countdown == TUNING_PERIOD_SECS,
    {
        TunerState {
            last_tuning_score: 0,
            current_tuning_score: 0,
            last_tuning_limits: limits,
            baseline_speed_ema: 0,
            is_seeding: false,
            tuning_countdown: TUNING_PERIOD_SECS,
        }
    }

    /// Called every second with the current objective: a change of
    /// objective forgets the scores and takes the current limits as best.
    pub fn observe_objective(&mut self, is_seeding: bool, limits: CalculatedLimits)
        ensures
            final(self).is_seeding == is_seeding,
            final(self).tuning_countdown == if old(self).tuning_countdown > 0 { old(self).tuning_countdown - 1 } else { 0 },
            is_seeding != old(self).is_seeding ==> final(self).last_tuning_score == 0
                && final(self).current_tuning_score == 0 && final(self).last_tuning_limits == limits,
            is_seeding == old(self).is_seeding ==> final(self).last_tuning_score == old(self).last_tuning_score
                && final(self).current_tuning_score == old(self).current_tuning_score
                && final(self).last_tuning_limits == old(self).last_tuning_limits,
            final(self).baseline_speed_ema == old(self).baseline_speed_ema,
    {
        if is_seeding != self.is_seeding {
            self.last_tuning_score = 0;
            self.current_tuning_score = 0;
            self.last_tuning_limits = limits;
        }
        self.is_seeding = is_seeding;
        self.tuning_countdown = if self.tuning_countdown > 0 { self.tuning_countdown - 1 } else { 0 };
    }

    /// Scores the period that just ended and returns the limits to apply:
    /// the current ones if they beat the best score, else the best ones.
    pub fn evaluate(&mut self, limits: CalculatedLimits, speed_history: &Vec<u64>, seek_cost_micros: u64, adaptive_max_micros: u64) -> (r: CalculatedLimits)
        requires
            adaptive_max_micros >= SEEK_COST_UNIT_MICROS,
        ensures
            ({
                let raw = mean_of_last(speed_history@, SCORE_WINDOW_SECS as int);
                let score = penalized_score(raw, seek_cost_micros as int, adaptive_max_micros as int);
                let e = evaluated(*old(self), limits, score);
                &&& *final(self) == TunerState { tuning_countdown: TUNING_PERIOD_SECS, ..e.0 }
                &&& r == e.1
            }),
    {
        self.tuning_countdown = TUNING_PERIOD_SECS;
        let raw = average_of_last(speed_history, SCORE_WINDOW_SECS);
        let score: u64 = if seek_cost_micros > adaptive_max_micros {
            assert(raw as u128 * adaptive_max_micros as u128 <= u64::MAX as u128 * u64::MAX as u128) by (nonlinear_arith);
            let p: u128 = raw as u128 * adaptive_max_micros as u128;
            let v: u128 = p / seek_cost_micros as u128;
            assert(v <= raw) by (nonlinear_arith)
                requires v as int == p as int / seek_cost_micros as int, p as int == raw as int * adaptive_max_micros as int,
                    adaptive_max_micros < seek_cost_micros;
            v as u64
        } else {
            raw
        };
        self.current_tuning_score = score;
        let baseline: u64 = if self.baseline_speed_ema == 0 {
            score
        } else {
            ((score as u128 + 9 * self.baseline_speed_ema as u128) / 10) as u64
        };
        self.baseline_speed_ema = baseline;
        let best = self.last_tuning_score;
        if score > best {
            self.last_tuning_score = score;
            self.last_tuning_limits = limits;
            limits
        } else {
            if best > REALITY_CHECK_MIN_SCORE && best as u128 > 2 * baseline as u128 {
                self.last_tuning_score = baseline;
            }
            self.last_tuning_limits
        }
    }

    /// One tuning step: scores the period, falls back to the best limits
    /// when the period did not improve, then tries a random trade.
    pub fn tune(&mut self, limits: CalculatedLimits, speed_history: &Vec<u64>, seek_cost_micros: u64, adaptive_max_micros: u64) -> (r: (CalculatedLimits, TradeOutcome))
        requires
            adaptive_max_micros >= SEEK_COST_UNIT_MICROS,
        ensures
            ({
                let raw = mean_of_last(speed_history@, SCORE_WINDOW_SECS as int);
                let score = penalized_score(raw, seek_cost_micros as int, adaptive_max_micros as int);
                let e = evaluated(*old(self), limits, score);
                &&& *final(self) == TunerState { tuning_countdown: TUNING_PERIOD_SECS, ..e.0 }
                &&& total_permits(r.0) == total_permits(e.1)
                &&& forall|k| limit_of(r.0, k) >= floor_of(k) || limit_of(r.0, k) >= limit_of(e.1, k)
                &&& match r.1 {
                    TradeOutcome::Traded { amount, source, dest, attempt } =>
                        trade_allowed(e.1, source, dest, amount as int) && r.0 == traded(e.1, source, dest, amount as int),
                    TradeOutcome::Skipped => r.0 == e.1,
                }
                &&& all_trades_allowed(e.1) ==> r.1 is Traded
            }),
    {
        let base = self.evaluate(limits, speed_history, seek_cost_micros, adaptive_max_micros);
        make_random_adjustment(base)
    }
}

} // verus!
