//! Token buckets that bound the global download and upload rates.
//!
//! Time is handed in by the caller in milliseconds; `consume` says how long
//! the caller has to wait before the bytes may go.

use vstd::prelude::*;

verus! {

/// A token bucket. Tokens are held in thousandths of a byte so that a
/// refill over any number of milliseconds is exact; a negative level is
/// debt that the caller waits off. A rate of 0 means unlimited.
#[derive(Clone, Copy, Debug, PartialEq, Eq, Structural)]
pub struct TokenBucket {
    pub capacity: u64,
    pub rate_bps: u64,
    pub tokens_milli: i128,
    pub last_refill_ms: u64,
}

/// Deepest debt a bucket may run into, in thousandths of a byte.
pub const MAX_DEBT_MILLI: i128 = 1267650600228229401496703205376;

pub open spec fn capacity_milli(b: TokenBucket) -> int {
    b.capacity * 1000
}

impl TokenBucket {
    /// The level never exceeds the capacity nor falls below the deepest debt.
    pub open spec fn wf(&self) -> bool {
        -MAX_DEBT_MILLI <= self.tokens_milli <= capacity_milli(*self)
    }

    /// A full bucket of `capacity` bytes refilled at `rate_bps` bytes per second.
    pub fn new(capacity: u64, rate_bps: u64, now_ms: u64) -> (r: Self)
        ensures
            r.wf(),
            r.capacity == capacity,
            r.rate_bps == rate_bps,
            r.tokens_milli == capacity * 1000,
            r.last_refill_ms == now_ms,
    {
        TokenBucket { capacity, rate_bps, tokens_milli: capacity as i128 * 1000, last_refill_ms: now_ms }
    }

    /// The bucket after refilling up to `now_ms`: tokens for the elapsed
    /// time at the rate, capped at the capacity. A clock that went back
    /// refills nothing.
    pub open spec fn refilled(self, now_ms: u64) -> TokenBucket {
        if now_ms > self.last_refill_ms {
            let added = (now_ms - self.last_refill_ms) * self.rate_bps;
            let level = if self.tokens_milli + added > capacity_milli(self) {
                capacity_milli(self)
            } else {
                self.tokens_milli + added
            };
            TokenBucket { tokens_milli: if level > self.tokens_milli { level as i128 } else { self.tokens_milli }, last_refill_ms: now_ms, ..self }
        } else {
            self
        }
    }

    /// The bucket after `n` bytes were taken at `now_ms`; unchanged at rate 0.
    pub open spec fn after_consume(self, n: u64, now_ms: u64) -> TokenBucket {
        if self.rate_bps == 0 {
            self
        } else {
            let r = self.refilled(now_ms);
            TokenBucket { tokens_milli: (r.tokens_milli - n * 1000) as i128, ..r }
        }
    }

    /// Milliseconds until the debt of the bucket is paid off.
    pub open spec fn wait_ms(self) -> int {
        if self.rate_bps == 0 || self.tokens_milli >= 0 {
            0
        } else {
            (-self.tokens_milli + self.rate_bps - 1) / (self.rate_bps as int)
        }
    }

    fn refill(&mut self, now_ms: u64)
        requires
            old(self).wf(),
        ensures
            *final(self) == old(self).refilled(now_ms),
            final(self).wf(),
    {
        if now_ms > self.last_refill_ms {
            let elapsed = now_ms - self.last_refill_ms;
            assert(elapsed as u128 * self.rate_bps as u128 <= u64::MAX as u128 * u64::MAX as u128) by (nonlinear_arith);
            let added: u128 = elapsed as u128 * self.rate_bps as u128;
            let cap: i128 = self.capacity as i128 * 1000;
            let deficit: i128 = cap - self.tokens_milli;
            if deficit <= 0 {
            } else if added >= deficit as u128 {
                self.tokens_milli = cap;
            } else {
                self.tokens_milli = self.tokens_milli + added as i128;
            }
            self.last_refill_ms = now_ms;
        }
    }

    /// Takes `n` bytes at `now_ms` and returns how many milliseconds the
    /// caller waits before sending them; at rate 0 nothing is accounted and
    /// the wait is 0. A wait beyond `u64::MAX` ms is
    /// reported as `u64::MAX`.
    pub fn consume(&mut self, n: u64, now_ms: u64) -> (wait: u64)
        requires
            old(self).wf(),
            old(self).tokens_milli - n * 1000 >= -MAX_DEBT_MILLI,
        ensures
            *final(self) == old(self).after_consume(n, now_ms),
            final(self).wf(),
            wait == if final(self).wait_ms() > u64::MAX { u64::MAX as int } else { final(self).wait_ms() },
    {
        if self.rate_bps == 0 {
            return 0;
        }
        self.refill(now_ms);
        self.tokens_milli = self.tokens_milli - n as i128 * 1000;
        if self.tokens_milli >= 0 {
            0
        } else {
            let debt: u128 = (-self.tokens_milli) as u128;
            let w: u128 = (debt + self.rate_bps as u128 - 1) / self.rate_bps as u128;
            if w > u64::MAX as u128 { u64::MAX } else { w as u64 }
        }
    }
}

/// The bucket after a series of `(bytes, now_ms)` calls of `consume`.
pub open spec fn run_calls(b: TokenBucket, calls: Seq<(u64, u64)>) -> TokenBucket
    decreases calls.len(),
{
    if calls.len() == 0 {
        b
    } else {
        run_calls(b.after_consume(calls[0].0, calls[0].1), calls.drop_first())
    }
}

/// Bytes asked for over a series of calls.
pub open spec fn calls_bytes(calls: Seq<(u64, u64)>) -> int
    decreases calls.len(),
{
    if calls.len() == 0 { 0 } else { calls[0].0 + calls_bytes(calls.drop_first()) }
}

/// Each call of the series meets the `requires` of `consume`.
pub open spec fn calls_allowed(b: TokenBucket, calls: Seq<(u64, u64)>) -> bool
    decreases calls.len(),
{
    calls.len() == 0 || (b.tokens_milli - calls[0].0 * 1000 >= -MAX_DEBT_MILLI
        && calls_allowed(b.after_consume(calls[0].0, calls[0].1), calls.drop_first()))
}

proof fn lemma_calls_telescope(b: TokenBucket, calls: Seq<(u64, u64)>)
    requires
        b.wf(),
        b.rate_bps > 0,
        calls_allowed(b, calls),
    ensures
        run_calls(b, calls).wf(),
        run_calls(b, calls).rate_bps == b.rate_bps,
        run_calls(b, calls).capacity == b.capacity,
        run_calls(b, calls).last_refill_ms >= b.last_refill_ms,
        calls_bytes(calls) * 1000 <= b.tokens_milli - run_calls(b, calls).tokens_milli
            + b.rate_bps * (run_calls(b, calls).last_refill_ms - b.last_refill_ms),
    decreases calls.len(),
{
    if calls.len() > 0 {
        let n = calls[0].0;
        let t = calls[0].1;
        let b1 = b.after_consume(n, t);
        let r = b.refilled(t);
        if t > b.last_refill_ms {
            let added = (t - b.last_refill_ms) * b.rate_bps;
            assert(added >= 0) by (nonlinear_arith)
                requires t > b.last_refill_ms, added == (t - b.last_refill_ms) * b.rate_bps;
            assert(added == b.rate_bps * (r.last_refill_ms - b.last_refill_ms)) by (nonlinear_arith)
                requires r.last_refill_ms == t, added == (t - b.last_refill_ms) * b.rate_bps;
        } else {
            assert(b.rate_bps * (r.last_refill_ms - b.last_refill_ms) == 0) by (nonlinear_arith)
                requires r.last_refill_ms == b.last_refill_ms;
        }
        assert(r.tokens_milli <= b.tokens_milli + b.rate_bps * (r.last_refill_ms - b.last_refill_ms));
        lemma_calls_telescope(b1, calls.drop_first());
        let f = run_calls(b1, calls.drop_first());
        assert(b.rate_bps * (f.last_refill_ms - b1.last_refill_ms) + b.rate_bps * (b1.last_refill_ms - b.last_refill_ms)
            == b.rate_bps * (f.last_refill_ms - b.last_refill_ms)) by (nonlinear_arith);
    }
}

/// Rate bound: whatever series of calls a bucket serves, once the last
/// caller has waited what `consume` told it, the bytes handed out since the
/// first refill instant are at most the capacity plus the rate times the
/// time passed. Over a one-second window with capacity equal to the rate,
/// this is at most rate + capacity.
pub proof fn lemma_rate_bound(b: TokenBucket, calls: Seq<(u64, u64)>)
    requires
        b.wf(),
        b.rate_bps > 0,
        calls_allowed(b, calls),
    ensures
        ({
            let f = run_calls(b, calls);
            calls_bytes(calls) * 1000 <= b.capacity * 1000
                + b.rate_bps * (f.last_refill_ms + f.wait_ms() - b.last_refill_ms)
        }),
{
    lemma_calls_telescope(b, calls);
    let f = run_calls(b, calls);
    let rate = b.rate_bps as int;
    if f.tokens_milli < 0 {
        let debt = -f.tokens_milli;
        assert(rate * f.wait_ms() >= debt) by (nonlinear_arith)
            requires f.wait_ms() == (debt + rate - 1) / rate, rate > 0, debt > 0;
    } else {
        assert(rate * f.wait_ms() >= 0) by (nonlinear_arith)
            requires f.wait_ms() == 0;
    }
    assert(rate * (f.last_refill_ms - b.last_refill_ms) + rate * f.wait_ms()
        == rate * (f.last_refill_ms + f.wait_ms() - b.last_refill_ms)) by (nonlinear_arith);
}

/// At rate 0 a call changes nothing and asks for no wait.
pub proof fn lemma_unlimited_is_noop(b: TokenBucket, n: u64, now_ms: u64)
    requires
        b.rate_bps == 0,
    ensures
        b.after_consume(n, now_ms) == b,
        b.after_consume(n, now_ms).wait_ms() == 0,
{
}

} // verus!
