//! The engine that drives a node: its identity and how often Raft ticks.

use vstd::prelude::*;

use crate::node::elapsed;

verus! {

/// How often Raft is ticked, in milliseconds.
pub const RAFT_TIMEOUT_MS: u64 = 100;

/// The Raft consensus engine.
pub struct RaftEngine {}

impl RaftEngine {
    /// A new engine.
    pub fn new() -> (r: RaftEngine)
        ensures
            r == (RaftEngine {}),
    {
        RaftEngine {}
    }
}

/// When Raft is due to tick: once a period has passed since the last tick.
pub struct Ticker {
    last_ms: u64,
    period_ms: u64,
}

impl Ticker {
    /// The time of the last tick, in milliseconds.
    pub closed spec fn last(&self) -> u64 {
        self.last_ms
    }

    /// The tick period, in milliseconds.
    pub closed spec fn period(&self) -> u64 {
        self.period_ms
    }

    /// A ticker whose period starts at `now_ms`.
    pub fn new(now_ms: u64, period_ms: u64) -> (r: Ticker)
        ensures
            r.last() == now_ms,
            r.period() == period_ms,
    {
        Ticker { last_ms: now_ms, period_ms }
    }

    /// At time `now_ms`: whether Raft is due to tick (the period has passed
    /// since the last tick, which then becomes now), and how long to wait
    /// for an update before asking again.
    pub fn tick(&mut self, now_ms: u64) -> (r: (bool, u64))
        ensures
            final(self).period() == old(self).period(),
            if elapsed(old(self).last(), now_ms) >= old(self).period() {
                &&& r == (true, old(self).period())
                &&& final(self).last() == now_ms
            } else {
                &&& r == (false, (old(self).period() - elapsed(old(self).last(), now_ms)) as u64)
                &&& final(self).last() == old(self).last()
            },
    {
        let e = if now_ms >= self.last_ms {
            now_ms - self.last_ms
        } else {
            0
        };
        if e >= self.period_ms {
            self.last_ms = now_ms;
            (true, self.period_ms)
        } else {
            (false, self.period_ms - e)
        }
    }
}

} // verus!
