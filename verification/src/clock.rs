//! The virtual clock driving a backtest.
//!
//! Every timestamp the core emits derives from a clock it is handed, never
//! from a direct wall-clock read; in a backtest the driver advances this
//! virtual clock explicitly, which keeps the replay synchronous and
//! reproducible. A live deployment substitutes a real-time source that
//! feeds the same `now` values into the same engine calls.

use vstd::prelude::*;

verus! {

/// A monotonic clock advanced explicitly by its driver.
#[derive(Clone, Copy, Debug, PartialEq, Eq, Structural)]
pub struct VirtualClock {
    pub time_ns: u64,
}

impl VirtualClock {
    /// A clock starting at `start_ns` nanoseconds.
    pub fn new(start_ns: u64) -> (c: VirtualClock)
        ensures
            c.time_ns == start_ns,
    {
        VirtualClock { time_ns: start_ns }
    }

    /// The current virtual time in nanoseconds.
    pub fn now(&self) -> (t: u64)
        ensures
            t == self.time_ns,
    {
        self.time_ns
    }

    /// Advances the clock; time never moves backwards.
    pub fn advance_to(&mut self, t: u64)
        requires
            t >= old(self).time_ns,
        ensures
            final(self).time_ns == t,
    {
        self.time_ns = t;
    }
}

} // verus!
