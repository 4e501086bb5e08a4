//! The logical clock: a counter of ticks that the store stamps its buckets
//! with, advanced by a fixed step.

use vstd::prelude::*;

verus! {

/// The ticks by which the clock advances at each step.
pub const INCREMENT: u64 = 100;

/// The logical clock. Its view is the tick that it shows.
pub struct LogicalClock {
    ticks: u64,
}

impl View for LogicalClock {
    type V = u64;

    closed spec fn view(&self) -> u64 {
        self.ticks
    }
}

/// The tick that follows `now`: one step later, wrapping round at the end of
/// the range.
pub open spec fn advanced(now: u64) -> u64 {
    if now + INCREMENT <= u64::MAX {
        (now + INCREMENT) as u64
    } else {
        (now + INCREMENT - u64::MAX - 1) as u64
    }
}

impl LogicalClock {
    /// A clock that shows tick 0.
    pub fn new() -> (clock: LogicalClock)
        ensures
            clock@ == 0,
    {
        LogicalClock { ticks: 0 }
    }
}

/// The tick that the clock shows.
pub fn get_time(clock: &LogicalClock) -> (now: u64)
    ensures
        now == clock@,
{
    clock.ticks
}

/// Advances the clock by one step and returns the tick that it showed
/// before.
pub fn update_time(clock: &mut LogicalClock) -> (prior: u64)
    ensures
        prior == old(clock)@,
        final(clock)@ == advanced(old(clock)@),
{
    let prior = clock.ticks;
    clock.ticks = if prior <= u64::MAX - INCREMENT {
        prior + INCREMENT
    } else {
        prior - (u64::MAX - INCREMENT) - 1
    };
    prior
}

/// The clock never runs backwards before the end of the range: a step from
/// a tick with room above it leads to a later tick, exactly one step away.
pub proof fn lemma_clock_advances(now: u64)
    requires
        now + INCREMENT <= u64::MAX,
    ensures
        advanced(now) == now + INCREMENT,
        advanced(now) > now,
{
}

} // verus!
