//! Schedulers: when the next ingestion cycle starts.
//!
//! A scheduler computes the next wake instant from the current wall time;
//! the surrounding process reads the clock, asks for the wake instant and
//! sleeps until it.  Two variants exist: a fixed interval relative to now,
//! and the first instant of the next calendar month in UTC.

use vstd::prelude::*;

use crate::date::{
    date_of_epoch_days, day_number, epoch_days, from_epoch_days, leap_years_before, next_month_of,
};

verus! {

/// Largest wall time, in seconds since the Unix epoch, a scheduler
/// accepts: the last instant of 9998-12-31, so that the following month
/// boundary still names a representable date.
pub const MAX_SCHED_SECS: i64 = 253_370_764_799;

/// Largest interval a fixed-interval scheduler accepts, in seconds.
pub const MAX_INTERVAL_SECS: u64 = 0x1_0000_0000;

/// Produces a sequence of wake instants for a worker loop.
pub trait Scheduler: Sized {
    /// Whether this scheduler's configuration is within bounds.
    spec fn wf(&self) -> bool;

    /// The wake instant computed from the wall time `now_secs`.
    spec fn spec_next_wake(&self, now_secs: int) -> int;

    /// Compute the next wake instant, in seconds since the Unix epoch,
    /// from the current wall time.
    fn next_wake(&self, now_secs: i64) -> (r: i64)
        requires
            self.wf(),
            0 <= now_secs <= MAX_SCHED_SECS,
        ensures
            r == self.spec_next_wake(now_secs as int),
            now_secs <= r,
    ;
}

/// Wakes a fixed number of seconds after each call: the next cycle starts
/// that long after the previous cycle finished, so cumulative drift equals
/// the sum of cycle-processing durations.  This is deliberate.
pub struct FixedIntervalScheduler {
    pub interval_secs: u64,
}

impl FixedIntervalScheduler {
    /// The configured interval, in seconds.
    pub fn interval_secs(&self) -> (r: u64)
        ensures
            r == self.interval_secs,
    {
        self.interval_secs
    }

    /// A scheduler waking `interval_secs` after every call.
    pub fn new(interval_secs: u64) -> (r: FixedIntervalScheduler)
        requires
            interval_secs <= MAX_INTERVAL_SECS,
        ensures
            r.wf(),
            r == (FixedIntervalScheduler { interval_secs }),
    {
        FixedIntervalScheduler { interval_secs }
    }
}

impl Scheduler for FixedIntervalScheduler {
    open spec fn wf(&self) -> bool {
        self.interval_secs <= MAX_INTERVAL_SECS
    }

    open spec fn spec_next_wake(&self, now_secs: int) -> int {
        now_secs + self.interval_secs
    }

    fn next_wake(&self, now_secs: i64) -> (r: i64) {
        now_secs + self.interval_secs as i64
    }
}

/// Wakes at the first instant of the next calendar month in UTC,
/// regardless of how long the cycle before it ran.
pub struct MonthlyScheduler;

impl MonthlyScheduler {
    /// A scheduler waking at every calendar-month boundary.
    pub fn new() -> (r: MonthlyScheduler)
        ensures
            r.wf(),
    {
        MonthlyScheduler
    }
}

impl Scheduler for MonthlyScheduler {
    open spec fn wf(&self) -> bool {
        true
    }

    open spec fn spec_next_wake(&self, now_secs: int) -> int {
        epoch_days(next_month_of(date_of_epoch_days(now_secs / 86_400))) * 86_400
    }

    fn next_wake(&self, now_secs: i64) -> (r: i64) {
        let days: i64 = ((now_secs as u64) / 86_400) as i64;
        proof {
            vstd::arithmetic::div_mod::lemma_fundamental_div_mod(now_secs as int, 86_400);
        }
        let today = from_epoch_days(days);
        proof {
            if today.year == 9999 {
                assert(9998int / 4 == 2499 && 9998int / 100 == 99 && 9998int / 400 == 24);
                assert(leap_years_before(9999) == 2424);
                assert(day_number(today) >= 3_651_694);
                assert(false);
            }
        }
        let boundary = today.next_month_start();
        proof {
            if today.month == 12 {
                crate::date::lemma_year_step(today.year as int);
            }
            assert(day_number(boundary) >= day_number(today) + 1);
        }
        boundary.to_epoch_secs()
    }
}

} // verus!
