//! When the clock is set from the network.

use vstd::prelude::*;

verus! {

/// How long to wait before the clock is set again, in seconds.
pub const SYNC_INTERVAL_SECS: u64 = 1800;

/// How long to wait after a first failure, in seconds.
pub const RETRY_INTERVAL_SECS: u64 = 60;

/// How long to wait after a failure at most, in seconds.
pub const MAX_RETRY_INTERVAL_SECS: u64 = 900;

/// How long to wait for an address on the outer network, in seconds.
pub const NO_WAN_INTERVAL_SECS: u64 = 5;

/// The schedule by which the clock is set.
#[derive(Clone, Copy, Debug, PartialEq, Eq, Structural)]
pub struct SyncSchedule {
    /// How long to wait after the next failure, in seconds.
    pub retry_delay_secs: u64,
}

/// What to do next.
#[derive(Clone, Copy, Debug, PartialEq, Eq, Structural)]
pub enum SyncAction {
    /// Wait for so many seconds, then look again.
    Wait(u64),
    /// Try to set the clock, and report how that went.
    Sync,
}

impl SyncSchedule {
    /// Whether the wait after a failure can be doubled.
    pub open spec fn wf(self) -> bool {
        self.retry_delay_secs <= MAX_RETRY_INTERVAL_SECS
    }

    /// The schedule at the start.
    pub fn new() -> (r: SyncSchedule)
        ensures
            r == first_schedule(),
            r.wf(),
    {
        SyncSchedule { retry_delay_secs: RETRY_INTERVAL_SECS }
    }

    /// What to do, by whether there is an address on the outer network. Without
    /// one there is nothing to be tried, and the wait after a failure starts
    /// over.
    pub fn next(&mut self, has_wan: bool) -> (r: SyncAction)
        requires
            old(self).wf(),
        ensures
            final(self).wf(),
            (r, *final(self)) == (if has_wan {
                (SyncAction::Sync, *old(self))
            } else {
                (SyncAction::Wait(NO_WAN_INTERVAL_SECS), first_schedule())
            }),
            has_wan ==> r == SyncAction::Sync && final(self).retry_delay_secs
                == old(self).retry_delay_secs,
            !has_wan ==> r == SyncAction::Wait(5) && final(self).retry_delay_secs == 60,
    {
        if has_wan {
            SyncAction::Sync
        } else {
            self.retry_delay_secs = RETRY_INTERVAL_SECS;
            SyncAction::Wait(NO_WAN_INTERVAL_SECS)
        }
    }

    /// How long to wait, in seconds, after an attempt. After a success the wait
    /// after a failure starts over; after a failure it doubles, up to a bound.
    pub fn report(&mut self, succeeded: bool) -> (r: u64)
        requires
            old(self).wf(),
        ensures
            final(self).wf(),
            (r, *final(self)) == report_step(*old(self), succeeded),
            succeeded ==> r == 1800 && final(self).retry_delay_secs == 60,
            !succeeded ==> r == old(self).retry_delay_secs,
    {
        if succeeded {
            self.retry_delay_secs = RETRY_INTERVAL_SECS;
            SYNC_INTERVAL_SECS
        } else {
            let wait: u64 = self.retry_delay_secs;
            let doubled: u64 = wait * 2;
            self.retry_delay_secs = if doubled < MAX_RETRY_INTERVAL_SECS {
                doubled
            } else {
                MAX_RETRY_INTERVAL_SECS
            };
            wait
        }
    }
}

/// The schedule at the start.
pub open spec fn first_schedule() -> SyncSchedule {
    SyncSchedule { retry_delay_secs: RETRY_INTERVAL_SECS }
}

/// How long to wait after an attempt, and the schedule from then on.
pub open spec fn report_step(schedule: SyncSchedule, succeeded: bool) -> (u64, SyncSchedule) {
    if succeeded {
        (SYNC_INTERVAL_SECS, first_schedule())
    } else {
        (
            schedule.retry_delay_secs,
            SyncSchedule {
                retry_delay_secs: if schedule.retry_delay_secs * 2 < MAX_RETRY_INTERVAL_SECS {
                    (schedule.retry_delay_secs * 2) as u64
                } else {
                    MAX_RETRY_INTERVAL_SECS
                },
            },
        )
    }
}

/// The schedule after `n` failures in a row, from the start.
pub open spec fn after_failures(n: nat) -> SyncSchedule
    decreases n,
{
    if n == 0 {
        first_schedule()
    } else {
        report_step(after_failures((n - 1) as nat), false).1
    }
}

/// The wait after a failure doubles from a minute on and stays at a quarter of
/// an hour from the fifth failure on.
pub proof fn law_retries_slow_down(n: nat)
    ensures
        n < 4 ==> after_failures(n).retry_delay_secs == RETRY_INTERVAL_SECS
            * vstd::arithmetic::power2::pow2(n),
        n >= 4 ==> after_failures(n).retry_delay_secs == MAX_RETRY_INTERVAL_SECS,
    decreases n,
{
    vstd::arithmetic::power2::lemma2_to64();
    if n > 0 {
        law_retries_slow_down((n - 1) as nat);
    }
}

/// How long to wait after an attempt: half an hour after a success, after which the
/// wait after a failure is a minute again; after a failure the wait that was due,
/// which is then doubled, up to a quarter of an hour.
pub proof fn law_wait_follows_outcome(schedule: SyncSchedule)
    ensures
        first_schedule().retry_delay_secs == 60,
        report_step(schedule, true).0 == 1800,
        report_step(schedule, true).1.retry_delay_secs == 60,
        report_step(schedule, false).0 == schedule.retry_delay_secs,
        schedule.retry_delay_secs <= 450 ==> report_step(schedule, false).1.retry_delay_secs == 2
            * schedule.retry_delay_secs,
        schedule.retry_delay_secs > 450 ==> report_step(schedule, false).1.retry_delay_secs == 900,
{
}

} // verus!
