//! Readings of a monotonic clock.
//!
//! The clock belongs to the program around the library, which passes a reading
//! to whatever depends on the time.

use vstd::prelude::*;

verus! {

/// Nanoseconds in a second.
pub const NANOS_PER_SEC: u64 = 1_000_000_000;

/// The longest time that is ever added to a reading, in seconds.
pub const MAX_AHEAD_SECS: u64 = 3600;

/// The longest time that is ever taken from a reading, in seconds.
pub const MAX_BACK_SECS: u64 = 10;

/// A reading of the clock, in nanoseconds since some fixed moment.
#[derive(Clone, Copy, Debug, PartialEq, Eq, Structural)]
pub struct Instant {
    pub nanos: u64,
}

impl Instant {
    /// Whether the reading is far enough from the ends of the clock for all
    /// that is added to it or taken from it.
    pub open spec fn in_range(self) -> bool {
        &&& self.nanos >= MAX_BACK_SECS * NANOS_PER_SEC
        &&& self.nanos + MAX_AHEAD_SECS * NANOS_PER_SEC <= u64::MAX
    }

    /// Whether the reading is far enough from the ends of the clock.
    pub fn is_in_range(&self) -> (r: bool)
        ensures
            r == self.in_range(),
    {
        self.nanos >= MAX_BACK_SECS * NANOS_PER_SEC && self.nanos <= u64::MAX - MAX_AHEAD_SECS
            * NANOS_PER_SEC
    }

    /// The moment `secs` seconds later.
    pub open spec fn plus(self, secs: int) -> Instant {
        Instant { nanos: (self.nanos + secs * NANOS_PER_SEC) as u64 }
    }

    /// The moment `secs` seconds later.
    pub fn after(&self, secs: u64) -> (r: Instant)
        requires
            self.in_range(),
            secs <= MAX_AHEAD_SECS,
        ensures
            r == self.plus(secs as int),
            r.nanos == self.nanos + secs * NANOS_PER_SEC,
    {
        assert(secs * NANOS_PER_SEC <= MAX_AHEAD_SECS * NANOS_PER_SEC);
        Instant { nanos: self.nanos + secs * NANOS_PER_SEC }
    }

    /// The moment `secs` seconds earlier.
    pub fn before(&self, secs: u64) -> (r: Instant)
        requires
            self.in_range(),
            secs <= MAX_BACK_SECS,
        ensures
            r == self.plus(-secs),
            r.nanos == self.nanos - secs * NANOS_PER_SEC,
    {
        assert(secs * NANOS_PER_SEC <= MAX_BACK_SECS * NANOS_PER_SEC);
        Instant { nanos: self.nanos - secs * NANOS_PER_SEC }
    }

    /// The nanoseconds from `since` to this reading, none where `since` is
    /// later.
    pub open spec fn nanos_since(self, since: Instant) -> u64 {
        if self.nanos >= since.nanos {
            (self.nanos - since.nanos) as u64
        } else {
            0
        }
    }

    /// The nanoseconds from `since` to this reading, none where `since` is
    /// later.
    pub fn elapsed_nanos(&self, since: Instant) -> (r: u64)
        ensures
            r == self.nanos_since(since),
    {
        if self.nanos >= since.nanos {
            self.nanos - since.nanos
        } else {
            0
        }
    }

    /// The whole seconds from `since` to this reading, cut to 32 bits.
    pub open spec fn secs_since(self, since: Instant) -> u32 {
        (self.nanos_since(since) / NANOS_PER_SEC % 0x1_0000_0000) as u32
    }

    /// The whole seconds from `since` to this reading, cut to 32 bits.
    pub fn elapsed_secs(&self, since: Instant) -> (r: u32)
        ensures
            r == self.secs_since(since),
    {
        (self.elapsed_nanos(since) / NANOS_PER_SEC % 0x1_0000_0000) as u32
    }
}

/// A moment some seconds away is so many thousand millions of nanoseconds away.
pub proof fn law_seconds_move_a_reading(now: Instant, secs: int)
    requires
        now.in_range(),
        -10 <= secs <= 3600,
    ensures
        now.plus(secs).nanos == now.nanos + secs * 1_000_000_000,
{
}

/// The time from one reading to another is what has to be added to the first to
/// come to the second, none where the second is not later; and in whole seconds
/// it is that time cut down to a second, which starts over after 32 bits.
pub proof fn law_time_between_readings(now: Instant, since: Instant)
    ensures
        now.nanos >= since.nanos ==> since.nanos + now.nanos_since(since) == now.nanos,
        now.nanos < since.nanos ==> now.nanos_since(since) == 0,
        now.nanos_since(since) < 0x1_0000_0000 * 1_000_000_000 ==> now.secs_since(since)
            * 1_000_000_000 <= now.nanos_since(since) < (now.secs_since(since) + 1)
            * 1_000_000_000,
        exists|rounds: int|
            0 <= rounds && #[trigger] (rounds * 0x1_0000_0000) + now.secs_since(since)
                == now.nanos_since(since) as int / 1_000_000_000,
{
    let whole = now.nanos_since(since) as int / 1_000_000_000;
    let rounds = whole / 0x1_0000_0000;
    assert(rounds * 0x1_0000_0000 + now.secs_since(since) == whole);
}

} // verus!
