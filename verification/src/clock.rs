//! Points in time, as the library keeps them.

use vstd::prelude::*;

verus! {

/// The number of nanoseconds in a second.
pub const NANOS_PER_SEC: u64 = 1_000_000_000;

/// The number of seconds in a day.
pub const SECS_PER_DAY: u64 = 86_400;

/// A point in time: seconds and nanoseconds since the Unix epoch.
#[derive(Clone, Copy, Debug, PartialEq, Eq, Hash, Structural)]
pub struct Timestamp {
    pub secs: u64,
    pub nanos: u32,
}

impl Timestamp {
    /// The point in time as a number of nanoseconds since the epoch.
    pub open spec fn instant(self) -> int {
        self.secs * NANOS_PER_SEC + self.nanos
    }

    /// This point in time is later than the other.
    pub open spec fn is_after(self, other: Timestamp) -> bool {
        self.instant() > other.instant()
    }

    /// The whole days that have passed at this point since `earlier`, or
    /// `None` when `earlier` is in fact later.
    pub open spec fn days_since(self, earlier: Timestamp) -> Option<int> {
        if earlier.is_after(self) {
            None
        } else {
            Some(
                (self.instant() - earlier.instant()) / (NANOS_PER_SEC as int) / (
                SECS_PER_DAY as int),
            )
        }
    }

    /// The point in time as a number of nanoseconds since the epoch.
    fn nanos_since_epoch(&self) -> (n: u128)
        ensures
            n == self.instant(),
            n <= u64::MAX * NANOS_PER_SEC + u32::MAX,
    {
        proof {
            assert(self.secs * NANOS_PER_SEC <= u64::MAX * NANOS_PER_SEC) by (nonlinear_arith)
                requires
                    self.secs <= u64::MAX,
                    NANOS_PER_SEC == 1_000_000_000,
            ;
        }
        (self.secs as u128) * (NANOS_PER_SEC as u128) + (self.nanos as u128)
    }

    /// Whether this point in time is later than the other.
    pub fn after(&self, other: &Timestamp) -> (yes: bool)
        ensures
            yes == self.is_after(*other),
    {
        self.nanos_since_epoch() > other.nanos_since_epoch()
    }

    /// The whole days that have passed at this point since `earlier`, or
    /// `None` when `earlier` is in fact later.
    pub fn days_after(&self, earlier: &Timestamp) -> (days: Option<u64>)
        ensures
            match days {
                Some(d) => self.days_since(*earlier) == Some(d as int),
                None => self.days_since(*earlier).is_none(),
            },
    {
        let now = self.nanos_since_epoch();
        let then = earlier.nanos_since_epoch();
        if then > now {
            None
        } else {
            let seconds = (now - then) / (NANOS_PER_SEC as u128);
            let days = seconds / (SECS_PER_DAY as u128);
            Some(days as u64)
        }
    }
}

} // verus!
