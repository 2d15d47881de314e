//! Readings of a monotonic clock, in nanoseconds.
use vstd::prelude::*;

verus! {

/// Nanoseconds in one millisecond.
pub const NANOS_PER_MILLI: u128 = 1_000_000;

/// A reading of a monotonic clock: the nanoseconds since the clock was started.
#[derive(Clone, Copy, Debug, PartialEq, Eq, Structural)]
pub struct Instant {
    pub nanos: u128,
}

/// The nanoseconds from `earlier` to `later`, and zero where `later` is the earlier of the two.
pub open spec fn elapsed(earlier: Instant, later: Instant) -> nat {
    if earlier.nanos <= later.nanos {
        (later.nanos - earlier.nanos) as nat
    } else {
        0
    }
}

impl Instant {
    /// The nanoseconds since `earlier`, or zero if `earlier` lies in the future.
    pub fn duration_since(&self, earlier: Instant) -> (nanos: u128)
        ensures
            nanos == elapsed(earlier, *self),
            self.nanos >= earlier.nanos ==> nanos == self.nanos - earlier.nanos,
            self.nanos < earlier.nanos ==> nanos == 0,
    {
        if earlier.nanos <= self.nanos {
            self.nanos - earlier.nanos
        } else {
            0
        }
    }
}

/// Declares `std::time::Instant`, which is carried and never looked into.
#[verifier::external_type_specification]
#[verifier::external_body]
pub struct ExStdInstant(std::time::Instant);

/// Calls `std::time::Instant::now`. What the clock shows is not known, so nothing is claimed.
#[verifier::external_body]
fn clock_start() -> (origin: std::time::Instant)
{
    std::time::Instant::now()
}

/// Calls `std::time::Instant::elapsed` of the moment at which the clock was started, and converts the
/// duration to nanoseconds. What the clock shows is not known, so nothing is claimed. The clock
/// counts its readings, so no two calls are made on the same value.
#[verifier::external_body]
fn clock_elapsed(clock: &Clock) -> (nanos: u128)
{
    clock.origin.elapsed().as_nanos()
}

/// A monotonic clock that counts from the moment it was started.
pub struct Clock {
    origin: std::time::Instant,
    /// How often the clock was read.
    readings: u64,
    /// The last reading.
    last: Instant,
}

impl Clock {
    /// The last reading.
    pub closed spec fn last(self) -> Instant {
        self.last
    }

    /// Whether `now` is what the clock shows at its next reading, which leaves it as `after`.
    pub closed spec fn reads(self, now: Instant, after: Clock) -> bool {
        &&& exists|nanos: u128| #[trigger]
            call_ensures(clock_elapsed, (&self,), nanos) && now.nanos == if nanos
                >= self.last.nanos {
                nanos
            } else {
                self.last.nanos
            }
        &&& after.origin == self.origin
        &&& after.readings == (self.readings + 1) % (u64::MAX + 1)
        &&& after.last == now
    }

    /// A clock that starts counting now.
    pub(crate) fn start() -> (clock: Clock)
        ensures
            clock.last().nanos == 0,
    {
        Clock { origin: clock_start(), readings: 0, last: Instant { nanos: 0 } }
    }

    /// The current reading, and the clock after it. A reading is never earlier than the one before.
    pub(crate) fn now(&self) -> (reading: (Instant, Clock))
        ensures
            self.reads(reading.0, reading.1),
    {
        let nanos: u128 = measured(clock_elapsed, self);
        let now = Instant {
            nanos: if nanos >= self.last.nanos {
                nanos
            } else {
                self.last.nanos
            },
        };
        (now, Clock { origin: self.origin, readings: self.readings.wrapping_add(1), last: now })
    }
}

/// What `measure` makes of a clock.
fn measured<F: Fn(&Clock) -> u128>(measure: F, clock: &Clock) -> (nanos: u128)
    requires
        call_requires(measure, (clock,)),
    ensures
        call_ensures(measure, (clock,), nanos),
{
    measure(clock)
}

/// A reading is what the machine's monotonic clock says that has passed since the clock was
/// started, asked for this reading and for no other: the clock that is asked has counted all
/// readings before it. Should the machine's clock go back, the reading before is given again.
proof fn law_reading_is_measured(clock: Clock, now: Instant, after: Clock)
    requires
        clock.reads(now, after),
    ensures
        exists|nanos: u128| #[trigger]
            call_ensures(clock_elapsed, (&clock,), nanos) && (nanos >= clock.last.nanos
                ==> now.nanos == nanos) && (nanos < clock.last.nanos ==> now == clock.last),
        after.origin == clock.origin,
        clock.readings < u64::MAX ==> after.readings == clock.readings + 1,
        after.last == now,
{
}

/// The readings of a clock never decrease.
pub proof fn law_readings_never_decrease(clock: Clock, now: Instant, after: Clock)
    requires
        clock.reads(now, after),
    ensures
        clock.last().nanos <= now.nanos,
        after.last() == now,
{
}

} // verus!
