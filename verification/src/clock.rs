use vstd::prelude::*;

verus! {

/// `std::time::SystemTime`, carried through opaquely.
#[verifier::external_type_specification]
#[verifier::external_body]
pub struct ExSystemTime(std::time::SystemTime);

/// Reads the wall clock with `std::time::SystemTime::now`. The reading depends on
/// the moment of the call, so nothing is claimed of it.
#[verifier::external_body]
fn system_time_now() -> std::time::SystemTime {
    std::time::SystemTime::now()
}

/// `SystemTime::duration_since(UNIX_EPOCH)`, with the error (a clock set before
/// the epoch) turned into `None`. The value depends on what the clock read, so
/// nothing is claimed of it.
#[verifier::external_body]
fn since_unix_epoch(t: &std::time::SystemTime) -> Option<core::time::Duration> {
    t.duration_since(std::time::UNIX_EPOCH).ok()
}

/// `Duration::as_nanos`: the whole nanoseconds of `d`. `Duration` is opaque here,
/// so no clause relates the result to it.
#[verifier::external_body]
fn duration_nanos(d: &core::time::Duration) -> u128 {
    d.as_nanos()
}

/// A point in time: nanoseconds since the Unix epoch.
///
/// Deadlines and spawn times are compared by `nanos`; a later instant has the
/// larger count.
#[derive(Debug, Clone, Copy, PartialEq, Eq, Hash, PartialOrd, Ord, Structural)]
pub struct Instant {
    pub nanos: u64,
}

/// Nanoseconds in one second.
pub const NANOS_PER_SEC: u64 = 1_000_000_000;

/// `x` capped at the largest `u64`.
pub open spec fn cap_u64(x: int) -> u64 {
    if x > u64::MAX { u64::MAX } else if x < 0 { 0 } else { x as u64 }
}

impl Instant {
    /// The current time, read from the system clock. A clock set before the
    /// epoch reads as 0; one beyond the range of `u64` nanoseconds as the maximum.
    pub fn now() -> Instant {
        let t = system_time_now();
        let reading = match since_unix_epoch(&t) {
            Some(d) => Some(duration_nanos(&d)),
            None => None,
        };
        Instant::from_clock_reading(reading)
    }

    /// The instant of a clock reading given as nanoseconds since the epoch:
    /// `None` (a clock set before the epoch) is the epoch itself, and a reading
    /// beyond the range of `u64` nanoseconds is the latest instant.
    pub fn from_clock_reading(reading: Option<u128>) -> (r: Instant)
        ensures
            r.nanos == match reading {
                Some(n) => cap_u64(n as int),
                None => 0,
            },
    {
        match reading {
            Some(n) => {
                if n > 0xffff_ffff_ffff_ffffu128 {
                    Instant { nanos: u64::MAX }
                } else {
                    Instant { nanos: n as u64 }
                }
            },
            None => Instant { nanos: 0 },
        }
    }

    /// The instant `nanos` nanoseconds after the epoch.
    pub fn from_nanos(nanos: u64) -> (r: Instant)
        ensures
            r.nanos == nanos,
    {
        Instant { nanos }
    }

    /// Nanoseconds since the epoch.
    pub fn as_nanos(&self) -> (r: u64)
        ensures
            r == self.nanos,
    {
        self.nanos
    }

    /// The instant `secs` seconds later, capped at the latest representable one.
    pub fn saturating_add_secs(&self, secs: u64) -> (r: Instant)
        ensures
            r.nanos == cap_u64(self.nanos + secs * NANOS_PER_SEC),
    {
        match secs.checked_mul(NANOS_PER_SEC) {
            Some(delta) => Instant { nanos: self.nanos.saturating_add(delta) },
            None => Instant { nanos: u64::MAX },
        }
    }

    /// The instant `secs` seconds earlier, never before the epoch.
    pub fn saturating_sub_secs(&self, secs: u64) -> (r: Instant)
        ensures
            r.nanos == cap_u64(self.nanos - secs * NANOS_PER_SEC),
    {
        match secs.checked_mul(NANOS_PER_SEC) {
            Some(delta) => Instant { nanos: self.nanos.saturating_sub(delta) },
            None => Instant { nanos: 0 },
        }
    }
}

} // verus!
