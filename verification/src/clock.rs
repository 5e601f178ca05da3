//! The two clocks: one that only moves forward, and the calendar.
use vstd::prelude::*;

verus! {

#[verifier::external_type_specification]
#[verifier::external_body]
pub struct ExInstant(std::time::Instant);

#[verifier::external_type_specification]
#[verifier::external_body]
pub struct ExSystemTime(std::time::SystemTime);

#[verifier::external_type_specification]
#[verifier::external_body]
pub struct ExSystemTimeError(std::time::SystemTimeError);

/// The nanoseconds that a duration lasts.
pub uninterp spec fn nanos_of(d: std::time::Duration) -> u128;

/// How long it is from an earlier instant to a later one.
pub uninterp spec fn span(later: std::time::Instant, earlier: std::time::Instant) -> std::time::Duration;

/// How long a time of the calendar is after the start of the Unix epoch, if it is not before
/// it.
pub uninterp spec fn after_epoch(t: std::time::SystemTime) -> Option<std::time::Duration>;

/// The current instant. Nothing is claimed of it.
pub assume_specification[ std::time::Instant::now ]() -> std::time::Instant;

/// How long it is from one instant to another, a function of the two. How the spans between
/// several instants relate is not claimed.
pub assume_specification[ std::time::Instant::duration_since ](
    later: &std::time::Instant,
    earlier: std::time::Instant,
) -> (d: std::time::Duration)
    ensures
        d == span(*later, earlier),
;

/// The total number of nanoseconds of a duration.
pub assume_specification[ std::time::Duration::as_nanos ](d: &std::time::Duration) -> (n: u128)
    ensures
        n == nanos_of(*d),
;

/// The total number of whole milliseconds of a duration.
pub assume_specification[ std::time::Duration::as_millis ](d: &std::time::Duration) -> (n: u128)
    ensures
        n == nanos_of(*d) / 1000000,
;

/// The calendar's time. Nothing is claimed of it.
pub assume_specification[ std::time::SystemTime::now ]() -> std::time::SystemTime;

/// The duration that came back, if one did.
pub open spec fn lasting(r: Result<std::time::Duration, std::time::SystemTimeError>) -> Option<std::time::Duration> {
    match r {
        Ok(d) => Some(d),
        Err(_) => None,
    }
}

/// Calls `SystemTime::duration_since` with the start of the Unix epoch, a function of the
/// time; it fails for a time before the epoch.
#[verifier::external_body]
fn since_epoch(t: &std::time::SystemTime) -> (d: Result<std::time::Duration, std::time::SystemTimeError>)
    ensures
        lasting(d) == after_epoch(*t),
{
    t.duration_since(std::time::UNIX_EPOCH)
}

/// The whole milliseconds from the start of the Unix epoch to a time of the calendar, in one
/// word, or zero before the epoch.
pub open spec fn calendar_ms(t: std::time::SystemTime) -> u64 {
    match after_epoch(t) {
        Some(d) => (nanos_of(d) / 1000000) as u64,
        None => 0,
    }
}

/// Milliseconds from the start of the Unix epoch to a time, or zero before it.
pub fn ms_at(t: &std::time::SystemTime) -> (ms: u64)
    ensures
        ms == calendar_ms(*t),
{
    match since_epoch(t) {
        Ok(d) => d.as_millis() as u64,
        Err(_) => 0,
    }
}

/// Milliseconds since the start of the Unix epoch, or zero before it: those of the time
/// that the calendar shows.
pub fn now_ms() -> (ms: u64)
    ensures
        exists|t: std::time::SystemTime| #[trigger] calendar_ms(t) == ms,
{
    ms_at(&std::time::SystemTime::now())
}

/// A clock that counts from when it was made.
pub struct Clock {
    origin: std::time::Instant,
}

impl Clock {
    /// The instant from which the clock counts.
    pub closed spec fn start(&self) -> std::time::Instant {
        self.origin
    }

    /// What the clock shows at an instant: the nanoseconds from its start, in one word.
    pub open spec fn reading(&self, at: std::time::Instant) -> u64 {
        nanos_of(span(at, self.start())) as u64
    }

    /// A clock that starts at an instant.
    pub fn starting(origin: std::time::Instant) -> (c: Self)
        ensures
            c.start() == origin,
    {
        Clock { origin }
    }

    /// A clock that starts now.
    pub fn new() -> Self {
        Clock::starting(std::time::Instant::now())
    }

    /// Nanoseconds from when the clock was made to an instant.
    pub fn at(&self, at: &std::time::Instant) -> (n: u64)
        ensures
            n == self.reading(*at),
    {
        at.duration_since(self.origin).as_nanos() as u64
    }

    /// Nanoseconds since the clock was made: what it shows at the current instant.
    pub fn now(&self) -> (n: u64)
        ensures
            exists|at: std::time::Instant| #[trigger] self.reading(at) == n,
    {
        self.at(&std::time::Instant::now())
    }
}


/// The calendar counts whole milliseconds from the start of the Unix epoch, as long as they fit,
/// and shows zero before it.
pub proof fn law_the_calendar_counts_milliseconds(t: std::time::SystemTime)
    ensures
        after_epoch(t) matches Some(d) ==> (nanos_of(d) < 18446744073709551616000000 ==> {
            let ms = calendar_ms(t) as int;
            ms * 1000000 <= nanos_of(d) < (ms + 1) * 1000000
        }),
        after_epoch(t) is None ==> calendar_ms(t) == 0,
{
}

/// A clock counts the nanoseconds from its start, as long as they fit.
pub proof fn law_a_clock_counts_nanoseconds(c: Clock, at: std::time::Instant)
    ensures
        nanos_of(span(at, c.start())) <= u64::MAX ==> c.reading(at) == nanos_of(span(at, c.start())),
{
}

} // verus!
