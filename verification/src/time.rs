//! Lengths of time, instants, and the age of a timestamp.

use vstd::prelude::*;

verus! {

/// A length of time.
#[derive(Debug, Clone, Copy, PartialEq, Eq, Structural)]
pub struct Duration {
    /// Whole seconds.
    pub secs: u64,
    /// Nanoseconds on top of the whole seconds.
    pub nanos: u32,
}

impl Duration {
    /// The length in nanoseconds.
    pub open spec fn total_nanos(self) -> int {
        self.secs * 1_000_000_000 + self.nanos
    }

    /// A number of whole seconds.
    pub fn from_secs(secs: u64) -> (r: Duration)
        ensures
            r == (Duration { secs, nanos: 0 }),
    {
        Duration { secs, nanos: 0 }
    }
}

/// A point in time, in UTC.
#[derive(Debug, Clone, Copy, PartialEq, Eq, Structural)]
pub struct UtcInstant {
    /// Seconds since the beginning of 1970, leap seconds not counted.
    pub secs: i64,
    /// Nanoseconds since the last second boundary. Within a leap second they run on beyond
    /// 999,999,999.
    pub nanos: u32,
}

impl UtcInstant {
    /// Whether the instant lies within a leap second.
    pub open spec fn in_leap_second(self) -> bool {
        self.nanos >= 1_000_000_000
    }

    /// Seconds since midnight.
    pub open spec fn time_of_day(self) -> int {
        self.secs as int % 86_400
    }
}

/// The leap second that lies between two times of day and that their distance has to count.
pub open spec fn leap_between(now: UtcInstant, then: UtcInstant) -> int {
    if now.time_of_day() > then.time_of_day() && then.in_leap_second() {
        1
    } else if now.time_of_day() < then.time_of_day() && now.in_leap_second() {
        -1
    } else {
        0
    }
}

/// How many nanoseconds after `then` the instant `now` is.
pub open spec fn nanos_since(now: UtcInstant, then: UtcInstant) -> int {
    (now.secs - then.secs + leap_between(now, then)) * 1_000_000_000 + (now.nanos - then.nanos)
}

/// The instant that an RFC 3339 date and time names, if the text is one.
pub uninterp spec fn rfc3339_instant(s: Seq<char>) -> Option<UtcInstant>;

/// `chrono::DateTime::parse_from_rfc3339`, which reads an RFC 3339 date and time.
///
/// The result depends on the text alone. It is nothing where the text is no such date and time.
#[verifier::external_body]
pub(crate) fn parse_rfc3339(s: &str) -> (r: Option<UtcInstant>)
    ensures
        r == rfc3339_instant(s@),
{
    chrono::DateTime::parse_from_rfc3339(s).ok().map(
        |t| UtcInstant { secs: t.timestamp(), nanos: t.timestamp_subsec_nanos() },
    )
}

/// `chrono::Utc::now`, written out as an RFC 3339 date and time.
///
/// Nothing is claimed of the text: it depends on the clock.
#[verifier::external_body]
pub(crate) fn utc_now_rfc3339() -> (r: String) {
    chrono::Utc::now().to_rfc3339()
}

/// Whether a timestamp is older than `max_age`, or does not lie in the past.
pub open spec fn older_than(now: UtcInstant, then: UtcInstant, max_age: Duration) -> bool {
    nanos_since(now, then) < 0 || nanos_since(now, then) > max_age.total_nanos()
}

/// Whether a timestamp is older than `max_age`, or does not lie in the past.
pub fn is_older_than(now: UtcInstant, then: UtcInstant, max_age: Duration) -> (r: bool)
    ensures
        r == older_than(now, then, max_age),
{
    let day: i64 = 86_400;
    let now_tod: i64 = rem_floor(now.secs, day);
    let then_tod: i64 = rem_floor(then.secs, day);
    let leap: i128 = if now_tod > then_tod && then.nanos >= 1_000_000_000 {
        1
    } else if now_tod < then_tod && now.nanos >= 1_000_000_000 {
        -1
    } else {
        0
    };
    let secs: i128 = now.secs as i128 - then.secs as i128 + leap;
    let since: i128 = secs * 1_000_000_000 + (now.nanos as i128 - then.nanos as i128);
    let limit: i128 = max_age.secs as i128 * 1_000_000_000 + max_age.nanos as i128;
    since < 0 || since > limit
}

fn rem_floor(a: i64, b: i64) -> (r: i64)
    requires
        b == 86_400,
    ensures
        r == a as int % b as int,
{
    if a >= 0 {
        a % b
    } else {
        // -1 - a is not negative, and counts down from the end of a day.
        let back: i64 = (-1 - a) % b;
        86_399 - back
    }
}

/// Between instants outside leap seconds, a timestamp that is too old stays too old.
pub proof fn law_age_only_grows(
    now: UtcInstant,
    later: UtcInstant,
    then: UtcInstant,
    max_age: Duration,
)
    requires
        !now.in_leap_second(),
        !later.in_leap_second(),
        !then.in_leap_second(),
        now.secs < later.secs || now.secs == later.secs && now.nanos <= later.nanos,
        nanos_since(now, then) > max_age.total_nanos(),
    ensures
        older_than(later, then, max_age),
{
}

/// Outside leap seconds, a timestamp is too old exactly where it lies in the future, or further back
/// than the age allows, both counted in nanoseconds.
pub proof fn law_age_is_counted_in_nanoseconds(now: UtcInstant, then: UtcInstant, max_age: Duration)
    requires
        now.nanos < 1_000_000_000,
        then.nanos < 1_000_000_000,
    ensures
        older_than(now, then, max_age) <==> {
            let age = (now.secs * 1_000_000_000 + now.nanos) - (then.secs * 1_000_000_000
                + then.nanos);
            age < 0 || age > max_age.secs * 1_000_000_000 + max_age.nanos
        },
{
}

/// A leap second that one instant lies in counts as a second of its own, where the other instant
/// lies at a later time of day.
pub proof fn law_leap_seconds_count(now: UtcInstant, then: UtcInstant)
    ensures
        then.nanos >= 1_000_000_000 && now.secs as int % 86_400 > then.secs as int % 86_400
            ==> nanos_since(now, then) == (now.secs - then.secs + 1) * 1_000_000_000 + now.nanos
            - then.nanos,
        now.nanos >= 1_000_000_000 && now.secs as int % 86_400 < then.secs as int % 86_400
            ==> nanos_since(now, then) == (now.secs - then.secs - 1) * 1_000_000_000 + now.nanos
            - then.nanos,
        now.secs as int % 86_400 == then.secs as int % 86_400 ==> nanos_since(now, then) == (now.secs
            - then.secs) * 1_000_000_000 + now.nanos - then.nanos,
{
}

} // verus!
