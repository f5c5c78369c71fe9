//! Points in time, with the notations that reports and API requests use.

use chrono::{DateTime, Utc};
use vstd::prelude::*;

verus! {

/// The first second that the calendar reaches, counted from the Unix epoch.
pub const FIRST_SECOND: i64 = -8_334_601_228_800;

/// The last second that the calendar reaches, counted from the Unix epoch.
pub const LAST_SECOND: i64 = 8_210_266_876_799;

/// The number of nanoseconds in a second.
pub const NANOS_PER_SECOND: u32 = 1_000_000_000;

/// Whether seconds since the Unix epoch and nanoseconds within the second name
/// a point in time. Nanoseconds beyond a full second stand for a leap second,
/// which only the last second of a minute can have.
pub open spec fn is_timestamp(secs: i64, nanos: u32) -> bool {
    &&& FIRST_SECOND <= secs <= LAST_SECOND
    &&& nanos < 2 * NANOS_PER_SECOND
    &&& nanos >= NANOS_PER_SECOND ==> (secs as int) % 60 == 59
}

/// A point in time, in UTC.
#[derive(Debug, Clone, Copy, PartialEq, Eq, Structural)]
pub struct Moment {
    /// Seconds since the Unix epoch.
    pub secs: i64,
    /// Nanoseconds within the second.
    pub nanos: u32,
}

/// The text that `chrono` gives a timestamp in UTC under a format pattern.
pub uninterp spec fn utc_text(secs: i64, nanos: u32, pattern: Seq<char>) -> Seq<char>;

/// The timestamp that `chrono` reads from an RFC 3339 date and time.
pub uninterp spec fn rfc3339_timestamp(text: Seq<char>) -> Option<(i64, u32)>;

/// The format patterns in use: date and minute, minute of the day, and the
/// notation of the API.
pub open spec fn is_pattern(pattern: Seq<char>) -> bool {
    ||| pattern == "%Y-%m-%d %H:%M"@
    ||| pattern == "%H:%M"@
    ||| pattern == "%Y-%m-%dT%H:%M:%SZ"@
}

/// The hour and the minute of the day, in two digits each.
pub open spec fn clock(secs: i64) -> Seq<char> {
    crate::format::two_digits(((secs as int) % 86_400 / 3600) as nat) + seq![':']
        + crate::format::two_digits(((secs as int) % 3600 / 60) as nat)
}

/// Calls `chrono::DateTime::<Utc>::from_timestamp` and `DateTime::format` on
/// what it gives. The first succeeds on every timestamp within the calendar;
/// the text is a function of the timestamp and the pattern alone. `%H` is the
/// hour of the day and `%M` the minute of the hour, both in two digits.
#[verifier::external_body]
fn format_utc(secs: i64, nanos: u32, pattern: &str) -> (text: String)
    requires
        is_timestamp(secs, nanos),
        is_pattern(pattern@),
    ensures
        text@ == utc_text(secs, nanos, pattern@),
        pattern@ == "%H:%M"@ ==> text@ == clock(secs),
{
    DateTime::<Utc>::from_timestamp(secs, nanos).unwrap().format(pattern).to_string()
}

/// Calls `chrono::DateTime::parse_from_rfc3339` and takes the timestamp of the
/// result, which lies within the calendar. Whether there is a result, and
/// which, is a function of the text alone.
#[verifier::external_body]
fn read_rfc3339(text: &str) -> (timestamp: Option<(i64, u32)>)
    ensures
        timestamp == rfc3339_timestamp(text@),
        match timestamp {
            Some((secs, nanos)) => is_timestamp(secs, nanos),
            None => true,
        },
{
    DateTime::parse_from_rfc3339(text).ok().map(|at| (at.timestamp(), at.timestamp_subsec_nanos()))
}

/// The point in time that an RFC 3339 text names.
pub open spec fn rfc3339_moment(text: Seq<char>) -> Option<Moment> {
    match rfc3339_timestamp(text) {
        Some((secs, nanos)) => Some(Moment { secs, nanos }),
        None => None,
    }
}

impl Moment {
    /// Whether the moment lies within the calendar.
    pub open spec fn is_valid(self) -> bool {
        is_timestamp(self.secs, self.nanos)
    }

    /// Whether the moment lies outside any leap second, as every reading of a
    /// system clock does.
    pub open spec fn is_regular(self) -> bool {
        self.is_valid() && self.nanos < NANOS_PER_SECOND
    }

    /// Whether the moment comes after another.
    pub open spec fn after(self, other: Moment) -> bool {
        self.secs > other.secs || (self.secs == other.secs && self.nanos > other.nanos)
    }

    /// Nanoseconds since the Unix epoch, leap seconds aside.
    pub open spec fn total_nanos(self) -> int {
        self.secs * (NANOS_PER_SECOND as int) + self.nanos
    }

    /// The moment of a timestamp, unless it lies outside the calendar.
    pub fn new(secs: i64, nanos: u32) -> (moment: Option<Moment>)
        ensures
            moment == (if is_timestamp(secs, nanos) {
                Some(Moment { secs, nanos })
            } else {
                None
            }),
    {
        if secs < FIRST_SECOND || secs > LAST_SECOND || nanos >= 2 * NANOS_PER_SECOND {
            return None;
        }
        if nanos >= NANOS_PER_SECOND {
            // The offset is a multiple of a minute and makes the sum positive.
            let shifted: i64 = secs + 8_334_601_228_800;
            if shifted % 60 != 59 {
                return None;
            }
        }
        Some(Moment { secs, nanos })
    }

    /// Whether the moment comes after another.
    pub fn is_after(self, other: Moment) -> (yes: bool)
        ensures
            yes == self.after(other),
    {
        self.secs > other.secs || (self.secs == other.secs && self.nanos > other.nanos)
    }

    /// The date and the time of day, to the minute.
    pub fn minute_text(self) -> (text: String)
        requires
            self.is_valid(),
        ensures
            text@ == utc_text(self.secs, self.nanos, "%Y-%m-%d %H:%M"@),
    {
        format_utc(self.secs, self.nanos, "%Y-%m-%d %H:%M")
    }

    /// The time of day, to the minute.
    pub fn clock_text(self) -> (text: String)
        requires
            self.is_valid(),
        ensures
            text@ == clock(self.secs),
    {
        format_utc(self.secs, self.nanos, "%H:%M")
    }

    /// The notation of the API.
    pub fn api_text(self) -> (text: String)
        requires
            self.is_valid(),
        ensures
            text@ == utc_text(self.secs, self.nanos, "%Y-%m-%dT%H:%M:%SZ"@),
    {
        format_utc(self.secs, self.nanos, "%Y-%m-%dT%H:%M:%SZ")
    }

    /// Read an RFC 3339 date and time.
    pub fn from_rfc3339(text: &str) -> (moment: Option<Moment>)
        ensures
            moment == rfc3339_moment(text@),
            match moment {
                Some(at) => at.is_valid(),
                None => true,
            },
    {
        match read_rfc3339(text) {
            Some((secs, nanos)) => Some(Moment { secs, nanos }),
            None => None,
        }
    }

    /// Whether at least `seconds` lie between `earlier` and this moment.
    pub fn is_at_least_after(self, earlier: Moment, seconds: u32) -> (yes: bool)
        requires
            self.is_regular(),
            earlier.is_regular(),
        ensures
            yes == (self.total_nanos() - earlier.total_nanos() >= seconds * (
            NANOS_PER_SECOND as int)),
    {
        let gap: i64 = self.secs - earlier.secs;
        let wanted: i64 = seconds as i64;
        gap > wanted || (gap == wanted && self.nanos >= earlier.nanos)
    }
}

/// Two moments are equal, or one of them comes after the other.
pub proof fn moments_are_ordered(a: Moment, b: Moment, c: Moment)
    ensures
        a == b || a.after(b) || b.after(a),
        !(a.after(b) && b.after(a)),
        a.after(b) && b.after(c) ==> a.after(c),
{
}

} // verus!
