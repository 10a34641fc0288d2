//! Lengths of time and instants as the pages print them, in chrono's formats.

use vstd::prelude::*;
use crate::durations::{TimeSpan, MAX_SPAN_NANOS};
use crate::models::Timestamp;

verus! {

/// The ISO 8601 text that `chrono::TimeDelta`'s `Display` gives for the length
/// `secs` seconds plus `nanos` nanoseconds (such as `PT3.5S`).
pub uninterp spec fn time_delta_text(secs: i64, nanos: u32) -> Seq<char>;

/// The RFC 3339 text that `chrono::DateTime::<Utc>::to_rfc3339` gives for the
/// instant `secs` seconds plus `nanos` nanoseconds after the Unix epoch.
pub uninterp spec fn rfc3339_text(secs: i64, nanos: u32) -> Seq<char>;

/// Calls `chrono::TimeDelta::new(secs, nanos)` and formats the length with
/// `Display`. `new` gives `None` only when `nanos` is a second or more or the length
/// lies beyond `i64::MAX` milliseconds either way, which `requires` rules out. The
/// contract claims only that the text depends on the two arguments alone.
#[verifier::external_body]
fn time_delta_to_text(secs: i64, nanos: u32) -> (r: String)
    requires
        nanos < 1_000_000_000,
        -MAX_SPAN_NANOS <= secs * 1_000_000_000 + nanos <= MAX_SPAN_NANOS,
    ensures
        r@ == time_delta_text(secs, nanos),
{
    match chrono::TimeDelta::new(secs, nanos) {
        Some(d) => d.to_string(),
        None => String::new(),
    }
}

/// Calls `chrono::DateTime::<Utc>::from_timestamp(secs, nanos)` and, when it gives
/// an instant, formats it with `to_rfc3339`. The contract claims that the text
/// depends on the two arguments alone; it leaves unsaid for which arguments
/// `from_timestamp` gives an instant (those outside chrono's calendar range, or with
/// an invalid nanosecond count, give none).
#[verifier::external_body]
fn utc_rfc3339(secs: i64, nanos: u32) -> (r: Option<String>)
    ensures
        r matches Some(t) ==> t@ == rfc3339_text(secs, nanos),
{
    match chrono::DateTime::<chrono::Utc>::from_timestamp(secs, nanos) {
        Some(t) => Some(t.to_rfc3339()),
        None => None,
    }
}

/// A length of time in ISO 8601, as `TimeDelta` prints it.
pub fn iso8601_duration(d: &TimeSpan) -> (r: String)
    ensures
        r@ == time_delta_text((d@ / 1_000_000_000) as i64, (d@ % 1_000_000_000) as u32),
{
    let (secs, nanos) = d.seconds_and_nanos();
    let t = d.total_nanos();
    assert(secs * 1_000_000_000 + nanos == t);
    time_delta_to_text(secs, nanos)
}

impl Timestamp {
    /// The instant in RFC 3339, when chrono can represent it.
    pub fn to_rfc3339(&self) -> (r: Option<String>)
        ensures
            r matches Some(t) ==> t@ == rfc3339_text(self.secs, self.nanos),
    {
        utc_rfc3339(self.secs, self.nanos)
    }
}

} // verus!
