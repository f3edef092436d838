//! The two places where the library leans on the clock and the calendar:
//! the time of day, and a point in time written out after a pattern.

use std::fmt::Write;
use vstd::prelude::*;
use crate::project::Timestamp;

verus! {

/// The point in time `secs` seconds and `nanos` nanoseconds after the Unix
/// epoch, in UTC, written out after `pattern`; `None` for a point in time
/// that the calendar does not reach, and for a pattern that cannot be
/// written.
pub uninterp spec fn formatted_time(secs: int, nanos: int, pattern: Seq<char>) -> Option<Seq<char>>;

/// The system clock, read through `std::time::SystemTime::now` and taken
/// as a point in time by `chrono::DateTime::from_timestamp`; `None` where
/// the clock stands before the Unix epoch or beyond the calendar.
///
/// Nothing is claimed of the time that comes back, nor that one does.
#[verifier::external_body]
pub(crate) fn current_time() -> (now: Option<Timestamp>) {
    let since = std::time::SystemTime::now().duration_since(std::time::UNIX_EPOCH).ok()?;
    let secs = i64::try_from(since.as_secs()).ok()?;
    let now = chrono::DateTime::from_timestamp(secs, since.subsec_nanos())?;
    Some(Timestamp { secs: now.timestamp(), nanos: now.timestamp_subsec_nanos() })
}

/// The time `t` as `chrono::DateTime::format` writes it after `pattern`.
///
/// The claim is that the text depends on the seconds, the nanoseconds and
/// the pattern alone, so that `formatted_time` names it; `None` where
/// `chrono::DateTime::from_timestamp` refuses the time, and where writing
/// after the pattern fails.
#[verifier::external_body]
pub(crate) fn time_text(t: Timestamp, pattern: &str) -> (r: Option<String>)
    ensures
        r is Some <==> formatted_time(t.secs as int, t.nanos as int, pattern@) is Some,
        r is Some ==> r->0@ == formatted_time(t.secs as int, t.nanos as int, pattern@)->0,
{
    let mut text = String::new();
    match chrono::DateTime::from_timestamp(t.secs, t.nanos) {
        Some(date) => match write!(text, "{}", date.format(pattern)) {
            Ok(()) => Some(text),
            Err(_) => None,
        },
        None => None,
    }
}

} // verus!
