//! Calendar questions: which seconds of the Unix epoch can be represented,
//! on which day a second falls, and how a day is written.
//!
//! Days are counted from 1970-01-01, which is day 0, and no time zone is
//! applied: a second belongs to the day that holds it in UTC. Whether a
//! second can be represented, and how its day is written, is decided by the
//! `time` crate.
use time::format_description::parse_borrowed;
use time::OffsetDateTime;
use vstd::prelude::*;

verus! {

/// The number of seconds in a day.
pub const SECONDS_PER_DAY: i64 = 86_400;

/// Whether `OffsetDateTime::from_unix_timestamp` accepts `timestamp`.
pub uninterp spec fn unix_timestamp_accepted(timestamp: i64) -> bool;

/// What `OffsetDateTime::format` writes for the instant `timestamp` seconds
/// after the Unix epoch under the format description `description`, where
/// the instant can be represented, the description is valid and the
/// formatting succeeds.
pub uninterp spec fn formatted_unix_timestamp(timestamp: i64, description: Seq<char>) -> Option<
    Seq<char>,
>;

/// Whether the `time` crate can represent the instant `timestamp` seconds
/// after the Unix epoch.
///
/// Trusted: calls `OffsetDateTime::from_unix_timestamp` and reports whether
/// it returned `Ok`; the contract only gives that answer a name.
#[verifier::external_body]
pub(crate) fn accepts_unix_timestamp(timestamp: i64) -> (accepted: bool)
    ensures
        accepted == unix_timestamp_accepted(timestamp),
{
    OffsetDateTime::from_unix_timestamp(timestamp).is_ok()
}

/// Writes the instant `timestamp` seconds after the Unix epoch, in UTC, as
/// `description` lays it out.
///
/// Trusted: calls `OffsetDateTime::from_unix_timestamp`, parses
/// `description` with `format_description::parse_borrowed` (version 1) and
/// calls `OffsetDateTime::format`. The result is `None` as soon as one of
/// the three fails; the contract only gives the result a name.
#[verifier::external_body]
pub(crate) fn format_unix_timestamp(timestamp: i64, description: &str) -> (text: Option<String>)
    ensures
        match text {
            Some(t) => formatted_unix_timestamp(timestamp, description@) == Some(t@),
            None => formatted_unix_timestamp(timestamp, description@) is None,
        },
{
    let moment = OffsetDateTime::from_unix_timestamp(timestamp).ok()?;
    let items = parse_borrowed::<1>(description).ok()?;
    moment.format(&items).ok()
}

/// The day on which the second `timestamp` falls.
pub open spec fn day_of(timestamp: int) -> int {
    timestamp / 86_400
}

/// Computes `day_of`.
pub fn day_number(timestamp: i64) -> (day: i64)
    ensures
        day == day_of(timestamp as int),
{
    if timestamp >= 0 {
        timestamp / SECONDS_PER_DAY
    } else {
        (timestamp + 1) / SECONDS_PER_DAY - 1
    }
}

} // verus!
