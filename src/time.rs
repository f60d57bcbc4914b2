//! Instants as whole seconds since the Unix epoch, and the two calendar
//! computations that the library takes from chrono.

use vstd::prelude::*;

verus! {

/// The instant, in seconds since the epoch, that an RFC 3339 text denotes,
/// if it is one.
pub uninterp spec fn rfc3339_seconds(s: Seq<char>) -> Option<i64>;

/// The instant `months` calendar months after `secs` (UTC), the day of the
/// month clamped to the end of a shorter month, if it can be represented.
pub uninterp spec fn months_after(secs: i64, months: u32) -> Option<i64>;

/// Relies on chrono's `DateTime::parse_from_rfc3339` and `DateTime::timestamp`:
/// the instant of an RFC 3339 text in whole seconds, or none where it does
/// not parse.
#[verifier::external_body]
pub(crate) fn parse_rfc3339_seconds(s: &str) -> (r: Option<i64>)
    ensures
        r == rfc3339_seconds(s@),
{
    match chrono::DateTime::parse_from_rfc3339(s) {
        Ok(d) => Some(d.timestamp()),
        Err(_) => None,
    }
}

/// Relies on chrono's `DateTime::<Utc>::from_timestamp` and
/// `DateTime::checked_add_months`: the instant some calendar months later,
/// or none where either step is out of range.
#[verifier::external_body]
pub(crate) fn add_months(secs: i64, months: u32) -> (r: Option<i64>)
    ensures
        r == months_after(secs, months),
{
    match chrono::DateTime::from_timestamp(secs, 0) {
        Some(d) => match d.checked_add_months(chrono::Months::new(months)) {
            Some(e) => Some(e.timestamp()),
            None => None,
        },
        None => None,
    }
}

} // verus!
