//! Calendar dates, held as day counts so that the trailing window is plain
//! arithmetic.
//!
//! Dates travel through the ledger as opaque ISO `YYYY-MM-DD` strings. What
//! a string denotes as a calendar day is decided by chrono, behind trusted
//! wrappers: parsing yields the day's count in the proleptic Gregorian
//! calendar (day 1 is January 1 of year 1), and the clock yields the count
//! of the current UTC day.

use vstd::prelude::*;

verus! {

/// The day count that a `YYYY-MM-DD` string denotes, if it parses as a
/// calendar date; what `parse_date_days` returns.
pub uninterp spec fn parse_day_of(s: Seq<char>) -> Option<i32>;

/// Relies on `chrono::NaiveDate::parse_from_str` with format `%Y-%m-%d` and
/// on `Datelike::num_days_from_ce`: whether a string parses, and which day
/// count the parsed date has, depend on the characters alone. Day counts of
/// representable dates lie well within a hundred million either way of zero.
#[verifier::external_body]
pub(crate) fn parse_date_days(s: &str) -> (r: Option<i32>)
    ensures
        r == parse_day_of(s@),
        r is Some ==> -100_000_000 < r.unwrap() < 100_000_000,
{
    match chrono::NaiveDate::parse_from_str(s, "%Y-%m-%d") {
        Ok(d) => Some(chrono::Datelike::num_days_from_ce(&d)),
        Err(_) => None,
    }
}

/// Relies on `chrono::Utc::now` and `Datelike::num_days_from_ce`: the
/// current UTC day's count. Nothing is known of the clock beyond the range
/// of representable dates.
#[verifier::external_body]
pub(crate) fn today_days() -> (r: i32)
    ensures
        -100_000_000 < r < 100_000_000,
{
    chrono::Datelike::num_days_from_ce(&chrono::Utc::now().date_naive())
}

/// Whether a date string is rejected: true when it does not parse as a
/// `YYYY-MM-DD` calendar date, as the request layer checks before handing a
/// date to the ledger.
pub fn validate_date(date: String) -> (r: bool)
    ensures
        r == (parse_day_of(date@) is None),
{
    parse_date_days(date.as_str()).is_none()
}

} // verus!
