//! Calendar dates, read by the `chrono` crate.
//!
//! The library holds a date as its day number in the proleptic Gregorian
//! calendar, counted from 1 January of the year 1 as day 1. Day numbers grow
//! with the date, so dates are ordered as their numbers are.

use vstd::prelude::*;

verus! {

#[verifier::external_type_specification]
#[verifier::external_body]
pub struct ExParseError(chrono::ParseError);

/// The day number of the date that `chrono::NaiveDate::parse_from_str` reads
/// from `value` under `format`; none where it reads no date.
pub uninterp spec fn parsed_date(value: Seq<char>, format: Seq<char>) -> Option<i32>;

/// Reads a date with `chrono::NaiveDate::parse_from_str` and hands back its
/// day number, `chrono::Datelike::num_days_from_ce`, or chrono's error.
///
/// The contract claims no more than that the outcome is a function of the
/// two texts: the function `parsed_date`. Which texts are dates under which
/// formats is chrono's to say.
#[verifier::external_body]
pub(crate) fn read_date(value: &str, format: &str) -> (read: Result<i32, chrono::ParseError>)
    ensures
        match read {
            Ok(days) => parsed_date(value@, format@) == Some(days),
            Err(_) => parsed_date(value@, format@) is None,
        },
{
    match chrono::NaiveDate::parse_from_str(value, format) {
        Ok(date) => Ok(chrono::Datelike::num_days_from_ce(&date)),
        Err(error) => Err(error),
    }
}

} // verus!
