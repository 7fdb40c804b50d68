//! Calendar dates. A date cell is strict `YYYY-MM-DD` text; inside the
//! pipeline a date lives as its proleptic-Gregorian day count, so that a
//! completion delay is a plain subtraction. Parsing is delegated to chrono.

use vstd::prelude::*;
use crate::text::{seq_is_blank, is_blank, str_eq};
use crate::parse::na_seq;

verus! {

/// Day counts coming out of chrono stay within this magnitude.
pub const DATE_DAY_LIMIT: i32 = 100_000_000;

/// The day count that `YYYY-MM-DD` text denotes, if any: what chrono's
/// parser accepts, counted in days from the common era.
pub uninterp spec fn date_days_of(s: Seq<char>) -> Option<i32>;

/// Relies on `chrono::NaiveDate::parse_from_str` with the format `%Y-%m-%d`
/// and on `chrono::Datelike::num_days_from_ce`: the parse is a function of
/// the text alone, and every `NaiveDate` lies within about 262,000 years of
/// the common era, so its day count stays within `DATE_DAY_LIMIT`.
#[verifier::external_body]
fn parse_date_days(s: &str) -> (r: Option<i32>)
    ensures
        r == date_days_of(s@),
        r matches Some(d) ==> -DATE_DAY_LIMIT <= d <= DATE_DAY_LIMIT,
{
    match chrono::NaiveDate::parse_from_str(s, "%Y-%m-%d") {
        Ok(d) => Some(chrono::Datelike::num_days_from_ce(&d)),
        Err(_) => None,
    }
}

/// What a raw date cell denotes: nothing when blank or `N/A`, else the day
/// count of the parsed date (nothing again when the text is not a date).
pub open spec fn spec_validate_date(s: Seq<char>) -> Option<i32> {
    if seq_is_blank(s) || s == na_seq() {
        None
    } else {
        date_days_of(s)
    }
}

/// Reads a date cell into a day count; `None` for an absent or malformed
/// date.
pub fn validate_date(date_str: &str) -> (r: Option<i32>)
    ensures
        r == spec_validate_date(date_str@),
        r matches Some(d) ==> -DATE_DAY_LIMIT <= d <= DATE_DAY_LIMIT,
{
    proof {
        reveal_strlit("N/A");
        assert("N/A"@ =~= na_seq());
    }
    if is_blank(date_str) || str_eq(date_str, "N/A") {
        return None;
    }
    parse_date_days(date_str)
}

} // verus!
