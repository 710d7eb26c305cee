//! Calendar years, read from timestamps and from the clock.

use vstd::prelude::*;

verus! {

/// The error that chrono reports for a timestamp it cannot parse.
#[verifier::external_type_specification]
#[verifier::external_body]
pub struct ExParseError(chrono::ParseError);

/// The calendar year that an RFC 3339 timestamp carries, in the timestamp's
/// own offset; `None` where `text` is no RFC 3339 timestamp.
pub uninterp spec fn rfc3339_year(text: Seq<char>) -> Option<int>;

/// Parses `text` as an RFC 3339 timestamp and hands out its year.
///
/// Trusted: `chrono::DateTime::parse_from_rfc3339`, followed by
/// `chrono::Datelike::year` on what it parsed, is taken to depend on the
/// characters of `text` alone. Which texts parse, and to what year, is left
/// to chrono.
#[verifier::external_body]
pub(crate) fn parse_year(text: &str) -> (parsed: Result<i32, chrono::ParseError>)
    ensures
        parsed matches Ok(year) ==> rfc3339_year(text@) == Some(year as int),
        parsed is Err ==> rfc3339_year(text@) is None,
{
    match chrono::DateTime::parse_from_rfc3339(text) {
        Ok(moment) => Ok(chrono::Datelike::year(&moment)),
        Err(error) => Err(error),
    }
}

/// The calendar year of the present moment, in UTC.
///
/// Trusted: `chrono::Utc::now` reads the clock, so nothing is claimed of the
/// result.
#[verifier::external_body]
pub(crate) fn current_year() -> u64 {
    chrono::Datelike::year(&chrono::Utc::now()) as u64
}

} // verus!
