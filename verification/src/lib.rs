//! Yearly listening statistics from a music-history export.
//!
//! The library selects the history records of one year, tells the records
//! that already name artist and track from those that only link to a video,
//! groups the linked identifiers into lookup batches, normalizes artist
//! names, and ranks artists and tracks by how often they were played.

use vstd::prelude::*;
use crate::args::{ArgError, Flag, DEFAULT_MAX};
use crate::number::{decimal_value, parse_number};

pub mod args;
pub mod batch;
pub mod normalize;
pub mod number;
pub mod parser;
pub mod pipeline;
pub mod rank;
pub mod render;
pub mod substring;
pub mod text;
pub mod timestamp;

verus! {

/// What one run works with.
#[derive(Clone, Copy, Debug, PartialEq, Eq)]
pub struct Args<'a> {
    /// The credential that the lookup service asks for.
    pub api_key: &'a str,
    /// The path of the history export.
    pub input_file: &'a str,
    /// The calendar year whose records count.
    pub year: u64,
    /// How many entries each ranking shows.
    pub max: u64,
}

/// The number that an option gives: `fallback` where the option is absent,
/// the value it spells where it is a number.
pub open spec fn option_value(given: Option<&str>, fallback: u64) -> Option<u64> {
    match given {
        None => Some(fallback),
        Some(text) => decimal_value(text@),
    }
}

impl<'a> Args<'a> {
    /// Puts together what a run works with. Credential and path are taken as
    /// they are. The year is the one given, or `current_year`; the number of
    /// entries is the one given, or ten. A year or a number of entries that
    /// is no number is an error, the year's first.
    pub fn resolve(
        api_key: &'a str,
        input_file: &'a str,
        year: Option<&str>,
        max: Option<&str>,
        current_year: u64,
    ) -> (resolved: Result<Args<'a>, ArgError>)
        ensures
            match resolved {
                Ok(args) => {
                    &&& args.api_key@ == api_key@
                    &&& args.input_file@ == input_file@
                    &&& option_value(year, current_year) == Some(args.year)
                    &&& option_value(max, DEFAULT_MAX) == Some(args.max)
                },
                Err(error) => if option_value(year, current_year) is None {
                    error == ArgError::NotNumeric(Flag::Year)
                } else {
                    option_value(max, DEFAULT_MAX) is None && error == ArgError::NotNumeric(
                        Flag::Max,
                    )
                },
            },
    {
        let year = match year {
            None => current_year,
            Some(text) => match parse_number(text) {
                Some(number) => number,
                None => {
                    return Err(ArgError::NotNumeric(Flag::Year));
                },
            },
        };
        let max = match max {
            None => DEFAULT_MAX,
            Some(text) => match parse_number(text) {
                Some(number) => number,
                None => {
                    return Err(ArgError::NotNumeric(Flag::Max));
                },
            },
        };
        Ok(Args { api_key, input_file, year, max })
    }
}

} // verus!
