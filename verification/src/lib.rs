pub mod chars;
pub mod filter;
pub mod formatter;
pub mod monthly_tweets;
pub mod seq_facts;
pub mod tweet;

use vstd::prelude::*;

verus! {

/// Errors of the conversion pipeline.
#[derive(Debug, Clone, Copy, PartialEq, Eq, Structural)]
pub enum Error {
    /// The archive text does not hold a JSON array of records.
    InvalidArchive,
    /// A record lacks a required string field.
    MissingField,
    /// A record's timestamp cannot be read as a calendar time.
    InvalidTimestamp,
    /// A month bound is not of the form `YYYY-MM` with a month from 01 to 12.
    InvalidMonthBound,
    /// A month group holds no posts.
    EmptyGroup,
}

} // verus!
