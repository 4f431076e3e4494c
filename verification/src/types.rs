//! Shared value types exchanged with collaborators.
use vstd::prelude::*;

use crate::auth::ValidationError;

verus! {

/// A query time range, carried as two ISO-8601 timestamp strings.
#[derive(Debug, Clone)]
pub struct TimeRange {
    /// Start time.
    pub start: String,
    /// End time.
    pub end: String,
}

impl TimeRange {
    /// Create a time range from two timestamp strings. Full timestamp
    /// validation is delegated to the collaborator that parses dates, so
    /// construction always succeeds.
    pub fn new(start: &str, end: &str) -> (r: Result<Self, ValidationError>)
        ensures
            r is Ok,
            r matches Ok(t) ==> t.start@ == start@ && t.end@ == end@,
    {
        Result::Ok(TimeRange { start: start.to_owned(), end: end.to_owned() })
    }
}

} // verus!
