//! The error taxonomy of a query: transport failure, a response
//! without the version field, and version text that does not parse.

use vstd::prelude::*;

verus! {

/// Errors in requesting or interpreting a query.
#[derive(Debug, PartialEq, Eq)]
pub enum Error {
    /// The response text did not contain an extractable version field.
    ParseFailure,
    /// A version string, supplied or extracted, is not a valid
    /// semantic version.
    VersionSyntaxError,
    /// The transport failed; the underlying cause is carried as text.
    RequestFailure(String),
}

} // verus!
