//! The query pipeline on plain values: classifying a comparison as a
//! status, and turning one fetch outcome — the response body or the
//! transport failure — into the registry's version or a query status.
//! The transport itself stays outside the library and hands in the
//! outcome it saw.

use vstd::prelude::*;

use crate::error::Error;
use crate::extract::{extract, spec_extract};
use crate::parse::spec_parse;
use crate::version::{cmp_version, compare, Comparison, SemanticVersion, VersionView};

verus! {

/// The comparative status of a version query; each variant carries
/// the registry's version.
#[derive(Debug, PartialEq, Eq)]
pub enum Status {
    /// The caller's version is behind the registry's.
    Behind(SemanticVersion),
    /// The caller's version equals the registry's.
    Equal(SemanticVersion),
    /// The caller's version is ahead of the registry's.
    Ahead(SemanticVersion),
}

/// Classify the caller's version against the registry's: `Behind`
/// exactly when it compares below, `Equal` exactly on equality,
/// `Ahead` exactly when it compares above; the payload is the
/// registry's version in every case.
pub fn classify(current: &SemanticVersion, registry: SemanticVersion) -> (s: Status)
    ensures
        match s {
            Status::Behind(v) => cmp_version(current@, registry@) == Comparison::Less && v
                == registry,
            Status::Equal(v) => cmp_version(current@, registry@) == Comparison::Equal && v
                == registry,
            Status::Ahead(v) => cmp_version(current@, registry@) == Comparison::Greater && v
                == registry,
        },
{
    match compare(current, &registry) {
        Comparison::Less => Status::Behind(registry),
        Comparison::Equal => Status::Equal(registry),
        Comparison::Greater => Status::Ahead(registry),
    }
}

/// The version a response body denotes: nothing extractable is a
/// `ParseFailure`, an extracted value that is not a semantic version
/// is a `VersionSyntaxError`.
pub open spec fn spec_version_of_body(body: Seq<char>) -> Result<VersionView, Error> {
    match spec_extract(body) {
        None => Err(Error::ParseFailure),
        Some(t) => match spec_parse(t) {
            None => Err(Error::VersionSyntaxError),
            Some(v) => Ok(v),
        },
    }
}

/// The registry's version from one fetch outcome: a transport failure
/// carries its cause through as a `RequestFailure`; a body is read by
/// extraction and parsing.
pub fn version_from_fetch(fetch: Result<String, String>) -> (r: Result<SemanticVersion, Error>)
    ensures
        match fetch {
            Err(cause) => r matches Err(e) && e == Error::RequestFailure(cause),
            Ok(body) => match r {
                Ok(v) => spec_version_of_body(body@) == Ok::<VersionView, Error>(v@),
                Err(e) => spec_version_of_body(body@) == Err::<VersionView, Error>(e),
            },
        },
{
    match fetch {
        Err(cause) => Err(Error::RequestFailure(cause)),
        Ok(body) => match extract(body.as_str()) {
            Err(_) => Err(Error::ParseFailure),
            Ok(t) => match SemanticVersion::parse(t) {
                Err(_) => Err(Error::VersionSyntaxError),
                Ok(v) => Ok(v),
            },
        },
    }
}

/// The status of the caller's version under one fetch outcome: the
/// registry's version is read from the outcome as in
/// `version_from_fetch`, and on success the caller's version is
/// classified against it.
pub fn finish_query(current: &SemanticVersion, fetch: Result<String, String>) -> (r: Result<
    Status,
    Error,
>)
    ensures
        match fetch {
            Err(cause) => r matches Err(e) && e == Error::RequestFailure(cause),
            Ok(body) => match spec_version_of_body(body@) {
                Err(e2) => r matches Err(e) && e == e2,
                Ok(reg) => r matches Ok(s) && (match s {
                    Status::Behind(v) => cmp_version(current@, reg) == Comparison::Less && v@
                        == reg,
                    Status::Equal(v) => cmp_version(current@, reg) == Comparison::Equal && v@
                        == reg,
                    Status::Ahead(v) => cmp_version(current@, reg) == Comparison::Greater && v@
                        == reg,
                }),
            },
        },
{
    match version_from_fetch(fetch) {
        Err(e) => Err(e),
        Ok(registry) => Ok(classify(current, registry)),
    }
}

} // verus!
