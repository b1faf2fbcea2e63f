//! Rendering a query outcome as one human-readable report line. Every
//! error renders as the same generic failure message: the report is
//! deliberately coarser than the error taxonomy.

use vstd::prelude::*;

use crate::error::Error;
use crate::pipeline::Status;
use crate::render::spec_render;
use crate::version::SemanticVersion;

verus! {

/// The report line for each outcome: one message for each status,
/// with the registry's version rendered canonically, and one generic
/// message for every failure.
pub open spec fn spec_report(version_text: Seq<char>, outcome: Result<Status, Error>) -> Seq<
    char,
> {
    match outcome {
        Ok(Status::Equal(v)) => "Running the latest papyrus version "@ + spec_render(v@),
        Ok(Status::Behind(v)) => "The current papyrus version "@ + version_text
            + " is old, please update to "@ + spec_render(v@),
        Ok(Status::Ahead(v)) => "The current papyrus version "@ + version_text
            + " is ahead of the crates.io version "@ + spec_render(v@),
        Err(_) => "Failed to query crates.io"@,
    }
}

/// Render the report line for a query outcome, given the version text
/// the caller supplied.
pub fn render_report(version_text: &str, outcome: &Result<Status, Error>) -> (r: String)
    ensures
        r@ == spec_report(version_text@, *outcome),
{
    match outcome {
        Ok(Status::Equal(v)) => {
            let mut out = String::from_str("Running the latest papyrus version ");
            let t = v.to_text();
            out.append(t.as_str());
            proof {
                assert(out@ =~= spec_report(version_text@, *outcome));
            }
            out
        },
        Ok(Status::Behind(v)) => {
            let mut out = String::from_str("The current papyrus version ");
            out.append(version_text);
            out.append(" is old, please update to ");
            let t = v.to_text();
            out.append(t.as_str());
            proof {
                assert(out@ =~= spec_report(version_text@, *outcome));
            }
            out
        },
        Ok(Status::Ahead(v)) => {
            let mut out = String::from_str("The current papyrus version ");
            out.append(version_text);
            out.append(" is ahead of the crates.io version ");
            let t = v.to_text();
            out.append(t.as_str());
            proof {
                assert(out@ =~= spec_report(version_text@, *outcome));
            }
            out
        },
        Err(_) => String::from_str("Failed to query crates.io"),
    }
}

} // verus!
