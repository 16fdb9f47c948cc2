//! What can go wrong in a run, and what the run does about it.

use crate::extract::ExtractError;
use vstd::prelude::*;

verus! {

/// Something that went wrong in a run.
#[derive(Debug, Clone, Copy, PartialEq, Eq)]
pub enum Failure {
    /// The document could not be fetched or decoded.
    Fetch,
    /// A marker is missing from the document.
    MarkerSearch(ExtractError),
    /// The header of a block denotes no number.
    HeaderParse,
    /// The output directory could not be created because it is there already.
    DirectoryExists,
    /// The output directory could not be created, for another reason.
    DirectoryCreation,
    /// The output file could not be created or written.
    FileWrite,
}

/// What a run does about a failure.
#[derive(Debug, Clone, Copy, PartialEq, Eq)]
pub enum Response {
    /// Report the failure and end the run at once, with nothing more written.
    Abort,
    /// Report the failure and go on.
    Report,
    /// Go on without a word.
    Ignore,
}

/// The response to each failure. Only what leaves the run without a document,
/// without a region to read, or without an output file ends it. A header
/// that denotes no number is reported and its block stays in the output as
/// the sentinel record. A directory that cannot be created is reported,
/// unless it is there already, and the file is tried all the same.
pub open spec fn response_to(failure: Failure) -> Response {
    match failure {
        Failure::Fetch => Response::Abort,
        Failure::MarkerSearch(_) => Response::Abort,
        Failure::HeaderParse => Response::Report,
        Failure::DirectoryExists => Response::Ignore,
        Failure::DirectoryCreation => Response::Report,
        Failure::FileWrite => Response::Abort,
    }
}

/// The response of a run to `failure`.
pub fn respond(failure: Failure) -> (response: Response)
    ensures
        response == response_to(failure),
{
    match failure {
        Failure::Fetch | Failure::MarkerSearch(_) | Failure::FileWrite => Response::Abort,
        Failure::HeaderParse | Failure::DirectoryCreation => Response::Report,
        Failure::DirectoryExists => Response::Ignore,
    }
}

} // verus!
