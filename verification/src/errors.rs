//! Error taxonomy of the pipeline: configuration problems found at startup,
//! failures reported by an external provider, and malformed arguments.

use vstd::prelude::*;

verus! {

/// An error of the retrieval pipeline.
///
/// `Configuration` marks a missing required credential or an absent
/// collection that cannot be created; `Provider` carries the detail text of a
/// non-success response from an external service; `Argument` marks
/// length-mismatched batch inputs.
#[derive(Debug)]
pub enum RagError {
    Configuration(String),
    Provider(String),
    Argument(String),
}

impl RagError {
    /// A human-readable description of the error.
    pub fn message(&self) -> (r: &str)
        ensures
            r@ == self.detail(),
    {
        match self {
            RagError::Configuration(d) => d.as_str(),
            RagError::Provider(d) => d.as_str(),
            RagError::Argument(d) => d.as_str(),
        }
    }

    /// The detail text carried by the error, whatever its kind.
    pub open spec fn detail(&self) -> Seq<char> {
        match self {
            RagError::Configuration(d) => d@,
            RagError::Provider(d) => d@,
            RagError::Argument(d) => d@,
        }
    }
}

} // verus!
