use vstd::prelude::*;

verus! {

/// Why a table could not be built or a sequence could not be decoded.
#[derive(Clone, Copy, Debug, PartialEq, Eq, Structural)]
pub enum AnalyzerError {
    /// A profile does not have 12 entries, or a transition vector does not have 24.
    Shape,
    /// A decode was asked for on a sequence without observations.
    EmptyObservation,
}

impl AnalyzerError {
    /// A short description of the error, for messages.
    pub fn message(&self) -> (res: String)
        ensures
            *self == AnalyzerError::Shape ==> res@ == "a profile needs 12 entries and a transition vector 24"@,
            *self == AnalyzerError::EmptyObservation ==> res@ == "the observation sequence is empty"@,
    {
        match self {
            AnalyzerError::Shape => "a profile needs 12 entries and a transition vector 24".to_string(),
            AnalyzerError::EmptyObservation => "the observation sequence is empty".to_string(),
        }
    }
}

} // verus!
