use vstd::prelude::*;

verus! {

/// Failures of the analysis and of queries on it.
#[derive(PartialEq, Eq, Structural, Clone, Copy, Debug)]
pub enum AnalysisError {
    /// A malformed segment set at pipeline entry.
    InvalidInput,
    /// A stage ran without the output of a stage it depends on.
    StageDependencyError,
    /// A session already has a job that has not finished.
    JobAlreadyRunning,
    /// No job was ever started for the session.
    NotFound,
    /// The session's job has not completed.
    NotReady,
}

} // verus!
