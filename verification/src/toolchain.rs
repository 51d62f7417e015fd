//! The interface to the native compiler: what one invocation is asked to do
//! and what it reports back.
//!
//! The surrounding program performs the actual invocation; the library
//! decides what is handed to it and folds what it reports into the run's
//! results. A diagnostic is carried verbatim: compilation failures are
//! deterministic for fixed inputs, so they are surfaced, never retried or
//! masked.

use vstd::prelude::*;
use crate::discovery::SourceFile;

verus! {

/// One compiler invocation: compile `files` with `flags` and archive the
/// results into the static artifact named `artifact`.
pub struct CompileRequest {
    pub files: Vec<SourceFile>,
    pub flags: Vec<String>,
    pub artifact: String,
}

/// What the toolchain reported for one invocation.
#[derive(Debug)]
pub enum CompileOutcome {
    /// The artifact was produced.
    Succeeded,
    /// The toolchain failed; its diagnostic text, verbatim.
    Failed { diagnostic: String },
}

/// Why a stage failed.
#[derive(Debug)]
pub enum FailureCause {
    /// An entry under this root existed but could not be read.
    UnreadableNode { root: Vec<String> },
    /// The stage requires a source revision define and none was supplied.
    RevisionUnavailable,
    /// The toolchain rejected the stage; its diagnostic, verbatim.
    Toolchain { diagnostic: String },
}

/// The outcome of one stage: the artifact it produced, or the stage's name
/// together with what went wrong.
#[derive(Debug)]
pub enum BuildResult {
    Artifact { name: String },
    Failure { stage: String, cause: FailureCause },
}

impl BuildResult {
    /// The result is a produced artifact.
    pub open spec fn is_artifact(&self) -> bool {
        self matches BuildResult::Artifact { .. }
    }

    /// The result is the artifact named `name`.
    pub open spec fn is_artifact_named(&self, name: Seq<char>) -> bool {
        self matches BuildResult::Artifact { name: n } && n@ == name
    }
}

/// Folds what the toolchain reported for the stage named `stage` into that
/// stage's result: success yields the artifact `artifact`; failure yields
/// the stage's name and the diagnostic, verbatim.
pub fn stage_result(stage: &String, artifact: &String, outcome: CompileOutcome) -> (r: BuildResult)
    ensures
        outcome is Succeeded ==> (r matches BuildResult::Artifact { name } && name@ == artifact@),
        outcome matches CompileOutcome::Failed { diagnostic } ==> (r matches BuildResult::Failure {
            stage: s,
            cause: FailureCause::Toolchain { diagnostic: d },
        } && s@ == stage@ && d@ == diagnostic@),
{
    match outcome {
        CompileOutcome::Succeeded => BuildResult::Artifact { name: artifact.clone() },
        CompileOutcome::Failed { diagnostic } => BuildResult::Failure {
            stage: stage.clone(),
            cause: FailureCause::Toolchain { diagnostic },
        },
    }
}

} // verus!
