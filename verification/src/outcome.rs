//! Typed outcomes of external tool invocations, and the error taxonomy the
//! pipeline surfaces. Every error carries the underlying tool's diagnostic
//! text verbatim; nothing is mapped to a generic message.
use vstd::prelude::*;

verus! {

/// Why a pipeline step failed.
#[derive(Debug)]
pub enum PipelineError {
    /// The tool could not be started: missing or not executable. Surfaced
    /// immediately; usually an absent external dependency.
    Spawn(String),
    /// The process started but could not be waited on (died abnormally).
    Wait(String),
    /// The tool ran and exited non-zero; carries its diagnostic text.
    ToolFailure(String),
    /// A collaborator's output was malformed or missing what was promised.
    Parse(String),
    /// An input was missing or a precondition was violated.
    Validation(String),
}

impl PipelineError {
    /// The diagnostic text the error carries.
    pub open spec fn text_spec(&self) -> Seq<char> {
        match self {
            PipelineError::Spawn(t) => t@,
            PipelineError::Wait(t) => t@,
            PipelineError::ToolFailure(t) => t@,
            PipelineError::Parse(t) => t@,
            PipelineError::Validation(t) => t@,
        }
    }

    /// A copy of the diagnostic text the error carries.
    pub fn text(&self) -> (r: String)
        ensures
            r@ == self.text_spec(),
    {
        match self {
            PipelineError::Spawn(t) => t.clone(),
            PipelineError::Wait(t) => t.clone(),
            PipelineError::ToolFailure(t) => t.clone(),
            PipelineError::Parse(t) => t.clone(),
            PipelineError::Validation(t) => t.clone(),
        }
    }
}

/// What one external process invocation came to: captured output streams and
/// how it exited. Owned by the caller that spawned the process.
pub struct ProcessOutcome {
    /// The process exited cleanly with status zero.
    pub success: bool,
    /// Captured standard output.
    pub stdout: String,
    /// Captured standard error (the diagnostic stream).
    pub stderr: String,
    /// The exit code, when the process exited with one.
    pub exit_code: Option<i32>,
}

/// Builds the outcome of a wait: success holds exactly when the process
/// exited with code zero.
pub fn outcome_from_wait(exit_code: Option<i32>, stdout: String, stderr: String) -> (o:
    ProcessOutcome)
    ensures
        o.success == (exit_code == Some(0i32)),
        o.stdout@ == stdout@,
        o.stderr@ == stderr@,
        o.exit_code == exit_code,
{
    let success = match exit_code {
        Some(c) => c == 0,
        None => false,
    };
    ProcessOutcome { success, stdout, stderr, exit_code }
}

/// Treats a clean non-zero exit as a hard failure carrying the tool's
/// diagnostic text; a zero exit passes.
pub fn outcome_into_result(o: ProcessOutcome) -> (r: Result<(), PipelineError>)
    ensures
        o.success ==> r is Ok,
        !o.success ==> (r matches Err(e) && e matches PipelineError::ToolFailure(t) && t@
            == o.stderr@),
{
    if o.success {
        Ok(())
    } else {
        Err(PipelineError::ToolFailure(o.stderr))
    }
}

} // verus!
