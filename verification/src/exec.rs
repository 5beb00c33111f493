//! Running Typst: what to run, what a run gave, and the choice of the binary
//! from the outcome of a resolution.

use vstd::prelude::*;
use crate::resolve::{ResolveOptions, ResolveResult};

verus! {

/// What to run: the arguments, in a project, with a required Typst version.
#[derive(Debug)]
pub struct ExecOptions {
    pub project_root: String,
    pub args: Vec<String>,
    pub required_version: String,
}

/// The outcome of a run.
#[derive(Debug)]
pub struct ExecResult {
    /// The exit code, `-1` when the process had none.
    pub exit_code: i32,
    pub stdout: String,
    pub stderr: String,
    pub duration_ms: u64,
}

/// Errors of running Typst.
#[derive(Debug)]
pub enum ExecError {
    /// No binary of the required version was found.
    TypstNotResolved { required_version: String },
    /// The binary could not be started: the system's message.
    TypstExecFailed(String),
}

/// The resolution a run asks for: the run's version and project, the cache
/// not bypassed.
pub fn resolve_options_for(options: &ExecOptions) -> (r: ResolveOptions)
    ensures
        r.required_version@ == options.required_version@,
        r.project_root@ == options.project_root@,
        !r.force_refresh,
{
    ResolveOptions {
        required_version: options.required_version.clone(),
        project_root: options.project_root.clone(),
        force_refresh: false,
    }
}

/// The binary to run after a resolution: the path of the one found, or
/// `TypstNotResolved` with the required version.
pub fn resolved_binary(result: ResolveResult) -> (r: Result<String, ExecError>)
    ensures
        match result {
            ResolveResult::Cached(info) => r matches Ok(p) && p == info.path,
            ResolveResult::Resolved(info) => r matches Ok(p) && p == info.path,
            ResolveResult::NotFound { required_version, .. } => r matches Err(
                ExecError::TypstNotResolved { required_version: v },
            ) && v == required_version,
        },
{
    match result {
        ResolveResult::Cached(info) => Ok(info.path),
        ResolveResult::Resolved(info) => Ok(info.path),
        ResolveResult::NotFound { required_version, .. } => Err(ExecError::TypstNotResolved { required_version }),
    }
}

} // verus!
