//! What can go wrong.

use vstd::prelude::*;

verus! {

/// The failures of resolving and of ending a process.
#[derive(Debug)]
pub enum Errors {
    /// No process was looked for. The library itself reports a process
    /// that is not there as `FailedToKill`.
    NoProcessFound,
    /// The process could not be ended: it is not there, or the operating
    /// system refused.
    FailedToKill,
    /// The window manager's query tool could not be run, or its output
    /// could not be had; with the reason in words.
    HprctlError(String),
    /// The output of the query tool is not JSON, or is JSON but no array of
    /// clients that each have a title; with the reason as `serde_json`
    /// words it.
    SerdeParseError(serde_json::Error),
}

} // verus!
