//! What the operating system reports back: failed operations and finished tools.
use vstd::prelude::*;

verus! {

/// An operation of the operating system that failed.
#[derive(Debug, Clone)]
pub struct IoFailure {
    /// The thing operated on does not exist.
    pub not_found: bool,
    /// The system's own words.
    pub message: String,
}

/// A helper program that ran to its end.
#[derive(Debug, Clone)]
pub struct ToolOutput {
    /// It exited with status zero.
    pub success: bool,
    /// All it wrote to its standard output.
    pub stdout: Vec<u8>,
    /// All it wrote to its standard error.
    pub stderr: Vec<u8>,
}

} // verus!
