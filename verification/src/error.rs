//! The library's error type.

use vstd::prelude::*;

verus! {

/// Errors of the library, by the part that raised them.
#[derive(Debug, PartialEq, Eq)]
pub enum AgentCorpError {
    /// An agent-level rule was broken.
    Agent { message: String },
    /// A tool could not run.
    Tool { tool: String, message: String },
    /// A session could not be read.
    Session { message: String },
    /// Something named does not exist.
    NotFound { what: String },
}

} // verus!
