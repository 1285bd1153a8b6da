//! What can go wrong.
use vstd::prelude::*;

verus! {

/// An error of the library.
#[derive(Debug)]
pub enum OpenMcpGdbError {
    /// The configuration breaks the rule that the message names.
    InvalidConfig(String),
    /// A request to the debugger failed, with the message of the failure.
    Backend(String),
}

} // verus!
