use vstd::prelude::*;

verus! {

/// Errors reported by the sandbox builders.
#[derive(Debug, Clone, PartialEq, Eq)]
pub enum Error {
    /// A path given with an exception does not exist or cannot be resolved.
    InvalidPath(String),
    /// An operating-system call failed; holds the raw error number.
    Io(i32),
    /// Platform-specific activation failure, with the platform's message.
    ActivationFailed(String),
}

} // verus!
