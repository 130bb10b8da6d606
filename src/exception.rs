//! The policy vocabulary.
use vstd::prelude::*;

verus! {

/// One allowance against the deny-all baseline.
///
#[derive(Debug, Clone, PartialEq, Eq)]
pub enum Exception {
    /// Read access to the subtree at the path.
    Read(String),
    /// Read and write access to the subtree at the path.
    WriteAndRead(String),
    /// Read and execute access to the subtree at the path.
    ExecuteAndRead(String),
    /// Keep the named environment variable.
    Environment(String),
    /// Keep the whole environment.
    FullEnvironment,
    /// Allow network access.
    Networking,
}

impl Exception {
    /// Whether the exception names a path.
    pub open spec fn has_path(&self) -> bool {
        match self {
            Exception::Read(_) | Exception::WriteAndRead(_) | Exception::ExecuteAndRead(_) => true,
            _ => false,
        }
    }

    /// The path the exception names, if any.
    pub open spec fn path(&self) -> Seq<char> {
        match self {
            Exception::Read(p) => p@,
            Exception::WriteAndRead(p) => p@,
            Exception::ExecuteAndRead(p) => p@,
            _ => Seq::empty(),
        }
    }

    /// The path string the exception names; meaningful only if `has_path`.
    pub open spec fn path_string(&self) -> String {
        match self {
            Exception::Read(p) => *p,
            Exception::WriteAndRead(p) => *p,
            Exception::ExecuteAndRead(p) => *p,
            _ => arbitrary(),
        }
    }

    /// Whether the exception grants write access.
    pub open spec fn grants_write(&self) -> bool {
        self is WriteAndRead
    }

    /// Whether the exception grants execute access.
    pub open spec fn grants_execute(&self) -> bool {
        self is ExecuteAndRead
    }

    /// The path the exception names, if any.
    pub fn requested_path(&self) -> (r: Option<&String>)
        ensures
            r is Some == self.has_path(),
            r matches Some(p) ==> p@ == self.path(),
    {
        match self {
            Exception::Read(p) => Some(p),
            Exception::WriteAndRead(p) => Some(p),
            Exception::ExecuteAndRead(p) => Some(p),
            _ => None,
        }
    }
}

} // verus!
