use vstd::prelude::*;

verus! {

/// The error taxonomy of the library: local file I/O failures, remote
/// protocol failures, and configuration parsing failures.  Each variant
/// carries a human-readable description of what went wrong.
#[derive(Debug, Clone, PartialEq, Eq)]
pub enum CustomError {
    Io(String),
    Ftp(String),
    Serde(String),
}

impl CustomError {
    /// The description carried by the error.
    pub fn message(&self) -> (r: String)
        ensures
            r@ == match self {
                CustomError::Io(m) => m@,
                CustomError::Ftp(m) => m@,
                CustomError::Serde(m) => m@,
            },
    {
        match self {
            CustomError::Io(m) => m.clone(),
            CustomError::Ftp(m) => m.clone(),
            CustomError::Serde(m) => m.clone(),
        }
    }
}

} // verus!
