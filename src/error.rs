//! The ways an operation on the store or a snapshot can fail.
use vstd::prelude::*;

verus! {

#[derive(Debug, Clone, Copy, PartialEq, Eq, Structural)]
pub enum EnvError {
    /// The backing store cannot be opened or closed.
    StoreUnavailable,
    /// A variable that the operation needs is not defined.
    NotFound,
    /// A list position lies beyond the list.
    IndexOutOfRange,
    /// A snapshot is malformed or of an unsupported version.
    InvalidSnapshot,
    /// A file could not be read or written.
    IoFailure,
}

impl EnvError {
    /// A short description for the user.
    pub fn message(&self) -> (r: &'static str) {
        match self {
            EnvError::StoreUnavailable => "cannot open the environment store",
            EnvError::NotFound => "environment variable not found",
            EnvError::IndexOutOfRange => "list index out of range",
            EnvError::InvalidSnapshot => "invalid or unsupported snapshot",
            EnvError::IoFailure => "file input or output failed",
        }
    }
}

} // verus!
