//! Errors surfaced by the supervision engine.

use vstd::prelude::*;

verus! {

/// Failure of a registry or supervision operation.
#[derive(Debug, PartialEq, Eq)]
pub enum ProcessManagerError {
    /// No record with the given name.
    NotFound(String),
    /// A record with the given name is already registered.
    AlreadyExists(String),
    /// The record holds no pid, so there is nothing to signal.
    NotRunning(String),
}

impl ProcessManagerError {
    /// A human-readable line for the error.
    pub fn message(&self) -> (r: String)
        ensures
            (match self {
                ProcessManagerError::NotFound(name) => r@ == "Process '"@ + name@ + "' not found"@,
                ProcessManagerError::AlreadyExists(name) => (r@ == "Process '"@ + name@
                    + "' already exists"@),
                ProcessManagerError::NotRunning(name) => (r@ == "Process '"@ + name@
                    + "' is not running"@),
            }),
    {
        match self {
            ProcessManagerError::NotFound(name) => {
                let r = "Process '".to_owned().concat(name.as_str()).concat("' not found");
                r
            },
            ProcessManagerError::AlreadyExists(name) => {
                let r = "Process '".to_owned().concat(name.as_str()).concat("' already exists");
                r
            },
            ProcessManagerError::NotRunning(name) => {
                let r = "Process '".to_owned().concat(name.as_str()).concat("' is not running");
                r
            },
        }
    }
}

} // verus!
