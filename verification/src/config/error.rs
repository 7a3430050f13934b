//! Errors of the configuration model.

use vstd::prelude::*;

verus! {

/// Failure while interpreting a configuration value.
#[derive(Debug, Clone, Copy, PartialEq, Eq, Structural)]
pub enum ConfigError {
    /// A duration string with an unknown suffix, a non-numeric count, or a
    /// value too large to hold in seconds.
    InvalidDuration,
}

impl ConfigError {
    /// A human-readable line for the error.
    pub fn message(&self) -> (r: String)
        ensures
            r@ == "Invalid duration format"@,
    {
        "Invalid duration format".to_owned()
    }
}

} // verus!
