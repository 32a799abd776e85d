//! Errors produced by domain validation or persistence ports.
use vstd::prelude::*;
use vstd::string::*;

use crate::numbers::{decimal, decimal_text};

verus! {

/// Errors produced by domain validation or persistence ports.
#[derive(Debug, Clone, PartialEq, Eq)]
pub enum CoreError {
    /// A required configuration value is invalid.
    InvalidConfiguration(String),
    /// A conversation message is empty after trimming.
    EmptyMessage,
    /// Persisted data uses an unsupported schema.
    UnsupportedSchema {
        /// Version found in persisted data.
        found: u32,
        /// Version supported by this build.
        expected: u32,
    },
    /// A persistence adapter failed.
    Storage(String),
}

/// A `CoreError` with its texts taken as character sequences.
pub enum CoreFault {
    InvalidConfiguration(Seq<char>),
    EmptyMessage,
    UnsupportedSchema { found: u32, expected: u32 },
    Storage(Seq<char>),
}

impl View for CoreError {
    type V = CoreFault;

    open spec fn view(&self) -> CoreFault {
        match self {
            CoreError::InvalidConfiguration(m) => CoreFault::InvalidConfiguration(m@),
            CoreError::EmptyMessage => CoreFault::EmptyMessage,
            CoreError::UnsupportedSchema { found, expected } => CoreFault::UnsupportedSchema {
                found: *found,
                expected: *expected,
            },
            CoreError::Storage(m) => CoreFault::Storage(m@),
        }
    }
}

/// The text a domain error displays.
pub open spec fn core_error_text(f: CoreFault) -> Seq<char> {
    match f {
        CoreFault::InvalidConfiguration(m) => "invalid configuration: "@ + m,
        CoreFault::EmptyMessage => "message cannot be empty"@,
        CoreFault::UnsupportedSchema { found, expected } => "unsupported memory schema version "@
            + decimal(found as nat) + "; expected "@ + decimal(expected as nat),
        CoreFault::Storage(m) => "storage failure: "@ + m,
    }
}

impl CoreError {
    /// The text shown to the user for this error.
    pub fn message(&self) -> (r: String)
        ensures
            r@ == core_error_text(self@),
    {
        match self {
            CoreError::InvalidConfiguration(m) => "invalid configuration: ".to_owned().concat(
                m.as_str(),
            ),
            CoreError::EmptyMessage => "message cannot be empty".to_owned(),
            CoreError::UnsupportedSchema { found, expected } => {
                let f = decimal_text(*found);
                let e = decimal_text(*expected);
                "unsupported memory schema version ".to_owned().concat(f.as_str()).concat(
                    "; expected ",
                ).concat(e.as_str())
            },
            CoreError::Storage(m) => "storage failure: ".to_owned().concat(m.as_str()),
        }
    }
}

/// An invalid-configuration error carrying `message`.
pub fn invalid_configuration(message: &str) -> (e: CoreError)
    ensures
        e@ == CoreFault::InvalidConfiguration(message@),
{
    CoreError::InvalidConfiguration(message.to_owned())
}

/// The outcome of a check that either passes or fails with a fault: `Ok` exactly when
/// there is no fault, and the error otherwise.
pub open spec fn check_outcome(r: Result<(), CoreError>, fault: Option<CoreFault>) -> bool {
    match fault {
        None => r is Ok,
        Some(f) => r matches Err(e) && e@ == f,
    }
}

/// A fault that is an invalid configuration with the given text.
pub open spec fn config_fault(m: Option<Seq<char>>) -> Option<CoreFault> {
    match m {
        None => None,
        Some(t) => Some(CoreFault::InvalidConfiguration(t)),
    }
}

} // verus!
