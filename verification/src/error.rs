//! Errors of the encrypted-inference runtime.

use vstd::prelude::*;

use crate::ir::cat;

verus! {

/// Errors that can occur within the runtime.
#[derive(Debug, Clone, PartialEq, Eq)]
pub enum PenumbraRuntimeError {
    /// Error during key generation.
    KeyGen(String),
    /// Error during encryption.
    Encryption(String),
    /// Error during decryption.
    Decryption(String),
    /// Error during an FHE operation.
    Operation(String),
}

/// The text that describes an error.
pub open spec fn error_text(e: PenumbraRuntimeError) -> Seq<char> {
    match e {
        PenumbraRuntimeError::KeyGen(s) => "Failed to generate keys: "@ + s@,
        PenumbraRuntimeError::Encryption(s) => "Encryption failed: "@ + s@,
        PenumbraRuntimeError::Decryption(s) => "Decryption failed: "@ + s@,
        PenumbraRuntimeError::Operation(s) => "Operation failed: "@ + s@,
    }
}

impl PenumbraRuntimeError {
    /// The text that describes this error: what failed, then the cause.
    pub fn message(&self) -> (r: String)
        ensures
            r@ == error_text(*self),
    {
        match self {
            PenumbraRuntimeError::KeyGen(s) => cat(String::from_str("Failed to generate keys: "), s.as_str()),
            PenumbraRuntimeError::Encryption(s) => cat(String::from_str("Encryption failed: "), s.as_str()),
            PenumbraRuntimeError::Decryption(s) => cat(String::from_str("Decryption failed: "), s.as_str()),
            PenumbraRuntimeError::Operation(s) => cat(String::from_str("Operation failed: "), s.as_str()),
        }
    }
}

} // verus!
