//! The ways in which a store operation is refused.

use vstd::prelude::*;

verus! {

/// Why an operation on the board store was refused.
#[derive(Debug, Clone, Copy, PartialEq, Eq, Structural)]
pub enum StoreError {
    /// The identifier is not safe to embed in a path.
    InvalidIdentifier,
    /// No such board, or none in the trash.
    NotFound,
    /// An active board with this identifier is in the way.
    AlreadyExists,
    /// The board lies in the trash and cannot be saved to.
    AlreadyDeleted,
    /// The document carries another identifier than the one addressed.
    IdMismatch,
    /// The payload is not valid base64.
    InvalidPayload,
}

impl StoreError {
    /// The words in which the refusal is reported.
    pub fn message(&self) -> (text: String)
        ensures
            text@ == match *self {
                StoreError::InvalidIdentifier => "invalid board id"@,
                StoreError::NotFound => "board not found"@,
                StoreError::AlreadyExists => "board already exists"@,
                StoreError::AlreadyDeleted => "board is deleted"@,
                StoreError::IdMismatch => "board id mismatch"@,
                StoreError::InvalidPayload => "base64 decode failed"@,
            },
    {
        match self {
            StoreError::InvalidIdentifier => "invalid board id".to_string(),
            StoreError::NotFound => "board not found".to_string(),
            StoreError::AlreadyExists => "board already exists".to_string(),
            StoreError::AlreadyDeleted => "board is deleted".to_string(),
            StoreError::IdMismatch => "board id mismatch".to_string(),
            StoreError::InvalidPayload => "base64 decode failed".to_string(),
        }
    }
}

} // verus!
