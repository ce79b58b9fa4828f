//! The error taxonomy of the engine.

use vstd::prelude::*;

verus! {

/// Why an operation of the engine was refused.
#[derive(Clone, Copy, Debug, PartialEq, Eq, Structural, Hash)]
pub enum EngineError {
    /// A referenced order, client, car, work, part or user does not exist.
    NotFound,
    /// The requested status change is not reachable from the current status.
    InvalidTransition,
    /// The requested status text is not one of the recognised names.
    InvalidStatus,
    /// A defect-type id has no catalog entry.
    CatalogLookupFailed,
    /// The session token does not resolve to an actor.
    Unauthorized,
    /// The underlying storage could not complete the operation.
    PersistenceError,
    /// Caller-supplied data fails a domain rule.
    ValidationError,
}

impl EngineError {
    /// The human-readable message of each error, as a character sequence.
    pub open spec fn message_text(self) -> Seq<char> {
        match self {
            EngineError::NotFound => "referenced record does not exist"@,
            EngineError::InvalidTransition => "status change is not reachable from the current status"@,
            EngineError::InvalidStatus => "status is not a recognised value"@,
            EngineError::CatalogLookupFailed => "defect type has no catalog entry"@,
            EngineError::Unauthorized => "session token does not resolve to an actor"@,
            EngineError::PersistenceError => "storage operation failed"@,
            EngineError::ValidationError => "supplied data fails a domain rule"@,
        }
    }

    /// The human-readable message carried by this error.
    pub fn message(&self) -> (r: &'static str)
        ensures
            r@ == self.message_text(),
    {
        match self {
            EngineError::NotFound => "referenced record does not exist",
            EngineError::InvalidTransition => "status change is not reachable from the current status",
            EngineError::InvalidStatus => "status is not a recognised value",
            EngineError::CatalogLookupFailed => "defect type has no catalog entry",
            EngineError::Unauthorized => "session token does not resolve to an actor",
            EngineError::PersistenceError => "storage operation failed",
            EngineError::ValidationError => "supplied data fails a domain rule",
        }
    }
}

} // verus!
