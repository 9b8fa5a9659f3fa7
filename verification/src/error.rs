//! The error taxonomy of the engine.  A transform never fails — it
//! rejects a cell to null — so errors arise only from configuration
//! and from violated structural invariants.

use vstd::prelude::*;

verus! {

/// What can go wrong while the pipeline runs.
#[derive(Debug)]
pub enum Error {
    /// A logical field is not present in the active dataset.
    SchemaMismatch,
    /// A structural invariant of the frames was violated.
    FrameSchemaError,
    /// Cooperative cancellation was observed at a checkpoint.
    Cancelled,
}

impl Error {
    /// A short text for logs and messages.
    pub fn describe(&self) -> (s: &'static str)
        ensures
            (self is SchemaMismatch ==> s@ == "schema mismatch"@),
            (self is FrameSchemaError ==> s@ == "frame schema error"@),
            (self is Cancelled ==> s@ == "cancelled"@),
    {
        match self {
            Error::SchemaMismatch => "schema mismatch",
            Error::FrameSchemaError => "frame schema error",
            Error::Cancelled => "cancelled",
        }
    }
}

} // verus!
