//! Error taxonomy of the coordinator, and the status class each error is
//! surfaced with.

use vstd::prelude::*;

verus! {

/// Why an attempt failed.
#[derive(Debug)]
pub enum ProcessingError {
    /// The idempotency token failed validation; no store access was
    /// attempted. A client error.
    MalformedKey,
    /// The transactional store was unreachable or a query failed; the
    /// caller's transaction is rolled back. A server error.
    StoreFailure,
    /// The guarded side effects failed; the owning transaction is rolled
    /// back, freeing the slot for a real retry. A server error.
    SideEffectFailure,
}

/// The HTTP status an error is surfaced with: a malformed key is the
/// caller's fault, everything else the server's.
pub fn error_status(e: &ProcessingError) -> (r: u16)
    ensures
        e is MalformedKey ==> r == 400,
        e is StoreFailure ==> r == 500,
        e is SideEffectFailure ==> r == 500,
{
    match e {
        ProcessingError::MalformedKey => 400,
        ProcessingError::StoreFailure => 500,
        ProcessingError::SideEffectFailure => 500,
    }
}

} // verus!
