//! Error kinds of the dispatcher, mirrored by every `Result` the library
//! returns.

use vstd::prelude::*;

verus! {

/// What went wrong, as the public surface reports it.
pub enum ErrorKind {
    /// No provider is registered under the given name.
    ProviderNotFound(String),
    /// A hook's provider configuration was rejected at load time.
    InvalidHookConfig(String),
    /// The named hook is not part of the current snapshot.
    HookNotFound(String),
    /// The request was classified but no provider accepted it.
    RequestInvalid(String),
    /// A per-hook queue cap was exceeded.
    Backpressure,
    /// The worker could not spawn the hook script.
    SpawnFailed,
    /// A graceful stop did not finish within its grace period.
    ShutdownTimeout,
    /// Scheduler accounting was found inconsistent; the process must abort.
    InternalInvariantViolation,
}

/// An error value carrying one [`ErrorKind`].
pub struct FisherError {
    pub kind: ErrorKind,
}

impl FisherError {
    pub fn new(kind: ErrorKind) -> (r: FisherError)
        ensures
            r.kind == kind,
    {
        FisherError { kind }
    }

    pub fn kind(&self) -> (r: &ErrorKind)
        ensures
            r == &self.kind,
    {
        &self.kind
    }
}

pub type FisherResult<T> = Result<T, FisherError>;

} // verus!
