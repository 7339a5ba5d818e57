//! Failure taxonomy shared by the ingestion and query pipelines, and the
//! retry decision applied by the caller's retry loop.

use vstd::prelude::*;

verus! {

/// Everything that can go wrong while ingesting or querying.
///
/// `StorageError` is a durable-layer failure, fatal to the affected
/// operation. `ProviderTimeout` and `ProviderRateLimited` are transient
/// provider failures, recoverable by retry. `ProviderError` carries the
/// provider's own status code and message and is not retried. A
/// `MalformedResponse` is a contract violation by a provider (for example a
/// vector count that does not match the request); it is always fatal for
/// that call and is never masked by fabricated data.
#[derive(Clone, PartialEq, Eq, Debug)]
pub enum PipelineError {
    StorageError,
    ProviderTimeout,
    ProviderRateLimited,
    ProviderError(u32, String),
    MalformedResponse,
}

/// Which failures a caller may retry: only the transient provider failures.
pub open spec fn retryable(e: PipelineError) -> bool {
    e is ProviderTimeout || e is ProviderRateLimited
}

impl PipelineError {
    /// Whether this failure is recoverable by retrying the call.
    pub fn is_retryable(&self) -> (r: bool)
        ensures
            r == retryable(*self),
    {
        match self {
            PipelineError::ProviderTimeout => true,
            PipelineError::ProviderRateLimited => true,
            _ => false,
        }
    }
}

/// Retry policy for external provider calls: a failed call is attempted
/// again only while it is retryable and the attempt budget is not spent.
/// `attempts` counts the calls already made.
pub fn should_retry(e: &PipelineError, attempts: u32, max_attempts: u32) -> (r: bool)
    ensures
        r == (retryable(*e) && attempts < max_attempts),
{
    e.is_retryable() && attempts < max_attempts
}

} // verus!
