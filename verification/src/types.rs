//! Shared vocabulary of the queue core: entry states, operation outcomes,
//! and the error taxonomy surfaced to callers.
use vstd::prelude::*;

verus! {

/// Lifecycle state of a persisted work item.
///
/// `Queued` entries are visible to consumers; `Leased` entries are exclusively
/// claimed by one consumer; `Completed` is terminal; `Discarded` marks an entry
/// that was removed by pruning (such rows are physically deleted, so the
/// variant appears only in query filters, never in stored rows).
#[derive(Clone, Copy, Debug, PartialEq, Eq, Structural)]
pub enum Status {
    Queued,
    Leased,
    Completed,
    Discarded,
}

/// Result of submitting a transaction to the mempool queue.
#[derive(Clone, Copy, Debug, PartialEq, Eq, Structural)]
pub enum SubmitOutcome {
    /// No live entry existed for the submission's key; a new row was created.
    Added,
    /// A live entry with the same `(initiator, nonce)` key existed and its
    /// payload and timestamps were overwritten in place.
    Replaced,
}

/// Direction a completed lease is resolved in.
#[derive(Clone, Copy, Debug, PartialEq, Eq, Structural)]
pub enum JobOutcome {
    /// The worker produced its result; the entry becomes `Completed`.
    Successful,
    /// The worker asks for a retry; the entry returns to `Queued`.
    Failed,
}

/// Errors surfaced by queue operations.
///
/// Connectivity failures belong to the storage collaborator and are raised by
/// the unverified glue around this library, never by the verified core.
#[derive(Clone, Copy, Debug, PartialEq, Eq, Structural)]
pub enum QueueError {
    /// A referenced key or entry has no live row in the expected state.
    NotFound,
}

} // verus!
