//! Admission control for embedding requests: how many requests a model may
//! serve at once, and when its gate is rebuilt for a new limit. The waiting
//! itself (a semaphore with a timeout) is the caller's.
use vstd::prelude::*;

verus! {

/// The batch size from which an embedding model takes two concurrent requests.
pub const LARGE_BATCH_TIER: u32 = 2048;

pub open spec fn balanced_concurrency_spec(batch_size: Option<u32>) -> nat {
    match batch_size {
        Some(b) => if b >= LARGE_BATCH_TIER { 2 } else { 1 },
        None => 1,
    }
}

/// Concurrency that the balanced embedding profile allows for a batch size.
pub fn balanced_concurrency(batch_size: Option<u32>) -> (r: usize)
    ensures
        r as nat == balanced_concurrency_spec(batch_size),
{
    match batch_size {
        Some(b) => if b >= LARGE_BATCH_TIER { 2 } else { 1 },
        None => 1,
    }
}

/// A gate never admits fewer than one request.
pub fn gate_capacity(concurrency: usize) -> (r: usize)
    ensures
        r == (if concurrency >= 1 { concurrency } else { 1 }),
        r >= 1,
{
    if concurrency >= 1 { concurrency } else { 1 }
}

/// Whether a model's gate, built for `capacity` permits of which `available`
/// are free, is replaced by one for `concurrency`: only when the limit
/// changed and no request holds a permit.
pub fn should_rebuild_gate(capacity: usize, available: usize, concurrency: usize) -> (r: bool)
    ensures
        r == (capacity != (if concurrency >= 1 { concurrency } else { 1 }) && available == capacity),
{
    gate_capacity(concurrency) != capacity && available == capacity
}

/// The `Retry-After` a rejected request is answered with: the queue
/// timeout in whole seconds, at least one.
pub fn retry_after_secs(timeout_secs: u64) -> (r: u64)
    ensures
        r == (if timeout_secs >= 1 { timeout_secs } else { 1 }),
{
    if timeout_secs >= 1 { timeout_secs } else { 1 }
}

} // verus!
