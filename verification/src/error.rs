//! The errors that the ledger hands back to its callers.

use vstd::prelude::*;

verus! {

/// Routing cannot name a shard for the address: the address is empty, or
/// there is no shard to route to.
#[derive(Clone, Copy, Debug, PartialEq, Eq, Structural)]
pub struct InvalidAddress;

/// Why a transaction was not taken.
#[derive(Clone, Copy, Debug, PartialEq, Eq, Structural)]
pub enum SubmitError {
    /// The sender's address routes to no shard.
    InvalidAddress,
    /// The target shard no longer accepts input.
    Closed,
    /// The target shard's inbound queue is momentarily full. Only a queueing
    /// layer in front of the shards raises this; the shards themselves never do.
    Backpressure,
}

/// Why no block could be assembled.
#[derive(Clone, Copy, Debug, PartialEq, Eq, Structural)]
pub enum AssemblyError {
    /// The previous block carries the largest sequence id, so the next id has
    /// no place in the eight bytes that the canonical encoding gives it.
    SequenceExhausted,
}

} // verus!
