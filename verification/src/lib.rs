//! A sharded transaction ledger.
//!
//! The address space is partitioned over a fixed set of shards. Each shard
//! owns one append-only chain of hash-linked blocks and one pending batch of
//! transactions; a batch that reaches its threshold is sealed into the next
//! block of the chain.
//!
//! Amounts are unsigned integers in the smallest unit of account. Digests are
//! SHA-256, held as 32 raw bytes.

pub mod error;
pub mod router;
pub mod types;
pub mod digest;
pub mod encoding;
pub mod assembler;
pub mod chain;
pub mod balance;
pub mod shard;
pub mod canonical;
pub mod laws;
pub mod manager;
