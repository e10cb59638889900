//! The ledger's data: transactions and blocks.

use vstd::prelude::*;

verus! {

/// A transfer of `amount` units from one address to another.
///
/// Amounts are counted in the smallest unit of account, so they are never
/// negative and never fractional.
#[derive(Clone, Debug, PartialEq, Eq)]
pub struct Transaction {
    pub from: String,
    pub to: String,
    pub amount: u64,
}

impl Transaction {
    /// A transaction with exactly the given fields.
    pub fn new(from: String, to: String, amount: u64) -> (tx: Transaction)
        ensures
            tx.from == from,
            tx.to == to,
            tx.amount == amount,
    {
        Transaction { from, to, amount }
    }
}

/// A sealed batch of transactions, linked to the block before it.
#[derive(Clone, Debug, PartialEq, Eq)]
pub struct Block {
    /// The block's place in its shard's chain, counted from zero.
    pub id: u64,
    /// The transactions, in the order in which the shard received them.
    pub transactions: Vec<Transaction>,
    /// The digest of the block before this one, or the genesis constant.
    pub previous_hash: Vec<u8>,
    /// The digest of this block's own contents.
    pub hash: Vec<u8>,
}

/// What a block holds, as mathematical values.
pub ghost struct BlockView {
    pub id: u64,
    pub transactions: Seq<Transaction>,
    pub previous_hash: Seq<u8>,
    pub hash: Seq<u8>,
}

impl View for Block {
    type V = BlockView;

    open spec fn view(&self) -> BlockView {
        BlockView {
            id: self.id,
            transactions: self.transactions@,
            previous_hash: self.previous_hash@,
            hash: self.hash@,
        }
    }
}

} // verus!
