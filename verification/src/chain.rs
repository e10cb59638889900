//! Chains: append-only sequences of blocks, each linked to the one before.

use vstd::prelude::*;
use crate::assembler::{
    digest_of, genesis_constant, genesis_hash, hash_block, is_sealed, same_bytes, verify_block,
};
use crate::types::{Block, BlockView, Transaction};

verus! {

/// The views of a sequence of blocks.
pub open spec fn chain_views(blocks: Seq<Block>) -> Seq<BlockView> {
    blocks.map_values(|b: Block| b@)
}

/// The last block of a chain, if it has one.
pub open spec fn tail(chain: Seq<BlockView>) -> Option<BlockView> {
    if chain.len() == 0 {
        None
    } else {
        Some(chain.last())
    }
}

/// The hash that the block at place `i` must carry as its previous hash.
pub open spec fn expected_previous_hash(chain: Seq<BlockView>, i: int) -> Seq<u8> {
    if i == 0 {
        genesis_hash()
    } else {
        digest_of(chain[i - 1])
    }
}

/// The block at place `i` has id `i`, is sealed, and links to the block
/// before it, or to the genesis constant if it is the first.
pub open spec fn linked_at(chain: Seq<BlockView>, i: int) -> bool {
    &&& chain[i].id == i
    &&& is_sealed(chain[i])
    &&& chain[i].previous_hash == expected_previous_hash(chain, i)
}

/// Every block of the chain is in its place, sealed and linked.
pub open spec fn chain_linked(chain: Seq<BlockView>) -> bool {
    forall|i: int| 0 <= i < chain.len() ==> #[trigger] linked_at(chain, i)
}

/// The transactions of all blocks of a chain, in chain order.
pub open spec fn sealed_transactions(chain: Seq<BlockView>) -> Seq<Transaction>
    decreases chain.len(),
{
    if chain.len() == 0 {
        Seq::<Transaction>::empty()
    } else {
        sealed_transactions(chain.drop_last()) + chain.last().transactions
    }
}

/// In a linked chain the first block carries the genesis constant, and every
/// later block carries the digest of the block before it, which is also that
/// block's own `hash`.
pub proof fn lemma_chain_integrity(chain: Seq<BlockView>, i: int)
    requires
        chain_linked(chain),
        0 <= i < chain.len(),
    ensures
        i == 0 ==> chain[i].previous_hash == genesis_hash(),
        i > 0 ==> chain[i].previous_hash == digest_of(chain[i - 1]),
        i > 0 ==> chain[i].previous_hash == chain[i - 1].hash,
        chain[i].hash == digest_of(chain[i]),
        chain[i].id == i,
{
    assert(linked_at(chain, i));
    if i > 0 {
        assert(linked_at(chain, i - 1));
    }
}

/// Appending a block that links to the tail keeps a chain linked.
pub proof fn lemma_push_keeps_linked(chain: Seq<BlockView>, block: BlockView)
    requires
        chain_linked(chain),
        block.id == chain.len(),
        is_sealed(block),
        block.previous_hash == expected_previous_hash(chain.push(block), chain.len() as int),
    ensures
        chain_linked(chain.push(block)),
{
    let grown = chain.push(block);
    assert forall|i: int| 0 <= i < grown.len() implies #[trigger] linked_at(grown, i) by {
        if i < chain.len() {
            assert(linked_at(chain, i));
            assert(grown[i] == chain[i]);
            if i > 0 {
                assert(grown[i - 1] == chain[i - 1]);
            }
        }
    }
}

/// Checks a chain from its first block to its last: ids, seals and links.
pub fn verify_chain(chain: &Vec<Block>) -> (r: bool)
    ensures
        r == chain_linked(chain_views(chain@)),
{
    let ghost views = chain_views(chain@);
    let mut i: usize = 0;
    while i < chain.len()
        invariant
            i <= chain.len(),
            views == chain_views(chain@),
            forall|k: int| 0 <= k < i ==> #[trigger] linked_at(views, k),
        decreases chain.len() - i,
    {
        let block = &chain[i];
        assert(views[i as int] == block@);
        let expected = if i == 0 {
            genesis_constant()
        } else {
            assert(views[i as int - 1] == chain@[i as int - 1]@);
            hash_block(&chain[i - 1])
        };
        let here = block.id == i as u64 && verify_block(block) && same_bytes(
            &block.previous_hash,
            &expected,
        );
        if !here {
            assert(!linked_at(views, i as int));
            return false;
        }
        assert(linked_at(views, i as int));
        i += 1;
    }
    true
}

} // verus!
