//! The block assembler: from the tail of a chain and a batch, the next block.
//!
//! A block's digest is SHA-256 over the canonical encoding of its id, its
//! transactions and its previous hash. The previous hash of a block is the
//! digest of the block before it, computed afresh from that block's contents;
//! the first block of a chain carries the genesis constant instead, which is
//! thirty-two zero bytes.

use vstd::prelude::*;
use crate::digest::{sha256, spec_sha256, DIGEST_LEN};
use crate::encoding::{encode_block, spec_encode_block};
use crate::error::AssemblyError;
use crate::types::{Block, BlockView, Transaction};

verus! {

/// The previous hash of the first block of every chain.
pub open spec fn genesis_hash() -> Seq<u8> {
    Seq::new(DIGEST_LEN as nat, |i: int| 0u8)
}

/// The digest of a block with the given contents.
pub open spec fn block_digest(
    id: u64,
    transactions: Seq<Transaction>,
    previous_hash: Seq<u8>,
) -> Seq<u8> {
    spec_sha256(spec_encode_block(id, transactions, previous_hash))
}

/// The digest of a block's contents. Its `hash` field plays no part in it.
pub open spec fn digest_of(block: BlockView) -> Seq<u8> {
    block_digest(block.id, block.transactions, block.previous_hash)
}

/// A block is sealed when its `hash` is the digest of its contents.
pub open spec fn is_sealed(block: BlockView) -> bool {
    block.hash == digest_of(block)
}

/// The id that follows `previous`: one more, or zero at the start of a chain.
pub open spec fn next_id(previous: Option<BlockView>) -> int {
    match previous {
        Some(p) => p.id + 1,
        None => 0,
    }
}

/// The hash that links to `previous`: its digest, or the genesis constant.
pub open spec fn link_hash(previous: Option<BlockView>) -> Seq<u8> {
    match previous {
        Some(p) => digest_of(p),
        None => genesis_hash(),
    }
}

/// Whether a block can follow `previous`: its id must fit in a `u64`.
pub open spec fn can_assemble(previous: Option<BlockView>) -> bool {
    next_id(previous) <= u64::MAX
}

/// The block that follows `previous` and holds `batch`.
pub open spec fn spec_assemble(previous: Option<BlockView>, batch: Seq<Transaction>) -> BlockView {
    BlockView {
        id: next_id(previous) as u64,
        transactions: batch,
        previous_hash: link_hash(previous),
        hash: block_digest(next_id(previous) as u64, batch, link_hash(previous)),
    }
}

/// The view of an optional borrowed block.
pub open spec fn view_of(previous: Option<&Block>) -> Option<BlockView> {
    match previous {
        Some(p) => Some(p@),
        None => None,
    }
}

/// The genesis constant: thirty-two zero bytes.
pub fn genesis_constant() -> (out: Vec<u8>)
    ensures
        out@ == genesis_hash(),
{
    let mut out: Vec<u8> = Vec::new();
    let mut i: usize = 0;
    while i < DIGEST_LEN
        invariant
            i <= DIGEST_LEN,
            out@ == Seq::new(i as nat, |k: int| 0u8),
        decreases DIGEST_LEN - i,
    {
        out.push(0u8);
        assert(out@ =~= Seq::new((i + 1) as nat, |k: int| 0u8));
        i += 1;
    }
    out
}

/// Computes the digest of a block with the given contents.
pub fn hash_contents(id: u64, transactions: &Vec<Transaction>, previous_hash: &Vec<u8>) -> (out:
    Vec<u8>)
    ensures
        out@ == block_digest(id, transactions@, previous_hash@),
        out@.len() == DIGEST_LEN,
{
    let encoded = encode_block(id, transactions, previous_hash);
    sha256(encoded.as_slice())
}

/// Computes the digest of a block's contents.
pub fn hash_block(block: &Block) -> (out: Vec<u8>)
    ensures
        out@ == digest_of(block@),
        out@.len() == DIGEST_LEN,
{
    hash_contents(block.id, &block.transactions, &block.previous_hash)
}

/// The id of the block that follows `previous`.
///
/// Fails exactly when `previous` carries the largest id there is.
pub fn next_sequence_id(previous: Option<&Block>) -> (r: Result<u64, AssemblyError>)
    ensures
        match r {
            Ok(id) => can_assemble(view_of(previous)) && id == next_id(view_of(previous)),
            Err(e) => !can_assemble(view_of(previous)) && e == AssemblyError::SequenceExhausted,
        },
{
    match previous {
        None => Ok(0),
        Some(p) => {
            if p.id == u64::MAX {
                Err(AssemblyError::SequenceExhausted)
            } else {
                Ok(p.id + 1)
            }
        },
    }
}

/// Puts a block together from its contents and a digest computed elsewhere.
pub fn seal(id: u64, transactions: Vec<Transaction>, previous_hash: Vec<u8>, hash: Vec<u8>) -> (block:
    Block)
    ensures
        block@ == (BlockView {
            id,
            transactions: transactions@,
            previous_hash: previous_hash@,
            hash: hash@,
        }),
        block.transactions == transactions,
        is_sealed(block@) <==> hash@ == block_digest(id, transactions@, previous_hash@),
{
    Block { id, transactions, previous_hash, hash }
}

/// Assembles the block that follows `previous` and holds `batch`, in order.
///
/// The result is a function of the previous block's contents and of the
/// batch alone. It fails exactly when the previous block's id is the largest
/// there is; a chain grown from its first block does not get there.
pub fn assemble(previous: Option<&Block>, batch: Vec<Transaction>) -> (r: Result<
    Block,
    AssemblyError,
>)
    ensures
        match r {
            Ok(block) => {
                &&& can_assemble(view_of(previous))
                &&& block@ == spec_assemble(view_of(previous), batch@)
                &&& block.transactions == batch
                &&& is_sealed(block@)
                &&& block@.hash.len() == DIGEST_LEN
            },
            Err(e) => !can_assemble(view_of(previous)) && e == AssemblyError::SequenceExhausted,
        },
{
    let id: u64 = match next_sequence_id(previous) {
        Ok(id) => id,
        Err(e) => {
            return Err(e);
        },
    };
    let previous_hash = match previous {
        Some(p) => hash_block(p),
        None => genesis_constant(),
    };
    let hash = hash_contents(id, &batch, &previous_hash);
    Ok(seal(id, batch, previous_hash, hash))
}

/// Whether two byte strings are the same.
pub fn same_bytes(a: &Vec<u8>, b: &Vec<u8>) -> (r: bool)
    ensures
        r == (a@ == b@),
{
    if a.len() != b.len() {
        return false;
    }
    let mut i: usize = 0;
    while i < a.len()
        invariant
            i <= a.len(),
            a.len() == b.len(),
            forall|k: int| 0 <= k < i ==> a@[k] == b@[k],
        decreases a.len() - i,
    {
        if a[i] != b[i] {
            return false;
        }
        i += 1;
    }
    assert(a@ =~= b@);
    true
}

/// Checks that a block's `hash` is the digest of its contents.
pub fn verify_block(block: &Block) -> (r: bool)
    ensures
        r == is_sealed(block@),
{
    let expected = hash_block(block);
    same_bytes(&block.hash, &expected)
}

/// Two assemblies from the same previous block and the same batch give the
/// same block, byte for byte.
pub proof fn lemma_assemble_deterministic(
    previous_a: Option<BlockView>,
    batch_a: Seq<Transaction>,
    previous_b: Option<BlockView>,
    batch_b: Seq<Transaction>,
)
    requires
        previous_a == previous_b,
        batch_a == batch_b,
    ensures
        spec_assemble(previous_a, batch_a) == spec_assemble(previous_b, batch_b),
        spec_assemble(previous_a, batch_a).hash == spec_assemble(previous_b, batch_b).hash,
{
}

/// The block that is assembled on a previous block links to it: it carries
/// the next id and the previous block's digest, and it is sealed.
pub proof fn lemma_assemble_links(previous: Option<BlockView>, batch: Seq<Transaction>)
    requires
        can_assemble(previous),
    ensures
        is_sealed(spec_assemble(previous, batch)),
        spec_assemble(previous, batch).transactions == batch,
        previous is None ==> spec_assemble(previous, batch).id == 0 && spec_assemble(
            previous,
            batch,
        ).previous_hash == genesis_hash(),
        previous matches Some(p) ==> spec_assemble(previous, batch).id == p.id + 1
            && spec_assemble(previous, batch).previous_hash == digest_of(p),
        previous matches Some(p) ==> (is_sealed(p) ==> spec_assemble(previous, batch).previous_hash
            == p.hash),
{
}

} // verus!
