//! What holds of a shard over any run of transactions.

use vstd::prelude::*;
use crate::assembler::{can_assemble, lemma_assemble_links, spec_assemble};
use crate::chain::{
    chain_linked, expected_previous_hash, lemma_push_keeps_linked, linked_at, sealed_transactions,
    tail,
};
use crate::shard::{
    history, lemma_ingest_extends_history, spec_close, spec_fresh, spec_ingest, spec_ingest_all,
    spec_seal, view_well_formed, Phase, ShardView,
};
use crate::types::Transaction;

verus! {

/// The number of transactions in the sealed blocks of a shard.
pub open spec fn sealed_count(s: ShardView) -> nat {
    sealed_transactions(s.chain).len()
}

/// Receipt order: after a draining shard has taken a run of transactions,
/// its history is its earlier history followed by exactly that run. Nothing
/// is reordered, lost or doubled.
pub proof fn lemma_receipt_order(s: ShardView, txs: Seq<Transaction>)
    requires
        s.phase == Phase::Draining,
    ensures
        history(spec_ingest_all(s, txs)) == history(s) + txs,
        spec_ingest_all(s, txs).phase == Phase::Draining,
    decreases txs.len(),
{
    if txs.len() == 0 {
        assert(history(s) + txs =~= history(s));
    } else {
        let before = spec_ingest_all(s, txs.drop_last());
        lemma_receipt_order(s, txs.drop_last());
        lemma_ingest_extends_history(before, txs.last());
        assert((history(s) + txs.drop_last()).push(txs.last()) =~= history(s) + txs);
    }
}

/// Conservation: the sealed transactions and the pending ones together grow
/// by exactly the number of transactions taken.
pub proof fn lemma_conservation(s: ShardView, txs: Seq<Transaction>)
    requires
        s.phase == Phase::Draining,
    ensures
        sealed_count(spec_ingest_all(s, txs)) + spec_ingest_all(s, txs).pending.len()
            == sealed_count(s) + s.pending.len() + txs.len(),
{
    lemma_receipt_order(s, txs);
    let after = spec_ingest_all(s, txs);
    assert(history(after).len() == sealed_count(after) + after.pending.len());
    assert(history(s).len() == sealed_count(s) + s.pending.len());
}

/// Conservation from the start: in a shard that began empty, the sealed and
/// the pending transactions are as many as were taken.
pub proof fn lemma_conservation_from_fresh(id: u32, threshold: nat, txs: Seq<Transaction>)
    ensures
        sealed_count(spec_ingest_all(spec_fresh(id, threshold), txs)) + spec_ingest_all(
            spec_fresh(id, threshold),
            txs,
        ).pending.len() == txs.len(),
        history(spec_ingest_all(spec_fresh(id, threshold), txs)) == txs,
{
    let fresh = spec_fresh(id, threshold);
    lemma_conservation(fresh, txs);
    lemma_receipt_order(fresh, txs);
    assert(history(fresh) + txs =~= txs);
}

/// Sealing keeps a linked chain linked, as long as the next id fits.
pub proof fn lemma_seal_keeps_linked(s: ShardView)
    requires
        chain_linked(s.chain),
        s.chain.len() <= u64::MAX,
    ensures
        chain_linked(spec_seal(s).chain),
        spec_seal(s).chain.len() == s.chain.len() + 1,
{
    let n: int = s.chain.len() as int;
    if n > 0 {
        assert(linked_at(s.chain, n - 1));
    }
    assert(can_assemble(tail(s.chain)));
    let block = spec_assemble(tail(s.chain), s.pending);
    lemma_assemble_links(tail(s.chain), s.pending);
    assert(block.previous_hash == expected_previous_hash(s.chain.push(block), n));
    lemma_push_keeps_linked(s.chain, block);
}

/// Chain integrity is kept by every transaction taken.
pub proof fn lemma_ingest_keeps_well_formed(s: ShardView, tx: Transaction)
    requires
        view_well_formed(s),
        s.chain.len() <= u64::MAX,
    ensures
        view_well_formed(spec_ingest(s, tx)),
        chain_linked(spec_ingest(s, tx).chain),
        s.chain.len() <= spec_ingest(s, tx).chain.len() <= s.chain.len() + 1,
{
    if s.phase == Phase::Draining {
        let buffered = ShardView { pending: s.pending.push(tx), ..s };
        if buffered.pending.len() >= s.threshold {
            lemma_seal_keeps_linked(buffered);
        }
    }
}

/// Chain integrity is kept when a shard is closed.
pub proof fn lemma_close_keeps_well_formed(s: ShardView)
    requires
        view_well_formed(s),
        s.chain.len() <= u64::MAX,
    ensures
        view_well_formed(spec_close(s)),
        chain_linked(spec_close(s).chain),
{
    if s.pending.len() > 0 {
        lemma_seal_keeps_linked(s);
    }
}

/// Chain integrity is kept over any run of transactions that the ids can
/// count.
pub proof fn lemma_ingest_all_keeps_well_formed(s: ShardView, txs: Seq<Transaction>)
    requires
        view_well_formed(s),
        s.chain.len() + txs.len() <= u64::MAX,
    ensures
        view_well_formed(spec_ingest_all(s, txs)),
        chain_linked(spec_ingest_all(s, txs).chain),
        spec_ingest_all(s, txs).chain.len() <= s.chain.len() + txs.len(),
    decreases txs.len(),
{
    if txs.len() > 0 {
        lemma_ingest_all_keeps_well_formed(s, txs.drop_last());
        lemma_ingest_keeps_well_formed(spec_ingest_all(s, txs.drop_last()), txs.last());
    }
}

/// Batching, below the threshold: a run that leaves the pending batch short
/// of the threshold seals nothing and is all pending.
pub proof fn lemma_below_threshold(s: ShardView, txs: Seq<Transaction>)
    requires
        s.phase == Phase::Draining,
        s.pending.len() + txs.len() < s.threshold,
    ensures
        spec_ingest_all(s, txs).chain == s.chain,
        spec_ingest_all(s, txs).pending == s.pending + txs,
        spec_ingest_all(s, txs) == (ShardView { pending: s.pending + txs, ..s }),
    decreases txs.len(),
{
    if txs.len() == 0 {
        assert(s.pending + txs =~= s.pending);
    } else {
        lemma_below_threshold(s, txs.drop_last());
        assert((s.pending + txs.drop_last()).push(txs.last()) =~= s.pending + txs);
    }
}

/// Batching, at the threshold: the transaction that fills the batch has the
/// whole batch sealed into one more block, and nothing is left pending.
pub proof fn lemma_reaching_threshold(s: ShardView, txs: Seq<Transaction>)
    requires
        s.phase == Phase::Draining,
        txs.len() > 0,
        s.pending.len() + txs.len() == s.threshold,
    ensures
        spec_ingest_all(s, txs).chain == s.chain.push(
            spec_assemble(tail(s.chain), s.pending + txs),
        ),
        spec_ingest_all(s, txs).chain.len() == s.chain.len() + 1,
        spec_ingest_all(s, txs).pending.len() == 0,
        spec_ingest_all(s, txs) == spec_seal(ShardView { pending: s.pending + txs, ..s }),
{
    lemma_below_threshold(s, txs.drop_last());
    assert((s.pending + txs.drop_last()).push(txs.last()) =~= s.pending + txs);
}

/// Batching, one past the threshold: after a fresh shard has taken one
/// transaction more than its threshold, it holds one block and one pending
/// transaction.
pub proof fn lemma_one_past_threshold(id: u32, threshold: nat, txs: Seq<Transaction>)
    requires
        threshold > 1,
        txs.len() == threshold + 1,
    ensures
        spec_ingest_all(spec_fresh(id, threshold), txs).chain.len() == 1,
        spec_ingest_all(spec_fresh(id, threshold), txs).pending == seq![txs.last()],
        spec_ingest_all(spec_fresh(id, threshold), txs.drop_last()).chain.len() == 1,
        spec_ingest_all(spec_fresh(id, threshold), txs.drop_last()).pending.len() == 0,
{
    let fresh = spec_fresh(id, threshold);
    lemma_reaching_threshold(fresh, txs.drop_last());
    let full = spec_ingest_all(fresh, txs.drop_last());
    assert(full.pending =~= Seq::<Transaction>::empty());
    assert(full.threshold == threshold && full.phase == Phase::Draining);
    assert(spec_ingest_all(fresh, txs) == spec_ingest(full, txs.last()));
    assert(full.pending.push(txs.last()) =~= seq![txs.last()]);
}

} // verus!
