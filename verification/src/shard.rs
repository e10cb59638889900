//! A shard: one chain, one pending batch, and the ingestor that fills them.
//!
//! The ingestor is a state machine with two lasting states. While it is
//! draining, every transaction it receives is appended to the pending batch;
//! the moment the batch reaches the threshold it is sealed into the next
//! block of the chain and the batch is empty again. When the inbound queue is
//! closed, a batch that is not empty is sealed into a last, shorter block, so
//! that nothing that was received is lost, and the ingestor is terminal. A
//! terminal shard takes no more transactions.
//!
//! A shard keeps no table of balances beside its chain: what was moved to
//! and from an address is read off the sealed blocks, and a transaction that
//! is still pending has moved nothing.

use vstd::prelude::*;
use crate::assembler::{assemble, can_assemble, spec_assemble};
use crate::balance::{balance_in, credited, debited, Balance};
use crate::chain::{
    chain_linked, chain_views, expected_previous_hash, lemma_push_keeps_linked, linked_at,
    sealed_transactions, tail, verify_chain,
};
use crate::error::SubmitError;
use crate::types::{Block, BlockView, Transaction};

verus! {

/// The batch threshold of a shard made with [`Shard::new`].
pub const BATCH_THRESHOLD: usize = 10;

/// The lasting states of a shard's ingestor.
#[derive(Clone, Copy, Debug, PartialEq, Eq, Structural)]
pub enum Phase {
    /// Waiting for the next transaction, or for the queue to close.
    Draining,
    /// The queue was closed and everything received is sealed.
    Terminal,
}

/// What the inbound queue hands to the ingestor.
#[derive(Clone, Debug, PartialEq, Eq)]
pub enum Event {
    /// The next transaction, in receipt order.
    Received(Transaction),
    /// The queue is closed and empty.
    Closed,
}

/// What became of a transaction that a shard took.
#[derive(Clone, Copy, Debug, PartialEq, Eq, Structural)]
pub enum Outcome {
    /// It waits in the pending batch.
    Buffered,
    /// It completed a batch, which was sealed into a block.
    Sealed,
}

/// One shard of the ledger.
#[derive(Clone, Debug)]
pub struct Shard {
    id: u32,
    threshold: usize,
    chain: Vec<Block>,
    pending: Vec<Transaction>,
    phase: Phase,
}

/// What a shard holds, as mathematical values.
pub ghost struct ShardView {
    pub id: u32,
    pub threshold: nat,
    pub chain: Seq<BlockView>,
    pub pending: Seq<Transaction>,
    pub phase: Phase,
}

/// Everything the shard has taken, in receipt order: the sealed transactions,
/// then the pending ones.
pub open spec fn history(s: ShardView) -> Seq<Transaction> {
    sealed_transactions(s.chain) + s.pending
}

/// A shard that has just been made: empty chain, empty batch, draining.
pub open spec fn spec_fresh(id: u32, threshold: nat) -> ShardView {
    ShardView {
        id,
        threshold,
        chain: Seq::<BlockView>::empty(),
        pending: Seq::<Transaction>::empty(),
        phase: Phase::Draining,
    }
}

/// The shard after its pending batch has been sealed into the next block.
pub open spec fn spec_seal(s: ShardView) -> ShardView {
    ShardView {
        chain: s.chain.push(spec_assemble(tail(s.chain), s.pending)),
        pending: Seq::<Transaction>::empty(),
        ..s
    }
}

/// The shard after it has been handed `tx`.
pub open spec fn spec_ingest(s: ShardView, tx: Transaction) -> ShardView {
    if s.phase == Phase::Terminal {
        s
    } else {
        let buffered = ShardView { pending: s.pending.push(tx), ..s };
        if buffered.pending.len() >= s.threshold {
            spec_seal(buffered)
        } else {
            buffered
        }
    }
}

/// The shard after its inbound queue has been closed.
pub open spec fn spec_close(s: ShardView) -> ShardView {
    let drained = if s.pending.len() > 0 {
        spec_seal(s)
    } else {
        s
    };
    ShardView { phase: Phase::Terminal, ..drained }
}

/// The shard after one event.
pub open spec fn spec_step(s: ShardView, event: Event) -> ShardView {
    match event {
        Event::Received(tx) => spec_ingest(s, tx),
        Event::Closed => spec_close(s),
    }
}

/// The shard after it has been handed each of `txs` in turn.
pub open spec fn spec_ingest_all(s: ShardView, txs: Seq<Transaction>) -> ShardView
    decreases txs.len(),
{
    if txs.len() == 0 {
        s
    } else {
        spec_ingest(spec_ingest_all(s, txs.drop_last()), txs.last())
    }
}

/// The shard's invariant: the chain is linked, the pending batch is short of
/// the threshold, and a terminal shard has nothing pending.
pub open spec fn view_well_formed(s: ShardView) -> bool {
    &&& chain_linked(s.chain)
    &&& (s.pending.len() == 0 || s.pending.len() < s.threshold)
    &&& s.phase == Phase::Terminal ==> s.pending.len() == 0
}

impl View for Shard {
    type V = ShardView;

    closed spec fn view(&self) -> ShardView {
        ShardView {
            id: self.id,
            threshold: self.threshold as nat,
            chain: chain_views(self.chain@),
            pending: self.pending@,
            phase: self.phase,
        }
    }
}

impl Shard {
    /// The shard's invariant holds of it.
    pub open spec fn well_formed(&self) -> bool {
        view_well_formed(self@)
    }

    /// A shard with the default batch threshold.
    pub fn new(id: u32) -> (shard: Shard)
        ensures
            shard.well_formed(),
            shard@ == spec_fresh(id, BATCH_THRESHOLD as nat),
    {
        Shard::with_threshold(id, BATCH_THRESHOLD)
    }

    /// A shard that seals a block as soon as `threshold` transactions are
    /// pending. With a threshold of zero or one, every transaction is sealed
    /// into a block of its own.
    pub fn with_threshold(id: u32, threshold: usize) -> (shard: Shard)
        ensures
            shard.well_formed(),
            shard@ == spec_fresh(id, threshold as nat),
    {
        let shard = Shard {
            id,
            threshold,
            chain: Vec::new(),
            pending: Vec::new(),
            phase: Phase::Draining,
        };
        assert(shard@.chain =~= Seq::<BlockView>::empty());
        shard
    }

    /// The shard's identifier.
    pub fn id(&self) -> (id: u32)
        ensures
            id == self@.id,
    {
        self.id
    }

    /// The number of pending transactions at which a block is sealed.
    pub fn threshold(&self) -> (threshold: usize)
        ensures
            threshold == self@.threshold,
    {
        self.threshold
    }

    /// The ingestor's state.
    pub fn phase(&self) -> (phase: Phase)
        ensures
            phase == self@.phase,
    {
        self.phase
    }

    /// The sealed blocks, oldest first.
    pub fn chain(&self) -> (chain: &Vec<Block>)
        ensures
            chain_views(chain@) == self@.chain,
    {
        &self.chain
    }

    /// The transactions that await sealing, oldest first.
    pub fn pending(&self) -> (pending: &Vec<Transaction>)
        ensures
            pending@ == self@.pending,
    {
        &self.pending
    }

    /// What the sealed blocks of this shard have moved to and from
    /// `address`. Pending transactions do not count.
    ///
    /// Gives nothing exactly when one of the two sums does not fit in 128
    /// bits.
    pub fn balance_of(&self, address: &String) -> (r: Option<Balance>)
        ensures
            match r {
                Some(b) => {
                    &&& b.credited == credited(sealed_transactions(self@.chain), address@)
                    &&& b.debited == debited(sealed_transactions(self@.chain), address@)
                },
                None => {
                    ||| credited(sealed_transactions(self@.chain), address@) > u128::MAX
                    ||| debited(sealed_transactions(self@.chain), address@) > u128::MAX
                },
            },
    {
        balance_in(&self.chain, address)
    }

    /// Checks the shard's invariant: the whole chain, block by block, and
    /// the length of the pending batch.
    pub fn is_sound(&self) -> (sound: bool)
        ensures
            sound == self.well_formed(),
    {
        let short = self.pending.len() == 0 || self.pending.len() < self.threshold;
        let drained = match self.phase {
            Phase::Terminal => self.pending.len() == 0,
            Phase::Draining => true,
        };
        short && drained && verify_chain(&self.chain)
    }

    /// Seals the pending batch into the next block of the chain.
    fn seal_pending(&mut self)
        requires
            chain_linked(old(self)@.chain),
        ensures
            final(self)@ == spec_seal(old(self)@),
            chain_linked(final(self)@.chain),
    {
        let mut batch: Vec<Transaction> = Vec::new();
        core::mem::swap(&mut self.pending, &mut batch);
        let n: usize = self.chain.len();
        let ghost before = old(self)@.chain;
        proof {
            if n > 0 {
                assert(linked_at(before, n - 1));
                assert(before[n - 1] == self.chain@[n - 1]@);
            }
            assert(can_assemble(tail(before)));
        }
        let assembled = if n == 0 {
            assemble(None, batch)
        } else {
            assemble(Some(&self.chain[n - 1]), batch)
        };
        match assembled {
            Ok(block) => {
                proof {
                    assert(block@ == spec_assemble(tail(before), old(self)@.pending));
                    assert(block@.previous_hash == expected_previous_hash(
                        before.push(block@),
                        n as int,
                    ));
                    lemma_push_keeps_linked(before, block@);
                }
                self.chain.push(block);
                assert(chain_views(self.chain@) =~= before.push(block@));
            },
            Err(_) => {
                vstd::pervasive::unreached()
            },
        }
    }

    /// Takes one transaction: appends it to the pending batch and, if the
    /// batch has thereby reached the threshold, seals the batch.
    ///
    /// Fails, with the shard unchanged, exactly when the shard is terminal.
    pub fn ingest(&mut self, tx: Transaction) -> (r: Result<Outcome, SubmitError>)
        requires
            old(self).well_formed(),
        ensures
            final(self).well_formed(),
            final(self)@ == spec_ingest(old(self)@, tx),
            match r {
                Ok(outcome) => {
                    &&& old(self)@.phase == Phase::Draining
                    &&& history(final(self)@) == history(old(self)@).push(tx)
                    &&& outcome == Outcome::Sealed <==> old(self)@.pending.len() + 1 >= old(
                        self,
                    )@.threshold
                },
                Err(e) => {
                    &&& old(self)@.phase == Phase::Terminal
                    &&& e == SubmitError::Closed
                    &&& final(self)@ == old(self)@
                },
            },
    {
        match self.phase {
            Phase::Terminal => Err(SubmitError::Closed),
            Phase::Draining => {
                proof {
                    lemma_ingest_extends_history(self@, tx);
                }
                self.pending.push(tx);
                let ghost buffered = ShardView { pending: old(self)@.pending.push(tx), ..old(self)@ };
                assert(self@ == buffered);
                if self.pending.len() >= self.threshold {
                    self.seal_pending();
                    assert(self@ == spec_seal(buffered));
                    Ok(Outcome::Sealed)
                } else {
                    Ok(Outcome::Buffered)
                }
            },
        }
    }

    /// Closes the shard: seals what is pending, if anything, into a last
    /// block, and makes the shard terminal. Says whether a block was sealed.
    pub fn close(&mut self) -> (sealed: bool)
        requires
            old(self).well_formed(),
        ensures
            final(self).well_formed(),
            final(self)@ == spec_close(old(self)@),
            final(self)@.phase == Phase::Terminal,
            history(final(self)@) == history(old(self)@),
            sealed == (old(self)@.pending.len() > 0),
    {
        proof {
            lemma_close_keeps_history(self@);
        }
        let sealed = self.pending.len() > 0;
        if sealed {
            self.seal_pending();
        }
        self.phase = Phase::Terminal;
        sealed
    }

    /// One turn of the ingestor: applies `event` and says in which state the
    /// shard then is. The caller stops waiting for events once it is terminal.
    pub fn step(&mut self, event: Event) -> (phase: Phase)
        requires
            old(self).well_formed(),
        ensures
            final(self).well_formed(),
            final(self)@ == spec_step(old(self)@, event),
            phase == final(self)@.phase,
            event is Closed ==> phase == Phase::Terminal,
            event is Received ==> phase == old(self)@.phase,
    {
        match event {
            Event::Received(tx) => {
                let _ = self.ingest(tx);
            },
            Event::Closed => {
                let _ = self.close();
            },
        }
        self.phase
    }
}

/// Sealing moves the pending batch to the end of the sealed transactions and
/// changes nothing else in the history.
pub proof fn lemma_seal_keeps_history(s: ShardView)
    ensures
        history(spec_seal(s)) == history(s),
        sealed_transactions(spec_seal(s).chain) == sealed_transactions(s.chain) + s.pending,
{
    let sealed = spec_seal(s);
    assert(sealed.chain.drop_last() =~= s.chain);
    assert(sealed.chain.last().transactions == s.pending);
    assert(sealed_transactions(s.chain) + s.pending + Seq::<Transaction>::empty()
        =~= sealed_transactions(s.chain) + s.pending);
}

/// A draining shard puts each transaction it takes at the end of its history.
pub proof fn lemma_ingest_extends_history(s: ShardView, tx: Transaction)
    requires
        s.phase == Phase::Draining,
    ensures
        history(spec_ingest(s, tx)) == history(s).push(tx),
        spec_ingest(s, tx).phase == Phase::Draining,
{
    let buffered = ShardView { pending: s.pending.push(tx), ..s };
    assert(history(buffered) =~= history(s).push(tx));
    lemma_seal_keeps_history(buffered);
}

/// Closing a shard loses nothing: its history is what it was.
pub proof fn lemma_close_keeps_history(s: ShardView)
    ensures
        history(spec_close(s)) == history(s),
{
    lemma_seal_keeps_history(s);
}

} // verus!
