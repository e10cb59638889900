//! Balances, read off the sealed blocks.
//!
//! A transaction moves its amount when it is sealed into a block, not when it
//! is received: a pending transaction has moved nothing yet. So what a chain
//! has moved to and from an address is a function of its blocks alone, and no
//! table is kept beside them. Nothing is minted here, and whether a sender
//! can afford a transfer is settled before the transaction is submitted, so
//! an address may have had more debited than credited.

use vstd::prelude::*;
use crate::chain::{chain_views, sealed_transactions};
use crate::types::{Block, BlockView, Transaction};

verus! {

/// What was moved to and from one address.
#[derive(Clone, Copy, Debug, PartialEq, Eq, Structural)]
pub struct Balance {
    /// The sum of the amounts sent to the address.
    pub credited: u128,
    /// The sum of the amounts sent from the address.
    pub debited: u128,
}

/// Whether `tx` moves its amount to `address` (`incoming`) or from it.
pub open spec fn touches(tx: Transaction, address: Seq<char>, incoming: bool) -> bool {
    if incoming {
        tx.to@ == address
    } else {
        tx.from@ == address
    }
}

/// The sum of the amounts that `txs` move to `address` (`incoming`) or from it.
pub open spec fn moved(txs: Seq<Transaction>, address: Seq<char>, incoming: bool) -> nat
    decreases txs.len(),
{
    if txs.len() == 0 {
        0
    } else {
        moved(txs.drop_last(), address, incoming) + if touches(txs.last(), address, incoming) {
            txs.last().amount as nat
        } else {
            0
        }
    }
}

/// The sum of the amounts that `txs` send to `address`.
pub open spec fn credited(txs: Seq<Transaction>, address: Seq<char>) -> nat {
    moved(txs, address, true)
}

/// The sum of the amounts that `txs` send from `address`.
pub open spec fn debited(txs: Seq<Transaction>, address: Seq<char>) -> nat {
    moved(txs, address, false)
}

/// What two runs of transactions move is the sum of what each moves.
pub proof fn lemma_moved_concat(
    a: Seq<Transaction>,
    b: Seq<Transaction>,
    address: Seq<char>,
    incoming: bool,
)
    ensures
        moved(a + b, address, incoming) == moved(a, address, incoming) + moved(
            b,
            address,
            incoming,
        ),
    decreases b.len(),
{
    if b.len() == 0 {
        assert(a + b =~= a);
    } else {
        assert((a + b).drop_last() =~= a + b.drop_last());
        assert((a + b).last() == b.last());
        lemma_moved_concat(a, b.drop_last(), address, incoming);
    }
}

/// The first blocks of a chain have moved no more than the whole chain.
pub proof fn lemma_moved_prefix(
    chain: Seq<BlockView>,
    i: int,
    address: Seq<char>,
    incoming: bool,
)
    requires
        0 <= i <= chain.len(),
    ensures
        moved(sealed_transactions(chain.take(i)), address, incoming) <= moved(
            sealed_transactions(chain),
            address,
            incoming,
        ),
    decreases chain.len(),
{
    if i == chain.len() {
        assert(chain.take(i) =~= chain);
    } else {
        assert(chain.drop_last().take(i) =~= chain.take(i));
        lemma_moved_prefix(chain.drop_last(), i, address, incoming);
        lemma_moved_concat(
            sealed_transactions(chain.drop_last()),
            chain.last().transactions,
            address,
            incoming,
        );
    }
}

/// Adds to `start` what `txs` move to and from `address`.
///
/// Gives nothing exactly when one of the two sums no longer fits.
pub fn tally(txs: &Vec<Transaction>, address: &String, start: Balance) -> (r: Option<Balance>)
    ensures
        match r {
            Some(b) => {
                &&& b.credited == start.credited + credited(txs@, address@)
                &&& b.debited == start.debited + debited(txs@, address@)
            },
            None => {
                ||| start.credited + credited(txs@, address@) > u128::MAX
                ||| start.debited + debited(txs@, address@) > u128::MAX
            },
        },
{
    let mut running = start;
    let mut j: usize = 0;
    while j < txs.len()
        invariant
            j <= txs.len(),
            running.credited == start.credited + credited(txs@.take(j as int), address@),
            running.debited == start.debited + debited(txs@.take(j as int), address@),
        decreases txs.len() - j,
    {
        let tx = &txs[j];
        proof {
            let next = txs@.take(j as int + 1);
            assert(next.drop_last() =~= txs@.take(j as int));
            assert(next.last() == txs@[j as int]);
            assert(txs@ =~= next + txs@.skip(j as int + 1));
            lemma_moved_concat(next, txs@.skip(j as int + 1), address@, true);
            lemma_moved_concat(next, txs@.skip(j as int + 1), address@, false);
        }
        if tx.to == *address {
            if running.credited > u128::MAX - (tx.amount as u128) {
                return None;
            }
            running.credited = running.credited + tx.amount as u128;
        }
        if tx.from == *address {
            if running.debited > u128::MAX - (tx.amount as u128) {
                return None;
            }
            running.debited = running.debited + tx.amount as u128;
        }
        j += 1;
    }
    assert(txs@.take(txs@.len() as int) =~= txs@);
    Some(running)
}

/// What the blocks of `chain` have moved to and from `address`.
///
/// Gives nothing exactly when one of the two sums does not fit in 128 bits.
pub fn balance_in(chain: &Vec<Block>, address: &String) -> (r: Option<Balance>)
    ensures
        match r {
            Some(b) => {
                &&& b.credited == credited(sealed_transactions(chain_views(chain@)), address@)
                &&& b.debited == debited(sealed_transactions(chain_views(chain@)), address@)
            },
            None => {
                ||| credited(sealed_transactions(chain_views(chain@)), address@) > u128::MAX
                ||| debited(sealed_transactions(chain_views(chain@)), address@) > u128::MAX
            },
        },
{
    let ghost views = chain_views(chain@);
    let mut running = Balance { credited: 0, debited: 0 };
    let mut i: usize = 0;
    while i < chain.len()
        invariant
            i <= chain.len(),
            views == chain_views(chain@),
            running.credited == credited(sealed_transactions(views.take(i as int)), address@),
            running.debited == debited(sealed_transactions(views.take(i as int)), address@),
        decreases chain.len() - i,
    {
        proof {
            let next = views.take(i as int + 1);
            assert(next.drop_last() =~= views.take(i as int));
            assert(next.last().transactions == chain@[i as int].transactions@);
            lemma_moved_concat(
                sealed_transactions(views.take(i as int)),
                chain@[i as int].transactions@,
                address@,
                true,
            );
            lemma_moved_concat(
                sealed_transactions(views.take(i as int)),
                chain@[i as int].transactions@,
                address@,
                false,
            );
            lemma_moved_prefix(views, i as int + 1, address@, true);
            lemma_moved_prefix(views, i as int + 1, address@, false);
        }
        match tally(&chain[i].transactions, address, running) {
            Some(next) => {
                running = next;
            },
            None => {
                return None;
            },
        }
        i += 1;
    }
    assert(views.take(views.len() as int) =~= views);
    Some(running)
}

} // verus!
