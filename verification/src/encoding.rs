//! The canonical encoding of a block's contents, over which it is hashed.
//!
//! Every integer is written as eight bytes, most significant first. A byte
//! string is written as its length, as such an integer, followed by its
//! bytes. A transaction is its sender's address, its recipient's address
//! (each as the byte string of its UTF-8 encoding) and its amount. A block's
//! contents are its id, the number of its transactions, the transactions in
//! order, and the previous hash as a byte string.

use vstd::prelude::*;
use crate::types::Transaction;

verus! {


/// The eight bytes of `x`, most significant first.
#[verifier::opaque]
pub open spec fn be_bytes(x: u64) -> Seq<u8> {
    seq![
        ((x / 0x0100_0000_0000_0000) % 256) as u8,
        ((x / 0x0001_0000_0000_0000) % 256) as u8,
        ((x / 0x0000_0100_0000_0000) % 256) as u8,
        ((x / 0x0000_0001_0000_0000) % 256) as u8,
        ((x / 0x0000_0000_0100_0000) % 256) as u8,
        ((x / 0x0000_0000_0001_0000) % 256) as u8,
        ((x / 0x0000_0000_0000_0100) % 256) as u8,
        (x % 256) as u8,
    ]
}

/// A byte string: its length, then its bytes.
pub open spec fn encode_bytes(data: Seq<u8>) -> Seq<u8> {
    be_bytes(data.len() as u64) + data
}

/// A transaction: sender, recipient, amount.
pub open spec fn encode_transaction(tx: Transaction) -> Seq<u8> {
    encode_bytes(vstd::utf8::encode_utf8(tx.from@)) + encode_bytes(
        vstd::utf8::encode_utf8(tx.to@),
    ) + be_bytes(tx.amount)
}

/// The transactions of a batch, one after another.
pub open spec fn encode_transactions(txs: Seq<Transaction>) -> Seq<u8>
    decreases txs.len(),
{
    if txs.len() == 0 {
        Seq::<u8>::empty()
    } else {
        encode_transactions(txs.drop_last()) + encode_transaction(txs.last())
    }
}

/// A block's contents: id, transaction count, transactions, previous hash.
pub open spec fn spec_encode_block(
    id: u64,
    transactions: Seq<Transaction>,
    previous_hash: Seq<u8>,
) -> Seq<u8> {
    be_bytes(id) + be_bytes(transactions.len() as u64) + encode_transactions(transactions)
        + encode_bytes(previous_hash)
}

/// Appends the eight bytes of `x`, most significant first.
pub fn push_u64(out: &mut Vec<u8>, x: u64)
    ensures
        final(out)@ == old(out)@ + be_bytes(x),
{
    out.push(((x / 0x0100_0000_0000_0000) % 256) as u8);
    out.push(((x / 0x0001_0000_0000_0000) % 256) as u8);
    out.push(((x / 0x0000_0100_0000_0000) % 256) as u8);
    out.push(((x / 0x0000_0001_0000_0000) % 256) as u8);
    out.push(((x / 0x0000_0000_0100_0000) % 256) as u8);
    out.push(((x / 0x0000_0000_0001_0000) % 256) as u8);
    out.push(((x / 0x0000_0000_0000_0100) % 256) as u8);
    out.push((x % 256) as u8);
    proof {
        reveal(be_bytes);
        assert(out@ =~= old(out)@ + be_bytes(x));
    }
}

/// Appends a byte string: its length, then its bytes.
pub fn push_bytes(out: &mut Vec<u8>, data: &[u8])
    ensures
        final(out)@ == old(out)@ + encode_bytes(data@),
{
    push_u64(out, data.len() as u64);
    let mut i: usize = 0;
    while i < data.len()
        invariant
            i <= data.len(),
            out@ == old(out)@ + be_bytes(data@.len() as u64) + data@.take(i as int),
        decreases data.len() - i,
    {
        out.push(data[i]);
        assert(data@.take(i as int + 1) =~= data@.take(i as int).push(data@[i as int]));
        assert(out@ =~= old(out)@ + be_bytes(data@.len() as u64) + data@.take(i as int + 1));
        i += 1;
    }
    assert(data@.take(data@.len() as int) =~= data@);
    assert(out@ =~= old(out)@ + encode_bytes(data@));
}

/// Appends one transaction.
pub fn push_transaction(out: &mut Vec<u8>, tx: &Transaction)
    ensures
        final(out)@ == old(out)@ + encode_transaction(*tx),
{
    push_bytes(out, tx.from.as_str().as_bytes());
    push_bytes(out, tx.to.as_str().as_bytes());
    push_u64(out, tx.amount);
    assert(out@ =~= old(out)@ + encode_transaction(*tx));
}

/// The canonical encoding of a block's contents.
pub fn encode_block(id: u64, transactions: &Vec<Transaction>, previous_hash: &Vec<u8>) -> (out:
    Vec<u8>)
    ensures
        out@ == spec_encode_block(id, transactions@, previous_hash@),
{
    let mut out: Vec<u8> = Vec::new();
    push_u64(&mut out, id);
    push_u64(&mut out, transactions.len() as u64);
    let ghost head = out@;
    let mut i: usize = 0;
    while i < transactions.len()
        invariant
            i <= transactions.len(),
            head == be_bytes(id) + be_bytes(transactions@.len() as u64),
            out@ == head + encode_transactions(transactions@.take(i as int)),
        decreases transactions.len() - i,
    {
        push_transaction(&mut out, &transactions[i]);
        proof {
            let next = transactions@.take(i as int + 1);
            assert(next.drop_last() =~= transactions@.take(i as int));
            assert(next.last() == transactions@[i as int]);
            assert(out@ =~= head + encode_transactions(next));
        }
        i += 1;
    }
    assert(transactions@.take(transactions@.len() as int) =~= transactions@);
    push_bytes(&mut out, previous_hash.as_slice());
    assert(out@ =~= spec_encode_block(id, transactions@, previous_hash@));
    out
}

} // verus!
