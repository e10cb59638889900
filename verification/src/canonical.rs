//! The canonical encoding is unambiguous: contents that differ are encoded
//! differently, so a digest of the encoding speaks of one block only.

use vstd::prelude::*;
use crate::encoding::{
    be_bytes, encode_bytes, encode_transaction, encode_transactions, spec_encode_block,
};
use crate::types::Transaction;

verus! {

/// Two transactions say the same: same sender, same recipient, same amount.
pub open spec fn same_transfer(a: Transaction, b: Transaction) -> bool {
    a.from@ == b.from@ && a.to@ == b.to@ && a.amount == b.amount
}

/// Two batches say the same, transaction by transaction.
pub open spec fn same_batch(a: Seq<Transaction>, b: Seq<Transaction>) -> bool {
    a.len() == b.len() && forall|i: int| 0 <= i < a.len() ==> #[trigger] same_transfer(a[i], b[i])
}

/// The lengths in a transaction fit the eight bytes that the encoding gives
/// them. This holds of every transaction in memory.
pub open spec fn transfer_fits(tx: Transaction) -> bool {
    vstd::utf8::encode_utf8(tx.from@).len() <= u64::MAX && vstd::utf8::encode_utf8(tx.to@).len()
        <= u64::MAX
}

/// The lengths in a batch fit the eight bytes that the encoding gives them.
pub open spec fn batch_fits(txs: Seq<Transaction>) -> bool {
    txs.len() <= u64::MAX && forall|i: int| 0 <= i < txs.len() ==> #[trigger] transfer_fits(txs[i])
}

/// An integer can be read back from its eight bytes.
pub proof fn lemma_be_bytes_injective(x: u64, y: u64)
    requires
        be_bytes(x) == be_bytes(y),
    ensures
        x == y,
{
    lemma_value_of_be_bytes(x);
    lemma_value_of_be_bytes(y);
}

/// The integer that eight bytes stand for, most significant first.
pub open spec fn value_of(bytes: Seq<u8>) -> int {
    bytes[0] as int * 0x0100_0000_0000_0000 + bytes[1] as int * 0x0001_0000_0000_0000 + bytes[2] as int
        * 0x0000_0100_0000_0000 + bytes[3] as int * 0x0000_0001_0000_0000 + bytes[4] as int
        * 0x0000_0000_0100_0000 + bytes[5] as int * 0x0000_0000_0001_0000 + bytes[6] as int
        * 0x0000_0000_0000_0100 + bytes[7] as int
}

/// The eight bytes of an integer stand for that integer.
pub proof fn lemma_value_of_be_bytes(x: u64)
    ensures
        value_of(be_bytes(x)) == x,
        be_bytes(x).len() == 8,
{
    reveal(be_bytes);
    let b0: u64 = (x / 0x0100_0000_0000_0000) % 256;
    let b1: u64 = (x / 0x0001_0000_0000_0000) % 256;
    let b2: u64 = (x / 0x0000_0100_0000_0000) % 256;
    let b3: u64 = (x / 0x0000_0001_0000_0000) % 256;
    let b4: u64 = (x / 0x0000_0000_0100_0000) % 256;
    let b5: u64 = (x / 0x0000_0000_0001_0000) % 256;
    let b6: u64 = (x / 0x0000_0000_0000_0100) % 256;
    let b7: u64 = x % 256;
    assert(x == b0 * 0x0100_0000_0000_0000 + b1 * 0x0001_0000_0000_0000 + b2
        * 0x0000_0100_0000_0000 + b3 * 0x0000_0001_0000_0000 + b4 * 0x0000_0000_0100_0000 + b5
        * 0x0000_0000_0001_0000 + b6 * 0x0000_0000_0000_0100 + b7) by (bit_vector)
        requires
            b0 == (x / 0x0100_0000_0000_0000) % 256,
            b1 == (x / 0x0001_0000_0000_0000) % 256,
            b2 == (x / 0x0000_0100_0000_0000) % 256,
            b3 == (x / 0x0000_0001_0000_0000) % 256,
            b4 == (x / 0x0000_0000_0100_0000) % 256,
            b5 == (x / 0x0000_0000_0001_0000) % 256,
            b6 == (x / 0x0000_0000_0000_0100) % 256,
            b7 == x % 256,
    ;
    let b = be_bytes(x);
    assert(b[0] == b0 && b[1] == b1 && b[2] == b2 && b[3] == b3);
    assert(b[4] == b4 && b[5] == b5 && b[6] == b6 && b[7] == b7);
}

/// An address can be read back from its UTF-8 encoding.
pub proof fn lemma_utf8_injective(a: Seq<char>, b: Seq<char>)
    requires
        vstd::utf8::encode_utf8(a) == vstd::utf8::encode_utf8(b),
    ensures
        a == b,
{
    vstd::utf8::encode_utf8_decode_utf8(a);
    vstd::utf8::encode_utf8_decode_utf8(b);
}

/// An integer at the front of an encoding can be read off it: where two
/// encodings agree, the integers and what follows them agree.
pub proof fn lemma_integer_prefix(x: u64, after_x: Seq<u8>, y: u64, after_y: Seq<u8>)
    requires
        be_bytes(x) + after_x == be_bytes(y) + after_y,
    ensures
        x == y,
        after_x == after_y,
{
    let left = be_bytes(x) + after_x;
    let right = be_bytes(y) + after_y;
    lemma_value_of_be_bytes(x);
    lemma_value_of_be_bytes(y);
    assert(be_bytes(x) =~= left.subrange(0, 8));
    assert(be_bytes(y) =~= right.subrange(0, 8));
    lemma_be_bytes_injective(x, y);
    assert(after_x =~= left.skip(8));
    assert(after_y =~= right.skip(8));
}

/// A byte string at the front of an encoding can be read off it.
pub proof fn lemma_bytes_prefix(a: Seq<u8>, after_a: Seq<u8>, b: Seq<u8>, after_b: Seq<u8>)
    requires
        a.len() <= u64::MAX,
        b.len() <= u64::MAX,
        encode_bytes(a) + after_a == encode_bytes(b) + after_b,
    ensures
        a == b,
        after_a == after_b,
{
    let left = encode_bytes(a) + after_a;
    let right = encode_bytes(b) + after_b;
    lemma_value_of_be_bytes(a.len() as u64);
    lemma_value_of_be_bytes(b.len() as u64);
    assert(left =~= be_bytes(a.len() as u64) + (a + after_a));
    assert(right =~= be_bytes(b.len() as u64) + (b + after_b));
    lemma_integer_prefix(a.len() as u64, a + after_a, b.len() as u64, b + after_b);
    assert(a =~= (a + after_a).subrange(0, a.len() as int));
    assert(b =~= (b + after_b).subrange(0, b.len() as int));
    assert(after_a =~= (a + after_a).skip(a.len() as int));
    assert(after_b =~= (b + after_b).skip(b.len() as int));
}

/// A transaction at the front of an encoding can be read off it.
pub proof fn lemma_transaction_prefix(
    a: Transaction,
    after_a: Seq<u8>,
    b: Transaction,
    after_b: Seq<u8>,
)
    requires
        transfer_fits(a),
        transfer_fits(b),
        encode_transaction(a) + after_a == encode_transaction(b) + after_b,
    ensures
        same_transfer(a, b),
        after_a == after_b,
{
    let from_a = vstd::utf8::encode_utf8(a.from@);
    let from_b = vstd::utf8::encode_utf8(b.from@);
    let to_a = vstd::utf8::encode_utf8(a.to@);
    let to_b = vstd::utf8::encode_utf8(b.to@);
    let tail_a = be_bytes(a.amount) + after_a;
    let tail_b = be_bytes(b.amount) + after_b;
    assert(encode_transaction(a) + after_a =~= encode_bytes(from_a) + (encode_bytes(to_a)
        + tail_a));
    assert(encode_transaction(b) + after_b =~= encode_bytes(from_b) + (encode_bytes(to_b)
        + tail_b));
    lemma_bytes_prefix(from_a, encode_bytes(to_a) + tail_a, from_b, encode_bytes(to_b) + tail_b);
    lemma_bytes_prefix(to_a, tail_a, to_b, tail_b);
    lemma_integer_prefix(a.amount, after_a, b.amount, after_b);
    lemma_utf8_injective(a.from@, b.from@);
    lemma_utf8_injective(a.to@, b.to@);
}

/// A batch is encoded as its first transaction, then the rest.
pub proof fn lemma_encode_transactions_front(txs: Seq<Transaction>)
    requires
        txs.len() > 0,
    ensures
        encode_transactions(txs) == encode_transaction(txs[0]) + encode_transactions(txs.skip(1)),
    decreases txs.len(),
{
    if txs.len() == 1 {
        assert(txs.drop_last() =~= Seq::<Transaction>::empty());
        assert(txs.skip(1) =~= Seq::<Transaction>::empty());
        assert(encode_transactions(txs) =~= encode_transaction(txs[0]) + encode_transactions(
            txs.skip(1),
        ));
    } else {
        lemma_encode_transactions_front(txs.drop_last());
        assert(txs.drop_last().skip(1) =~= txs.skip(1).drop_last());
        assert(txs.skip(1).last() == txs.last());
        assert(txs.drop_last()[0] == txs[0]);
        assert(encode_transactions(txs) =~= encode_transaction(txs[0]) + encode_transactions(
            txs.skip(1),
        ));
    }
}

/// A batch of known length at the front of an encoding can be read off it.
pub proof fn lemma_batch_prefix(
    a: Seq<Transaction>,
    after_a: Seq<u8>,
    b: Seq<Transaction>,
    after_b: Seq<u8>,
)
    requires
        a.len() == b.len(),
        batch_fits(a),
        batch_fits(b),
        encode_transactions(a) + after_a == encode_transactions(b) + after_b,
    ensures
        same_batch(a, b),
        after_a == after_b,
    decreases a.len(),
{
    if a.len() == 0 {
        assert(encode_transactions(a) + after_a =~= after_a);
        assert(encode_transactions(b) + after_b =~= after_b);
    } else {
        lemma_encode_transactions_front(a);
        lemma_encode_transactions_front(b);
        let rest_a = encode_transactions(a.skip(1)) + after_a;
        let rest_b = encode_transactions(b.skip(1)) + after_b;
        assert(encode_transactions(a) + after_a =~= encode_transaction(a[0]) + rest_a);
        assert(encode_transactions(b) + after_b =~= encode_transaction(b[0]) + rest_b);
        assert(transfer_fits(a[0]) && transfer_fits(b[0]));
        lemma_transaction_prefix(a[0], rest_a, b[0], rest_b);
        assert forall|i: int| 0 <= i < a.skip(1).len() implies #[trigger] transfer_fits(
            a.skip(1)[i],
        ) by {
            assert(transfer_fits(a[i + 1]));
        }
        assert forall|i: int| 0 <= i < b.skip(1).len() implies #[trigger] transfer_fits(
            b.skip(1)[i],
        ) by {
            assert(transfer_fits(b[i + 1]));
        }
        lemma_batch_prefix(a.skip(1), after_a, b.skip(1), after_b);
        assert forall|i: int| 0 <= i < a.len() implies #[trigger] same_transfer(a[i], b[i]) by {
            if i > 0 {
                assert(same_transfer(a.skip(1)[i - 1], b.skip(1)[i - 1]));
            }
        }
    }
}

/// A block's encoding, read from the front: its id, then the count of its
/// transactions, then the transactions, then the previous hash.
pub proof fn lemma_block_layout(id: u64, txs: Seq<Transaction>, previous: Seq<u8>)
    ensures
        spec_encode_block(id, txs, previous) == be_bytes(id) + (be_bytes(txs.len() as u64) + (
        encode_transactions(txs) + encode_bytes(previous))),
{
    assert(spec_encode_block(id, txs, previous) =~= be_bytes(id) + (be_bytes(txs.len() as u64) + (
    encode_transactions(txs) + encode_bytes(previous))));
}

/// The encoding is unambiguous: blocks whose contents are encoded alike have
/// the same id, the same batch and the same previous hash.
pub proof fn lemma_encoding_unambiguous(
    id_a: u64,
    txs_a: Seq<Transaction>,
    previous_a: Seq<u8>,
    id_b: u64,
    txs_b: Seq<Transaction>,
    previous_b: Seq<u8>,
)
    requires
        batch_fits(txs_a),
        batch_fits(txs_b),
        previous_a.len() <= u64::MAX,
        previous_b.len() <= u64::MAX,
        spec_encode_block(id_a, txs_a, previous_a) == spec_encode_block(id_b, txs_b, previous_b),
    ensures
        id_a == id_b,
        same_batch(txs_a, txs_b),
        previous_a == previous_b,
{
    let end_a = encode_bytes(previous_a);
    let end_b = encode_bytes(previous_b);
    let body_a = encode_transactions(txs_a) + end_a;
    let body_b = encode_transactions(txs_b) + end_b;
    let counted_a = be_bytes(txs_a.len() as u64) + body_a;
    let counted_b = be_bytes(txs_b.len() as u64) + body_b;
    lemma_block_layout(id_a, txs_a, previous_a);
    lemma_block_layout(id_b, txs_b, previous_b);
    lemma_integer_prefix(id_a, counted_a, id_b, counted_b);
    lemma_integer_prefix(txs_a.len() as u64, body_a, txs_b.len() as u64, body_b);
    lemma_batch_prefix(txs_a, end_a, txs_b, end_b);
    assert(end_a + Seq::<u8>::empty() =~= end_a);
    assert(end_b + Seq::<u8>::empty() =~= end_b);
    lemma_bytes_prefix(previous_a, Seq::<u8>::empty(), previous_b, Seq::<u8>::empty());
}

} // verus!
