use shard_ledger::assembler::{assemble, hash_block};
use shard_ledger::chain::verify_chain;
use shard_ledger::error::{InvalidAddress, SubmitError};
use shard_ledger::manager::ShardManager;
use shard_ledger::shard::{Event, Outcome, Phase, Shard, BATCH_THRESHOLD};
use shard_ledger::types::Transaction;

fn transfer(from: &str, to: &str, amount: u64) -> Transaction {
    Transaction::new(from.to_string(), to.to_string(), amount)
}

fn numbered(n: u64) -> Transaction {
    transfer("Alice", "Bob", n)
}

fn sealed(shard: &Shard) -> Vec<Transaction> {
    let mut all = Vec::new();
    for block in shard.chain() {
        all.extend(block.transactions.iter().cloned());
    }
    all
}

#[test]
fn fresh_shard_is_empty_and_draining() {
    let shard = Shard::new(3);
    assert_eq!(shard.id(), 3);
    assert_eq!(shard.threshold(), 10);
    assert_eq!(BATCH_THRESHOLD, 10);
    assert_eq!(shard.phase(), Phase::Draining);
    assert!(shard.chain().is_empty());
    assert!(shard.pending().is_empty());
}

#[test]
fn ten_transactions_seal_one_block() {
    let mut shard = Shard::new(0);
    for n in 0..9 {
        assert_eq!(shard.ingest(numbered(n)), Ok(Outcome::Buffered));
        assert_eq!(shard.chain().len(), 0);
        assert_eq!(shard.pending().len(), (n + 1) as usize);
    }
    assert_eq!(shard.ingest(numbered(9)), Ok(Outcome::Sealed));
    assert_eq!(shard.chain().len(), 1);
    assert_eq!(shard.pending().len(), 0);
    assert_eq!(shard.chain()[0].transactions.len(), 10);
}

#[test]
fn eleventh_transaction_waits() {
    let mut shard = Shard::new(0);
    for n in 0..11 {
        shard.ingest(numbered(n)).unwrap();
    }
    assert_eq!(shard.chain().len(), 1);
    assert_eq!(shard.pending().len(), 1);
    assert_eq!(shard.pending()[0], numbered(10));
}

#[test]
fn transactions_are_sealed_in_receipt_order() {
    let mut shard = Shard::with_threshold(0, 4);
    let all: Vec<Transaction> = (0..23).map(numbered).collect();
    for tx in all.iter().cloned() {
        shard.ingest(tx).unwrap();
    }
    assert_eq!(shard.chain().len(), 5);
    let mut seen = sealed(&shard);
    assert_eq!(seen, all[..20].to_vec());
    seen.extend(shard.pending().iter().cloned());
    assert_eq!(seen, all);
}

#[test]
fn sealed_and_pending_count_what_was_taken() {
    let mut shard = Shard::with_threshold(0, 3);
    for n in 0..50u64 {
        shard.ingest(numbered(n)).unwrap();
        let in_blocks: usize = shard.chain().iter().map(|b| b.transactions.len()).sum();
        assert_eq!(in_blocks + shard.pending().len(), (n + 1) as usize);
    }
}

#[test]
fn chain_is_linked() {
    let mut shard = Shard::with_threshold(0, 2);
    for n in 0..9 {
        shard.ingest(numbered(n)).unwrap();
    }
    let chain = shard.chain();
    assert_eq!(chain.len(), 4);
    assert_eq!(chain[0].previous_hash, vec![0u8; 32]);
    for i in 0..chain.len() {
        assert_eq!(chain[i].id, i as u64);
        assert_eq!(chain[i].hash, hash_block(&chain[i]));
        if i > 0 {
            assert_eq!(chain[i].previous_hash, chain[i - 1].hash);
        }
    }
    assert!(verify_chain(chain));
}

#[test]
fn shard_seals_what_the_assembler_gives() {
    let mut shard = Shard::with_threshold(0, 2);
    for n in 0..4 {
        shard.ingest(numbered(n)).unwrap();
    }
    let first = assemble(None, vec![numbered(0), numbered(1)]).unwrap();
    let second = assemble(Some(&first), vec![numbered(2), numbered(3)]).unwrap();
    assert_eq!(shard.chain(), &vec![first, second]);
}

#[test]
fn verify_chain_finds_a_broken_chain() {
    let mut shard = Shard::with_threshold(0, 1);
    for n in 0..3 {
        shard.ingest(numbered(n)).unwrap();
    }
    let good = shard.chain().clone();
    assert!(verify_chain(&good));
    assert!(verify_chain(&Vec::new()));

    let mut wrong_amount = good.clone();
    wrong_amount[1].transactions[0].amount = 1000;
    assert!(!verify_chain(&wrong_amount));

    let mut wrong_id = good.clone();
    wrong_id[2].id = 5;
    assert!(!verify_chain(&wrong_id));

    let mut wrong_genesis = good.clone();
    wrong_genesis[0].previous_hash = vec![1u8; 32];
    assert!(!verify_chain(&wrong_genesis));

    let mut wrong_link = good.clone();
    wrong_link[2].previous_hash = good[0].hash.clone();
    assert!(!verify_chain(&wrong_link));

    let mut missing = good.clone();
    missing.remove(0);
    assert!(!verify_chain(&missing));
}

#[test]
fn threshold_of_zero_or_one_seals_each_transaction() {
    for threshold in [0usize, 1] {
        let mut shard = Shard::with_threshold(0, threshold);
        for n in 0..3 {
            assert_eq!(shard.ingest(numbered(n)), Ok(Outcome::Sealed));
        }
        assert_eq!(shard.chain().len(), 3);
        assert!(shard.pending().is_empty());
        assert!(verify_chain(shard.chain()));
    }
}

#[test]
fn closing_seals_a_partial_batch() {
    let mut shard = Shard::new(0);
    for n in 0..3 {
        shard.ingest(numbered(n)).unwrap();
    }
    assert!(shard.close());
    assert_eq!(shard.phase(), Phase::Terminal);
    assert_eq!(shard.chain().len(), 1);
    assert!(shard.pending().is_empty());
    assert_eq!(sealed(&shard), vec![numbered(0), numbered(1), numbered(2)]);
    assert!(verify_chain(shard.chain()));
}

#[test]
fn shards_stay_sound() {
    let mut shard = Shard::with_threshold(0, 3);
    assert!(shard.is_sound());
    for n in 0..8 {
        shard.ingest(numbered(n)).unwrap();
        assert!(shard.is_sound());
    }
    shard.close();
    assert!(shard.is_sound());
}

#[test]
fn closing_an_empty_batch_seals_nothing() {
    let mut shard = Shard::with_threshold(0, 2);
    shard.ingest(numbered(0)).unwrap();
    shard.ingest(numbered(1)).unwrap();
    assert!(!shard.close());
    assert_eq!(shard.chain().len(), 1);
    assert_eq!(shard.phase(), Phase::Terminal);
    assert!(!shard.close());
    assert_eq!(shard.chain().len(), 1);
}

#[test]
fn terminal_shard_takes_nothing() {
    let mut shard = Shard::new(0);
    shard.ingest(numbered(0)).unwrap();
    shard.close();
    let chain = shard.chain().clone();
    assert_eq!(shard.ingest(numbered(1)), Err(SubmitError::Closed));
    assert_eq!(shard.chain(), &chain);
    assert!(shard.pending().is_empty());
    assert_eq!(shard.phase(), Phase::Terminal);
}

#[test]
fn step_follows_the_state_machine() {
    let mut shard = Shard::with_threshold(0, 2);
    assert_eq!(shard.step(Event::Received(numbered(0))), Phase::Draining);
    assert_eq!(shard.pending().len(), 1);
    assert_eq!(shard.step(Event::Received(numbered(1))), Phase::Draining);
    assert_eq!(shard.chain().len(), 1);
    assert_eq!(shard.step(Event::Received(numbered(2))), Phase::Draining);
    assert_eq!(shard.step(Event::Closed), Phase::Terminal);
    assert_eq!(shard.chain().len(), 2);
    assert_eq!(shard.step(Event::Received(numbered(3))), Phase::Terminal);
    assert_eq!(shard.chain().len(), 2);
    assert!(shard.pending().is_empty());
}

#[test]
fn manager_makes_numbered_shards() {
    let manager = ShardManager::new(4);
    assert_eq!(manager.shard_count(), 4);
    for id in 0..4 {
        let shard = manager.shard(id).unwrap();
        assert_eq!(shard.id(), id);
        assert_eq!(shard.threshold(), 10);
        assert!(shard.chain().is_empty());
    }
    assert!(manager.shard(4).is_none());
}

#[test]
fn manager_routes_by_sender() {
    let manager = ShardManager::new(4);
    assert_eq!(manager.calculate_shard_id("Alice"), Ok(2));
    assert_eq!(manager.calculate_shard_id("Bob"), Ok(3));
    assert_eq!(manager.calculate_shard_id(""), Err(InvalidAddress));
    assert_eq!(manager.get_shard("Alice").unwrap().id(), 2);
    assert!(manager.get_shard("").is_err());
}

#[test]
fn manager_without_shards_routes_nothing() {
    let mut manager = ShardManager::new(0);
    assert_eq!(manager.shard_count(), 0);
    assert_eq!(manager.calculate_shard_id("Alice"), Err(InvalidAddress));
    assert_eq!(manager.submit(numbered(1)), Err(SubmitError::InvalidAddress));
}

#[test]
fn submit_reaches_only_the_owning_shard() {
    let mut manager = ShardManager::new(4);
    for n in 0..11 {
        assert_eq!(manager.submit(numbered(n)), Ok(()));
    }
    assert_eq!(manager.submit(transfer("Bob", "Alice", 5)), Ok(()));
    for id in 0..4 {
        let shard = manager.shard(id).unwrap();
        match id {
            2 => {
                assert_eq!(shard.chain().len(), 1);
                assert_eq!(shard.pending(), &vec![numbered(10)]);
            }
            3 => {
                assert_eq!(shard.chain().len(), 0);
                assert_eq!(shard.pending(), &vec![transfer("Bob", "Alice", 5)]);
            }
            _ => {
                assert!(shard.chain().is_empty());
                assert!(shard.pending().is_empty());
            }
        }
    }
}

#[test]
fn submit_rejects_an_empty_sender() {
    let mut manager = ShardManager::new(4);
    assert_eq!(manager.submit(transfer("", "Bob", 1)), Err(SubmitError::InvalidAddress));
    for id in 0..4 {
        assert!(manager.shard(id).unwrap().pending().is_empty());
    }
}

#[test]
fn close_all_drains_every_shard() {
    let mut manager = ShardManager::new(4);
    manager.submit(numbered(1)).unwrap();
    manager.submit(transfer("Bob", "Alice", 2)).unwrap();
    manager.close_all();
    for id in 0..4 {
        let shard = manager.shard(id).unwrap();
        assert_eq!(shard.phase(), Phase::Terminal);
        assert!(shard.pending().is_empty());
        assert_eq!(shard.chain().len(), if id == 2 || id == 3 { 1 } else { 0 });
    }
    assert_eq!(manager.submit(numbered(3)), Err(SubmitError::Closed));
    assert_eq!(manager.shard(2).unwrap().chain().len(), 1);
}

#[test]
fn into_shards_keeps_order_and_state() {
    let mut manager = ShardManager::new(3);
    manager.submit(transfer("Bob", "Alice", 2)).unwrap();
    let shards = manager.into_shards();
    assert_eq!(shards.len(), 3);
    for (i, shard) in shards.iter().enumerate() {
        assert_eq!(shard.id(), i as u32);
    }
    // 275 % 3 = 2
    assert_eq!(shards[2].pending(), &vec![transfer("Bob", "Alice", 2)]);
}
