use shard_ledger::assembler::assemble;
use shard_ledger::balance::{balance_in, tally, Balance};
use shard_ledger::shard::Shard;
use shard_ledger::types::Transaction;

fn transfer(from: &str, to: &str, amount: u64) -> Transaction {
    Transaction::new(from.to_string(), to.to_string(), amount)
}

const NOTHING: Balance = Balance { credited: 0, debited: 0 };

#[test]
fn tally_adds_both_directions() {
    let txs = vec![
        transfer("Alice", "Bob", 10),
        transfer("Bob", "Carol", 3),
        transfer("Carol", "Bob", 1),
        transfer("Bob", "Bob", 5),
    ];
    let bob = "Bob".to_string();
    assert_eq!(tally(&txs, &bob, NOTHING), Some(Balance { credited: 16, debited: 8 }));
    let alice = "Alice".to_string();
    assert_eq!(tally(&txs, &alice, NOTHING), Some(Balance { credited: 0, debited: 10 }));
    let dave = "Dave".to_string();
    assert_eq!(tally(&txs, &dave, NOTHING), Some(NOTHING));
    let start = Balance { credited: 100, debited: 7 };
    assert_eq!(tally(&txs, &bob, start), Some(Balance { credited: 116, debited: 15 }));
    assert_eq!(tally(&Vec::new(), &bob, start), Some(start));
}

#[test]
fn tally_stops_where_a_sum_no_longer_fits() {
    let bob = "Bob".to_string();
    let txs = vec![transfer("Alice", "Bob", 10)];
    let brim = Balance { credited: u128::MAX - 10, debited: 0 };
    assert_eq!(tally(&txs, &bob, brim), Some(Balance { credited: u128::MAX, debited: 0 }));
    let over = Balance { credited: u128::MAX - 9, debited: 0 };
    assert_eq!(tally(&txs, &bob, over), None);
    let alice = "Alice".to_string();
    let spent = Balance { credited: 0, debited: u128::MAX };
    assert_eq!(tally(&txs, &alice, spent), None);
    assert_eq!(tally(&txs, &bob, spent), Some(Balance { credited: 10, debited: u128::MAX }));
}

#[test]
fn amounts_do_not_wrap_at_sixty_four_bits() {
    let bob = "Bob".to_string();
    let txs = vec![transfer("Alice", "Bob", u64::MAX), transfer("Alice", "Bob", u64::MAX)];
    assert_eq!(
        tally(&txs, &bob, NOTHING),
        Some(Balance { credited: 2 * (u64::MAX as u128), debited: 0 })
    );
}

#[test]
fn balance_runs_over_all_blocks() {
    let first = assemble(None, vec![transfer("Alice", "Bob", 10), transfer("Bob", "Carol", 3)])
        .unwrap();
    let second = assemble(Some(&first), vec![transfer("Alice", "Bob", 2)]).unwrap();
    let chain = vec![first, second];
    let bob = "Bob".to_string();
    assert_eq!(balance_in(&chain, &bob), Some(Balance { credited: 12, debited: 3 }));
    assert_eq!(balance_in(&Vec::new(), &bob), Some(NOTHING));
}

#[test]
fn pending_transactions_move_nothing() {
    let mut shard = Shard::with_threshold(0, 2);
    let bob = "Bob".to_string();
    shard.ingest(transfer("Alice", "Bob", 10)).unwrap();
    assert_eq!(shard.balance_of(&bob), Some(NOTHING));
    shard.ingest(transfer("Alice", "Bob", 5)).unwrap();
    assert_eq!(shard.balance_of(&bob), Some(Balance { credited: 15, debited: 0 }));
    shard.ingest(transfer("Bob", "Alice", 1)).unwrap();
    assert_eq!(shard.balance_of(&bob), Some(Balance { credited: 15, debited: 0 }));
    shard.close();
    assert_eq!(shard.balance_of(&bob), Some(Balance { credited: 15, debited: 1 }));
}
