use shard_ledger::error::InvalidAddress;
use shard_ledger::router::shard_of;

#[test]
fn routes_by_byte_sum() {
    // 65 + 108 + 105 + 99 + 101 = 478
    assert_eq!(shard_of("Alice", 4), Ok(2));
    assert_eq!(shard_of("Alice", 7), Ok(2));
    assert_eq!(shard_of("Alice", 479), Ok(478));
    assert_eq!(shard_of("Alice", 1), Ok(0));
    // 66 + 111 + 98 = 275
    assert_eq!(shard_of("Bob", 4), Ok(3));
}

#[test]
fn routes_by_utf8_bytes() {
    // U+00E9 is 0xC3 0xA9: 195 + 169 = 364
    assert_eq!(shard_of("\u{e9}", 5), Ok(4));
    assert_eq!(shard_of("\u{e9}", 1000), Ok(364));
}

#[test]
fn sum_is_not_cut_to_a_byte() {
    // 300 bytes of 127 sum to 38100; cut to eight bits that would be 212.
    let address: String = std::iter::repeat('\u{7f}').take(300).collect();
    assert_eq!(shard_of(&address, 1000), Ok(38100 % 1000));
    assert_eq!(shard_of(&address, 100_000), Ok(38100));
}

#[test]
fn empty_address_is_invalid() {
    assert_eq!(shard_of("", 4), Err(InvalidAddress));
}

#[test]
fn no_shards_means_no_route() {
    assert_eq!(shard_of("Alice", 0), Err(InvalidAddress));
}

#[test]
fn every_route_is_in_range_and_stable() {
    let addresses = ["a", "Alice", "Bob", "carol@example", "0xdeadbeef", "\u{4e2d}\u{6587}"];
    for count in 1u32..40 {
        for address in addresses {
            let first = shard_of(address, count).unwrap();
            let second = shard_of(address, count).unwrap();
            assert!(first < count);
            assert_eq!(first, second);
        }
    }
}

#[test]
fn largest_shard_count() {
    assert_eq!(shard_of("Alice", u32::MAX), Ok(478));
}
