//! Routing: which shard owns an address.
//!
//! The policy is the sum of the bytes of the address's UTF-8 encoding, taken
//! modulo the number of shards. It is not collision resistant and need not
//! be: all that is asked of it is that it is a function of the address and
//! the shard count alone, and that it spreads addresses over the shards.

use vstd::prelude::*;
use crate::error::InvalidAddress;

verus! {

/// The sum of a sequence of bytes, as a natural number.
pub open spec fn byte_sum(bytes: Seq<u8>) -> nat
    decreases bytes.len(),
{
    if bytes.len() == 0 {
        0
    } else {
        byte_sum(bytes.drop_last()) + bytes.last() as nat
    }
}

/// The raw bytes of an address: its UTF-8 encoding.
pub open spec fn address_bytes(address: Seq<char>) -> Seq<u8> {
    vstd::utf8::encode_utf8(address)
}

/// An address can be routed when it is not empty and there is a shard.
pub open spec fn routable(address: Seq<char>, shard_count: u32) -> bool {
    address.len() > 0 && shard_count > 0
}

/// The shard that owns `address` among `shard_count` shards.
pub open spec fn spec_shard_of(address: Seq<char>, shard_count: u32) -> Option<u32> {
    if routable(address, shard_count) {
        Some((byte_sum(address_bytes(address)) % (shard_count as nat)) as u32)
    } else {
        None
    }
}

/// Every shard that routing names exists.
pub proof fn lemma_shard_of_in_range(address: Seq<char>, shard_count: u32)
    requires
        routable(address, shard_count),
    ensures
        spec_shard_of(address, shard_count) is Some,
        spec_shard_of(address, shard_count).unwrap() < shard_count,
        spec_shard_of(address, shard_count).unwrap() as nat == byte_sum(address_bytes(address)) % (
        shard_count as nat),
{
    let s = byte_sum(address_bytes(address)) as int;
    vstd::arithmetic::div_mod::lemma_mod_bound(s, shard_count as int);
}

/// Routes `address` to one of `shard_count` shards.
///
/// Fails exactly when the address is empty or `shard_count` is zero.
/// Otherwise the shard is the byte sum of the address modulo `shard_count`,
/// so the same address and count always give the same shard.
pub fn shard_of(address: &str, shard_count: u32) -> (r: Result<u32, InvalidAddress>)
    ensures
        r == match spec_shard_of(address@, shard_count) {
            Some(id) => Ok::<u32, InvalidAddress>(id),
            None => Err::<u32, InvalidAddress>(InvalidAddress),
        },
        r is Ok <==> routable(address@, shard_count),
        r matches Ok(id) ==> id < shard_count,
{
    if address.is_empty() || shard_count == 0 {
        return Err(InvalidAddress);
    }
    let bytes = address.as_bytes();
    let modulus: u64 = shard_count as u64;
    let mut acc: u64 = 0;
    let mut i: usize = 0;
    while i < bytes.len()
        invariant
            i <= bytes.len(),
            bytes@ == address_bytes(address@),
            modulus == shard_count,
            modulus > 0,
            acc < modulus,
            acc as nat == byte_sum(bytes@.take(i as int)) % (modulus as nat),
        decreases bytes.len() - i,
    {
        let b: u64 = bytes[i] as u64;
        proof {
            let before = bytes@.take(i as int);
            let after = bytes@.take(i as int + 1);
            assert(after.drop_last() =~= before);
            assert(after.last() == bytes@[i as int]);
            let s = byte_sum(before) as int;
            let m = modulus as int;
            vstd::arithmetic::div_mod::lemma_add_mod_noop(s, b as int, m);
            vstd::arithmetic::div_mod::lemma_add_mod_noop(acc as int, b as int, m);
            vstd::arithmetic::div_mod::lemma_small_mod(acc as nat, modulus as nat);
        }
        acc = (acc + b) % modulus;
        i += 1;
    }
    proof {
        assert(bytes@.take(bytes@.len() as int) =~= bytes@);
        lemma_shard_of_in_range(address@, shard_count);
    }
    Ok(acc as u32)
}

} // verus!
