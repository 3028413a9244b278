//! The seed from which a node starts its walks, and how the seed moves on.
use crate::bigint::BigInt;
use crate::digits::le_value;
use crate::uint::U256;
use crate::utils::{bigint_u256, u256_bigint};
use vstd::prelude::*;

verus! {

/// The last 32 bytes of `bytes`, or all of them where there are fewer.
pub open spec fn spec_last_32(bytes: Seq<u8>) -> Seq<u8> {
    if bytes.len() <= 32 {
        bytes
    } else {
        bytes.subrange(bytes.len() - 32, bytes.len() as int)
    }
}

/// The mining seed of a node: the last 32 bytes of its identity, read as a
/// number with the least significant byte first. A shorter identity is read
/// whole.
pub fn generate_mining_seed(identity: &[u8]) -> (r: U256)
    ensures
        r@ == le_value(spec_last_32(identity@)),
{
    let len: usize = identity.len();
    let start: usize = if len <= 32 {
        0
    } else {
        len - 32
    };
    let mut kept: Vec<u8> = Vec::new();
    let mut i: usize = start;
    while i < len
        invariant
            start <= i <= len,
            len == identity.len(),
            kept@ == identity@.subrange(start as int, i as int),
        decreases len - i,
    {
        kept.push(identity[i]);
        assert(kept@ =~= identity@.subrange(start as int, i + 1));
        i = i + 1;
    }
    proof {
        assert(identity@.subrange(0, len as int) =~= identity@);
        crate::digits::lemma_le_value_fit_longer(kept@, 32);
    }
    U256::from_little_endian(kept.as_slice())
}

/// The seed that follows `seed`: one more, and from the largest value on to
/// one, so that zero is never a seed.
pub open spec fn spec_next_mining_seed(seed: nat) -> nat {
    if seed + 1 >= U256::modulus() {
        1
    } else {
        seed + 1
    }
}

/// The seed with which the next search starts after a search from `seed`
/// has failed.
pub fn next_mining_seed(seed: &U256) -> (r: U256)
    ensures
        r@ == spec_next_mining_seed(seed@),
        r@ != 0,
{
    let max = U256::max_value();
    if seed.equals(&max) {
        return U256::one();
    }
    let next = u256_bigint(seed).add(&BigInt::from_u128(1));
    proof {
        seed.lemma_bound();
        vstd::arithmetic::div_mod::lemma_small_mod(next@, U256::modulus());
    }
    bigint_u256(&next)
}

} // verus!
