//! The seal that stands in for the one the first block does not have.
use crate::constants::Difficulty;
use crate::elgamal::RawPublicKey;
use crate::generic::Solution;
use crate::keychain::{RawKeySeeds, RawKeySeedsData, SeedView, KEY_SEEDS_LEN, WIDE_SEED_START};
use crate::seal::Seal;
use crate::uint::U256;
use vstd::prelude::*;

verus! {

/// Whether `seal` is the genesis seal for `difficulty`: every number of its
/// key, its bit length among them, of its solutions and of its seeds is one,
/// and so is its nonce.
pub open spec fn spec_is_genesis(seal: Seal, difficulty: Difficulty) -> bool {
    &&& seal.difficulty == difficulty
    &&& seal.pubkey@.p == 1 && seal.pubkey@.g == 1 && seal.pubkey@.h == 1
    &&& seal.pubkey.bit_length == 1
    &&& seal.solutions.0@ == (Solution::<nat> { a: 1, b: 1, n: 1 })
    &&& seal.solutions.1@ == (Solution::<nat> { a: 1, b: 1, n: 1 })
    &&& seal.nonce@ == 1
    &&& forall|i: int|
        0 <= i < WIDE_SEED_START ==> #[trigger] seal.seeds@[i]@ == SeedView::U128(1)
    &&& forall|i: int|
        WIDE_SEED_START <= i < KEY_SEEDS_LEN ==> #[trigger] seal.seeds@[i]@ == SeedView::U256(1)
}

/// The seal that stands in for the seal of the block before the first, which
/// has none.
pub fn genesis_seal(difficulty: Difficulty) -> (r: Seal)
    ensures
        spec_is_genesis(r, difficulty),
{
    let one = U256::one();
    let genesis_solution = Solution::<U256> { a: one, b: one, n: one };
    let mut genesis_key_seeds: RawKeySeeds = [RawKeySeedsData::U128(1u128);KEY_SEEDS_LEN];
    let mut idx: usize = WIDE_SEED_START;
    while idx < KEY_SEEDS_LEN
        invariant
            WIDE_SEED_START <= idx <= KEY_SEEDS_LEN,
            one@ == 1,
            forall|i: int|
                0 <= i < WIDE_SEED_START ==> #[trigger] genesis_key_seeds@[i]@ == SeedView::U128(
                    1,
                ),
            forall|i: int|
                WIDE_SEED_START <= i < idx ==> #[trigger] genesis_key_seeds@[i]@
                    == SeedView::U256(1),
        decreases KEY_SEEDS_LEN - idx,
    {
        genesis_key_seeds[idx] = RawKeySeedsData::U256(one);
        idx = idx + 1;
    }
    Seal {
        difficulty,
        pubkey: RawPublicKey { p: one, g: one, h: one, bit_length: 1 },
        seeds: genesis_key_seeds,
        solutions: (genesis_solution.clone(), genesis_solution),
        nonce: one,
    }
}

} // verus!
