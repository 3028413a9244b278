//! The seeds that a seal carries to the next block: one per difficulty, from
//! which the public key for that difficulty is derived.
use crate::bigint::BigInt;
use crate::constants::MIN_DIFFICULTY;
use crate::uint::U256;
use crate::utils::{bigint_u128, bigint_u256, u128_bigint, u256_bigint};
use vstd::prelude::*;

verus! {

/// The number of difficulties, from the smallest up to but not including the
/// largest, and so the number of seeds in a seal.
pub const KEY_SEEDS_LEN: usize = 176;

/// The seeds below this index are held in 128 bits, the others in 256.
pub const WIDE_SEED_START: usize = 128;

/// One seed: in 128 bits for the smaller difficulties, in 256 for the others.
#[derive(Clone, Copy, Debug, PartialEq, Eq)]
pub enum RawKeySeedsData {
    U128(u128),
    U256(U256),
}

/// The seeds of a seal: entry `i` belongs to the bit length
/// `MIN_DIFFICULTY + i`.
pub type RawKeySeeds = [RawKeySeedsData; KEY_SEEDS_LEN];

/// The number that a seed holds, whatever its width.
pub enum SeedView {
    U128(u128),
    U256(nat),
}

impl View for RawKeySeedsData {
    type V = SeedView;

    open spec fn view(&self) -> SeedView {
        match *self {
            RawKeySeedsData::U128(value) => SeedView::U128(value),
            RawKeySeedsData::U256(value) => SeedView::U256(value@),
        }
    }
}

impl SeedView {
    /// The seed as a number.
    pub open spec fn value(self) -> nat {
        match self {
            SeedView::U128(value) => value as nat,
            SeedView::U256(value) => value,
        }
    }
}

/// The numbers of the seeds `seeds`, in their order.
pub open spec fn spec_seed_views(seeds: Seq<RawKeySeedsData>) -> Seq<SeedView> {
    Seq::new(seeds.len(), |i: int| seeds[i]@)
}

/// What the key of one slot is derived from.
pub struct KeyRequest {
    /// The seed, as a big integer.
    pub seed: BigInt,
    /// The bit length of the key's modulus.
    pub bit_length: u32,
}

/// The key derivations that the seeds of a seal ask for: for each slot `i`
/// its seed and the bit length `MIN_DIFFICULTY + i`.
pub fn key_requests(seeds: &RawKeySeeds) -> (r: Vec<KeyRequest>)
    ensures
        r@.len() == KEY_SEEDS_LEN,
        forall|i: int|
            0 <= i < KEY_SEEDS_LEN ==> (#[trigger] r@[i]).seed@ == seeds@[i]@.value()
                && r@[i].bit_length == MIN_DIFFICULTY + i,
{
    let mut requests: Vec<KeyRequest> = Vec::new();
    let mut index: usize = 0;
    while index < KEY_SEEDS_LEN
        invariant
            index <= KEY_SEEDS_LEN,
            requests@.len() == index,
            forall|i: int|
                0 <= i < index ==> (#[trigger] requests@[i]).seed@ == seeds@[i]@.value()
                    && requests@[i].bit_length == MIN_DIFFICULTY + i,
        decreases KEY_SEEDS_LEN - index,
    {
        let seed = match seeds[index] {
            RawKeySeedsData::U128(value) => u128_bigint(&value),
            RawKeySeedsData::U256(value) => u256_bigint(&value),
        };
        let bit_length: u32 = (index + MIN_DIFFICULTY as usize) as u32;
        requests.push(KeyRequest { seed, bit_length });
        index = index + 1;
    }
    requests
}

/// The seed that slot `index` carries for a key that yielded `seed`: cut to
/// 128 bits below slot 128 (zero where it does not fit) and reduced to 256
/// bits from there on.
pub open spec fn spec_next_seed(index: int, seed: nat) -> SeedView {
    if index < WIDE_SEED_START {
        SeedView::U128(
            if seed <= u128::MAX {
                seed as u128
            } else {
                0u128
            },
        )
    } else {
        SeedView::U256(seed % U256::modulus())
    }
}

/// Whether `seeds` are the seeds for the next block that the keys of this
/// block yielded as `yielded`.
pub open spec fn spec_are_next_seeds(seeds: RawKeySeeds, yielded: Seq<BigInt>) -> bool {
    forall|i: int|
        0 <= i < KEY_SEEDS_LEN ==> #[trigger] seeds@[i]@ == spec_next_seed(i, yielded[i]@)
}

/// The seeds for the next block, from the seed that each key of this block
/// yields: slot `i` holds `yielded[i]` in the width of the slot.
pub fn next_seeds(yielded: &Vec<BigInt>) -> (r: RawKeySeeds)
    requires
        yielded@.len() == KEY_SEEDS_LEN,
    ensures
        spec_are_next_seeds(r, yielded@),
{
    let mut new_seeds: RawKeySeeds = [RawKeySeedsData::U128(1u128);KEY_SEEDS_LEN];
    let mut idx: usize = 0;
    while idx < KEY_SEEDS_LEN
        invariant
            idx <= KEY_SEEDS_LEN,
            yielded@.len() == KEY_SEEDS_LEN,
            forall|i: int|
                0 <= i < idx ==> #[trigger] new_seeds@[i]@ == spec_next_seed(i, yielded@[i]@),
        decreases KEY_SEEDS_LEN - idx,
    {
        if idx < WIDE_SEED_START {
            new_seeds[idx] = RawKeySeedsData::U128(bigint_u128(&yielded[idx]));
        } else {
            new_seeds[idx] = RawKeySeedsData::U256(bigint_u256(&yielded[idx]));
        }
        idx = idx + 1;
    }
    new_seeds
}

} // verus!
