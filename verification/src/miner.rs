//! Mining a block: picking the puzzle, searching, sealing, and the decisions
//! of the loop that a mining node runs around them.
use crate::algorithm::{
    lemma_first_distinguished_bounds, lemma_first_meeting_meets, lemma_walk_keeps_key,
    solve_dist_from, solve_dist_until, spec_collision, spec_distinguishable, spec_finds,
    spec_first_distinguished, spec_first_meeting, spec_first_state, spec_hash_diff,
    spec_search_len, spec_sound_pair, spec_start_state, spec_stepped, spec_walk,
};
use crate::bigint::BigInt;
use crate::constants::{Difficulty, INIT_DIFFICULTY, MIN_DIFFICULTY};
use crate::elgamal::{KeyView, PublicKey};
use crate::generic::{
    spec_func_f, spec_transit, spec_truncated, Solution, Solutions, State, StateView,
};
use crate::genesis::{genesis_seal, spec_is_genesis};
use crate::hash::Blake3Compute;
use crate::invariants::{lemma_collision_is_sound, lemma_walk_stays_small};
use crate::keychain::{RawKeySeeds, SeedView, KEY_SEEDS_LEN};
use crate::mining::next_mining_seed;
use crate::parallel::ParallelWorker;
use crate::seal::{lemma_decode_encode, lemma_seal_fits, spec_encode, Seal, SealView};
use crate::uint::{H256, U256};
use crate::utils::u256_bigint;
use crate::validation::{spec_seal_valid, spec_verify_seal};
use crate::wire::spec_solution_fits;
use std::sync::atomic::AtomicBool;
use vstd::arithmetic::div_mod::{lemma_mod_bound, lemma_small_mod};
use vstd::arithmetic::power::pow;
use vstd::prelude::*;

verus! {

/// How often, in steps, a search looks at the flag that tells it to stop.
pub const GRAIN_SIZE: u32 = 10000;

/// Whether a walk from `start` is one whose collisions make valid seals: the
/// key fits in a seal and has a walk, its exponents wrap, and the first state
/// stands on its point with exponents below the modulus.
pub open spec fn spec_minable(start: StateView<nat>) -> bool {
    &&& start.pubkey.fits()
    &&& start.pubkey.p >= 3
    &&& start.pubkey.exponents_wrap()
    &&& start.on_point()
    &&& start.solution.a < start.pubkey.p
    &&& start.solution.b < start.pubkey.p
    &&& start.solution.n < start.pubkey.p
}

/// The key that a keychain holds for `difficulty`: the entry at
/// `difficulty - MIN_DIFFICULTY`, where the keychain has one.
pub fn select_pub_key(keychain: &Vec<PublicKey>, difficulty: Difficulty) -> (r: Option<PublicKey>)
    ensures
        r.is_some() == (MIN_DIFFICULTY <= difficulty && difficulty - MIN_DIFFICULTY
            < keychain@.len()),
        r matches Some(key) ==> key@ == keychain@[difficulty - MIN_DIFFICULTY]@,
{
    if difficulty < MIN_DIFFICULTY {
        return None;
    }
    let offset: u128 = difficulty - MIN_DIFFICULTY;
    if offset >= keychain.len() as u128 {
        return None;
    }
    let index: usize = offset as usize;
    Some(keychain[index].clone())
}

/// A collision of a minable walk makes a valid seal: with the key of the
/// walk, the solutions of the two states, and the nonce on which the first
/// of them was reached, it is valid for the block that was hashed.
pub proof fn lemma_collision_seals(
    start: StateView<nat>,
    hasher: Blake3Compute,
    hash_diff: nat,
    limit: nat,
    seeds: Seq<SeedView>,
)
    requires
        spec_minable(start),
        spec_collision(start, hasher, hash_diff, limit).is_some(),
    ensures
        ({
            let states = spec_collision(start, hasher, hash_diff, limit)->0;
            let seal = SealView {
                difficulty: hasher.difficulty,
                pubkey: start.pubkey,
                seeds,
                solutions: (states.0.solution, states.1.solution),
                nonce: states.0.nonce,
            };
            &&& states.0.nonce < U256::modulus()
            &&& spec_solution_fits(states.0.solution)
            &&& spec_solution_fits(states.1.solution)
            &&& spec_seal_valid(seal, hasher.pre_hash@, hasher.difficulty)
        }),
{
    let i = spec_first_meeting(start, hasher, 1, limit)->0;
    let j = spec_first_distinguished(start, hasher, hash_diff, i, 1, limit)->0;
    lemma_first_meeting_meets(start, hasher, 1, limit);
    lemma_first_distinguished_bounds(start, hasher, hash_diff, i, 1, limit);
    lemma_collision_is_sound(start, hasher, hash_diff, limit);
    let key = start.pubkey;
    lemma_mod_bound(
        pow(key.g as int, start.solution.a) * pow(key.h as int, start.solution.b),
        key.p as int,
    );
    lemma_walk_stays_small(start, hasher, (i + j - 1) as nat);
    lemma_walk_stays_small(start, hasher, i + j);
    lemma_walk_stays_small(start, hasher, 2 * i + j);
    lemma_walk_keeps_key(start, hasher, (i + j - 1) as nat);
    let prev = spec_walk(start, hasher, (i + j - 1) as nat);
    let slow = spec_walk(start, hasher, i + j);
    assert(slow == spec_transit(
        prev,
        crate::generic::Hash::spec_hash(&hasher, prev.work % U256::modulus()),
    )) by {
        reveal(spec_walk);
    }
    lemma_small_mod(prev.work, U256::modulus());
}

/// Whether `seal` is the seal that a search from `start` makes of the
/// collision that `spec_collision` names for the block of `hasher`: with the
/// key of the walk, the seeds `seeds`, the solutions of the two states, and
/// the nonce on which the first of them was reached.
pub open spec fn spec_seals_collision(
    start: StateView<nat>,
    hasher: Blake3Compute,
    seeds: RawKeySeeds,
    seal: Seal,
) -> bool {
    let found = spec_collision(
        start,
        hasher,
        spec_hash_diff(start.pubkey.bit_length),
        spec_search_len(start.pubkey.p),
    );
    let states = found->0;
    &&& found.is_some()
    &&& seal.difficulty == hasher.difficulty
    &&& seal.seeds == seeds
    &&& seal.pubkey@ == start.pubkey.truncated()
    &&& seal.solutions.0@ == spec_truncated(states.0.solution)
    &&& seal.solutions.1@ == spec_truncated(states.1.solution)
    &&& seal.nonce@ == states.0.nonce % U256::modulus()
}

/// The seal that a search makes of the collision of a minable walk is valid
/// for the block that was hashed, and its bytes pass `verify_seal`.
pub proof fn lemma_sealed_collision_verifies(
    start: StateView<nat>,
    hasher: Blake3Compute,
    seeds: RawKeySeeds,
    seal: Seal,
)
    requires
        spec_minable(start),
        spec_seals_collision(start, hasher, seeds, seal),
    ensures
        spec_seal_valid(seal@, hasher.pre_hash@, hasher.difficulty),
        spec_verify_seal(hasher.pre_hash@, spec_encode(seal@), hasher.difficulty),
{
    let hash_diff = spec_hash_diff(start.pubkey.bit_length);
    let limit = spec_search_len(start.pubkey.p);
    lemma_collision_seals(start, hasher, hash_diff, limit, seal@.seeds);
    let states = spec_collision(start, hasher, hash_diff, limit)->0;
    lemma_small_mod(states.0.nonce, U256::modulus());
    lemma_small_mod(states.0.solution.a, U256::modulus());
    lemma_small_mod(states.0.solution.b, U256::modulus());
    lemma_small_mod(states.0.solution.n, U256::modulus());
    lemma_small_mod(states.1.solution.a, U256::modulus());
    lemma_small_mod(states.1.solution.b, U256::modulus());
    lemma_small_mod(states.1.solution.n, U256::modulus());
    lemma_small_mod(start.pubkey.p, U256::modulus());
    lemma_small_mod(start.pubkey.g, U256::modulus());
    lemma_small_mod(start.pubkey.h, U256::modulus());
    lemma_seal_fits(seal);
    lemma_decode_encode(seal@, Seq::<u8>::empty());
    assert(spec_encode(seal@) + Seq::<u8>::empty() =~= spec_encode(seal@));
}

/// Whether `seal` is a seal that mining on the key `key` can give for the
/// block of `hasher` with a walk that starts from `start`: the key has a walk
/// with distinguished points, `start` is a first state of it, and the seal
/// is the one that the search from `start` makes of its collision.
pub open spec fn spec_mined_on(
    key: PublicKey,
    start: StateView<nat>,
    hasher: Blake3Compute,
    seal: Seal,
) -> bool {
    &&& key@.p >= 3
    &&& spec_distinguishable(key@.bit_length)
    &&& spec_first_state(key@, start)
    &&& spec_seals_collision(start, hasher, seal.seeds, seal)
}

/// Whether `keychain` holds a puzzle for `difficulty`: a key at
/// `difficulty - MIN_DIFFICULTY` that has a walk with distinguished points.
pub open spec fn spec_has_puzzle(keychain: Seq<PublicKey>, difficulty: Difficulty) -> bool {
    &&& MIN_DIFFICULTY <= difficulty
    &&& difficulty - MIN_DIFFICULTY < keychain.len()
    &&& keychain[difficulty - MIN_DIFFICULTY]@.p >= 3
    &&& spec_distinguishable(keychain[difficulty - MIN_DIFFICULTY]@.bit_length)
}

/// The puzzle to mine at `difficulty`: the key that `keychain` holds for it,
/// where it holds one that has a walk with distinguished points.
pub fn select_puzzle(keychain: &Vec<PublicKey>, difficulty: Difficulty) -> (r: Option<PublicKey>)
    ensures
        r.is_some() == spec_has_puzzle(keychain@, difficulty),
        r matches Some(key) ==> key@ == keychain@[difficulty - MIN_DIFFICULTY]@,
{
    let key = match select_pub_key(keychain, difficulty) {
        Some(key) => key,
        None => {
            return None;
        },
    };
    if key.p.less_than(&BigInt::from_u128(3)) {
        return None;
    }
    if key.bit_length < 18 || key.bit_length > 527 {
        return None;
    }
    Some(key)
}

impl Seal {
    /// Mines the block of `compute` with one walk from the state `start` and
    /// seals it with `seeds` where the walk ends in a collision. The walk
    /// gives up once `found` is raised, and raises it on success: it looks at
    /// the flag on the collision at the latest, so that whether there is a
    /// seal rests with the flag wherever the walk has a collision.
    /// `try_mining_until` tells what is returned for each course of the
    /// flag. The nonce of the seal is left in `compute`; without a seal
    /// `compute` is as it was.
    ///
    /// The seal of a minable walk is valid for the block: its bytes pass
    /// `verify_seal` for the pre-hash and the difficulty of `compute`.
    pub fn try_mining_from(
        start: State<BigInt>,
        compute: &mut Blake3Compute,
        seeds: RawKeySeeds,
        found: &AtomicBool,
    ) -> (r: Option<Seal>)
        requires
            start@.pubkey.p >= 3,
            spec_distinguishable(start@.pubkey.bit_length),
        ensures
            final(compute).difficulty == old(compute).difficulty,
            final(compute).pre_hash == old(compute).pre_hash,
            r.is_none() ==> final(compute).nonce == old(compute).nonce,
            r matches Some(seal) ==> {
                let found = spec_collision(
                    start@,
                    *old(compute),
                    spec_hash_diff(start@.pubkey.bit_length),
                    spec_search_len(start@.pubkey.p),
                );
                let states = found->0;
                &&& final(compute).nonce == seal.nonce
                &&& found.is_some()
                &&& seal.difficulty == old(compute).difficulty
                &&& seal.seeds == seeds
                &&& seal.pubkey@ == start@.pubkey.truncated()
                &&& seal.solutions.0@ == spec_truncated(states.0.solution)
                &&& seal.solutions.1@ == spec_truncated(states.1.solution)
                &&& seal.nonce@ == states.0.nonce % U256::modulus()
                &&& spec_minable(start@) ==> spec_seal_valid(
                    seal@,
                    old(compute).pre_hash@,
                    old(compute).difficulty,
                ) && spec_verify_seal(
                    old(compute).pre_hash@,
                    spec_encode(seal@),
                    old(compute).difficulty,
                )
            },
    {
        let difficulty = compute.difficulty;
        let key = start.pubkey.clone();
        let ghost s0 = start@;
        let ghost h0 = *compute;
        let mut walker = *compute;
        match solve_dist_from(start, &mut walker, GRAIN_SIZE, found) {
            Some(solutions) => {
                let nonce = walker.nonce;
                compute.nonce = nonce;
                let seal = Seal::assemble(difficulty, &key, seeds, &solutions, nonce);
                proof {
                    if spec_minable(s0) {
                        lemma_sealed_collision_verifies(s0, h0, seeds, seal);
                    }
                }
                Some(seal)
            },
            None => None,
        }
    }

    /// Mines as `try_mining_from` does when the flag that the walk watches
    /// comes up after `calm` looks, or never where `calm` is `None`: there is
    /// a seal exactly where the walk has a collision and the flag stays down
    /// for the looks that the search takes until then, and it is the seal of
    /// that collision.
    pub fn try_mining_until(
        start: State<BigInt>,
        compute: &mut Blake3Compute,
        seeds: RawKeySeeds,
        calm: Option<u64>,
    ) -> (r: Option<Seal>)
        requires
            start@.pubkey.p >= 3,
            spec_distinguishable(start@.pubkey.bit_length),
        ensures
            final(compute).difficulty == old(compute).difficulty,
            final(compute).pre_hash == old(compute).pre_hash,
            r.is_none() ==> final(compute).nonce == old(compute).nonce,
            r.is_some() == spec_finds(start@, *old(compute), GRAIN_SIZE, calm),
            r matches Some(seal) ==> {
                &&& final(compute).nonce == seal.nonce
                &&& spec_seals_collision(start@, *old(compute), seeds, seal)
                &&& spec_minable(start@) ==> spec_seal_valid(
                    seal@,
                    old(compute).pre_hash@,
                    old(compute).difficulty,
                ) && spec_verify_seal(
                    old(compute).pre_hash@,
                    spec_encode(seal@),
                    old(compute).difficulty,
                )
            },
    {
        let difficulty = compute.difficulty;
        let key = start.pubkey.clone();
        let ghost s0 = start@;
        let ghost h0 = *compute;
        let mut walker = *compute;
        match solve_dist_until(start, &mut walker, GRAIN_SIZE, calm) {
            Some(solutions) => {
                let nonce = walker.nonce;
                compute.nonce = nonce;
                let seal = Seal::assemble(difficulty, &key, seeds, &solutions, nonce);
                proof {
                    if spec_minable(s0) {
                        lemma_sealed_collision_verifies(s0, h0, seeds, seal);
                    }
                }
                Some(seal)
            },
            None => None,
        }
    }

    /// Mines the block of `compute` on the puzzle that `select_puzzle` gives
    /// for its difficulty, with one walk that starts from exponents drawn
    /// from `mining_seed`, and seals it with the seeds that the keys of
    /// `keychain` yielded. There is no seal where the keychain has no puzzle
    /// for the difficulty. A seal is the one that `try_mining_from` makes
    /// from the first state that `mining_seed` draws; whether there is one
    /// rests with `found` wherever that walk has a collision. The nonce of the
    /// seal is left in `compute`.
    ///
    /// This is the search of one worker. A host with several threads runs a
    /// `ParallelWorker` on each and seals what one of them announces with
    /// `seal_announced`.
    pub fn try_cpu_mining(
        keychain: &Vec<PublicKey>,
        yielded: &Vec<BigInt>,
        compute: &mut Blake3Compute,
        mining_seed: U256,
        found: &AtomicBool,
    ) -> (r: Option<Seal>)
        requires
            yielded@.len() == KEY_SEEDS_LEN,
        ensures
            final(compute).difficulty == old(compute).difficulty,
            final(compute).pre_hash == old(compute).pre_hash,
            r.is_none() ==> final(compute).nonce == old(compute).nonce,
            r.is_some() ==> spec_has_puzzle(keychain@, old(compute).difficulty),
            r matches Some(seal) ==> {
                let key = keychain@[old(compute).difficulty - MIN_DIFFICULTY];
                &&& final(compute).nonce == seal.nonce
                &&& seal.difficulty == old(compute).difficulty
                &&& crate::keychain::spec_are_next_seeds(seal.seeds, yielded@)
                &&& seal.pubkey@ == key@.truncated()
                &&& spec_mined_on(
                    key,
                    spec_start_state(key@, mining_seed@),
                    *old(compute),
                    seal,
                )
                &&& key@.fits() && key@.exponents_wrap() ==> spec_verify_seal(
                    old(compute).pre_hash@,
                    spec_encode(seal@),
                    old(compute).difficulty,
                )
            },
    {
        let difficulty = compute.difficulty;
        let new_pubkey = match select_puzzle(keychain, difficulty) {
            Some(key) => key,
            None => {
                return None;
            },
        };
        let new_seeds = crate::keychain::next_seeds(yielded);
        let start = State::<BigInt>::from_pub_key(new_pubkey, u256_bigint(&mining_seed));
        Seal::try_mining_from(start, compute, new_seeds, found)
    }
}

/// Whether two solutions and a nonce are what the worker of a shared search
/// may announce for the key `key` and the block of `hasher`: the key has a
/// walk and fits in a seal with the solutions and the nonce, both solutions
/// stand for one point, and that point is the image of the nonce.
pub open spec fn spec_announced(
    key: KeyView,
    hasher: Blake3Compute,
    first: Solution<nat>,
    second: Solution<nat>,
    nonce: nat,
) -> bool {
    &&& key.p >= 3
    &&& key.fits()
    &&& spec_solution_fits(first)
    &&& spec_solution_fits(second)
    &&& nonce < U256::modulus()
    &&& key.combine(first.a, first.b) == key.combine(second.a, second.b)
    &&& key.combine(first.a, first.b) == spec_func_f(
        key,
        crate::generic::Hash::spec_hash(&hasher, nonce) % key.p,
        nonce,
    )
}

/// The seal of what a worker of a shared search has announced: with the key
/// of the search, the two solutions, the nonce, and `seeds` for the keys of
/// the next block. The nonce is written into `compute`.
///
/// The seal of a sound announcement is valid for the block: its bytes pass
/// `verify_seal` for the pre-hash and the difficulty of `compute`.
pub fn seal_announced(
    key: &PublicKey,
    compute: &mut Blake3Compute,
    seeds: RawKeySeeds,
    solutions: &Solutions<BigInt>,
    nonce: &BigInt,
) -> (r: Seal)
    ensures
        final(compute).difficulty == old(compute).difficulty,
        final(compute).pre_hash == old(compute).pre_hash,
        final(compute).nonce == r.nonce,
        r.difficulty == old(compute).difficulty,
        r.seeds == seeds,
        r.pubkey@ == key@.truncated(),
        r.solutions.0@ == spec_truncated(solutions.0@),
        r.solutions.1@ == spec_truncated(solutions.1@),
        r.nonce@ == nonce@ % U256::modulus(),
        spec_announced(key@, *old(compute), solutions.0@, solutions.1@, nonce@) ==> spec_seal_valid(
            r@,
            old(compute).pre_hash@,
            old(compute).difficulty,
        ) && spec_verify_seal(
            old(compute).pre_hash@,
            spec_encode(r@),
            old(compute).difficulty,
        ),
{
    crate::generic::Hash::set_nonce(compute, nonce);
    let seal = Seal::assemble(compute.difficulty, key, seeds, solutions, compute.nonce);
    proof {
        if spec_announced(key@, *old(compute), solutions.0@, solutions.1@, nonce@) {
            lemma_small_mod(nonce@, U256::modulus());
            lemma_small_mod(solutions.0@.a, U256::modulus());
            lemma_small_mod(solutions.0@.b, U256::modulus());
            lemma_small_mod(solutions.0@.n, U256::modulus());
            lemma_small_mod(solutions.1@.a, U256::modulus());
            lemma_small_mod(solutions.1@.b, U256::modulus());
            lemma_small_mod(solutions.1@.n, U256::modulus());
            lemma_small_mod(key@.p, U256::modulus());
            lemma_small_mod(key@.g, U256::modulus());
            lemma_small_mod(key@.h, U256::modulus());
            lemma_seal_fits(seal);
            lemma_decode_encode(seal@, Seq::<u8>::empty());
            assert(spec_encode(seal@) + Seq::<u8>::empty() =~= spec_encode(seal@));
        }
    }
    seal
}

/// What a worker announces is sound: where the worker stands on a point that
/// a step of its walk has reached, in a group where exponents wrap, and the
/// shared map holds for that point another solution that a worker has
/// stored, the worker's solution, the stored one and the nonce of the worker
/// make a sound announcement, and the pair is a sound pair.
pub proof fn lemma_announcement_is_sound(
    worker: ParallelWorker,
    hasher: Blake3Compute,
    stored: Solution<nat>,
)
    requires
        worker.wf(),
        worker.pubkey@.fits(),
        worker.pubkey@.exponents_wrap(),
        worker.state@.on_point(),
        spec_stepped(worker.state@, hasher),
        stored != worker.state@.solution,
        // what the map holds was stored by a worker that stood on the point
        worker.pubkey@.combine(stored.a, stored.b) == worker.state@.work,
        stored.a < worker.pubkey@.p,
        stored.b < worker.pubkey@.p,
        stored.n == (worker.pubkey@.p - 1) / 2,
    ensures
        spec_announced(
            worker.pubkey@,
            hasher,
            worker.state@.solution,
            stored,
            worker.state@.nonce,
        ),
        spec_sound_pair(worker.pubkey@, (worker.state@.solution, stored)),
{
    lemma_small_mod(worker.state@.nonce, U256::modulus());
}

/// What the mining loop of a node remembers between two rounds.
#[derive(Clone, Copy, Debug, PartialEq, Eq)]
pub struct MinerState {
    /// The seed from which the next search starts.
    pub mining_seed: U256,
    /// The number of the best block when the last search started; zero
    /// before the first search.
    pub mining_number: u32,
}

/// What the mining loop does in one round.
#[derive(Debug, PartialEq, Eq)]
pub enum MinerAction {
    /// Wait a second and look again.
    Sleep,
    /// Lower the flag of the workers and mine on the best block, whose seal
    /// is `seal`, the block that `compute` describes, starting from
    /// `mining_seed`.
    Mine { seal: Seal, compute: Blake3Compute, mining_seed: U256 },
}

/// The seal of the best block as the loop sees it: for the block before the
/// first, which has none, the genesis seal at the initial difficulty; for any
/// other block the seal found in its header, if one was found.
pub fn find_seal(best_number: u32, header_seal: Option<Seal>) -> (r: Option<Seal>)
    ensures
        best_number != 0 ==> r == header_seal,
        best_number == 0 ==> r.is_some() && spec_is_genesis(r->0, INIT_DIFFICULTY),
{
    if best_number == 0 {
        Some(genesis_seal(INIT_DIFFICULTY))
    } else {
        header_seal
    }
}

impl MinerState {
    /// The state of a loop that has not searched yet and starts from
    /// `mining_seed`.
    pub fn new(mining_seed: U256) -> (r: MinerState)
        ensures
            r.mining_seed == mining_seed,
            r.mining_number == 0,
    {
        MinerState { mining_seed, mining_number: 0 }
    }

    /// Decides one round of the loop from what the host reports: the
    /// difficulty and pre-hash of the block to build, if there is one, the
    /// seal of the best block, if one was found, and the number of the best
    /// block.
    ///
    /// The loop sleeps where the block to build or the seal is missing, and
    /// where it has already searched on the best block, unless that is the
    /// block before the first. Otherwise it remembers the number of the best
    /// block and mines on it, with a nonce of one in the data that is hashed.
    pub fn plan(
        &mut self,
        metadata: Option<(Difficulty, H256)>,
        seal: Option<Seal>,
        current_number: u32,
    ) -> (r: MinerAction)
        ensures
            final(self).mining_seed == old(self).mining_seed,
            match r {
                MinerAction::Sleep => {
                    &&& final(self).mining_number == old(self).mining_number
                    &&& metadata.is_none() || seal.is_none() || (old(self).mining_number != 0
                        && old(self).mining_number == current_number)
                },
                MinerAction::Mine { seal: tip, compute, mining_seed } => {
                    &&& metadata.is_some() && seal == Some(tip)
                    &&& !(old(self).mining_number != 0 && old(self).mining_number
                        == current_number)
                    &&& final(self).mining_number == current_number
                    &&& compute.difficulty == (metadata->0).0
                    &&& compute.pre_hash == (metadata->0).1
                    &&& compute.nonce@ == 1
                    &&& mining_seed == old(self).mining_seed
                },
            },
    {
        let (difficulty, pre_hash) = match metadata {
            Some(metadata) => metadata,
            None => {
                return MinerAction::Sleep;
            },
        };
        let seal = match seal {
            Some(seal) => seal,
            None => {
                return MinerAction::Sleep;
            },
        };
        if self.mining_number != 0 && self.mining_number == current_number {
            return MinerAction::Sleep;
        }
        self.mining_number = current_number;
        let compute = Blake3Compute { difficulty, pre_hash, nonce: U256::one() };
        MinerAction::Mine { seal, compute, mining_seed: self.mining_seed }
    }

    /// Takes in the outcome of a search. A new seal is handed back as the
    /// bytes to submit, and the next search starts from the seed one; after a
    /// failed search the seed moves on, never to zero.
    pub fn conclude(&mut self, mined: Option<Seal>) -> (r: Option<Vec<u8>>)
        ensures
            final(self).mining_number == old(self).mining_number,
            final(self).mining_seed@ != 0,
            match mined {
                Some(seal) => final(self).mining_seed@ == 1 && r.is_some() && r->0@
                    == spec_encode(seal@),
                None => final(self).mining_seed@ == crate::mining::spec_next_mining_seed(
                    old(self).mining_seed@,
                ) && r.is_none(),
            },
    {
        match mined {
            Some(new_seal) => {
                self.mining_seed = U256::one();
                Some(new_seal.encode())
            },
            None => {
                self.mining_seed = next_mining_seed(&self.mining_seed);
                None
            },
        }
    }
}

} // verus!
