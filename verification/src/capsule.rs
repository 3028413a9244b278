//! The earlier form of the puzzle: a seal without seeds, mined by one walk
//! that stops where its two walkers first meet.
use crate::algorithm::{
    floyd, lemma_first_meeting_meets, lemma_walk_keeps_key, spec_first_meeting, spec_first_state,
    spec_pair_view, spec_sound_pair, spec_start_state, spec_walk,
};
use crate::bigint::BigInt;
use crate::constants::Difficulty;
use crate::digits::{digits_of, le_value, lemma_le_value_bound};
use crate::elgamal::{KeyView, PublicKey, RawPublicKey};
use crate::generic::{spec_transit, spec_truncated, Hasher, Solution, Solutions, State, StateView};
use crate::hash::{blake3_digest, spec_preimage, Blake3Compute};
use crate::invariants::{lemma_walk_keeps_point, lemma_walk_stays_small};
use crate::miner::spec_minable;
use crate::uint::{H256, U256};
use crate::utils::u256_bigint;
use crate::validation::{spec_verify, SolutionVerifier};
use crate::wire::{
    lemma_digits_round_trip, push_key, push_le_digits, push_solution, push_u256, read_key,
    read_num, read_solution, read_solution_at, read_u256, spec_key_bytes, spec_solution_bytes,
    spec_solution_fits,
};
use std::sync::atomic::AtomicBool;
use std::sync::Arc;
use vstd::arithmetic::div_mod::{lemma_mod_bound, lemma_small_mod};
use vstd::arithmetic::power::pow;
use vstd::prelude::*;

verus! {

/// The difficulty at which the fixed-difficulty algorithm mines.
pub const MINIMAL_DIFFICULTY: Difficulty = 48;

/// What a miner attaches to a block it has mined.
#[derive(Debug, PartialEq, Eq)]
pub struct Seal {
    pub difficulty: Difficulty,
    pub pubkey: RawPublicKey,
    pub solutions: Solutions<U256>,
    pub nonce: U256,
}

/// The numbers of a seal.
pub struct SealView {
    pub difficulty: Difficulty,
    pub pubkey: KeyView,
    pub solutions: (Solution<nat>, Solution<nat>),
    pub nonce: nat,
}

impl View for Seal {
    type V = SealView;

    open spec fn view(&self) -> SealView {
        SealView {
            difficulty: self.difficulty,
            pubkey: self.pubkey@,
            solutions: (self.solutions.0@, self.solutions.1@),
            nonce: self.nonce@,
        }
    }
}

impl SealView {
    /// Whether these are the numbers of some seal: each within 256 bits.
    pub open spec fn fits(self) -> bool {
        &&& self.pubkey.p < U256::modulus()
        &&& self.pubkey.g < U256::modulus()
        &&& self.pubkey.h < U256::modulus()
        &&& spec_solution_fits(self.solutions.0)
        &&& spec_solution_fits(self.solutions.1)
        &&& self.nonce < U256::modulus()
    }
}

/// The bytes of a seal: the difficulty in 16 bytes, the key in 100, the two
/// solutions in 96 each and the nonce in 32.
pub open spec fn spec_encode(seal: SealView) -> Seq<u8> {
    digits_of(seal.difficulty as nat, 16) + spec_key_bytes(seal.pubkey) + spec_solution_bytes(
        seal.solutions.0,
    ) + spec_solution_bytes(seal.solutions.1) + digits_of(seal.nonce, 32)
}

/// The seal that stands in the first 340 bytes of `bytes`: none where there
/// are fewer.
pub open spec fn spec_decode(bytes: Seq<u8>) -> Option<SealView> {
    if bytes.len() < 340 {
        None
    } else {
        Some(
            SealView {
                difficulty: le_value(bytes.subrange(0, 16)) as u128,
                pubkey: read_key(bytes.skip(16)),
                solutions: (read_solution(bytes.skip(116)), read_solution(bytes.skip(212))),
                nonce: le_value(bytes.subrange(308, 340)),
            },
        )
    }
}

impl Seal {
    /// The bytes of the seal.
    pub fn encode(&self) -> (r: Vec<u8>)
        ensures
            r@ == spec_encode(self@),
    {
        let mut out: Vec<u8> = Vec::new();
        push_le_digits(&mut out, self.difficulty, 16);
        push_key(&mut out, &self.pubkey);
        push_solution(&mut out, &self.solutions.0);
        push_solution(&mut out, &self.solutions.1);
        push_u256(&mut out, &self.nonce);
        assert(out@ =~= spec_encode(self@));
        out
    }

    /// The seal at the front of `bytes`, where there is one.
    pub fn decode(bytes: &[u8]) -> (r: Option<Seal>)
        ensures
            match r {
                Some(seal) => spec_decode(bytes@) == Some(seal@),
                None => spec_decode(bytes@).is_none(),
            },
    {
        if bytes.len() < 340 {
            return None;
        }
        let difficulty = read_num(bytes, 0, 16);
        let ghost keyed = bytes@.skip(16);
        proof {
            assert(keyed.subrange(0, 32) =~= bytes@.subrange(16, 48));
            assert(keyed.subrange(32, 64) =~= bytes@.subrange(48, 80));
            assert(keyed.subrange(64, 96) =~= bytes@.subrange(80, 112));
            assert(keyed.subrange(96, 100) =~= bytes@.subrange(112, 116));
            lemma_le_value_bound(bytes@.subrange(112, 116));
            crate::digits::lemma_pow256_4();
        }
        let bit_length: u128 = read_num(bytes, 112, 4);
        let pubkey = RawPublicKey {
            p: read_u256(bytes, 16),
            g: read_u256(bytes, 48),
            h: read_u256(bytes, 80),
            bit_length: bit_length as u32,
        };
        let first = read_solution_at(bytes, 116);
        let second = read_solution_at(bytes, 212);
        let nonce = read_u256(bytes, 308);
        Some(Seal { difficulty, pubkey, solutions: (first, second), nonce })
    }

    /// The seal for a block whose puzzle `pubkey` was solved by `solutions`
    /// on the nonce `nonce`.
    pub fn assemble(
        difficulty: Difficulty,
        pubkey: &PublicKey,
        solutions: &Solutions<BigInt>,
        nonce: U256,
    ) -> (r: Seal)
        ensures
            r.difficulty == difficulty,
            r.pubkey@ == pubkey@.truncated(),
            r.solutions.0@ == spec_truncated(solutions.0@),
            r.solutions.1@ == spec_truncated(solutions.1@),
            r.nonce == nonce,
    {
        Seal {
            difficulty,
            pubkey: pubkey.to_raw(),
            solutions: (solutions.0.to_u256(), solutions.1.to_u256()),
            nonce,
        }
    }

    /// Mines the block of `compute` with one walk from the state `start` and
    /// seals it where the walk ends in a collision: with the key of the
    /// walk, the solutions of the two states that `spec_pollard_rho` names,
    /// and the nonce on which the first of them was reached.
    ///
    /// The seal of a minable walk is valid for the block: its bytes pass
    /// `verify_seal` for the pre-hash and the difficulty of `compute`. The
    /// nonce of the seal is left in `compute`; without a seal `compute` is as
    /// it was.
    pub fn try_mining_from(start: State<BigInt>, compute: &mut Blake3Compute) -> (r: Option<Seal>)
        requires
            start@.pubkey.p >= 2,
        ensures
            final(compute).difficulty == old(compute).difficulty,
            final(compute).pre_hash == old(compute).pre_hash,
            r.is_none() ==> final(compute).nonce == old(compute).nonce,
            r.is_some() == spec_pollard_rho(start@, *old(compute)).is_some(),
            r matches Some(seal) ==> {
                let states = spec_pollard_rho(start@, *old(compute))->0;
                &&& final(compute).nonce == seal.nonce
                &&& seal.difficulty == old(compute).difficulty
                &&& seal.pubkey@ == start@.pubkey.truncated()
                &&& seal.solutions.0@ == spec_truncated(states.0.solution)
                &&& seal.solutions.1@ == spec_truncated(states.1.solution)
                &&& seal.nonce@ == states.0.nonce % U256::modulus()
                &&& spec_minable(start@) ==> spec_verify_seal(
                    old(compute).pre_hash@,
                    spec_encode(seal@),
                    old(compute).difficulty,
                )
            },
    {
        let difficulty = compute.difficulty;
        let key = start.pubkey.clone();
        let ghost s0 = start@;
        let ghost h0 = *compute;
        let mut walker = *compute;
        match pollard_rho_from(start, &mut walker) {
            Some(solutions) => {
                let nonce = walker.nonce;
                compute.nonce = nonce;
                let seal = Seal::assemble(difficulty, &key, &solutions, nonce);
                proof {
                    if spec_minable(s0) {
                        lemma_meeting_seals(s0, h0);
                        let states = spec_pollard_rho(s0, h0)->0;
                        lemma_small_mod(states.0.nonce, U256::modulus());
                        lemma_small_mod(states.0.solution.a, U256::modulus());
                        lemma_small_mod(states.0.solution.b, U256::modulus());
                        lemma_small_mod(states.0.solution.n, U256::modulus());
                        lemma_small_mod(states.1.solution.a, U256::modulus());
                        lemma_small_mod(states.1.solution.b, U256::modulus());
                        lemma_small_mod(states.1.solution.n, U256::modulus());
                        lemma_small_mod(s0.pubkey.p, U256::modulus());
                        lemma_small_mod(s0.pubkey.g, U256::modulus());
                        lemma_small_mod(s0.pubkey.h, U256::modulus());
                        lemma_decode_encode(seal@, Seq::<u8>::empty());
                        assert(spec_encode(seal@) + Seq::<u8>::empty() =~= spec_encode(seal@));
                    }
                }
                Some(seal)
            },
            None => None,
        }
    }

    /// Mines the block of `compute` on the puzzle `pubkey` with one walk that
    /// starts from exponents drawn from `seed`, and seals it where the walk
    /// finds a collision: the result is what `try_mining_from` gives from the
    /// first state that `seed` draws. Whatever was drawn, the seal of a key
    /// that fits a seal and in whose group exponents wrap is valid for the
    /// block.
    pub fn try_cpu_mining(compute: &mut Blake3Compute, seed: U256, pubkey: PublicKey) -> (r:
        Option<Seal>)
        requires
            pubkey@.p >= 3,
        ensures
            final(compute).difficulty == old(compute).difficulty,
            final(compute).pre_hash == old(compute).pre_hash,
            r.is_none() ==> final(compute).nonce == old(compute).nonce,
            spec_first_state(pubkey@, spec_start_state(pubkey@, seed@)),
            spec_is_mined(spec_start_state(pubkey@, seed@), *old(compute), r),
            r matches Some(seal) ==> {
                &&& final(compute).nonce == seal.nonce
                &&& seal.difficulty == old(compute).difficulty
                &&& seal.pubkey@ == pubkey@.truncated()
                &&& pubkey@.fits() && pubkey@.exponents_wrap() ==> spec_verify_seal(
                    old(compute).pre_hash@,
                    spec_encode(seal@),
                    old(compute).difficulty,
                )
            },
    {
        let start = State::<BigInt>::from_pub_key(pubkey, u256_bigint(&seed));
        let ghost first = start@;
        let r = Seal::try_mining_from(start, compute);
        assert(spec_is_mined(first, *old(compute), r));
        r
    }
}

/// Whether `result` is what mining the block of `hasher` with one walk from
/// the state `start` gives: the seal of the two states that
/// `spec_pollard_rho` names, or nothing where it names none.
pub open spec fn spec_is_mined(
    start: StateView<nat>,
    hasher: Blake3Compute,
    result: Option<Seal>,
) -> bool {
    let found = spec_pollard_rho(start, hasher);
    match result {
        Some(seal) => {
            let states = found->0;
            &&& found.is_some()
            &&& seal.difficulty == hasher.difficulty
            &&& seal.pubkey@ == start.pubkey.truncated()
            &&& seal.solutions.0@ == spec_truncated(states.0.solution)
            &&& seal.solutions.1@ == spec_truncated(states.1.solution)
            &&& seal.nonce@ == states.0.nonce % U256::modulus()
        },
        None => found.is_none(),
    }
}

/// Where a minable walk ends in a collision, the collision makes a valid
/// seal: the numbers of the two states fit in a seal, both stand for one
/// point, and that point is the one that the walk reaches from the nonce.
pub proof fn lemma_meeting_seals(start: StateView<nat>, hasher: Blake3Compute)
    requires
        spec_minable(start),
        spec_pollard_rho(start, hasher).is_some(),
    ensures
        ({
            let states = spec_pollard_rho(start, hasher)->0;
            &&& states.0.nonce < U256::modulus()
            &&& spec_solution_fits(states.0.solution)
            &&& spec_solution_fits(states.1.solution)
            &&& spec_verify(
                start.pubkey,
                states.0.solution,
                states.1.solution,
                le_value(
                    blake3_digest(
                        spec_preimage(hasher.difficulty, hasher.pre_hash@, states.0.nonce),
                    ),
                ),
                states.0.nonce,
            )
        }),
{
    let limit = start.solution.n;
    let i = spec_first_meeting(start, hasher, 1, limit)->0;
    lemma_first_meeting_meets(start, hasher, 1, limit);
    let key = start.pubkey;
    lemma_mod_bound(
        pow(key.g as int, start.solution.a) * pow(key.h as int, start.solution.b),
        key.p as int,
    );
    lemma_walk_stays_small(start, hasher, (i - 1) as nat);
    lemma_walk_stays_small(start, hasher, i);
    lemma_walk_stays_small(start, hasher, 2 * i);
    lemma_walk_keeps_key(start, hasher, (i - 1) as nat);
    lemma_walk_keeps_key(start, hasher, i);
    lemma_walk_keeps_key(start, hasher, 2 * i);
    lemma_walk_keeps_point(start, hasher, i);
    lemma_walk_keeps_point(start, hasher, 2 * i);
    let prev = spec_walk(start, hasher, (i - 1) as nat);
    let slow = spec_walk(start, hasher, i);
    assert(slow == spec_transit(
        prev,
        crate::generic::Hash::spec_hash(&hasher, prev.work % U256::modulus()),
    )) by {
        reveal(spec_walk);
    }
    lemma_small_mod(prev.work, U256::modulus());
}

/// Decoding the bytes of a seal gives the seal back, whatever bytes follow.
pub proof fn lemma_decode_encode(seal: SealView, tail: Seq<u8>)
    requires
        seal.fits(),
    ensures
        spec_decode(spec_encode(seal) + tail) == Some(seal),
{
    let bytes = spec_encode(seal) + tail;
    let first = seal.solutions.0;
    let second = seal.solutions.1;
    crate::digits::lemma_pow256_16();
    crate::digits::lemma_pow256_4();
    lemma_digits_round_trip(seal.difficulty as nat, 16);
    lemma_digits_round_trip(seal.pubkey.p, 32);
    lemma_digits_round_trip(seal.pubkey.g, 32);
    lemma_digits_round_trip(seal.pubkey.h, 32);
    lemma_digits_round_trip(seal.pubkey.bit_length as nat, 4);
    lemma_digits_round_trip(first.a, 32);
    lemma_digits_round_trip(first.b, 32);
    lemma_digits_round_trip(first.n, 32);
    lemma_digits_round_trip(second.a, 32);
    lemma_digits_round_trip(second.b, 32);
    lemma_digits_round_trip(second.n, 32);
    lemma_digits_round_trip(seal.nonce, 32);
    assert(bytes.subrange(0, 16) =~= digits_of(seal.difficulty as nat, 16));
    let keyed = bytes.skip(16);
    assert(keyed.subrange(0, 32) =~= digits_of(seal.pubkey.p, 32));
    assert(keyed.subrange(32, 64) =~= digits_of(seal.pubkey.g, 32));
    assert(keyed.subrange(64, 96) =~= digits_of(seal.pubkey.h, 32));
    assert(keyed.subrange(96, 100) =~= digits_of(seal.pubkey.bit_length as nat, 4));
    let one = bytes.skip(116);
    assert(one.subrange(0, 32) =~= digits_of(first.a, 32));
    assert(one.subrange(32, 64) =~= digits_of(first.b, 32));
    assert(one.subrange(64, 96) =~= digits_of(first.n, 32));
    let two = bytes.skip(212);
    assert(two.subrange(0, 32) =~= digits_of(second.a, 32));
    assert(two.subrange(32, 64) =~= digits_of(second.b, 32));
    assert(two.subrange(64, 96) =~= digits_of(second.n, 32));
    assert(bytes.subrange(308, 340) =~= digits_of(seal.nonce, 32));
    assert(read_key(keyed) == seal.pubkey);
    assert(read_solution(one) == first);
    assert(read_solution(two) == second);
}

/// A seal for the block before the first: every number of its key, its bit
/// length among them, and of its solutions is one, and so is its nonce.
pub fn genesis_seal(difficulty: Difficulty) -> (r: Seal)
    ensures
        r.difficulty == difficulty,
        r.pubkey@.p == 1 && r.pubkey@.g == 1 && r.pubkey@.h == 1,
        r.pubkey.bit_length == 1,
        r.solutions.0@ == (Solution::<nat> { a: 1, b: 1, n: 1 }),
        r.solutions.1@ == (Solution::<nat> { a: 1, b: 1, n: 1 }),
        r.nonce@ == 1,
{
    let one = U256::one();
    let genesis_solution = Solution::<U256> { a: one, b: one, n: one };
    Seal {
        difficulty,
        pubkey: RawPublicKey { p: one, g: one, h: one, bit_length: 1 },
        solutions: (genesis_solution.clone(), genesis_solution),
        nonce: one,
    }
}

/// The pair of states with which a walk from `start` ends: the slow and the
/// fast walker where they first stand on one point within as many rounds as
/// the exponent modulus of `start` counts, unless they hold one solution
/// there.
pub open spec fn spec_pollard_rho<C: Hasher>(
    start: StateView<nat>,
    hasher: C,
) -> Option<(StateView<nat>, StateView<nat>)> {
    match spec_first_meeting(start, hasher, 1, start.solution.n) {
        None => None,
        Some(i) => {
            let slow = spec_walk(start, hasher, i);
            let fast = spec_walk(start, hasher, 2 * i);
            if slow.solution != fast.solution {
                Some((slow, fast))
            } else {
                None
            }
        },
    }
}

/// Follows the walk from the state `start` and returns the solutions of the
/// two states that `spec_pollard_rho` names. It leaves in `compute` the nonce
/// on which the first of them was reached.
pub fn pollard_rho_from<C: Hasher>(
    start: State<BigInt>,
    compute: &mut C,
) -> (r: Option<Solutions<BigInt>>)
    requires
        start@.pubkey.p >= 2,
    ensures
        forall|nonce: nat| #[trigger]
            final(compute).spec_hash(nonce) == old(compute).spec_hash(nonce),
        r.is_some() == spec_pollard_rho(start@, *old(compute)).is_some(),
        r matches Some(pair) ==> {
            let states = spec_pollard_rho(start@, *old(compute))->0;
            &&& pair.0@ == states.0.solution
            &&& pair.1@ == states.1.solution
            &&& final(compute).spec_nonce() == states.0.nonce % U256::modulus()
        },
{
    let ghost h0 = *compute;
    let mut compute_2 = compute.fork();
    let n = start.solution.n.clone();
    let mut signal: Option<&AtomicBool> = None;
    match floyd(start, compute, &mut compute_2, &n, &mut signal, 0, Ghost(h0)) {
        Some((state_1, state_2)) => {
            if !state_1.solution.equals(&state_2.solution) {
                Some((state_1.solution, state_2.solution))
            } else {
                None
            }
        },
        None => None,
    }
}

/// Whether `result`, with `nonce` left in the hasher, is what the walk from
/// the state `start` gives: the solutions of the two states that
/// `spec_pollard_rho` names and the nonce on which the first of them was
/// reached, or nothing where it names none.
pub open spec fn spec_is_walk_result<C: Hasher>(
    start: StateView<nat>,
    hasher: C,
    result: Option<(Solution<nat>, Solution<nat>)>,
    nonce: nat,
) -> bool {
    let found = spec_pollard_rho(start, hasher);
    match result {
        Some(pair) => {
            let states = found->0;
            &&& found.is_some()
            &&& pair.0 == states.0.solution
            &&& pair.1 == states.1.solution
            &&& nonce == states.0.nonce % U256::modulus()
        },
        None => found.is_none(),
    }
}

/// Searches for a collision with one walk over the group of `pubkey` that
/// starts from exponents drawn from `seed`. The result, and the nonce left
/// in `compute`, are what `pollard_rho_from` gives for the first state that
/// `seed` draws; whatever was drawn, the result is a sound pair.
pub fn pollard_rho<C: Hasher>(
    pubkey: PublicKey,
    compute: &mut C,
    seed: BigInt,
) -> (r: Option<Solutions<BigInt>>)
    requires
        pubkey@.p >= 3,
    ensures
        forall|nonce: nat| #[trigger]
            final(compute).spec_hash(nonce) == old(compute).spec_hash(nonce),
        spec_first_state(pubkey@, spec_start_state(pubkey@, seed@)),
        spec_is_walk_result(
            spec_start_state(pubkey@, seed@),
            *old(compute),
            spec_pair_view(r),
            final(compute).spec_nonce(),
        ),
        r matches Some(pair) ==> spec_sound_pair(pubkey@, (pair.0@, pair.1@)),
{
    let start = State::<BigInt>::from_pub_key(pubkey, seed);
    let ghost first = start@;
    proof {
        if spec_pollard_rho(start@, *compute).is_some() {
            let i = spec_first_meeting(start@, *compute, 1, start@.solution.n)->0;
            lemma_first_meeting_meets(start@, *compute, 1, start@.solution.n);
            lemma_walk_keeps_key(start@, *compute, i);
            lemma_walk_keeps_key(start@, *compute, 2 * i);
            if start@.pubkey.exponents_wrap() {
                lemma_walk_keeps_point(start@, *compute, i);
                lemma_walk_keeps_point(start@, *compute, 2 * i);
            }
        }
    }
    let r = pollard_rho_from(start, compute);
    assert(spec_is_walk_result(first, *old(compute), spec_pair_view(r), compute.spec_nonce()));
    r
}

/// Whether `seal` holds a valid seal for a block with the pre-hash
/// `pre_hash` at the difficulty `difficulty`.
pub open spec fn spec_verify_seal(
    pre_hash: Seq<u8>,
    seal: Seq<u8>,
    difficulty: Difficulty,
) -> bool {
    match spec_decode(seal) {
        None => false,
        Some(seal) => {
            &&& seal.difficulty == difficulty
            &&& spec_verify(
                seal.pubkey,
                seal.solutions.0,
                seal.solutions.1,
                le_value(blake3_digest(spec_preimage(difficulty, pre_hash, seal.nonce))),
                seal.nonce,
            )
        },
    }
}

/// Verifies the seal of a block: the bytes decode, the seal names the
/// difficulty that is asked for, and its solutions solve the puzzle of its
/// key for the block.
pub fn verify_seal(pre_hash: &H256, seal: &[u8], difficulty: Difficulty) -> (r: bool)
    ensures
        r == spec_verify_seal(pre_hash@, seal@, difficulty),
{
    let seal = match Seal::decode(seal) {
        Some(seal) => seal,
        None => {
            return false;
        },
    };
    if seal.difficulty != difficulty {
        return false;
    }
    let header = Blake3Compute { difficulty, pre_hash: *pre_hash, nonce: seal.nonce };
    let pubkey = PublicKey::from_raw(seal.pubkey);
    let verifier = SolutionVerifier { pubkey };
    let solutions = (
        Solution::<BigInt>::from_u256(&seal.solutions.0),
        Solution::<BigInt>::from_u256(&seal.solutions.1),
    );
    verifier.verify(&solutions, &header)
}

/// The proof-of-work algorithm at a fixed difficulty.
#[derive(Clone, Copy, Debug)]
pub struct MinimalCapsuleAlgorithm;

impl MinimalCapsuleAlgorithm {
    /// The difficulty of every block.
    pub fn difficulty(&self) -> (r: Difficulty)
        ensures
            r == MINIMAL_DIFFICULTY,
    {
        MINIMAL_DIFFICULTY
    }

    /// Verifies the seal of a block as `verify_seal` does.
    pub fn verify(&self, pre_hash: &H256, seal: &[u8], difficulty: Difficulty) -> (r: bool)
        ensures
            r == spec_verify_seal(pre_hash@, seal@, difficulty),
    {
        verify_seal(pre_hash, seal, difficulty)
    }
}

/// The proof-of-work algorithm whose difficulty the chain adjusts. It holds
/// the client from which the host reads the difficulty of a block.
pub struct CapsuleAlgorithm<C> {
    pub client: Arc<C>,
}

impl<C> CapsuleAlgorithm<C> {
    /// The algorithm for a host that reads the difficulty through `client`.
    pub fn new(client: Arc<C>) -> (r: Self)
        ensures
            r.client == client,
    {
        Self { client }
    }

    /// Verifies the seal of a block as `verify_seal` does.
    pub fn verify(&self, pre_hash: &H256, seal: &[u8], difficulty: Difficulty) -> (r: bool)
        ensures
            r == spec_verify_seal(pre_hash@, seal@, difficulty),
    {
        verify_seal(pre_hash, seal, difficulty)
    }
}

} // verus!
