//! Checking a seal, and recovering the private key that a seal gives away.
use crate::bigint::BigInt;
use crate::constants::{Difficulty, INIT_DIFFICULTY};
use crate::digits::le_value;
use crate::elgamal::{KeyView, PrivateKey, PublicKey};
use crate::generic::{spec_func_f, Hasher, Mapping, Solution, Solutions, State};
use crate::hash::{blake3_digest, spec_preimage, Blake3Compute};
use crate::seal::{
    lemma_decode_encode, lemma_decoded_fits, spec_decode, spec_encode, Seal, SealView,
};
use crate::uint::{H256, U256};
use crate::utils::{eqs_solvers, spec_eqs_solvers, u256_bigint};
use std::sync::Arc;
use vstd::arithmetic::power::pow;
use vstd::prelude::*;

verus! {

/// The block data that is hashed on every step of a walk.
pub type Compute = Blake3Compute;

/// Whether the difficulty that a seal names is the one that is asked for.
pub fn hash_meets_difficulty(seal_difficulty: &Difficulty, difficulty: Difficulty) -> (r: bool)
    ensures
        r == (*seal_difficulty == difficulty),
{
    *seal_difficulty == difficulty
}

/// Block data that knows the difficulty it is mined at.
pub trait OnCompute<E> {
    /// The difficulty that the data holds.
    spec fn spec_difficulty(&self) -> E;

    fn get_difficulty(&self) -> (r: E)
        ensures
            r == self.spec_difficulty(),
    ;
}

impl OnCompute<Difficulty> for Compute {
    open spec fn spec_difficulty(&self) -> Difficulty {
        self.difficulty
    }

    fn get_difficulty(&self) -> (r: Difficulty) {
        self.difficulty
    }
}

/// Whether two solutions solve the puzzle of `key` for a header whose digest
/// is `digest` and whose nonce is `nonce`: the key has a walk, both solutions
/// stand for one point, and that point is the one that the walk reaches from
/// the nonce.
pub open spec fn spec_verify(
    key: KeyView,
    first: Solution<nat>,
    second: Solution<nat>,
    digest: nat,
    nonce: nat,
) -> bool {
    &&& key.p >= 3
    &&& key.combine(first.a, first.b) == key.combine(second.a, second.b)
    &&& key.combine(first.a, first.b) == spec_func_f(key, digest % key.p, nonce)
}

/// The private exponent that two collided solutions give for `key`: the
/// number `x` that solves their equation, or `x + n`, whichever opens the
/// key, and none where neither does.
pub open spec fn spec_key_gen(key: KeyView, first: Solution<nat>, second: Solution<nat>) -> Option<
    nat,
> {
    match spec_eqs_solvers(first.a, first.b, second.a, second.b, second.n) {
        None => None,
        Some(x) => if key.opens_with(x) {
            Some(x)
        } else if key.opens_with(x + second.n) {
            Some(x + second.n)
        } else {
            None
        },
    }
}

impl crate::generic::KeySolver<BigInt> for Solutions<BigInt> {
    /// The exponent that solves the equation of the two solutions, as
    /// `eqs_solvers` finds it.
    fn solve(&self) -> (r: Option<BigInt>)
        ensures
            r.is_some() == spec_eqs_solvers(
                self.0@.a,
                self.0@.b,
                self.1@.a,
                self.1@.b,
                self.1@.n,
            ).is_some(),
            r matches Some(x) ==> spec_eqs_solvers(
                self.0@.a,
                self.0@.b,
                self.1@.a,
                self.1@.b,
                self.1@.n,
            ) == Some(x@),
    {
        eqs_solvers(&self.0.a, &self.0.b, &self.1.a, &self.1.b, &self.1.n)
    }
}

/// Checks mining results against the public key that was mined.
pub struct SolutionVerifier {
    pub pubkey: PublicKey,
}

impl SolutionVerifier {
    /// The point that a solution stands for: `g^a * h^b mod p`.
    pub fn derive(&self, solution: &Solution<BigInt>) -> (r: BigInt)
        requires
            self.pubkey@.p > 0,
        ensures
            r@ == self.pubkey@.combine(solution@.a, solution@.b),
    {
        let g_a_p = self.pubkey.g.pow_rem(&solution.a, &self.pubkey.p);
        let h_b_p = self.pubkey.h.pow_rem(&solution.b, &self.pubkey.p);
        proof {
            vstd::arithmetic::div_mod::lemma_mul_mod_noop(
                pow(self.pubkey@.g as int, solution@.a),
                pow(self.pubkey@.h as int, solution@.b),
                self.pubkey@.p as int,
            );
        }
        g_a_p.mul(&h_b_p).rem(&self.pubkey.p)
    }

    /// Whether the solutions solve the puzzle of the key for `header`.
    pub fn verify<C: Hasher>(
        &self,
        solutions: &Solutions<BigInt>,
        header: &C,
    ) -> (r: bool)
        ensures
            r == spec_verify(
                self.pubkey@,
                solutions.0@,
                solutions.1@,
                header.spec_hash(header.spec_nonce()),
                header.spec_nonce(),
            ),
    {
        if self.pubkey.p.less_than(&BigInt::from_u128(3)) {
            return false;
        }
        let y_1 = self.derive(&solutions.0);
        let y_2 = self.derive(&solutions.1);
        if !y_1.equals(&y_2) {
            return false;
        }
        let hash_i = header.hash_integer().rem(&self.pubkey.p);
        let nonce = u256_bigint(&header.get_nonce());
        let state = State::<BigInt>::from_pub_key(self.pubkey.clone(), BigInt::from_u128(1));
        match state.func_f(&hash_i, &nonce) {
            Ok(work) => y_1.equals(&work),
            Err(_) => false,
        }
    }

    /// The private key that the solutions give away: its exponent is the one
    /// that `spec_key_gen` names, and opens the public key.
    pub fn key_gen(&self, solutions: &Solutions<BigInt>) -> (r: Option<PrivateKey>)
        ensures
            r.is_some() == spec_key_gen(self.pubkey@, solutions.0@, solutions.1@).is_some(),
            r matches Some(key) ==> {
                &&& spec_key_gen(self.pubkey@, solutions.0@, solutions.1@) == Some(key.x@)
                &&& self.pubkey@.opens_with(key.x@)
                &&& key.p@ == self.pubkey@.p
                &&& key.g@ == self.pubkey@.g
                &&& key.bit_length == self.pubkey@.bit_length
            },
    {
        let key = match eqs_solvers(
            &solutions.0.a,
            &solutions.0.b,
            &solutions.1.a,
            &solutions.1.b,
            &solutions.1.n,
        ) {
            Some(key) => key,
            None => {
                return None;
            },
        };
        if self.pubkey.p.is_zero() {
            return None;
        }
        let validate = self.pubkey.g.pow_rem(&key, &self.pubkey.p);
        let new_key = if validate.equals(&self.pubkey.h) {
            key
        } else {
            let lifted = key.add(&solutions.1.n);
            let again = self.pubkey.g.pow_rem(&lifted, &self.pubkey.p);
            if !again.equals(&self.pubkey.h) {
                return None;
            }
            lifted
        };
        Some(
            PrivateKey {
                p: self.pubkey.p.clone(),
                g: self.pubkey.g.clone(),
                x: new_key,
                bit_length: self.pubkey.bit_length,
            },
        )
    }
}

/// Whether a seal with the numbers `seal` is valid for a block with the
/// pre-hash `pre_hash` at the difficulty `difficulty`.
pub open spec fn spec_seal_valid(
    seal: SealView,
    pre_hash: Seq<u8>,
    difficulty: Difficulty,
) -> bool {
    &&& seal.difficulty == difficulty
    &&& spec_verify(
        seal.pubkey,
        seal.solutions.0,
        seal.solutions.1,
        le_value(blake3_digest(spec_preimage(difficulty, pre_hash, seal.nonce))),
        seal.nonce,
    )
}

/// Whether `seal` holds a valid seal for a block with the pre-hash
/// `pre_hash` at the difficulty `difficulty`.
pub open spec fn spec_verify_seal(
    pre_hash: Seq<u8>,
    seal: Seq<u8>,
    difficulty: Difficulty,
) -> bool {
    match spec_decode(seal) {
        None => false,
        Some(seal) => spec_seal_valid(seal, pre_hash, difficulty),
    }
}

/// Verifies the seal of a block: the bytes decode, the seal names the
/// difficulty that is asked for, and its solutions solve the puzzle of its
/// key for the block.
pub fn verify_seal(pre_hash: &H256, seal: &[u8], difficulty: Difficulty) -> (r: bool)
    ensures
        r == spec_verify_seal(pre_hash@, seal@, difficulty),
{
    let seal = match Seal::decode(seal) {
        Some(seal) => seal,
        None => {
            return false;
        },
    };
    if !hash_meets_difficulty(&seal.difficulty, difficulty) {
        return false;
    }
    let header = Compute { difficulty, pre_hash: *pre_hash, nonce: seal.nonce };
    let pubkey = PublicKey::from_raw(seal.pubkey);
    let verifier = SolutionVerifier { pubkey };
    let solutions = (
        Solution::<BigInt>::from_u256(&seal.solutions.0),
        Solution::<BigInt>::from_u256(&seal.solutions.1),
    );
    verifier.verify(&solutions, &header)
}

/// A seal that is accepted is accepted again when the seal that it decodes
/// to is encoded anew and verified at its own difficulty.
pub proof fn lemma_accepted_seal_verifies_again(
    pre_hash: Seq<u8>,
    seal: Seq<u8>,
    difficulty: Difficulty,
)
    requires
        spec_verify_seal(pre_hash, seal, difficulty),
    ensures
        spec_decode(spec_encode(spec_decode(seal)->0)) == spec_decode(seal),
        spec_verify_seal(
            pre_hash,
            spec_encode(spec_decode(seal)->0),
            spec_decode(seal)->0.difficulty,
        ),
{
    let decoded = spec_decode(seal)->0;
    lemma_decoded_fits(seal);
    lemma_decode_encode(decoded, Seq::<u8>::empty());
    assert(spec_encode(decoded) + Seq::<u8>::empty() =~= spec_encode(decoded));
}

/// The proof-of-work algorithm at a fixed difficulty.
#[derive(Clone, Copy, Debug)]
pub struct MinTREXAlgo;

impl MinTREXAlgo {
    /// The difficulty of every block: the initial difficulty.
    pub fn difficulty(&self) -> (r: Difficulty)
        ensures
            r == INIT_DIFFICULTY,
    {
        INIT_DIFFICULTY
    }

    /// Verifies the seal of a block as `verify_seal` does.
    pub fn verify(&self, pre_hash: &H256, seal: &[u8], difficulty: Difficulty) -> (r: bool)
        ensures
            r == spec_verify_seal(pre_hash@, seal@, difficulty),
    {
        verify_seal(pre_hash, seal, difficulty)
    }
}

/// The proof-of-work algorithm whose difficulty the chain adjusts. It holds
/// the client from which the host reads the difficulty of a block.
pub struct TREXAlgo<C> {
    pub client: Arc<C>,
}

impl<C> TREXAlgo<C> {
    /// The algorithm for a host that reads the difficulty through `client`.
    pub fn new(client: Arc<C>) -> (r: Self)
        ensures
            r.client == client,
    {
        Self { client }
    }

    /// Verifies the seal of a block as `verify_seal` does.
    pub fn verify(&self, pre_hash: &H256, seal: &[u8], difficulty: Difficulty) -> (r: bool)
        ensures
            r == spec_verify_seal(pre_hash@, seal@, difficulty),
    {
        verify_seal(pre_hash, seal, difficulty)
    }
}

} // verus!
