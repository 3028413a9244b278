//! The hash adapter: block data and a nonce, digested into a big integer.
use crate::bigint::BigInt;
use crate::constants::Difficulty;
use crate::digits::{digits_of, le_value, lemma_digits_of_le_value, min_digits};
use crate::generic::{State, StateHash, StateView};
use crate::uint::{H256, U256};
use crate::utils::bigint_u256;
use crate::wire::{push_bytes, push_le_digits, slice_to_vec};
use vstd::prelude::*;

verus! {

/// The BLAKE3 digest of `data`: 32 bytes.
pub uninterp spec fn blake3_digest(data: Seq<u8>) -> Seq<u8>;

/// Calls `blake3::hash`. Claims that the 32 bytes it returns are a function
/// of the input bytes alone.
#[verifier::external_body]
fn blake3_hash(data: &[u8]) -> (r: [u8; 32])
    ensures
        r@ == blake3_digest(data@),
{
    *blake3::hash(data).as_bytes()
}

/// The SHA-256 digest of `data`: 32 bytes.
pub uninterp spec fn sha256_digest(data: Seq<u8>) -> Seq<u8>;

/// Calls `Sha256::digest` of the `sha2` crate. Claims that the 32 bytes it
/// returns are a function of the input bytes alone.
#[verifier::external_body]
fn sha256_hash(data: &[u8]) -> (r: [u8; 32])
    ensures
        r@ == sha256_digest(data@),
{
    <sha2::Sha256 as sha2::Digest>::digest(data).into()
}

/// Block data waiting for a nonce that solves its puzzle. Hashing digests the
/// three fields with BLAKE3.
#[derive(Clone, Copy, Debug, PartialEq, Eq)]
pub struct Blake3Compute {
    pub difficulty: Difficulty,
    pub pre_hash: H256,
    pub nonce: U256,
}

/// The bytes that are hashed: the difficulty in 16 bytes, the 32 bytes of
/// the pre-hash, and the nonce in 32 bytes, numbers least significant byte
/// first.
pub open spec fn spec_preimage(difficulty: Difficulty, pre_hash: Seq<u8>, nonce: nat) -> Seq<u8> {
    digits_of(difficulty as nat, 16) + pre_hash + digits_of(nonce, 32)
}

impl Blake3Compute {
    /// The bytes that are hashed.
    pub fn encode(&self) -> (r: Vec<u8>)
        ensures
            r@ == spec_preimage(self.difficulty, self.pre_hash@, self.nonce@),
    {
        let mut out: Vec<u8> = Vec::new();
        push_le_digits(&mut out, self.difficulty, 16);
        push_bytes(&mut out, self.pre_hash.bytes.as_slice());
        push_bytes(&mut out, self.nonce.bytes.as_slice());
        proof {
            lemma_digits_of_le_value(self.nonce.bytes@);
            assert(out@ =~= spec_preimage(self.difficulty, self.pre_hash@, self.nonce@));
        }
        out
    }
}

impl crate::generic::Hash<BigInt, U256> for Blake3Compute {
    open spec fn spec_nonce(&self) -> nat {
        self.nonce@
    }

    open spec fn spec_hash(&self, nonce: nat) -> nat {
        le_value(blake3_digest(spec_preimage(self.difficulty, self.pre_hash@, nonce)))
    }

    /// Only the nonce changes.
    fn set_nonce(&mut self, value: &BigInt)
        ensures
            final(self).nonce@ == value@ % U256::modulus(),
            final(self).difficulty == old(self).difficulty,
            final(self).pre_hash == old(self).pre_hash,
    {
        self.nonce = bigint_u256(value);
    }

    fn get_nonce(&self) -> (r: U256) {
        self.nonce
    }

    /// The digits of the result are the 32 bytes of the digest, as they
    /// come, so that the result lies below `2^256`.
    fn hash_integer(&self) -> (r: BigInt)
        ensures
            r.digits@ == blake3_digest(spec_preimage(self.difficulty, self.pre_hash@, self.nonce@)),
            r.digits@.len() == 32,
            r@ < U256::modulus(),
    {
        let data = self.encode();
        let hash = blake3_hash(data.as_slice());
        proof {
            crate::digits::lemma_le_value_bound(hash@);
        }
        BigInt::from_lsb_digits(slice_to_vec(hash.as_slice()))
    }

    fn fork(&self) -> (r: Self) {
        Blake3Compute { difficulty: self.difficulty, pre_hash: self.pre_hash, nonce: self.nonce }
    }
}

/// Block data as `Blake3Compute` holds it, hashed with SHA-256 instead.
#[derive(Clone, Copy, Debug, PartialEq, Eq)]
pub struct Sha256Compute {
    pub difficulty: Difficulty,
    pub pre_hash: H256,
    pub nonce: U256,
}

impl Sha256Compute {
    /// The bytes that are hashed.
    pub fn encode(&self) -> (r: Vec<u8>)
        ensures
            r@ == spec_preimage(self.difficulty, self.pre_hash@, self.nonce@),
    {
        Blake3Compute {
            difficulty: self.difficulty,
            pre_hash: self.pre_hash,
            nonce: self.nonce,
        }.encode()
    }
}

impl crate::generic::Hash<BigInt, U256> for Sha256Compute {
    open spec fn spec_nonce(&self) -> nat {
        self.nonce@
    }

    open spec fn spec_hash(&self, nonce: nat) -> nat {
        le_value(sha256_digest(spec_preimage(self.difficulty, self.pre_hash@, nonce)))
    }

    /// Only the nonce changes.
    fn set_nonce(&mut self, value: &BigInt)
        ensures
            final(self).nonce@ == value@ % U256::modulus(),
            final(self).difficulty == old(self).difficulty,
            final(self).pre_hash == old(self).pre_hash,
    {
        self.nonce = bigint_u256(value);
    }

    fn get_nonce(&self) -> (r: U256) {
        self.nonce
    }

    /// The digits of the result are the 32 bytes of the digest, as they
    /// come, so that the result lies below `2^256`.
    fn hash_integer(&self) -> (r: BigInt)
        ensures
            r.digits@ == sha256_digest(spec_preimage(self.difficulty, self.pre_hash@, self.nonce@)),
            r.digits@.len() == 32,
            r@ < U256::modulus(),
    {
        let data = self.encode();
        let hash = sha256_hash(data.as_slice());
        proof {
            crate::digits::lemma_le_value_bound(hash@);
        }
        BigInt::from_lsb_digits(slice_to_vec(hash.as_slice()))
    }

    fn fork(&self) -> (r: Self) {
        Sha256Compute { difficulty: self.difficulty, pre_hash: self.pre_hash, nonce: self.nonce }
    }
}

/// Hashing is a function of the data: two hashers that hold the same
/// difficulty, pre-hash and nonce return the same digest, byte for byte.
pub proof fn lemma_hash_is_determined(one: Blake3Compute, other: Blake3Compute)
    requires
        one.difficulty == other.difficulty,
        one.pre_hash@ == other.pre_hash@,
        one.nonce@ == other.nonce@,
    ensures
        blake3_digest(spec_preimage(one.difficulty, one.pre_hash@, one.nonce@)) == blake3_digest(
            spec_preimage(other.difficulty, other.pre_hash@, other.nonce@),
        ),
        crate::generic::Hash::spec_hash(&one, one.nonce@) == crate::generic::Hash::spec_hash(
            &other,
            other.nonce@,
        ),
{
}

impl StateHash<BigInt, U256> for State<BigInt> {
    /// The BLAKE3 digest of the sum of the state's two points and two
    /// exponents, written in its shortest form.
    open spec fn spec_hash_encode(state: StateView<nat>) -> nat {
        le_value(
            blake3_digest(
                min_digits(state.nonce + state.work + state.solution.a + state.solution.b),
            ),
        )
    }

    fn hash_encode(&self) -> (r: U256) {
        let total = self.nonce.add(&self.work).add(&self.solution.a).add(&self.solution.b);
        let digits = total.to_lsb_digits();
        let new_hash = blake3_hash(digits.as_slice());
        let r = U256 { bytes: new_hash };
        r
    }
}

} // verus!
