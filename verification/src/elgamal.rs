//! ElGamal keys: the puzzle of a block is a public key, its solution the
//! matching private key.
use crate::bigint::BigInt;
use crate::uint::U256;
use crate::utils::{bigint_u256, u256_bigint};
use vstd::arithmetic::power::pow;
use vstd::prelude::*;

verus! {

/// The numbers of a public key.
pub struct KeyView {
    pub p: nat,
    pub g: nat,
    pub h: nat,
    pub bit_length: u32,
}

/// A public key: modulus `p`, generator `g`, and `h`, which is `g` to the
/// power of the private exponent modulo `p`. `bit_length` is the size of `p`.
#[derive(Debug, PartialEq, Eq)]
pub struct PublicKey {
    pub p: BigInt,
    pub g: BigInt,
    pub h: BigInt,
    pub bit_length: u32,
}

/// A public key as it stands in a seal: each number in 256 bits.
#[derive(Clone, Copy, Debug, PartialEq, Eq)]
pub struct RawPublicKey {
    pub p: U256,
    pub g: U256,
    pub h: U256,
    pub bit_length: u32,
}

/// A private key: the exponent `x` with `g^x mod p == h`.
#[derive(Debug, PartialEq, Eq)]
pub struct PrivateKey {
    pub p: BigInt,
    pub g: BigInt,
    pub x: BigInt,
    pub bit_length: u32,
}

impl View for PublicKey {
    type V = KeyView;

    open spec fn view(&self) -> KeyView {
        KeyView { p: self.p@, g: self.g@, h: self.h@, bit_length: self.bit_length }
    }
}

impl View for RawPublicKey {
    type V = KeyView;

    open spec fn view(&self) -> KeyView {
        KeyView { p: self.p@, g: self.g@, h: self.h@, bit_length: self.bit_length }
    }
}

impl KeyView {
    /// Whether the three numbers of the key fit in 256 bits each, so that a
    /// seal can carry the key.
    pub open spec fn fits(self) -> bool {
        self.p < U256::modulus() && self.g < U256::modulus() && self.h < U256::modulus()
    }

    /// The key with each number reduced to 256 bits.
    pub open spec fn truncated(self) -> KeyView {
        KeyView {
            p: self.p % U256::modulus(),
            g: self.g % U256::modulus(),
            h: self.h % U256::modulus(),
            bit_length: self.bit_length,
        }
    }

    /// `g^a * h^b mod p`: the point of the walk that the exponents `a` and
    /// `b` stand for.
    pub open spec fn combine(self, a: nat, b: nat) -> nat {
        ((pow(self.g as int, a) * pow(self.h as int, b)) % (self.p as int)) as nat
    }

    /// Whether the key lives in the group of a prime: `p` is a prime that
    /// divides neither `g` nor `h`.
    pub open spec fn in_prime_group(self) -> bool {
        &&& crate::primes::is_prime(self.p)
        &&& self.g % self.p != 0
        &&& self.h % self.p != 0
    }

    /// Whether exponents of `g` and `h` may be reduced modulo `p - 1`:
    /// `g^(p-1)` and `h^(p-1)` are both 1 modulo `p`. This holds for every
    /// key in the group of a prime.
    pub open spec fn exponents_wrap(self) -> bool {
        &&& self.p >= 2
        &&& pow(self.g as int, (self.p - 1) as nat) % (self.p as int) == 1
        &&& pow(self.h as int, (self.p - 1) as nat) % (self.p as int) == 1
    }

    /// Whether `x` is a private exponent of the key: `g^x mod p == h`.
    pub open spec fn opens_with(self, x: nat) -> bool {
        self.p > 0 && (pow(self.g as int, x) % (self.p as int)) as nat == self.h
    }
}

impl Clone for PublicKey {
    fn clone(&self) -> (r: Self)
        ensures
            r@ == self@,
    {
        PublicKey {
            p: self.p.clone(),
            g: self.g.clone(),
            h: self.h.clone(),
            bit_length: self.bit_length,
        }
    }
}

impl Clone for PrivateKey {
    fn clone(&self) -> (r: Self)
        ensures
            r.p@ == self.p@,
            r.g@ == self.g@,
            r.x@ == self.x@,
            r.bit_length == self.bit_length,
    {
        PrivateKey {
            p: self.p.clone(),
            g: self.g.clone(),
            x: self.x.clone(),
            bit_length: self.bit_length,
        }
    }
}

impl PublicKey {
    /// The key that a seal's raw key stands for.
    pub fn from_raw(raw: RawPublicKey) -> (r: PublicKey)
        ensures
            r@ == raw@,
    {
        PublicKey {
            p: u256_bigint(&raw.p),
            g: u256_bigint(&raw.g),
            h: u256_bigint(&raw.h),
            bit_length: raw.bit_length,
        }
    }

    /// The key in the form that a seal carries: each number in 256 bits.
    pub fn to_raw(&self) -> (r: RawPublicKey)
        ensures
            r@ == self@.truncated(),
    {
        RawPublicKey {
            p: bigint_u256(&self.p),
            g: bigint_u256(&self.g),
            h: bigint_u256(&self.h),
            bit_length: self.bit_length,
        }
    }
}

/// A raw key is what comes back when the key it stands for is made raw again.
pub proof fn lemma_raw_key_round_trip(raw: RawPublicKey, key: PublicKey, back: RawPublicKey)
    requires
        key@ == raw@,
        back@ == key@.truncated(),
    ensures
        back == raw,
{
    raw.p.lemma_bound();
    raw.g.lemma_bound();
    raw.h.lemma_bound();
    vstd::arithmetic::div_mod::lemma_small_mod(raw.p@, U256::modulus());
    vstd::arithmetic::div_mod::lemma_small_mod(raw.g@, U256::modulus());
    vstd::arithmetic::div_mod::lemma_small_mod(raw.h@, U256::modulus());
    back.p.lemma_equal_bytes(raw.p);
    back.g.lemma_equal_bytes(raw.g);
    back.h.lemma_equal_bytes(raw.h);
}

} // verus!
