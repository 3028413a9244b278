//! Fixed 256-bit values as they stand in a block seal: 32 bytes, least
//! significant first.

use crate::digits::{
    fit, le_value, lemma_le_value_bound, lemma_le_value_fit, lemma_le_value_injective, pow256,
};
use vstd::prelude::*;

verus! {

/// An unsigned 256-bit integer, held as its 32 little-endian bytes.
#[derive(Clone, Copy, Debug, PartialEq, Eq, Hash)]
pub struct U256 {
    pub bytes: [u8; 32],
}

/// A 256-bit hash, held as its 32 bytes.
#[derive(Clone, Copy, Debug, PartialEq, Eq, Hash)]
pub struct H256 {
    pub bytes: [u8; 32],
}

impl View for U256 {
    type V = nat;

    open spec fn view(&self) -> nat {
        le_value(self.bytes@)
    }
}

impl View for H256 {
    type V = Seq<u8>;

    open spec fn view(&self) -> Seq<u8> {
        self.bytes@
    }
}

/// Copies `digits`, cut or extended with zeros, into an array of 32 bytes.
pub fn fit_32(digits: &[u8]) -> (r: [u8; 32])
    ensures
        r@ == fit(digits@, 32),
{
    let mut bytes: [u8; 32] = [0u8; 32];
    let mut i: usize = 0;
    while i < 32
        invariant
            i <= 32,
            forall|j: int| 0 <= j < i ==> bytes@[j] == fit(digits@, 32)[j],
        decreases 32 - i,
    {
        if i < digits.len() {
            bytes[i] = digits[i];
        } else {
            bytes[i] = 0u8;
        }
        i = i + 1;
    }
    assert(bytes@ =~= fit(digits@, 32));
    bytes
}

impl U256 {
    /// The largest 256-bit value plus one: `2^256`.
    pub open spec fn modulus() -> nat {
        pow256(32)
    }

    /// Every value lies below `2^256`.
    pub proof fn lemma_bound(self)
        ensures
            self@ < U256::modulus(),
    {
        lemma_le_value_bound(self.bytes@);
    }

    /// Two values are equal exactly when their bytes are.
    pub proof fn lemma_equal_bytes(self, other: U256)
        ensures
            self@ == other@ <==> self == other,
    {
        if self@ == other@ {
            lemma_le_value_injective(self.bytes@, other.bytes@);
            assert(self.bytes@ =~= other.bytes@);
            assert(self.bytes == other.bytes);
        }
    }

    /// The value zero.
    pub fn zero() -> (r: U256)
        ensures
            r@ == 0,
    {
        let r = U256 { bytes: [0u8; 32] };
        proof {
            crate::digits::lemma_le_value_zero(r.bytes@);
        }
        r
    }

    /// The value one.
    pub fn one() -> (r: U256)
        ensures
            r@ == 1,
    {
        let mut bytes: [u8; 32] = [0u8; 32];
        bytes[0] = 1u8;
        proof {
            crate::digits::lemma_le_value_single(bytes@, 0);
        }
        U256 { bytes }
    }

    /// The largest value, `2^256 - 1`.
    pub fn max_value() -> (r: U256)
        ensures
            r@ == U256::modulus() - 1,
    {
        let r = U256 { bytes: [0xffu8; 32] };
        proof {
            lemma_all_ones(r.bytes@);
        }
        r
    }

    /// The value that the bytes of `slice` stand for, least significant
    /// first. Bytes beyond the 32nd are dropped.
    pub fn from_little_endian(slice: &[u8]) -> (r: U256)
        ensures
            r.bytes@ == fit(slice@, 32),
            r@ == le_value(slice@) % U256::modulus(),
    {
        proof {
            lemma_le_value_fit(slice@, 32);
        }
        U256 { bytes: fit_32(slice) }
    }

    /// The 32 bytes of the value, least significant first.
    pub fn to_little_endian(&self) -> (r: [u8; 32])
        ensures
            r@ == self.bytes@,
            le_value(r@) == self@,
    {
        self.bytes
    }

    /// Whether two values are equal.
    pub fn equals(&self, other: &U256) -> (r: bool)
        ensures
            r == (self@ == other@),
            r == (*self == *other),
    {
        let mut i: usize = 0;
        while i < 32
            invariant
                i <= 32,
                forall|j: int| 0 <= j < i ==> self.bytes@[j] == other.bytes@[j],
            decreases 32 - i,
        {
            if self.bytes[i] != other.bytes[i] {
                proof {
                    self.lemma_equal_bytes(*other);
                }
                return false;
            }
            i = i + 1;
        }
        proof {
            assert(self.bytes@ =~= other.bytes@);
            assert(self.bytes == other.bytes);
        }
        true
    }
}

/// A string of digits that are all `255` stands for `256^len - 1`.
pub proof fn lemma_all_ones(s: Seq<u8>)
    requires
        forall|i: int| 0 <= i < s.len() ==> s[i] == 255,
    ensures
        le_value(s) == pow256(s.len()) - 1,
    decreases s.len(),
{
    if s.len() > 0 {
        let t = s.drop_first();
        assert forall|i: int| 0 <= i < t.len() implies t[i] == 255 by {
            assert(t[i] == s[i + 1]);
        }
        lemma_all_ones(t);
    }
}

impl H256 {
    /// The hash whose bytes are those of `slice`, cut or extended with zeros
    /// to 32 bytes.
    pub fn from_slice(slice: &[u8]) -> (r: H256)
        ensures
            r@ == fit(slice@, 32),
    {
        H256 { bytes: fit_32(slice) }
    }
}

} // verus!
