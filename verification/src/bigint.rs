//! Non-negative integers of any size, held as little-endian base-256 digits.
//!
//! The arithmetic itself is done by the `rug` crate. Each operation of `rug`
//! that the library uses stands behind one private function whose contract
//! is taken from `rug`'s documentation and is not proved here.
use crate::digits::{
    le_value, lemma_le_value_bound, lemma_le_value_push, lemma_le_value_split, lemma_le_value_zero,
    lemma_minimal_is_min_digits, lemma_pow256_monotonic, lemma_pow256_positive, min_digits, pow256,
};
use rug::integer::Order;
use rug::Integer;
use vstd::arithmetic::power::pow;
use vstd::prelude::*;

verus! {

/// A non-negative integer. `digits` holds it in base 256, least significant
/// digit first; zero digits at the end are allowed and change nothing.
#[derive(Debug)]
pub struct BigInt {
    pub digits: Vec<u8>,
}

impl View for BigInt {
    type V = nat;

    open spec fn view(&self) -> nat {
        le_value(self.digits@)
    }
}

/// The greatest common divisor, by Euclid's rule; `spec_gcd(0, 0) == 0`.
pub open spec fn spec_gcd(a: nat, b: nat) -> nat
    decreases b,
{
    if b == 0 {
        a
    } else {
        spec_gcd(b, a % b)
    }
}

/// Whether `r` is the square root of `a`, rounded down.
pub open spec fn is_sqrt(a: nat, r: nat) -> bool {
    r * r <= a < (r + 1) * (r + 1)
}

/// The square root of `a`, rounded down.
pub open spec fn spec_sqrt(a: nat) -> nat {
    choose|r: nat| is_sqrt(a, r)
}

/// A number has one rounded-down square root.
pub proof fn lemma_sqrt_unique(a: nat, r: nat, s: nat)
    requires
        is_sqrt(a, r),
        is_sqrt(a, s),
    ensures
        r == s,
{
    if r < s {
        assert((r + 1) * (r + 1) <= s * s) by (nonlinear_arith)
            requires
                r + 1 <= s,
        ;
    } else if s < r {
        assert((s + 1) * (s + 1) <= r * r) by (nonlinear_arith)
            requires
                s + 1 <= r,
        ;
    }
}

/// `base` to the power `exponent`, reduced modulo `modulus`.
pub open spec fn spec_pow_mod(base: nat, exponent: nat, modulus: nat) -> nat {
    (pow(base as int, exponent) % (modulus as int)) as nat
}

/// Calls `rug`'s addition of two `Integer`s. Claims that the result is the sum.
#[verifier::external_body]
fn rug_add(a: &BigInt, b: &BigInt) -> (r: BigInt)
    ensures
        r@ == a@ + b@,
{
    let x = Integer::from_digits(&a.digits, Order::Lsf);
    let y = Integer::from_digits(&b.digits, Order::Lsf);
    BigInt { digits: Integer::from(x + y).to_digits(Order::Lsf) }
}

/// Calls `rug`'s subtraction of two `Integer`s. Claims that the result is the
/// difference, where that is not negative.
#[verifier::external_body]
fn rug_sub(a: &BigInt, b: &BigInt) -> (r: BigInt)
    requires
        a@ >= b@,
    ensures
        r@ == a@ - b@,
{
    let x = Integer::from_digits(&a.digits, Order::Lsf);
    let y = Integer::from_digits(&b.digits, Order::Lsf);
    BigInt { digits: Integer::from(x - y).to_digits(Order::Lsf) }
}

/// Calls `rug`'s multiplication of two `Integer`s. Claims that the result is
/// the product.
#[verifier::external_body]
fn rug_mul(a: &BigInt, b: &BigInt) -> (r: BigInt)
    ensures
        r@ == a@ * b@,
{
    let x = Integer::from_digits(&a.digits, Order::Lsf);
    let y = Integer::from_digits(&b.digits, Order::Lsf);
    BigInt { digits: Integer::from(x * y).to_digits(Order::Lsf) }
}

/// Calls `Integer::div_rem_euc`, which panics on a zero divisor. Claims that
/// it returns the quotient and the remainder of the division.
#[verifier::external_body]
fn rug_div_rem_euc(a: &BigInt, divisor: &BigInt) -> (r: (BigInt, BigInt))
    requires
        divisor@ > 0,
    ensures
        r.0@ == a@ / divisor@,
        r.1@ == a@ % divisor@,
{
    let x = Integer::from_digits(&a.digits, Order::Lsf);
    let y = Integer::from_digits(&divisor.digits, Order::Lsf);
    let (q, rem) = x.div_rem_euc(y);
    (BigInt { digits: q.to_digits(Order::Lsf) }, BigInt { digits: rem.to_digits(Order::Lsf) })
}

/// Calls `Integer::pow_mod`, which has an answer whenever the exponent is not
/// negative and the modulus is not zero. Claims that the answer is the power
/// reduced modulo the modulus.
#[verifier::external_body]
fn rug_pow_mod(base: &BigInt, exponent: &BigInt, modulus: &BigInt) -> (r: BigInt)
    requires
        modulus@ > 0,
    ensures
        r@ == spec_pow_mod(base@, exponent@, modulus@),
{
    let b = Integer::from_digits(&base.digits, Order::Lsf);
    let e = Integer::from_digits(&exponent.digits, Order::Lsf);
    let m = Integer::from_digits(&modulus.digits, Order::Lsf);
    match b.pow_mod(&e, &m) {
        Ok(power) => BigInt { digits: power.to_digits(Order::Lsf) },
        Err(unchanged) => BigInt { digits: unchanged.to_digits(Order::Lsf) },
    }
}

/// Calls `Integer::invert`. Claims that an inverse is returned exactly when
/// the modulus is not zero and has no divisor in common with the number, and
/// that the inverse lies below the modulus and multiplies the number to one.
#[verifier::external_body]
fn rug_invert(a: &BigInt, modulus: &BigInt) -> (r: Option<BigInt>)
    ensures
        r.is_some() == (modulus@ != 0 && spec_gcd(a@, modulus@) == 1),
        r matches Some(inverse) ==> inverse@ < modulus@,
        r matches Some(inverse) ==> (a@ * inverse@) % modulus@ == 1nat % modulus@,
{
    let x = Integer::from_digits(&a.digits, Order::Lsf);
    let m = Integer::from_digits(&modulus.digits, Order::Lsf);
    match x.invert(&m) {
        Ok(inverse) => Some(BigInt { digits: inverse.to_digits(Order::Lsf) }),
        Err(_) => None,
    }
}

/// Calls `Integer::gcd`. Claims that the result is the greatest common
/// divisor, which is zero only for two zeros.
#[verifier::external_body]
fn rug_gcd(a: &BigInt, b: &BigInt) -> (r: BigInt)
    ensures
        r@ == spec_gcd(a@, b@),
{
    let x = Integer::from_digits(&a.digits, Order::Lsf);
    let y = Integer::from_digits(&b.digits, Order::Lsf);
    BigInt { digits: x.gcd(&y).to_digits(Order::Lsf) }
}

/// Calls `Integer::sqrt`. Claims that the result is the square root, rounded
/// down.
#[verifier::external_body]
fn rug_sqrt(a: &BigInt) -> (r: BigInt)
    ensures
        r@ * r@ <= a@ < (r@ + 1) * (r@ + 1),
{
    let x = Integer::from_digits(&a.digits, Order::Lsf);
    BigInt { digits: x.sqrt().to_digits(Order::Lsf) }
}

/// Calls `Integer::mod_u`, which panics on a zero modulus. Claims that the
/// result is the remainder of the division by `modulus`.
#[verifier::external_body]
fn rug_mod_u(a: &BigInt, modulus: u32) -> (r: u32)
    requires
        modulus > 0,
    ensures
        r == a@ % (modulus as nat),
{
    Integer::from_digits(&a.digits, Order::Lsf).mod_u(modulus)
}

/// Calls `rug`'s `<` on two `Integer`s. Claims that it orders them by value.
#[verifier::external_body]
fn rug_less(a: &BigInt, b: &BigInt) -> (r: bool)
    ensures
        r == (a@ < b@),
{
    Integer::from_digits(&a.digits, Order::Lsf) < Integer::from_digits(&b.digits, Order::Lsf)
}

/// Calls `rug`'s `==` on two `Integer`s. Claims that it compares them by value.
#[verifier::external_body]
fn rug_equal(a: &BigInt, b: &BigInt) -> (r: bool)
    ensures
        r == (a@ == b@),
{
    Integer::from_digits(&a.digits, Order::Lsf) == Integer::from_digits(&b.digits, Order::Lsf)
}

impl PartialEq for BigInt {
    fn eq(&self, other: &BigInt) -> (r: bool) {
        rug_equal(self, other)
    }
}

impl Eq for BigInt {

}

impl vstd::std_specs::cmp::PartialEqSpecImpl for BigInt {
    open spec fn obeys_eq_spec() -> bool {
        true
    }

    open spec fn eq_spec(&self, other: &BigInt) -> bool {
        self@ == other@
    }
}

impl Clone for BigInt {
    fn clone(&self) -> (r: Self)
        ensures
            r@ == self@,
            r.digits@ == self.digits@,
    {
        let mut digits: Vec<u8> = Vec::new();
        let mut i: usize = 0;
        while i < self.digits.len()
            invariant
                i <= self.digits.len(),
                digits@ == self.digits@.subrange(0, i as int),
            decreases self.digits.len() - i,
        {
            digits.push(self.digits[i]);
            assert(digits@ =~= self.digits@.subrange(0, i + 1));
            i = i + 1;
        }
        assert(digits@ =~= self.digits@);
        BigInt { digits }
    }
}

impl BigInt {
    /// The number zero.
    pub fn zero() -> (r: BigInt)
        ensures
            r@ == 0,
    {
        BigInt { digits: Vec::new() }
    }

    /// The number `value`.
    pub fn from_u128(value: u128) -> (r: BigInt)
        ensures
            r@ == value,
    {
        let mut digits: Vec<u8> = Vec::new();
        let mut rest: u128 = value;
        proof {
            assert(rest as nat * pow256(0) == rest) by (nonlinear_arith)
                requires
                    pow256(0) == 1,
            ;
        }
        while rest > 0
            invariant
                le_value(digits@) + rest as nat * pow256(digits@.len()) == value,
            decreases rest,
        {
            let d: u8 = (rest % 256) as u8;
            let next: u128 = rest / 256;
            proof {
                lemma_le_value_push(digits@, d);
                let weight = pow256(digits@.len());
                assert(pow256(digits@.len() + 1) == 256 * weight);
                assert(d as nat * weight + next as nat * (256 * weight) == rest as nat * weight)
                    by (nonlinear_arith)
                    requires
                        rest == 256 * next + d,
                ;
            }
            digits.push(d);
            rest = next;
        }
        proof {
            assert(rest as nat * pow256(digits@.len()) == 0) by (nonlinear_arith)
                requires
                    rest == 0,
            ;
        }
        BigInt { digits }
    }

    /// The number that `digits` stand for, least significant digit first.
    pub fn from_lsb_digits(digits: Vec<u8>) -> (r: BigInt)
        ensures
            r@ == le_value(digits@),
            r.digits@ == digits@,
    {
        BigInt { digits }
    }

    /// The digits of the number, least significant first and without zero
    /// digits at the end; zero has no digit.
    pub fn to_lsb_digits(&self) -> (r: Vec<u8>)
        ensures
            r@ == min_digits(self@),
    {
        let mut len: usize = self.digits.len();
        proof {
            assert(self.digits@.subrange(0, len as int) =~= self.digits@);
        }
        while len > 0 && self.digits[len - 1] == 0
            invariant
                len <= self.digits.len(),
                le_value(self.digits@.subrange(0, len as int)) == self@,
            decreases len,
        {
            proof {
                let shorter = self.digits@.subrange(0, len - 1);
                assert(self.digits@.subrange(0, len as int) =~= shorter.push(0u8));
                lemma_le_value_push(shorter, 0u8);
            }
            len = len - 1;
        }
        let mut r: Vec<u8> = Vec::new();
        let mut i: usize = 0;
        while i < len
            invariant
                i <= len <= self.digits.len(),
                r@ == self.digits@.subrange(0, i as int),
            decreases len - i,
        {
            r.push(self.digits[i]);
            assert(r@ =~= self.digits@.subrange(0, i + 1));
            i = i + 1;
        }
        proof {
            lemma_minimal_is_min_digits(r@);
        }
        r
    }

    /// Whether the number is zero.
    pub fn is_zero(&self) -> (r: bool)
        ensures
            r == (self@ == 0),
    {
        let mut i: usize = 0;
        while i < self.digits.len()
            invariant
                i <= self.digits.len(),
                forall|j: int| 0 <= j < i ==> self.digits@[j] == 0,
            decreases self.digits.len() - i,
        {
            if self.digits[i] != 0 {
                proof {
                    lemma_le_value_zero(self.digits@);
                }
                return false;
            }
            i = i + 1;
        }
        proof {
            lemma_le_value_zero(self.digits@);
        }
        true
    }

    /// Whether two numbers are equal, whatever zero digits end their strings.
    pub fn equals(&self, other: &BigInt) -> (r: bool)
        ensures
            r == (self@ == other@),
    {
        rug_equal(self, other)
    }

    /// Whether the number is smaller than `other`.
    pub fn less_than(&self, other: &BigInt) -> (r: bool)
        ensures
            r == (self@ < other@),
    {
        rug_less(self, other)
    }

    /// The sum of two numbers.
    pub fn add(&self, other: &BigInt) -> (r: BigInt)
        ensures
            r@ == self@ + other@,
    {
        rug_add(self, other)
    }

    /// The difference `self - other` of a number and one that is not larger.
    pub fn sub(&self, other: &BigInt) -> (r: BigInt)
        requires
            self@ >= other@,
        ensures
            r@ == self@ - other@,
    {
        rug_sub(self, other)
    }

    /// The difference `self - other`, or `None` where it would be negative.
    pub fn checked_sub(&self, other: &BigInt) -> (r: Option<BigInt>)
        ensures
            r.is_some() <==> self@ >= other@,
            r matches Some(d) ==> d@ == self@ - other@,
    {
        if rug_less(self, other) {
            None
        } else {
            Some(rug_sub(self, other))
        }
    }

    /// The product of two numbers.
    pub fn mul(&self, other: &BigInt) -> (r: BigInt)
        ensures
            r@ == self@ * other@,
    {
        rug_mul(self, other)
    }

    /// Quotient and remainder of the division by `divisor`, or `None` for a
    /// zero divisor.
    pub fn div_rem(&self, divisor: &BigInt) -> (r: Option<(BigInt, BigInt)>)
        ensures
            r.is_some() <==> divisor@ != 0,
            r matches Some(qr) ==> qr.0@ == self@ / divisor@ && qr.1@ == self@ % divisor@,
    {
        if divisor.is_zero() {
            None
        } else {
            Some(rug_div_rem_euc(self, divisor))
        }
    }

    /// The remainder of the division by `modulus`.
    pub fn rem(&self, modulus: &BigInt) -> (r: BigInt)
        requires
            modulus@ > 0,
        ensures
            r@ == self@ % modulus@,
    {
        let (_, r) = rug_div_rem_euc(self, modulus);
        r
    }

    /// The quotient of the division by `divisor`.
    pub fn div(&self, divisor: &BigInt) -> (r: BigInt)
        requires
            divisor@ > 0,
        ensures
            r@ == self@ / divisor@,
    {
        let (q, _) = rug_div_rem_euc(self, divisor);
        q
    }

    /// The remainder of the division by the small number `modulus`.
    pub fn mod_u(&self, modulus: u32) -> (r: u32)
        requires
            modulus > 0,
        ensures
            r == self@ % (modulus as nat),
    {
        rug_mod_u(self, modulus)
    }

    /// `self` to the power `exponent` modulo `modulus`, or `None` for a zero
    /// modulus.
    pub fn pow_mod(&self, exponent: &BigInt, modulus: &BigInt) -> (r: Option<BigInt>)
        ensures
            r.is_some() <==> modulus@ != 0,
            r matches Some(power) ==> power@ == spec_pow_mod(self@, exponent@, modulus@),
    {
        if modulus.is_zero() {
            None
        } else {
            Some(rug_pow_mod(self, exponent, modulus))
        }
    }

    /// `self` to the power `exponent` modulo the non-zero `modulus`.
    pub fn pow_rem(&self, exponent: &BigInt, modulus: &BigInt) -> (r: BigInt)
        requires
            modulus@ > 0,
        ensures
            r@ == spec_pow_mod(self@, exponent@, modulus@),
            r@ < modulus@,
    {
        proof {
            vstd::arithmetic::div_mod::lemma_mod_bound(
                pow(self@ as int, exponent@),
                modulus@ as int,
            );
        }
        rug_pow_mod(self, exponent, modulus)
    }

    /// The inverse of the number modulo `modulus`: `None` where the modulus is
    /// zero or shares a divisor with the number.
    pub fn invert(&self, modulus: &BigInt) -> (r: Option<BigInt>)
        ensures
            r.is_some() <==> modulus@ != 0 && spec_gcd(self@, modulus@) == 1,
            r matches Some(inverse) ==> inverse@ < modulus@ && (self@ * inverse@) % modulus@
                == 1nat % modulus@,
    {
        rug_invert(self, modulus)
    }

    /// The greatest common divisor of two numbers.
    pub fn gcd(&self, other: &BigInt) -> (r: BigInt)
        ensures
            r@ == spec_gcd(self@, other@),
    {
        rug_gcd(self, other)
    }

    /// The square root, rounded down.
    pub fn sqrt(&self) -> (r: BigInt)
        ensures
            r@ == spec_sqrt(self@),
            is_sqrt(self@, r@),
    {
        let r = rug_sqrt(self);
        proof {
            assert(is_sqrt(self@, r@));
            lemma_sqrt_unique(self@, r@, spec_sqrt(self@));
        }
        r
    }

    /// The number as a `u128`, or `None` where it does not fit.
    pub fn to_u128(&self) -> (r: Option<u128>)
        ensures
            r.is_some() <==> self@ <= u128::MAX,
            r matches Some(v) ==> v == self@,
    {
        let len: usize = self.digits.len();
        let low_len: usize = if len < 16 {
            len
        } else {
            16
        };
        let ghost low = self.digits@.subrange(0, low_len as int);
        let ghost high = self.digits@.subrange(low_len as int, len as int);
        proof {
            lemma_le_value_split(self.digits@, low_len as int);
            lemma_le_value_bound(low);
            lemma_pow256_monotonic(low_len as nat, 16);
            lemma_pow256_positive(low_len as nat);
            crate::digits::lemma_pow256_16();
        }
        let mut i: usize = low_len;
        while i < len
            invariant
                low_len <= i <= len,
                len == self.digits.len(),
                forall|j: int| low_len <= j < i ==> self.digits@[j] == 0,
                high == self.digits@.subrange(low_len as int, len as int),
                self@ == le_value(low) + pow256(low_len as nat) * le_value(high),
                low_len == 16 || i == len,
                pow256(16) == 0x1_0000_0000_0000_0000_0000_0000_0000_0000,
            decreases len - i,
        {
            if self.digits[i] != 0 {
                proof {
                    lemma_le_value_zero(high);
                    assert(high[i - low_len] == self.digits@[i as int]);
                    assert(le_value(high) >= 1);
                    assert(pow256(16) * le_value(high) >= pow256(16)) by (nonlinear_arith)
                        requires
                            le_value(high) >= 1,
                    ;
                }
                return None;
            }
            i = i + 1;
        }
        proof {
            assert forall|j: int| 0 <= j < high.len() implies high[j] == 0 by {
                assert(high[j] == self.digits@[j + low_len]);
            }
            lemma_le_value_zero(high);
            assert(pow256(low_len as nat) * le_value(high) == 0) by (nonlinear_arith)
                requires
                    le_value(high) == 0,
            ;
        }
        let mut acc: u128 = 0;
        let mut k: usize = low_len;
        proof {
            assert(self.digits@.subrange(low_len as int, low_len as int) =~= Seq::<u8>::empty());
        }
        while k > 0
            invariant
                k <= low_len <= 16,
                low_len <= self.digits.len(),
                acc == le_value(self.digits@.subrange(k as int, low_len as int)),
            decreases k,
        {
            let ghost upper = self.digits@.subrange(k as int, low_len as int);
            let ghost wider = self.digits@.subrange(k - 1, low_len as int);
            proof {
                assert(wider.drop_first() =~= upper);
                assert(wider[0] == self.digits@[k - 1]);
                lemma_le_value_bound(upper);
                lemma_pow256_monotonic(upper.len(), 15);
                crate::digits::lemma_pow256_15();
            }
            acc = acc * 256 + self.digits[k - 1] as u128;
            k = k - 1;
        }
        proof {
            assert(self.digits@.subrange(0, low_len as int) =~= low);
        }
        Some(acc)
    }
}

} // verus!
