//! Conversions between big integers and the fixed-size values of a seal,
//! random draws, and the solver that turns a collision into a private exponent.
use crate::bigint::{spec_gcd, BigInt};
use crate::digits::le_value;
use crate::uint::{H256, U256};
use crate::wire::slice_to_vec;
use rug::integer::Order;
use rug::rand::RandState;
use rug::Integer;
use vstd::prelude::*;

verus! {

/// `rug`'s random generator. Of a generator by itself nothing is known.
#[verifier::external_type_specification]
#[verifier::external_body]
pub struct ExRandState<'a>(RandState<'a>);

/// Calls `ThreadRng::gen_range` of the `rand` crate on an inclusive range,
/// which panics on an empty range. Claims that the draw lies in the range.
#[verifier::external_body]
fn rand_in_range(low: u32, high: u32) -> (r: u32)
    requires
        low <= high,
    ensures
        low <= r <= high,
{
    rand::Rng::gen_range(&mut rand::thread_rng(), low..=high)
}

/// Calls `RandState::new_mersenne_twister`. Claims nothing of the generator
/// that it returns.
#[verifier::external_body]
fn rug_mersenne_twister() -> (r: RandState<'static>) {
    RandState::new_mersenne_twister()
}

/// A random generator together with what its draws rest on: the seed that it
/// last started from, and the bounds of the draws made since. Only seeding
/// makes one, and only a draw changes one, so that the two always tell what
/// the generator has been through.
pub struct Twister {
    rand: RandState<'static>,
    seed: Ghost<nat>,
    bounds: Ghost<Seq<nat>>,
}

impl Twister {
    /// The seed that the generator started from.
    pub closed spec fn spec_seed(&self) -> nat {
        self.seed@
    }

    /// The bounds of the draws made since the generator was seeded, in the
    /// order of the draws.
    pub closed spec fn spec_bounds(&self) -> Seq<nat> {
        self.bounds@
    }
}

/// The number that `Integer::random_below` draws below `bound` from a
/// Mersenne twister that was seeded with `seed` and has since made the draws
/// with the bounds `earlier`.
pub uninterp spec fn twister_draw(seed: nat, earlier: Seq<nat>, bound: nat) -> nat;

/// Calls `RandState::seed`, after which the generator repeats the same draws
/// whenever it is given the same seed. Claims that the generator has started
/// from `seed` and has made no draw since.
#[verifier::external_body]
fn rug_seed(rand: RandState<'static>, seed: &BigInt) -> (r: Twister)
    ensures
        r.spec_seed() == seed@,
        r.spec_bounds() == Seq::<nat>::empty(),
{
    let mut rand = rand;
    rand.seed(&Integer::from_digits(&seed.digits, Order::Lsf));
    Twister { rand, seed: Ghost(seed@), bounds: Ghost(Seq::empty()) }
}

/// Calls `Integer::random_below`, which panics on a bound that is not
/// positive. Claims that the draw lies below the bound and is the number that
/// the seed of the generator and the bounds of its earlier draws determine,
/// and that the generator has then made one draw more.
#[verifier::external_body]
fn rug_random_below(rand: &mut Twister, bound: &BigInt) -> (r: BigInt)
    requires
        bound@ > 0,
    ensures
        r@ < bound@,
        r@ == twister_draw(old(rand).spec_seed(), old(rand).spec_bounds(), bound@),
        final(rand).spec_seed() == old(rand).spec_seed(),
        final(rand).spec_bounds() == old(rand).spec_bounds().push(bound@),
{
    let below = Integer::from_digits(&bound.digits, Order::Lsf).random_below(&mut rand.rand);
    BigInt { digits: below.to_digits(Order::Lsf) }
}

/// A seed between 1 and 1000, drawn from the thread's random generator.
pub fn get_local_seed() -> (r: BigInt)
    ensures
        1 <= r@ <= 1000,
{
    let seed_number: u32 = rand_in_range(1, 1000);
    BigInt::from_u128(seed_number as u128)
}

/// A Mersenne twister that starts from `seed`.
pub fn seeded_mersenne_twister(seed: &BigInt) -> (r: Twister)
    ensures
        r.spec_seed() == seed@,
        r.spec_bounds() == Seq::<nat>::empty(),
{
    rug_seed(rug_mersenne_twister(), seed)
}

/// A number drawn from `rand` that lies in `start..stop`: `start` plus the
/// number that the generator draws below `stop - start`.
pub fn gen_bigint_range(rand: &mut Twister, start: &BigInt, stop: &BigInt) -> (r: BigInt)
    requires
        start@ < stop@,
    ensures
        start@ <= r@ < stop@,
        r@ == start@ + twister_draw(
            old(rand).spec_seed(),
            old(rand).spec_bounds(),
            (stop@ - start@) as nat,
        ),
        final(rand).spec_seed() == old(rand).spec_seed(),
        final(rand).spec_bounds() == old(rand).spec_bounds().push((stop@ - start@) as nat),
{
    let range = stop.sub(start);
    let below = rug_random_below(rand, &range);
    start.add(&below)
}

/// The number in `value` as a hash of 32 bytes, least significant byte first.
pub fn bigint_h256(value: &BigInt) -> (r: H256)
    requires
        value@ < U256::modulus(),
    ensures
        le_value(r@) == value@,
{
    proof {
        vstd::arithmetic::div_mod::lemma_small_mod(value@, U256::modulus());
    }
    H256 { bytes: bigint_u256(value).bytes }
}

/// The number in `value`, reduced to 256 bits.
pub fn bigint_u256(value: &BigInt) -> (r: U256)
    ensures
        r@ == value@ % U256::modulus(),
{
    U256::from_little_endian(value.digits.as_slice())
}

/// The number in `unsigned` as a big integer.
pub fn u256_bigint(unsigned: &U256) -> (r: BigInt)
    ensures
        r@ == unsigned@,
{
    BigInt::from_lsb_digits(slice_to_vec(unsigned.bytes.as_slice()))
}

/// The number in `value` as a `u128`, or zero where it does not fit.
pub fn bigint_u128(value: &BigInt) -> (r: u128)
    ensures
        r == if value@ <= u128::MAX {
            value@
        } else {
            0
        },
{
    match value.to_u128() {
        Some(v) => v,
        None => 0u128,
    }
}

/// The number `unsigned` as a big integer.
pub fn u128_bigint(unsigned: &u128) -> (r: BigInt)
    ensures
        r@ == *unsigned,
{
    BigInt::from_u128(*unsigned)
}

/// The quotient of `x` by `d`, rounded towards zero.
pub open spec fn trunc_div(x: int, d: int) -> int {
    if x >= 0 {
        x / d
    } else {
        -((-x) / d)
    }
}

/// Whether `x` is the inverse of `a` modulo `m`: it lies below `m` and
/// multiplies `a` to one.
pub open spec fn is_inverse(a: nat, m: nat, x: nat) -> bool {
    x < m && (a * x) % m == 1nat % m
}

/// The inverse of `a` modulo `m`, where there is one.
pub open spec fn spec_inverse(a: nat, m: nat) -> nat {
    choose|x: nat| is_inverse(a, m, x)
}

/// The exponent `x` that a collision of the walk gives: the solution of
/// `(b1 - b2) * x == a2 - a1` modulo `n`.
///
/// With `r = (b1 - b2) mod n`: there is none for `n == 0` or `r == 0`. Where
/// `r` has an inverse modulo `n`, `x = (a2 - a1) / r mod n`. Otherwise both
/// sides are divided by `d = gcd(r, n)`, rounding towards zero, and solved
/// modulo `n / d`, which fails where the divided left side has no inverse.
pub open spec fn spec_eqs_solvers(a1: nat, b1: nat, a2: nat, b2: nat, n: nat) -> Option<nat> {
    let r = ((b1 - b2) % (n as int)) as nat;
    let d = spec_gcd(r, n);
    let m = n / d;
    let left = (trunc_div(b1 - b2, d as int) % (m as int)) as nat;
    let right = trunc_div(a2 - a1, d as int);
    if n == 0 || r == 0 {
        None
    } else if d == 1 {
        Some(((spec_inverse(r, n) * (a2 - a1)) % (n as int)) as nat)
    } else if m != 0 && spec_gcd(left, m) == 1 {
        Some(((spec_inverse(left, m) * right) % (m as int)) as nat)
    } else {
        None
    }
}

/// A number has at most one inverse below the modulus.
pub proof fn lemma_inverse_unique(a: nat, m: nat, x: nat, y: nat)
    requires
        is_inverse(a, m, x),
        is_inverse(a, m, y),
    ensures
        x == y,
{
    let mi = m as int;
    let xi = x as int;
    let yi = y as int;
    let ai = a as int;
    if m == 1 {
    } else {
        vstd::arithmetic::div_mod::lemma_small_mod(1, m);
        vstd::arithmetic::div_mod::lemma_small_mod(x, m);
        vstd::arithmetic::div_mod::lemma_small_mod(y, m);
        // x * (a * y) and (x * a) * y are one number
        assert(xi * (ai * yi) == (ai * xi) * yi) by (nonlinear_arith);
        vstd::arithmetic::div_mod::lemma_mul_mod_noop_right(xi, ai * yi, mi);
        vstd::arithmetic::div_mod::lemma_mul_mod_noop_left(ai * xi, yi, mi);
        assert(xi * 1 == xi);
        assert(1 * yi == yi);
        assert((xi * ((ai * yi) % mi)) % mi == xi);
        assert((((ai * xi) % mi) * yi) % mi == yi);
    }
}

/// Where the difference of the exponents of `h` has an inverse modulo `n`,
/// the exponent that the solver gives solves the equation of the collision:
/// `(b1 - b2) * x` is `a2 - a1` modulo `n`.
pub proof fn lemma_eqs_solvers_solves(a1: nat, b1: nat, a2: nat, b2: nat, n: nat)
    requires
        n > 0,
        (b1 - b2) % (n as int) != 0,
        spec_gcd(((b1 - b2) % (n as int)) as nat, n) == 1,
        exists|x: nat| #[trigger] is_inverse(((b1 - b2) % (n as int)) as nat, n, x),
    ensures
        spec_eqs_solvers(a1, b1, a2, b2, n).is_some(),
        ((b1 - b2) * spec_eqs_solvers(a1, b1, a2, b2, n)->0) % (n as int) == (a2 - a1) % (
        n as int),
{
    let ni = n as int;
    let r = (b1 - b2) % ni;
    let inv = spec_inverse(r as nat, n) as int;
    let dif = a2 - a1;
    let x = (inv * dif) % ni;
    assert(is_inverse(r as nat, n, inv as nat));
    vstd::arithmetic::div_mod::lemma_mul_mod_noop_left(b1 - b2, x, ni);
    vstd::arithmetic::div_mod::lemma_mul_mod_noop_right(r, inv * dif, ni);
    assert(r * (inv * dif) == (r * inv) * dif) by (nonlinear_arith);
    vstd::arithmetic::div_mod::lemma_mul_mod_noop_left(r * inv, dif, ni);
    if n == 1 {
    } else {
        vstd::arithmetic::div_mod::lemma_small_mod(1, n);
        assert(1 * dif == dif);
    }
}

/// The greatest common divisor of two numbers that are not both zero is
/// positive.
pub proof fn lemma_gcd_positive(a: nat, b: nat)
    requires
        a > 0 || b > 0,
    ensures
        spec_gcd(a, b) > 0,
    decreases b,
{
    if b != 0 {
        lemma_gcd_positive(b, a % b);
    }
}

/// `(x - y) mod n`, for a positive `n`.
fn sub_mod(x: &BigInt, y: &BigInt, n: &BigInt) -> (r: BigInt)
    requires
        n@ > 0,
    ensures
        r@ == ((x@ - y@) % (n@ as int)) as nat,
{
    let xm = x.rem(n);
    let ym = y.rem(n);
    let lifted = xm.add(n);
    proof {
        vstd::arithmetic::div_mod::lemma_mod_bound(x@ as int, n@ as int);
        vstd::arithmetic::div_mod::lemma_mod_bound(y@ as int, n@ as int);
    }
    let t = lifted.sub(&ym);
    proof {
        let ni = n@ as int;
        vstd::arithmetic::div_mod::lemma_sub_mod_noop(x@ as int, y@ as int, ni);
        vstd::arithmetic::div_mod::lemma_mod_add_multiples_vanish(xm@ - ym@, ni);
        assert(t@ == ni + (xm@ - ym@));
    }
    t.rem(n)
}

/// `trunc_div(x - y, d) mod m`, for positive `d` and `m`.
fn trunc_div_mod(x: &BigInt, y: &BigInt, d: &BigInt, m: &BigInt) -> (r: BigInt)
    requires
        d@ > 0,
        m@ > 0,
    ensures
        r@ == (trunc_div(x@ - y@, d@ as int) % (m@ as int)) as nat,
{
    match x.checked_sub(y) {
        Some(dif) => dif.div(d).rem(m),
        None => {
            let dif = y.sub(x);
            let q = dif.div(d);
            let t = q.rem(m);
            proof {
                vstd::arithmetic::div_mod::lemma_mod_bound(q@ as int, m@ as int);
            }
            let lifted = m.sub(&t);
            proof {
                let mi = m@ as int;
                vstd::arithmetic::div_mod::lemma_sub_mod_noop(0, q@ as int, mi);
                vstd::arithmetic::div_mod::lemma_small_mod(0, m@);
                vstd::arithmetic::div_mod::lemma_mod_add_multiples_vanish(-(t@ as int), mi);
                assert(lifted@ == mi + (-(t@ as int)));
                assert(trunc_div(x@ - y@, d@ as int) == -(q@ as int));
            }
            lifted.rem(m)
        },
    }
}

/// Derives the private exponent from a pair of collided solutions
/// `(a1, b1)` and `(a2, b2)` of a walk with exponents modulo `n`.
pub fn eqs_solvers(a1: &BigInt, b1: &BigInt, a2: &BigInt, b2: &BigInt, n: &BigInt) -> (r: Option<
    BigInt,
>)
    ensures
        r.is_some() == spec_eqs_solvers(a1@, b1@, a2@, b2@, n@).is_some(),
        r matches Some(x) ==> spec_eqs_solvers(a1@, b1@, a2@, b2@, n@) == Some(x@),
{
    if n.is_zero() {
        return None;
    }
    let r = sub_mod(b1, b2, n);
    if r.is_zero() {
        return None;
    }
    match r.invert(n) {
        Some(inv) => {
            let dif = sub_mod(a2, a1, n);
            let x = inv.mul(&dif).rem(n);
            proof {
                assert(is_inverse(r@, n@, inv@));
                lemma_inverse_unique(r@, n@, inv@, spec_inverse(r@, n@));
                vstd::arithmetic::div_mod::lemma_mul_mod_noop_right(
                    inv@ as int,
                    a2@ - a1@,
                    n@ as int,
                );
            }
            Some(x)
        },
        None => {
            let div = r.gcd(n);
            proof {
                lemma_gcd_positive(r@, n@);
            }
            let reduced = n.div(&div);
            if reduced.is_zero() {
                return None;
            }
            let res_l = trunc_div_mod(b1, b2, &div, &reduced);
            let res_r = trunc_div_mod(a2, a1, &div, &reduced);
            match res_l.invert(&reduced) {
                Some(res_inv) => {
                    let x = res_inv.mul(&res_r).rem(&reduced);
                    proof {
                        assert(is_inverse(res_l@, reduced@, res_inv@));
                        lemma_inverse_unique(
                            res_l@,
                            reduced@,
                            res_inv@,
                            spec_inverse(res_l@, reduced@),
                        );
                        vstd::arithmetic::div_mod::lemma_mul_mod_noop_right(
                            res_inv@ as int,
                            trunc_div(a2@ - a1@, div@ as int),
                            reduced@ as int,
                        );
                    }
                    Some(x)
                },
                None => None,
            }
        },
    }
}

} // verus!
