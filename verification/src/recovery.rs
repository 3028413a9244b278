//! Why a collision gives the private exponent away.
//!
//! In a group where `g` has the prime order `n` and `h` is `g^x`, two pairs
//! of exponents that stand for one point, `g^a1 * h^b1 == g^a2 * h^b2`, make
//! `a1 + x * b1` and `a2 + x * b2` agree modulo `n`. Where `b1` and `b2`
//! differ modulo `n` this equation has one solution below `n`, which is `x`,
//! and the solver finds it.
use crate::bigint::spec_gcd;
use crate::elgamal::KeyView;
use crate::generic::Solution;
use crate::primes::{is_prime, lemma_fermat};
use crate::utils::{is_inverse, spec_eqs_solvers, spec_inverse};
use crate::validation::spec_key_gen;
use vstd::arithmetic::div_mod::{
    lemma_fundamental_div_mod, lemma_mod_bound, lemma_mod_multiples_basic,
    lemma_mul_mod_noop_left, lemma_mul_mod_noop_right, lemma_small_mod,
};
use vstd::arithmetic::power::{
    lemma1_pow, lemma_pow_adds, lemma_pow_mod_noop, lemma_pow_multiplies, pow,
};
use vstd::prelude::*;

verus! {

/// Whether `g` has the order `n` modulo `p`: `g^n` is 1, and no smaller
/// positive power of `g` is.
pub open spec fn spec_has_order(g: nat, n: nat, p: nat) -> bool {
    &&& p >= 2
    &&& n >= 1
    &&& pow(g as int, n) % (p as int) == 1
    &&& forall|k: nat| 0 < k < n ==> #[trigger] pow(g as int, k) % (p as int) != 1
}

/// Where `g^n` is 1 modulo `p`, so is every power of `g` by a multiple of `n`.
pub proof fn lemma_power_of_multiple(g: int, n: nat, p: int, q: nat)
    requires
        p >= 2,
        pow(g, n) % p == 1,
    ensures
        n * q >= 0,
        pow(g, (n * q) as nat) % p == 1,
{
    assert(n * q >= 0) by (nonlinear_arith)
        requires
            n >= 0,
            q >= 0,
    ;
    lemma_pow_multiplies(g, n, q);
    lemma_pow_mod_noop(pow(g, n), q, p);
    lemma1_pow(q);
    lemma_small_mod(1, p as nat);
}

/// Where `g` has the order `n`, every exponent that takes `g` to 1 is a
/// multiple of `n`.
pub proof fn lemma_order_divides(g: nat, n: nat, p: nat, k: nat)
    requires
        spec_has_order(g, n, p),
        pow(g as int, k) % (p as int) == 1,
    ensures
        k % n == 0,
{
    let gi = g as int;
    let pi = p as int;
    let q = k / n;
    let r = k % n;
    lemma_fundamental_div_mod(k as int, n as int);
    lemma_power_of_multiple(gi, n, pi, q);
    lemma_pow_adds(gi, (n * q) as nat, r);
    lemma_mul_mod_noop_left(pow(gi, (n * q) as nat), pow(gi, r), pi);
    assert(1 * pow(gi, r) == pow(gi, r));
    assert(pow(gi, r) % pi == 1);
}

/// Where `g^n` is 1 modulo `p`, two powers of `g` that agree differ by a
/// power that is 1.
pub proof fn lemma_powers_cancel(g: int, n: nat, p: int, e1: nat, e2: nat)
    requires
        p >= 2,
        n >= 1,
        pow(g, n) % p == 1,
        e1 >= e2,
        pow(g, e1) % p == pow(g, e2) % p,
    ensures
        pow(g, (e1 - e2) as nat) % p == 1,
{
    let c = e2 / n + 1;
    lemma_fundamental_div_mod(e2 as int, n as int);
    lemma_mod_bound(e2 as int, n as int);
    assert(n * c == n * (e2 / n) + n) by (nonlinear_arith)
        requires
            c == e2 / n + 1,
    ;
    let m = (n * c - e2) as nat;
    let d = (e1 - e2) as nat;
    lemma_power_of_multiple(g, n, p, c);
    assert(e2 + m == n * c);
    // g^(e1 + m) is g^d * g^(e2 + m) and also g^e1 * g^m
    lemma_pow_adds(g, d, (e2 + m) as nat);
    lemma_pow_adds(g, e1, m);
    lemma_pow_adds(g, e2, m);
    assert(d + (e2 + m) == e1 + m);
    lemma_mul_mod_noop_right(pow(g, d), pow(g, (e2 + m) as nat), p);
    assert(pow(g, d) * 1 == pow(g, d));
    lemma_mul_mod_noop_left(pow(g, e1), pow(g, m), p);
    lemma_mul_mod_noop_left(pow(g, e2), pow(g, m), p);
}

/// The point of a pair of exponents, for `h == g^x`, is `g^(a + x * b)`.
pub proof fn lemma_point_is_power(key: KeyView, x: nat, a: nat, b: nat)
    requires
        key.p >= 2,
        key.opens_with(x),
    ensures
        x * b >= 0,
        key.combine(a, b) == pow(key.g as int, (a + x * b) as nat) % (key.p as int),
{
    let g = key.g as int;
    let h = key.h as int;
    let p = key.p as int;
    assert(x * b >= 0) by (nonlinear_arith)
        requires
            x >= 0,
            b >= 0,
    ;
    // h^b is (g^x)^b, which is g^(x b), modulo p
    lemma_pow_mod_noop(pow(g, x), b, p);
    lemma_pow_multiplies(g, x, b);
    lemma_pow_adds(g, a, (x * b) as nat);
    lemma_mul_mod_noop_right(pow(g, a), pow(h, b), p);
    lemma_mul_mod_noop_right(pow(g, a), pow(g, (x * b) as nat), p);
}

/// Modulo a prime, every number that the prime does not divide has an
/// inverse.
pub proof fn lemma_inverse_exists(r: nat, n: nat)
    requires
        is_prime(n),
        r % n != 0,
    ensures
        exists|x: nat| is_inverse(r, n, x),
{
    let ri = r as int;
    let ni = n as int;
    // r * r^(n-2) is r^(n-1), which is 1
    lemma_fermat(r, n);
    let rest = pow(ri, (n - 2) as nat);
    assert(pow(ri, (n - 1) as nat) == ri * rest) by {
        reveal(pow);
    }
    let x = (rest % ni) as nat;
    lemma_mod_bound(rest, ni);
    lemma_mul_mod_noop_right(ri, rest, ni);
    lemma_small_mod(1, n);
    assert(is_inverse(r, n, x));
}

/// Where the difference of the exponents of `h` has an inverse modulo `n`,
/// the solver finds every exponent below `n` that solves the equation of the
/// collision.
pub proof fn lemma_eqs_solvers_finds(a1: nat, b1: nat, a2: nat, b2: nat, n: nat, x: nat)
    requires
        n > 0,
        x < n,
        (b1 - b2) % (n as int) != 0,
        spec_gcd(((b1 - b2) % (n as int)) as nat, n) == 1,
        exists|y: nat| #[trigger] is_inverse(((b1 - b2) % (n as int)) as nat, n, y),
        ((b1 - b2) * x) % (n as int) == (a2 - a1) % (n as int),
    ensures
        spec_eqs_solvers(a1, b1, a2, b2, n) == Some(x),
{
    let ni = n as int;
    let r = (b1 - b2) % ni;
    let inv = spec_inverse(r as nat, n) as int;
    let dif = a2 - a1;
    assert(is_inverse(r as nat, n, inv as nat));
    // inv * dif is inv * (r * x), which is (inv * r) * x, which is x
    lemma_mul_mod_noop_left(b1 - b2, x as int, ni);
    lemma_mul_mod_noop_right(inv, dif, ni);
    lemma_mul_mod_noop_right(inv, r * x, ni);
    assert(inv * (r * x) == (r * inv) * x) by (nonlinear_arith);
    lemma_mul_mod_noop_left(r * inv, x as int, ni);
    lemma_small_mod(x, n);
    if n > 1 {
        lemma_small_mod(1, n);
        assert(1 * (x as int) == x);
    }
}

/// The greatest common divisor divides both numbers.
pub proof fn lemma_gcd_divides(a: nat, b: nat)
    requires
        a > 0 || b > 0,
    ensures
        spec_gcd(a, b) > 0,
        a % spec_gcd(a, b) == 0,
        b % spec_gcd(a, b) == 0,
    decreases b,
{
    if b == 0 {
        vstd::arithmetic::div_mod::lemma_mod_self_0(a as int);
        lemma_small_mod(0, a);
    } else {
        lemma_gcd_divides(b, a % b);
        let d = spec_gcd(b, a % b) as int;
        let q = (a / b) as int;
        // a is q * b + a % b, and d divides both parts
        lemma_fundamental_div_mod(a as int, b as int);
        lemma_fundamental_div_mod(b as int, d);
        lemma_fundamental_div_mod((a % b) as int, d);
        let kb = (b as int) / d;
        let kr = ((a % b) as int) / d;
        assert(a == (q * kb + kr) * d) by (nonlinear_arith)
            requires
                a == b * q + (a % b),
                b == d * kb,
                (a % b) == d * kr,
        ;
        lemma_mod_multiples_basic(q * kb + kr, d);
    }
}

/// A prime shares no divisor with a number that it does not divide.
pub proof fn lemma_gcd_with_prime(r: nat, n: nat)
    requires
        is_prime(n),
        r % n != 0,
    ensures
        spec_gcd(r, n) == 1,
{
    lemma_gcd_divides(r, n);
    let d = spec_gcd(r, n);
    if d != 1 {
        if d < n {
            assert(n % d != 0);
        } else {
            // d divides n and is not smaller, so it is n, which does not divide r
            if d > n {
                lemma_small_mod(n, d);
            }
        }
    }
}

/// Where some positive power of `g` is 1 modulo `p`, `g` has an order.
pub proof fn lemma_order_exists(g: nat, p: nat, m: nat)
    requires
        p >= 2,
        m >= 1,
        pow(g as int, m) % (p as int) == 1,
    ensures
        exists|d: nat| 1 <= d <= m && #[trigger] spec_has_order(g, d, p),
    decreases m,
{
    if forall|k: nat| 0 < k < m ==> #[trigger] pow(g as int, k) % (p as int) != 1 {
        assert(spec_has_order(g, m, p));
    } else {
        let k = choose|k: nat| 0 < k < m && #[trigger] pow(g as int, k) % (p as int) == 1;
        lemma_order_exists(g, p, k);
        let d = choose|d: nat| 1 <= d <= k && #[trigger] spec_has_order(g, d, p);
        assert(1 <= d <= m && spec_has_order(g, d, p));
    }
}

/// Twice a prime is divisible by 1 and 2, by the prime and by itself, and by
/// nothing else.
pub proof fn lemma_divisors_of_twice_prime(d: nat, n: nat)
    requires
        is_prime(n),
        d >= 1,
        (2 * n) % d == 0,
    ensures
        d == 1 || d == 2 || d == n || d == 2 * n,
{
    let di = d as int;
    let ni = n as int;
    let e = (2 * ni) / di;
    lemma_fundamental_div_mod(2 * ni, di);
    assert(di * e == 2 * ni);
    assert(e >= 1) by (nonlinear_arith)
        requires
            di * e == 2 * ni,
            di >= 1,
            ni >= 2,
    ;
    lemma_mod_multiples_basic(2, ni);
    if di % ni == 0 {
        let c = di / ni;
        lemma_fundamental_div_mod(di, ni);
        assert(c * e == 2 && c >= 1) by (nonlinear_arith)
            requires
                di == ni * c,
                di * e == 2 * ni,
                ni >= 2,
                di >= 1,
                e >= 1,
        ;
        assert(c == 1 || c == 2) by (nonlinear_arith)
            requires
                c * e == 2,
                c >= 1,
                e >= 1,
        ;
        assert(di == ni || di == 2 * ni) by (nonlinear_arith)
            requires
                di == ni * c,
                c == 1 || c == 2,
        ;
    } else {
        crate::primes::lemma_prime_divides_factor(n, di, e);
        let c = e / ni;
        lemma_fundamental_div_mod(e, ni);
        assert(di * c == 2 && c >= 1) by (nonlinear_arith)
            requires
                e == ni * c,
                di * e == 2 * ni,
                ni >= 2,
                di >= 1,
                e >= 1,
        ;
        assert(di == 1 || di == 2) by (nonlinear_arith)
            requires
                di * c == 2,
                c >= 1,
                di >= 1,
        ;
    }
}

/// In the group of a prime `p == 2 n + 1` with `n` a prime, every `g` whose
/// square is not 1 has an order that `n` divides: `n` itself or `2 n`.
pub proof fn lemma_order_in_safe_group(key: KeyView, n: nat)
    requires
        key.in_prime_group(),
        is_prime(n),
        key.p == 2 * n + 1,
        pow(key.g as int, 2) % (key.p as int) != 1,
    ensures
        exists|order: nat| #[trigger] spec_has_order(key.g, order, key.p) && order % n == 0,
{
    let g = key.g;
    let p = key.p;
    lemma_fermat(g, p);
    lemma_order_exists(g, p, 2 * n);
    let d = choose|d: nat| 1 <= d <= 2 * n && #[trigger] spec_has_order(g, d, p);
    lemma_order_divides(g, d, p, 2 * n);
    lemma_divisors_of_twice_prime(d, n);
    if d == 1 {
        lemma_power_of_multiple(g as int, 1, p as int, 2);
    }
    assert(d == n || d == 2 * n);
    vstd::arithmetic::div_mod::lemma_mod_self_0(n as int);
    lemma_mod_multiples_basic(2, n as int);
    assert(spec_has_order(g, d, p) && d % n == 0);
}

/// A collision gives the private exponent away: where the prime `n` divides
/// the order of `g` and `x` below `n` opens the key, two solutions for the
/// modulus `n` that stand for one point and whose exponents of `h` differ
/// modulo `n` make the key generator return `x`.
pub proof fn lemma_collision_reveals_exponent(
    key: KeyView,
    first: Solution<nat>,
    second: Solution<nat>,
    x: nat,
    order: nat,
)
    requires
        spec_has_order(key.g, order, key.p),
        order % second.n == 0,
        is_prime(second.n),
        x < second.n,
        key.opens_with(x),
        key.combine(first.a, first.b) == key.combine(second.a, second.b),
        (first.b - second.b) % (second.n as int) != 0,
    ensures
        spec_eqs_solvers(first.a, first.b, second.a, second.b, second.n) == Some(x),
        spec_key_gen(key, first, second) == Some(x),
{
    let n = second.n;
    let ni = n as int;
    let g = key.g as int;
    let p = key.p as int;
    lemma_point_is_power(key, x, first.a, first.b);
    lemma_point_is_power(key, x, second.a, second.b);
    let e1 = (first.a + x * first.b) as nat;
    let e2 = (second.a + x * second.b) as nat;
    // the order, and so n, divides e1 - e2, which is (a1 - a2) + x * (b1 - b2)
    let apart = if e1 >= e2 {
        (e1 - e2) as nat
    } else {
        (e2 - e1) as nat
    };
    if e1 >= e2 {
        lemma_powers_cancel(g, order, p, e1, e2);
    } else {
        lemma_powers_cancel(g, order, p, e2, e1);
    }
    lemma_order_divides(key.g, order, key.p, apart);
    lemma_multiple_of_multiple(apart, order, n);
    if e1 >= e2 {
    } else {
        vstd::arithmetic::div_mod::lemma_mod_equivalence(e2 as int, e1 as int, ni);
    }
    vstd::arithmetic::div_mod::lemma_mod_equivalence(e1 as int, e2 as int, ni);
    assert(e1 % n == e2 % n);
    let left = (first.b - second.b) * x;
    let right = second.a - first.a;
    assert(left - right == e1 - e2) by (nonlinear_arith)
        requires
            e1 == first.a + x * first.b,
            e2 == second.a + x * second.b,
            left == (first.b - second.b) * x,
            right == second.a - first.a,
    ;
    vstd::arithmetic::div_mod::lemma_mod_equivalence(left, right, ni);
    let r = ((first.b - second.b) % ni) as nat;
    lemma_mod_bound(first.b - second.b, ni);
    lemma_small_mod(r, n);
    lemma_gcd_with_prime(r, n);
    lemma_inverse_exists(r, n);
    lemma_eqs_solvers_finds(first.a, first.b, second.a, second.b, n, x);
}

/// A multiple of a multiple of `n` is a multiple of `n`.
pub proof fn lemma_multiple_of_multiple(a: nat, m: nat, n: nat)
    requires
        m > 0,
        n > 0,
        a % m == 0,
        m % n == 0,
    ensures
        a % n == 0,
{
    let ai = a as int;
    let mi = m as int;
    let ni = n as int;
    lemma_fundamental_div_mod(ai, mi);
    lemma_fundamental_div_mod(mi, ni);
    let q = ai / mi;
    let k = mi / ni;
    assert(ai == (q * k) * ni) by (nonlinear_arith)
        requires
            ai == mi * q,
            mi == ni * k,
    ;
    lemma_mod_multiples_basic(q * k, ni);
}

impl KeyView {
    /// Whether the key is a puzzle as the chain sets it, with the private
    /// exponent `x`: the modulus `p` is a safe prime, that is, `p` and
    /// `n = (p - 1) / 2` are primes; `p` does not divide `g`, and the square
    /// of `g` is not 1; and `h` is `g^x` for an `x` below `n`.
    pub open spec fn is_puzzle_for(self, x: nat) -> bool {
        let n = ((self.p - 1) / 2) as nat;
        &&& self.in_prime_group()
        &&& is_prime(n)
        &&& self.p == 2 * n + 1
        &&& pow(self.g as int, 2) % (self.p as int) != 1
        &&& x < n
        &&& self.opens_with(x)
    }
}

/// Solving a puzzle reveals its private exponent: from the pair that a search
/// on a puzzle returns, the key generator recovers the exponent of the
/// puzzle, provided that the exponents of `h` in the pair differ modulo `n`.
pub proof fn lemma_search_reveals_exponent(
    key: KeyView,
    pair: (Solution<nat>, Solution<nat>),
    x: nat,
)
    requires
        key.is_puzzle_for(x),
        crate::algorithm::spec_sound_pair(key, pair),
        (pair.0.b - pair.1.b) % ((key.p - 1) / 2) != 0,
    ensures
        spec_key_gen(key, pair.0, pair.1) == Some(x),
{
    let n = ((key.p - 1) / 2) as nat;
    crate::primes::lemma_prime_key_wraps(key);
    lemma_order_in_safe_group(key, n);
    let order = choose|order: nat| #[trigger]
        spec_has_order(key.g, order, key.p) && order % n == 0;
    lemma_collision_reveals_exponent(key, pair.0, pair.1, x, order);
}

} // verus!
