//! What every walk keeps: each state's exponents stand for its point.
use crate::algorithm::{spec_collision, spec_walk};
use crate::bigint::BigInt;
use crate::generic::{spec_transit, Hasher, StateView};
use crate::uint::U256;
use vstd::arithmetic::div_mod::{
    lemma_fundamental_div_mod, lemma_mul_mod_noop, lemma_mul_mod_noop_left, lemma_small_mod,
};
use vstd::arithmetic::power::{
    lemma1_pow, lemma_pow_adds, lemma_pow_distributes, lemma_pow_mod_noop, lemma_pow_multiplies,
    pow,
};
use vstd::prelude::*;

verus! {

/// Products of numbers that agree modulo `m` agree modulo `m`.
pub proof fn lemma_mul_congruent(a: int, b: int, c: int, d: int, m: int)
    requires
        m > 0,
        a % m == c % m,
        b % m == d % m,
    ensures
        (a * b) % m == (c * d) % m,
{
    lemma_mul_mod_noop(a, b, m);
    lemma_mul_mod_noop(c, d, m);
}

/// Where `c^m` is 1 modulo `p`, an exponent of `c` may be reduced modulo `m`.
pub proof fn lemma_exponent_wraps(c: int, e: nat, m: nat, p: int)
    requires
        p >= 2,
        m >= 1,
        pow(c, m) % p == 1,
    ensures
        pow(c, e) % p == pow(c, e % m) % p,
{
    let q = e / m;
    let r = e % m;
    lemma_fundamental_div_mod(e as int, m as int);
    assert(e == m * q + r);
    assert(m * q >= 0) by (nonlinear_arith)
        requires
            m >= 0,
            q >= 0,
    ;
    lemma_pow_adds(c, (m * q) as nat, r);
    lemma_pow_multiplies(c, m, q);
    lemma_pow_mod_noop(pow(c, m), q, p);
    lemma1_pow(q);
    lemma_small_mod(1, p as nat);
    assert(pow(c, (m * q) as nat) % p == 1);
    lemma_mul_mod_noop_left(pow(c, (m * q) as nat), pow(c, r), p);
    assert(1 * pow(c, r) == pow(c, r));
}

/// One step keeps the invariant of the walk: if the exponents of a state
/// stand for its point, so do those of the next state, whatever the digest.
pub proof fn lemma_transit_keeps_point(state: StateView<nat>, digest: nat)
    requires
        state.pubkey.exponents_wrap(),
        state.on_point(),
    ensures
        spec_transit(state, digest).on_point(),
{
    let key = state.pubkey;
    let p = key.p as int;
    let g = key.g as int;
    let h = key.h as int;
    let m = (key.p - 1) as nat;
    let x = digest % key.p;
    let a = state.solution.a;
    let b = state.solution.b;
    let w = state.work as int;
    let ga = pow(g, a);
    let hb = pow(h, b);
    let next = spec_transit(state, digest);
    let a2 = next.solution.a;
    let b2 = next.solution.b;
    assert(w == (ga * hb) % p);
    if x % 3 == 0 {
        assert(a * x >= 0 && b * x >= 0) by (nonlinear_arith)
            requires
                a >= 0,
                b >= 0,
                x >= 0,
        ;
        lemma_pow_mod_noop(ga * hb, x, p);
        lemma_pow_distributes(ga, hb, x);
        lemma_pow_multiplies(g, a, x);
        lemma_pow_multiplies(h, b, x);
        lemma_exponent_wraps(g, a * x, m, p);
        lemma_exponent_wraps(h, b * x, m, p);
        lemma_mul_congruent(
            pow(g, a2),
            pow(h, b2),
            pow(g, (a * x) as nat),
            pow(h, (b * x) as nat),
            p,
        );
        assert(next.work == pow(w, x) % p);
    } else if x % 3 == 1 {
        let gx = pow(g, x);
        lemma_mul_mod_noop(gx, ga * hb, p);
        assert(gx * (ga * hb) == (gx * ga) * hb) by (nonlinear_arith);
        lemma_pow_adds(g, x, a);
        lemma_exponent_wraps(g, a + x, m, p);
        lemma_mul_congruent(pow(g, a2), hb, pow(g, a + x), hb, p);
        assert(next.work == ((gx % p) * w) % p);
    } else {
        let hx = pow(h, x);
        lemma_mul_mod_noop(hx, ga * hb, p);
        assert(hx * (ga * hb) == ga * (hx * hb)) by (nonlinear_arith);
        lemma_pow_adds(h, x, b);
        lemma_exponent_wraps(h, b + x, m, p);
        lemma_mul_congruent(ga, pow(h, b2), ga, pow(h, b + x), p);
        assert(next.work == ((hx % p) * w) % p);
    }
}

/// In the group of a prime, the state that follows a state on its point
/// stands on its point, whatever the digest.
pub proof fn lemma_transit_keeps_point_of_prime(state: StateView<nat>, digest: nat)
    requires
        state.pubkey.in_prime_group(),
        state.on_point(),
    ensures
        spec_transit(state, digest).on_point(),
{
    crate::primes::lemma_prime_key_wraps(state.pubkey);
    lemma_transit_keeps_point(state, digest);
}

/// Every state of a walk that starts on its point stays on its point.
pub proof fn lemma_walk_keeps_point<C: Hasher>(
    start: StateView<nat>,
    hasher: C,
    steps: nat,
)
    requires
        start.pubkey.exponents_wrap(),
        start.on_point(),
    ensures
        spec_walk(start, hasher, steps).on_point(),
        spec_walk(start, hasher, steps).pubkey == start.pubkey,
    decreases steps,
{
    reveal(spec_walk);
    if steps > 0 {
        let prev = spec_walk(start, hasher, (steps - 1) as nat);
        lemma_walk_keeps_point(start, hasher, (steps - 1) as nat);
        lemma_transit_keeps_point(prev, hasher.spec_hash(prev.work % U256::modulus()));
    }
}

/// Every state of a walk that starts below the modulus stays below it: its
/// exponents, and from the first step on its point.
pub proof fn lemma_walk_stays_small<C: Hasher>(
    start: StateView<nat>,
    hasher: C,
    steps: nat,
)
    requires
        start.pubkey.p >= 2,
        start.solution.a < start.pubkey.p,
        start.solution.b < start.pubkey.p,
        start.work < start.pubkey.p,
    ensures
        spec_walk(start, hasher, steps).solution.a < start.pubkey.p,
        spec_walk(start, hasher, steps).solution.b < start.pubkey.p,
        spec_walk(start, hasher, steps).work < start.pubkey.p,
    decreases steps,
{
    reveal(spec_walk);
    if steps > 0 {
        lemma_walk_stays_small(start, hasher, (steps - 1) as nat);
        crate::algorithm::lemma_walk_keeps_key(start, hasher, (steps - 1) as nat);
        let prev = spec_walk(start, hasher, (steps - 1) as nat);
        let p = start.pubkey.p as int;
        let x = hasher.spec_hash(prev.work % U256::modulus()) % start.pubkey.p;
        vstd::arithmetic::div_mod::lemma_mod_bound(
            vstd::arithmetic::power::pow(prev.work as int, x),
            p,
        );
    }
}

/// The two states that a search ends with stand on one point with different
/// solutions, and, for a walk that starts on its point, the exponents of
/// both stand for that point: `g^a1 * h^b1 == g^a2 * h^b2` modulo `p`.
pub proof fn lemma_collision_is_sound<C: Hasher>(
    start: StateView<nat>,
    hasher: C,
    hash_diff: nat,
    limit: nat,
)
    requires
        spec_collision(start, hasher, hash_diff, limit).is_some(),
    ensures
        ({
            let states = spec_collision(start, hasher, hash_diff, limit)->0;
            &&& states.0.work == states.1.work
            &&& states.0.solution != states.1.solution
            &&& states.0.pubkey == start.pubkey
            &&& states.1.pubkey == start.pubkey
            &&& states.0.solution.n == start.solution.n
            &&& states.1.solution.n == start.solution.n
            &&& start.pubkey.exponents_wrap() && start.on_point() ==> {
                &&& states.0.on_point()
                &&& states.1.on_point()
                &&& start.pubkey.combine(states.0.solution.a, states.0.solution.b)
                    == start.pubkey.combine(states.1.solution.a, states.1.solution.b)
            }
        }),
{
    let i = crate::algorithm::spec_first_meeting(start, hasher, 1, limit)->0;
    let j = crate::algorithm::spec_first_distinguished(start, hasher, hash_diff, i, 1, limit)->0;
    crate::algorithm::lemma_walk_keeps_key(start, hasher, i + j);
    crate::algorithm::lemma_walk_keeps_key(start, hasher, 2 * i + j);
    if start.pubkey.exponents_wrap() && start.on_point() {
        lemma_walk_keeps_point(start, hasher, i + j);
        lemma_walk_keeps_point(start, hasher, 2 * i + j);
    }
}

} // verus!
