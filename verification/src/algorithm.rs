//! The Pollard-rho walk: its mapping functions, its single step, and the
//! searches that follow it until two different solutions meet.
use crate::bigint::BigInt;
use crate::digits::{
    lemma_le_value_single, lemma_two_pow_is_pow256, lemma_two_pow_monotonic,
    lemma_two_pow_positive, pow256, two_pow,
};
use crate::elgamal::{KeyView, PublicKey};
use crate::flag::{
    lemma_looks_grow, spec_after_looks, spec_allows, spec_counter, spec_halts, spec_looks,
    spec_passes, Script, StopSignal,
};
use crate::generic::{
    spec_func_f, spec_transit, spec_truncated, CycleFinding, Hasher, MapResult, Mapping,
    MappingError, Solution, Solutions, State, StateHash, StateView,
};
use crate::uint::U256;
use crate::utils::{
    bigint_u256, gen_bigint_range, seeded_mersenne_twister, twister_draw, u256_bigint,
};
use std::sync::atomic::AtomicBool;
use std::sync::Arc;
use vstd::arithmetic::power::pow;
use vstd::prelude::*;

verus! {

/// The distance between distinguished points is the square root of the
/// modulus divided by two to this power.
pub const POINT_DST_FACTOR: u32 = 8;

/// A search gives up after this many times the square root of the modulus.
pub const SEARCH_LEN_FACTOR: u32 = 8;

/// The solution for the exponent modulus `n` that is drawn from `seed`: `a`
/// is the first and `b` the second number that a Mersenne twister draws below
/// `n` after it was seeded with `seed`.
pub open spec fn spec_random_solution(n: nat, seed: nat) -> Solution<nat> {
    Solution {
        a: twister_draw(seed, Seq::<nat>::empty(), n),
        b: twister_draw(seed, seq![n], n),
        n,
    }
}

/// The state from which the walk over the group of `key` starts for `seed`:
/// the solution drawn from `seed` for the exponent modulus `(p - 1) / 2`, the
/// point that it stands for, and the nonce 1.
pub open spec fn spec_start_state(key: KeyView, seed: nat) -> StateView<nat> {
    let solution = spec_random_solution(((key.p - 1) / 2) as nat, seed);
    StateView { solution, nonce: 1, work: key.combine(solution.a, solution.b), pubkey: key }
}

impl Solution<BigInt> {
    /// A solution for the exponent modulus `n` with `a` and `b` drawn below
    /// `n` from a Mersenne twister that starts from `seed`.
    pub fn new_random(n: BigInt, seed: &BigInt) -> (r: Self)
        requires
            n@ > 0,
        ensures
            r@ == spec_random_solution(n@, seed@),
            r@.n == n@,
            r@.a < n@,
            r@.b < n@,
    {
        proof {
            assert(Seq::<nat>::empty().push(n@) =~= seq![n@]);
        }
        let mut rand = seeded_mersenne_twister(seed);
        let zero = BigInt::zero();
        let a = gen_bigint_range(&mut rand, &zero, &n);
        let b = gen_bigint_range(&mut rand, &zero, &n);
        Solution { a, b, n }
    }

    /// The solution with each number reduced to 256 bits.
    pub fn to_u256(&self) -> (r: Solution<U256>)
        ensures
            r@ == spec_truncated(self@),
    {
        Solution { a: bigint_u256(&self.a), b: bigint_u256(&self.b), n: bigint_u256(&self.n) }
    }

    /// The solution that a seal's solution stands for.
    pub fn from_u256(solution: &Solution<U256>) -> (r: Self)
        ensures
            r@ == solution@,
    {
        Solution {
            a: u256_bigint(&solution.a),
            b: u256_bigint(&solution.b),
            n: u256_bigint(&solution.n),
        }
    }

    /// Whether two solutions hold the same three numbers.
    pub fn equals(&self, other: &Solution<BigInt>) -> (r: bool)
        ensures
            r == (self@ == other@),
    {
        self.a.equals(&other.a) && self.b.equals(&other.b) && self.n.equals(&other.n)
    }
}

/// Whether `start` can be the first state of a walk over the group of `key`:
/// its exponents lie below the exponent modulus `(p - 1) / 2`, it stands on
/// the point of its exponents, and the point before it is one.
pub open spec fn spec_first_state(key: KeyView, start: StateView<nat>) -> bool {
    &&& start.pubkey == key
    &&& start.solution.n == (key.p - 1) / 2
    &&& start.solution.a < start.solution.n
    &&& start.solution.b < start.solution.n
    &&& start.nonce == 1
    &&& start.on_point()
}

impl State<BigInt> {
    /// The state from which a walk over the group of `key` starts: exponents
    /// drawn from `seed`, and the point that they stand for.
    pub fn from_pub_key(key: PublicKey, seed: BigInt) -> (r: Self)
        requires
            key@.p >= 3,
        ensures
            r@ == spec_start_state(key@, seed@),
            spec_first_state(key@, r@),
    {
        let one = BigInt::from_u128(1);
        let two = BigInt::from_u128(2);
        let p_1 = key.p.sub(&one);
        let n = p_1.div(&two);
        let solution = Solution::new_random(n, &seed);
        let g_a_p = key.g.pow_rem(&solution.a, &key.p);
        let h_b_p = key.h.pow_rem(&solution.b, &key.p);
        let y = g_a_p.mul(&h_b_p).rem(&key.p);
        proof {
            vstd::arithmetic::div_mod::lemma_mul_mod_noop(
                pow(key@.g as int, solution@.a),
                pow(key@.h as int, solution@.b),
                key@.p as int,
            );
        }
        State { solution, nonce: one, work: y, pubkey: key }
    }
}

impl Mapping<BigInt> for State<BigInt> {
    open spec fn spec_key(&self) -> KeyView {
        self.pubkey@
    }

    fn func_f(&self, x_i: &BigInt, y_i: &BigInt) -> (r: MapResult<BigInt>) {
        let p = &self.pubkey.p;
        match x_i.mod_u(3) {
            0 => Ok(y_i.pow_rem(x_i, p)),
            1 => {
                let base_hash_p = self.pubkey.g.pow_rem(x_i, p);
                Ok(base_hash_p.mul(y_i).rem(p))
            },
            2 => {
                let h_hash_p = self.pubkey.h.pow_rem(x_i, p);
                Ok(h_hash_p.mul(y_i).rem(p))
            },
            _ => Err(MappingError),
        }
    }

    fn func_g(&self, a_i: &BigInt, x_i: &BigInt) -> (r: MapResult<BigInt>) {
        let one = BigInt::from_u128(1);
        let p_1 = self.pubkey.p.sub(&one);
        match x_i.mod_u(3) {
            0 => Ok(a_i.mul(x_i).rem(&p_1)),
            1 => Ok(a_i.add(x_i).rem(&p_1)),
            2 => Ok(a_i.clone()),
            _ => Err(MappingError),
        }
    }

    fn func_h(&self, b_i: &BigInt, x_i: &BigInt) -> (r: MapResult<BigInt>) {
        let one = BigInt::from_u128(1);
        let p_1 = self.pubkey.p.sub(&one);
        match x_i.mod_u(3) {
            0 => Ok(b_i.mul(x_i).rem(&p_1)),
            1 => Ok(b_i.clone()),
            2 => Ok(b_i.add(x_i).rem(&p_1)),
            _ => Err(MappingError),
        }
    }
}

impl CycleFinding<BigInt, U256> for State<BigInt> {
    /// Beyond what every walk promises: a state whose exponents stand for its
    /// point, in a group where exponents wrap, is followed by such a state.
    fn transit<C: Hasher>(self, hashable: &mut C) -> (r: MapResult<
        State<BigInt>,
    >)
        ensures
            self@.pubkey.exponents_wrap() && self@.on_point() ==> (r matches Ok(next)
                && next@.on_point()),
    {
        proof {
            if self@.pubkey.exponents_wrap() && self@.on_point() {
                crate::invariants::lemma_transit_keeps_point(
                    self@,
                    hashable.spec_hash(self@.work % U256::modulus()),
                );
            }
        }
        hashable.set_nonce(&self.work);
        let raw_int = hashable.hash_integer();
        let hash_i = raw_int.rem(&self.pubkey.p);
        let work = match self.func_f(&hash_i, &self.work) {
            Ok(work) => work,
            Err(e) => {
                return Err(e);
            },
        };
        let a = match self.func_g(&self.solution.a, &hash_i) {
            Ok(a) => a,
            Err(e) => {
                return Err(e);
            },
        };
        let b = match self.func_h(&self.solution.b, &hash_i) {
            Ok(b) => b,
            Err(e) => {
                return Err(e);
            },
        };
        Ok(
            State {
                solution: Solution { a, b, n: self.solution.n },
                work,
                nonce: self.work,
                pubkey: self.pubkey,
            },
        )
    }
}

/// The bit lengths for which distinguished points are defined: the shift
/// `bit_length / 2 - 8` is at least one and stays inside 256 bits.
pub open spec fn spec_distinguishable(bit_length: u32) -> bool {
    18 <= bit_length <= 527
}

/// The factor by which a state's digest is multiplied to test whether the
/// state is a distinguished point: `2^shift` with
/// `shift = bit_length / 2 - 8`, and half as much again for an odd bit
/// length.
pub open spec fn spec_hash_diff(bit_length: u32) -> nat {
    let shift = (bit_length / 2 - POINT_DST_FACTOR) as nat;
    if bit_length % 2 != 0 {
        two_pow(shift) + two_pow((shift - 1) as nat)
    } else {
        two_pow(shift)
    }
}

/// A state is a distinguished point when its digest times `hash_diff` still
/// fits in 256 bits.
pub open spec fn spec_is_distinguished(state: StateView<nat>, hash_diff: nat) -> bool {
    State::<BigInt>::spec_hash_encode(state) * hash_diff < U256::modulus()
}

/// The number of steps after which a search over the modulus `p` gives up.
pub open spec fn spec_search_len(p: nat) -> nat {
    crate::bigint::spec_sqrt(p) * (SEARCH_LEN_FACTOR as nat)
}

/// The state that a walk reaches from `start` in `steps` steps.
#[verifier::opaque]
pub open spec fn spec_walk<C: Hasher>(
    start: StateView<nat>,
    hasher: C,
    steps: nat,
) -> StateView<nat>
    decreases steps,
{
    if steps == 0 {
        start
    } else {
        let prev = spec_walk(start, hasher, (steps - 1) as nat);
        spec_transit(prev, hasher.spec_hash(prev.work % U256::modulus()))
    }
}

/// The first `i` in `from..=limit` at which the walk after `i` steps stands
/// where it stands after `2 * i` steps.
pub open spec fn spec_first_meeting<C: Hasher>(
    start: StateView<nat>,
    hasher: C,
    from: nat,
    limit: nat,
) -> Option<nat>
    decreases limit + 1 - from,
{
    if from > limit {
        None
    } else if spec_walk(start, hasher, from).work == spec_walk(start, hasher, 2 * from).work {
        Some(from)
    } else {
        spec_first_meeting(start, hasher, from + 1, limit)
    }
}

/// Where a first meeting is named, the two walkers do meet there.
pub proof fn lemma_first_meeting_meets<C: Hasher>(
    start: StateView<nat>,
    hasher: C,
    from: nat,
    limit: nat,
)
    requires
        spec_first_meeting(start, hasher, from, limit).is_some(),
    ensures
        ({
            let i = spec_first_meeting(start, hasher, from, limit)->0;
            &&& from <= i <= limit
            &&& spec_walk(start, hasher, i).work == spec_walk(start, hasher, 2 * i).work
        }),
    decreases limit + 1 - from,
{
    if from <= limit && spec_walk(start, hasher, from).work != spec_walk(
        start,
        hasher,
        2 * from,
    ).work {
        lemma_first_meeting_meets(start, hasher, from + 1, limit);
    }
}

/// The first `j` in `from..=limit` at which the walk after `base + j` steps
/// stands on a distinguished point.
pub open spec fn spec_first_distinguished<C: Hasher>(
    start: StateView<nat>,
    hasher: C,
    hash_diff: nat,
    base: nat,
    from: nat,
    limit: nat,
) -> Option<nat>
    decreases limit + 1 - from,
{
    if from > limit {
        None
    } else if spec_is_distinguished(spec_walk(start, hasher, base + from), hash_diff) {
        Some(from)
    } else {
        spec_first_distinguished(start, hasher, hash_diff, base, from + 1, limit)
    }
}

/// Where a first distinguished point is named, it lies in the range that was
/// searched.
pub proof fn lemma_first_distinguished_bounds<C: Hasher>(
    start: StateView<nat>,
    hasher: C,
    hash_diff: nat,
    base: nat,
    from: nat,
    limit: nat,
)
    requires
        spec_first_distinguished(start, hasher, hash_diff, base, from, limit).is_some(),
    ensures
        from <= spec_first_distinguished(start, hasher, hash_diff, base, from, limit)->0 <= limit,
    decreases limit + 1 - from,
{
    if from <= limit && !spec_is_distinguished(
        spec_walk(start, hasher, base + from),
        hash_diff,
    ) {
        lemma_first_distinguished_bounds(start, hasher, hash_diff, base, from + 1, limit);
    }
}

/// The pair of states with which a single-threaded search ends, if it ends
/// with one.
///
/// A slow walker takes one step and a fast walker two, at most `limit` times,
/// until both stand on one point. The search fails if they never do, or if
/// they hold the same solution when they do. From there both take one step at
/// a time, at most `limit` times, until the slow one stands on a distinguished
/// point. There the search succeeds if both still stand on one point with
/// different solutions, and fails otherwise.
pub open spec fn spec_collision<C: Hasher>(
    start: StateView<nat>,
    hasher: C,
    hash_diff: nat,
    limit: nat,
) -> Option<(StateView<nat>, StateView<nat>)> {
    match spec_first_meeting(start, hasher, 1, limit) {
        None => None,
        Some(i) => {
            if spec_walk(start, hasher, i).solution == spec_walk(start, hasher, 2 * i).solution {
                None
            } else {
                match spec_first_distinguished(start, hasher, hash_diff, i, 1, limit) {
                    None => None,
                    Some(j) => {
                        let slow = spec_walk(start, hasher, i + j);
                        let fast = spec_walk(start, hasher, 2 * i + j);
                        if slow.work == fast.work && slow.solution != fast.solution {
                            Some((slow, fast))
                        } else {
                            None
                        }
                    },
                }
            }
        },
    }
}

/// Whether `state`, whose digest is `digest`, is a distinguished point for
/// the factor `hash_diff`.
pub fn is_distinguished(digest: &U256, hash_diff: &U256) -> (r: bool)
    ensures
        r == (digest@ * hash_diff@ < U256::modulus()),
{
    let product = u256_bigint(digest).mul(&u256_bigint(hash_diff));
    let mut digits: Vec<u8> = Vec::new();
    let mut i: usize = 0;
    while i < 32
        invariant
            i <= 32,
            digits@.len() == i,
            forall|j: int| 0 <= j < i ==> digits@[j] == 0,
        decreases 32 - i,
    {
        digits.push(0u8);
        i = i + 1;
    }
    digits.push(1u8);
    proof {
        lemma_le_value_single(digits@, 32);
        assert(1 * pow256(32) == pow256(32));
    }
    let bound = BigInt::from_lsb_digits(digits);
    product.less_than(&bound)
}

/// Every state of a walk belongs to the key of the first state.
pub proof fn lemma_walk_keeps_key<C: Hasher>(
    start: StateView<nat>,
    hasher: C,
    steps: nat,
)
    ensures
        spec_walk(start, hasher, steps).pubkey == start.pubkey,
        spec_walk(start, hasher, steps).solution.n == start.solution.n,
    decreases steps,
{
    reveal(spec_walk);
    if steps > 0 {
        lemma_walk_keeps_key(start, hasher, (steps - 1) as nat);
    }
}

/// The walk of `start` has not moved after no steps.
pub proof fn lemma_walk_start<C: Hasher>(start: StateView<nat>, hasher: C)
    ensures
        spec_walk(start, hasher, 0) == start,
{
    reveal(spec_walk);
}

/// Whether `state` is as a step of the walk under `hasher` leaves it: its
/// point is the image of its nonce, which is what a verifier looks for in a
/// seal.
pub open spec fn spec_stepped<C: Hasher>(state: StateView<nat>, hasher: C) -> bool {
    state.work == spec_func_f(
        state.pubkey,
        hasher.spec_hash(state.nonce % U256::modulus()) % state.pubkey.p,
        state.nonce,
    )
}

/// Takes the walk of `start` under `hasher` from its step `k` to the next.
pub(crate) fn advance<C: Hasher>(
    state: State<BigInt>,
    compute: &mut C,
    Ghost(start): Ghost<StateView<nat>>,
    Ghost(hasher): Ghost<C>,
    Ghost(k): Ghost<nat>,
) -> (r: Option<State<BigInt>>)
    requires
        start.pubkey.p >= 2,
        state@ == spec_walk(start, hasher, k),
        forall|nonce: nat| #[trigger] old(compute).spec_hash(nonce) == hasher.spec_hash(nonce),
    ensures
        r matches Some(next) && next@ == spec_walk(start, hasher, k + 1),
        state@.pubkey.exponents_wrap() && state@.on_point() ==> r->0@.on_point(),
        spec_stepped(r->0@, hasher),
        r->0@.nonce == state@.work,
        forall|nonce: nat| #[trigger] final(compute).spec_hash(nonce) == hasher.spec_hash(nonce),
        final(compute).spec_nonce() == spec_walk(start, hasher, k + 1).nonce % U256::modulus(),
{
    proof {
        reveal(spec_walk);
        lemma_walk_keeps_key(start, hasher, k);
    }
    match state.transit(compute) {
        Ok(next) => Some(next),
        Err(_) => None,
    }
}

/// Lets a slow walker take one step and a fast walker two, at most `n`
/// times, until both stand on one point, and returns them as they stand
/// there. The search looks at `signal` once every `grain_size` rounds and
/// ends without a result when it is told to stop.
///
/// The walkers meet, if at all, in the round that `spec_first_meeting`
/// names. They are returned where the signal is known to stay down for the
/// looks of the rounds up to that one, and not where it is known to come up.
pub(crate) fn floyd<C: Hasher, S: StopSignal>(
    start: State<BigInt>,
    compute: &mut C,
    compute_2: &mut C,
    n: &BigInt,
    signal: &mut S,
    grain_size: u32,
    Ghost(hasher): Ghost<C>,
) -> (r: Option<(State<BigInt>, State<BigInt>)>)
    requires
        start@.pubkey.p >= 2,
        forall|nonce: nat| #[trigger] old(compute).spec_hash(nonce) == hasher.spec_hash(nonce),
        forall|nonce: nat| #[trigger] old(compute_2).spec_hash(nonce) == hasher.spec_hash(nonce),
    ensures
        forall|nonce: nat| #[trigger] final(compute).spec_hash(nonce) == hasher.spec_hash(nonce),
        forall|nonce: nat| #[trigger] final(compute_2).spec_hash(nonce) == hasher.spec_hash(nonce),
        final(signal).spec_scripted() == old(signal).spec_scripted(),
        r matches Some(pair) ==> {
            let i = spec_first_meeting(start@, hasher, 1, n@)->0;
            &&& spec_first_meeting(start@, hasher, 1, n@).is_some()
            &&& pair.0@ == spec_walk(start@, hasher, i)
            &&& pair.1@ == spec_walk(start@, hasher, 2 * i)
            &&& final(compute).spec_nonce() == pair.0@.nonce % U256::modulus()
            &&& old(signal).spec_scripted() ==> final(signal).spec_calm() == spec_after_looks(
                old(signal).spec_calm(),
                spec_looks(grain_size, 0, i),
            )
        },
        spec_first_meeting(start@, hasher, 1, n@) matches Some(i) ==> {
            &&& spec_passes(*old(signal), spec_looks(grain_size, 0, i)) ==> r.is_some()
            &&& spec_halts(*old(signal), spec_looks(grain_size, 0, i)) ==> r.is_none()
        },
{
    let ghost s0 = start@;
    let ghost calm = signal.spec_calm();
    let ghost scripted = signal.spec_scripted();
    proof {
        reveal(spec_walk);
        assert(spec_walk(s0, hasher, 0) == s0);
    }
    let one = BigInt::from_u128(1);
    let mut state_2 = start.clone();
    let mut state_1 = start;
    let mut i = BigInt::zero();
    let mut counter: u32 = 0;
    while i.less_than(n)
        invariant
            one@ == 1,
            s0 == start@,
            s0.pubkey.p >= 2,
            counter <= grain_size,
            calm == old(signal).spec_calm(),
            scripted == old(signal).spec_scripted(),
            scripted == signal.spec_scripted(),
            forall|nonce: nat| #[trigger] compute.spec_hash(nonce) == hasher.spec_hash(nonce),
            forall|nonce: nat| #[trigger] compute_2.spec_hash(nonce) == hasher.spec_hash(nonce),
            i@ <= n@,
            state_1@ == spec_walk(s0, hasher, i@),
            state_2@ == spec_walk(s0, hasher, 2 * i@),
            spec_first_meeting(s0, hasher, 1, n@) == spec_first_meeting(s0, hasher, i@ + 1, n@),
            counter == spec_counter(grain_size, 0, i@),
            scripted ==> spec_allows(calm, spec_looks(grain_size, 0, i@)),
            scripted ==> signal.spec_calm() == spec_after_looks(
                calm,
                spec_looks(grain_size, 0, i@),
            ),
        decreases n@ - i@,
    {
        let ghost k = i@;
        state_1 = match advance(state_1, compute, Ghost(s0), Ghost(hasher), Ghost(k)) {
            Some(next) => next,
            None => {
                return None;
            },
        };
        state_2 = match advance(state_2, compute_2, Ghost(s0), Ghost(hasher), Ghost(2 * k)) {
            Some(next) => next,
            None => {
                return None;
            },
        };
        state_2 = match advance(state_2, compute_2, Ghost(s0), Ghost(hasher), Ghost(2 * k + 1)) {
            Some(next) => next,
            None => {
                return None;
            },
        };
        assert(2 * (k + 1) == 2 * k + 1 + 1);
        if counter >= grain_size {
            if signal.look() {
                proof {
                    // the walkers meet in this round or later, after this look
                    if spec_first_meeting(s0, hasher, 1, n@).is_some() {
                        lemma_first_meeting_meets(s0, hasher, k + 1, n@);
                        let m = spec_first_meeting(s0, hasher, 1, n@)->0;
                        lemma_looks_grow(grain_size, 0, k + 1, m);
                    }
                }
                return None;
            }
            counter = 0;
        }
        if state_1.work.equals(&state_2.work) {
            return Some((state_1, state_2));
        }
        i = i.add(&one);
        if counter < grain_size {
            counter = counter + 1;
        }
    }
    None
}

/// Lets two walkers take one step each, at most `n` times, until the first
/// stands on a distinguished point, and returns them as they stand there.
/// The search looks at `signal` once every `grain_size` rounds, and ends
/// without a result when it is told to stop.
///
/// The first walker stands on a distinguished point, if at all, in the round
/// that `spec_first_distinguished` names. The walkers are returned where the
/// signal is known to stay down for the looks up to that point, and not where
/// it is known to come up.
fn pursue<C: Hasher, S: StopSignal>(
    first: State<BigInt>,
    second: State<BigInt>,
    compute: &mut C,
    compute_2: &mut C,
    n: &BigInt,
    hash_diff: &U256,
    signal: &mut S,
    grain_size: u32,
    Ghost(start): Ghost<StateView<nat>>,
    Ghost(hasher): Ghost<C>,
    Ghost(base): Ghost<nat>,
    Ghost(base_2): Ghost<nat>,
) -> (r: Option<(State<BigInt>, State<BigInt>)>)
    requires
        start.pubkey.p >= 2,
        first@ == spec_walk(start, hasher, base),
        second@ == spec_walk(start, hasher, base_2),
        forall|nonce: nat| #[trigger] old(compute).spec_hash(nonce) == hasher.spec_hash(nonce),
        forall|nonce: nat| #[trigger] old(compute_2).spec_hash(nonce) == hasher.spec_hash(nonce),
    ensures
        forall|nonce: nat| #[trigger] final(compute).spec_hash(nonce) == hasher.spec_hash(nonce),
        forall|nonce: nat| #[trigger] final(compute_2).spec_hash(nonce) == hasher.spec_hash(nonce),
        final(signal).spec_scripted() == old(signal).spec_scripted(),
        r matches Some(pair) ==> {
            let j = spec_first_distinguished(start, hasher, hash_diff@, base, 1, n@)->0;
            &&& spec_first_distinguished(start, hasher, hash_diff@, base, 1, n@).is_some()
            &&& pair.0@ == spec_walk(start, hasher, base + j)
            &&& pair.1@ == spec_walk(start, hasher, base_2 + j)
            &&& final(compute).spec_nonce() == pair.0@.nonce % U256::modulus()
        },
        spec_first_distinguished(start, hasher, hash_diff@, base, 1, n@) matches Some(j) ==> {
            &&& spec_passes(*old(signal), spec_looks(grain_size, 0, j)) ==> r.is_some()
            &&& spec_halts(*old(signal), spec_looks(grain_size, 0, j)) ==> r.is_none()
            &&& r.is_some() && old(signal).spec_scripted() ==> final(signal).spec_calm()
                == spec_after_looks(old(signal).spec_calm(), spec_looks(grain_size, 0, j))
        },
{
    let one = BigInt::from_u128(1);
    let mut state_1 = first;
    let mut state_2 = second;
    let mut j = BigInt::zero();
    let mut counter: u32 = 0;
    let ghost hd = hash_diff@;
    let ghost calm = signal.spec_calm();
    let ghost scripted = signal.spec_scripted();
    while j.less_than(n)
        invariant
            one@ == 1,
            hd == hash_diff@,
            start.pubkey.p >= 2,
            counter <= grain_size,
            calm == old(signal).spec_calm(),
            scripted == old(signal).spec_scripted(),
            scripted == signal.spec_scripted(),
            forall|nonce: nat| #[trigger] compute.spec_hash(nonce) == hasher.spec_hash(nonce),
            forall|nonce: nat| #[trigger] compute_2.spec_hash(nonce) == hasher.spec_hash(nonce),
            j@ <= n@,
            state_1@ == spec_walk(start, hasher, base + j@),
            state_2@ == spec_walk(start, hasher, base_2 + j@),
            spec_first_distinguished(start, hasher, hd, base, 1, n@) == spec_first_distinguished(
                start,
                hasher,
                hd,
                base,
                j@ + 1,
                n@,
            ),
            counter == spec_counter(grain_size, 0, j@),
            scripted ==> spec_allows(calm, spec_looks(grain_size, 0, j@)),
            scripted ==> signal.spec_calm() == spec_after_looks(
                calm,
                spec_looks(grain_size, 0, j@),
            ),
        decreases n@ - j@,
    {
        let ghost k = j@;
        state_1 = match advance(state_1, compute, Ghost(start), Ghost(hasher), Ghost(base + k)) {
            Some(next) => next,
            None => {
                return None;
            },
        };
        state_2 = match advance(
            state_2,
            compute_2,
            Ghost(start),
            Ghost(hasher),
            Ghost(base_2 + k),
        ) {
            Some(next) => next,
            None => {
                return None;
            },
        };
        let digest = state_1.hash_encode();
        let distinguished = is_distinguished(&digest, hash_diff);
        if counter >= grain_size {
            if signal.look() {
                proof {
                    // the distinguished point lies in this round or later
                    if spec_first_distinguished(start, hasher, hd, base, 1, n@).is_some() {
                        lemma_first_distinguished_bounds(start, hasher, hd, base, k + 1, n@);
                        let m = spec_first_distinguished(start, hasher, hd, base, 1, n@)->0;
                        lemma_looks_grow(grain_size, 0, k + 1, m);
                    }
                }
                return None;
            }
            counter = 0;
        }
        if distinguished {
            return Some((state_1, state_2));
        }
        j = j.add(&one);
        if counter < grain_size {
            counter = counter + 1;
        }
    }
    None
}

/// The looks at its signal that a search from `start` takes until it has its
/// result, where it has one: those of the rounds until the walkers meet,
/// those of the rounds until the distinguished point, and one on the
/// collision.
pub open spec fn spec_search_looks<C: Hasher>(
    start: StateView<nat>,
    hasher: C,
    hash_diff: nat,
    limit: nat,
    grain_size: u32,
) -> nat {
    let i = spec_first_meeting(start, hasher, 1, limit)->0;
    let j = spec_first_distinguished(start, hasher, hash_diff, i, 1, limit)->0;
    spec_looks(grain_size, 0, i) + spec_looks(grain_size, 0, j) + 1
}

/// The search of one walk from `start`, which looks at `signal` as it goes.
///
/// Its result is the pair that `spec_collision` names, where it names one and
/// the signal is known to stay down for the looks that the search takes until
/// then. Where the signal is known to come up before, and where no pair is
/// named, there is no result.
fn search<C: Hasher, S: StopSignal>(
    start: State<BigInt>,
    compute: &mut C,
    signal: &mut S,
    grain_size: u32,
) -> (r: Option<Solutions<BigInt>>)
    requires
        start@.pubkey.p >= 2,
        spec_distinguishable(start@.pubkey.bit_length),
    ensures
        forall|nonce: nat| #[trigger]
            final(compute).spec_hash(nonce) == old(compute).spec_hash(nonce),
        r matches Some(pair) ==> {
            let found = spec_collision(
                start@,
                *old(compute),
                spec_hash_diff(start@.pubkey.bit_length),
                spec_search_len(start@.pubkey.p),
            );
            let states = found->0;
            &&& found.is_some()
            &&& pair.0@ == states.0.solution
            &&& pair.1@ == states.1.solution
            &&& final(compute).spec_nonce() == states.0.nonce % U256::modulus()
        },
        ({
            let found = spec_collision(
                start@,
                *old(compute),
                spec_hash_diff(start@.pubkey.bit_length),
                spec_search_len(start@.pubkey.p),
            );
            let looks = spec_search_looks(
                start@,
                *old(compute),
                spec_hash_diff(start@.pubkey.bit_length),
                spec_search_len(start@.pubkey.p),
                grain_size,
            );
            &&& found.is_some() && spec_passes(*old(signal), looks) ==> r.is_some()
            &&& spec_halts(*old(signal), looks) ==> r.is_none()
        }),
{
    let ghost h0 = *compute;
    let ghost s0 = start@;
    let ghost before = *signal;
    let hash_diff = start.pubkey.hash_diff();
    let n = start.pubkey.p.sqrt().mul(&BigInt::from_u128(SEARCH_LEN_FACTOR as u128));
    let mut compute_2 = compute.fork();
    let ghost i = spec_first_meeting(s0, h0, 1, n@)->0;
    let ghost j = spec_first_distinguished(s0, h0, hash_diff@, i, 1, n@)->0;
    let (state_1, state_2) = match floyd(
        start,
        compute,
        &mut compute_2,
        &n,
        signal,
        grain_size,
        Ghost(h0),
    ) {
        Some(pair) => pair,
        None => {
            return None;
        },
    };
    if state_1.solution.equals(&state_2.solution) {
        return None;
    }
    let (state_1, state_2) = match pursue(
        state_1,
        state_2,
        compute,
        &mut compute_2,
        &n,
        &hash_diff,
        signal,
        grain_size,
        Ghost(s0),
        Ghost(h0),
        Ghost(i),
        Ghost(2 * i),
    ) {
        Some(pair) => pair,
        None => {
            return None;
        },
    };
    if state_1.work.equals(&state_2.work) && !state_1.solution.equals(&state_2.solution) {
        if signal.claim() {
            return None;
        }
        Some((state_1.solution, state_2.solution))
    } else {
        None
    }
}

/// A search that does not depend on chance: it follows the walk from a given
/// first state.
///
/// Returns the solutions of the two states that `spec_collision` names, and
/// leaves in `compute` the nonce on which the first of them was reached. The
/// first state must belong to a key with a modulus of at least 2 and a bit
/// length for which distinguished points are defined.
pub fn solve_from<C: Hasher>(
    start: State<BigInt>,
    compute: &mut C,
) -> (r: Option<Solutions<BigInt>>)
    requires
        start@.pubkey.p >= 2,
        spec_distinguishable(start@.pubkey.bit_length),
    ensures
        forall|nonce: nat| #[trigger]
            final(compute).spec_hash(nonce) == old(compute).spec_hash(nonce),
        r.is_some() == spec_collision(
            start@,
            *old(compute),
            spec_hash_diff(start@.pubkey.bit_length),
            spec_search_len(start@.pubkey.p),
        ).is_some(),
        r matches Some(pair) ==> {
            let found = spec_collision(
                start@,
                *old(compute),
                spec_hash_diff(start@.pubkey.bit_length),
                spec_search_len(start@.pubkey.p),
            );
            let states = found->0;
            &&& pair.0@ == states.0.solution
            &&& pair.1@ == states.1.solution
            &&& final(compute).spec_nonce() == states.0.nonce % U256::modulus()
        },
{
    let mut signal: Option<&AtomicBool> = None;
    search(start, compute, &mut signal, 0)
}

/// The search of one worker among several as it runs when the flag that the
/// worker watches comes up after `calm` looks, or never where `calm` is
/// `None`.
///
/// The worker looks at its flag once every `grain_size` rounds while its two
/// walkers close in on each other, once every `grain_size` rounds while they
/// walk to the distinguished point, and once more on the collision. It returns
/// the solutions of the two states that `spec_collision` names exactly where
/// it names a pair and the flag stays down for all of these looks.
pub fn solve_dist_until<C: Hasher>(
    start: State<BigInt>,
    compute: &mut C,
    grain_size: u32,
    calm: Option<u64>,
) -> (r: Option<Solutions<BigInt>>)
    requires
        start@.pubkey.p >= 2,
        spec_distinguishable(start@.pubkey.bit_length),
    ensures
        forall|nonce: nat| #[trigger]
            final(compute).spec_hash(nonce) == old(compute).spec_hash(nonce),
        r.is_some() == spec_finds(start@, *old(compute), grain_size, calm),
        r matches Some(pair) ==> {
            let found = spec_collision(
                start@,
                *old(compute),
                spec_hash_diff(start@.pubkey.bit_length),
                spec_search_len(start@.pubkey.p),
            );
            let states = found->0;
            &&& pair.0@ == states.0.solution
            &&& pair.1@ == states.1.solution
            &&& final(compute).spec_nonce() == states.0.nonce % U256::modulus()
        },
{
    let mut signal = Script { calm };
    search(start, compute, &mut signal, grain_size)
}

/// Whether the search of a worker from `start` has a result when the flag of
/// the worker comes up after `calm` looks: `spec_collision` names a pair, and
/// the flag stays down for the looks that the search takes until then.
pub open spec fn spec_finds<C: Hasher>(
    start: StateView<nat>,
    hasher: C,
    grain_size: u32,
    calm: Option<u64>,
) -> bool {
    let hash_diff = spec_hash_diff(start.pubkey.bit_length);
    let limit = spec_search_len(start.pubkey.p);
    &&& spec_collision(start, hasher, hash_diff, limit).is_some()
    &&& spec_allows(
        (Script { calm }).spec_calm(),
        spec_search_looks(start, hasher, hash_diff, limit, grain_size),
    )
}

/// The search of one worker among several, from a given first state.
///
/// It runs as `solve_dist_until` does, with the looks at `flag` finding what
/// the other workers have made of it: it ends without a result once `flag`
/// is found raised. A result is the pair that `spec_collision` names. With
/// its last look, on the collision, the worker raises the flag in the same
/// step, so that of several workers with a result only one returns it.
pub fn solve_dist_from<C: Hasher>(
    start: State<BigInt>,
    compute: &mut C,
    grain_size: u32,
    flag: &AtomicBool,
) -> (r: Option<Solutions<BigInt>>)
    requires
        start@.pubkey.p >= 2,
        spec_distinguishable(start@.pubkey.bit_length),
    ensures
        forall|nonce: nat| #[trigger]
            final(compute).spec_hash(nonce) == old(compute).spec_hash(nonce),
        r matches Some(pair) ==> {
            let found = spec_collision(
                start@,
                *old(compute),
                spec_hash_diff(start@.pubkey.bit_length),
                spec_search_len(start@.pubkey.p),
            );
            let states = found->0;
            &&& found.is_some()
            &&& pair.0@ == states.0.solution
            &&& pair.1@ == states.1.solution
            &&& final(compute).spec_nonce() == states.0.nonce % U256::modulus()
        },
{
    let mut signal: Option<&AtomicBool> = Some(flag);
    search(start, compute, &mut signal, grain_size)
}

/// What a search may return whatever exponents it drew for its first state:
/// two different solutions for the exponent modulus `(p - 1) / 2` of `key`
/// that, where exponents wrap in the group of `key`, stand for one point.
pub open spec fn spec_sound_pair(key: KeyView, pair: (Solution<nat>, Solution<nat>)) -> bool {
    &&& pair.0 != pair.1
    &&& pair.0.n == (key.p - 1) / 2
    &&& pair.1.n == (key.p - 1) / 2
    &&& key.exponents_wrap() ==> key.combine(pair.0.a, pair.0.b) == key.combine(
        pair.1.a,
        pair.1.b,
    )
}

/// The numbers of the solutions that a search returned.
pub open spec fn spec_pair_view(result: Option<Solutions<BigInt>>) -> Option<
    (Solution<nat>, Solution<nat>),
> {
    match result {
        Some(pair) => Some((pair.0@, pair.1@)),
        None => None,
    }
}

/// Whether `result`, with `nonce` left in the hasher, is what the search
/// from the state `start` gives: the solutions of the two states that
/// `spec_collision` names and the nonce on which the first of them was
/// reached, or nothing where it names none.
pub open spec fn spec_is_search_result<C: Hasher>(
    start: StateView<nat>,
    hasher: C,
    result: Option<(Solution<nat>, Solution<nat>)>,
    nonce: nat,
) -> bool {
    let found = spec_collision(
        start,
        hasher,
        spec_hash_diff(start.pubkey.bit_length),
        spec_search_len(start.pubkey.p),
    );
    match result {
        Some(pair) => {
            let states = found->0;
            &&& found.is_some()
            &&& pair.0 == states.0.solution
            &&& pair.1 == states.1.solution
            &&& nonce == states.0.nonce % U256::modulus()
        },
        None => found.is_none(),
    }
}

/// What a key offers to the search for its private exponent.
pub trait PollardRhoHash: View<V = KeyView> + Sized {
    /// Searches for a collision with one walk that starts from exponents
    /// drawn from `seed`. The result, and the nonce left in `compute`, are
    /// what `solve_from` gives for the first state that `seed` draws; whatever
    /// was drawn, the result is a sound pair, and `compute` hashes as before.
    fn solve<C: Hasher>(&self, compute: &mut C, seed: BigInt) -> (r:
        Option<Solutions<BigInt>>)
        requires
            self@.p >= 3,
            spec_distinguishable(self@.bit_length),
        ensures
            forall|nonce: nat| #[trigger]
                final(compute).spec_hash(nonce) == old(compute).spec_hash(nonce),
            spec_first_state(self@, spec_start_state(self@, seed@)),
            spec_is_search_result(
                spec_start_state(self@, seed@),
                *old(compute),
                spec_pair_view(r),
                final(compute).spec_nonce(),
            ),
            r matches Some(pair) ==> spec_sound_pair(self@, (pair.0@, pair.1@)),
    ;

    /// Searches as `solve` does, as one worker among several: the search is
    /// `solve_dist_from`, which gives up once `flag` is raised and raises it
    /// on success.
    fn solve_dist<C: Hasher>(
        &self,
        compute: &mut C,
        seed: BigInt,
        grain_size: u32,
        flag: Arc<AtomicBool>,
    ) -> (r: Option<Solutions<BigInt>>)
        requires
            self@.p >= 3,
            spec_distinguishable(self@.bit_length),
        ensures
            forall|nonce: nat| #[trigger]
                final(compute).spec_hash(nonce) == old(compute).spec_hash(nonce),
            spec_first_state(self@, spec_start_state(self@, seed@)),
            r.is_some() ==> spec_is_search_result(
                spec_start_state(self@, seed@),
                *old(compute),
                spec_pair_view(r),
                final(compute).spec_nonce(),
            ),
            r matches Some(pair) ==> spec_sound_pair(self@, (pair.0@, pair.1@)),
    ;

    /// The factor that tells the distinguished points of the key's walk.
    fn hash_diff(&self) -> (r: U256)
        requires
            spec_distinguishable(self@.bit_length),
        ensures
            r@ == spec_hash_diff(self@.bit_length),
    ;
}

impl PollardRhoHash for PublicKey {
    fn solve<C: Hasher>(&self, compute: &mut C, seed: BigInt) -> (r:
        Option<Solutions<BigInt>>) {
        let start = State::<BigInt>::from_pub_key(self.clone(), seed);
        let ghost first = start@;
        proof {
            let hash_diff = spec_hash_diff(self@.bit_length);
            let limit = spec_search_len(self@.p);
            if spec_collision(first, *compute, hash_diff, limit).is_some() {
                crate::invariants::lemma_collision_is_sound(first, *compute, hash_diff, limit);
            }
        }
        let r = solve_from(start, compute);
        assert(spec_is_search_result(
            first,
            *old(compute),
            spec_pair_view(r),
            compute.spec_nonce(),
        ));
        r
    }

    fn solve_dist<C: Hasher>(
        &self,
        compute: &mut C,
        seed: BigInt,
        grain_size: u32,
        flag: Arc<AtomicBool>,
    ) -> (r: Option<Solutions<BigInt>>) {
        let start = State::<BigInt>::from_pub_key(self.clone(), seed);
        let ghost first = start@;
        proof {
            let hash_diff = spec_hash_diff(self@.bit_length);
            let limit = spec_search_len(self@.p);
            if spec_collision(first, *compute, hash_diff, limit).is_some() {
                crate::invariants::lemma_collision_is_sound(first, *compute, hash_diff, limit);
            }
        }
        let r = solve_dist_from(start, compute, grain_size, &*flag);
        assert(r.is_some() ==> spec_is_search_result(
            first,
            *old(compute),
            spec_pair_view(r),
            compute.spec_nonce(),
        ));
        r
    }

    fn hash_diff(&self) -> (r: U256) {
        let shift: u32 = self.bit_length / 2 - POINT_DST_FACTOR;
        let mut half = BigInt::from_u128(1);
        let mut k: u32 = 0;
        proof {
            lemma_two_pow_positive(0);
        }
        while k < shift - 1
            invariant
                1 <= shift <= 255,
                k <= shift - 1,
                half@ == two_pow(k as nat),
            decreases shift - 1 - k,
        {
            half = half.add(&half);
            k = k + 1;
        }
        let whole = half.add(&half);
        let diff = if self.bit_length % 2 != 0 {
            whole.add(&half)
        } else {
            whole
        };
        proof {
            assert(two_pow(shift as nat) == 2 * two_pow((shift - 1) as nat));
            lemma_two_pow_positive((shift - 1) as nat);
            lemma_two_pow_monotonic((shift + 1) as nat, 256);
            assert(two_pow((shift + 1) as nat) == 2 * two_pow(shift as nat));
            lemma_two_pow_is_pow256(32);
            vstd::arithmetic::div_mod::lemma_small_mod(diff@, U256::modulus());
        }
        bigint_u256(&diff)
    }
}

} // verus!
