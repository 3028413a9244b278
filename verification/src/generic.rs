//! The shapes that the puzzle engine works with: solutions, walk states, and
//! the capabilities of a hasher and of a walk.
use crate::bigint::{spec_pow_mod, BigInt};
use crate::elgamal::{KeyView, PublicKey};
use crate::uint::U256;
use vstd::prelude::*;

verus! {

/// The three-way branch of the walk met a remainder that is none of 0, 1, 2.
#[derive(Debug, Clone, Copy)]
pub struct MappingError;

/// What a mapping function returns.
pub type MapResult<T> = Result<T, MappingError>;

/// A pair of solutions that met at one point of the walk.
pub type Solutions<I> = (Solution<I>, Solution<I>);

/// A point of the walk as a pair of exponents: the point is
/// `g^a * h^b mod p`, and `n = (p - 1) / 2`.
#[derive(Debug, PartialEq, Eq)]
pub struct Solution<I> {
    pub a: I,
    pub b: I,
    pub n: I,
}

/// A state of the walk.
#[derive(Debug)]
pub struct State<I> {
    pub solution: Solution<I>,
    /// The point before this one.
    pub nonce: I,
    /// The point itself.
    pub work: I,
    pub pubkey: PublicKey,
}

/// The numbers of a state.
pub struct StateView<V> {
    pub solution: Solution<V>,
    pub nonce: V,
    pub work: V,
    pub pubkey: KeyView,
}

impl StateView<nat> {
    /// Whether the state's exponents stand for the state's point:
    /// `work == g^a * h^b mod p`.
    pub open spec fn on_point(self) -> bool {
        self.work == self.pubkey.combine(self.solution.a, self.solution.b)
    }
}

impl<I: View> View for Solution<I> {
    type V = Solution<I::V>;

    open spec fn view(&self) -> Solution<I::V> {
        Solution { a: self.a@, b: self.b@, n: self.n@ }
    }
}

impl<I: View> View for State<I> {
    type V = StateView<I::V>;

    open spec fn view(&self) -> StateView<I::V> {
        StateView {
            solution: self.solution@,
            nonce: self.nonce@,
            work: self.work@,
            pubkey: self.pubkey@,
        }
    }
}

impl Clone for Solution<BigInt> {
    fn clone(&self) -> (r: Self)
        ensures
            r@ == self@,
    {
        Solution { a: self.a.clone(), b: self.b.clone(), n: self.n.clone() }
    }
}

impl Clone for Solution<U256> {
    fn clone(&self) -> (r: Self)
        ensures
            r == *self,
    {
        Solution { a: self.a, b: self.b, n: self.n }
    }
}

impl Clone for State<BigInt> {
    fn clone(&self) -> (r: Self)
        ensures
            r@ == self@,
    {
        State {
            solution: self.solution.clone(),
            nonce: self.nonce.clone(),
            work: self.work.clone(),
            pubkey: self.pubkey.clone(),
        }
    }
}

/// A solution with each number reduced to 256 bits, as a seal carries it.
pub open spec fn spec_truncated(solution: Solution<nat>) -> Solution<nat> {
    Solution {
        a: solution.a % U256::modulus(),
        b: solution.b % U256::modulus(),
        n: solution.n % U256::modulus(),
    }
}

/// The next point of a walk that stands at `y_i`, for the hash value `x_i`.
pub open spec fn spec_func_f(key: KeyView, x_i: nat, y_i: nat) -> nat {
    if x_i % 3 == 0 {
        spec_pow_mod(y_i, x_i, key.p)
    } else if x_i % 3 == 1 {
        (spec_pow_mod(key.g, x_i, key.p) * y_i) % key.p
    } else {
        (spec_pow_mod(key.h, x_i, key.p) * y_i) % key.p
    }
}

/// The exponent of `g` at the next point, for the hash value `x_i`.
pub open spec fn spec_func_g(key: KeyView, a_i: nat, x_i: nat) -> nat {
    if x_i % 3 == 0 {
        (a_i * x_i) % ((key.p - 1) as nat)
    } else if x_i % 3 == 1 {
        (a_i + x_i) % ((key.p - 1) as nat)
    } else {
        a_i
    }
}

/// The exponent of `h` at the next point, for the hash value `x_i`.
pub open spec fn spec_func_h(key: KeyView, b_i: nat, x_i: nat) -> nat {
    if x_i % 3 == 0 {
        (b_i * x_i) % ((key.p - 1) as nat)
    } else if x_i % 3 == 1 {
        b_i
    } else {
        (b_i + x_i) % ((key.p - 1) as nat)
    }
}

/// The state that follows `state` when the hasher, given the point of `state`
/// as nonce, returns `digest`.
pub open spec fn spec_transit(state: StateView<nat>, digest: nat) -> StateView<nat> {
    let x = digest % state.pubkey.p;
    StateView {
        solution: Solution {
            a: spec_func_g(state.pubkey, state.solution.a, x),
            b: spec_func_h(state.pubkey, state.solution.b, x),
            n: state.solution.n,
        },
        nonce: state.work,
        work: spec_func_f(state.pubkey, x, state.work),
        pubkey: state.pubkey,
    }
}

/// A hasher of block data with a nonce that can be rewritten. Its digest is a
/// function of the nonce alone: writing a nonce changes the nonce and nothing
/// else.
pub trait Hash<I: View<V = nat>, E: View<V = nat>>: Sized {
    /// The nonce that the hasher holds.
    spec fn spec_nonce(&self) -> nat;

    /// The digest, as an integer, of the hasher's data with `nonce` in place
    /// of the nonce it holds.
    spec fn spec_hash(&self, nonce: nat) -> nat;

    /// Writes `value`, reduced to 256 bits, as the nonce.
    fn set_nonce(&mut self, value: &I)
        ensures
            final(self).spec_nonce() == value@ % U256::modulus(),
            forall|nonce: nat| #[trigger]
                final(self).spec_hash(nonce) == old(self).spec_hash(nonce),
    ;

    /// The nonce that the hasher holds.
    fn get_nonce(&self) -> (r: E)
        ensures
            r@ == self.spec_nonce(),
    ;

    /// The digest of the hasher's data as an integer.
    fn hash_integer(&self) -> (r: I)
        ensures
            r@ == self.spec_hash(self.spec_nonce()),
    ;

    /// A second hasher of the same data.
    fn fork(&self) -> (r: Self)
        ensures
            r.spec_nonce() == self.spec_nonce(),
            forall|nonce: nat| #[trigger] r.spec_hash(nonce) == self.spec_hash(nonce),
    ;
}

/// A hasher for walks over big integers with a nonce of 256 bits: the kind
/// that the searches take.
pub trait Hasher: Hash<BigInt, U256> {

}

impl<C: Hash<BigInt, U256>> Hasher for C {

}

/// A digest of a whole walk state, by which distinguished points are told.
pub trait StateHash<I, E: View<V = nat>>: View<V = StateView<nat>> {
    /// The digest of a state with the numbers `state`.
    spec fn spec_hash_encode(state: StateView<nat>) -> nat;

    fn hash_encode(&self) -> (r: E)
        ensures
            r@ == Self::spec_hash_encode(self@),
    ;
}

/// The three functions that take one point of the walk to the next.
pub trait Mapping<I: View<V = nat>> {
    /// The key whose group the walk runs in.
    spec fn spec_key(&self) -> KeyView;

    /// The next point: `x_(i+1) = func_f(x_i, y_i)`.
    fn func_f(&self, x_i: &I, y_i: &I) -> (r: MapResult<I>)
        requires
            self.spec_key().p >= 2,
        ensures
            r matches Ok(y) && y@ == spec_func_f(self.spec_key(), x_i@, y_i@),
    ;

    /// The next exponent of `g`: `a_(i+1) = func_g(a_i, x_i)`.
    fn func_g(&self, a_i: &I, x_i: &I) -> (r: MapResult<I>)
        requires
            self.spec_key().p >= 2,
        ensures
            r matches Ok(a) && a@ == spec_func_g(self.spec_key(), a_i@, x_i@),
    ;

    /// The next exponent of `h`: `b_(i+1) = func_h(b_i, x_i)`.
    fn func_h(&self, b_i: &I, x_i: &I) -> (r: MapResult<I>)
        requires
            self.spec_key().p >= 2,
        ensures
            r matches Ok(b) && b@ == spec_func_h(self.spec_key(), b_i@, x_i@),
    ;
}

/// One step of the walk.
pub trait CycleFinding<I: View<V = nat>, E: View<V = nat>>: Mapping<I> + View<
    V = StateView<nat>,
> + Sized {
    /// Writes the state's point into the hasher as nonce, hashes, and moves to
    /// the state that the digest selects.
    fn transit<C: Hash<I, E>>(self, compute: &mut C) -> (r: MapResult<State<I>>)
        requires
            self@.pubkey.p >= 2,
            self.spec_key() == self@.pubkey,
        ensures
            r matches Ok(next) && next@ == spec_transit(
                self@,
                old(compute).spec_hash(self@.work % U256::modulus()),
            ),
            final(compute).spec_nonce() == self@.work % U256::modulus(),
            forall|nonce: nat| #[trigger]
                final(compute).spec_hash(nonce) == old(compute).spec_hash(nonce),
    ;
}

/// Something that can give the private exponent it stands for.
pub trait KeySolver<I> {
    /// The private exponent, where one is found.
    fn solve(&self) -> Option<I>;
}

} // verus!
