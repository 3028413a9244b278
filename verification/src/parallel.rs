//! One worker of a search that several workers share.
//!
//! Each worker follows its own walk. On a distinguished point it asks its
//! host to look the point up in the map that the workers share: a different
//! solution stored for the point is a collision, the same solution makes the
//! worker start over from the next seed, and a point that is not stored yet
//! is stored. The host holds the map and the threads; the worker decides.
use crate::algorithm::{
    advance, is_distinguished, lemma_first_distinguished_bounds, lemma_walk_keeps_key,
    lemma_walk_start, spec_distinguishable, spec_first_distinguished, spec_first_state,
    spec_hash_diff, spec_is_distinguished, spec_start_state, spec_stepped, spec_walk,
    PollardRhoHash, SEARCH_LEN_FACTOR,
};
use crate::bigint::BigInt;
use crate::elgamal::{KeyView, PublicKey};
use crate::flag::{
    lemma_looks_grow, lemma_rounds_without_look, spec_after_look, spec_after_looks, spec_allows,
    spec_counter, spec_halts, spec_looks, spec_passes, Script, StopSignal,
};
use crate::generic::{Hasher, Solution, Solutions, State, StateHash, StateView};
use crate::invariants::lemma_walk_stays_small;
use crate::uint::U256;
use std::sync::atomic::AtomicBool;
use vstd::arithmetic::div_mod::lemma_mod_bound;
use vstd::arithmetic::power::pow;
use vstd::prelude::*;

verus! {

/// How many times a worker starts over from a new seed before it gives up.
pub const MAX_TRY: u32 = 10;

/// A worker between two steps of its walk.
pub struct ParallelWorker {
    /// The key whose exponent is searched.
    pub pubkey: PublicKey,
    /// The seed of the worker's first walk; walk `j` starts from
    /// `local_seed + j`.
    pub local_seed: BigInt,
    /// Where the walk stands.
    pub state: State<BigInt>,
    /// The steps taken on this walk.
    pub steps: BigInt,
    /// The steps after which a walk is given up.
    pub limit: BigInt,
    /// The steps since the worker last looked at the flag.
    pub counter: u32,
    /// The steps between two looks at the flag.
    pub grain_size: u32,
    /// How many times the worker has started over.
    pub restarts: u32,
    /// The factor that tells distinguished points.
    pub hash_diff: U256,
}

/// Why a worker stopped walking.
#[derive(Debug, PartialEq, Eq)]
pub enum WorkerEvent {
    /// The worker stands on a distinguished point: the host looks the point
    /// of the state up in the shared map and hands the answer to `resolve`.
    Distinguished,
    /// The flag is raised, or every walk of the worker has reached the limit:
    /// the worker is done.
    Finished,
}

/// What a worker makes of the answer of the shared map.
#[derive(Debug, PartialEq, Eq)]
pub enum Resolution {
    /// A collision: the worker has raised the flag, and the host publishes
    /// the pair and the nonce.
    Announce { solutions: Solutions<BigInt>, nonce: BigInt },
    /// The point is new: the host stores the solution under the point, and
    /// the worker walks on.
    Insert { work: BigInt, solution: Solution<BigInt> },
    /// The worker walks on without a change to the map.
    Continue,
    /// The worker is done without a result.
    Finished,
}

/// Whether the numbers of `state` lie below the modulus of its key.
pub open spec fn spec_small(state: StateView<nat>) -> bool {
    &&& state.solution.a < state.pubkey.p
    &&& state.solution.b < state.pubkey.p
    &&& state.work < state.pubkey.p
    &&& state.nonce < state.pubkey.p
}

/// A first state of a key with a walk is small.
pub proof fn lemma_first_state_is_small(key: KeyView, start: StateView<nat>)
    requires
        key.p >= 3,
        spec_first_state(key, start),
    ensures
        spec_small(start),
{
    lemma_mod_bound(
        pow(key.g as int, start.solution.a) * pow(key.h as int, start.solution.b),
        key.p as int,
    );
}

impl ParallelWorker {
    /// Whether the worker can walk: its state belongs to its key, the key has
    /// a walk, the exponent modulus of the state is `(p - 1) / 2`, the numbers
    /// of the state lie below `p`, and the counters are within their bounds.
    pub open spec fn wf(&self) -> bool {
        &&& self.pubkey@.p >= 3
        &&& self.state@.pubkey == self.pubkey@
        &&& self.state@.solution.n == (self.pubkey@.p - 1) / 2
        &&& spec_small(self.state@)
        &&& self.hash_diff@ == spec_hash_diff(self.pubkey@.bit_length)
        &&& self.counter <= self.grain_size
        &&& self.restarts <= MAX_TRY
    }

    /// The steps that are left of the walk that the worker is on.
    pub open spec fn spec_steps_left(&self) -> nat {
        if self.limit@ >= self.steps@ {
            (self.limit@ - self.steps@) as nat
        } else {
            0
        }
    }

    /// Whether the state of the worker stands on its point, as far as the
    /// group of the key lets exponents wrap.
    pub open spec fn on_point(&self) -> bool {
        self.pubkey@.exponents_wrap() ==> self.state@.on_point()
    }

    /// A worker for `pubkey` at the start of its first walk, which begins
    /// from exponents drawn from `local_seed`.
    pub fn new(pubkey: PublicKey, local_seed: BigInt, grain_size: u32) -> (r: ParallelWorker)
        requires
            pubkey@.p >= 3,
            spec_distinguishable(pubkey@.bit_length),
        ensures
            r.wf(),
            r.on_point(),
            r.pubkey@ == pubkey@,
            r.local_seed@ == local_seed@,
            r.steps@ == 0,
            r.counter == 0,
            r.restarts == 0,
            r.grain_size == grain_size,
            r.limit@ == crate::algorithm::spec_search_len(pubkey@.p),
            r.state@ == spec_start_state(pubkey@, local_seed@),
    {
        let hash_diff = pubkey.hash_diff();
        let limit = pubkey.p.sqrt().mul(&BigInt::from_u128(SEARCH_LEN_FACTOR as u128));
        let state = State::<BigInt>::from_pub_key(pubkey.clone(), local_seed.clone());
        proof {
            lemma_first_state_is_small(pubkey@, state@);
        }
        ParallelWorker {
            pubkey,
            local_seed,
            state,
            steps: BigInt::zero(),
            limit,
            counter: 0,
            grain_size,
            restarts: 0,
            hash_diff,
        }
    }

    /// Starts the next walk, from the seed after the one of this walk.
    fn restart(&mut self)
        requires
            old(self).wf(),
            old(self).restarts < MAX_TRY,
        ensures
            final(self).wf(),
            final(self).on_point(),
            final(self).restarts == old(self).restarts + 1,
            final(self).steps@ == 0,
            final(self).limit@ == old(self).limit@,
            final(self).counter == old(self).counter,
            final(self).grain_size == old(self).grain_size,
            final(self).pubkey@ == old(self).pubkey@,
            final(self).local_seed@ == old(self).local_seed@,
    {
        self.restarts = self.restarts + 1;
        let seed = self.local_seed.add(&BigInt::from_u128(self.restarts as u128));
        self.state = State::<BigInt>::from_pub_key(self.pubkey.clone(), seed);
        proof {
            lemma_first_state_is_small(self.pubkey@, self.state@);
        }
        self.steps = BigInt::zero();
    }

    /// Ends a step: looks at the signal where the count of steps since the
    /// last look has reached the grain, and counts the step. Returns whether
    /// the signal tells the worker to stop; the step is counted where it does
    /// not.
    fn finish_step<S: StopSignal>(&mut self, signal: &mut S) -> (stop: bool)
        requires
            old(self).wf(),
        ensures
            final(self).wf(),
            final(self).state@ == old(self).state@,
            final(self).restarts == old(self).restarts,
            final(self).limit@ == old(self).limit@,
            final(self).hash_diff@ == old(self).hash_diff@,
            final(self).grain_size == old(self).grain_size,
            final(self).pubkey@ == old(self).pubkey@,
            final(self).local_seed@ == old(self).local_seed@,
            final(signal).spec_scripted() == old(signal).spec_scripted(),
            old(self).counter < old(self).grain_size ==> !stop && final(signal).spec_calm() == old(
                signal,
            ).spec_calm(),
            old(self).counter >= old(self).grain_size && old(signal).spec_scripted() ==> stop == (
            old(signal).spec_calm() == Some(0nat)) && final(signal).spec_calm() == spec_after_look(
                old(signal).spec_calm(),
            ),
            stop ==> final(self).steps@ == old(self).steps@ && final(self).counter == old(
                self,
            ).counter,
            !stop ==> final(self).steps@ == old(self).steps@ + 1 && final(self).counter
                == spec_counter(old(self).grain_size, old(self).counter as nat, 1),
    {
        proof {
            reveal_with_fuel(spec_counter, 2);
        }
        if self.counter >= self.grain_size {
            if signal.look() {
                return true;
            }
            self.counter = 0;
        }
        self.steps = self.steps.add(&BigInt::from_u128(1));
        if self.counter < self.grain_size {
            self.counter = self.counter + 1;
        }
        false
    }

    /// The looks at its signal that the worker takes before it can stand on
    /// the first distinguished point of the walk it is on, where the walk has
    /// one within the steps that are left: those of the steps before that
    /// point.
    pub open spec fn spec_looks_ahead<C: Hasher>(&self, hasher: C) -> nat {
        let first = spec_first_distinguished(
            self.state@,
            hasher,
            self.hash_diff@,
            0,
            1,
            self.spec_steps_left(),
        )->0;
        spec_looks(self.grain_size, self.counter as nat, (first - 1) as nat)
    }

    /// Walks until the worker stands on a distinguished point or is done,
    /// looking at `signal` once the count of steps since the last look has
    /// reached the grain.
    ///
    /// Where the walk that the worker is on has a distinguished point within
    /// the steps that are left, the worker stops on the first such point if
    /// the signal is known to stay down for the looks before it, and is done
    /// if the signal is known to come up. Where the walk has none and the
    /// worker has started over as often as it may, the worker is done.
    fn walk_on<C: Hasher, S: StopSignal>(&mut self, compute: &mut C, signal: &mut S) -> (r:
        WorkerEvent)
        requires
            old(self).wf(),
            old(self).on_point(),
        ensures
            final(self).wf(),
            final(self).on_point(),
            final(self).pubkey@ == old(self).pubkey@,
            final(self).grain_size == old(self).grain_size,
            final(signal).spec_scripted() == old(signal).spec_scripted(),
            forall|nonce: nat| #[trigger]
                final(compute).spec_hash(nonce) == old(compute).spec_hash(nonce),
            r == WorkerEvent::Distinguished ==> {
                &&& spec_is_distinguished(final(self).state@, final(self).hash_diff@)
                &&& spec_stepped(final(self).state@, *old(compute))
                &&& final(compute).spec_nonce() == final(self).state@.nonce % U256::modulus()
            },
            r == WorkerEvent::Distinguished && final(self).restarts == old(self).restarts ==> {
                let first = spec_first_distinguished(
                    old(self).state@,
                    *old(compute),
                    old(self).hash_diff@,
                    0,
                    1,
                    old(self).spec_steps_left(),
                );
                &&& first.is_some()
                &&& final(self).state@ == spec_walk(old(self).state@, *old(compute), first->0)
                &&& final(self).steps@ + 1 == old(self).steps@ + first->0
                &&& final(self).counter == spec_counter(
                    old(self).grain_size,
                    old(self).counter as nat,
                    (first->0 - 1) as nat,
                )
            },
            spec_first_distinguished(
                old(self).state@,
                *old(compute),
                old(self).hash_diff@,
                0,
                1,
                old(self).spec_steps_left(),
            ).is_some() ==> {
                let looks = old(self).spec_looks_ahead(*old(compute));
                &&& spec_passes(*old(signal), looks) ==> r == WorkerEvent::Distinguished
                    && final(self).restarts == old(self).restarts
                &&& spec_halts(*old(signal), looks) ==> r == WorkerEvent::Finished
            },
            spec_first_distinguished(
                old(self).state@,
                *old(compute),
                old(self).hash_diff@,
                0,
                1,
                old(self).spec_steps_left(),
            ).is_none() && old(self).restarts == MAX_TRY ==> r == WorkerEvent::Finished,
            old(signal).spec_scripted() && old(signal).spec_calm() == Some(0nat)
                && final(self).restarts == old(self).restarts
                ==> final(self).steps@ + old(self).counter
                    <= old(self).steps@ + old(self).grain_size,
    {
        let ghost s0 = self.state@;
        let ghost h0 = *compute;
        let ghost hd = self.hash_diff@;
        let ghost left = self.spec_steps_left();
        let ghost grain = self.grain_size;
        let ghost c0 = self.counter as nat;
        let ghost calm = signal.spec_calm();
        let ghost scripted = signal.spec_scripted();
        let ghost origin = s0;
        let ghost taken: nat = 0;
        proof {
            lemma_walk_start(s0, h0);
        }
        loop
            invariant
                self.wf(),
                self.on_point(),
                self.pubkey@ == old(self).pubkey@,
                self.grain_size == grain,
                s0 == old(self).state@,
                h0 == *old(compute),
                hd == old(self).hash_diff@,
                left == old(self).spec_steps_left(),
                grain == old(self).grain_size,
                c0 == old(self).counter,
                c0 <= grain,
                calm == old(signal).spec_calm(),
                scripted == old(signal).spec_scripted(),
                scripted == signal.spec_scripted(),
                self.restarts >= old(self).restarts,
                forall|nonce: nat| #[trigger] compute.spec_hash(nonce) == h0.spec_hash(nonce),
                origin.pubkey == self.pubkey@,
                origin.solution.n == (self.pubkey@.p - 1) / 2,
                spec_small(origin),
                self.state@ == spec_walk(origin, h0, taken),
                self.restarts == old(self).restarts ==> spec_on_track(
                    *old(self),
                    *self,
                    h0,
                    *old(signal),
                    *signal,
                    origin,
                    taken,
                ),
                self.restarts > old(self).restarts ==> spec_first_distinguished(
                    s0,
                    h0,
                    hd,
                    0,
                    1,
                    left,
                ).is_none() && old(self).restarts < MAX_TRY,
            decreases MAX_TRY - self.restarts, self.limit@ - self.steps@,
        {
            if !self.steps.less_than(&self.limit) {
                if self.restarts < MAX_TRY {
                    self.restart();
                    proof {
                        origin = self.state@;
                        taken = 0;
                        lemma_walk_start(origin, h0);
                    }
                    if !self.steps.less_than(&self.limit) {
                        return WorkerEvent::Finished;
                    }
                } else {
                    return WorkerEvent::Finished;
                }
            }
            let state = self.state.clone();
            self.state = match advance(state, compute, Ghost(origin), Ghost(h0), Ghost(taken)) {
                Some(next) => next,
                None => {
                    return WorkerEvent::Finished;
                },
            };
            proof {
                lemma_walk_keeps_key(origin, h0, taken + 1);
                lemma_walk_stays_small(origin, h0, taken + 1);
                taken = taken + 1;
            }
            let digest = self.state.hash_encode();
            if is_distinguished(&digest, &self.hash_diff) {
                return WorkerEvent::Distinguished;
            }
            let ghost before = *self;
            let ghost signal_before = *signal;
            let stop = self.finish_step(signal);
            proof {
                if self.restarts == old(self).restarts {
                    lemma_step_on_track(
                        *old(self),
                        before,
                        *self,
                        h0,
                        *old(signal),
                        signal_before,
                        *signal,
                        taken,
                        stop,
                    );
                }
            }
            if stop {
                return WorkerEvent::Finished;
            }
        }
    }

    /// Walks until the worker stands on a distinguished point or is done.
    ///
    /// A walk that reaches the limit is followed by the next, at most
    /// `MAX_TRY` times. The worker looks at `found` once the count of steps
    /// since its last look has reached `grain_size`, and is done when it
    /// finds the flag raised. Where the walk that the worker is on has a
    /// distinguished point within the steps that are left and the worker
    /// need not look at the flag before, it stops on the first such point.
    /// Where the walk has none and the worker has started over as often as it
    /// may, the worker is done.
    pub fn run<C: Hasher>(
        &mut self,
        compute: &mut C,
        found: &AtomicBool,
    ) -> (r: WorkerEvent)
        requires
            old(self).wf(),
            old(self).on_point(),
        ensures
            final(self).wf(),
            final(self).on_point(),
            final(self).pubkey@ == old(self).pubkey@,
            final(self).grain_size == old(self).grain_size,
            forall|nonce: nat| #[trigger]
                final(compute).spec_hash(nonce) == old(compute).spec_hash(nonce),
            r == WorkerEvent::Distinguished ==> {
                &&& spec_is_distinguished(final(self).state@, final(self).hash_diff@)
                &&& spec_stepped(final(self).state@, *old(compute))
                &&& final(compute).spec_nonce() == final(self).state@.nonce % U256::modulus()
            },
            r == WorkerEvent::Distinguished && final(self).restarts == old(self).restarts ==> {
                let first = spec_first_distinguished(
                    old(self).state@,
                    *old(compute),
                    old(self).hash_diff@,
                    0,
                    1,
                    old(self).spec_steps_left(),
                );
                &&& first.is_some()
                &&& final(self).state@ == spec_walk(old(self).state@, *old(compute), first->0)
                &&& final(self).steps@ + 1 == old(self).steps@ + first->0
                &&& final(self).counter == spec_counter(
                    old(self).grain_size,
                    old(self).counter as nat,
                    (first->0 - 1) as nat,
                )
            },
            spec_first_distinguished(
                old(self).state@,
                *old(compute),
                old(self).hash_diff@,
                0,
                1,
                old(self).spec_steps_left(),
            ).is_some() && old(self).spec_looks_ahead(*old(compute)) == 0 ==> r
                == WorkerEvent::Distinguished && final(self).restarts == old(self).restarts,
            spec_first_distinguished(
                old(self).state@,
                *old(compute),
                old(self).hash_diff@,
                0,
                1,
                old(self).spec_steps_left(),
            ).is_none() && old(self).restarts == MAX_TRY ==> r == WorkerEvent::Finished,
    {
        let mut signal: Option<&AtomicBool> = Some(found);
        self.walk_on(compute, &mut signal)
    }

    /// Walks as `run` does when the flag that the worker watches comes up
    /// after `calm` looks, or never where `calm` is `None`.
    ///
    /// Where the walk that the worker is on has a distinguished point within
    /// the steps that are left, the worker stops on the first such point if
    /// the flag stays down for the looks before it, and is done if it does
    /// not. With the flag up from the start, the worker counts no more steps
    /// on its walk than its count lacks to the grain.
    pub fn run_until<C: Hasher>(&mut self, compute: &mut C, calm: Option<u64>) -> (r: WorkerEvent)
        requires
            old(self).wf(),
            old(self).on_point(),
        ensures
            final(self).wf(),
            final(self).on_point(),
            final(self).pubkey@ == old(self).pubkey@,
            final(self).grain_size == old(self).grain_size,
            forall|nonce: nat| #[trigger]
                final(compute).spec_hash(nonce) == old(compute).spec_hash(nonce),
            r == WorkerEvent::Distinguished ==> {
                &&& spec_is_distinguished(final(self).state@, final(self).hash_diff@)
                &&& spec_stepped(final(self).state@, *old(compute))
                &&& final(compute).spec_nonce() == final(self).state@.nonce % U256::modulus()
            },
            spec_first_distinguished(
                old(self).state@,
                *old(compute),
                old(self).hash_diff@,
                0,
                1,
                old(self).spec_steps_left(),
            ) matches Some(first) ==> {
                let stays = spec_allows(
                    (Script { calm }).spec_calm(),
                    old(self).spec_looks_ahead(*old(compute)),
                );
                &&& r == WorkerEvent::Distinguished <==> stays
                &&& stays ==> {
                    &&& final(self).restarts == old(self).restarts
                    &&& final(self).state@ == spec_walk(old(self).state@, *old(compute), first)
                    &&& final(self).steps@ + 1 == old(self).steps@ + first
                }
            },
            spec_first_distinguished(
                old(self).state@,
                *old(compute),
                old(self).hash_diff@,
                0,
                1,
                old(self).spec_steps_left(),
            ).is_none() && old(self).restarts == MAX_TRY ==> r == WorkerEvent::Finished,
            calm == Some(0u64) && final(self).restarts == old(self).restarts
                ==> final(self).steps@ + old(self).counter
                    <= old(self).steps@ + old(self).grain_size,
    {
        let mut signal = Script { calm };
        self.walk_on(compute, &mut signal)
    }

    /// The looks at its signal that the worker takes when it takes in what
    /// the shared map holds for its point: one on a collision, none where it
    /// finishes for want of restarts, and otherwise the look of the step, if
    /// the count has reached the grain.
    pub open spec fn spec_settle_looks(&self, in_map: Option<Solution<nat>>) -> nat {
        let same = in_map.is_some() && in_map->0 == self.state@.solution;
        if in_map.is_some() && !same {
            1
        } else if same && self.restarts >= MAX_TRY {
            0
        } else if self.counter >= self.grain_size {
            1
        } else {
            0
        }
    }

    /// Whether `r` is what a worker that was `self`, and is `after`, makes of
    /// what the shared map holds for its point, whatever its signal tells it.
    pub open spec fn spec_settles(
        &self,
        after: ParallelWorker,
        in_map: Option<Solution<nat>>,
        r: Resolution,
    ) -> bool {
        match r {
            Resolution::Announce { solutions, nonce } => {
                &&& in_map.is_some()
                &&& solutions.0@ == self.state@.solution
                &&& solutions.1@ == in_map->0
                &&& solutions.0@ != solutions.1@
                &&& nonce@ == self.state@.nonce
                &&& after.state@ == self.state@
            },
            Resolution::Insert { work, solution } => {
                &&& in_map.is_none()
                &&& work@ == self.state@.work
                &&& solution@ == self.state@.solution
                &&& after.state@ == self.state@
                &&& after.restarts == self.restarts
                &&& after.steps@ == self.steps@ + 1
                &&& after.counter == spec_counter(self.grain_size, self.counter as nat, 1)
            },
            Resolution::Continue => {
                &&& in_map.is_some()
                &&& in_map->0 == self.state@.solution
                &&& self.restarts < MAX_TRY
                &&& after.restarts == self.restarts + 1
                &&& after.steps@ == 1
                &&& after.counter == spec_counter(self.grain_size, self.counter as nat, 1)
            },
            Resolution::Finished => true,
        }
    }

    /// Takes in what the shared map holds for the point of the state, with
    /// `signal` for the flag.
    ///
    /// The worker finishes where the map holds its own solution and it has
    /// started over as often as it may. Anywhere else it does what the map
    /// calls for if the signal is known to stay down for the look that it
    /// takes, if any, and finishes if the signal is known to be up.
    fn settle<S: StopSignal>(&mut self, in_map: Option<Solution<BigInt>>, signal: &mut S) -> (r:
        Resolution)
        requires
            old(self).wf(),
            old(self).on_point(),
        ensures
            final(self).wf(),
            final(self).on_point(),
            final(self).pubkey@ == old(self).pubkey@,
            final(self).grain_size == old(self).grain_size,
            final(self).limit@ == old(self).limit@,
            final(signal).spec_scripted() == old(signal).spec_scripted(),
            old(self).spec_settles(*final(self), spec_solution_view(in_map), r),
            ({
                let held = spec_solution_view(in_map);
                let looks = old(self).spec_settle_looks(held);
                let same = held.is_some() && held->0 == old(self).state@.solution;
                &&& same && old(self).restarts >= MAX_TRY ==> r is Finished
                &&& spec_halts(*old(signal), looks) ==> r is Finished
                &&& spec_passes(*old(signal), looks) ==> if held.is_none() {
                    r is Insert
                } else if !same {
                    r is Announce
                } else if old(self).restarts < MAX_TRY {
                    r is Continue
                } else {
                    r is Finished
                }
            }),
    {
        match in_map {
            Some(sol_in_map) => {
                if !self.state.solution.equals(&sol_in_map) {
                    if signal.claim() {
                        return Resolution::Finished;
                    }
                    return Resolution::Announce {
                        solutions: (self.state.solution.clone(), sol_in_map),
                        nonce: self.state.nonce.clone(),
                    };
                }
                if self.restarts >= MAX_TRY {
                    return Resolution::Finished;
                }
                self.restart();
                if self.finish_step(signal) {
                    return Resolution::Finished;
                }
                Resolution::Continue
            },
            None => {
                let work = self.state.work.clone();
                let solution = self.state.solution.clone();
                if self.finish_step(signal) {
                    return Resolution::Finished;
                }
                Resolution::Insert { work, solution }
            },
        }
    }

    /// Takes in what the shared map holds for the point of the state, after
    /// `run` has stopped on a distinguished point.
    ///
    /// A different solution is a collision: the worker raises the flag, and
    /// if it is the one to raise it, it announces its own solution, the
    /// stored one, and the nonce of its state; where the flag was raised
    /// already, it finishes. The same solution makes the worker start over,
    /// or finish where it has started over `MAX_TRY` times. A point that is
    /// not stored is to be stored with the worker's solution. In the last two
    /// cases the step is then ended as any other: the worker looks at the
    /// flag if the count has reached the grain, and finishes if it finds the
    /// flag raised. Where no look is due, the worker is owed its `Insert` or
    /// `Continue`. `resolve_until` tells what is returned for each course of
    /// the flag.
    pub fn resolve(&mut self, in_map: Option<Solution<BigInt>>, found: &AtomicBool) -> (r:
        Resolution)
        requires
            old(self).wf(),
            old(self).on_point(),
        ensures
            final(self).wf(),
            final(self).on_point(),
            final(self).pubkey@ == old(self).pubkey@,
            final(self).grain_size == old(self).grain_size,
            final(self).limit@ == old(self).limit@,
            old(self).spec_settles(*final(self), spec_solution_view(in_map), r),
            in_map.is_none() ==> r is Insert || r is Finished,
            in_map.is_some() && in_map->0@ != old(self).state@.solution ==> r is Announce
                || r is Finished,
            in_map.is_some() && in_map->0@ == old(self).state@.solution ==> if old(self).restarts
                < MAX_TRY {
                r is Continue || r is Finished
            } else {
                r is Finished
            },
            in_map.is_none() && old(self).counter < old(self).grain_size ==> r is Insert,
            in_map.is_some() && in_map->0@ == old(self).state@.solution && old(self).restarts
                < MAX_TRY && old(self).counter < old(self).grain_size ==> r is Continue,
    {
        let mut signal: Option<&AtomicBool> = Some(found);
        self.settle(in_map, &mut signal)
    }

    /// Takes in what the shared map holds as `resolve` does when the flag
    /// that the worker watches comes up after `calm` looks, or never where
    /// `calm` is `None`.
    ///
    /// A different solution is announced exactly when the flag is still
    /// down. A point that is not stored is to be stored, and the worker's own
    /// solution makes it start over while it may, exactly when the look of
    /// the step, if one is due, finds the flag down. In every other case the
    /// worker finishes.
    pub fn resolve_until(&mut self, in_map: Option<Solution<BigInt>>, calm: Option<u64>) -> (r:
        Resolution)
        requires
            old(self).wf(),
            old(self).on_point(),
        ensures
            final(self).wf(),
            final(self).on_point(),
            final(self).pubkey@ == old(self).pubkey@,
            final(self).grain_size == old(self).grain_size,
            final(self).limit@ == old(self).limit@,
            old(self).spec_settles(*final(self), spec_solution_view(in_map), r),
            ({
                let held = spec_solution_view(in_map);
                let stays = spec_allows(
                    (Script { calm }).spec_calm(),
                    old(self).spec_settle_looks(held),
                );
                let same = held.is_some() && held->0 == old(self).state@.solution;
                &&& r is Insert <==> held.is_none() && stays
                &&& r is Announce <==> held.is_some() && !same && stays
                &&& r is Continue <==> same && old(self).restarts < MAX_TRY && stays
            }),
    {
        let mut signal = Script { calm };
        self.settle(in_map, &mut signal)
    }
}

/// The numbers of the solution that the shared map holds, where it holds one.
pub open spec fn spec_solution_view(in_map: Option<Solution<BigInt>>) -> Option<Solution<nat>> {
    match in_map {
        Some(solution) => Some(solution@),
        None => None,
    }
}

/// Whether a worker that was `first` and is `now`, with a signal that was
/// `calm` and is `signal`, is `taken` steps into the walk that it was on, none
/// of them onto a distinguished point: state, steps and count are those of
/// the walk, and a scripted signal has stayed down for the looks so far.
pub open spec fn spec_on_track<C: Hasher, S: StopSignal>(
    first: ParallelWorker,
    now: ParallelWorker,
    hasher: C,
    calm: S,
    signal: S,
    origin: StateView<nat>,
    taken: nat,
) -> bool {
    let left = first.spec_steps_left();
    let looks = spec_looks(first.grain_size, first.counter as nat, taken);
    &&& origin == first.state@
    &&& now.steps@ == first.steps@ + taken
    &&& now.limit@ == first.limit@
    &&& now.hash_diff@ == first.hash_diff@
    &&& spec_first_distinguished(first.state@, hasher, first.hash_diff@, 0, 1, left)
        == spec_first_distinguished(first.state@, hasher, first.hash_diff@, 0, taken + 1, left)
    &&& now.counter == spec_counter(first.grain_size, first.counter as nat, taken)
    &&& calm.spec_scripted() ==> spec_allows(calm.spec_calm(), looks) && signal.spec_calm()
        == spec_after_looks(calm.spec_calm(), looks)
    &&& calm.spec_scripted() && calm.spec_calm() == Some(0nat) ==> first.counter + taken
        <= first.grain_size
}

/// A step that does not reach a distinguished point keeps a worker on track
/// if its signal stays down. If the signal comes up, it was not known to
/// stay down until the first distinguished point of the walk, and a scripted
/// signal was known to come up by then.
pub proof fn lemma_step_on_track<C: Hasher, S: StopSignal>(
    first: ParallelWorker,
    before: ParallelWorker,
    after: ParallelWorker,
    hasher: C,
    calm: S,
    signal_before: S,
    signal_after: S,
    taken: nat,
    stop: bool,
)
    requires
        taken >= 1,
        first.counter <= first.grain_size,
        before.grain_size == first.grain_size,
        after.grain_size == first.grain_size,
        before.limit@ == first.limit@,
        before.hash_diff@ == first.hash_diff@,
        before.steps@ + 1 == first.steps@ + taken,
        before.steps@ < before.limit@,
        before.counter == spec_counter(first.grain_size, first.counter as nat, (taken - 1) as nat),
        spec_first_distinguished(
            first.state@,
            hasher,
            first.hash_diff@,
            0,
            1,
            first.spec_steps_left(),
        ) == spec_first_distinguished(
            first.state@,
            hasher,
            first.hash_diff@,
            0,
            taken,
            first.spec_steps_left(),
        ),
        !spec_is_distinguished(spec_walk(first.state@, hasher, taken), first.hash_diff@),
        calm.spec_scripted() == signal_before.spec_scripted(),
        calm.spec_scripted() ==> spec_allows(
            calm.spec_calm(),
            spec_looks(first.grain_size, first.counter as nat, (taken - 1) as nat),
        ) && signal_before.spec_calm() == spec_after_looks(
            calm.spec_calm(),
            spec_looks(first.grain_size, first.counter as nat, (taken - 1) as nat),
        ),
        // the end of the step
        after.limit@ == before.limit@,
        after.hash_diff@ == before.hash_diff@,
        before.counter < before.grain_size ==> !stop && signal_after.spec_calm()
            == signal_before.spec_calm(),
        before.counter >= before.grain_size && signal_before.spec_scripted() ==> stop == (
        signal_before.spec_calm() == Some(0nat)) && signal_after.spec_calm() == spec_after_look(
            signal_before.spec_calm(),
        ),
        !stop ==> after.steps@ == before.steps@ + 1 && after.counter == spec_counter(
            before.grain_size,
            before.counter as nat,
            1,
        ),
    ensures
        !stop ==> spec_on_track(first, after, hasher, calm, signal_after, first.state@, taken),
        stop ==> {
            let found = spec_first_distinguished(
                first.state@,
                hasher,
                first.hash_diff@,
                0,
                1,
                first.spec_steps_left(),
            );
            found.is_some() ==> {
                &&& !spec_passes(calm, first.spec_looks_ahead(hasher))
                &&& calm.spec_scripted() ==> spec_halts(calm, first.spec_looks_ahead(hasher))
            }
        },
{
    let grain = first.grain_size;
    let c0 = first.counter as nat;
    let left = first.spec_steps_left();
    let found = spec_first_distinguished(first.state@, hasher, first.hash_diff@, 0, 1, left);
    reveal_with_fuel(spec_counter, 2);
    assert(spec_counter(grain, c0, taken) == spec_counter(
        grain,
        spec_counter(grain, c0, (taken - 1) as nat),
        1,
    ));
    assert(taken <= left);
    if !stop && calm.spec_scripted() && calm.spec_calm() == Some(0nat) {
        lemma_rounds_without_look(grain, c0, taken);
    }
    if stop && found.is_some() {
        // the point lies behind this step, and this step has taken a look
        lemma_first_distinguished_bounds(
            first.state@,
            hasher,
            first.hash_diff@,
            0,
            taken + 1,
            left,
        );
        lemma_looks_grow(grain, c0, taken, (found->0 - 1) as nat);
    }
}

} // verus!
