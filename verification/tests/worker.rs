use std::collections::HashMap;
use std::sync::atomic::AtomicBool;

use trex_pow::algorithm::{solve_from, PollardRhoHash};
use trex_pow::bigint::BigInt;
use trex_pow::capsule::pollard_rho_from;
use trex_pow::elgamal::PublicKey;
use trex_pow::flag::{claim_flag, is_raised, Script, StopSignal};
use trex_pow::generic::{Solution, State};
use trex_pow::genesis::genesis_seal;
use trex_pow::miner::seal_announced;
use trex_pow::parallel::{ParallelWorker, Resolution, WorkerEvent, MAX_TRY};
use trex_pow::seal::Seal;
use trex_pow::uint::{H256, U256};
use trex_pow::utils::{gen_bigint_range, seeded_mersenne_twister};
use trex_pow::validation::{verify_seal, Compute, SolutionVerifier};

fn big(value: u128) -> BigInt {
    BigInt::from_u128(value)
}

fn key_24() -> PublicKey {
    PublicKey { p: big(12565139), g: big(1053387), h: big(2353147), bit_length: 24 }
}

fn header(difficulty: u128) -> Compute {
    Compute { difficulty, pre_hash: H256 { bytes: [7u8; 32] }, nonce: U256::one() }
}

/// A worker that stands on the first distinguished point of its walk.
fn worker_on_a_point(grain_size: u32) -> ParallelWorker {
    let found = AtomicBool::new(false);
    let mut worker = ParallelWorker::new(key_24(), big(3), grain_size);
    assert_eq!(worker.run(&mut header(48), &found), WorkerEvent::Distinguished);
    assert_eq!(worker.restarts, 0);
    worker
}

fn another(solution: &Solution<BigInt>) -> Solution<BigInt> {
    Solution { a: solution.a.add(&big(1)), b: solution.b.clone(), n: solution.n.clone() }
}

#[test]
fn flag_is_claimed_once() {
    let flag = AtomicBool::new(false);
    assert!(claim_flag(&flag));
    assert!(is_raised(&flag));
    assert!(!claim_flag(&flag));
    assert!(is_raised(&flag));
    let mut signal: Option<&AtomicBool> = Some(&flag);
    assert!(signal.claim());
    let down = AtomicBool::new(false);
    let mut signal: Option<&AtomicBool> = Some(&down);
    assert!(!signal.claim());
    assert!(is_raised(&down));
    let mut none: Option<&AtomicBool> = None;
    assert!(!none.claim());
    let mut script = Script { calm: Some(1) };
    assert!(!script.claim());
    assert!(script.claim());
}

#[test]
fn first_state_is_the_one_that_the_seed_draws() {
    for seed in [0u128, 1, 2, 77, u128::MAX] {
        let one = State::<BigInt>::from_pub_key(key_24(), big(seed));
        let two = State::<BigInt>::from_pub_key(key_24(), big(seed));
        assert_eq!(one.solution, two.solution);
        assert_eq!(one.work, two.work);
        assert_eq!(one.nonce, big(1));
        assert_eq!(one.solution.n, big((12565139 - 1) / 2));
        assert!(one.solution.a.less_than(&one.solution.n));
        assert!(one.solution.b.less_than(&one.solution.n));
        let verifier = SolutionVerifier { pubkey: key_24() };
        assert_eq!(verifier.derive(&one.solution), one.work);
        // the exponents are the first two draws below the modulus
        let mut rand = seeded_mersenne_twister(&big(seed));
        assert_eq!(gen_bigint_range(&mut rand, &big(0), &one.solution.n), one.solution.a);
        assert_eq!(gen_bigint_range(&mut rand, &big(0), &one.solution.n), one.solution.b);
        let random = Solution::<BigInt>::new_random(big(6282569), &big(seed));
        assert_eq!(random, one.solution);
    }
    let one = State::<BigInt>::from_pub_key(key_24(), big(1));
    let other = State::<BigInt>::from_pub_key(key_24(), big(2));
    assert_ne!(one.solution, other.solution);
    let worker = ParallelWorker::new(key_24(), big(1), 64);
    assert_eq!(worker.state.solution, one.solution);
    assert_eq!(worker.state.work, one.work);
}

#[test]
fn searches_leave_the_nonce_of_the_result() {
    let pubkey = key_24();
    let mut seed = 1u128;
    loop {
        assert!(seed <= 11);
        let mut drawn = header(24);
        let mut walked = header(24);
        let start = State::<BigInt>::from_pub_key(pubkey.clone(), big(seed));
        let by_seed = pubkey.solve(&mut drawn, big(seed));
        let by_state = solve_from(start.clone(), &mut walked);
        assert_eq!(by_seed, by_state);
        if by_seed.is_some() {
            assert_eq!(drawn, walked);
            let mut again = header(24);
            assert!(pollard_rho_from(start, &mut again).is_some());
            return;
        }
        seed += 1;
    }
}

#[test]
fn worker_settles_without_a_look_whatever_the_flag() {
    let raised = AtomicBool::new(true);
    let mut worker = worker_on_a_point(10000);
    assert!(worker.counter < worker.grain_size);
    let steps = worker.steps.clone();
    let work = worker.state.work.clone();
    let own = worker.state.solution.clone();
    match worker.resolve(None, &raised) {
        Resolution::Insert { work: stored, solution } => {
            assert_eq!(stored, work);
            assert_eq!(solution, own);
        }
        other => panic!("no look is due: {:?}", other),
    }
    assert_eq!(worker.steps, steps.add(&big(1)));
    let own = worker.state.solution.clone();
    assert_eq!(worker.resolve(Some(own), &raised), Resolution::Continue);
    assert_eq!(worker.restarts, 1);
    assert_eq!(worker.steps, big(1));
    // a collision always takes a look
    let other = another(&worker.state.solution);
    assert_eq!(worker.resolve(Some(other), &raised), Resolution::Finished);
}

#[test]
fn worker_announces_if_it_raised_the_flag() {
    let found = AtomicBool::new(false);
    let mut first = worker_on_a_point(10000);
    let mut second = worker_on_a_point(10000);
    let other = another(&first.state.solution);
    assert!(matches!(first.resolve(Some(other.clone()), &found), Resolution::Announce { .. }));
    assert!(is_raised(&found));
    assert_eq!(second.resolve(Some(other), &found), Resolution::Finished);
}

#[test]
fn worker_settles_as_scripted() {
    // a collision is announced while the flag is down
    let mut worker = worker_on_a_point(10000);
    let own = worker.state.solution.clone();
    let nonce = worker.state.nonce.clone();
    let other = another(&own);
    assert_eq!(worker.resolve_until(Some(other.clone()), Some(0)), Resolution::Finished);
    for calm in [Some(1), Some(9), None] {
        let mut worker = worker_on_a_point(10000);
        assert_eq!(
            worker.resolve_until(Some(other.clone()), calm),
            Resolution::Announce {
                solutions: (own.clone(), other.clone()),
                nonce: nonce.clone()
            }
        );
    }

    // no look is due: a raised flag changes nothing
    let mut worker = worker_on_a_point(10000);
    let work = worker.state.work.clone();
    assert_eq!(
        worker.resolve_until(None, Some(0)),
        Resolution::Insert { work, solution: own.clone() }
    );
    let mut worker = worker_on_a_point(10000);
    assert_eq!(worker.resolve_until(Some(own.clone()), Some(0)), Resolution::Continue);
    assert_eq!(worker.restarts, 1);

    // a look is due after every step
    let mut worker = worker_on_a_point(0);
    let own = worker.state.solution.clone();
    assert_eq!(worker.resolve_until(None, Some(0)), Resolution::Finished);
    let mut worker = worker_on_a_point(0);
    assert!(matches!(worker.resolve_until(None, Some(1)), Resolution::Insert { .. }));
    let mut worker = worker_on_a_point(0);
    assert_eq!(worker.resolve_until(Some(own.clone()), Some(0)), Resolution::Finished);
    assert_eq!(worker.restarts, 1);
    let mut worker = worker_on_a_point(0);
    assert_eq!(worker.resolve_until(Some(own), None), Resolution::Continue);

    // no restart is left: the worker finishes without a look
    let mut worker = ParallelWorker::new(key_24(), big(1), 0);
    for _ in 0..MAX_TRY {
        let own = worker.state.solution.clone();
        assert_eq!(worker.resolve_until(Some(own), None), Resolution::Continue);
    }
    let own = worker.state.solution.clone();
    assert_eq!(worker.resolve_until(Some(own), None), Resolution::Finished);
    assert_eq!(worker.restarts, MAX_TRY);
}

#[test]
fn announcement_of_a_shared_search_seals_the_block() {
    let pubkey = key_24();
    let found = AtomicBool::new(false);
    let block = header(48);
    let mut shared: HashMap<Vec<u8>, Solution<BigInt>> = HashMap::new();
    let mut workers: Vec<(ParallelWorker, Compute, bool)> = Vec::new();
    for i in 0..4u128 {
        let local_seed = big(1 + (MAX_TRY as u128) * i);
        let worker = ParallelWorker::new(pubkey.clone(), local_seed, 10000);
        workers.push((worker, block, false));
    }
    let mut result = None;
    while result.is_none() && workers.iter().any(|w| !w.2) {
        for (worker, compute, done) in workers.iter_mut() {
            if *done {
                continue;
            }
            match worker.run(compute, &found) {
                WorkerEvent::Finished => *done = true,
                WorkerEvent::Distinguished => {
                    let point = worker.state.work.to_lsb_digits();
                    let in_map = shared.get(&point).cloned();
                    match worker.resolve(in_map, &found) {
                        Resolution::Announce { solutions, nonce } => {
                            result = Some((solutions, nonce));
                            break;
                        }
                        Resolution::Insert { work, solution } => {
                            shared.entry(work.to_lsb_digits()).or_insert(solution);
                        }
                        Resolution::Continue => {}
                        Resolution::Finished => *done = true,
                    }
                }
            }
        }
    }
    let (solutions, nonce) = result.expect("no worker found a collision");
    assert!(is_raised(&found));
    assert_eq!(solutions.0.n, big((12565139 - 1) / 2));
    assert_eq!(solutions.1.n, big((12565139 - 1) / 2));
    let mut compute = block;
    let seeds = genesis_seal(48).seeds;
    let seal = seal_announced(&pubkey, &mut compute, seeds, &solutions, &nonce);
    assert_eq!(compute.nonce, seal.nonce);
    assert_eq!(compute.difficulty, 48);
    assert_eq!(compute.pre_hash, block.pre_hash);
    assert_eq!(seal.difficulty, 48);
    assert_eq!(seal.pubkey, pubkey.to_raw());
    assert_eq!(seal.seeds, seeds);
    assert!(verify_seal(&block.pre_hash, &seal.encode(), 48));
    assert_eq!(Seal::decode(&seal.encode()), Some(seal));
}

#[test]
fn raised_flag_stops_a_worker_within_a_grain() {
    for grain in [0u32, 1, 5, 64] {
        let mut worker = ParallelWorker::new(key_24(), big(9), grain);
        let mut compute = header(48);
        loop {
            let before = worker.steps.clone();
            let counter = worker.counter;
            let restarts = worker.restarts;
            let event = worker.run_until(&mut compute, Some(0));
            if worker.restarts == restarts {
                let counted = worker.steps.checked_sub(&before).expect("steps only grow");
                assert!(!big(u128::from(grain - counter)).less_than(&counted));
            }
            match event {
                WorkerEvent::Finished => break,
                WorkerEvent::Distinguished => {
                    // nothing is announced once the flag is up
                    let other = another(&worker.state.solution);
                    assert_eq!(worker.resolve_until(Some(other), Some(0)), Resolution::Finished);
                    if worker.resolve_until(None, Some(0)) == Resolution::Finished {
                        break;
                    }
                }
            }
        }
    }
}
