use std::collections::HashMap;
use std::sync::atomic::{AtomicBool, Ordering};
use std::sync::Arc;

use trex_pow::algorithm::{is_distinguished, solve_dist_from, solve_from, PollardRhoHash};
use trex_pow::bigint::BigInt;
use trex_pow::capsule::{pollard_rho, pollard_rho_from};
use trex_pow::elgamal::PublicKey;
use trex_pow::generic::{CycleFinding, Mapping, Solution, State, StateHash};
use trex_pow::hash::Blake3Compute;
use trex_pow::parallel::{ParallelWorker, Resolution, WorkerEvent, MAX_TRY};
use trex_pow::uint::{H256, U256};
use trex_pow::validation::{Compute, SolutionVerifier};

fn big(value: u128) -> BigInt {
    BigInt::from_u128(value)
}

fn key(p: u128, g: u128, h: u128, bit_length: u32) -> PublicKey {
    PublicKey { p: big(p), g: big(g), h: big(h), bit_length }
}

/// A 24-bit safe prime with a generator of its large subgroup.
fn key_24() -> PublicKey {
    key(12565139, 1053387, 2353147, 24)
}

/// A 34-bit safe prime with a generator of its large subgroup.
fn key_34() -> PublicKey {
    key(9996203027, 5270230762, 9371244540, 34)
}

fn get_test_header(diff: u32) -> Compute {
    Compute { difficulty: diff as u128, pre_hash: H256 { bytes: [1u8; 32] }, nonce: U256::one() }
}

fn power(base: &BigInt, exponent: &BigInt, modulus: &BigInt) -> BigInt {
    base.pow_mod(exponent, modulus).expect("the modulus is not zero")
}

#[test]
fn lib_try_pollard_rho_with_key_gen() {
    let difficulty = 24u32;
    let pubkey = key_24();
    let mut loop_count = 0;
    let limit = 10;
    let mut seed = big(1);
    let mut compute = get_test_header(difficulty);
    loop {
        if let Some(solutions) = pollard_rho(pubkey.clone(), &mut compute, seed.clone()) {
            let verifier = SolutionVerifier { pubkey };
            if let Some(key) = verifier.key_gen(&solutions) {
                let validate = power(&verifier.pubkey.g, &key.x, &verifier.pubkey.p);
                assert_eq!(&validate, &verifier.pubkey.h, "The found private key is not valid!");
                return;
            } else {
                panic!("Failed to derive private key!")
            }
        } else if loop_count < limit {
            loop_count += 1;
            seed = seed.add(&big(1));
        } else {
            panic!("Cannot find private key!")
        }
    }
}

#[test]
fn try_pollard_rho_with_key_gen() {
    let difficulty = 34;
    let pubkey = key_34();
    let mut loop_count = 0;
    let limit = 10;
    let mut seed = big(1);
    let mut compute = get_test_header(difficulty);
    let puzzle = pubkey.clone();
    loop {
        if let Some(solutions) = puzzle.solve(&mut compute, seed.clone()) {
            let verifier = SolutionVerifier { pubkey };
            if let Some(key) = verifier.key_gen(&solutions) {
                let validate = power(&verifier.pubkey.g, &key.x, &verifier.pubkey.p);
                assert_eq!(&validate, &verifier.pubkey.h, "The found private key is not valid!");
                return;
            } else {
                panic!("Failed to derive private key!")
            }
        } else if loop_count < limit {
            loop_count += 1;
            seed = seed.add(&big(1));
        } else {
            panic!("Cannot find private key!")
        }
    }
}

#[test]
fn small_prime_solve_recovers_the_exponent() {
    // 2^18 = 172 modulo the safe prime 383
    let pubkey = key(383, 2, 172, 9);
    let mut compute = get_test_header(9);
    let mut seed = 1u128;
    loop {
        assert!(seed <= 11, "no collision within ten retries");
        if let Some(solutions) = pollard_rho(pubkey.clone(), &mut compute, big(seed)) {
            assert_ne!(solutions.0, solutions.1);
            assert_eq!(solutions.0.n, big(191));
            let verifier = SolutionVerifier { pubkey: pubkey.clone() };
            assert_eq!(verifier.derive(&solutions.0), verifier.derive(&solutions.1));
            if let Some(found) = verifier.key_gen(&solutions) {
                assert_eq!(power(&big(2), &found.x, &big(383)), big(172));
                assert!(found.x == big(18) || found.x == big(18 + 191));
                assert_eq!(found.p, big(383));
                assert_eq!(found.g, big(2));
                assert_eq!(found.bit_length, 9);
                return;
            }
        }
        seed += 1;
    }
}

#[test]
fn try_pollard_rho_parallel() {
    // four workers take turns; the map they share is held here
    let cpu_n = 4u128;
    let found = AtomicBool::new(false);
    let pubkey = key_34();
    let mut shared: HashMap<Vec<u8>, Solution<BigInt>> = HashMap::new();
    let mut workers: Vec<(ParallelWorker, Compute, bool)> = Vec::new();
    for i in 0..cpu_n {
        let local_seed = big(1 + (MAX_TRY as u128) * i);
        let worker = ParallelWorker::new(pubkey.clone(), local_seed, 10000);
        workers.push((worker, get_test_header(34), false));
    }
    let mut result = None;
    while result.is_none() && workers.iter().any(|w| !w.2) {
        for (worker, compute, done) in workers.iter_mut() {
            if *done {
                continue;
            }
            match worker.run(compute, &found) {
                WorkerEvent::Finished => *done = true,
                WorkerEvent::Distinguished => {
                    let point = worker.state.work.to_lsb_digits();
                    let in_map = shared.get(&point).cloned();
                    match worker.resolve(in_map, &found) {
                        Resolution::Announce { solutions, nonce } => {
                            result = Some((solutions, nonce));
                            break;
                        }
                        Resolution::Insert { work, solution } => {
                            shared.entry(work.to_lsb_digits()).or_insert(solution);
                        }
                        Resolution::Continue => {}
                        Resolution::Finished => *done = true,
                    }
                }
            }
        }
    }
    let (solutions, _) = result.expect("no worker found a collision");
    assert!(found.load(Ordering::Relaxed));
    let verifier = SolutionVerifier { pubkey: pubkey.clone() };
    assert_ne!(solutions.0, solutions.1);
    assert_eq!(verifier.derive(&solutions.0), verifier.derive(&solutions.1));
    if let Some(key) = verifier.key_gen(&solutions) {
        let validate = power(&verifier.pubkey.g, &key.x, &verifier.pubkey.p);
        assert_eq!(&validate, &verifier.pubkey.h, "The found private key is not valid!");
    } else {
        panic!("Failed to derive private key!")
    }
}

#[test]
fn worker_stops_when_the_flag_is_raised() {
    let found = AtomicBool::new(true);
    let mut worker = ParallelWorker::new(key_34(), big(1), 0);
    let mut compute = get_test_header(34);
    let mut events = 0;
    loop {
        match worker.run(&mut compute, &found) {
            WorkerEvent::Finished => break,
            WorkerEvent::Distinguished => {
                // with the flag up, the answer of the map ends the worker too
                assert_eq!(worker.resolve(None, &found), Resolution::Finished);
                break;
            }
        }
        events += 1;
        assert!(events < 2);
    }
    assert_eq!(worker.restarts, 0);
}

#[test]
fn worker_announces_a_different_solution_and_restarts_on_the_same() {
    let found = AtomicBool::new(false);
    let mut worker = ParallelWorker::new(key_24(), big(3), 10000);
    let own = worker.state.solution.clone();
    let nonce = worker.state.nonce.clone();
    let other = Solution { a: own.a.add(&big(1)), b: own.b.clone(), n: own.n.clone() };
    match worker.resolve(Some(other.clone()), &found) {
        Resolution::Announce { solutions, nonce: announced } => {
            assert_eq!(solutions.0, own);
            assert_eq!(solutions.1, other);
            assert_eq!(announced, nonce);
        }
        _ => panic!("a different solution is a collision"),
    }
    assert!(found.load(Ordering::Relaxed));

    let found = AtomicBool::new(false);
    let mut worker = ParallelWorker::new(key_24(), big(3), 10000);
    let own = worker.state.solution.clone();
    assert_eq!(worker.resolve(Some(own), &found), Resolution::Continue);
    assert_eq!(worker.restarts, 1);
    assert_eq!(worker.steps, big(1));
    assert!(!found.load(Ordering::Relaxed));

    let mut worker = ParallelWorker::new(key_24(), big(3), 10000);
    let own = worker.state.solution.clone();
    let work = worker.state.work.clone();
    match worker.resolve(None, &found) {
        Resolution::Insert { work: stored, solution } => {
            assert_eq!(stored, work);
            assert_eq!(solution, own);
        }
        _ => panic!("a new point is stored"),
    }
    assert_eq!(worker.restarts, 0);
}

#[test]
fn worker_gives_up_after_its_last_restart() {
    let found = AtomicBool::new(false);
    let mut worker = ParallelWorker::new(key_24(), big(1), 10000);
    for round in 0..MAX_TRY {
        assert_eq!(worker.restarts, round);
        let own = worker.state.solution.clone();
        assert_eq!(worker.resolve(Some(own), &found), Resolution::Continue);
    }
    assert_eq!(worker.restarts, MAX_TRY);
    let own = worker.state.solution.clone();
    assert_eq!(worker.resolve(Some(own), &found), Resolution::Finished);
}

#[test]
fn first_state_stands_on_its_point() {
    let pubkey = key_24();
    let state = State::<BigInt>::from_pub_key(pubkey.clone(), big(7));
    assert_eq!(state.solution.n, big((12565139 - 1) / 2));
    assert!(state.solution.a.less_than(&state.solution.n));
    assert!(state.solution.b.less_than(&state.solution.n));
    assert_eq!(state.nonce, big(1));
    let verifier = SolutionVerifier { pubkey };
    assert_eq!(verifier.derive(&state.solution), state.work);
}

#[test]
fn same_seed_draws_the_same_first_state() {
    let one = State::<BigInt>::from_pub_key(key_24(), big(5));
    let two = State::<BigInt>::from_pub_key(key_24(), big(5));
    assert_eq!(one.solution, two.solution);
    assert_eq!(one.work, two.work);
}

#[test]
fn every_step_keeps_the_state_on_its_point() {
    let pubkey = key_24();
    let verifier = SolutionVerifier { pubkey: pubkey.clone() };
    let mut compute = get_test_header(24);
    let mut state = State::<BigInt>::from_pub_key(pubkey, big(1));
    for _ in 0..200 {
        let before = state.work.clone();
        state = state.transit(&mut compute).expect("the branch is one of three");
        assert_eq!(verifier.derive(&state.solution), state.work);
        assert_eq!(state.nonce, before);
        assert_eq!(compute.nonce, trex_pow::utils::bigint_u256(&before));
    }
}

#[test]
fn mapping_functions_follow_the_three_branches() {
    // p = 23, g = 5, h = 8
    let state = State::<BigInt> {
        solution: Solution { a: big(0), b: big(0), n: big(11) },
        nonce: big(1),
        work: big(1),
        pubkey: key(23, 5, 8, 5),
    };
    // x = 6: 6 mod 3 == 0
    assert_eq!(state.func_f(&big(6), &big(3)).unwrap(), big(3u128.pow(6) % 23));
    assert_eq!(state.func_g(&big(7), &big(6)).unwrap(), big((7 * 6) % 22));
    assert_eq!(state.func_h(&big(9), &big(6)).unwrap(), big((9 * 6) % 22));
    // x = 7: 7 mod 3 == 1
    assert_eq!(state.func_f(&big(7), &big(3)).unwrap(), big((5u128.pow(7) % 23) * 3 % 23));
    assert_eq!(state.func_g(&big(20), &big(7)).unwrap(), big((20 + 7) % 22));
    assert_eq!(state.func_h(&big(9), &big(7)).unwrap(), big(9));
    // x = 8: 8 mod 3 == 2
    assert_eq!(state.func_f(&big(8), &big(3)).unwrap(), big((8u128.pow(8) % 23) * 3 % 23));
    assert_eq!(state.func_g(&big(20), &big(8)).unwrap(), big(20));
    assert_eq!(state.func_h(&big(20), &big(8)).unwrap(), big((20 + 8) % 22));
}

#[test]
fn hash_diff_follows_the_bit_length() {
    assert_eq!(key(1, 1, 1, 34).hash_diff(), trex_pow::utils::bigint_u256(&big(1 << 9)));
    assert_eq!(
        key(1, 1, 1, 41).hash_diff(),
        trex_pow::utils::bigint_u256(&big((1 << 12) + (1 << 11)))
    );
    assert_eq!(key(1, 1, 1, 18).hash_diff(), trex_pow::utils::bigint_u256(&big(2)));
    assert_eq!(key(1, 1, 1, 19).hash_diff(), trex_pow::utils::bigint_u256(&big(3)));
    assert_eq!(
        key(1, 1, 1, 224).hash_diff(),
        trex_pow::utils::bigint_u256(&big(1u128 << 104))
    );
}

#[test]
fn distinguished_points_are_those_whose_product_fits() {
    let mut top = [0u8; 32];
    top[31] = 0x80;
    let half = U256 { bytes: top };
    let two = trex_pow::utils::bigint_u256(&big(2));
    let one = U256::one();
    assert!(is_distinguished(&half, &one));
    assert!(!is_distinguished(&half, &two));
    assert!(is_distinguished(&U256::max_value(), &one));
    assert!(!is_distinguished(&U256::max_value(), &two));
    assert!(is_distinguished(&U256::zero(), &U256::max_value()));
    let mut below = [0xffu8; 32];
    below[31] = 0x7f;
    assert!(is_distinguished(&U256 { bytes: below }, &two));
}

#[test]
fn state_digest_is_the_hash_of_the_sum() {
    let state = State::<BigInt> {
        solution: Solution { a: big(3), b: big(4), n: big(11) },
        nonce: big(250),
        work: big(5),
        pubkey: key(23, 5, 8, 5),
    };
    // 250 + 5 + 3 + 4 = 262 = 0x0106
    let expected = blake3::hash(&[0x06, 0x01]);
    assert_eq!(state.hash_encode(), U256 { bytes: *expected.as_bytes() });
}

#[test]
fn search_from_one_state_is_repeatable() {
    let start = State::<BigInt>::from_pub_key(key_24(), big(2));
    let mut one = get_test_header(24);
    let mut two = get_test_header(24);
    let first = solve_from(start.clone(), &mut one);
    let second = solve_from(start.clone(), &mut two);
    assert_eq!(first, second);
    assert_eq!(one, two);
    let mut three = get_test_header(24);
    assert_eq!(pollard_rho_from(start.clone(), &mut three), pollard_rho_from(start, &mut one));
}

#[test]
fn raised_flag_ends_a_distributed_search() {
    let start = State::<BigInt>::from_pub_key(key_34(), big(1));
    let mut compute = get_test_header(34);
    let flag = AtomicBool::new(true);
    assert_eq!(solve_dist_from(start, &mut compute, 0, &flag), None);
}

#[test]
fn distributed_search_finds_what_the_single_search_finds() {
    let pubkey = key_24();
    let mut seed = 1u128;
    loop {
        assert!(seed <= 11);
        let start = State::<BigInt>::from_pub_key(pubkey.clone(), big(seed));
        let mut one = get_test_header(24);
        let mut two = get_test_header(24);
        let flag = AtomicBool::new(false);
        let single = solve_from(start.clone(), &mut one);
        let shared = solve_dist_from(start, &mut two, 100, &flag);
        assert_eq!(single, shared);
        assert_eq!(flag.load(Ordering::Relaxed), single.is_some());
        assert_eq!(one, two);
        if single.is_some() {
            return;
        }
        seed += 1;
    }
}

#[test]
fn solve_dist_raises_the_flag_on_success() {
    let pubkey = key_24();
    let mut seed = 1u128;
    loop {
        assert!(seed <= 11);
        let flag = Arc::new(AtomicBool::new(false));
        let mut compute = get_test_header(24);
        if let Some(solutions) = pubkey.solve_dist(&mut compute, big(seed), 1000, flag.clone()) {
            assert!(flag.load(Ordering::Relaxed));
            let verifier = SolutionVerifier { pubkey: pubkey.clone() };
            assert_eq!(verifier.derive(&solutions.0), verifier.derive(&solutions.1));
            return;
        }
        assert!(!flag.load(Ordering::Relaxed));
        seed += 1;
    }
}

#[test]
fn fork_of_a_hasher_hashes_alike() {
    let compute = Blake3Compute {
        difficulty: 48,
        pre_hash: H256 { bytes: [9u8; 32] },
        nonce: U256::one(),
    };
    let copy = trex_pow::generic::Hash::fork(&compute);
    assert_eq!(copy, compute);
    assert_eq!(
        trex_pow::generic::Hash::hash_integer(&copy),
        trex_pow::generic::Hash::hash_integer(&compute)
    );
}

#[test]
fn worker_stops_on_the_first_distinguished_point() {
    let found = AtomicBool::new(false);
    let mut worker = ParallelWorker::new(key_34(), big(1), 10000);
    let mut compute = get_test_header(34);
    let mut state = worker.state.clone();
    let hash_diff = key_34().hash_diff();
    assert_eq!(worker.run(&mut compute, &found), WorkerEvent::Distinguished);
    assert_eq!(worker.restarts, 0);
    // follow the same walk by hand
    let mut by_hand = get_test_header(34);
    let mut steps = 0u128;
    loop {
        state = state.transit(&mut by_hand).unwrap();
        steps += 1;
        if is_distinguished(&state.hash_encode(), &hash_diff) {
            break;
        }
    }
    assert_eq!(worker.state.work, state.work);
    assert_eq!(worker.state.solution, state.solution);
    assert_eq!(worker.steps, big(steps - 1));
    assert_eq!(compute, by_hand);
}

#[test]
fn parallel_cancellation() {
    let grain_size = 64u32;
    let found = AtomicBool::new(false);
    let pubkey = key_34();
    let mut workers: Vec<(ParallelWorker, Compute)> = Vec::new();
    for i in 0..4u128 {
        let local_seed = big(1 + (MAX_TRY as u128) * i);
        let worker = ParallelWorker::new(pubkey.clone(), local_seed, grain_size);
        workers.push((worker, get_test_header(34)));
    }
    // every worker walks to its first distinguished point and stores it
    for (worker, compute) in workers.iter_mut() {
        assert_eq!(worker.run(compute, &found), WorkerEvent::Distinguished);
        assert!(matches!(worker.resolve(None, &found), Resolution::Insert { .. }));
    }
    // the flag is raised from outside: every worker is done within a grain
    found.store(true, Ordering::Relaxed);
    for (worker, compute) in workers.iter_mut() {
        let before = worker.steps.clone();
        let verifier = SolutionVerifier { pubkey: pubkey.clone() };
        loop {
            match worker.run(compute, &found) {
                WorkerEvent::Finished => break,
                WorkerEvent::Distinguished => match worker.resolve(None, &found) {
                    Resolution::Insert { .. } => {}
                    Resolution::Finished => break,
                    other => panic!("no collision without a stored solution: {:?}", other),
                },
            }
        }
        let walked = worker.steps.checked_sub(&before).expect("steps only grow");
        assert!(!big(grain_size as u128 + 1).less_than(&walked));
        assert_eq!(worker.restarts, 0);
        // the state that is left still stands on its point
        assert_eq!(verifier.derive(&worker.state.solution), worker.state.work);
    }
}

#[test]
fn collision_reveals_the_exponent() {
    // key_24 was made with the exponent 4305081, and key_34 with 105524298
    for (pubkey, exponent) in [(key_24(), 4305081u128), (key_34(), 105524298u128)] {
        let n = pubkey.p.checked_sub(&big(1)).unwrap().div(&big(2));
        assert_eq!(power(&pubkey.g, &big(exponent), &pubkey.p), pubkey.h);
        assert_eq!(power(&pubkey.g, &n, &pubkey.p), big(1));
        let mut seed = 1u128;
        loop {
            assert!(seed <= 11);
            let mut compute = get_test_header(pubkey.bit_length);
            if let Some(solutions) = pubkey.solve(&mut compute, big(seed)) {
                let verifier = SolutionVerifier { pubkey: pubkey.clone() };
                let key = verifier.key_gen(&solutions).expect("the collision opens the key");
                assert_eq!(key.x, big(exponent));
                assert_eq!(
                    trex_pow::generic::KeySolver::solve(&solutions),
                    Some(big(exponent))
                );
                break;
            }
            seed += 1;
        }
    }
}

#[test]
fn key_generator_refuses_what_does_not_open_the_key() {
    let pubkey = key(23, 2, 18, 5);
    let verifier = SolutionVerifier { pubkey };
    // 2^3 * 18 == 2^9 modulo 23: the exponent is (9 - 3) / (1 - 0) == 6
    let first = Solution { a: big(3), b: big(1), n: big(11) };
    let second = Solution { a: big(9), b: big(0), n: big(11) };
    assert_eq!(verifier.derive(&first), verifier.derive(&second));
    assert_eq!(verifier.key_gen(&(first.clone(), second.clone())).unwrap().x, big(6));
    // a pair that does not stand for one point gives an exponent that fails
    let wrong = Solution { a: big(8), b: big(0), n: big(11) };
    assert_eq!(verifier.key_gen(&(first.clone(), wrong)), None);
    // the same exponents of h give nothing to solve
    let same = Solution { a: big(5), b: big(1), n: big(11) };
    assert_eq!(verifier.key_gen(&(first.clone(), same)), None);
    // no modulus, no power
    let empty = SolutionVerifier { pubkey: key(0, 2, 18, 5) };
    assert_eq!(empty.key_gen(&(first.clone(), second.clone())), None);
    // a generator of twice the order: 5 has the order 22 modulo 23, and
    // 5^17 == 15; the solver finds 6 == 17 - 11, the generator adds 11
    let full = SolutionVerifier { pubkey: key(23, 5, 15, 5) };
    assert_eq!(power(&big(5), &big(17), &big(23)), big(15));
    // 5^a1 * 15^1 == 5^a2 with a2 == a1 + 17 modulo 22
    let first = Solution { a: big(2), b: big(1), n: big(11) };
    let second = Solution { a: big(19), b: big(0), n: big(11) };
    assert_eq!(full.derive(&first), full.derive(&second));
    assert_eq!(full.key_gen(&(first, second)).unwrap().x, big(17));
}
