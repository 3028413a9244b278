use std::sync::atomic::AtomicBool;

use trex_pow::algorithm::{solve_dist_from, solve_dist_until, solve_from};
use trex_pow::bigint::BigInt;
use trex_pow::capsule::Seal as CapsuleSeal;
use trex_pow::elgamal::PublicKey;
use trex_pow::flag::{is_raised, lower, raise, told_to_stop, Script, StopSignal};
use trex_pow::generic::State;
use trex_pow::genesis::genesis_seal;
use trex_pow::keychain::RawKeySeeds;
use trex_pow::miner::{select_puzzle, GRAIN_SIZE};
use trex_pow::parallel::{ParallelWorker, WorkerEvent};
use trex_pow::seal::Seal;
use trex_pow::uint::{H256, U256};
use trex_pow::utils::bigint_u256;
use trex_pow::validation::{verify_seal, Compute};

fn big(value: u128) -> BigInt {
    BigInt::from_u128(value)
}

fn key(p: u128, g: u128, h: u128, bit_length: u32) -> PublicKey {
    PublicKey { p: big(p), g: big(g), h: big(h), bit_length }
}

fn key_24() -> PublicKey {
    key(12565139, 1053387, 2353147, 24)
}

fn key_34() -> PublicKey {
    key(9996203027, 5270230762, 9371244540, 34)
}

fn header(difficulty: u128) -> Compute {
    Compute { difficulty, pre_hash: H256 { bytes: [1u8; 32] }, nonce: U256::one() }
}

fn one_seeds() -> RawKeySeeds {
    genesis_seal(48).seeds
}

/// The first seed from 1 on whose walk over the small key ends in a
/// collision.
fn lucky_seed(difficulty: u128) -> u128 {
    let mut seed = 1u128;
    loop {
        assert!(seed <= 11, "no collision within ten retries");
        let start = State::<BigInt>::from_pub_key(key_24(), big(seed));
        if solve_from(start, &mut header(difficulty)).is_some() {
            return seed;
        }
        seed += 1;
    }
}

#[test]
fn flag_is_raised_and_lowered() {
    let flag = AtomicBool::new(false);
    assert!(!is_raised(&flag));
    assert!(!told_to_stop(Some(&flag)));
    raise(&flag);
    assert!(is_raised(&flag));
    assert!(told_to_stop(Some(&flag)));
    assert!(!told_to_stop(None));
    lower(&flag);
    assert!(!is_raised(&flag));
    assert!(!told_to_stop(Some(&flag)));
}

#[test]
fn scripted_signal_comes_up_after_its_calm_looks() {
    let mut signal = Script { calm: Some(2) };
    assert!(!signal.look());
    assert_eq!(signal, Script { calm: Some(1) });
    assert!(!signal.look());
    assert!(signal.look());
    assert!(signal.look());
    assert_eq!(signal, Script { calm: Some(0) });
    let mut never = Script { calm: None };
    for _ in 0..5 {
        assert!(!never.look());
    }
    assert_eq!(never, Script { calm: None });
}

#[test]
fn flag_as_a_signal_tells_what_the_flag_holds() {
    let flag = AtomicBool::new(false);
    let mut signal: Option<&AtomicBool> = Some(&flag);
    assert!(!signal.look());
    raise(&flag);
    assert!(signal.look());
    let mut none: Option<&AtomicBool> = None;
    assert!(!none.look());
}

#[test]
fn search_without_a_signal_is_the_single_search() {
    for seed in 1..6u128 {
        let start = State::<BigInt>::from_pub_key(key_24(), big(seed));
        let mut one = header(24);
        let mut two = header(24);
        let single = solve_from(start.clone(), &mut one);
        let scripted = solve_dist_until(start, &mut two, 100, None);
        assert_eq!(single, scripted);
        assert_eq!(one, two);
    }
}

#[test]
fn search_takes_one_look_on_the_point_at_least() {
    let seed = lucky_seed(24);
    let start = State::<BigInt>::from_pub_key(key_24(), big(seed));
    let single = solve_from(start.clone(), &mut header(24));
    assert!(single.is_some());
    // a grain that no walk of this key fills: the only look is the last
    assert_eq!(solve_dist_until(start.clone(), &mut header(24), u32::MAX, Some(0)), None);
    assert_eq!(solve_dist_until(start.clone(), &mut header(24), u32::MAX, Some(1)), single);
    // a look in every round
    assert_eq!(solve_dist_until(start.clone(), &mut header(24), 0, Some(0)), None);
    assert_eq!(solve_dist_until(start.clone(), &mut header(24), 0, Some(1)), None);
    assert_eq!(solve_dist_until(start, &mut header(24), 0, Some(u64::MAX)), single);
}

#[test]
fn search_with_a_flag_runs_as_scripted() {
    let seed = lucky_seed(24);
    let start = State::<BigInt>::from_pub_key(key_24(), big(seed));
    let down = AtomicBool::new(false);
    let up = AtomicBool::new(true);
    assert_eq!(
        solve_dist_from(start.clone(), &mut header(24), 7, &down),
        solve_dist_until(start.clone(), &mut header(24), 7, None)
    );
    assert!(is_raised(&down));
    assert_eq!(
        solve_dist_from(start.clone(), &mut header(24), 7, &up),
        solve_dist_until(start, &mut header(24), 7, Some(0))
    );
}

#[test]
fn worker_looks_once_the_grain_is_full() {
    let found = AtomicBool::new(false);
    let mut scout = ParallelWorker::new(key_34(), big(1), 10000);
    assert_eq!(scout.run(&mut header(34), &found), WorkerEvent::Distinguished);
    assert_eq!(scout.restarts, 0);
    let before = scout.steps.to_u128().unwrap();
    assert!(before >= 2 && before < 10000);
    assert_eq!(u128::from(scout.counter), before);
    let first = before + 1;

    // the point comes before the first look: the signal does not matter
    let grain = (first - 1) as u32;
    let mut worker = ParallelWorker::new(key_34(), big(1), grain);
    assert_eq!(worker.run_until(&mut header(34), Some(0)), WorkerEvent::Distinguished);
    assert_eq!(worker.state.solution, scout.state.solution);
    assert_eq!(worker.steps, scout.steps);
    let raised = AtomicBool::new(true);
    let mut worker = ParallelWorker::new(key_34(), big(1), grain);
    assert_eq!(worker.run(&mut header(34), &raised), WorkerEvent::Distinguished);
    assert_eq!(worker.state.solution, scout.state.solution);

    // one look before the point
    let grain = (first - 2) as u32;
    let mut worker = ParallelWorker::new(key_34(), big(1), grain);
    assert_eq!(worker.run_until(&mut header(34), Some(0)), WorkerEvent::Finished);
    assert_eq!(worker.steps, big(u128::from(grain)));
    let mut worker = ParallelWorker::new(key_34(), big(1), grain);
    assert_eq!(worker.run_until(&mut header(34), Some(1)), WorkerEvent::Distinguished);
    assert_eq!(worker.state.solution, scout.state.solution);
    assert_eq!(worker.counter, 1);
    let mut worker = ParallelWorker::new(key_34(), big(1), grain);
    assert_eq!(worker.run(&mut header(34), &raised), WorkerEvent::Finished);

    // a look after every step
    let mut worker = ParallelWorker::new(key_34(), big(1), 0);
    assert_eq!(worker.run_until(&mut header(34), Some(0)), WorkerEvent::Finished);
    assert_eq!(worker.steps, big(0));
    let mut worker = ParallelWorker::new(key_34(), big(1), 0);
    assert_eq!(worker.run_until(&mut header(34), None), WorkerEvent::Distinguished);
    assert_eq!(worker.state.solution, scout.state.solution);
}

#[test]
fn mining_with_a_flag_runs_as_scripted() {
    let seed = lucky_seed(48);
    let start = State::<BigInt>::from_pub_key(key_24(), big(seed));
    let down = AtomicBool::new(false);
    let mut one = header(48);
    let mut two = header(48);
    let mined = Seal::try_mining_from(start.clone(), &mut one, one_seeds(), &down);
    let scripted = Seal::try_mining_until(start.clone(), &mut two, one_seeds(), None);
    assert!(mined.is_some());
    assert_eq!(mined, scripted);
    assert_eq!(one, two);
    let seal = mined.unwrap();
    assert_eq!(seal.nonce, one.nonce);
    assert_eq!(seal.pubkey, key_24().to_raw());
    assert!(verify_seal(&H256 { bytes: [1u8; 32] }, &seal.encode(), 48));
    assert!(GRAIN_SIZE > 0);
    assert_eq!(Seal::try_mining_until(start.clone(), &mut header(48), one_seeds(), Some(0)), None);
    let up = AtomicBool::new(true);
    assert_eq!(Seal::try_mining_from(start, &mut header(48), one_seeds(), &up), None);
}

#[test]
fn puzzle_is_a_key_with_a_walk_and_distinguished_points() {
    let mut keychain: Vec<PublicKey> = Vec::new();
    keychain.push(key_24());
    keychain.push(key(2, 1, 1, 24));
    keychain.push(key(12565139, 1053387, 2353147, 17));
    keychain.push(key(12565139, 1053387, 2353147, 528));
    keychain.push(key(7, 2, 4, 18));
    keychain.push(key(3, 1, 1, 527));
    assert_eq!(select_puzzle(&keychain, 48), Some(key_24()));
    assert_eq!(select_puzzle(&keychain, 49), None);
    assert_eq!(select_puzzle(&keychain, 50), None);
    assert_eq!(select_puzzle(&keychain, 51), None);
    assert_eq!(select_puzzle(&keychain, 52), Some(key(7, 2, 4, 18)));
    assert_eq!(select_puzzle(&keychain, 53), Some(key(3, 1, 1, 527)));
    assert_eq!(select_puzzle(&keychain, 54), None);
    assert_eq!(select_puzzle(&keychain, 47), None);
    assert_eq!(select_puzzle(&Vec::new(), 48), None);
}

#[test]
fn capsule_mining_draws_its_walk_from_the_seed() {
    let mut seed = 1u128;
    loop {
        assert!(seed <= 11, "no seal within ten retries");
        let number = bigint_u256(&big(seed));
        let mut one = header(24);
        let mut two = header(24);
        let drawn = CapsuleSeal::try_cpu_mining(&mut one, number, key_24());
        let start = State::<BigInt>::from_pub_key(key_24(), big(seed));
        let walked = CapsuleSeal::try_mining_from(start, &mut two);
        assert_eq!(drawn, walked);
        if let Some(seal) = drawn {
            assert_eq!(seal.difficulty, 24);
            assert_eq!(seal.nonce, one.nonce);
            return;
        }
        seed += 1;
    }
}
