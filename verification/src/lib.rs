//! Proof of work by discrete logarithm.
//!
//! The puzzle of a block is an ElGamal public key. Miners search for its
//! private exponent with Pollard's rho method, on a walk that is driven by the
//! hash of the block; the two solutions that meet on the walk seal the block
//! and give the exponent away. This library holds the walk and its searches,
//! the seal with its encoding and its verification, the recovery of the
//! private key, the seeds that lead from the keys of one block to those of
//! the next, and the controller that paces the blocks by moving the
//! difficulty.
pub mod algorithm;
pub mod author;
pub mod bigint;
pub mod capsule;
pub mod constants;
pub mod difficulty;
pub mod digits;
pub mod elgamal;
pub mod flag;
pub mod generic;
pub mod genesis;
pub mod hash;
pub mod invariants;
pub mod keychain;
pub mod miner;
pub mod mining;
pub mod parallel;
pub mod primes;
pub mod recovery;
pub mod seal;
pub mod uint;
pub mod utils;
pub mod validation;
pub mod wire;
