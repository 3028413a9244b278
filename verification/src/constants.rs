use vstd::prelude::*;

verus! {

/// Mining difficulty: the bit length of the puzzle's modulus.
pub type Difficulty = u128;

/// Block interval, in seconds, that the retarget aims for.
pub const BLOCK_TIME_SEC: usize = 60;

/// Block interval in milliseconds.
pub const BLOCK_TIME_MILLISEC: usize = 60000;

/// Number of blocks in one retarget window.
pub const DIFFICULTY_ADJUST_WINDOW: usize = 60;

/// Largest step by which one retarget may move the difficulty.
pub const CLAMP_FACTOR: u128 = 1;

/// Smallest difficulty a retarget may reach.
pub const MIN_DIFFICULTY: u128 = 48;

/// Difficulty of the first block.
pub const INIT_DIFFICULTY: u128 = 56;

/// Largest difficulty a retarget may reach.
pub const MAX_DIFFICULTY: u128 = 224;

/// Value of one coin in its smallest unit.
pub const DOLLARS: u128 = 1_000_000_000_000;

/// Value of one thousandth of a cent.
pub const MILLICENTS: u128 = 10_000_000;

/// Storage deposit owed for `items` entries that take `bytes` bytes.
pub open spec fn spec_deposit(items: nat, bytes: nat) -> nat {
    items * 2 * (DOLLARS as nat) + bytes * 10 * (MILLICENTS as nat)
}

/// Storage deposit owed for `items` entries that take `bytes` bytes.
pub fn deposit(items: u32, bytes: u32) -> (r: u128)
    ensures
        r == spec_deposit(items as nat, bytes as nat),
{
    let per_item: u128 = 2 * DOLLARS;
    let per_byte: u128 = 10 * MILLICENTS;
    assert((items as u128) * per_item <= 0xffff_ffff * 2_000_000_000_000) by (nonlinear_arith)
        requires
            items <= 0xffff_ffff,
            per_item == 2_000_000_000_000,
    ;
    assert((bytes as u128) * per_byte <= 0xffff_ffff * 100_000_000) by (nonlinear_arith)
        requires
            bytes <= 0xffff_ffff,
            per_byte == 100_000_000,
    ;
    let a: u128 = (items as u128) * per_item;
    let b: u128 = (bytes as u128) * per_byte;
    assert(a + b == spec_deposit(items as nat, bytes as nat)) by (nonlinear_arith)
        requires
            a == items * 2_000_000_000_000,
            b == bytes * 100_000_000,
            DOLLARS == 1_000_000_000_000,
            MILLICENTS == 10_000_000,
    ;
    a + b
}

} // verus!
