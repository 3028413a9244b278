//! The difficulty controller: it watches the time that a window of blocks
//! took, and moves the difficulty by one step towards the target block time.
use crate::bigint::BigInt;
use crate::constants::{
    Difficulty, CLAMP_FACTOR, DIFFICULTY_ADJUST_WINDOW, INIT_DIFFICULTY, MAX_DIFFICULTY,
    MIN_DIFFICULTY,
};
use vstd::prelude::*;

verus! {

/// The difficulty and the time, in milliseconds, at which a block was made.
#[derive(Clone, Copy, Debug, PartialEq, Eq)]
pub struct DifficultyAndTimestamp {
    pub difficulty: Difficulty,
    pub timestamp: u128,
}

/// The blocks of one window, in the order in which they were made.
pub type Difficulties = [Option<DifficultyAndTimestamp>; DIFFICULTY_ADJUST_WINDOW];

/// A window in which no block is recorded yet.
#[allow(non_snake_case)]
pub fn PastDifficultiesEmpty() -> (r: Difficulties)
    ensures
        forall|i: int| 0 <= i < DIFFICULTY_ADJUST_WINDOW ==> r@[i].is_none(),
{
    [None;DIFFICULTY_ADJUST_WINDOW]
}

/// The direction in which the block time asks the difficulty to move: the
/// rounded binary logarithm of the squared ratio of target to measured time,
/// limited to one step either way. It is `1` where the fourth power of the
/// target is at least twice that of the measured time, `-1` where the fourth
/// power of the measured time is at least twice that of the target, and `0`
/// in between and for two zeros.
pub open spec fn spec_clamp(block_time_target: nat, measured_block_time: nat) -> int {
    let t = block_time_target;
    let m = measured_block_time;
    if t > 0 && t * t * t * t >= 2 * (m * m * m * m) {
        1
    } else if m > 0 && m * m * m * m >= 2 * (t * t * t * t) {
        -1
    } else {
        0
    }
}

/// A difficulty, brought into the range from the smallest to the largest.
pub open spec fn spec_bounded(difficulty: int) -> Difficulty {
    if difficulty < MIN_DIFFICULTY {
        MIN_DIFFICULTY
    } else if difficulty > MAX_DIFFICULTY {
        MAX_DIFFICULTY
    } else {
        difficulty as Difficulty
    }
}

/// The difficulty after a window that was meant to take `target_window`
/// seconds and took `elapsed`: one step up or down from `difficulty`, as
/// `spec_clamp` says, and within the bounds. No time at all counts as one
/// second.
pub open spec fn spec_retarget(
    difficulty: Difficulty,
    target_window: nat,
    elapsed: nat,
) -> Difficulty {
    let measured = if elapsed == 0 {
        1
    } else {
        elapsed
    };
    let adjustment = spec_clamp(target_window, measured);
    if adjustment > 0 {
        spec_bounded(difficulty + CLAMP_FACTOR)
    } else if adjustment < 0 {
        spec_bounded(difficulty - CLAMP_FACTOR)
    } else {
        spec_bounded(difficulty as int)
    }
}

/// The seconds between two blocks that follow each other: the difference of
/// their times, never negative, in whole seconds; or `block_time` where one of
/// them is not recorded.
pub open spec fn spec_delta(
    prev: Option<DifficultyAndTimestamp>,
    cur: Option<DifficultyAndTimestamp>,
    block_time: nat,
) -> nat {
    match (prev, cur) {
        (Some(prev), Some(cur)) => if cur.timestamp >= prev.timestamp {
            ((cur.timestamp - prev.timestamp) / 1000) as nat
        } else {
            0
        },
        _ => block_time,
    }
}

/// The seconds that the first `upto + 1` blocks of a window took: the sum of
/// the seconds between each block and the one before it.
pub open spec fn spec_elapsed(
    window: Seq<Option<DifficultyAndTimestamp>>,
    upto: nat,
    block_time: nat,
) -> nat
    decreases upto,
{
    if upto == 0 {
        0
    } else {
        spec_elapsed(window, (upto - 1) as nat, block_time) + spec_delta(
            window[upto - 1],
            window[upto as int],
            block_time,
        )
    }
}

/// A number of seconds, held to what 128 bits can count.
pub open spec fn spec_saturated(seconds: nat) -> nat {
    if seconds > u128::MAX {
        u128::MAX as nat
    } else {
        seconds
    }
}

/// The direction in which the block time asks the difficulty to move.
pub fn clamp(block_time_target: Difficulty, measured_block_time: Difficulty) -> (r: i128)
    ensures
        r == spec_clamp(block_time_target as nat, measured_block_time as nat),
{
    let t = BigInt::from_u128(block_time_target);
    let m = BigInt::from_u128(measured_block_time);
    let two = BigInt::from_u128(2);
    let t4 = t.mul(&t).mul(&t).mul(&t);
    let m4 = m.mul(&m).mul(&m).mul(&m);
    if block_time_target > 0 && !t4.less_than(&two.mul(&m4)) {
        1
    } else if measured_block_time > 0 && !m4.less_than(&two.mul(&t4)) {
        -1
    } else {
        0
    }
}

/// The state of the controller.
#[derive(Clone, Copy, Debug, PartialEq, Eq)]
pub struct Pallet {
    /// The blocks of the window that is being filled.
    pub past_difficulties_and_timestamps: Difficulties,
    /// The place of the next block in the window.
    pub current_height: u32,
    /// The difficulty in force, where one was set.
    pub current_difficulty: Option<Difficulty>,
    /// The block time that the controller aims for, in milliseconds.
    pub target_block_time: u128,
}

impl Pallet {
    /// Whether the place of the next block lies inside the window.
    pub open spec fn wf(&self) -> bool {
        self.current_height < DIFFICULTY_ADJUST_WINDOW
    }

    /// The difficulty in force: the initial one where none was set.
    pub open spec fn spec_difficulty(&self) -> Difficulty {
        match self.current_difficulty {
            Some(difficulty) => difficulty,
            None => INIT_DIFFICULTY,
        }
    }

    /// The target block time in whole seconds.
    pub open spec fn spec_block_time(&self) -> nat {
        (self.target_block_time / 1000) as nat
    }

    /// The seconds that a whole window is meant to take.
    pub open spec fn spec_target_window(&self) -> nat {
        spec_saturated(self.spec_block_time() * DIFFICULTY_ADJUST_WINDOW as nat)
    }

    /// The seconds that the recorded window took, as far as 128 bits count.
    pub open spec fn spec_measured(&self) -> nat {
        spec_saturated(
            spec_elapsed(
                self.past_difficulties_and_timestamps@,
                (DIFFICULTY_ADJUST_WINDOW - 1) as nat,
                self.spec_block_time(),
            ),
        )
    }

    /// A controller with an empty window that aims for `target_block_time`
    /// milliseconds per block and starts from `initial_difficulty`.
    pub fn new(initial_difficulty: Difficulty, target_block_time: u128) -> (r: Pallet)
        ensures
            r.wf(),
            r.current_height == 0,
            r.current_difficulty == Some(initial_difficulty),
            r.target_block_time == target_block_time,
            forall|i: int|
                0 <= i < DIFFICULTY_ADJUST_WINDOW
                    ==> r.past_difficulties_and_timestamps@[i].is_none(),
    {
        Pallet {
            past_difficulties_and_timestamps: PastDifficultiesEmpty(),
            current_height: 0,
            current_difficulty: Some(initial_difficulty),
            target_block_time,
        }
    }

    /// The difficulty in force.
    pub fn difficulty(&self) -> (r: Difficulty)
        ensures
            r == self.spec_difficulty(),
    {
        match self.current_difficulty {
            Some(difficulty) => difficulty,
            None => INIT_DIFFICULTY,
        }
    }

    /// The seconds that the recorded window took.
    fn measure(&self) -> (r: u128)
        ensures
            r == self.spec_measured(),
    {
        let block_time: u128 = self.target_block_time / 1000;
        let mut ts_delta: u128 = 0;
        let mut i: usize = 1;
        let ghost window = self.past_difficulties_and_timestamps@;
        while i < DIFFICULTY_ADJUST_WINDOW
            invariant
                1 <= i <= DIFFICULTY_ADJUST_WINDOW,
                window == self.past_difficulties_and_timestamps@,
                block_time == self.spec_block_time(),
                ts_delta == spec_saturated(
                    spec_elapsed(window, (i - 1) as nat, block_time as nat),
                ),
            decreases DIFFICULTY_ADJUST_WINDOW - i,
        {
            let prev = self.past_difficulties_and_timestamps[i - 1];
            let cur = self.past_difficulties_and_timestamps[i];
            let delta: u128 = match (prev, cur) {
                (Some(prev), Some(cur)) => if cur.timestamp >= prev.timestamp {
                    (cur.timestamp - prev.timestamp) / 1000
                } else {
                    0
                },
                _ => block_time,
            };
            assert(delta == spec_delta(window[i - 1], window[i as int], block_time as nat));
            ts_delta = if ts_delta > u128::MAX - delta {
                u128::MAX
            } else {
                ts_delta + delta
            };
            i = i + 1;
        }
        ts_delta
    }

    /// The average seconds per block over the recorded window, in 32 bits.
    pub fn get_avg_blocktime(&self) -> (r: u32)
        ensures
            r == (self.spec_measured() / DIFFICULTY_ADJUST_WINDOW as nat) % 0x1_0000_0000,
    {
        let ts_delta = self.measure();
        ((ts_delta / DIFFICULTY_ADJUST_WINDOW as u128) % 0x1_0000_0000) as u32
    }

    /// Records a block made at `moment` and, when that block fills the
    /// window, moves the difficulty and starts the window anew.
    ///
    /// The block is recorded at the difficulty in force. With the window full
    /// the new difficulty is `spec_retarget` of the difficulty in force, the
    /// seconds a window is meant to take and the seconds it took; it lies
    /// within the bounds.
    pub fn on_timestamp_set(&mut self, moment: u128)
        requires
            old(self).wf(),
        ensures
            final(self).wf(),
            final(self).target_block_time == old(self).target_block_time,
            final(self).past_difficulties_and_timestamps@ == old(
                self,
            ).past_difficulties_and_timestamps@.update(
                old(self).current_height as int,
                Some(
                    DifficultyAndTimestamp {
                        difficulty: old(self).spec_difficulty(),
                        timestamp: moment,
                    },
                ),
            ),
            old(self).current_height < DIFFICULTY_ADJUST_WINDOW - 1 ==> {
                &&& final(self).current_height == old(self).current_height + 1
                &&& final(self).current_difficulty == old(self).current_difficulty
            },
            old(self).current_height == DIFFICULTY_ADJUST_WINDOW - 1 ==> {
                &&& final(self).current_height == 0
                &&& final(self).current_difficulty == Some(
                    spec_retarget(
                        old(self).spec_difficulty(),
                        old(self).spec_target_window(),
                        final(self).spec_measured(),
                    ),
                )
                &&& MIN_DIFFICULTY <= final(self).spec_difficulty() <= MAX_DIFFICULTY
            },
    {
        let difficulty = self.difficulty();
        let height: usize = self.current_height as usize;
        self.past_difficulties_and_timestamps[height] = Some(
            DifficultyAndTimestamp { timestamp: moment, difficulty },
        );
        if height == DIFFICULTY_ADJUST_WINDOW - 1 {
            let mut ts_delta = self.measure();
            if ts_delta == 0 {
                ts_delta = 1;
            }
            let block_time: u128 = self.target_block_time / 1000;
            let block_time_window: u128 = if block_time > u128::MAX
                / DIFFICULTY_ADJUST_WINDOW as u128 {
                u128::MAX
            } else {
                block_time * DIFFICULTY_ADJUST_WINDOW as u128
            };
            let adj_ts = clamp(block_time_window, ts_delta);
            let moved: u128 = if adj_ts > 0 {
                if difficulty > u128::MAX - CLAMP_FACTOR {
                    u128::MAX
                } else {
                    difficulty + CLAMP_FACTOR
                }
            } else if adj_ts < 0 {
                if difficulty < CLAMP_FACTOR {
                    0
                } else {
                    difficulty - CLAMP_FACTOR
                }
            } else {
                difficulty
            };
            let difficulty_final = if moved < MIN_DIFFICULTY {
                MIN_DIFFICULTY
            } else if moved > MAX_DIFFICULTY {
                MAX_DIFFICULTY
            } else {
                moved
            };
            self.current_height = 0;
            self.current_difficulty = Some(difficulty_final);
        } else {
            self.current_height = self.current_height + 1;
        }
    }
}

/// A window whose blocks all carry one time took no time at all.
pub proof fn lemma_identical_timestamps(
    window: Seq<Option<DifficultyAndTimestamp>>,
    upto: nat,
    block_time: nat,
)
    requires
        upto < window.len(),
        forall|i: int| 0 <= i <= upto ==> (#[trigger] window[i]).is_some(),
        forall|i: int|
            0 <= i <= upto ==> (#[trigger] window[i])->0.timestamp == window[0]->0.timestamp,
    ensures
        spec_elapsed(window, upto, block_time) == 0,
    decreases upto,
{
    if upto > 0 {
        lemma_identical_timestamps(window, (upto - 1) as nat, block_time);
        assert(window[upto - 1].is_some() && window[upto as int].is_some());
        assert(window[upto - 1]->0.timestamp == window[0]->0.timestamp);
        assert(window[upto as int]->0.timestamp == window[0]->0.timestamp);
    }
}

/// After a window that took no more than a second the difficulty is one step
/// higher, and at most the largest difficulty.
pub proof fn lemma_retarget_up(difficulty: Difficulty, target_window: nat, elapsed: nat)
    requires
        target_window >= 2,
        elapsed <= 1,
    ensures
        spec_retarget(difficulty, target_window, elapsed) == spec_bounded(
            difficulty + CLAMP_FACTOR,
        ),
        MIN_DIFFICULTY <= difficulty < MAX_DIFFICULTY ==> spec_retarget(
            difficulty,
            target_window,
            elapsed,
        ) == difficulty + CLAMP_FACTOR,
        difficulty >= MAX_DIFFICULTY ==> spec_retarget(difficulty, target_window, elapsed)
            == MAX_DIFFICULTY,
{
    let t = target_window;
    let m: nat = 1;
    assert(t * t * t * t >= 2) by (nonlinear_arith)
        requires
            t >= 2,
    ;
    assert(m * m * m * m == 1) by (nonlinear_arith)
        requires
            m == 1,
    ;
}

/// After a window that took at least twice as long as it was meant to the
/// difficulty is one step lower, and at least the smallest difficulty.
pub proof fn lemma_retarget_down(difficulty: Difficulty, target_window: nat, elapsed: nat)
    requires
        target_window >= 1,
        elapsed >= 2 * target_window,
    ensures
        spec_retarget(difficulty, target_window, elapsed) == spec_bounded(
            difficulty - CLAMP_FACTOR,
        ),
        MIN_DIFFICULTY < difficulty <= MAX_DIFFICULTY ==> spec_retarget(
            difficulty,
            target_window,
            elapsed,
        ) == difficulty - CLAMP_FACTOR,
        difficulty <= MIN_DIFFICULTY ==> spec_retarget(difficulty, target_window, elapsed)
            == MIN_DIFFICULTY,
{
    let t = target_window;
    let m = elapsed;
    assert(m * m * m * m >= 16 * (t * t * t * t)) by (nonlinear_arith)
        requires
            m >= 2 * t,
            t >= 1,
    ;
    assert(t * t * t * t >= 1) by (nonlinear_arith)
        requires
            t >= 1,
    ;
}

/// Every difficulty that a retarget gives lies within the bounds.
pub proof fn lemma_retarget_bounded(difficulty: Difficulty, target_window: nat, elapsed: nat)
    ensures
        MIN_DIFFICULTY <= spec_retarget(difficulty, target_window, elapsed) <= MAX_DIFFICULTY,
{
}

} // verus!
