use trex_pow::constants::{
    BLOCK_TIME_MILLISEC, BLOCK_TIME_SEC, CLAMP_FACTOR, DIFFICULTY_ADJUST_WINDOW, INIT_DIFFICULTY,
    MAX_DIFFICULTY, MIN_DIFFICULTY,
};
use trex_pow::difficulty::{clamp, DifficultyAndTimestamp, Pallet, PastDifficultiesEmpty};

/// Feeds a window of blocks that are `gap` milliseconds apart.
fn after_window(initial: u128, gap: u128) -> Pallet {
    let mut pallet = Pallet::new(initial, BLOCK_TIME_MILLISEC as u128);
    for block in 0..DIFFICULTY_ADJUST_WINDOW as u128 {
        assert_eq!(pallet.current_height as u128, block);
        assert_eq!(pallet.difficulty(), initial);
        pallet.on_timestamp_set(1_000_000 + block * gap);
    }
    assert_eq!(pallet.current_height, 0);
    pallet
}

#[test]
fn retarget_up() {
    let pallet = after_window(INIT_DIFFICULTY, BLOCK_TIME_MILLISEC as u128 / 4);
    assert_eq!(pallet.difficulty(), 57);
    assert_eq!(pallet.get_avg_blocktime(), (59 * 15) / 60);
}

#[test]
fn retarget_down() {
    let pallet = after_window(INIT_DIFFICULTY, 4 * BLOCK_TIME_MILLISEC as u128);
    assert_eq!(pallet.difficulty(), 55);
    assert_eq!(pallet.get_avg_blocktime(), (59 * 240) / 60);
}

#[test]
fn retarget_keeps_the_difficulty_on_target() {
    let pallet = after_window(INIT_DIFFICULTY, BLOCK_TIME_MILLISEC as u128);
    assert_eq!(pallet.difficulty(), 56);
    assert_eq!(pallet.get_avg_blocktime(), 59);
}

#[test]
fn identical_timestamps_raise_by_one_step_up_to_the_maximum() {
    assert_eq!(after_window(INIT_DIFFICULTY, 0).difficulty(), INIT_DIFFICULTY + CLAMP_FACTOR);
    assert_eq!(after_window(MAX_DIFFICULTY - 1, 0).difficulty(), MAX_DIFFICULTY);
    assert_eq!(after_window(MAX_DIFFICULTY, 0).difficulty(), MAX_DIFFICULTY);
    assert_eq!(after_window(u128::MAX, 0).difficulty(), MAX_DIFFICULTY);
    assert_eq!(after_window(0, 0).difficulty(), MIN_DIFFICULTY);
}

#[test]
fn widest_timestamps_lower_by_one_step_down_to_the_minimum() {
    let gap = u128::MAX / 64;
    assert_eq!(after_window(INIT_DIFFICULTY, gap).difficulty(), INIT_DIFFICULTY - CLAMP_FACTOR);
    assert_eq!(after_window(MIN_DIFFICULTY + 1, gap).difficulty(), MIN_DIFFICULTY);
    assert_eq!(after_window(MIN_DIFFICULTY, gap).difficulty(), MIN_DIFFICULTY);
    assert_eq!(after_window(0, gap).difficulty(), MIN_DIFFICULTY);
    assert_eq!(after_window(1000, gap).difficulty(), MAX_DIFFICULTY);
}

#[test]
fn timestamps_that_run_backwards_count_as_no_time() {
    let mut pallet = Pallet::new(INIT_DIFFICULTY, BLOCK_TIME_MILLISEC as u128);
    for block in 0..DIFFICULTY_ADJUST_WINDOW as u128 {
        pallet.on_timestamp_set(10_000_000 - block * 60_000);
    }
    assert_eq!(pallet.get_avg_blocktime(), 0);
    assert_eq!(pallet.difficulty(), 57);
}

#[test]
fn window_fills_slot_by_slot_and_starts_over() {
    let mut pallet = Pallet::new(60, BLOCK_TIME_MILLISEC as u128);
    assert_eq!(pallet.past_difficulties_and_timestamps, PastDifficultiesEmpty());
    pallet.on_timestamp_set(5000);
    assert_eq!(pallet.current_height, 1);
    assert_eq!(
        pallet.past_difficulties_and_timestamps[0],
        Some(DifficultyAndTimestamp { difficulty: 60, timestamp: 5000 })
    );
    assert_eq!(pallet.past_difficulties_and_timestamps[1], None);
    assert_eq!(pallet.difficulty(), 60);
    for block in 1..60u128 {
        pallet.on_timestamp_set(5000 + block * 60_000);
    }
    assert_eq!(pallet.current_height, 0);
    assert_eq!(pallet.difficulty(), 60);
    // the next window overwrites the slots of the last
    pallet.on_timestamp_set(77);
    assert_eq!(
        pallet.past_difficulties_and_timestamps[0],
        Some(DifficultyAndTimestamp { difficulty: 60, timestamp: 77 })
    );
    assert_eq!(
        pallet.past_difficulties_and_timestamps[59],
        Some(DifficultyAndTimestamp { difficulty: 60, timestamp: 5000 + 59 * 60_000 })
    );
}

#[test]
fn missing_blocks_count_as_one_block_time() {
    let mut pallet = Pallet {
        past_difficulties_and_timestamps: PastDifficultiesEmpty(),
        current_height: 59,
        current_difficulty: None,
        target_block_time: BLOCK_TIME_MILLISEC as u128,
    };
    assert_eq!(pallet.difficulty(), INIT_DIFFICULTY);
    assert_eq!(pallet.get_avg_blocktime(), (59 * BLOCK_TIME_SEC as u32) / 60);
    pallet.on_timestamp_set(1);
    assert_eq!(pallet.current_height, 0);
    assert_eq!(pallet.current_difficulty, Some(INIT_DIFFICULTY));
}

#[test]
fn clamp_turns_at_the_fourth_root_of_two() {
    assert_eq!(clamp(3600, 3600), 0);
    assert_eq!(clamp(3600, 885), 1);
    assert_eq!(clamp(3600, 14160), -1);
    // 1189^4 < 2 * 1000^4 < 1190^4
    assert_eq!(clamp(1189, 1000), 0);
    assert_eq!(clamp(1190, 1000), 1);
    assert_eq!(clamp(1000, 1189), 0);
    assert_eq!(clamp(1000, 1190), -1);
    assert_eq!(clamp(0, 0), 0);
    assert_eq!(clamp(1, 0), 1);
    assert_eq!(clamp(0, 1), -1);
    assert_eq!(clamp(u128::MAX, u128::MAX), 0);
    assert_eq!(clamp(u128::MAX, 1), 1);
    assert_eq!(clamp(1, u128::MAX), -1);
    assert_eq!(clamp(2, 1), 1);
    assert_eq!(clamp(1, 1), 0);
}
