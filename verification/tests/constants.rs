use trex_pow::constants::{deposit, DOLLARS, MILLICENTS};

#[test]
fn deposit_counts_items_and_bytes() {
    assert_eq!(deposit(0, 0), 0);
    assert_eq!(deposit(1, 0), 2 * DOLLARS);
    assert_eq!(deposit(0, 1), 10 * MILLICENTS);
    assert_eq!(deposit(3, 7), 6_000_000_000_000 + 700_000_000);
}
