use trex_pow::bigint::BigInt;
use trex_pow::mining::{generate_mining_seed, next_mining_seed};
use trex_pow::uint::{H256, U256};
use trex_pow::utils::{
    bigint_h256, bigint_u128, bigint_u256, eqs_solvers, gen_bigint_range, get_local_seed,
    seeded_mersenne_twister, u128_bigint, u256_bigint, Twister,
};

fn big(value: u128) -> BigInt {
    BigInt::from_u128(value)
}

/// `2^bits`.
fn two_to(bits: usize) -> BigInt {
    let mut digits = vec![0u8; bits / 8];
    digits.push(1 << (bits % 8));
    BigInt::from_lsb_digits(digits)
}

#[test]
fn digits_are_least_significant_first() {
    assert_eq!(big(0).to_lsb_digits(), Vec::<u8>::new());
    assert_eq!(big(1).to_lsb_digits(), vec![1]);
    assert_eq!(big(0x0102).to_lsb_digits(), vec![2, 1]);
    assert_eq!(big(u128::MAX).to_lsb_digits(), vec![0xff; 16]);
    assert_eq!(BigInt::from_lsb_digits(vec![2, 1, 0, 0]).to_lsb_digits(), vec![2, 1]);
    assert_eq!(BigInt::from_lsb_digits(vec![0, 0, 0]).to_lsb_digits(), Vec::<u8>::new());
    assert_eq!(BigInt::from_lsb_digits(vec![2, 1, 0, 0]), big(0x0102));
    assert_eq!(BigInt::zero(), BigInt::from_lsb_digits(vec![0]));
    assert!(BigInt::zero().is_zero());
    assert!(BigInt::from_lsb_digits(vec![0, 0]).is_zero());
    assert!(!big(256).is_zero());
    assert_eq!(big(77).clone(), big(77));
}

#[test]
fn arithmetic_on_big_integers() {
    let a = big(u128::MAX);
    let b = big(12345);
    assert_eq!(a.add(&big(1)), two_to(128));
    assert_eq!(b.add(&big(55)), big(12400));
    assert_eq!(two_to(128).checked_sub(&big(1)), Some(big(u128::MAX)));
    assert_eq!(b.checked_sub(&b), Some(big(0)));
    assert_eq!(b.checked_sub(&big(12346)), None);
    assert_eq!(two_to(64).mul(&two_to(64)), two_to(128));
    assert_eq!(b.mul(&big(0)), big(0));
    assert_eq!(big(6).mul(&big(7)), big(42));
    assert_eq!(big(23).div_rem(&big(10)), Some((big(2), big(3))));
    assert_eq!(big(23).div_rem(&big(0)), None);
    assert_eq!(two_to(130).div_rem(&two_to(128)), Some((big(4), big(0))));
    assert_eq!(big(23).rem(&big(7)), big(2));
    assert_eq!(big(23).div(&big(7)), big(3));
    assert_eq!(big(23).mod_u(3), 2);
    assert_eq!(two_to(128).mod_u(3), 1);
    assert!(big(3).less_than(&big(4)));
    assert!(!big(4).less_than(&big(4)));
    assert!(!two_to(128).less_than(&a));
    assert!(a.less_than(&two_to(128)));
    assert!(big(4).equals(&BigInt::from_lsb_digits(vec![4, 0])));
    assert!(!big(4).equals(&big(5)));
}

#[test]
fn powers_roots_and_inverses() {
    assert_eq!(big(2).pow_mod(&big(57), &big(383)), Some(big(46)));
    assert_eq!(big(2).pow_mod(&big(18), &big(383)), Some(big(172)));
    assert_eq!(big(7).pow_mod(&big(0), &big(13)), Some(big(1)));
    assert_eq!(big(7).pow_mod(&big(0), &big(1)), Some(big(0)));
    assert_eq!(big(0).pow_mod(&big(5), &big(13)), Some(big(0)));
    assert_eq!(big(7).pow_mod(&big(5), &big(0)), None);
    assert_eq!(big(3).pow_rem(&big(4), &big(100)), big(81));
    assert_eq!(big(2).invert(&big(5)), Some(big(3)));
    assert_eq!(big(2).invert(&big(4)), None);
    assert_eq!(big(2).invert(&big(0)), None);
    assert_eq!(big(0).invert(&big(1)), Some(big(0)));
    assert_eq!(big(0).invert(&big(7)), None);
    assert_eq!(big(7).invert(&big(1000)), Some(big(143)));
    assert_eq!(big(10).gcd(&big(25)), big(5));
    assert_eq!(big(0).gcd(&big(10)), big(10));
    assert_eq!(big(0).gcd(&big(0)), big(0));
    assert_eq!(big(17).gcd(&big(5)), big(1));
    assert_eq!(big(104).sqrt(), big(10));
    assert_eq!(big(0).sqrt(), big(0));
    assert_eq!(big(99).sqrt(), big(9));
    assert_eq!(big(100).sqrt(), big(10));
    assert_eq!(two_to(128).sqrt(), two_to(64));
}

#[test]
fn conversion_to_u128() {
    assert_eq!(big(0).to_u128(), Some(0));
    assert_eq!(big(u128::MAX).to_u128(), Some(u128::MAX));
    assert_eq!(two_to(128).to_u128(), None);
    assert_eq!(BigInt::from_lsb_digits(vec![7; 20]).to_u128(), None);
    let mut padded = vec![0u8; 40];
    padded[1] = 3;
    assert_eq!(BigInt::from_lsb_digits(padded).to_u128(), Some(0x0300));
    assert_eq!(bigint_u128(&big(12)), 12);
    assert_eq!(bigint_u128(&big(u128::MAX)), u128::MAX);
    assert_eq!(bigint_u128(&two_to(128)), 0);
    assert_eq!(u128_bigint(&77), big(77));
    assert_eq!(u128_bigint(&u128::MAX).to_lsb_digits(), vec![0xff; 16]);
}

#[test]
fn conversion_to_256_bits() {
    assert_eq!(bigint_u256(&big(0)), U256::zero());
    assert_eq!(bigint_u256(&big(1)), U256::one());
    let mut bytes = [0u8; 32];
    bytes[0] = 0x34;
    bytes[1] = 0x12;
    assert_eq!(bigint_u256(&big(0x1234)), U256 { bytes });
    assert_eq!(u256_bigint(&U256 { bytes }), big(0x1234));
    // 2^256 + 5 is cut to 5
    assert_eq!(bigint_u256(&two_to(256).add(&big(5))), bigint_u256(&big(5)));
    assert_eq!(bigint_u256(&two_to(256).checked_sub(&big(1)).unwrap()), U256::max_value());
    assert_eq!(u256_bigint(&U256::max_value()).add(&big(1)), two_to(256));
    assert_eq!(U256::from_little_endian(&[1, 2]), bigint_u256(&big(0x0201)));
    let long = [7u8; 40];
    assert_eq!(U256::from_little_endian(&long), U256 { bytes: [7u8; 32] });
    assert_eq!(U256 { bytes }.to_little_endian(), bytes);
    assert!(U256::one().equals(&bigint_u256(&big(1))));
    assert!(!U256::one().equals(&U256::zero()));
    assert_eq!(bigint_h256(&big(0x1234)), H256 { bytes });
    assert_eq!(bigint_h256(&big(0)), H256 { bytes: [0u8; 32] });
    assert_eq!(H256::from_slice(&[0x34, 0x12]), H256 { bytes });
}

#[test]
fn collision_solver_inverts_the_difference() {
    // modulo 11: r = 7 - 2 = 5, inverse 9, a2 - a1 = 3 - 8 = -5 = 6, x = 54 mod 11 = 10
    assert_eq!(eqs_solvers(&big(8), &big(7), &big(3), &big(2), &big(11)), Some(big(10)));
    // b1 < b2: r = 2 - 7 = -5 = 6 modulo 11, inverse 2, a2 - a1 = 5, x = 10
    assert_eq!(eqs_solvers(&big(3), &big(2), &big(8), &big(7), &big(11)), Some(big(10)));
    // equal exponents of h give nothing
    assert_eq!(eqs_solvers(&big(8), &big(7), &big(3), &big(7), &big(11)), None);
    assert_eq!(eqs_solvers(&big(8), &big(18), &big(3), &big(7), &big(11)), None);
    // no modulus, no solution
    assert_eq!(eqs_solvers(&big(8), &big(7), &big(3), &big(2), &big(0)), None);
    assert_eq!(eqs_solvers(&big(1), &big(1), &big(1), &big(1), &big(1)), None);
}

#[test]
fn collision_solver_divides_out_a_common_divisor() {
    // modulo 12: r = 9 - 5 = 4, d = 4, modulus 3; left 4 / 4 = 1, right (10 - 2) / 4 = 2
    assert_eq!(eqs_solvers(&big(2), &big(9), &big(10), &big(5), &big(12)), Some(big(2)));
    // modulo 12: r = 8 - 2 = 6, d = 6, modulus 2; left 1, right (7 - 1) / 6 = 1
    assert_eq!(eqs_solvers(&big(1), &big(8), &big(7), &big(2), &big(12)), Some(big(1)));
    // negative sides round towards zero: modulo 12, r = 2 - 8 = 6, d = 6,
    // modulus 2; left -6 / 6 = -1, right (1 - 8) / 6 = -1
    assert_eq!(eqs_solvers(&big(8), &big(2), &big(1), &big(8), &big(12)), Some(big(1)));
    // a difference beyond the modulus: modulo 12, r = 14 = 2, d = 2, modulus 6;
    // left 14 / 2 = 7, right 9 / 2 = 4
    assert_eq!(eqs_solvers(&big(0), &big(14), &big(9), &big(0), &big(12)), Some(big(4)));
    // modulo 24: r = 36 = 12, d = 12, modulus 2; left 3, right 0
    assert_eq!(eqs_solvers(&big(5), &big(36), &big(5), &big(0), &big(24)), Some(big(0)));
    // modulo 72: r = 156 = 12, d = 12, modulus 6; left 13, right 2
    assert_eq!(eqs_solvers(&big(0), &big(156), &big(24), &big(0), &big(72)), Some(big(2)));
    // modulo 12: r = 3 - 50 = 1, so the first stage: (7 - 100) * 1 = 3
    assert_eq!(eqs_solvers(&big(100), &big(3), &big(7), &big(50), &big(12)), Some(big(3)));
    // modulo 12: r = 0 - 9 = 3, d = 3, modulus 4; left -9 / 3 = -3 = 1,
    // right (2 - 9) / 3 = -2
    assert_eq!(eqs_solvers(&big(9), &big(0), &big(2), &big(9), &big(12)), Some(big(2)));
}

#[test]
fn draws_lie_in_their_range() {
    for _ in 0..50 {
        let seed = get_local_seed();
        assert!(!seed.less_than(&big(1)));
        assert!(!big(1000).less_than(&seed));
    }
    let mut rand: Twister = seeded_mersenne_twister(&big(9));
    let mut seen_other = false;
    for _ in 0..50 {
        let drawn = gen_bigint_range(&mut rand, &big(100), &big(110));
        assert!(!drawn.less_than(&big(100)));
        assert!(drawn.less_than(&big(110)));
        seen_other = seen_other || drawn != big(100);
    }
    assert!(seen_other);
    let only = gen_bigint_range(&mut rand, &big(5), &big(6));
    assert_eq!(only, big(5));
    // the same seed draws the same numbers, another seed other numbers
    let wide = two_to(200);
    let mut one = seeded_mersenne_twister(&big(1));
    let mut same = seeded_mersenne_twister(&big(1));
    let mut other = seeded_mersenne_twister(&big(2));
    let drawn = gen_bigint_range(&mut one, &big(0), &wide);
    assert_eq!(drawn, gen_bigint_range(&mut same, &big(0), &wide));
    assert_ne!(drawn, gen_bigint_range(&mut other, &big(0), &wide));
}

#[test]
fn mining_seed_is_the_end_of_the_identity() {
    let mut identity: Vec<u8> = Vec::new();
    for byte in 0..38u8 {
        identity.push(byte);
    }
    let mut expected = [0u8; 32];
    for (index, byte) in expected.iter_mut().enumerate() {
        *byte = (index + 6) as u8;
    }
    assert_eq!(generate_mining_seed(&identity), U256 { bytes: expected });
    assert_eq!(generate_mining_seed(&identity[..32]), U256::from_little_endian(&identity[..32]));
    assert_eq!(generate_mining_seed(&[7, 1]), bigint_u256(&big(0x0107)));
    assert_eq!(generate_mining_seed(&[]), U256::zero());
}

#[test]
fn mining_seed_wraps_past_zero() {
    let max = U256::max_value();
    let mut below = [0xffu8; 32];
    below[0] = 0xfe;
    let below = U256 { bytes: below };
    assert_eq!(next_mining_seed(&below), max);
    assert_eq!(next_mining_seed(&max), U256::one());
    assert_eq!(next_mining_seed(&U256::one()), bigint_u256(&big(2)));
    assert_eq!(next_mining_seed(&U256::zero()), U256::one());
    let mut carry = [0u8; 32];
    carry[0] = 0xff;
    carry[1] = 0xff;
    assert_eq!(next_mining_seed(&U256 { bytes: carry }), bigint_u256(&big(0x10000)));
}
