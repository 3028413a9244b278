use parity_scale_codec::{Compact, Encode};
use trex_pow::algorithm::{is_distinguished, PollardRhoHash};
use trex_pow::bigint::BigInt;
use trex_pow::elgamal::PublicKey;
use trex_pow::genesis::genesis_seal;
use trex_pow::hash::Blake3Compute;
use trex_pow::keychain::RawKeySeedsData;
use trex_pow::uint::{H256, U256};
use trex_pow::utils::{bigint_u256, u256_bigint};

fn wide(value: &U256) -> primitive_types::U256 {
    primitive_types::U256::from_little_endian(&value.bytes)
}

fn narrow(value: primitive_types::U256) -> U256 {
    let mut bytes = [0u8; 32];
    value.to_little_endian(&mut bytes);
    U256 { bytes }
}

/// A few values of every size, from a fixed linear congruential sequence.
fn samples() -> Vec<U256> {
    let mut state = 0x2545_f491_4f6c_dd1du64;
    let mut out = vec![U256::zero(), U256::one(), U256::max_value()];
    for round in 0..200 {
        let mut bytes = [0u8; 32];
        let used = 1 + round % 32;
        for byte in bytes.iter_mut().take(used) {
            state = state.wrapping_mul(6364136223846793005).wrapping_add(1442695040888963407);
            *byte = (state >> 56) as u8;
        }
        out.push(U256 { bytes });
    }
    out
}

#[test]
fn count_of_seeds_is_written_in_compact_form() {
    assert_eq!(Compact(176u32).encode(), vec![0xc1, 0x02]);
    let bytes = genesis_seal(56).encode();
    assert_eq!(&bytes[116..118], &Compact(176u32).encode()[..]);
}

#[test]
fn fields_are_written_as_the_codec_writes_them() {
    let mut seal = genesis_seal(0x1122_3344_5566_7788_99aa_bbcc_ddee_ff00);
    seal.pubkey.bit_length = 0xdead_beef;
    seal.seeds[1] = RawKeySeedsData::U128(0x0102_0304);
    seal.seeds[130] = RawKeySeedsData::U256(U256 { bytes: [0x42; 32] });
    seal.nonce = U256 { bytes: [7u8; 32] };
    let bytes = seal.encode();
    let mut expected = seal.difficulty.encode();
    expected.extend(seal.pubkey.p.bytes.encode());
    expected.extend(seal.pubkey.g.bytes.encode());
    expected.extend(seal.pubkey.h.bytes.encode());
    expected.extend(seal.pubkey.bit_length.encode());
    expected.extend(Compact(seal.seeds.len() as u32).encode());
    for seed in seal.seeds.iter() {
        match seed {
            RawKeySeedsData::U128(value) => expected.extend((0u8, *value).encode()),
            RawKeySeedsData::U256(value) => expected.extend((1u8, value.bytes).encode()),
        }
    }
    for solution in [&seal.solutions.0, &seal.solutions.1] {
        expected.extend((solution.a.bytes, solution.b.bytes, solution.n.bytes).encode());
    }
    expected.extend(seal.nonce.bytes.encode());
    assert_eq!(bytes, expected);
}

#[test]
fn preimage_is_what_the_codec_writes() {
    let compute = Blake3Compute {
        difficulty: 0x0102_0304_0506,
        pre_hash: H256 { bytes: [0x5a; 32] },
        nonce: bigint_u256(&BigInt::from_u128(0xfeed)),
    };
    let expected = (compute.difficulty, compute.pre_hash.bytes, compute.nonce.bytes).encode();
    assert_eq!(compute.encode(), expected);
}

#[test]
fn values_of_256_bits_agree_with_primitive_types() {
    assert_eq!(wide(&U256::zero()), primitive_types::U256::zero());
    assert_eq!(wide(&U256::one()), primitive_types::U256::one());
    assert_eq!(wide(&U256::max_value()), primitive_types::U256::MAX);
    let small = primitive_types::U256::from(0x1234u64);
    assert_eq!(narrow(small), bigint_u256(&BigInt::from_u128(0x1234)));
    for value in samples() {
        assert_eq!(narrow(wide(&value)), value);
        let digits = u256_bigint(&value).to_lsb_digits();
        assert_eq!(narrow(primitive_types::U256::from_little_endian(&digits)), value);
        assert_eq!(U256::from_little_endian(&digits), value);
    }
}

#[test]
fn distinguished_points_are_the_products_without_overflow() {
    let mut factors = vec![U256::one(), bigint_u256(&BigInt::from_u128(2))];
    for bit_length in [18u32, 19, 34, 41, 48, 49, 223, 224, 300, 527] {
        let key = PublicKey {
            p: BigInt::from_u128(23),
            g: BigInt::from_u128(5),
            h: BigInt::from_u128(8),
            bit_length,
        };
        let shift = bit_length / 2 - 8;
        let expected = if bit_length % 2 != 0 {
            (primitive_types::U256::one() << shift) + (primitive_types::U256::one() << (shift - 1))
        } else {
            primitive_types::U256::one() << shift
        };
        assert_eq!(wide(&key.hash_diff()), expected);
        factors.push(key.hash_diff());
    }
    for digest in samples() {
        for factor in factors.iter() {
            let (_, overflowed) = wide(&digest).overflowing_mul(wide(factor));
            assert_eq!(is_distinguished(&digest, factor), !overflowed);
        }
    }
}
