use trex_pow::bigint::BigInt;
use trex_pow::hash::{Blake3Compute, Sha256Compute};
use trex_pow::uint::{H256, U256};
use trex_pow::utils::bigint_u256;

fn header() -> Blake3Compute {
    let mut pre_hash = [0u8; 32];
    for (index, byte) in pre_hash.iter_mut().enumerate() {
        *byte = index as u8;
    }
    Blake3Compute {
        difficulty: 0x0102_0304,
        pre_hash: H256 { bytes: pre_hash },
        nonce: bigint_u256(&BigInt::from_u128(0xaabb)),
    }
}

#[test]
fn preimage_is_difficulty_pre_hash_nonce() {
    let bytes = header().encode();
    assert_eq!(bytes.len(), 80);
    assert_eq!(&bytes[..4], &[4, 3, 2, 1]);
    assert_eq!(&bytes[4..16], &[0u8; 12]);
    for index in 0..32 {
        assert_eq!(bytes[16 + index], index as u8);
    }
    assert_eq!(&bytes[48..50], &[0xbb, 0xaa]);
    assert_eq!(&bytes[50..], &[0u8; 30]);
}

#[test]
fn hash_is_the_blake3_digest_read_least_significant_byte_first() {
    let compute = header();
    let digest = blake3::hash(&compute.encode());
    let expected = BigInt::from_lsb_digits(digest.as_bytes().to_vec());
    assert_eq!(trex_pow::generic::Hash::hash_integer(&compute), expected);
    // the digest is not the input
    assert_ne!(
        trex_pow::generic::Hash::hash_integer(&compute),
        BigInt::from_lsb_digits(compute.encode())
    );
}

#[test]
fn blake3_of_nothing_is_the_known_digest() {
    let expected: [u8; 32] = [
        0xaf, 0x13, 0x49, 0xb9, 0xf5, 0xf9, 0xa1, 0xa6, 0xa0, 0x40, 0x4d, 0xea, 0x36, 0xdc, 0xc9,
        0x49, 0x9b, 0xcb, 0x25, 0xc9, 0xad, 0xc1, 0x12, 0xb7, 0xcc, 0x9a, 0x93, 0xca, 0xe4, 0x1f,
        0x32, 0x62,
    ];
    // a state whose numbers sum to zero hashes the empty string
    let state = trex_pow::generic::State::<BigInt> {
        solution: trex_pow::generic::Solution {
            a: BigInt::zero(),
            b: BigInt::zero(),
            n: BigInt::from_u128(11),
        },
        nonce: BigInt::zero(),
        work: BigInt::zero(),
        pubkey: trex_pow::elgamal::PublicKey {
            p: BigInt::from_u128(23),
            g: BigInt::from_u128(5),
            h: BigInt::from_u128(8),
            bit_length: 5,
        },
    };
    assert_eq!(trex_pow::generic::StateHash::hash_encode(&state), U256 { bytes: expected });
}

#[test]
fn identical_inputs_hash_identically() {
    let one = header();
    let two = header();
    assert_eq!(
        trex_pow::generic::Hash::hash_integer(&one),
        trex_pow::generic::Hash::hash_integer(&two)
    );
    let mut other = header();
    other.difficulty += 1;
    assert_ne!(
        trex_pow::generic::Hash::hash_integer(&one),
        trex_pow::generic::Hash::hash_integer(&other)
    );
}

#[test]
fn nonce_is_written_in_256_bits() {
    let mut compute = header();
    let before = trex_pow::generic::Hash::hash_integer(&compute);
    trex_pow::generic::Hash::set_nonce(&mut compute, &BigInt::from_u128(5));
    assert_eq!(trex_pow::generic::Hash::get_nonce(&compute), bigint_u256(&BigInt::from_u128(5)));
    assert_eq!(compute.difficulty, 0x0102_0304);
    assert_ne!(trex_pow::generic::Hash::hash_integer(&compute), before);
    // 2^256 + 5 is written as 5
    let mut digits = vec![0u8; 32];
    digits[0] = 5;
    digits.push(1);
    let mut wide = header();
    trex_pow::generic::Hash::set_nonce(&mut wide, &BigInt::from_lsb_digits(digits));
    assert_eq!(wide, compute);
    trex_pow::generic::Hash::set_nonce(&mut compute, &BigInt::from_u128(0xaabb));
    assert_eq!(trex_pow::generic::Hash::hash_integer(&compute), before);
}

#[test]
fn sha256_adapter_hashes_the_same_preimage() {
    let blake = header();
    let compute = Sha256Compute {
        difficulty: blake.difficulty,
        pre_hash: blake.pre_hash,
        nonce: blake.nonce,
    };
    assert_eq!(compute.encode(), blake.encode());
    let digest = <sha2::Sha256 as sha2::Digest>::digest(compute.encode());
    let expected = BigInt::from_lsb_digits(digest.to_vec());
    assert_eq!(trex_pow::generic::Hash::hash_integer(&compute), expected);
    assert_ne!(
        trex_pow::generic::Hash::hash_integer(&compute),
        trex_pow::generic::Hash::hash_integer(&blake)
    );
    let copy = trex_pow::generic::Hash::fork(&compute);
    assert_eq!(copy, compute);
    let mut other = compute;
    trex_pow::generic::Hash::set_nonce(&mut other, &BigInt::from_u128(1));
    assert_eq!(trex_pow::generic::Hash::get_nonce(&other), U256::one());
    assert_ne!(
        trex_pow::generic::Hash::hash_integer(&other),
        trex_pow::generic::Hash::hash_integer(&compute)
    );
}

#[test]
fn sha256_of_the_known_preimage() {
    // the digest of 80 zero bytes
    let compute = Sha256Compute {
        difficulty: 0,
        pre_hash: H256 { bytes: [0u8; 32] },
        nonce: U256::zero(),
    };
    let expected: [u8; 32] = [
        0x5b, 0x6f, 0xb5, 0x8e, 0x61, 0xfa, 0x47, 0x59, 0x39, 0x76, 0x7d, 0x68, 0xa4, 0x46, 0xf9,
        0x7f, 0x1b, 0xff, 0x02, 0xc0, 0xe5, 0x93, 0x5a, 0x3e, 0xa8, 0xbb, 0x51, 0xe6, 0x51, 0x57,
        0x83, 0xd8,
    ];
    assert_eq!(
        trex_pow::generic::Hash::hash_integer(&compute),
        BigInt::from_lsb_digits(expected.to_vec())
    );
}

#[test]
fn digest_as_an_integer_lies_below_two_to_256() {
    for nonce in [0u8, 1, 200] {
        let mut bytes = [0u8; 32];
        bytes[31] = nonce;
        let blake = Blake3Compute {
            difficulty: 48,
            pre_hash: H256 { bytes: [nonce; 32] },
            nonce: U256 { bytes },
        };
        let digest = trex_pow::generic::Hash::hash_integer(&blake);
        assert_eq!(digest.digits.len(), 32);
        assert!(BigInt::from_lsb_digits(digest.digits.clone()) == digest);
        let sha = Sha256Compute {
            difficulty: 48,
            pre_hash: H256 { bytes: [nonce; 32] },
            nonce: U256 { bytes },
        };
        assert_eq!(trex_pow::generic::Hash::hash_integer(&sha).digits.len(), 32);
    }
}

#[test]
fn writing_a_nonce_changes_the_nonce_alone() {
    let mut wide = vec![0xffu8; 33];
    wide[32] = 1;
    let mut compute =
        Blake3Compute { difficulty: 77, pre_hash: H256 { bytes: [5u8; 32] }, nonce: U256::one() };
    trex_pow::generic::Hash::set_nonce(&mut compute, &BigInt::from_lsb_digits(wide.clone()));
    assert_eq!(compute.difficulty, 77);
    assert_eq!(compute.pre_hash, H256 { bytes: [5u8; 32] });
    assert_eq!(compute.nonce, U256 { bytes: [0xffu8; 32] });
    assert_eq!(trex_pow::generic::Hash::get_nonce(&compute), U256 { bytes: [0xffu8; 32] });
    let mut sha =
        Sha256Compute { difficulty: 77, pre_hash: H256 { bytes: [5u8; 32] }, nonce: U256::one() };
    trex_pow::generic::Hash::set_nonce(&mut sha, &BigInt::from_lsb_digits(wide));
    assert_eq!(sha.difficulty, 77);
    assert_eq!(sha.pre_hash, H256 { bytes: [5u8; 32] });
    assert_eq!(sha.nonce, U256 { bytes: [0xffu8; 32] });
}
