//! The seal of a mined block and its form on the wire.
//!
//! A seal is written field by field: the difficulty in 16 bytes, the public
//! key as three numbers of 32 bytes and the bit length in 4, the count of
//! seeds in compact form and then each seed behind its tag byte (0 before a
//! 16-byte seed, 1 before a 32-byte seed), the two solutions as three numbers
//! of 32 bytes each, and the nonce in 32 bytes. All numbers are written least
//! significant byte first.
use crate::bigint::BigInt;
use crate::constants::Difficulty;
use crate::digits::{digits_of, le_value, lemma_le_value_bound};
use crate::elgamal::{KeyView, PublicKey, RawPublicKey};
use crate::generic::{spec_truncated, Solution, Solutions};
use crate::keychain::{spec_seed_views, RawKeySeeds, RawKeySeedsData, SeedView, KEY_SEEDS_LEN};
use crate::uint::U256;
use crate::wire::{
    lemma_digits_round_trip, push_key, push_le_digits, push_solution, push_u256, read_key,
    read_num, read_solution, read_solution_at, read_u256, spec_key_bytes, spec_solution_bytes,
    spec_solution_fits, take_num,
};
use vstd::prelude::*;

verus! {

/// What a miner attaches to a block it has mined.
#[derive(Debug, PartialEq, Eq)]
pub struct Seal {
    /// The difficulty at which the block was mined.
    pub difficulty: Difficulty,
    /// The public key whose puzzle the block solves.
    pub pubkey: RawPublicKey,
    /// The seeds from which the keys of the next block are derived.
    pub seeds: RawKeySeeds,
    /// The two solutions that met.
    pub solutions: Solutions<U256>,
    /// The nonce on which they met.
    pub nonce: U256,
}

/// The numbers of a seal.
pub struct SealView {
    pub difficulty: Difficulty,
    pub pubkey: KeyView,
    pub seeds: Seq<SeedView>,
    pub solutions: (Solution<nat>, Solution<nat>),
    pub nonce: nat,
}

impl View for Seal {
    type V = SealView;

    open spec fn view(&self) -> SealView {
        SealView {
            difficulty: self.difficulty,
            pubkey: self.pubkey@,
            seeds: spec_seed_views(self.seeds@),
            solutions: (self.solutions.0@, self.solutions.1@),
            nonce: self.nonce@,
        }
    }
}

impl Clone for Seal {
    fn clone(&self) -> (r: Self)
        ensures
            r == *self,
    {
        Seal {
            difficulty: self.difficulty,
            pubkey: self.pubkey,
            seeds: self.seeds,
            solutions: (self.solutions.0.clone(), self.solutions.1.clone()),
            nonce: self.nonce,
        }
    }
}

/// The count of seeds, 176, in compact form: `176 * 4 + 1` in two bytes.
pub open spec fn spec_count_prefix() -> Seq<u8> {
    seq![0xc1u8, 0x02u8]
}

/// Whether a seed fits its width.
pub open spec fn spec_seed_fits(seed: SeedView) -> bool {
    match seed {
        SeedView::U128(_) => true,
        SeedView::U256(value) => value < U256::modulus(),
    }
}

impl SealView {
    /// Whether these are the numbers of some seal: 176 seeds, and every
    /// number within its width.
    pub open spec fn fits(self) -> bool {
        &&& self.pubkey.p < U256::modulus()
        &&& self.pubkey.g < U256::modulus()
        &&& self.pubkey.h < U256::modulus()
        &&& self.seeds.len() == KEY_SEEDS_LEN
        &&& forall|i: int| 0 <= i < self.seeds.len() ==> spec_seed_fits(#[trigger] self.seeds[i])
        &&& spec_solution_fits(self.solutions.0)
        &&& spec_solution_fits(self.solutions.1)
        &&& self.nonce < U256::modulus()
    }
}

/// The bytes of one seed: its tag and its number.
pub open spec fn spec_seed_bytes(seed: SeedView) -> Seq<u8> {
    match seed {
        SeedView::U128(value) => seq![0u8] + digits_of(value as nat, 16),
        SeedView::U256(value) => seq![1u8] + digits_of(value, 32),
    }
}

/// The bytes of the seeds, one after the other.
pub open spec fn spec_seeds_bytes(seeds: Seq<SeedView>) -> Seq<u8>
    decreases seeds.len(),
{
    if seeds.len() == 0 {
        Seq::<u8>::empty()
    } else {
        spec_seed_bytes(seeds[0]) + spec_seeds_bytes(seeds.drop_first())
    }
}

/// The bytes of a seal.
pub open spec fn spec_encode(seal: SealView) -> Seq<u8> {
    digits_of(seal.difficulty as nat, 16) + spec_key_bytes(seal.pubkey) + spec_count_prefix()
        + spec_seeds_bytes(seal.seeds) + spec_solution_bytes(seal.solutions.0)
        + spec_solution_bytes(seal.solutions.1) + digits_of(seal.nonce, 32)
}

/// Reads one seed from the front of `bytes`. There is none where the tag is
/// neither 0 nor 1 or the bytes end early.
pub open spec fn take_seed(bytes: Seq<u8>) -> Option<(SeedView, Seq<u8>)> {
    if bytes.len() == 0 {
        None
    } else if bytes[0] == 0 {
        match take_num(bytes.skip(1), 16) {
            Some((value, rest)) => Some((SeedView::U128(value as u128), rest)),
            None => None,
        }
    } else if bytes[0] == 1 {
        match take_num(bytes.skip(1), 32) {
            Some((value, rest)) => Some((SeedView::U256(value), rest)),
            None => None,
        }
    } else {
        None
    }
}

/// Reads `count` seeds from the front of `bytes`.
pub open spec fn take_seeds(bytes: Seq<u8>, count: nat) -> Option<(Seq<SeedView>, Seq<u8>)>
    decreases count,
{
    if count == 0 {
        Some((Seq::<SeedView>::empty(), bytes))
    } else {
        match take_seed(bytes) {
            None => None,
            Some((seed, rest)) => match take_seeds(rest, (count - 1) as nat) {
                None => None,
                Some((seeds, rest)) => Some((seq![seed] + seeds, rest)),
            },
        }
    }
}

/// The seal that stands at the front of `bytes`, if one does. Bytes behind it
/// are passed over.
pub open spec fn spec_decode(bytes: Seq<u8>) -> Option<SealView> {
    if bytes.len() < 118 || bytes.subrange(116, 118) != spec_count_prefix() {
        None
    } else {
        match take_seeds(bytes.skip(118), KEY_SEEDS_LEN as nat) {
            None => None,
            Some((seeds, rest)) => if rest.len() < 224 {
                None
            } else {
                Some(
                    SealView {
                        difficulty: le_value(bytes.subrange(0, 16)) as u128,
                        pubkey: read_key(bytes.skip(16)),
                        seeds,
                        solutions: (read_solution(rest), read_solution(rest.skip(96))),
                        nonce: le_value(rest.subrange(192, 224)),
                    },
                )
            },
        }
    }
}

/// Appends the bytes of a seed to `out`.
fn push_seed(out: &mut Vec<u8>, seed: &RawKeySeedsData)
    ensures
        final(out)@ == old(out)@ + spec_seed_bytes(seed@),
{
    match seed {
        RawKeySeedsData::U128(value) => {
            out.push(0u8);
            push_le_digits(out, *value, 16);
        },
        RawKeySeedsData::U256(value) => {
            out.push(1u8);
            push_u256(out, value);
        },
    }
    assert(out@ =~= old(out)@ + spec_seed_bytes(seed@));
}

/// The seed that stands in `bytes` at `at`, and the place behind it.
fn read_seed(bytes: &[u8], at: usize) -> (r: Option<(RawKeySeedsData, usize)>)
    requires
        at <= bytes.len(),
    ensures
        match r {
            Some((seed, next)) => at < next <= bytes.len() && take_seed(bytes@.skip(at as int))
                == Some((seed@, bytes@.skip(next as int))),
            None => take_seed(bytes@.skip(at as int)).is_none(),
        },
{
    let ghost rest = bytes@.skip(at as int);
    if at >= bytes.len() {
        return None;
    }
    let tag: u8 = bytes[at];
    assert(rest[0] == tag);
    let left: usize = bytes.len() - at - 1;
    if tag == 0 {
        if left < 16 {
            return None;
        }
        let value = read_num(bytes, at + 1, 16);
        proof {
            assert(rest.skip(1).take(16) =~= bytes@.subrange(at + 1, at + 17));
            assert(rest.skip(1).skip(16) =~= bytes@.skip(at + 17));
        }
        Some((RawKeySeedsData::U128(value), at + 17))
    } else if tag == 1 {
        if left < 32 {
            return None;
        }
        let value = read_u256(bytes, at + 1);
        proof {
            assert(rest.skip(1).take(32) =~= bytes@.subrange(at + 1, at + 33));
            assert(rest.skip(1).skip(32) =~= bytes@.skip(at + 33));
        }
        Some((RawKeySeedsData::U256(value), at + 33))
    } else {
        None
    }
}

impl Seal {
    /// The seal for a block whose puzzle `pubkey` was solved by `solutions`
    /// on the nonce `nonce`, with `seeds` for the keys of the next block.
    pub fn assemble(
        difficulty: Difficulty,
        pubkey: &PublicKey,
        seeds: RawKeySeeds,
        solutions: &Solutions<BigInt>,
        nonce: U256,
    ) -> (r: Seal)
        ensures
            r.difficulty == difficulty,
            r.pubkey@ == pubkey@.truncated(),
            r.seeds == seeds,
            r.solutions.0@ == spec_truncated(solutions.0@),
            r.solutions.1@ == spec_truncated(solutions.1@),
            r.nonce == nonce,
    {
        Seal {
            difficulty,
            pubkey: pubkey.to_raw(),
            seeds,
            solutions: (solutions.0.to_u256(), solutions.1.to_u256()),
            nonce,
        }
    }

    /// The bytes of the seal.
    pub fn encode(&self) -> (r: Vec<u8>)
        ensures
            r@ == spec_encode(self@),
    {
        let mut out: Vec<u8> = Vec::new();
        push_le_digits(&mut out, self.difficulty, 16);
        push_key(&mut out, &self.pubkey);
        out.push(0xc1u8);
        out.push(0x02u8);
        let ghost head = out@;
        let ghost views = spec_seed_views(self.seeds@);
        assert(head =~= digits_of(self.difficulty as nat, 16) + spec_key_bytes(self.pubkey@)
            + spec_count_prefix());
        let mut k: usize = 0;
        assert(views.skip(0) =~= views);
        while k < KEY_SEEDS_LEN
            invariant
                k <= KEY_SEEDS_LEN,
                views == spec_seed_views(self.seeds@),
                views.len() == KEY_SEEDS_LEN,
                out@ + spec_seeds_bytes(views.skip(k as int)) == head + spec_seeds_bytes(views),
            decreases KEY_SEEDS_LEN - k,
        {
            let ghost before = out@;
            let ghost left = views.skip(k as int);
            push_seed(&mut out, &self.seeds[k]);
            proof {
                assert(left[0] == self.seeds@[k as int]@);
                assert(left.drop_first() =~= views.skip(k + 1));
                assert(before + spec_seed_bytes(left[0]) + spec_seeds_bytes(views.skip(k + 1))
                    =~= before + spec_seeds_bytes(left));
            }
            k = k + 1;
        }
        assert(out@ + spec_seeds_bytes(views.skip(KEY_SEEDS_LEN as int)) =~= out@);
        push_solution(&mut out, &self.solutions.0);
        push_solution(&mut out, &self.solutions.1);
        push_u256(&mut out, &self.nonce);
        out
    }

    /// The seal at the front of `bytes`: the one that `spec_decode` names, or
    /// `None` where it names none.
    pub fn decode(bytes: &[u8]) -> (r: Option<Seal>)
        ensures
            match r {
                Some(seal) => spec_decode(bytes@) == Some(seal@),
                None => spec_decode(bytes@).is_none(),
            },
    {
        if bytes.len() < 118 {
            return None;
        }
        if bytes[116] != 0xc1u8 || bytes[117] != 0x02u8 {
            proof {
                let found = bytes@.subrange(116, 118);
                assert(found[0] == bytes@[116] && found[1] == bytes@[117]);
            }
            return None;
        }
        assert(bytes@.subrange(116, 118) =~= spec_count_prefix());
        let difficulty = read_num(bytes, 0, 16);
        let ghost keyed = bytes@.skip(16);
        proof {
            assert(keyed.subrange(0, 32) =~= bytes@.subrange(16, 48));
            assert(keyed.subrange(32, 64) =~= bytes@.subrange(48, 80));
            assert(keyed.subrange(64, 96) =~= bytes@.subrange(80, 112));
            assert(keyed.subrange(96, 100) =~= bytes@.subrange(112, 116));
            lemma_le_value_bound(bytes@.subrange(112, 116));
            crate::digits::lemma_pow256_4();
        }
        let bit_length: u128 = read_num(bytes, 112, 4);
        let pubkey = RawPublicKey {
            p: read_u256(bytes, 16),
            g: read_u256(bytes, 48),
            h: read_u256(bytes, 80),
            bit_length: bit_length as u32,
        };
        let mut seeds: RawKeySeeds = [RawKeySeedsData::U128(0u128);KEY_SEEDS_LEN];
        let mut pos: usize = 118;
        let mut k: usize = 0;
        let ghost whole = take_seeds(bytes@.skip(118), KEY_SEEDS_LEN as nat);
        proof {
            let rest = take_seeds(bytes@.skip(118), KEY_SEEDS_LEN as nat);
            if rest.is_some() {
                let (more, _) = rest->0;
                assert(Seq::<SeedView>::empty() + more =~= more);
            }
        }
        while k < KEY_SEEDS_LEN
            invariant
                k <= KEY_SEEDS_LEN,
                118 <= pos <= bytes.len(),
                whole == take_seeds(bytes@.skip(118), KEY_SEEDS_LEN as nat),
                whole == match take_seeds(bytes@.skip(pos as int), (KEY_SEEDS_LEN - k) as nat) {
                    None => None,
                    Some((more, rest)) => Some(
                        (spec_seed_views(seeds@).take(k as int) + more, rest),
                    ),
                },
            decreases KEY_SEEDS_LEN - k,
        {
            let ghost done = spec_seed_views(seeds@).take(k as int);
            match read_seed(bytes, pos) {
                None => {
                    return None;
                },
                Some((seed, next)) => {
                    seeds[k] = seed;
                    proof {
                        let after = take_seeds(
                            bytes@.skip(next as int),
                            (KEY_SEEDS_LEN - k - 1) as nat,
                        );
                        assert(spec_seed_views(seeds@).take(k + 1) =~= done.push(seed@));
                        if after.is_some() {
                            let (more, _) = after->0;
                            assert(done + (seq![seed@] + more) =~= done.push(seed@) + more);
                        }
                    }
                    pos = next;
                    k = k + 1;
                },
            }
        }
        proof {
            assert(spec_seed_views(seeds@).take(KEY_SEEDS_LEN as int) + Seq::<SeedView>::empty()
                =~= spec_seed_views(seeds@));
        }
        if bytes.len() - pos < 224 {
            return None;
        }
        let ghost rest = bytes@.skip(pos as int);
        proof {
            assert(rest.skip(96) =~= bytes@.skip(pos + 96));
            assert(rest.subrange(192, 224) =~= bytes@.subrange(pos + 192, pos + 224));
        }
        let first = read_solution_at(bytes, pos);
        let second = read_solution_at(bytes, pos + 96);
        let nonce = read_u256(bytes, pos + 192);
        Some(Seal { difficulty, pubkey, seeds, solutions: (first, second), nonce })
    }
}

/// Reading seeds from their bytes gives the seeds back, whatever follows.
pub proof fn lemma_take_seeds_of_bytes(seeds: Seq<SeedView>, rest: Seq<u8>)
    requires
        forall|i: int| 0 <= i < seeds.len() ==> spec_seed_fits(#[trigger] seeds[i]),
    ensures
        take_seeds(spec_seeds_bytes(seeds) + rest, seeds.len()) == Some((seeds, rest)),
    decreases seeds.len(),
{
    if seeds.len() == 0 {
        assert(spec_seeds_bytes(seeds) + rest =~= rest);
        assert(seeds =~= Seq::<SeedView>::empty());
    } else {
        let first = seeds[0];
        let others = seeds.drop_first();
        let bytes = spec_seeds_bytes(seeds) + rest;
        let behind = spec_seeds_bytes(others) + rest;
        assert(spec_seed_fits(first));
        assert forall|i: int| 0 <= i < others.len() implies spec_seed_fits(
            #[trigger] others[i],
        ) by {
            assert(others[i] == seeds[i + 1]);
        }
        lemma_take_seeds_of_bytes(others, rest);
        match first {
            SeedView::U128(value) => {
                lemma_digits_round_trip(value as nat, 16);
                crate::digits::lemma_pow256_16();
                assert(bytes =~= seq![0u8] + digits_of(value as nat, 16) + behind);
                assert(bytes[0] == 0);
                assert(bytes.skip(1).take(16) =~= digits_of(value as nat, 16));
                assert(bytes.skip(1).skip(16) =~= behind);
            },
            SeedView::U256(value) => {
                lemma_digits_round_trip(value, 32);
                assert(bytes =~= seq![1u8] + digits_of(value, 32) + behind);
                assert(bytes[0] == 1);
                assert(bytes.skip(1).take(32) =~= digits_of(value, 32));
                assert(bytes.skip(1).skip(32) =~= behind);
            },
        }
        assert(take_seed(bytes) == Some((first, behind)));
        assert(seq![first] + others =~= seeds);
    }
}

/// Decoding the bytes of a seal gives the seal back, whatever bytes follow.
pub proof fn lemma_decode_encode(seal: SealView, tail: Seq<u8>)
    requires
        seal.fits(),
    ensures
        spec_decode(spec_encode(seal) + tail) == Some(seal),
{
    let bytes = spec_encode(seal) + tail;
    let d = digits_of(seal.difficulty as nat, 16);
    let kp = digits_of(seal.pubkey.p, 32);
    let kg = digits_of(seal.pubkey.g, 32);
    let kh = digits_of(seal.pubkey.h, 32);
    let kb = digits_of(seal.pubkey.bit_length as nat, 4);
    let s = spec_seeds_bytes(seal.seeds);
    let first = seal.solutions.0;
    let second = seal.solutions.1;
    let a1 = digits_of(first.a, 32);
    let b1 = digits_of(first.b, 32);
    let n1 = digits_of(first.n, 32);
    let a2 = digits_of(second.a, 32);
    let b2 = digits_of(second.b, 32);
    let n2 = digits_of(second.n, 32);
    let nonce = digits_of(seal.nonce, 32);
    let rest = a1 + b1 + n1 + a2 + b2 + n2 + nonce + tail;
    crate::digits::lemma_pow256_16();
    crate::digits::lemma_pow256_4();
    lemma_digits_round_trip(seal.difficulty as nat, 16);
    lemma_digits_round_trip(seal.pubkey.p, 32);
    lemma_digits_round_trip(seal.pubkey.g, 32);
    lemma_digits_round_trip(seal.pubkey.h, 32);
    lemma_digits_round_trip(seal.pubkey.bit_length as nat, 4);
    lemma_digits_round_trip(first.a, 32);
    lemma_digits_round_trip(first.b, 32);
    lemma_digits_round_trip(first.n, 32);
    lemma_digits_round_trip(second.a, 32);
    lemma_digits_round_trip(second.b, 32);
    lemma_digits_round_trip(second.n, 32);
    lemma_digits_round_trip(seal.nonce, 32);
    let head = d + kp + kg + kh + kb + spec_count_prefix();
    assert(head.len() == 118);
    assert(bytes =~= head + (s + rest));
    assert(bytes.subrange(116, 118) =~= spec_count_prefix());
    assert(bytes.subrange(0, 16) =~= d);
    let keyed = bytes.skip(16);
    assert(keyed.subrange(0, 32) =~= kp);
    assert(keyed.subrange(32, 64) =~= kg);
    assert(keyed.subrange(64, 96) =~= kh);
    assert(keyed.subrange(96, 100) =~= kb);
    assert(bytes.skip(118) =~= s + rest);
    lemma_take_seeds_of_bytes(seal.seeds, rest);
    assert(rest.len() >= 224);
    assert(rest.subrange(0, 32) =~= a1);
    assert(rest.subrange(32, 64) =~= b1);
    assert(rest.subrange(64, 96) =~= n1);
    let later = rest.skip(96);
    assert(later.subrange(0, 32) =~= a2);
    assert(later.subrange(32, 64) =~= b2);
    assert(later.subrange(64, 96) =~= n2);
    assert(rest.subrange(192, 224) =~= nonce);
    assert(read_key(keyed) == seal.pubkey);
    assert(read_solution(rest) == first);
    assert(read_solution(later) == second);
}

/// Reading seeds gives as many seeds as were asked for, each within its width.
pub proof fn lemma_take_seeds_fit(bytes: Seq<u8>, count: nat)
    requires
        take_seeds(bytes, count).is_some(),
    ensures
        ({
            let (seeds, rest) = take_seeds(bytes, count)->0;
            &&& seeds.len() == count
            &&& forall|i: int| 0 <= i < seeds.len() ==> spec_seed_fits(#[trigger] seeds[i])
        }),
    decreases count,
{
    if count > 0 {
        let (seed, behind) = take_seed(bytes)->0;
        lemma_take_seeds_fit(behind, (count - 1) as nat);
        let (others, rest) = take_seeds(behind, (count - 1) as nat)->0;
        let seeds = seq![seed] + others;
        if bytes[0] == 1 {
            lemma_le_value_bound(bytes.skip(1).take(32));
        }
        assert forall|i: int| 0 <= i < seeds.len() implies spec_seed_fits(#[trigger] seeds[i]) by {
            if i > 0 {
                assert(seeds[i] == others[i - 1]);
            }
        }
    }
}

/// Whatever decodes, its numbers are those of a seal.
pub proof fn lemma_decoded_fits(bytes: Seq<u8>)
    requires
        spec_decode(bytes).is_some(),
    ensures
        spec_decode(bytes)->0.fits(),
{
    let seal = spec_decode(bytes)->0;
    let keyed = bytes.skip(16);
    lemma_le_value_bound(keyed.subrange(0, 32));
    lemma_le_value_bound(keyed.subrange(32, 64));
    lemma_le_value_bound(keyed.subrange(64, 96));
    lemma_take_seeds_fit(bytes.skip(118), KEY_SEEDS_LEN as nat);
    let (seeds, rest) = take_seeds(bytes.skip(118), KEY_SEEDS_LEN as nat)->0;
    lemma_le_value_bound(rest.subrange(0, 32));
    lemma_le_value_bound(rest.subrange(32, 64));
    lemma_le_value_bound(rest.subrange(64, 96));
    let later = rest.skip(96);
    lemma_le_value_bound(later.subrange(0, 32));
    lemma_le_value_bound(later.subrange(32, 64));
    lemma_le_value_bound(later.subrange(64, 96));
    lemma_le_value_bound(rest.subrange(192, 224));
}

/// The numbers of every seal are within their widths.
pub proof fn lemma_seal_fits(seal: Seal)
    ensures
        seal@.fits(),
{
    seal.pubkey.p.lemma_bound();
    seal.pubkey.g.lemma_bound();
    seal.pubkey.h.lemma_bound();
    seal.solutions.0.a.lemma_bound();
    seal.solutions.0.b.lemma_bound();
    seal.solutions.0.n.lemma_bound();
    seal.solutions.1.a.lemma_bound();
    seal.solutions.1.b.lemma_bound();
    seal.solutions.1.n.lemma_bound();
    seal.nonce.lemma_bound();
    let views = seal@.seeds;
    assert forall|i: int| 0 <= i < views.len() implies spec_seed_fits(#[trigger] views[i]) by {
        match seal.seeds@[i] {
            RawKeySeedsData::U128(_) => {},
            RawKeySeedsData::U256(value) => {
                value.lemma_bound();
            },
        }
    }
}

/// Two seals with the same numbers are the same seal.
pub proof fn lemma_seal_by_numbers(one: Seal, other: Seal)
    requires
        one@ == other@,
    ensures
        one == other,
{
    one.pubkey.p.lemma_equal_bytes(other.pubkey.p);
    one.pubkey.g.lemma_equal_bytes(other.pubkey.g);
    one.pubkey.h.lemma_equal_bytes(other.pubkey.h);
    one.solutions.0.a.lemma_equal_bytes(other.solutions.0.a);
    one.solutions.0.b.lemma_equal_bytes(other.solutions.0.b);
    one.solutions.0.n.lemma_equal_bytes(other.solutions.0.n);
    one.solutions.1.a.lemma_equal_bytes(other.solutions.1.a);
    one.solutions.1.b.lemma_equal_bytes(other.solutions.1.b);
    one.solutions.1.n.lemma_equal_bytes(other.solutions.1.n);
    one.nonce.lemma_equal_bytes(other.nonce);
    assert forall|i: int| 0 <= i < KEY_SEEDS_LEN implies one.seeds@[i] == other.seeds@[i] by {
        assert(one.seeds@.len() == KEY_SEEDS_LEN && other.seeds@.len() == KEY_SEEDS_LEN);
        assert(one@.seeds[i] == one.seeds@[i]@);
        assert(other@.seeds[i] == other.seeds@[i]@);
        match (one.seeds@[i], other.seeds@[i]) {
            (RawKeySeedsData::U256(x), RawKeySeedsData::U256(y)) => {
                x.lemma_equal_bytes(y);
            },
            _ => {},
        }
    }
    assert(one.seeds@ =~= other.seeds@);
    assert(one.seeds == other.seeds);
}

/// Encoding a seal and decoding the bytes gives the seal back: whatever seal
/// decodes from the encoding of `seal`, followed by any bytes, is `seal`.
pub proof fn lemma_seal_round_trip(seal: Seal, tail: Seq<u8>, back: Seal)
    requires
        spec_decode(spec_encode(seal@) + tail) == Some(back@),
    ensures
        back == seal,
{
    lemma_seal_fits(seal);
    lemma_decode_encode(seal@, tail);
    lemma_seal_by_numbers(back, seal);
}

} // verus!
