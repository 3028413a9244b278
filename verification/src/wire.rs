//! Numbers, keys and solutions as bytes: how they are written to a seal or a
//! hash preimage, and how they are read back.
use crate::digits::{
    digits_of, le_value, lemma_digits_of_le_value, lemma_digits_of_value, lemma_le_value_bound,
    pow256,
};
use crate::elgamal::{KeyView, RawPublicKey};
use crate::generic::Solution;
use crate::uint::U256;
use vstd::prelude::*;

verus! {

/// Appends the `len` low digits of `value` to `out`, least significant first.
pub fn push_le_digits(out: &mut Vec<u8>, value: u128, len: usize)
    ensures
        final(out)@ == old(out)@ + digits_of(value as nat, len as nat),
{
    let mut rest: u128 = value;
    let mut i: usize = 0;
    assert(out@ + digits_of(rest as nat, len as nat) == old(out)@ + digits_of(
        value as nat,
        len as nat,
    ));
    while i < len
        invariant
            i <= len,
            out@ + digits_of(rest as nat, (len - i) as nat) == old(out)@ + digits_of(
                value as nat,
                len as nat,
            ),
        decreases len - i,
    {
        let d: u8 = (rest % 256) as u8;
        proof {
            let tail = digits_of((rest / 256) as nat, (len - i - 1) as nat);
            assert(digits_of(rest as nat, (len - i) as nat) == seq![d] + tail);
            assert(out@.push(d) + tail =~= out@ + (seq![d] + tail));
        }
        out.push(d);
        rest = rest / 256;
        i = i + 1;
    }
    assert(out@ + digits_of(rest as nat, 0) =~= out@);
}

/// Appends the bytes of `bytes` to `out`.
pub fn push_bytes(out: &mut Vec<u8>, bytes: &[u8])
    ensures
        final(out)@ == old(out)@ + bytes@,
{
    let mut i: usize = 0;
    assert(out@ =~= old(out)@ + bytes@.subrange(0, 0));
    while i < bytes.len()
        invariant
            i <= bytes.len(),
            out@ == old(out)@ + bytes@.subrange(0, i as int),
        decreases bytes.len() - i,
    {
        out.push(bytes[i]);
        assert(out@ =~= old(out)@ + bytes@.subrange(0, i + 1));
        i = i + 1;
    }
    assert(bytes@.subrange(0, bytes.len() as int) =~= bytes@);
}

/// A vector with the bytes of `bytes`.
pub fn slice_to_vec(bytes: &[u8]) -> (r: Vec<u8>)
    ensures
        r@ == bytes@,
{
    let mut out: Vec<u8> = Vec::new();
    push_bytes(&mut out, bytes);
    assert(Seq::<u8>::empty() + bytes@ =~= bytes@);
    out
}

/// Reads a number of `len` bytes from the front of `bytes`: the number and
/// the bytes behind it, or nothing where `bytes` is too short.
pub open spec fn take_num(bytes: Seq<u8>, len: nat) -> Option<(nat, Seq<u8>)> {
    if bytes.len() >= len {
        Some((le_value(bytes.take(len as int)), bytes.skip(len as int)))
    } else {
        None
    }
}

/// The `len` digits of a number below `256^len` stand for the number.
pub proof fn lemma_digits_round_trip(n: nat, len: nat)
    ensures
        digits_of(n, len).len() == len,
        n < pow256(len) ==> le_value(digits_of(n, len)) == n,
{
    lemma_digits_of_value(n, len);
    if n < pow256(len) {
        vstd::arithmetic::div_mod::lemma_small_mod(n, pow256(len));
    }
}

/// Appends the 32 bytes of `value` to `out`.
pub fn push_u256(out: &mut Vec<u8>, value: &U256)
    ensures
        final(out)@ == old(out)@ + digits_of(value@, 32),
{
    proof {
        lemma_digits_of_le_value(value.bytes@);
    }
    push_bytes(out, value.bytes.as_slice());
}

/// The number that the `len` bytes of `bytes` from `at` on stand for.
pub fn read_num(bytes: &[u8], at: usize, len: usize) -> (r: u128)
    requires
        len <= 16,
        at + len <= bytes.len(),
    ensures
        r == le_value(bytes@.subrange(at as int, at + len)),
{
    let mut acc: u128 = 0;
    let mut k: usize = len;
    proof {
        assert(bytes@.subrange(at + len, at + len) =~= Seq::<u8>::empty());
    }
    while k > 0
        invariant
            k <= len <= 16,
            at + len <= bytes.len(),
            acc == le_value(bytes@.subrange(at + k, at + len)),
        decreases k,
    {
        let ghost upper = bytes@.subrange(at + k, at + len);
        let ghost wider = bytes@.subrange(at + k - 1, at + len);
        proof {
            assert(wider.drop_first() =~= upper);
            assert(wider[0] == bytes@[at + k - 1]);
            lemma_le_value_bound(upper);
            crate::digits::lemma_pow256_monotonic(upper.len(), 15);
            crate::digits::lemma_pow256_15();
        }
        acc = acc * 256 + bytes[at + k - 1] as u128;
        k = k - 1;
    }
    acc
}

/// The 256-bit value that the 32 bytes of `bytes` from `at` on stand for.
pub fn read_u256(bytes: &[u8], at: usize) -> (r: U256)
    requires
        at + 32 <= bytes.len(),
    ensures
        r@ == le_value(bytes@.subrange(at as int, at + 32)),
{
    let mut out: [u8; 32] = [0u8;32];
    let mut i: usize = 0;
    while i < 32
        invariant
            i <= 32,
            at + 32 <= bytes.len(),
            forall|j: int| 0 <= j < i ==> out@[j] == bytes@[at + j],
        decreases 32 - i,
    {
        out[i] = bytes[at + i];
        i = i + 1;
    }
    assert(out@ =~= bytes@.subrange(at as int, at + 32));
    U256 { bytes: out }
}

/// The bytes of a public key.
pub open spec fn spec_key_bytes(key: KeyView) -> Seq<u8> {
    digits_of(key.p, 32) + digits_of(key.g, 32) + digits_of(key.h, 32) + digits_of(
        key.bit_length as nat,
        4,
    )
}

/// The public key that the first 100 bytes of `bytes` stand for.
pub open spec fn read_key(bytes: Seq<u8>) -> KeyView {
    KeyView {
        p: le_value(bytes.subrange(0, 32)),
        g: le_value(bytes.subrange(32, 64)),
        h: le_value(bytes.subrange(64, 96)),
        bit_length: le_value(bytes.subrange(96, 100)) as u32,
    }
}

/// Appends the bytes of a public key to `out`.
pub fn push_key(out: &mut Vec<u8>, key: &RawPublicKey)
    ensures
        final(out)@ == old(out)@ + spec_key_bytes(key@),
{
    push_u256(out, &key.p);
    push_u256(out, &key.g);
    push_u256(out, &key.h);
    push_le_digits(out, key.bit_length as u128, 4);
    assert(out@ =~= old(out)@ + spec_key_bytes(key@));
}

/// Whether the numbers of a solution fit in 256 bits each.
pub open spec fn spec_solution_fits(solution: Solution<nat>) -> bool {
    &&& solution.a < U256::modulus()
    &&& solution.b < U256::modulus()
    &&& solution.n < U256::modulus()
}

/// The bytes of a solution.
pub open spec fn spec_solution_bytes(solution: Solution<nat>) -> Seq<u8> {
    digits_of(solution.a, 32) + digits_of(solution.b, 32) + digits_of(solution.n, 32)
}

/// The solution that the first 96 bytes of `bytes` stand for.
pub open spec fn read_solution(bytes: Seq<u8>) -> Solution<nat> {
    Solution {
        a: le_value(bytes.subrange(0, 32)),
        b: le_value(bytes.subrange(32, 64)),
        n: le_value(bytes.subrange(64, 96)),
    }
}

/// Appends the bytes of a solution to `out`.
pub fn push_solution(out: &mut Vec<u8>, solution: &Solution<U256>)
    ensures
        final(out)@ == old(out)@ + spec_solution_bytes(solution@),
{
    push_u256(out, &solution.a);
    push_u256(out, &solution.b);
    push_u256(out, &solution.n);
    assert(out@ =~= old(out)@ + spec_solution_bytes(solution@));
}

/// The solution that the 96 bytes of `bytes` from `at` on stand for.
pub fn read_solution_at(bytes: &[u8], at: usize) -> (r: Solution<U256>)
    requires
        at + 96 <= bytes.len(),
    ensures
        r@ == read_solution(bytes@.skip(at as int)),
{
    let ghost rest = bytes@.skip(at as int);
    proof {
        assert(rest.subrange(0, 32) =~= bytes@.subrange(at as int, at + 32));
        assert(rest.subrange(32, 64) =~= bytes@.subrange(at + 32, at + 64));
        assert(rest.subrange(64, 96) =~= bytes@.subrange(at + 64, at + 96));
    }
    Solution {
        a: read_u256(bytes, at),
        b: read_u256(bytes, at + 32),
        n: read_u256(bytes, at + 64),
    }
}

} // verus!
